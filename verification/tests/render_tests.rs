use world_clock::alarm::AlarmTime;
use world_clock::grid::{compute_grid, Rect};
use world_clock::render::{handle_input, tick, CycleState, InputSignal, Phase};
use world_clock::time::{format_date, format_time, Date, TimeOfDay, ZoneTime};
use world_clock::timesource::sample_now;
use world_clock::zones::build_clocks;

fn tod(hour: u8, minute: u8, second: u8) -> TimeOfDay {
    TimeOfDay { hour, minute, second }
}

fn zt(hour: u8, minute: u8, second: u8, year: i32, month: u8, day: u8) -> ZoneTime {
    ZoneTime { time: tod(hour, minute, second), date: Date { year, month, day } }
}

fn canvas() -> Rect {
    Rect { x: 0, y: 0, width: 120, height: 40 }
}

fn three_clocks() -> Vec<world_clock::timesource::Clock> {
    let names = vec![
        "America/New_York".to_string(),
        "Europe/London".to_string(),
        "Asia/Tokyo".to_string(),
    ];
    build_clocks(&names).expect("all three zone names are known")
}

fn three_zone_times() -> Vec<ZoneTime> {
    vec![
        zt(3, 30, 5, 2024, 1, 2),
        zt(8, 30, 5, 2024, 1, 2),
        zt(17, 30, 5, 2024, 1, 3),
    ]
}

#[test]
fn time_and_date_lines_are_fixed_width() {
    assert_eq!(format_time(&tod(8, 30, 5)), "08:30:05");
    assert_eq!(format_time(&tod(0, 0, 0)), "00:00:00");
    assert_eq!(format_time(&tod(23, 59, 59)), "23:59:59");
    assert_eq!(format_date(&Date { year: 2024, month: 1, day: 2 }), "2024-01-02");
    assert_eq!(format_date(&Date { year: 800, month: 12, day: 31 }), "0800-12-31");
}

#[test]
fn far_years_keep_all_their_digits() {
    assert_eq!(format_date(&Date { year: 12345, month: 6, day: 7 }), "12345-06-07");
    assert_eq!(format_date(&Date { year: 262142, month: 12, day: 31 }), "262142-12-31");
    assert_eq!(format_date(&Date { year: -1, month: 1, day: 1 }), "-0001-01-01");
    assert_eq!(format_date(&Date { year: -262143, month: 1, day: 1 }), "-262143-01-01");
}

#[test]
fn highlight_is_global_across_all_clocks() {
    // the alarm compares against local wall-clock time, so a match highlights
    // every displayed clock, whatever its own zone time shows
    let clocks = three_clocks();
    let alarms = vec![AlarmTime { hour: 8, minute: 30 }];
    let mut state = CycleState::new();
    let local = tod(8, 30, 10);
    let zts = three_zone_times();
    let (units, active) = tick(&mut state, &clocks, &alarms, local, &zts, canvas());
    assert!(active);
    assert_eq!(units.len(), 3);
    for u in &units {
        assert!(u.highlight);
    }
    assert_eq!(units[0].label, "America/New_York");
    assert_eq!(units[1].label, "Europe/London");
    assert_eq!(units[2].label, "Asia/Tokyo");
    assert_eq!(units[0].time_text, "03:30:05");
    assert_eq!(units[2].time_text, "17:30:05");
    assert_eq!(units[2].date_text, "2024-01-03");
    let areas = compute_grid(3, canvas());
    for (u, a) in units.iter().zip(areas.iter()) {
        assert_eq!(u.area, *a);
    }
}

#[test]
fn no_match_means_no_highlight_anywhere() {
    let clocks = three_clocks();
    let alarms = vec![AlarmTime { hour: 8, minute: 30 }];
    let mut state = CycleState::new();
    let (units, active) = tick(&mut state, &clocks, &alarms, tod(8, 31, 0), &three_zone_times(),
        canvas());
    assert!(!active);
    for u in &units {
        assert!(!u.highlight);
    }
}

#[test]
fn dismissal_flows_through_the_cycle() {
    let clocks = three_clocks();
    let alarms = vec![AlarmTime { hour: 8, minute: 30 }];
    let zts = three_zone_times();
    let mut state = CycleState::new();

    // 08:30:10 — the alarm rings
    let (_, active) = tick(&mut state, &clocks, &alarms, tod(8, 30, 10), &zts, canvas());
    assert!(active);

    // the user dismisses it
    handle_input(&mut state, InputSignal::Dismiss, active, tod(8, 30, 10));
    assert_eq!(state.dismissed, Some(AlarmTime { hour: 8, minute: 30 }));

    // the rest of the minute stays silent
    let (units, active) = tick(&mut state, &clocks, &alarms, tod(8, 30, 45), &zts, canvas());
    assert!(!active);
    for u in &units {
        assert!(!u.highlight);
    }

    // at 08:31 the dismissal clears itself
    let (_, active) = tick(&mut state, &clocks, &alarms, tod(8, 31, 0), &zts, canvas());
    assert!(!active);
    assert_eq!(state.dismissed, None);

    // the same alarm next day rings again
    let (_, active) = tick(&mut state, &clocks, &alarms, tod(8, 30, 0), &zts, canvas());
    assert!(active);
}

#[test]
fn quit_terminates_and_idle_changes_nothing() {
    let mut state = CycleState::new();
    handle_input(&mut state, InputSignal::Idle, false, tod(1, 2, 3));
    assert_eq!(state.phase, Phase::Running);
    assert_eq!(state.dismissed, None);
    // a dismiss signal with no active alarm records nothing
    handle_input(&mut state, InputSignal::Dismiss, false, tod(1, 2, 3));
    assert_eq!(state.dismissed, None);
    handle_input(&mut state, InputSignal::Quit, false, tod(1, 2, 3));
    assert_eq!(state.phase, Phase::Terminated);
}

#[test]
fn tick_with_no_clocks_renders_nothing() {
    let clocks = Vec::new();
    let alarms = vec![AlarmTime { hour: 8, minute: 30 }];
    let mut state = CycleState::new();
    let (units, active) = tick(&mut state, &clocks, &alarms, tod(8, 30, 0), &Vec::new(), canvas());
    assert!(units.is_empty());
    assert!(active);
}

#[test]
fn sampled_times_are_within_range() {
    let clocks = three_clocks();
    let (local, zts) = sample_now(&clocks);
    assert!(local.hour < 24 && local.minute < 60 && local.second < 60);
    assert_eq!(zts.len(), clocks.len());
    for z in &zts {
        assert!(z.time.hour < 24 && z.time.minute < 60 && z.time.second < 60);
        assert!((1..=12).contains(&z.date.month) && (1..=31).contains(&z.date.day));
    }
    // London and New York show the same shared instant, hours apart
    let s0 = zts[0].time.second as i32;
    let s1 = zts[1].time.second as i32;
    assert!((s0 - s1).abs() <= 1 || (s0 - s1).abs() == 59);
}
