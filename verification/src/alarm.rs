use vstd::prelude::*;
use vstd::string::StrSliceExecFns;
use crate::time::{TimeOfDay, digit_val, digit_char, digit_of, two_digits, lemma_digit_char_val};
use vstd::string::StringExecFns;

verus! {

/// An alarm: a wall-clock time of day at minute granularity.
#[derive(Clone, Copy, PartialEq, Eq, Structural, Debug)]
pub struct AlarmTime {
    pub hour: u8,
    pub minute: u8,
}

impl AlarmTime {
    pub open spec fn wf(self) -> bool {
        self.hour < 24 && self.minute < 60
    }
}

/// An alarm matches a time of day when hour and minute agree; seconds are ignored.
pub open spec fn matches_minute(a: AlarmTime, t: TimeOfDay) -> bool {
    a.hour == t.hour && a.minute == t.minute
}

/// Some alarm in the set matches the given time at minute granularity.
pub open spec fn alarm_matches(alarms: Seq<AlarmTime>, t: TimeOfDay) -> bool {
    exists|k: int| 0 <= k < alarms.len() && matches_minute(#[trigger] alarms[k], t)
}

/// A dismissal suppresses the given time exactly when it records the same minute.
pub open spec fn dismissal_covers(d: Option<AlarmTime>, t: TimeOfDay) -> bool {
    match d {
        Some(a) => matches_minute(a, t),
        None => false,
    }
}

/// The alarm state is active: some alarm matches the current local minute and
/// no dismissal covers that minute.
pub open spec fn active_spec(t: TimeOfDay, alarms: Seq<AlarmTime>, d: Option<AlarmTime>) -> bool {
    alarm_matches(alarms, t) && !dismissal_covers(d, t)
}

/// A dismissal survives only the exact minute it was recorded in.
pub open spec fn clear_spec(d: Option<AlarmTime>, now: TimeOfDay) -> Option<AlarmTime> {
    match d {
        Some(a) => if matches_minute(a, now) {
            d
        } else {
            None
        },
        None => None,
    }
}

/// The dismissal recorded when dismissing at time `t`.
pub open spec fn dismissed_at(t: TimeOfDay) -> AlarmTime {
    AlarmTime { hour: t.hour, minute: t.minute }
}

pub fn is_active(now: &TimeOfDay, alarms: &Vec<AlarmTime>, dismissal: &Option<AlarmTime>) -> (r:
    bool)
    ensures
        r == active_spec(*now, alarms@, *dismissal),
{
    let mut matched = false;
    let mut k: usize = 0;
    while k < alarms.len()
        invariant
            0 <= k <= alarms@.len(),
            matched == alarm_matches(alarms@.take(k as int), *now),
        decreases alarms@.len() - k,
    {
        let a = alarms[k];
        if a.hour == now.hour && a.minute == now.minute {
            matched = true;
        }
        proof {
            assert(alarms@.take(k + 1 as int).drop_last() =~= alarms@.take(k as int));
            assert(alarms@.take(k + 1 as int).last() == alarms@[k as int]);
            if matched && !alarm_matches(alarms@.take(k as int), *now) {
                assert(matches_minute(alarms@.take(k + 1 as int)[k as int], *now));
            }
            if alarm_matches(alarms@.take(k as int), *now) {
                let w = choose|w: int|
                    0 <= w < k && matches_minute(#[trigger] alarms@.take(k as int)[w], *now);
                assert(matches_minute(alarms@.take(k + 1 as int)[w], *now));
            }
        }
        k = k + 1;
    }
    proof {
        assert(alarms@.take(alarms@.len() as int) =~= alarms@);
    }
    let covered = match dismissal {
        Some(d) => d.hour == now.hour && d.minute == now.minute,
        None => false,
    };
    matched && !covered
}

/// Step performed once per tick, before evaluation: a dismissal whose minute
/// has passed is cleared.
pub fn clear_stale(dismissal: &Option<AlarmTime>, now: &TimeOfDay) -> (r: Option<AlarmTime>)
    ensures
        r == clear_spec(*dismissal, *now),
{
    match dismissal {
        Some(d) => {
            if d.hour == now.hour && d.minute == now.minute {
                Some(*d)
            } else {
                None
            }
        },
        None => None,
    }
}

/// Record a dismissal for the current minute.
pub fn dismiss(now: &TimeOfDay) -> (r: AlarmTime)
    ensures
        r == dismissed_at(*now),
        now.wf() ==> r.wf(),
{
    AlarmTime { hour: now.hour, minute: now.minute }
}

/// An alarm that matches the current hour and minute is active at every second
/// of that minute, absent a dismissal.
pub proof fn lemma_active_any_second(alarms: Seq<AlarmTime>, a: AlarmTime, t: TimeOfDay)
    requires
        alarms.contains(a),
        a.hour == t.hour,
        a.minute == t.minute,
    ensures
        active_spec(t, alarms, None),
{
    let k = choose|k: int| 0 <= k < alarms.len() && alarms[k] == a;
    assert(matches_minute(alarms[k], t));
}

/// Alarm evaluation is minute-granular: two times in the same minute are
/// evaluated alike, whatever their seconds.
pub proof fn lemma_active_ignores_seconds(
    t1: TimeOfDay,
    t2: TimeOfDay,
    alarms: Seq<AlarmTime>,
    d: Option<AlarmTime>,
)
    requires
        t1.hour == t2.hour,
        t1.minute == t2.minute,
    ensures
        active_spec(t1, alarms, d) == active_spec(t2, alarms, d),
{
    if alarm_matches(alarms, t1) {
        let k = choose|k: int| 0 <= k < alarms.len() && matches_minute(#[trigger] alarms[k], t1);
        assert(matches_minute(alarms[k], t2));
    }
    if alarm_matches(alarms, t2) {
        let k = choose|k: int| 0 <= k < alarms.len() && matches_minute(#[trigger] alarms[k], t2);
        assert(matches_minute(alarms[k], t1));
    }
}

/// A dismissal recorded at `t` silences the alarm for the rest of `t`'s minute
/// and no longer: at any time in a different minute the pre-evaluation clearing
/// step drops it, and evaluation again reports exactly whether an alarm matches.
pub proof fn lemma_dismissal_one_minute(
    alarms: Seq<AlarmTime>,
    t: TimeOfDay,
    later: TimeOfDay,
    next: TimeOfDay,
)
    requires
        t.hour == later.hour,
        t.minute == later.minute,
        !(next.hour == t.hour && next.minute == t.minute),
    ensures
        !active_spec(later, alarms, Some(dismissed_at(t))),
        clear_spec(Some(dismissed_at(t)), next) == None::<AlarmTime>,
        active_spec(next, alarms, clear_spec(Some(dismissed_at(t)), next)) == alarm_matches(
            alarms,
            next,
        ),
{
}

/// The text of an alarm, `HH:MM`.
pub open spec fn alarm_text(a: AlarmTime) -> Seq<char> {
    two_digits(a.hour as int) + seq![':'] + two_digits(a.minute as int)
}

/// The alarm an `HH:MM` string denotes: exactly five characters, two decimal
/// digits, a colon, two decimal digits, naming a valid hour and minute.
pub open spec fn parse_alarm_spec(s: Seq<char>) -> Option<AlarmTime> {
    if s.len() == 5 && digit_val(s[0]) is Some && digit_val(s[1]) is Some && s[2] == ':'
        && digit_val(s[3]) is Some && digit_val(s[4]) is Some {
        let h = 10 * digit_val(s[0]).unwrap() as int + digit_val(s[1]).unwrap() as int;
        let m = 10 * digit_val(s[3]).unwrap() as int + digit_val(s[4]).unwrap() as int;
        if h < 24 && m < 60 {
            Some(AlarmTime { hour: h as u8, minute: m as u8 })
        } else {
            None
        }
    } else {
        None
    }
}

pub fn parse_alarm(s: &str) -> (r: Option<AlarmTime>)
    ensures
        r == parse_alarm_spec(s@),
        r is Some ==> r.unwrap().wf(),
{
    if s.unicode_len() != 5 {
        return None;
    }
    let d0 = digit_of(s.get_char(0));
    let d1 = digit_of(s.get_char(1));
    let colon = s.get_char(2);
    let d3 = digit_of(s.get_char(3));
    let d4 = digit_of(s.get_char(4));
    match (d0, d1, d3, d4) {
        (Some(h1), Some(h0), Some(m1), Some(m0)) => {
            if colon == ':' {
                let h = 10 * h1 + h0;
                let m = 10 * m1 + m0;
                if h < 24 && m < 60 {
                    Some(AlarmTime { hour: h, minute: m })
                } else {
                    None
                }
            } else {
                None
            }
        },
        _ => None,
    }
}

pub fn format_alarm(a: &AlarmTime) -> (r: String)
    requires
        a.wf(),
    ensures
        r@ == alarm_text(*a),
{
    let mut s = crate::time::format_two(a.hour);
    proof {
        reveal_strlit(":");
        assert(":"@ =~= seq![':']);
    }
    s.append(":");
    let t = crate::time::format_two(a.minute);
    let r = s.concat(t.as_str());
    assert(r@ =~= alarm_text(*a));
    r
}

/// Formatting an alarm and parsing the text back returns the same alarm.
pub proof fn lemma_alarm_round_trip(a: AlarmTime)
    requires
        a.wf(),
    ensures
        parse_alarm_spec(alarm_text(a)) == Some(a),
{
    let s = alarm_text(a);
    assert(s.len() == 5);
    assert(s[0] == digit_char(a.hour as int / 10));
    assert(s[1] == digit_char(a.hour as int % 10));
    assert(s[2] == ':');
    assert(s[3] == digit_char(a.minute as int / 10));
    assert(s[4] == digit_char(a.minute as int % 10));
    lemma_digit_char_val(a.hour as int / 10);
    lemma_digit_char_val(a.hour as int % 10);
    lemma_digit_char_val(a.minute as int / 10);
    lemma_digit_char_val(a.minute as int % 10);
    assert(10 * (a.hour as int / 10) + a.hour as int % 10 == a.hour as int);
    assert(10 * (a.minute as int / 10) + a.minute as int % 10 == a.minute as int);
}

/// Parse a list of alarm strings, as given on the command line: all must
/// parse; the first that does not is reported by its index and no alarms are
/// returned.
pub fn parse_alarms(strs: &Vec<String>) -> (r: Result<Vec<AlarmTime>, usize>)
    ensures
        match r {
            Ok(al) => {
                &&& al@.len() == strs@.len()
                &&& forall|i: int|
                    0 <= i < strs@.len() ==> parse_alarm_spec(#[trigger] strs@[i]@) == Some(
                        al@[i],
                    )
                &&& forall|i: int| 0 <= i < al@.len() ==> (#[trigger] al@[i]).wf()
            },
            Err(i) => {
                &&& 0 <= i < strs@.len()
                &&& parse_alarm_spec(strs@[i as int]@) is None
                &&& forall|j: int| 0 <= j < i ==> parse_alarm_spec(#[trigger] strs@[j]@) is Some
            },
        },
{
    let mut al: Vec<AlarmTime> = Vec::new();
    let mut k: usize = 0;
    while k < strs.len()
        invariant
            0 <= k <= strs@.len(),
            al@.len() == k,
            forall|j: int|
                0 <= j < k ==> parse_alarm_spec(#[trigger] strs@[j]@) == Some(al@[j]),
            forall|j: int| 0 <= j < k ==> (#[trigger] al@[j]).wf(),
        decreases strs@.len() - k,
    {
        match parse_alarm(strs[k].as_str()) {
            Some(a) => {
                al.push(a);
            },
            None => {
                return Err(k);
            },
        }
        k = k + 1;
    }
    Ok(al)
}

/// The alarms denoted by a stored list of strings, in order; entries that do
/// not parse are passed over, as when a config file is reloaded.
pub open spec fn kept_alarms(ss: Seq<Seq<char>>) -> Seq<AlarmTime>
    decreases ss.len(),
{
    if ss.len() == 0 {
        Seq::empty()
    } else {
        kept_alarms(ss.drop_last()) + match parse_alarm_spec(ss.last()) {
            Some(a) => seq![a],
            None => Seq::empty(),
        }
    }
}

/// The stored texts of a list of alarms, in order.
pub open spec fn alarm_texts(al: Seq<AlarmTime>) -> Seq<Seq<char>> {
    al.map_values(|a: AlarmTime| alarm_text(a))
}

/// Reload a stored alarm list: keep, in order, each entry that parses.
pub fn alarms_from_strings(ss: &Vec<String>) -> (r: Vec<AlarmTime>)
    ensures
        r@ == kept_alarms(ss@.map_values(|s: String| s@)),
        forall|i: int| 0 <= i < r@.len() ==> #[trigger] r@[i].wf(),
{
    let ghost m = ss@.map_values(|s: String| s@);
    let mut r: Vec<AlarmTime> = Vec::new();
    let mut k: usize = 0;
    while k < ss.len()
        invariant
            0 <= k <= ss@.len(),
            m == ss@.map_values(|s: String| s@),
            r@ == kept_alarms(m.take(k as int)),
            forall|i: int| 0 <= i < r@.len() ==> #[trigger] r@[i].wf(),
        decreases ss@.len() - k,
    {
        let parsed = parse_alarm(ss[k].as_str());
        proof {
            assert(m.take(k + 1 as int).drop_last() =~= m.take(k as int));
            assert(m.take(k + 1 as int).last() == m[k as int]);
        }
        match parsed {
            Some(a) => {
                r.push(a);
            },
            None => {},
        }
        k = k + 1;
    }
    proof {
        assert(m.take(ss@.len() as int) =~= m);
    }
    r
}

/// Write an alarm list out as its stored `HH:MM` texts.
pub fn alarms_to_strings(al: &Vec<AlarmTime>) -> (r: Vec<String>)
    requires
        forall|i: int| 0 <= i < al@.len() ==> #[trigger] al@[i].wf(),
    ensures
        r@.map_values(|s: String| s@) == alarm_texts(al@),
{
    let mut r: Vec<String> = Vec::new();
    let mut k: usize = 0;
    while k < al.len()
        invariant
            0 <= k <= al@.len(),
            forall|i: int| 0 <= i < al@.len() ==> #[trigger] al@[i].wf(),
            r@.len() == k,
            forall|i: int| 0 <= i < k ==> #[trigger] r@[i]@ == alarm_text(al@[i]),
        decreases al@.len() - k,
    {
        let s = format_alarm(&al[k]);
        r.push(s);
        k = k + 1;
    }
    proof {
        assert(r@.map_values(|s: String| s@) =~= alarm_texts(al@));
    }
    r
}

/// Round trip: a persisted alarm list, reloaded, is the same list the run
/// started from.
pub proof fn lemma_alarm_list_round_trip(al: Seq<AlarmTime>)
    requires
        forall|i: int| 0 <= i < al.len() ==> #[trigger] al[i].wf(),
    ensures
        kept_alarms(alarm_texts(al)) == al,
    decreases al.len(),
{
    if al.len() == 0 {
        assert(kept_alarms(alarm_texts(al)) =~= al);
    } else {
        lemma_alarm_list_round_trip(al.drop_last());
        assert(alarm_texts(al).drop_last() =~= alarm_texts(al.drop_last()));
        lemma_alarm_round_trip(al.last());
        assert(alarm_texts(al).last() == alarm_text(al.last()));
        assert(kept_alarms(alarm_texts(al)) =~= al);
    }
}

} // verus!
