use vstd::prelude::*;
use vstd::string::StrSliceExecFns;
use crate::timesource::Clock;

verus! {

/// Whether chrono-tz knows a zone by this name.
pub uninterp spec fn zone_parses(s: Seq<char>) -> bool;

/// Relies on chrono-tz's `FromStr` for `Tz`: a lookup in a fixed table of
/// zone names, a function of the string alone.
#[verifier::external_body]
fn parse_zone(s: &str) -> (r: Option<chrono_tz::Tz>)
    ensures
        (r is Some) == zone_parses(s@),
{
    s.parse::<chrono_tz::Tz>().ok()
}

/// Build the clock list for a run. Each zone name becomes one clock labelled
/// with that name; the first name chrono-tz does not know is reported by its
/// index and no clocks are built.
pub fn build_clocks(zones: &Vec<String>) -> (r: Result<Vec<Clock>, usize>)
    ensures
        match r {
            Ok(cs) => {
                &&& cs@.len() == zones@.len()
                &&& forall|i: int| 0 <= i < zones@.len() ==> zone_parses(#[trigger] zones@[i]@)
                &&& forall|i: int|
                    0 <= i < zones@.len() ==> (#[trigger] cs@[i].name)@ == zones@[i]@
            },
            Err(i) => {
                &&& 0 <= i < zones@.len()
                &&& !zone_parses(zones@[i as int]@)
                &&& forall|j: int| 0 <= j < i ==> zone_parses(#[trigger] zones@[j]@)
            },
        },
{
    let mut cs: Vec<Clock> = Vec::new();
    let mut k: usize = 0;
    while k < zones.len()
        invariant
            0 <= k <= zones@.len(),
            cs@.len() == k,
            forall|j: int| 0 <= j < k ==> zone_parses(#[trigger] zones@[j]@),
            forall|j: int| 0 <= j < k ==> (#[trigger] cs@[j].name)@ == zones@[j]@,
        decreases zones@.len() - k,
    {
        let name = &zones[k];
        match parse_zone(name.as_str()) {
            Some(tz) => {
                cs.push(Clock { name: name.clone(), tz });
            },
            None => {
                return Err(k);
            },
        }
        k = k + 1;
    }
    Ok(cs)
}

/// Where the displayed zone list came from.
#[derive(Clone, Copy, PartialEq, Eq, Structural, Debug)]
pub enum ZoneSource {
    CommandLine,
    Stored,
    BuiltIn,
}

/// The built-in fallback zone name.
pub open spec fn default_zone() -> Seq<char> {
    "Europe/London"@
}

/// Pick the zone list for a run: command-line zones win; otherwise the stored
/// list; otherwise the single built-in default.
pub fn choose_zones(cli: Vec<String>, stored: Vec<String>) -> (r: (Vec<String>, ZoneSource))
    ensures
        cli@.len() > 0 ==> r.1 == ZoneSource::CommandLine && r.0@ == cli@,
        cli@.len() == 0 && stored@.len() > 0 ==> r.1 == ZoneSource::Stored && r.0@ == stored@,
        cli@.len() == 0 && stored@.len() == 0 ==> r.1 == ZoneSource::BuiltIn && r.0@.len() == 1
            && r.0@[0]@ == default_zone(),
{
    if cli.len() > 0 {
        (cli, ZoneSource::CommandLine)
    } else if stored.len() > 0 {
        (stored, ZoneSource::Stored)
    } else {
        let mut v: Vec<String> = Vec::new();
        v.push("Europe/London".to_owned());
        (v, ZoneSource::BuiltIn)
    }
}

} // verus!
