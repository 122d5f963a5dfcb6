//! Units of time and their size in nanoseconds.

use vstd::prelude::*;

verus! {

/// Nanoseconds in one microsecond.
pub const MICRO_TO_NANO: u64 = 1000;

/// Nanoseconds in one millisecond.
pub const MILLI_TO_NANO: u64 = 1000000;

/// Nanoseconds in one second.
pub const SECS_TO_NANO: u64 = 1000000000;

/// A unit in which a duration can be written.
#[derive(Clone, Copy, Debug, PartialEq, Eq, Structural)]
pub enum TimeUnit {
    Secs,
    Millis,
    Micros,
    Nanos,
}

/// How many nanoseconds one of `u` stands for.
pub open spec fn nanos_per(u: TimeUnit) -> u64 {
    match u {
        TimeUnit::Secs => SECS_TO_NANO,
        TimeUnit::Millis => MILLI_TO_NANO,
        TimeUnit::Micros => MICRO_TO_NANO,
        TimeUnit::Nanos => 1,
    }
}

/// The unit that a suffix names: `s`, `ms`, `us` or `ns`.
pub open spec fn unit_of_suffix(t: Seq<char>) -> Option<TimeUnit> {
    if t == seq!['s'] {
        Some(TimeUnit::Secs)
    } else if t == seq!['m', 's'] {
        Some(TimeUnit::Millis)
    } else if t == seq!['u', 's'] {
        Some(TimeUnit::Micros)
    } else if t == seq!['n', 's'] {
        Some(TimeUnit::Nanos)
    } else {
        None
    }
}

impl TimeUnit {
    /// Nanoseconds in one of this unit.
    pub fn nanos_per_unit(self) -> (r: u64)
        ensures
            r == nanos_per(self),
    {
        match self {
            TimeUnit::Secs => SECS_TO_NANO,
            TimeUnit::Millis => MILLI_TO_NANO,
            TimeUnit::Micros => MICRO_TO_NANO,
            TimeUnit::Nanos => 1,
        }
    }

    /// The unit named by `suffix`, or `None` where it names none.
    pub fn from_suffix(suffix: &str) -> (r: Option<TimeUnit>)
        ensures
            r == unit_of_suffix(suffix@),
    {
        let n = suffix.unicode_len();
        if n == 1 {
            let c0 = suffix.get_char(0);
            if c0 == 's' {
                assert(suffix@ =~= seq!['s']);
                return Some(TimeUnit::Secs);
            }
            assert(suffix@[0] != seq!['s'][0]);
        } else if n == 2 {
            let c0 = suffix.get_char(0);
            let c1 = suffix.get_char(1);
            if c1 == 's' {
                if c0 == 'm' {
                    assert(suffix@ =~= seq!['m', 's']);
                    return Some(TimeUnit::Millis);
                } else if c0 == 'u' {
                    assert(suffix@ =~= seq!['u', 's']);
                    return Some(TimeUnit::Micros);
                } else if c0 == 'n' {
                    assert(suffix@ =~= seq!['n', 's']);
                    return Some(TimeUnit::Nanos);
                }
                assert(suffix@[0] != seq!['m', 's'][0]);
                assert(suffix@[0] != seq!['u', 's'][0]);
                assert(suffix@[0] != seq!['n', 's'][0]);
            } else {
                assert(suffix@[1] != seq!['m', 's'][1]);
                assert(suffix@[1] != seq!['u', 's'][1]);
                assert(suffix@[1] != seq!['n', 's'][1]);
            }
        }
        None
    }
}

} // verus!
