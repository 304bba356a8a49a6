//! An outline document as the extraction reads it: its headlines in
//! document order, each with its level, tags, properties, schedule and
//! the timestamps of its change-log drawers.

use vstd::prelude::*;

verus! {

/// A date and time of day, to the minute.
#[derive(Clone, Copy, Debug, PartialEq, Eq, Structural)]
pub struct DateTime {
    pub year: i32,
    pub month: u8,
    pub day: u8,
    pub hour: u8,
    pub minute: u8,
}

/// `a` comes strictly before `b`: lexicographic on
/// (year, month, day, hour, minute).
pub open spec fn before(a: DateTime, b: DateTime) -> bool {
    if a.year != b.year {
        a.year < b.year
    } else if a.month != b.month {
        a.month < b.month
    } else if a.day != b.day {
        a.day < b.day
    } else if a.hour != b.hour {
        a.hour < b.hour
    } else {
        a.minute < b.minute
    }
}

/// The later of two points in time.
pub open spec fn later_of(a: DateTime, b: DateTime) -> DateTime {
    if before(a, b) {
        b
    } else {
        a
    }
}

impl DateTime {
    /// Whether `self` comes strictly before `other`.
    pub fn is_before(&self, other: &DateTime) -> (r: bool)
        ensures
            r == before(*self, *other),
    {
        if self.year != other.year {
            self.year < other.year
        } else if self.month != other.month {
            self.month < other.month
        } else if self.day != other.day {
            self.day < other.day
        } else if self.hour != other.hour {
            self.hour < other.hour
        } else {
            self.minute < other.minute
        }
    }
}

/// A timestamp of the outline markup.
#[derive(Clone, Copy, Debug, PartialEq, Eq, Structural)]
pub enum Timestamp {
    Active { start: DateTime, repeater: bool, delay: bool },
    Inactive { start: DateTime, repeater: bool, delay: bool },
    /// Ranges, diary timestamps and every other form.
    Other,
}

/// The start of a plain timestamp: active or inactive, with neither
/// repeater nor delay.
pub open spec fn plain_start(t: Timestamp) -> Option<DateTime> {
    match t {
        Timestamp::Active { start, repeater, delay } => if !repeater && !delay {
            Some(start)
        } else {
            None
        },
        Timestamp::Inactive { start, repeater, delay } => if !repeater && !delay {
            Some(start)
        } else {
            None
        },
        Timestamp::Other => None,
    }
}

impl Timestamp {
    pub fn plain(&self) -> (r: Option<DateTime>)
        ensures
            r == plain_start(*self),
    {
        match self {
            Timestamp::Active { start, repeater, delay } => if !*repeater && !*delay {
                Some(*start)
            } else {
                None
            },
            Timestamp::Inactive { start, repeater, delay } => if !*repeater && !*delay {
                Some(*start)
            } else {
                None
            },
            Timestamp::Other => None,
        }
    }
}

/// One headline: its nesting level, literal title text, tags, property
/// list, schedule, and every timestamp found inside the `LOGBOOK` drawers
/// directly under its section, in document order.
pub struct Headline {
    pub level: usize,
    pub raw: String,
    pub tags: Vec<String>,
    pub properties: Vec<(String, String)>,
    pub scheduled: Option<Timestamp>,
    pub logbook: Vec<Timestamp>,
}

/// A document: its headlines in document order. The descendants of a
/// headline are the run of deeper headlines that follows it.
pub struct OrgDoc {
    pub headlines: Vec<Headline>,
}

/// Headline `j` lies in the subtree of headline `i`.
pub open spec fn descends(hs: Seq<Headline>, i: int, j: int) -> bool {
    &&& 0 <= i < j < hs.len()
    &&& forall|k: int| i < k <= j ==> #[trigger] hs[k].level > hs[i].level
}

/// `e` is where the subtree of headline `i` ends.
pub open spec fn subtree_end(hs: Seq<Headline>, i: int, e: int) -> bool {
    &&& 0 <= i < e <= hs.len()
    &&& forall|k: int| i < k < e ==> #[trigger] hs[k].level > hs[i].level
    &&& (e == hs.len() || hs[e].level <= hs[i].level)
}

/// Where the subtree of headline `i` ends.
pub fn end_of_subtree(hs: &Vec<Headline>, i: usize) -> (e: usize)
    requires
        i < hs@.len(),
    ensures
        subtree_end(hs@, i as int, e as int),
        forall|j: int| #[trigger] descends(hs@, i as int, j) <==> (i < j < e),
{
    let n = hs.len();
    let mut e: usize = i + 1;
    while e < hs.len() && hs[e].level > hs[i].level
        invariant
            i < e <= hs@.len(),
            forall|k: int| i < k < e ==> #[trigger] hs@[k].level > hs@[i as int].level,
        decreases hs@.len() - e,
    {
        e = e + 1;
    }
    assert forall|j: int| #[trigger] descends(hs@, i as int, j) <==> (i < j < e) by {
        if descends(hs@, i as int, j) && j >= e {
            assert(hs@[e as int].level > hs@[i as int].level);
        }
    }
    e
}

} // verus!
