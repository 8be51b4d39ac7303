//! The daily log of meetings, the sole source of meeting time.
use vstd::prelude::*;
use vstd::string::StringExecFns;
use crate::task::{cap, add_capped};
use crate::history::DayMeetings;

verus! {

/// One meeting and its length in seconds.
#[derive(Clone, Debug, PartialEq)]
pub struct Meeting {
    pub name: String,
    pub secs: u64,
}

/// The meetings of one local day (days since 1970-01-01).
#[derive(Clone, Debug, PartialEq)]
pub struct DailyLog {
    pub date: i64,
    pub meetings: Vec<Meeting>,
}

/// Seconds over the meetings.
pub open spec fn meetings_total(ms: Seq<Meeting>) -> int
    decreases ms.len(),
{
    if ms.len() == 0 {
        0
    } else {
        meetings_total(ms.drop_last()) + ms.last().secs
    }
}

impl DailyLog {
    /// A log of `date` holding one meeting, named `all`, of `secs` seconds.
    pub fn new(date: i64, secs: u64) -> (r: DailyLog)
        ensures
            r.date == date,
            r.meetings@.len() == 1,
            r.meetings@[0].name@ == "all"@,
            r.meetings@[0].secs == secs,
    {
        let mut meetings: Vec<Meeting> = Vec::new();
        meetings.push(Meeting { name: String::from_str("all"), secs });
        DailyLog { date, meetings }
    }

    /// Seconds of all the day's meetings.
    pub fn total_secs(&self) -> (r: u64)
        ensures
            r == cap(meetings_total(self.meetings@)),
    {
        let mut acc: u64 = 0;
        let mut i: usize = 0;
        while i < self.meetings.len()
            invariant
                i <= self.meetings@.len(),
                meetings_total(self.meetings@.subrange(0, i as int)) >= 0,
                acc == cap(meetings_total(self.meetings@.subrange(0, i as int))),
            decreases self.meetings@.len() - i,
        {
            assert(self.meetings@.subrange(0, i + 1).drop_last() == self.meetings@.subrange(0, i as int));
            acc = add_capped(acc, self.meetings[i].secs);
            i = i + 1;
        }
        assert(self.meetings@.subrange(0, self.meetings@.len() as int) == self.meetings@);
        acc
    }
}

/// Meeting time per day, one entry per log, in the same order.
pub fn meeting_days(logs: &Vec<DailyLog>) -> (r: Vec<DayMeetings>)
    ensures
        r@.len() == logs@.len(),
        forall|k: int|
            0 <= k < logs@.len() ==> (#[trigger] r@[k]).day == logs@[k].date && r@[k].secs == cap(
                meetings_total(logs@[k].meetings@),
            ),
{
    let mut r: Vec<DayMeetings> = Vec::new();
    let mut i: usize = 0;
    while i < logs.len()
        invariant
            i <= logs@.len(),
            r@.len() == i,
            forall|k: int|
                0 <= k < i ==> (#[trigger] r@[k]).day == logs@[k].date && r@[k].secs == cap(
                    meetings_total(logs@[k].meetings@),
                ),
        decreases logs@.len() - i,
    {
        let secs = logs[i].total_secs();
        r.push(DayMeetings { day: logs[i].date, secs });
        i = i + 1;
    }
    r
}

} // verus!
