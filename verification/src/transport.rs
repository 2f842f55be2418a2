//! The hand-over of reports to the transport. The transport may refuse a
//! report; nothing is queued, and the report that is current is offered
//! again in the next period until the transport has taken it.

use vstd::prelude::*;
use crate::report::{report_bytes, Report};

verus! {

/// The report that is current, and whether the transport still has to take
/// it.
#[derive(Clone, Copy, Debug)]
pub struct Outbox {
    report: Report,
    unsent: bool,
}

impl Outbox {
    /// The report that is current.
    pub closed spec fn report(&self) -> Report {
        self.report
    }

    /// Whether the transport still has to take the current report.
    pub closed spec fn unsent(&self) -> bool {
        self.unsent
    }

    /// An outbox whose report is that of no keys, with nothing to send.
    pub fn new() -> (outbox: Outbox)
        ensures
            outbox.report()@ == report_bytes(Seq::empty()),
            !outbox.unsent(),
    {
        Outbox { report: Report::empty(), unsent: false }
    }

    /// Takes in the report of one period. A report that has changed replaces
    /// the current one, sent or not, and is to be sent; one that has not
    /// changed leaves everything as it is.
    pub fn stage(&mut self, report: Report, changed: bool)
        ensures
            final(self).report() == if changed {
                report
            } else {
                old(self).report()
            },
            final(self).unsent() == (old(self).unsent() || changed),
    {
        if changed {
            self.report = report;
            self.unsent = true;
        }
    }

    /// The report to offer to the transport now, if there is one.
    pub fn pending(&self) -> (offer: Option<Report>)
        ensures
            offer == if self.unsent() {
                Some(self.report())
            } else {
                None
            },
    {
        if self.unsent {
            Some(self.report)
        } else {
            None
        }
    }

    /// Records what the transport did with the report that was offered: one
    /// that it consumed is sent, one that it refused stays to be sent.
    pub fn settle(&mut self, consumed: bool)
        ensures
            final(self).report() == old(self).report(),
            final(self).unsent() == (old(self).unsent() && !consumed),
    {
        if consumed {
            self.unsent = false;
        }
    }
}

} // verus!
