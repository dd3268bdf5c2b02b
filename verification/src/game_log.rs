//! The combat log: human-readable records appended by game systems.

use vstd::prelude::*;

verus! {

/// One log line raised by a system.
#[derive(Clone, Debug)]
pub struct LogEvent {
    pub message: String,
}

/// Every log line kept, in arrival order.
pub struct LogRecord {
    pub storage: Vec<LogEvent>,
}

impl LogRecord {
    pub fn new() -> (res: LogRecord)
        ensures
            res.storage@.len() == 0,
    {
        LogRecord { storage: Vec::new() }
    }

    /// Appends the drained events to the record.
    pub fn handle_log_events(&mut self, events: Vec<LogEvent>)
        ensures
            final(self).storage@ == old(self).storage@ + events@,
    {
        let mut events = events;
        let ghost all = events@;
        let ghost mut i: int = 0;
        while events.len() > 0
            invariant
                0 <= i <= all.len(),
                events@ == all.subrange(i, all.len() as int),
                self.storage@ == old(self).storage@ + all.subrange(0, i),
            decreases events@.len(),
        {
            let e = events.remove(0);
            self.storage.push(e);
            proof {
                assert(e == all[i]);
                assert(old(self).storage@ + all.subrange(0, i) + seq![all[i]] =~= old(
                    self,
                ).storage@ + all.subrange(0, i + 1));
                assert(events@ =~= all.subrange(i + 1, all.len() as int));
                i = i + 1;
            }
        }
        proof {
            assert(old(self).storage@ + all.subrange(0, i) =~= old(self).storage@ + all);
        }
    }
}

} // verus!
