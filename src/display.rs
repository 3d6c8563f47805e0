//! State of the monitoring client's screen: whether its fixed layout is
//! drawn, and a rolling log of the latest messages.
use vstd::prelude::*;
use std::collections::VecDeque;

verus! {

/// Number of log lines the client keeps.
pub const MAX_LOG_LINES: usize = 8;

/// Screen state of the monitoring client.
pub struct DisplayState {
    pub initialized: bool,
    pub log_messages: VecDeque<String>,
    pub max_log_lines: usize,
}

impl DisplayState {
    /// Nothing drawn yet and an empty log of `MAX_LOG_LINES` lines.
    pub fn new() -> (r: DisplayState)
        ensures
            !r.initialized,
            r.log_messages@.len() == 0,
            r.max_log_lines == MAX_LOG_LINES,
    {
        DisplayState { initialized: false, log_messages: VecDeque::new(), max_log_lines: MAX_LOG_LINES }
    }

    /// Appends a message; when the log then holds more than
    /// `max_log_lines` messages, the oldest is dropped.
    pub fn add_log(&mut self, message: String)
        ensures
            final(self).log_messages@ == if old(self).log_messages@.len() + 1 > old(
                self,
            ).max_log_lines {
                old(self).log_messages@.push(message).drop_first()
            } else {
                old(self).log_messages@.push(message)
            },
            final(self).initialized == old(self).initialized,
            final(self).max_log_lines == old(self).max_log_lines,
    {
        self.log_messages.push_back(message);
        if self.log_messages.len() > self.max_log_lines {
            self.log_messages.pop_front();
        }
        proof {
            assert(old(self).log_messages@.push(message).drop_first() =~= old(
                self,
            ).log_messages@.push(message).subrange(1, old(self).log_messages@.len() as int + 1));
        }
    }
}

} // verus!
