//! Messages for the logging thread, and what it does with each.
use vstd::prelude::*;

verus! {

/// A message for the logger.
#[derive(Clone, Debug)]
pub enum LoggerMessage {
    /// A line to print.
    Message(String),
    /// A signal that is acknowledged and otherwise ignored.
    Complete,
    /// Stops the logger.
    Abort,
}

/// What the logger does on a message.
#[derive(Clone, Debug)]
pub enum LogAction {
    /// Print this line.
    Print(String),
    /// Wait for the next message.
    Wait,
    /// Stop.
    Stop,
}

impl LoggerMessage {
    /// What the logger does on this message: print a line, wait for the
    /// next message on a completion signal, or stop on an abort.
    pub fn action(self) -> (r: LogAction)
        ensures
            match self {
                LoggerMessage::Message(m) => r matches LogAction::Print(p) && p@ == m@,
                LoggerMessage::Complete => r is Wait,
                LoggerMessage::Abort => r is Stop,
            },
    {
        match self {
            LoggerMessage::Message(m) => LogAction::Print(m),
            LoggerMessage::Complete => LogAction::Wait,
            LoggerMessage::Abort => LogAction::Stop,
        }
    }
}

/// The log target whose records are printed.
pub open spec fn own_target() -> Seq<char> {
    seq!['c', '2', 'p', 'd', 'f']
}

/// Whether records of `target` are printed: only this program's own are,
/// at every level.
pub fn enabled(target: &str) -> (r: bool)
    ensures
        r == (target@ == own_target()),
{
    let n = target.unicode_len();
    let r = n == 5 && target.get_char(0) == 'c' && target.get_char(1) == '2' && target.get_char(2)
        == 'p' && target.get_char(3) == 'd' && target.get_char(4) == 'f';
    proof {
        if r {
            assert(target@ =~= own_target());
        }
        if target@ == own_target() {
            assert(target@[0] == 'c' && target@[1] == '2' && target@[2] == 'p' && target@[3] == 'd'
                && target@[4] == 'f');
        }
    }
    r
}

} // verus!
