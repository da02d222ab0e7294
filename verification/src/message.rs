//! The one result line printed for each outcome.

use vstd::prelude::*;
use vstd::string::StringExecFns;

use crate::duration::format_duration;
use crate::duration::spec_format_duration;
use crate::machine::Outcome;

verus! {

/// The exact text reported for an outcome.
pub open spec fn spec_message(o: Outcome) -> Seq<char> {
    match o {
        Outcome::Started => "Timer started."@,
        Outcome::AlreadyInProgress => "A session is already in progress. Use 'stop' to finish the current session."@,
        Outcome::Paused { session } => "Paused. Current session time: "@ + spec_format_duration(
            session,
        ),
        Outcome::NotRunning => "Timer is not running."@,
        Outcome::Resumed => "Resumed."@,
        Outcome::AlreadyRunning => "Timer is already running."@,
        Outcome::NothingToResume => "No paused session to resume. Use 'start' to begin a session."@,
        Outcome::Stopped { session } => "Stopped. Session time: "@ + spec_format_duration(session),
        Outcome::Spent { total } => "Total time spent: "@ + spec_format_duration(total),
        Outcome::Invalid => "Invalid command. Use 'devtimer --help' for usage info."@,
    }
}

/// Renders the result line for an outcome.
pub fn message(o: &Outcome) -> (r: String)
    ensures
        r@ == spec_message(*o),
{
    match o {
        Outcome::Started => String::from_str("Timer started."),
        Outcome::AlreadyInProgress => String::from_str(
            "A session is already in progress. Use 'stop' to finish the current session.",
        ),
        Outcome::Paused { session } => {
            let mut out = String::from_str("Paused. Current session time: ");
            let d = format_duration(*session);
            out.append(d.as_str());
            out
        },
        Outcome::NotRunning => String::from_str("Timer is not running."),
        Outcome::Resumed => String::from_str("Resumed."),
        Outcome::AlreadyRunning => String::from_str("Timer is already running."),
        Outcome::NothingToResume => String::from_str(
            "No paused session to resume. Use 'start' to begin a session.",
        ),
        Outcome::Stopped { session } => {
            let mut out = String::from_str("Stopped. Session time: ");
            let d = format_duration(*session);
            out.append(d.as_str());
            out
        },
        Outcome::Spent { total } => {
            let mut out = String::from_str("Total time spent: ");
            let d = format_duration(*total);
            out.append(d.as_str());
            out
        },
        Outcome::Invalid => String::from_str("Invalid command. Use 'devtimer --help' for usage info."),
    }
}

} // verus!
