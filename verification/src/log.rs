//! Lines for the service's log.
//!
//! A line is a timestamp in square brackets, the level in square brackets, a
//! space and the message. The functions here build the line; printing it is
//! left to the caller.

use vstd::prelude::*;
use vstd::string::StringExecFns;

verus! {

/// The characters of the level `info`.
pub open spec fn info_tag() -> Seq<char> {
    seq!['i', 'n', 'f', 'o']
}

/// The characters of the level `warn`.
pub open spec fn warn_tag() -> Seq<char> {
    seq!['w', 'a', 'r', 'n']
}

/// The characters of the level `error`.
pub open spec fn error_tag() -> Seq<char> {
    seq!['e', 'r', 'r', 'o', 'r']
}

/// The line that reports `msg` at `level`, given the bracketed timestamp.
pub open spec fn line_text(stamp: Seq<char>, level: Seq<char>, msg: Seq<char>) -> Seq<char> {
    stamp + seq!['['] + level + seq![']', ' '] + msg
}

/// The local time of the call as `[YYYY-MM-DD HH:MM:SS]`.
///
/// Calls `chrono::Local::now` and formats the result with
/// `DateTime::format`. The text depends on the clock and on the time zone of
/// the machine, so nothing is claimed of it.
#[verifier::external_body]
fn local_timestamp() -> String {
    chrono::Local::now().format("[%Y-%m-%d %H:%M:%S]").to_string()
}

/// Builds the line that reports `msg` at `level` under the timestamp `stamp`.
pub fn message_line(stamp: &str, level: &str, msg: &str) -> (line: String)
    ensures
        line@ == line_text(stamp@, level@, msg@),
{
    let mut line = stamp.to_owned();
    line.append("[");
    line.append(level);
    line.append("] ");
    line.append(msg);
    proof {
        reveal_strlit("[");
        reveal_strlit("] ");
        assert("["@ =~= seq!['[']);
        assert("] "@ =~= seq![']', ' ']);
    }
    line
}

/// The line that reports `msg` as information, stamped with the time of the
/// call.
pub fn info(msg: &str) -> (line: String)
    ensures
        exists|stamp: Seq<char>| line@ == #[trigger] line_text(stamp, info_tag(), msg@),
{
    let stamp = local_timestamp();
    proof {
        reveal_strlit("info");
        assert("info"@ =~= info_tag());
    }
    let line = message_line(stamp.as_str(), "info", msg);
    assert(line@ == line_text(stamp@, info_tag(), msg@));
    line
}

/// The line that reports `msg` as a warning, stamped with the time of the
/// call.
pub fn warn(msg: &str) -> (line: String)
    ensures
        exists|stamp: Seq<char>| line@ == #[trigger] line_text(stamp, warn_tag(), msg@),
{
    let stamp = local_timestamp();
    proof {
        reveal_strlit("warn");
        assert("warn"@ =~= warn_tag());
    }
    let line = message_line(stamp.as_str(), "warn", msg);
    assert(line@ == line_text(stamp@, warn_tag(), msg@));
    line
}

/// The line that reports `msg` as an error, stamped with the time of the
/// call.
pub fn error(msg: &str) -> (line: String)
    ensures
        exists|stamp: Seq<char>| line@ == #[trigger] line_text(stamp, error_tag(), msg@),
{
    let stamp = local_timestamp();
    proof {
        reveal_strlit("error");
        assert("error"@ =~= error_tag());
    }
    let line = message_line(stamp.as_str(), "error", msg);
    assert(line@ == line_text(stamp@, error_tag(), msg@));
    line
}

} // verus!
