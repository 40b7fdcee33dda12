//! What is said when a program cannot be started.

use vstd::prelude::*;
use crate::listing::quote;
use crate::listing::quoted;

verus! {

/// Whether the system's error code says that the file is no program: 193
/// (not a valid application) or 8 (wrong executable format).
pub open spec fn is_no_program(code: i32) -> bool {
    code == 193 || code == 8
}

/// Tests an error code of the system for "this is no program".
pub fn code_means_no_program(code: i32) -> (b: bool)
    ensures
        b == is_no_program(code),
{
    code == 193 || code == 8
}

/// What is said when a file of the working directory cannot be started;
/// `shown` is the name of the file as it is to appear.
pub open spec fn local_failure(shown: Seq<char>, code: i32, reason: Seq<char>, kind: Seq<char>) -> Seq<
    Seq<char>,
> {
    if is_no_program(code) {
        seq![shown + " is not an executable file."@]
    } else {
        seq!["Error invoking "@ + shown + ": "@ + reason, "Type: "@ + kind]
    }
}

/// The lines that report the failure to start the file shown as `shown`:
/// `code` is the system's error code, `reason` its message and `kind` the
/// name of the kind of error.
pub fn local_failure_under(shown: &str, code: i32, reason: &str, kind: &str) -> (lines: Vec<String>)
    ensures
        lines.deep_view() == local_failure(shown@, code, reason@, kind@),
{
    let mut lines: Vec<String> = Vec::new();
    if code_means_no_program(code) {
        let mut line = String::from_str(shown);
        line.append(" is not an executable file.");
        lines.push(line);
        assert(lines.deep_view() =~= local_failure(shown@, code, reason@, kind@));
    } else {
        let mut first = String::from_str("Error invoking ");
        first.append(shown);
        first.append(": ");
        first.append(reason);
        let mut second = String::from_str("Type: ");
        second.append(kind);
        lines.push(first);
        lines.push(second);
        assert(lines.deep_view() =~= local_failure(shown@, code, reason@, kind@));
    }
    lines
}

/// The lines that report the failure to start the file `command` of the
/// working directory, which is shown in quotes.
pub fn local_failure_lines(command: &str, code: i32, reason: &str, kind: &str) -> (lines: Vec<
    String,
>)
    ensures
        lines.deep_view() == local_failure(quoted(command@), code, reason@, kind@),
{
    let shown = quote(command);
    local_failure_under(shown.as_str(), code, reason, kind)
}

/// The line that reports the failure to start the program `command`.
pub fn program_failure_line(command: &str, reason: &str) -> (line: String)
    ensures
        line@ == "Error invoking "@ + command@ + ": "@ + reason@,
{
    let mut line = String::from_str("Error invoking ");
    line.append(command);
    line.append(": ");
    line.append(reason);
    line
}

} // verus!
