//! The lines in which `cp` and `mv` tell the user how a transfer went.
//!
//! A single file is reported in words, a directory with the number of files
//! that were transferred. Paths are shown as the caller renders them.

use vstd::prelude::*;
use crate::args::UsageError;
use crate::engine::ErrorV;
use crate::engine::NodeKind;
use crate::engine::TransferError;
use crate::path::Path;
use crate::policy::Mode;
use crate::text::decimal;
use crate::text::push_decimal;

verus! {

/// The name of the command that transfers in this mode, with the colon and
/// space that open its messages.
pub open spec fn command_tag(mode: Mode) -> Seq<char> {
    match mode {
        Mode::Copy => "cp: "@,
        Mode::Move => "mv: "@,
    }
}

fn tagged(mode: Mode) -> (out: String)
    ensures
        out@ == command_tag(mode),
{
    match mode {
        Mode::Copy => String::from_str("cp: "),
        Mode::Move => String::from_str("mv: "),
    }
}

/// What is said of arguments that cannot be used. Switches that contradict
/// each other are reported under `cp`, whichever command was given.
pub open spec fn usage_text(mode: Mode, error: UsageError) -> Seq<char> {
    match error {
        UsageError::NoArguments => command_tag(mode) + "There are no arguments."@,
        UsageError::NotEnoughArguments => command_tag(mode) + "There are not enough arguments."@,
        UsageError::MissingSourceAndDestination => command_tag(mode)
            + "Source and destination arguments weren't provided."@,
        UsageError::MissingDestination => command_tag(mode)
            + "Destination argument wasn't provided."@,
        UsageError::ConflictingFlags => "cp: Opposite arguments -y and -n were provided."@,
    }
}

/// The line that reports unusable arguments.
pub fn usage_message(mode: Mode, error: UsageError) -> (out: String)
    ensures
        out@ == usage_text(mode, error),
{
    match error {
        UsageError::NoArguments => {
            let mut out = tagged(mode);
            out.append("There are no arguments.");
            out
        },
        UsageError::NotEnoughArguments => {
            let mut out = tagged(mode);
            out.append("There are not enough arguments.");
            out
        },
        UsageError::MissingSourceAndDestination => {
            let mut out = tagged(mode);
            out.append("Source and destination arguments weren't provided.");
            out
        },
        UsageError::MissingDestination => {
            let mut out = tagged(mode);
            out.append("Destination argument wasn't provided.");
            out
        },
        UsageError::ConflictingFlags => String::from_str(
            "cp: Opposite arguments -y and -n were provided.",
        ),
    }
}

/// The path that an error is about, if it is about one.
pub fn blamed_path(error: &TransferError) -> (path: Option<Path>)
    ensures
        match error@ {
            ErrorV::SameLocation(p) | ErrorV::AlreadyExists(p) | ErrorV::BoundExceeded(p) | ErrorV::Io(
                p,
                _,
            ) => path matches Some(got) && got@ == p,
            _ => path is None,
        },
{
    match error {
        TransferError::SameLocation(p) => Some(p.clone()),
        TransferError::AlreadyExists(p) => Some(p.clone()),
        TransferError::BoundExceeded(p) => Some(p.clone()),
        TransferError::Io(p, _) => Some(p.clone()),
        _ => None,
    }
}

/// Whether the error was found before anything was transferred, by the
/// checks on source and destination.
pub open spec fn is_precondition(error: ErrorV) -> bool {
    error is SourceMissing || error is DestinationMissing || error is DestinationNotDirectory
        || error is SourceUnnamed
}

/// What is said of an error; `shown` is the path that it is about.
pub open spec fn error_text(mode: Mode, error: ErrorV, shown: Seq<char>) -> Seq<char> {
    match error {
        ErrorV::SourceMissing => command_tag(mode) + "The source doesn't exist."@,
        ErrorV::DestinationMissing => command_tag(mode) + "The destination path doesn't exist."@,
        ErrorV::DestinationNotDirectory => command_tag(mode)
            + "The destination path must be a directory."@,
        ErrorV::SourceUnnamed => command_tag(mode) + "The source has no name."@,
        ErrorV::SameLocation(_) => match mode {
            Mode::Copy => shown + ": Copy on the same location"@,
            Mode::Move => shown + ": Move to the same location"@,
        },
        ErrorV::AlreadyExists(_) => shown + ": Destination already exists"@,
        ErrorV::BoundExceeded(_) => shown
            + ": Infinite loop while looking for a valid numbered filename."@,
        ErrorV::Io(_, reason) => shown + ": "@ + reason,
    }
}

/// Puts an error into words; `shown` is the path that it is about, as the
/// user is to see it.
pub fn error_message(mode: Mode, error: &TransferError, shown: &str) -> (out: String)
    ensures
        out@ == error_text(mode, error@, shown@),
{
    match error {
        TransferError::SourceMissing => {
            let mut out = tagged(mode);
            out.append("The source doesn't exist.");
            out
        },
        TransferError::DestinationMissing => {
            let mut out = tagged(mode);
            out.append("The destination path doesn't exist.");
            out
        },
        TransferError::DestinationNotDirectory => {
            let mut out = tagged(mode);
            out.append("The destination path must be a directory.");
            out
        },
        TransferError::SourceUnnamed => {
            let mut out = tagged(mode);
            out.append("The source has no name.");
            out
        },
        TransferError::SameLocation(_) => {
            let mut out = String::from_str(shown);
            match mode {
                Mode::Copy => out.append(": Copy on the same location"),
                Mode::Move => out.append(": Move to the same location"),
            }
            out
        },
        TransferError::AlreadyExists(_) => {
            let mut out = String::from_str(shown);
            out.append(": Destination already exists");
            out
        },
        TransferError::BoundExceeded(_) => {
            let mut out = String::from_str(shown);
            out.append(": Infinite loop while looking for a valid numbered filename.");
            out
        },
        TransferError::Io(_, reason) => {
            let mut out = String::from_str(shown);
            out.append(": ");
            out.append(reason.as_str());
            out
        },
    }
}

/// The participle of the mode: `copied` or `moved`.
pub open spec fn done_word(mode: Mode) -> Seq<char> {
    match mode {
        Mode::Copy => "copied"@,
        Mode::Move => "moved"@,
    }
}

/// The line that reports a success.
///
/// A source that is a file is reported as transferred where the count is
/// one, and as not transferred otherwise. Any other source is reported with
/// the count: `1 element was ...`, `N elements were ...`.
pub open spec fn success_text(mode: Mode, source: NodeKind, count: nat) -> Seq<char> {
    if source == NodeKind::File {
        if count == 1 {
            "File "@ + done_word(mode) + " successfully"@
        } else {
            "File was not "@ + done_word(mode)
        }
    } else if count == 1 {
        "1 element was "@ + done_word(mode) + " successfully"@
    } else {
        decimal(count) + " elements were "@ + done_word(mode) + " successfully"@
    }
}

/// The line that reports a failure.
///
/// A failed check on source or destination is reported as it is. An error
/// during the transfer is introduced by what was being transferred, a file
/// or something else.
pub open spec fn failure_text(mode: Mode, source: NodeKind, error: ErrorV, shown: Seq<char>) -> Seq<
    char,
> {
    if is_precondition(error) {
        error_text(mode, error, shown)
    } else if source == NodeKind::File {
        match mode {
            Mode::Copy => "There was an error copying the file: "@ + error_text(mode, error, shown),
            Mode::Move => "There was an error moving the file: "@ + error_text(mode, error, shown),
        }
    } else {
        command_tag(mode) + "There was an error: "@ + error_text(mode, error, shown)
    }
}

fn push_done_word(out: &mut String, mode: Mode)
    ensures
        final(out)@ == old(out)@ + done_word(mode),
{
    match mode {
        Mode::Copy => out.append("copied"),
        Mode::Move => out.append("moved"),
    }
}

/// The line that tells the user how the transfer of a source of this kind
/// went; `shown` is the path that an error is about, as the user is to see
/// it.
pub fn report_line(
    mode: Mode,
    source: NodeKind,
    outcome: &Result<u64, TransferError>,
    shown: &str,
) -> (out: String)
    ensures
        out@ == match outcome {
            Ok(count) => success_text(mode, source, *count as nat),
            Err(error) => failure_text(mode, source, error@, shown@),
        },
{
    match outcome {
        Ok(count) => {
            let mut out = String::new();
            if source == NodeKind::File {
                if *count == 1 {
                    out.append("File ");
                    push_done_word(&mut out, mode);
                    out.append(" successfully");
                } else {
                    out.append("File was not ");
                    push_done_word(&mut out, mode);
                }
            } else if *count == 1 {
                out.append("1 element was ");
                push_done_word(&mut out, mode);
                out.append(" successfully");
            } else {
                push_decimal(&mut out, *count);
                out.append(" elements were ");
                push_done_word(&mut out, mode);
                out.append(" successfully");
            }
            assert(out@ =~= success_text(mode, source, *count as nat));
            out
        },
        Err(error) => {
            let said = error_message(mode, error, shown);
            let precondition = match error {
                TransferError::SourceMissing => true,
                TransferError::DestinationMissing => true,
                TransferError::DestinationNotDirectory => true,
                TransferError::SourceUnnamed => true,
                _ => false,
            };
            if precondition {
                said
            } else if source == NodeKind::File {
                let mut out = match mode {
                    Mode::Copy => String::from_str("There was an error copying the file: "),
                    Mode::Move => String::from_str("There was an error moving the file: "),
                };
                out.append(said.as_str());
                out
            } else {
                let mut out = tagged(mode);
                out.append("There was an error: ");
                out.append(said.as_str());
                out
            }
        },
    }
}

} // verus!
