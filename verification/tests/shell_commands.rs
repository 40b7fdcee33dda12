use rust_shell::args::{
    check_enterable, check_single_name, parse_remove_args, parse_transfer_args, plan_removal,
    EnterRefused, NameError, Removal, RemovalRefused, RemoveArgs, RemoveUsage, TransferArgs,
    UsageError,
};
use rust_shell::engine::{NodeKind, TransferError, TransferRequest};
use rust_shell::launch::{code_means_no_program, local_failure_lines, program_failure_line};
use rust_shell::listing::{listing_lines, listing_under, location_name, Listed};
use rust_shell::palette::{detect_palette, palette};
use rust_shell::path::Path;
use rust_shell::policy::{Flags, Mode};
use rust_shell::prefix::{plain_components, strip_verbatim, Component, Prefix};
use rust_shell::report::{blamed_path, error_message, report_line, usage_message};

fn strings(words: &[&str]) -> Vec<String> {
    words.iter().map(|w| w.to_string()).collect()
}

fn rel(parts: &[&str]) -> Path {
    Path { anchor: String::new(), parts: strings(parts) }
}

fn abs(parts: &[&str]) -> Path {
    Path { anchor: "/".to_string(), parts: strings(parts) }
}

fn flags(auto_yes: bool, auto_no: bool, auto_rename: bool) -> Flags {
    Flags { auto_yes, auto_no, auto_rename }
}

#[test]
fn transfer_arguments_are_switches_then_two_paths() {
    assert_eq!(
        parse_transfer_args(&strings(&["a", "b"])),
        Ok(TransferArgs {
            flags: flags(false, false, false),
            source: "a".to_string(),
            destination: "b".to_string(),
        })
    );
    assert_eq!(
        parse_transfer_args(&strings(&["-y", "-r", "src dir", "dst"])),
        Ok(TransferArgs {
            flags: flags(true, false, true),
            source: "src dir".to_string(),
            destination: "dst".to_string(),
        })
    );
    assert_eq!(
        parse_transfer_args(&strings(&["-n", "-x", "a", "b", "c"])),
        Ok(TransferArgs {
            flags: flags(false, true, false),
            source: "a".to_string(),
            destination: "b".to_string(),
        })
    );
}

#[test]
fn switches_end_at_the_first_other_word() {
    assert_eq!(
        parse_transfer_args(&strings(&["a", "-y"])),
        Ok(TransferArgs {
            flags: flags(false, false, false),
            source: "a".to_string(),
            destination: "-y".to_string(),
        })
    );
    assert_eq!(
        parse_transfer_args(&strings(&["-y", "a", "-n", "b"])),
        Ok(TransferArgs {
            flags: flags(true, false, false),
            source: "a".to_string(),
            destination: "-n".to_string(),
        })
    );
}

#[test]
fn unusable_transfer_arguments_are_told_apart() {
    assert_eq!(parse_transfer_args(&strings(&[])), Err(UsageError::NoArguments));
    assert_eq!(parse_transfer_args(&strings(&["a"])), Err(UsageError::NotEnoughArguments));
    assert_eq!(parse_transfer_args(&strings(&["-y"])), Err(UsageError::NotEnoughArguments));
    assert_eq!(
        parse_transfer_args(&strings(&["-y", "-n"])),
        Err(UsageError::MissingSourceAndDestination)
    );
    assert_eq!(parse_transfer_args(&strings(&["-y", "a"])), Err(UsageError::MissingDestination));
    assert_eq!(
        parse_transfer_args(&strings(&["-y", "-n", "a", "b"])),
        Err(UsageError::ConflictingFlags)
    );
}

#[test]
fn a_request_with_yes_and_no_is_refused() {
    assert_eq!(
        TransferRequest::new(abs(&["a"]), abs(&["b"]), Mode::Copy, flags(true, true, false)),
        Err(UsageError::ConflictingFlags)
    );
    let made = TransferRequest::new(abs(&["a"]), abs(&["b"]), Mode::Move, flags(true, false, true));
    assert_eq!(
        made,
        Ok(TransferRequest {
            source: abs(&["a"]),
            destination: abs(&["b"]),
            mode: Mode::Move,
            flags: flags(true, false, true),
            bound: 10000,
        })
    );
    assert_eq!(made.unwrap().with_bound(7).bound, 7);
}

#[test]
fn remove_arguments_are_switches_then_a_path() {
    assert_eq!(
        parse_remove_args(&strings(&["file.txt"])),
        Ok(RemoveArgs { recursive: false, target: "file.txt".to_string() })
    );
    assert_eq!(
        parse_remove_args(&strings(&["-r", "-r", "my", "dir"])),
        Ok(RemoveArgs { recursive: true, target: "my dir".to_string() })
    );
    assert_eq!(
        parse_remove_args(&strings(&["dir", "-r"])),
        Ok(RemoveArgs { recursive: false, target: "dir -r".to_string() })
    );
    assert_eq!(parse_remove_args(&strings(&[])), Err(RemoveUsage::NoParameters));
    assert_eq!(parse_remove_args(&strings(&["-r"])), Err(RemoveUsage::NoPath));
}

#[test]
fn removal_follows_kind_and_switch() {
    let cwd = abs(&["home", "me"]);
    assert_eq!(
        plan_removal(&cwd, true, &abs(&["home", "me", "f"]), NodeKind::File, false),
        Ok(Removal::File)
    );
    assert_eq!(
        plan_removal(&cwd, true, &abs(&["home", "me", "d"]), NodeKind::Directory, true),
        Ok(Removal::Tree)
    );
    assert_eq!(
        plan_removal(&cwd, true, &abs(&["home", "me", "d"]), NodeKind::Directory, false),
        Ok(Removal::Directory)
    );
    assert_eq!(
        plan_removal(&cwd, true, &abs(&["home", "me", "gone"]), NodeKind::Missing, false),
        Ok(Removal::Directory)
    );
    assert_eq!(
        plan_removal(&cwd, true, &abs(&["home"]), NodeKind::Directory, true),
        Err(RemovalRefused::WorkingDirectoryInside)
    );
    assert_eq!(
        plan_removal(&cwd, true, &abs(&["home", "me"]), NodeKind::Directory, true),
        Err(RemovalRefused::WorkingDirectoryInside)
    );
    assert_eq!(
        plan_removal(&cwd, false, &abs(&["home", "me", "f"]), NodeKind::File, false),
        Err(RemovalRefused::LocationMissing)
    );
}

#[test]
fn a_new_name_is_one_ordinary_component() {
    assert_eq!(check_single_name(&rel(&["notes"])), Ok(()));
    assert_eq!(check_single_name(&rel(&["my new dir"])), Ok(()));
    assert_eq!(check_single_name(&rel(&["a", "b"])), Err(NameError::SeveralComponents));
    assert_eq!(check_single_name(&abs(&["a"])), Err(NameError::SeveralComponents));
    assert_eq!(check_single_name(&rel(&[])), Err(NameError::NotAName));
    assert_eq!(check_single_name(&rel(&[".."])), Err(NameError::NotAName));
    assert_eq!(check_single_name(&rel(&["."])), Err(NameError::NotAName));
    assert_eq!(check_single_name(&abs(&[])), Err(NameError::NotAName));
}

#[test]
fn only_directories_can_be_entered() {
    assert_eq!(check_enterable(NodeKind::Directory), Ok(()));
    assert_eq!(check_enterable(NodeKind::Missing), Err(EnterRefused::TargetMissing));
    assert_eq!(check_enterable(NodeKind::File), Err(EnterRefused::NotADirectory));
    assert_eq!(check_enterable(NodeKind::Other), Err(EnterRefused::NotADirectory));
}

#[test]
fn verbatim_prefixes_are_spelled_the_ordinary_way() {
    assert_eq!(strip_verbatim(&Prefix::VerbatimDisk(b'C')), "C:");
    assert_eq!(
        strip_verbatim(&Prefix::VerbatimUnc("server".to_string(), "share".to_string())),
        "\\\\server\\share"
    );
    assert_eq!(strip_verbatim(&Prefix::Verbatim("pictures".to_string())), "pictures");
    assert_eq!(strip_verbatim(&Prefix::Plain("D:".to_string())), "D:");
}

#[test]
fn other_components_are_taken_over() {
    let components = vec![
        Component::Prefix(Prefix::VerbatimDisk(b'C')),
        Component::Other("\\".to_string()),
        Component::Other("Users".to_string()),
        Component::Other("me".to_string()),
    ];
    assert_eq!(plain_components(&components), strings(&["C:", "\\", "Users", "me"]));
    let unix = vec![Component::Other("/".to_string()), Component::Other("home".to_string())];
    assert_eq!(plain_components(&unix), strings(&["/", "home"]));
    assert_eq!(plain_components(&vec![]), strings(&[]));
}

#[test]
fn usage_errors_are_put_into_words() {
    assert_eq!(usage_message(Mode::Move, UsageError::NoArguments), "mv: There are no arguments.");
    assert_eq!(
        usage_message(Mode::Copy, UsageError::NotEnoughArguments),
        "cp: There are not enough arguments."
    );
    assert_eq!(
        usage_message(Mode::Move, UsageError::MissingSourceAndDestination),
        "mv: Source and destination arguments weren't provided."
    );
    assert_eq!(
        usage_message(Mode::Copy, UsageError::MissingDestination),
        "cp: Destination argument wasn't provided."
    );
    assert_eq!(
        usage_message(Mode::Copy, UsageError::ConflictingFlags),
        "cp: Opposite arguments -y and -n were provided."
    );
}

#[test]
fn transfer_errors_are_put_into_words() {
    let p = abs(&["dst", "x.txt"]);
    assert_eq!(
        error_message(Mode::Move, &TransferError::SourceMissing, ""),
        "mv: The source doesn't exist."
    );
    assert_eq!(
        error_message(Mode::Copy, &TransferError::DestinationMissing, ""),
        "cp: The destination path doesn't exist."
    );
    assert_eq!(
        error_message(Mode::Copy, &TransferError::DestinationNotDirectory, ""),
        "cp: The destination path must be a directory."
    );
    assert_eq!(
        error_message(Mode::Move, &TransferError::SameLocation(p.clone()), "/dst/x.txt"),
        "/dst/x.txt: Move to the same location"
    );
    assert_eq!(
        error_message(Mode::Copy, &TransferError::SameLocation(p.clone()), "/dst/x.txt"),
        "/dst/x.txt: Copy on the same location"
    );
    assert_eq!(
        error_message(Mode::Copy, &TransferError::AlreadyExists(p.clone()), "/dst/x.txt"),
        "/dst/x.txt: Destination already exists"
    );
    assert_eq!(
        error_message(Mode::Copy, &TransferError::BoundExceeded(p.clone()), "/dst/x.txt"),
        "/dst/x.txt: Infinite loop while looking for a valid numbered filename."
    );
    assert_eq!(
        error_message(
            Mode::Copy,
            &TransferError::Io(p.clone(), "Permission denied".to_string()),
            "/dst/x.txt"
        ),
        "/dst/x.txt: Permission denied"
    );
    assert_eq!(blamed_path(&TransferError::AlreadyExists(p.clone())), Some(p));
    assert_eq!(blamed_path(&TransferError::SourceMissing), None);
}

#[test]
fn a_file_is_reported_in_words() {
    assert_eq!(report_line(Mode::Copy, NodeKind::File, &Ok(1), ""), "File copied successfully");
    assert_eq!(report_line(Mode::Move, NodeKind::File, &Ok(1), ""), "File moved successfully");
    assert_eq!(report_line(Mode::Copy, NodeKind::File, &Ok(0), ""), "File was not copied");
    assert_eq!(report_line(Mode::Move, NodeKind::File, &Ok(0), ""), "File was not moved");
    assert_eq!(
        report_line(
            Mode::Move,
            NodeKind::File,
            &Err(TransferError::AlreadyExists(abs(&["d", "f"]))),
            "/d/f"
        ),
        "There was an error moving the file: /d/f: Destination already exists"
    );
    assert_eq!(
        report_line(
            Mode::Copy,
            NodeKind::File,
            &Err(TransferError::SameLocation(abs(&["d", "f"]))),
            "/d/f"
        ),
        "There was an error copying the file: /d/f: Copy on the same location"
    );
}

#[test]
fn a_directory_is_reported_with_its_count() {
    assert_eq!(
        report_line(Mode::Copy, NodeKind::Directory, &Ok(0), ""),
        "0 elements were copied successfully"
    );
    assert_eq!(
        report_line(Mode::Move, NodeKind::Directory, &Ok(1), ""),
        "1 element was moved successfully"
    );
    assert_eq!(
        report_line(Mode::Move, NodeKind::Directory, &Ok(2), ""),
        "2 elements were moved successfully"
    );
    assert_eq!(
        report_line(Mode::Copy, NodeKind::Directory, &Ok(1234), ""),
        "1234 elements were copied successfully"
    );
    assert_eq!(
        report_line(
            Mode::Copy,
            NodeKind::Directory,
            &Err(TransferError::Io(abs(&["d"]), "disk full".to_string())),
            "/d"
        ),
        "cp: There was an error: /d: disk full"
    );
    assert_eq!(
        report_line(Mode::Move, NodeKind::Directory, &Err(TransferError::DestinationMissing), ""),
        "mv: The destination path doesn't exist."
    );
}

#[test]
fn a_listing_shows_directories_before_files() {
    let entries = vec![
        Listed { name: "a.txt".to_string(), kind: NodeKind::File, link: false, size: 1234 },
        Listed { name: "src".to_string(), kind: NodeKind::Directory, link: false, size: 0 },
        Listed { name: "pipe".to_string(), kind: NodeKind::Other, link: false, size: 0 },
        Listed { name: "latest".to_string(), kind: NodeKind::Directory, link: true, size: 0 },
        Listed { name: "b".to_string(), kind: NodeKind::File, link: true, size: 5 },
    ];
    assert_eq!(
        listing_lines("proj", &entries, 0),
        strings(&[
            "",
            "Contents of \"proj\":",
            " <dir>       src",
            " <dir link>  latest",
            " <file>      a.txt - (1.23 KB)",
            " <file link> b - (5 B)",
            "",
        ])
    );
}

#[test]
fn a_listing_counts_unreadable_entries() {
    assert_eq!(
        listing_lines("my \"dir\"", &vec![], 3),
        strings(&["", "Contents of \"my \\\"dir\\\"\" (including 3 errors):", ""])
    );
    assert_eq!(listing_under("/", &vec![], 1), strings(&["", "Contents of / (including 1 errors):", ""]));
}

#[test]
fn a_directory_is_listed_under_its_last_name() {
    assert_eq!(location_name(&abs(&["home", "me"]), "/home/me"), "me");
    assert_eq!(location_name(&abs(&[]), "/"), "/");
    assert_eq!(location_name(&abs(&["a", ".."]), "/a/.."), "/a/..");
}

#[test]
fn launch_failures_are_put_into_words() {
    assert!(code_means_no_program(193));
    assert!(code_means_no_program(8));
    assert!(!code_means_no_program(2));
    assert_eq!(
        local_failure_lines("notes.txt", 8, "Exec format error (os error 8)", "Uncategorized"),
        strings(&["\"notes.txt\" is not an executable file."])
    );
    assert_eq!(
        local_failure_lines("tool", 13, "Permission denied (os error 13)", "PermissionDenied"),
        strings(&[
            "Error invoking \"tool\": Permission denied (os error 13)",
            "Type: PermissionDenied",
        ])
    );
    assert_eq!(
        program_failure_line("git", "Permission denied (os error 13)"),
        "Error invoking git: Permission denied (os error 13)"
    );
}

#[test]
fn the_palette_is_coloured_or_plain() {
    let coloured = palette(true);
    assert_eq!(coloured.title, "\x1B[1;31m");
    assert_eq!(coloured.version, "\x1B[33m");
    assert_eq!(coloured.author, "\x1B[36m");
    assert_eq!(coloured.reset, "\x1B[0m");
    let plain = palette(false);
    assert_eq!(plain.title, "");
    assert_eq!(plain.reset, "");
    let detected = detect_palette();
    assert!(detected == coloured || detected == plain);
}
