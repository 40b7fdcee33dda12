use rust_shell::command::{classify_command, tokenize, Command};
use rust_shell::path::Path;
use rust_shell::policy::{decide, interpret_answer, Decision, Flags, Ruling};
use rust_shell::rename::{next_free_name, numbered_name, DEFAULT_BOUND};
use rust_shell::size::format_file_length;
use rust_shell::text::{decimal_string, joined};

fn strings(words: &[&str]) -> Vec<String> {
    words.iter().map(|w| w.to_string()).collect()
}

fn rel(parts: &[&str]) -> Path {
    Path { anchor: String::new(), parts: strings(parts) }
}

fn abs(parts: &[&str]) -> Path {
    Path { anchor: "/".to_string(), parts: strings(parts) }
}

#[test]
fn decimal_of_zero_and_large_numbers() {
    assert_eq!(decimal_string(0), "0");
    assert_eq!(decimal_string(7), "7");
    assert_eq!(decimal_string(10), "10");
    assert_eq!(decimal_string(10000), "10000");
    assert_eq!(decimal_string(u64::MAX), "18446744073709551615");
}

#[test]
fn joined_puts_single_spaces_between_words() {
    assert_eq!(joined(&strings(&[])), "");
    assert_eq!(joined(&strings(&["a"])), "a");
    assert_eq!(joined(&strings(&["my", "new", "dir"])), "my new dir");
    assert_eq!(joined(&strings(&["a", "", "b"])), "a  b");
}

#[test]
fn sizes_below_a_thousand_are_written_out() {
    assert_eq!(format_file_length(0), "0 B");
    assert_eq!(format_file_length(10), "10 B");
    assert_eq!(format_file_length(999), "999 B");
}

#[test]
fn sizes_show_three_digits_and_a_unit() {
    assert_eq!(format_file_length(1000), "1.00 KB");
    assert_eq!(format_file_length(1234), "1.23 KB");
    assert_eq!(format_file_length(12345), "12.3 KB");
    assert_eq!(format_file_length(123456), "123 KB");
    assert_eq!(format_file_length(1_000_000), "1.00 MB");
    assert_eq!(format_file_length(1_500_000), "1.50 MB");
    assert_eq!(format_file_length(2_000_000_000), "2.00 GB");
    assert_eq!(format_file_length(3_210_000_000_000), "3.21 TB");
    assert_eq!(format_file_length(45_600_000_000_000_000), "45.6 PB");
    assert_eq!(format_file_length(u64::MAX), "18.4 EB");
}

#[test]
fn sizes_round_to_nearest_and_ties_to_even() {
    assert_eq!(format_file_length(1004), "1.00 KB");
    assert_eq!(format_file_length(1005), "1.00 KB");
    assert_eq!(format_file_length(1006), "1.01 KB");
    assert_eq!(format_file_length(1015), "1.02 KB");
    assert_eq!(format_file_length(1125), "1.12 KB");
    assert_eq!(format_file_length(9996), "10.00 KB");
    assert_eq!(format_file_length(999_999), "1000 KB");
}

#[test]
fn numbered_names_keep_the_extension_last() {
    assert_eq!(numbered_name("report.txt", 2), "report (2).txt");
    assert_eq!(numbered_name("x.txt", 3), "x (3).txt");
    assert_eq!(numbered_name("archive.tar.gz", 12), "archive.tar (12).gz");
    assert_eq!(numbered_name("noext", 2), "noext (2)");
    assert_eq!(numbered_name(".bashrc", 3), ".bashrc (3)");
    assert_eq!(numbered_name("a.", 2), "a (2).");
    assert_eq!(numbered_name("", 10000), " (10000)");
}

#[test]
fn next_free_name_skips_taken_numbers() {
    let taken = strings(&["x.txt", "x (2).txt"]);
    assert_eq!(next_free_name(&taken, "x.txt", DEFAULT_BOUND), Some("x (3).txt".to_string()));
    assert_eq!(next_free_name(&strings(&[]), "x.txt", DEFAULT_BOUND), Some("x (2).txt".to_string()));
}

#[test]
fn next_free_name_gives_up_at_the_bound() {
    let taken = strings(&["x (2).txt", "x (3).txt", "x (4).txt"]);
    assert_eq!(next_free_name(&taken, "x.txt", 4), None);
    assert_eq!(next_free_name(&taken, "x.txt", 5), Some("x (5).txt".to_string()));
    assert_eq!(next_free_name(&taken, "x.txt", 0), None);
    assert_eq!(next_free_name(&strings(&[]), "x.txt", 0), Some("x (2).txt".to_string()));
}

#[test]
fn flags_decide_collisions() {
    let none = Flags { auto_yes: false, auto_no: false, auto_rename: false };
    let yes = Flags { auto_yes: true, auto_no: false, auto_rename: false };
    let no = Flags { auto_yes: false, auto_no: true, auto_rename: false };
    let yes_rename = Flags { auto_yes: true, auto_no: false, auto_rename: true };
    let rename_only = Flags { auto_yes: false, auto_no: false, auto_rename: true };
    assert_eq!(decide(false, none), Ruling::Decided(Decision::Proceed));
    assert_eq!(decide(false, no), Ruling::Decided(Decision::Proceed));
    assert_eq!(decide(true, no), Ruling::AlreadyExists);
    assert_eq!(decide(true, yes), Ruling::Decided(Decision::Proceed));
    assert_eq!(decide(true, yes_rename), Ruling::Decided(Decision::Rename));
    assert_eq!(decide(true, none), Ruling::AskUser);
    assert_eq!(decide(true, rename_only), Ruling::AskUser);
}

#[test]
fn answers_are_single_letters() {
    assert_eq!(interpret_answer("y"), Some(Decision::Proceed));
    assert_eq!(interpret_answer("n\n"), Some(Decision::Skip));
    assert_eq!(interpret_answer("  r \r\n"), Some(Decision::Rename));
    assert_eq!(interpret_answer(""), None);
    assert_eq!(interpret_answer("yes"), None);
    assert_eq!(interpret_answer("Y"), None);
    assert_eq!(interpret_answer("q"), None);
}

#[test]
fn lines_are_cut_at_single_spaces() {
    assert_eq!(tokenize("cp a b"), Some(strings(&["cp", "a", "b"])));
    assert_eq!(tokenize("  ls  \n"), Some(strings(&["ls"])));
    assert_eq!(tokenize(""), Some(strings(&[""])));
    assert_eq!(tokenize("a  b"), Some(strings(&["a", "", "b"])));
}

#[test]
fn quoted_spans_become_one_word() {
    assert_eq!(tokenize("cp \"a b\" c"), Some(strings(&["cp", "\"a b\"", "c"])));
    assert_eq!(tokenize("md \"x\""), Some(strings(&["md", "\"x\""])));
    assert_eq!(tokenize("md \"a  b c\""), Some(strings(&["md", "\"a  b c\""])));
    assert_eq!(tokenize("\"a b\""), Some(strings(&["\"a b\""])));
}

#[test]
fn an_open_span_makes_the_line_invalid() {
    assert_eq!(tokenize("cp \"a b c"), None);
    assert_eq!(tokenize("\""), Some(strings(&["\""])));
    assert_eq!(tokenize("\"a"), None);
}

#[test]
fn built_in_commands_are_recognised() {
    assert_eq!(classify_command("cd"), Command::ChangeDirectory);
    assert_eq!(classify_command("ls"), Command::List);
    assert_eq!(classify_command("md"), Command::MakeDirectory);
    assert_eq!(classify_command("touch"), Command::Touch);
    assert_eq!(classify_command("rm"), Command::Remove);
    assert_eq!(classify_command("mv"), Command::Move);
    assert_eq!(classify_command("cp"), Command::Copy);
    assert_eq!(classify_command("help"), Command::Help);
    assert_eq!(classify_command("version"), Command::Version);
    assert_eq!(classify_command("exit"), Command::Exit);
    assert_eq!(classify_command(""), Command::Nothing);
    assert_eq!(classify_command("git"), Command::External);
    assert_eq!(classify_command("CD"), Command::External);
}

#[test]
fn relative_input_is_appended_and_absolute_input_stands() {
    let base = abs(&["home", "me"]);
    assert_eq!(base.resolve(&rel(&["docs", "a.txt"])), abs(&["home", "me", "docs", "a.txt"]));
    assert_eq!(base.resolve(&abs(&["etc"])), abs(&["etc"]));
    assert_eq!(base.resolve(&rel(&[])), abs(&["home", "me"]));
    assert_eq!(base.resolve(&rel(&[".."])), abs(&["home", "me", ".."]));
}

#[test]
fn paths_compare_by_components() {
    assert!(abs(&["a", "b"]).same_as(&abs(&["a", "b"])));
    assert!(!abs(&["a", "b"]).same_as(&rel(&["a", "b"])));
    assert!(!abs(&["a", "b"]).same_as(&abs(&["a"])));
    assert!(abs(&["a", "b"]).starts_with(&abs(&["a"])));
    assert!(abs(&["a", "b"]).starts_with(&abs(&["a", "b"])));
    assert!(!abs(&["a", "b"]).starts_with(&abs(&["b"])));
    assert!(!abs(&["a"]).starts_with(&abs(&["a", "b"])));
    assert!(abs(&["a", "b"]).is_directly_below(&abs(&["a"])));
    assert!(!abs(&["a", "b", "c"]).is_directly_below(&abs(&["a"])));
}

#[test]
fn file_name_is_the_last_ordinary_component() {
    assert_eq!(abs(&["a", "f.txt"]).file_name(), Some("f.txt".to_string()));
    assert_eq!(abs(&[]).file_name(), None);
    assert_eq!(rel(&[".."]).file_name(), None);
    assert_eq!(rel(&["."]).file_name(), None);
    assert_eq!(abs(&["a", ".."]).file_name(), None);
    assert_eq!(abs(&["a"]).join("b"), abs(&["a", "b"]));
    assert!(abs(&[]).is_absolute());
    assert!(!rel(&["a"]).is_absolute());
}
