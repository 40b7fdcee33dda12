//! Reading a command line: cutting it into words and recognising the
//! built-in commands.
//!
//! A line is trimmed and cut at every single space. A word that begins with
//! a double quote opens a quoted span, a word that ends with one closes it;
//! the words of a span are joined again with single spaces into one word,
//! quotes included. A span that is never closed makes the line invalid.

use vstd::prelude::*;
use crate::text::chars_of;
use crate::text::same_text;
use crate::text::string_of;
use crate::text::trim;
use crate::text::trimmed;

verus! {

/// The pieces of `s` between its spaces. Two spaces in a row enclose an
/// empty piece, and so does a space at either end.
pub open spec fn split_spaces(s: Seq<char>) -> Seq<Seq<char>>
    decreases s.len(),
{
    if s.len() == 0 {
        seq![Seq::empty()]
    } else {
        let before = split_spaces(s.drop_last());
        if s.last() == ' ' {
            before.push(Seq::empty())
        } else {
            before.drop_last().push(before.last().push(s.last()))
        }
    }
}

/// There is always at least one piece.
pub proof fn lemma_split_nonempty(s: Seq<char>)
    ensures
        split_spaces(s).len() >= 1,
    decreases s.len(),
{
    if s.len() > 0 {
        lemma_split_nonempty(s.drop_last());
    }
}

/// Where the reading of a line stands after some of its pieces.
pub struct ScanV {
    /// The words that are complete.
    pub words: Seq<Seq<char>>,
    /// Whether a quoted span is open.
    pub open: bool,
    /// The open span so far, each of its pieces behind a space.
    pub span: Seq<char>,
}

/// Whether `piece` begins with a double quote.
pub open spec fn opens_span(piece: Seq<char>) -> bool {
    piece.len() > 0 && piece[0] == '"'
}

/// Whether `piece` ends with a double quote.
pub open spec fn closes_span(piece: Seq<char>) -> bool {
    piece.len() > 0 && piece.last() == '"'
}

/// The reading after one more piece.
pub open spec fn scan_piece(before: ScanV, piece: Seq<char>) -> ScanV {
    let open = before.open || opens_span(piece);
    let span = if open {
        before.span.push(' ') + piece
    } else {
        before.span
    };
    let words = if open {
        before.words
    } else {
        before.words.push(piece)
    };
    if closes_span(piece) {
        ScanV {
            words: if open {
                words.push(span.skip(1))
            } else {
                words
            },
            open: false,
            span: Seq::empty(),
        }
    } else {
        ScanV { words, open, span }
    }
}

/// The reading after all of `pieces`.
pub open spec fn scan(pieces: Seq<Seq<char>>) -> ScanV
    decreases pieces.len(),
{
    if pieces.len() == 0 {
        ScanV { words: Seq::empty(), open: false, span: Seq::empty() }
    } else {
        scan_piece(scan(pieces.drop_last()), pieces.last())
    }
}

/// The words of a command line, or `None` where a quoted span stays open.
pub open spec fn words_of(line: Seq<char>) -> Option<Seq<Seq<char>>> {
    let end = scan(split_spaces(trim(line)));
    if end.open {
        None
    } else {
        Some(end.words)
    }
}

/// A line that is valid has a first word: the command, which may be empty.
pub proof fn lemma_words_nonempty(line: Seq<char>)
    ensures
        words_of(line) matches Some(words) ==> words.len() >= 1,
{
    let pieces = split_spaces(trim(line));
    lemma_split_nonempty(trim(line));
    lemma_scan_has_word(pieces);
}

proof fn lemma_scan_has_word(pieces: Seq<Seq<char>>)
    requires
        pieces.len() >= 1,
    ensures
        scan(pieces).open || scan(pieces).words.len() >= 1,
        scan(pieces).open ==> scan(pieces).span.len() >= 1,
    decreases pieces.len(),
{
    if pieces.len() > 1 {
        lemma_scan_has_word(pieces.drop_last());
    } else {
        assert(pieces.drop_last().len() == 0);
    }
}

/// Cuts `cs` at its spaces.
fn split_at_spaces(cs: &Vec<char>) -> (pieces: Vec<String>)
    ensures
        pieces.deep_view() == split_spaces(cs@),
{
    let mut pieces: Vec<String> = Vec::new();
    let mut current = String::new();
    let mut i: usize = 0;
    assert(cs@.take(0) =~= Seq::empty());
    assert(pieces.deep_view().push(current@) =~= seq![Seq::<char>::empty()]);
    while i < cs.len()
        invariant
            i <= cs.len(),
            pieces.deep_view().push(current@) == split_spaces(cs@.take(i as int)),
        decreases cs.len() - i,
    {
        let ghost upto = cs@.take(i + 1);
        let ghost before = split_spaces(cs@.take(i as int));
        let ghost done = pieces.deep_view();
        let ghost piece = current@;
        assert(upto.drop_last() =~= cs@.take(i as int));
        assert(upto.last() == cs@[i as int]);
        assert(before.drop_last() =~= done);
        assert(before.last() == piece);
        if cs[i] == ' ' {
            pieces.push(current);
            assert(pieces.deep_view() =~= done.push(piece));
            current = String::new();
        } else {
            current.push(cs[i]);
        }
        i = i + 1;
    }
    assert(cs@.take(i as int) =~= cs@);
    let ghost done = pieces.deep_view();
    let ghost last = current@;
    pieces.push(current);
    assert(pieces.deep_view() =~= done.push(last));
    pieces
}

/// Cuts a command line into its words. `None` where a quoted span is never
/// closed. There is always a first word, the command; it may be empty.
pub fn tokenize(line: &str) -> (words: Option<Vec<String>>)
    ensures
        match words_of(line@) {
            Some(expected) => words matches Some(got) && got.deep_view() == expected,
            None => words is None,
        },
        words matches Some(got) ==> got.len() >= 1,
{
    proof {
        lemma_words_nonempty(line@);
    }
    let pieces = split_at_spaces(&trimmed(&chars_of(line)));
    let mut words: Vec<String> = Vec::new();
    let mut open = false;
    let mut span: Vec<char> = Vec::new();
    let mut i: usize = 0;
    assert(pieces.deep_view().take(0) =~= Seq::empty());
    assert(words.deep_view() =~= Seq::empty());
    while i < pieces.len()
        invariant
            i <= pieces.len(),
            scan(pieces.deep_view().take(i as int)) == (ScanV {
                words: words.deep_view(),
                open,
                span: span@,
            }),
        decreases pieces.len() - i,
    {
        let ghost upto = pieces.deep_view().take(i + 1);
        assert(upto.drop_last() =~= pieces.deep_view().take(i as int));
        assert(upto.last() == pieces[i as int]@);
        let piece = chars_of(pieces[i].as_str());
        let n = piece.len();
        if n > 0 && piece[0] == '"' {
            open = true;
        }
        let ghost so_far = span@;
        let ghost done = words.deep_view();
        if open {
            span.push(' ');
            let mut j: usize = 0;
            while j < n
                invariant
                    j <= n,
                    n == piece.len(),
                    span@ == so_far.push(' ') + piece@.take(j as int),
                decreases n - j,
            {
                span.push(piece[j]);
                assert(span@ =~= so_far.push(' ') + piece@.take(j + 1));
                j = j + 1;
            }
            assert(piece@.take(n as int) =~= piece@);
        } else {
            words.push(pieces[i].clone());
            assert(words.deep_view() =~= done.push(piece@));
        }
        if n > 0 && piece[n - 1] == '"' {
            if open {
                let ghost done = words.deep_view();
                words.push(string_of(&span, 1, span.len()));
                assert(span@.subrange(1, span.len() as int) =~= span@.skip(1));
                assert(words.deep_view() =~= done.push(span@.skip(1)));
            }
            open = false;
            span = Vec::new();
        }
        i = i + 1;
    }
    assert(pieces.deep_view().take(i as int) =~= pieces.deep_view());
    if open {
        None
    } else {
        Some(words)
    }
}

/// The commands that the shell carries out itself.
#[derive(Clone, Copy, Debug, PartialEq, Eq, Structural)]
pub enum Command {
    /// `cd`: change the working directory.
    ChangeDirectory,
    /// `ls`: list the working directory.
    List,
    /// `md`: create a directory.
    MakeDirectory,
    /// `touch`: create an empty file.
    Touch,
    /// `rm`: remove a file or directory.
    Remove,
    /// `mv`: move a file or directory.
    Move,
    /// `cp`: copy a file or directory.
    Copy,
    /// `help`: explain the commands.
    Help,
    /// `version`: show the version.
    Version,
    /// `exit`: leave the shell.
    Exit,
    /// The empty word: nothing to do.
    Nothing,
    /// Any other word: a program to run.
    External,
}

/// The command that `word` names.
pub open spec fn command_named(word: Seq<char>) -> Command {
    if word == "cd"@ {
        Command::ChangeDirectory
    } else if word == "ls"@ {
        Command::List
    } else if word == "md"@ {
        Command::MakeDirectory
    } else if word == "touch"@ {
        Command::Touch
    } else if word == "rm"@ {
        Command::Remove
    } else if word == "mv"@ {
        Command::Move
    } else if word == "cp"@ {
        Command::Copy
    } else if word == "help"@ {
        Command::Help
    } else if word == "version"@ {
        Command::Version
    } else if word == "exit"@ {
        Command::Exit
    } else if word == ""@ {
        Command::Nothing
    } else {
        Command::External
    }
}

/// Recognises the first word of a command line.
pub fn classify_command(word: &str) -> (command: Command)
    ensures
        command == command_named(word@),
{
    if same_text(word, "cd") {
        Command::ChangeDirectory
    } else if same_text(word, "ls") {
        Command::List
    } else if same_text(word, "md") {
        Command::MakeDirectory
    } else if same_text(word, "touch") {
        Command::Touch
    } else if same_text(word, "rm") {
        Command::Remove
    } else if same_text(word, "mv") {
        Command::Move
    } else if same_text(word, "cp") {
        Command::Copy
    } else if same_text(word, "help") {
        Command::Help
    } else if same_text(word, "version") {
        Command::Version
    } else if same_text(word, "exit") {
        Command::Exit
    } else if same_text(word, "") {
        Command::Nothing
    } else {
        Command::External
    }
}

} // verus!
