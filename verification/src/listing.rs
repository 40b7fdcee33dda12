//! The lines that `ls` prints for a directory: first its directories, then
//! its files with their sizes.

use vstd::prelude::*;
use crate::engine::NodeKind;
use crate::path::Path;
use crate::size::format_file_length;
use crate::size::size_text;
use crate::text::decimal;
use crate::text::push_decimal;

verus! {

/// The mathematical value of a `Listed`.
pub struct ListedV {
    pub name: Seq<char>,
    pub kind: NodeKind,
    pub link: bool,
    pub size: nat,
}

/// An entry of a directory as `ls` sees it.
#[derive(Debug, PartialEq, Eq)]
pub struct Listed {
    /// The name of the entry.
    pub name: String,
    /// What the entry leads to; a link counts as what it points at.
    pub kind: NodeKind,
    /// Whether the entry is a symbolic link.
    pub link: bool,
    /// The size in bytes of a file.
    pub size: u64,
}

impl View for Listed {
    type V = ListedV;

    open spec fn view(&self) -> ListedV {
        ListedV { name: self.name@, kind: self.kind, link: self.link, size: self.size as nat }
    }
}

impl DeepView for Listed {
    type V = ListedV;

    open spec fn deep_view(&self) -> ListedV {
        self@
    }
}

/// What a text looks like in quotes, with the characters escaped that
/// cannot be shown as they are: the `Debug` form of a `str`.
pub uninterp spec fn quoted(text: Seq<char>) -> Seq<char>;

/// The `Debug` form of `text` as `format!` produces it: `text` in double
/// quotes, with quotes, backslashes and unprintable characters escaped. The
/// result depends on `text` alone.
#[verifier::external_body]
pub(crate) fn quote(text: &str) -> (out: String)
    ensures
        out@ == quoted(text@),
{
    format!("{:?}", text)
}

/// The name under which a directory is listed: its last component, or the
/// whole path as `rendered` where it does not end in a name.
pub fn location_name(path: &Path, rendered: &str) -> (out: String)
    ensures
        out@ == if path@.has_name() {
            path@.name()
        } else {
            rendered@
        },
{
    match path.file_name() {
        Some(name) => name,
        None => String::from_str(rendered),
    }
}

/// The note on entries that could not be read.
pub open spec fn error_note(errors: nat) -> Seq<char> {
    if errors == 0 {
        Seq::empty()
    } else {
        " (including "@ + decimal(errors) + " errors)"@
    }
}

/// The heading of a listing; `shown` is the name of the directory as it is
/// to appear.
pub open spec fn heading(shown: Seq<char>, errors: nat) -> Seq<char> {
    "Contents of "@ + shown + error_note(errors) + ":"@
}

/// The tag of an entry, filled up with spaces to eleven characters.
pub open spec fn tag(kind: NodeKind, link: bool) -> Seq<char> {
    if kind == NodeKind::Directory {
        if link {
            "<dir link> "@
        } else {
            "<dir>      "@
        }
    } else if link {
        "<file link>"@
    } else {
        "<file>     "@
    }
}

/// The line of one entry: a space, the tag, a space and the name; for a
/// file the size follows in brackets.
pub open spec fn entry_line(entry: ListedV) -> Seq<char> {
    if entry.kind == NodeKind::Directory {
        " "@ + tag(entry.kind, entry.link) + " "@ + entry.name
    } else {
        " "@ + tag(entry.kind, entry.link) + " "@ + entry.name + " - ("@ + size_text(entry.size)
            + ")"@
    }
}

/// The lines of the entries of `entries` that are of this kind, in order.
pub open spec fn lines_of_kind(entries: Seq<ListedV>, kind: NodeKind) -> Seq<Seq<char>>
    decreases entries.len(),
{
    if entries.len() == 0 {
        Seq::empty()
    } else {
        let before = lines_of_kind(entries.drop_last(), kind);
        if entries.last().kind == kind {
            before.push(entry_line(entries.last()))
        } else {
            before
        }
    }
}

/// What `ls` prints: an empty line, the heading, the directories, the
/// files, an empty line. Entries that are neither file nor directory are
/// left out.
pub open spec fn listing(shown: Seq<char>, entries: Seq<ListedV>, errors: nat) -> Seq<Seq<char>> {
    seq![Seq::empty(), heading(shown, errors)] + lines_of_kind(entries, NodeKind::Directory)
        + lines_of_kind(entries, NodeKind::File) + seq![Seq::empty()]
}

fn line_of(entry: &Listed) -> (out: String)
    ensures
        out@ == entry_line(entry@),
{
    let mut out = String::from_str(" ");
    if entry.kind == NodeKind::Directory {
        if entry.link {
            out.append("<dir link> ");
        } else {
            out.append("<dir>      ");
        }
    } else if entry.link {
        out.append("<file link>");
    } else {
        out.append("<file>     ");
    }
    out.append(" ");
    out.append(entry.name.as_str());
    if entry.kind != NodeKind::Directory {
        out.append(" - (");
        let size = format_file_length(entry.size);
        out.append(size.as_str());
        out.append(")");
    }
    assert(out@ =~= entry_line(entry@));
    out
}

fn push_lines_of_kind(lines: &mut Vec<String>, entries: &Vec<Listed>, kind: NodeKind)
    ensures
        final(lines).deep_view() == old(lines).deep_view() + lines_of_kind(
            entries.deep_view(),
            kind,
        ),
{
    let ghost start = lines.deep_view();
    let mut i: usize = 0;
    assert(entries.deep_view().take(0) =~= Seq::empty());
    assert(lines.deep_view() =~= start + lines_of_kind(entries.deep_view().take(0), kind));
    while i < entries.len()
        invariant
            i <= entries.len(),
            lines.deep_view() == start + lines_of_kind(entries.deep_view().take(i as int), kind),
        decreases entries.len() - i,
    {
        let ghost upto = entries.deep_view().take(i + 1);
        let ghost before = lines.deep_view();
        assert(upto.drop_last() =~= entries.deep_view().take(i as int));
        assert(upto.last() == entries[i as int]@);
        if entries[i].kind == kind {
            let line = line_of(&entries[i]);
            let ghost text = line@;
            lines.push(line);
            assert(lines.deep_view() =~= before.push(text));
            assert(lines.deep_view() =~= start + lines_of_kind(upto, kind));
        }
        i = i + 1;
    }
    assert(entries.deep_view().take(i as int) =~= entries.deep_view());
}

/// The lines that `ls` prints under the heading for `shown`, for these
/// entries and this many entries that could not be read.
pub fn listing_under(shown: &str, entries: &Vec<Listed>, errors: u64) -> (lines: Vec<String>)
    ensures
        lines.deep_view() == listing(shown@, entries.deep_view(), errors as nat),
{
    let mut head = String::from_str("Contents of ");
    head.append(shown);
    if errors != 0 {
        head.append(" (including ");
        push_decimal(&mut head, errors);
        head.append(" errors)");
    }
    head.append(":");
    assert(head@ =~= heading(shown@, errors as nat));
    let mut lines: Vec<String> = Vec::new();
    lines.push(String::new());
    lines.push(head);
    assert(lines.deep_view() =~= seq![Seq::empty(), heading(shown@, errors as nat)]);
    push_lines_of_kind(&mut lines, entries, NodeKind::Directory);
    push_lines_of_kind(&mut lines, entries, NodeKind::File);
    let ghost before = lines.deep_view();
    lines.push(String::new());
    assert(lines.deep_view() =~= before + seq![Seq::<char>::empty()]);
    lines
}

/// The lines that `ls` prints for the directory called `location`: the
/// listing under the quoted name.
pub fn listing_lines(location: &str, entries: &Vec<Listed>, errors: u64) -> (lines: Vec<String>)
    ensures
        lines.deep_view() == listing(quoted(location@), entries.deep_view(), errors as nat),
{
    let shown = quote(location);
    listing_under(shown.as_str(), entries, errors)
}

} // verus!
