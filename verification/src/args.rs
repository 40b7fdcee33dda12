//! The arguments of the built-in commands.
//!
//! `cp` and `mv` take switches first (`-y`, `-n`, `-r`), then the source and
//! the destination: the first word that does not begin with `-` ends the
//! switches. `rm` takes `-r` any number of times and then a path, which may
//! be spread over several words. `md` and `touch` take one name.

use vstd::prelude::*;
use crate::engine::NodeKind;
use crate::path::Path;
use crate::path::PathV;
use crate::policy::Flags;
use crate::text::chars_of;
use crate::text::join_spaced;
use crate::text::joined;
use crate::text::same_text;

verus! {

/// What is wrong with the arguments of `cp` or `mv`.
#[derive(Clone, Copy, Debug, PartialEq, Eq, Structural)]
pub enum UsageError {
    /// There is no argument at all.
    NoArguments,
    /// There is one argument only.
    NotEnoughArguments,
    /// Every argument is a switch.
    MissingSourceAndDestination,
    /// One word follows the switches.
    MissingDestination,
    /// Both `-y` and `-n` are given.
    ConflictingFlags,
}

/// The mathematical value of `TransferArgs`.
pub struct TransferArgsV {
    pub flags: Flags,
    pub source: Seq<char>,
    pub destination: Seq<char>,
}

/// The arguments of `cp` or `mv`, taken apart.
#[derive(Debug, PartialEq, Eq)]
pub struct TransferArgs {
    pub flags: Flags,
    /// The source as it was typed.
    pub source: String,
    /// The destination as it was typed.
    pub destination: String,
}

impl View for TransferArgs {
    type V = TransferArgsV;

    open spec fn view(&self) -> TransferArgsV {
        TransferArgsV {
            flags: self.flags,
            source: self.source@,
            destination: self.destination@,
        }
    }
}

/// Whether `word` begins with `-`.
pub open spec fn is_switch(word: Seq<char>) -> bool {
    word.len() > 0 && word[0] == '-'
}

/// How many of the first words of `args` satisfy `pred`, up to the first
/// one that does not.
pub open spec fn leading(args: Seq<Seq<char>>, pred: spec_fn(Seq<char>) -> bool) -> nat
    decreases args.len(),
{
    if args.len() > 0 && pred(args[0]) {
        1 + leading(args.drop_first(), pred)
    } else {
        0
    }
}

/// Counting from the front and stopping at the first word that fails gives
/// `leading`.
pub proof fn lemma_leading(args: Seq<Seq<char>>, pred: spec_fn(Seq<char>) -> bool, k: int)
    requires
        0 <= k <= args.len(),
        forall|j: int| 0 <= j < k ==> pred(#[trigger] args[j]),
        k < args.len() ==> !pred(args[k]),
    ensures
        leading(args, pred) == k,
    decreases k,
{
    if k > 0 {
        let rest = args.drop_first();
        assert forall|j: int| 0 <= j < k - 1 implies pred(#[trigger] rest[j]) by {
            assert(rest[j] == args[j + 1]);
        }
        if k < args.len() {
            assert(rest[k - 1] == args[k]);
        }
        lemma_leading(rest, pred, k - 1);
    }
}

/// What the arguments of `cp` or `mv` mean.
///
/// A switch other than `-y`, `-n` and `-r` is passed over. Words after the
/// destination are passed over too.
pub open spec fn transfer_args(args: Seq<Seq<char>>) -> Result<TransferArgsV, UsageError> {
    if args.len() == 0 {
        Err(UsageError::NoArguments)
    } else if args.len() < 2 {
        Err(UsageError::NotEnoughArguments)
    } else {
        let k = leading(args, |w: Seq<char>| is_switch(w)) as int;
        let switches = args.take(k);
        let rest = args.skip(k);
        let flags = Flags {
            auto_yes: switches.contains("-y"@),
            auto_no: switches.contains("-n"@),
            auto_rename: switches.contains("-r"@),
        };
        if rest.len() == 0 {
            Err(UsageError::MissingSourceAndDestination)
        } else if rest.len() == 1 {
            Err(UsageError::MissingDestination)
        } else if flags.auto_yes && flags.auto_no {
            Err(UsageError::ConflictingFlags)
        } else {
            Ok(TransferArgsV { flags, source: rest[0], destination: rest[1] })
        }
    }
}

/// Tests a word for a leading `-`.
pub fn word_is_switch(word: &str) -> (b: bool)
    ensures
        b == is_switch(word@),
{
    let cs = chars_of(word);
    cs.len() > 0 && cs[0] == '-'
}

/// Whether one of the first `k` words of `args` is `word`.
fn among_first(args: &Vec<String>, k: usize, word: &str) -> (found: bool)
    requires
        k <= args.len(),
    ensures
        found == args.deep_view().take(k as int).contains(word@),
{
    let ghost first = args.deep_view().take(k as int);
    let mut i: usize = 0;
    while i < k
        invariant
            i <= k <= args.len(),
            first == args.deep_view().take(k as int),
            forall|j: int| 0 <= j < i ==> first[j] != word@,
        decreases k - i,
    {
        assert(first[i as int] == args[i as int]@);
        if same_text(args[i].as_str(), word) {
            return true;
        }
        i = i + 1;
    }
    false
}

/// Takes the arguments of `cp` or `mv` apart.
pub fn parse_transfer_args(args: &Vec<String>) -> (out: Result<TransferArgs, UsageError>)
    ensures
        match transfer_args(args.deep_view()) {
            Ok(expected) => out matches Ok(got) && got@ == expected,
            Err(e) => out == Err::<TransferArgs, UsageError>(e),
        },
{
    let ghost words = args.deep_view();
    let n = args.len();
    if n == 0 {
        return Err(UsageError::NoArguments);
    }
    if n < 2 {
        return Err(UsageError::NotEnoughArguments);
    }
    let mut k: usize = 0;
    while k < n && word_is_switch(args[k].as_str())
        invariant
            k <= n,
            n == args.len(),
            words == args.deep_view(),
            forall|j: int| 0 <= j < k ==> is_switch(#[trigger] words[j]),
        decreases n - k,
    {
        k = k + 1;
    }
    proof {
        let pred = |w: Seq<char>| is_switch(w);
        assert forall|j: int| 0 <= j < k implies pred(#[trigger] words[j]) by {
            assert(is_switch(words[j]));
        }
        if k < n {
            assert(words[k as int] == args[k as int]@);
        }
        lemma_leading(words, pred, k as int);
    }
    let flags = Flags {
        auto_yes: among_first(args, k, "-y"),
        auto_no: among_first(args, k, "-n"),
        auto_rename: among_first(args, k, "-r"),
    };
    if n - k == 0 {
        return Err(UsageError::MissingSourceAndDestination);
    }
    if n - k == 1 {
        return Err(UsageError::MissingDestination);
    }
    if flags.auto_yes && flags.auto_no {
        return Err(UsageError::ConflictingFlags);
    }
    assert(words.skip(k as int)[0] == args[k as int]@);
    assert(words.skip(k as int)[1] == args[k + 1]@);
    Ok(TransferArgs { flags, source: args[k].clone(), destination: args[k + 1].clone() })
}

/// What is wrong with the arguments of `rm`.
#[derive(Clone, Copy, Debug, PartialEq, Eq, Structural)]
pub enum RemoveUsage {
    /// There is no argument at all.
    NoParameters,
    /// There are switches and no path.
    NoPath,
}

/// The mathematical value of `RemoveArgs`.
pub struct RemoveArgsV {
    pub recursive: bool,
    pub target: Seq<char>,
}

/// The arguments of `rm`, taken apart.
#[derive(Debug, PartialEq, Eq)]
pub struct RemoveArgs {
    /// Whether a directory is removed with all that it holds.
    pub recursive: bool,
    /// The path as it was typed, its words joined with single spaces.
    pub target: String,
}

impl View for RemoveArgs {
    type V = RemoveArgsV;

    open spec fn view(&self) -> RemoveArgsV {
        RemoveArgsV { recursive: self.recursive, target: self.target@ }
    }
}

/// What the arguments of `rm` mean: every leading `-r` is the switch, the
/// rest is the path.
pub open spec fn remove_args(args: Seq<Seq<char>>) -> Result<RemoveArgsV, RemoveUsage> {
    if args.len() == 0 {
        Err(RemoveUsage::NoParameters)
    } else {
        let k = leading(args, |w: Seq<char>| w == "-r"@) as int;
        if k == args.len() {
            Err(RemoveUsage::NoPath)
        } else {
            Ok(RemoveArgsV { recursive: k > 0, target: join_spaced(args.skip(k)) })
        }
    }
}

/// Takes the arguments of `rm` apart.
pub fn parse_remove_args(args: &Vec<String>) -> (out: Result<RemoveArgs, RemoveUsage>)
    ensures
        match remove_args(args.deep_view()) {
            Ok(expected) => out matches Ok(got) && got@ == expected,
            Err(e) => out == Err::<RemoveArgs, RemoveUsage>(e),
        },
{
    let ghost words = args.deep_view();
    let n = args.len();
    if n == 0 {
        return Err(RemoveUsage::NoParameters);
    }
    let mut k: usize = 0;
    while k < n && same_text(args[k].as_str(), "-r")
        invariant
            k <= n,
            n == args.len(),
            words == args.deep_view(),
            forall|j: int| 0 <= j < k ==> #[trigger] words[j] == "-r"@,
        decreases n - k,
    {
        k = k + 1;
    }
    proof {
        let pred = |w: Seq<char>| w == "-r"@;
        assert forall|j: int| 0 <= j < k implies pred(#[trigger] words[j]) by {
            assert(words[j] == "-r"@);
        }
        if k < n {
            assert(words[k as int] == args[k as int]@);
        }
        lemma_leading(words, pred, k as int);
    }
    if k == n {
        return Err(RemoveUsage::NoPath);
    }
    let mut rest: Vec<String> = Vec::new();
    let mut i: usize = k;
    while i < n
        invariant
            k <= i <= n,
            n == args.len(),
            rest.len() == i - k,
            forall|j: int| 0 <= j < i - k ==> rest[j]@ == args[k + j]@,
        decreases n - i,
    {
        rest.push(args[i].clone());
        i = i + 1;
    }
    assert(rest.deep_view() =~= words.skip(k as int));
    Ok(RemoveArgs { recursive: k > 0, target: joined(&rest) })
}

/// How `rm` removes its target.
#[derive(Clone, Copy, Debug, PartialEq, Eq, Structural)]
pub enum Removal {
    /// As a file.
    File,
    /// As a directory with all that it holds.
    Tree,
    /// As a directory, which has to be empty.
    Directory,
}

/// Why `rm` removes nothing.
#[derive(Clone, Copy, Debug, PartialEq, Eq, Structural)]
pub enum RemovalRefused {
    /// The working directory is the target or lies inside it.
    WorkingDirectoryInside,
    /// The working directory does not exist any more.
    LocationMissing,
}

/// How `rm` goes about a target of this kind, seen from this working
/// directory.
pub open spec fn removal(
    working: PathV,
    working_exists: bool,
    target: PathV,
    target_kind: NodeKind,
    recursive: bool,
) -> Result<Removal, RemovalRefused> {
    if target.is_prefix_of(working) {
        Err(RemovalRefused::WorkingDirectoryInside)
    } else if !working_exists {
        Err(RemovalRefused::LocationMissing)
    } else if target_kind == NodeKind::File {
        Ok(Removal::File)
    } else if recursive {
        Ok(Removal::Tree)
    } else {
        Ok(Removal::Directory)
    }
}

/// Decides how `rm` removes `target`.
pub fn plan_removal(
    working: &Path,
    working_exists: bool,
    target: &Path,
    target_kind: NodeKind,
    recursive: bool,
) -> (plan: Result<Removal, RemovalRefused>)
    ensures
        plan == removal(working@, working_exists, target@, target_kind, recursive),
{
    if working.starts_with(target) {
        Err(RemovalRefused::WorkingDirectoryInside)
    } else if !working_exists {
        Err(RemovalRefused::LocationMissing)
    } else if target_kind == NodeKind::File {
        Ok(Removal::File)
    } else if recursive {
        Ok(Removal::Tree)
    } else {
        Ok(Removal::Directory)
    }
}

/// What is wrong with the name given to `md` or `touch`.
#[derive(Clone, Copy, Debug, PartialEq, Eq, Structural)]
pub enum NameError {
    /// The name is a path of several components.
    SeveralComponents,
    /// The name is no ordinary name: it is empty, a root, `.` or `..`.
    NotAName,
}

/// Whether `path` is one ordinary name and nothing else.
pub open spec fn single_name(path: PathV) -> Result<(), NameError> {
    if path.parts.len() + (if path.is_absolute() {
        1nat
    } else {
        0nat
    }) > 1 {
        Err(NameError::SeveralComponents)
    } else if path.is_absolute() || !path.has_name() {
        Err(NameError::NotAName)
    } else {
        Ok(())
    }
}

/// Checks the name given to `md` or `touch`.
pub fn check_single_name(path: &Path) -> (out: Result<(), NameError>)
    ensures
        out == single_name(path@),
{
    let absolute = path.is_absolute();
    let n = path.parts.len();
    assert(path@.parts.len() == n);
    if n > 1 || (n == 1 && absolute) {
        Err(NameError::SeveralComponents)
    } else if absolute || !path.has_name() {
        Err(NameError::NotAName)
    } else {
        Ok(())
    }
}

/// Why `cd` does not enter its target.
#[derive(Clone, Copy, Debug, PartialEq, Eq, Structural)]
pub enum EnterRefused {
    /// Nothing stands under the path.
    TargetMissing,
    /// What stands under the path is no directory.
    NotADirectory,
}

/// Whether `cd` may enter what it found under its target.
pub fn check_enterable(kind: NodeKind) -> (out: Result<(), EnterRefused>)
    ensures
        out == match kind {
            NodeKind::Directory => Ok::<(), EnterRefused>(()),
            NodeKind::Missing => Err::<(), EnterRefused>(EnterRefused::TargetMissing),
            _ => Err::<(), EnterRefused>(EnterRefused::NotADirectory),
        },
{
    match kind {
        NodeKind::Directory => Ok(()),
        NodeKind::Missing => Err(EnterRefused::TargetMissing),
        _ => Err(EnterRefused::NotADirectory),
    }
}

} // verus!
