//! Counting the entries of a tree, and what the shape of a tree implies.

use vstd::prelude::*;
use crate::engine::NodeKind;
use crate::memfs::lemma_node_of_entry;
use crate::memfs::lemma_parent_is_directory;
use crate::memfs::EntryV;
use crate::memfs::FsV;
use crate::memfs::NodeV;
use crate::path::PathV;

verus! {

/// Whether the entry stands under `dir` or below it, and is a file where
/// only files count.
pub open spec fn counted(entry: EntryV, dir: PathV, files_only: bool) -> bool {
    dir.is_prefix_of(entry.path) && (!files_only || entry.node is File)
}

/// The number of entries among `entries` that stand under `dir` or below
/// it; files alone are counted where `files_only` is set.
pub open spec fn count_below(entries: Seq<EntryV>, dir: PathV, files_only: bool) -> nat
    decreases entries.len(),
{
    if entries.len() == 0 {
        0
    } else {
        count_below(entries.drop_last(), dir, files_only) + if counted(
            entries.last(),
            dir,
            files_only,
        ) {
            1nat
        } else {
            0nat
        }
    }
}

/// The number of files among `entries` that stand under `dir` or below it.
pub open spec fn files_below(entries: Seq<EntryV>, dir: PathV) -> nat {
    count_below(entries, dir, true)
}

/// What `count_below` finds below the entries `names[from..]` of `dir`,
/// added up.
pub open spec fn sum_below(
    entries: Seq<EntryV>,
    dir: PathV,
    names: Seq<Seq<char>>,
    from: nat,
    files_only: bool,
) -> nat
    decreases names.len() - from,
{
    if from >= names.len() {
        0
    } else {
        count_below(entries, dir.child(names[from as int]), files_only) + sum_below(
            entries,
            dir,
            names,
            from + 1,
            files_only,
        )
    }
}

/// A path lies under each of its own beginnings.
pub proof fn lemma_child_below(dir: PathV, name: Seq<char>)
    ensures
        dir.is_prefix_of(dir.child(name)),
        dir.child(name).parent() == dir,
        dir.child(name).name() == name,
        dir.child(name) != dir,
        dir.child(name).parts.len() > 0,
{
    let child = dir.child(name);
    assert(child.parts.subrange(0, dir.parts.len() as int) =~= dir.parts);
    assert(child.parts.drop_last() =~= dir.parts);
}

/// What lies below a path without being it lies below one of its entries:
/// the one named by the next component.
pub proof fn lemma_below_some_child(dir: PathV, path: PathV)
    requires
        dir.is_prefix_of(path),
        dir != path,
    ensures
        path.parts.len() > dir.parts.len(),
        dir.child(path.parts[dir.parts.len() as int]).is_prefix_of(path),
{
    if path.parts.len() == dir.parts.len() {
        assert(path.parts =~= dir.parts);
    }
    let n = dir.parts.len() as int;
    let child = dir.child(path.parts[n]);
    assert(child.parts =~= path.parts.subrange(0, n + 1)) by {
        assert(path.parts.subrange(0, n) =~= dir.parts);
    }
}

/// What lies below the entry `name` of `dir` lies below `dir`, and its
/// component after `dir` is `name`.
pub proof fn lemma_below_child(dir: PathV, name: Seq<char>, path: PathV)
    requires
        dir.child(name).is_prefix_of(path),
    ensures
        dir.is_prefix_of(path),
        dir != path,
        path.parts.len() > dir.parts.len(),
        path.parts[dir.parts.len() as int] == name,
{
    let child = dir.child(name);
    let n = dir.parts.len() as int;
    assert(path.parts.subrange(0, n + 1) =~= child.parts);
    assert(path.parts.subrange(0, n + 1)[n] == child.parts[n]);
    assert(path.parts.subrange(0, n) =~= dir.parts) by {
        assert forall|i: int| 0 <= i < n implies path.parts[i] == dir.parts[i] by {
            assert(path.parts.subrange(0, n + 1)[i] == child.parts[i]);
        }
    }
}

/// Prefixes compose.
pub proof fn lemma_prefix_chain(a: PathV, b: PathV, c: PathV)
    requires
        a.is_prefix_of(b),
        b.is_prefix_of(c),
    ensures
        a.is_prefix_of(c),
{
    assert(c.parts.subrange(0, a.parts.len() as int) =~= a.parts) by {
        assert(b.parts.subrange(0, a.parts.len() as int) =~= a.parts);
        assert(c.parts.subrange(0, b.parts.len() as int) =~= b.parts);
        assert forall|i: int| 0 <= i < a.parts.len() implies c.parts[i] == a.parts[i] by {
            assert(b.parts.subrange(0, a.parts.len() as int)[i] == a.parts[i]);
            assert(c.parts.subrange(0, b.parts.len() as int)[i] == b.parts[i]);
        }
    }
}

/// In a tree, whatever lies above an entry is a directory.
pub proof fn lemma_above_is_directory(fs: FsV, above: PathV, path: PathV)
    requires
        fs.wf(),
        fs.has(path),
        above.is_prefix_of(path),
        above != path,
    ensures
        fs.kind(above) == NodeKind::Directory,
    decreases path.parts.len(),
{
    if path.parts.len() == above.parts.len() {
        assert(path.parts =~= above.parts);
    }
    lemma_parent_is_directory(fs, path);
    let parent = path.parent();
    if parent != above {
        assert(above.is_prefix_of(parent)) by {
            assert(parent.parts.subrange(0, above.parts.len() as int) =~= path.parts.subrange(
                0,
                above.parts.len() as int,
            ));
        }
        lemma_above_is_directory(fs, above, parent);
    }
}

/// What has a kind other than `Missing` is there.
pub proof fn lemma_kind_has(fs: FsV, path: PathV)
    ensures
        fs.has(path) <==> fs.kind(path) != NodeKind::Missing,
        fs.has(path) <==> fs.node(path) is Some,
        fs.kind(path) != NodeKind::Other,
        fs.kind(path) == NodeKind::File <==> (fs.node(path) matches Some(NodeV::File(_))),
{
}

/// The position of an entry is a position, and the entry's.
pub proof fn lemma_index_of(fs: FsV, path: PathV)
    requires
        fs.has(path),
    ensures
        0 <= fs.index(path) < fs.entries.len(),
        fs.entries[fs.index(path)].path == path,
{
    reveal(FsV::has);
    reveal(FsV::index);
}

/// How many of the entries `names[from..]` of `dir` the entry is counted
/// below.
pub open spec fn hits(
    entry: EntryV,
    dir: PathV,
    names: Seq<Seq<char>>,
    from: nat,
    files_only: bool,
) -> nat
    decreases names.len() - from,
{
    if from >= names.len() {
        0
    } else {
        (if counted(entry, dir.child(names[from as int]), files_only) {
            1nat
        } else {
            0nat
        }) + hits(entry, dir, names, from + 1, files_only)
    }
}

/// One more entry adds to the sum what it is counted for.
pub proof fn lemma_hits(
    entries: Seq<EntryV>,
    last: EntryV,
    dir: PathV,
    names: Seq<Seq<char>>,
    from: nat,
    files_only: bool,
)
    ensures
        sum_below(entries.push(last), dir, names, from, files_only) == sum_below(
            entries,
            dir,
            names,
            from,
            files_only,
        ) + hits(last, dir, names, from, files_only),
    decreases names.len() - from,
{
    if from < names.len() {
        lemma_hits(entries, last, dir, names, from + 1, files_only);
        let all = entries.push(last);
        assert(all.drop_last() =~= entries);
        assert(all.last() == last);
    }
}

/// An entry that lies below none of the listed entries is counted nowhere.
pub proof fn lemma_no_hits(
    entry: EntryV,
    dir: PathV,
    names: Seq<Seq<char>>,
    from: nat,
    files_only: bool,
)
    requires
        forall|i: int|
            from <= i < names.len() ==> !counted(entry, dir.child(#[trigger] names[i]), files_only),
    ensures
        hits(entry, dir, names, from, files_only) == 0,
    decreases names.len() - from,
{
    if from < names.len() {
        lemma_no_hits(entry, dir, names, from + 1, files_only);
    }
}

/// An entry below the directory is counted below the listed entry that its
/// next component names, and below no other: the names are all different.
pub proof fn lemma_one_hit(
    entry: EntryV,
    dir: PathV,
    names: Seq<Seq<char>>,
    from: nat,
    at: int,
    files_only: bool,
)
    requires
        counted(entry, dir, files_only),
        dir != entry.path,
        names.no_duplicates(),
        0 <= at < names.len(),
        names[at] == entry.path.parts[dir.parts.len() as int],
    ensures
        hits(entry, dir, names, from, files_only) == if from <= at {
            1nat
        } else {
            0nat
        },
    decreases names.len() - from,
{
    if from < names.len() {
        lemma_one_hit(entry, dir, names, from + 1, at, files_only);
        let child = dir.child(names[from as int]);
        if from == at {
            lemma_below_some_child(dir, entry.path);
        } else if child.is_prefix_of(entry.path) {
            lemma_below_child(dir, names[from as int], entry.path);
            assert(names[from as int] == names[at]);
        }
    }
}

/// Where there are no entries there is nothing to count.
pub proof fn lemma_sum_of_nothing(
    entries: Seq<EntryV>,
    dir: PathV,
    names: Seq<Seq<char>>,
    from: nat,
    files_only: bool,
)
    requires
        entries.len() == 0,
    ensures
        sum_below(entries, dir, names, from, files_only) == 0,
    decreases names.len() - from,
{
    if from < names.len() {
        lemma_sum_of_nothing(entries, dir, names, from + 1, files_only);
    }
}

/// What is counted below a directory is what is counted below its entries,
/// and the directory itself where directories count: each entry below the
/// directory lies below exactly one of its entries.
pub proof fn lemma_count_split(
    fs: FsV,
    dir: PathV,
    names: Seq<Seq<char>>,
    upto: int,
    files_only: bool,
)
    requires
        fs.wf(),
        fs.kind(dir) == NodeKind::Directory,
        names.no_duplicates(),
        forall|name: Seq<char>| #[trigger] names.contains(name) <==> fs.has(dir.child(name)),
        0 <= upto <= fs.entries.len(),
    ensures
        count_below(fs.entries.take(upto), dir, files_only) == sum_below(
            fs.entries.take(upto),
            dir,
            names,
            0,
            files_only,
        ) + if !files_only && fs.index(dir) < upto {
            1nat
        } else {
            0nat
        },
    decreases upto,
{
    let entries = fs.entries.take(upto);
    lemma_kind_has(fs, dir);
    lemma_index_of(fs, dir);
    if upto == 0 {
        lemma_sum_of_nothing(entries, dir, names, 0, files_only);
    } else {
        let front = fs.entries.take(upto - 1);
        let last = fs.entries[upto - 1];
        assert(entries.drop_last() =~= front);
        assert(entries.last() == last);
        assert(entries =~= front.push(last));
        lemma_count_split(fs, dir, names, upto - 1, files_only);
        lemma_hits(front, last, dir, names, 0, files_only);
        lemma_node_of_entry(fs, upto - 1);
        if last.path == dir {
            assert(fs.index(dir) == upto - 1);
            assert forall|i: int| 0 <= i < names.len() implies !counted(
                last,
                dir.child(#[trigger] names[i]),
                files_only,
            ) by {
                if dir.child(names[i]).is_prefix_of(last.path) {
                    lemma_below_child(dir, names[i], last.path);
                }
            }
            lemma_no_hits(last, dir, names, 0, files_only);
        } else {
            assert(fs.index(dir) != upto - 1);
            if counted(last, dir, files_only) {
                lemma_below_some_child(dir, last.path);
                let name = last.path.parts[dir.parts.len() as int];
                let child = dir.child(name);
                if child != last.path {
                    lemma_above_is_directory(fs, child, last.path);
                }
                lemma_kind_has(fs, child);
                assert(names.contains(name));
                let at = choose|i: int| 0 <= i < names.len() && names[i] == name;
                lemma_one_hit(last, dir, names, 0, at, files_only);
            } else {
                assert forall|i: int| 0 <= i < names.len() implies !counted(
                    last,
                    dir.child(#[trigger] names[i]),
                    files_only,
                ) by {
                    if dir.child(names[i]).is_prefix_of(last.path) {
                        lemma_below_child(dir, names[i], last.path);
                    }
                }
                lemma_no_hits(last, dir, names, 0, files_only);
            }
        }
    }
}

/// The whole tree at once: what is counted below a directory, through any
/// listing of it that names each entry once.
pub proof fn lemma_count_of_directory(
    fs: FsV,
    dir: PathV,
    names: Seq<Seq<char>>,
    files_only: bool,
)
    requires
        fs.wf(),
        fs.kind(dir) == NodeKind::Directory,
        names.no_duplicates(),
        forall|name: Seq<char>| #[trigger] names.contains(name) <==> fs.has(dir.child(name)),
    ensures
        count_below(fs.entries, dir, files_only) == sum_below(
            fs.entries,
            dir,
            names,
            0,
            files_only,
        ) + if files_only {
            0nat
        } else {
            1nat
        },
{
    lemma_kind_has(fs, dir);
    lemma_index_of(fs, dir);
    lemma_count_split(fs, dir, names, fs.entries.len() as int, files_only);
    assert(fs.entries.take(fs.entries.len() as int) =~= fs.entries);
}

/// A file of a tree counts for one, and nothing lies below it.
pub proof fn lemma_count_of_file(fs: FsV, file: PathV, upto: int, files_only: bool)
    requires
        fs.wf(),
        fs.kind(file) == NodeKind::File,
        0 <= upto <= fs.entries.len(),
    ensures
        count_below(fs.entries.take(upto), file, files_only) == if upto > fs.index(file) {
            1nat
        } else {
            0nat
        },
    decreases upto,
{
    lemma_kind_has(fs, file);
    lemma_index_of(fs, file);
    let entries = fs.entries.take(upto);
    if upto > 0 {
        let front = fs.entries.take(upto - 1);
        let last = fs.entries[upto - 1];
        assert(entries.drop_last() =~= front);
        assert(entries.last() == last);
        lemma_count_of_file(fs, file, upto - 1, files_only);
        lemma_node_of_entry(fs, upto - 1);
        if file.is_prefix_of(last.path) && last.path != file {
            lemma_above_is_directory(fs, file, last.path);
        }
        if last.path == file {
            assert(fs.index(file) == upto - 1);
        }
    }
}

/// A file of a tree counts for one.
pub proof fn lemma_file_counts_one(fs: FsV, file: PathV, files_only: bool)
    requires
        fs.wf(),
        fs.kind(file) == NodeKind::File,
    ensures
        count_below(fs.entries, file, files_only) == 1,
{
    lemma_kind_has(fs, file);
    lemma_index_of(fs, file);
    lemma_count_of_file(fs, file, fs.entries.len() as int, files_only);
    assert(fs.entries.take(fs.entries.len() as int) =~= fs.entries);
}

} // verus!
