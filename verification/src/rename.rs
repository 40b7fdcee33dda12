//! Numbered names for files whose destination is taken.
//!
//! The candidates for `report.txt` are `report (2).txt`, `report (3).txt`
//! and so on: the number goes between the stem and the extension. The search
//! for a free one is bounded, so it ends whatever the directory holds.

use vstd::prelude::*;
use crate::text::chars_of;
use crate::text::decimal;
use crate::text::push_chars;
use crate::text::push_decimal;

verus! {

/// The number that the first candidate carries.
pub const FIRST_NUMBER: u64 = 2;

/// The customary limit of the search: no number above it is tried.
pub const DEFAULT_BOUND: u64 = 10000;

/// The position of the last `.` in `name`, or -1 where it has none.
pub open spec fn last_dot(name: Seq<char>) -> int
    decreases name.len(),
{
    if name.len() == 0 {
        -1
    } else if name.last() == '.' {
        name.len() - 1
    } else {
        last_dot(name.drop_last())
    }
}

/// Where the extension of `name` begins: at its last `.`, unless that is
/// the first character or `name` has none; then `name` has no extension
/// and this is its length.
pub open spec fn extension_start(name: Seq<char>) -> int {
    let i = last_dot(name);
    if i > 0 {
        i
    } else {
        name.len() as int
    }
}

/// The part of `name` before its extension.
pub open spec fn stem(name: Seq<char>) -> Seq<char> {
    name.take(extension_start(name))
}

/// The extension of `name` with its leading `.`, or nothing.
pub open spec fn extension(name: Seq<char>) -> Seq<char> {
    name.skip(extension_start(name))
}

/// The candidate of `name` that carries the number `n`.
pub open spec fn numbered(name: Seq<char>, n: nat) -> Seq<char> {
    stem(name) + seq![' ', '('] + decimal(n) + seq![')'] + extension(name)
}

/// The number of the first candidate of `name`, from `counter` on, that is
/// not in `taken`. The search gives up after the candidate numbered `bound`
/// (after the first one, where `bound` is smaller than `counter`).
pub open spec fn first_free(
    taken: Set<Seq<char>>,
    name: Seq<char>,
    counter: nat,
    bound: nat,
) -> Option<nat>
    decreases bound - counter,
{
    if !taken.contains(numbered(name, counter)) {
        Some(counter)
    } else if counter >= bound {
        None
    } else {
        first_free(taken, name, counter + 1, bound)
    }
}

/// The search finds the least free number, and fails exactly when every
/// candidate up to the bound is taken.
pub proof fn lemma_first_free(taken: Set<Seq<char>>, name: Seq<char>, counter: nat, bound: nat)
    ensures
        match first_free(taken, name, counter, bound) {
            Some(n) => {
                &&& counter <= n
                &&& n <= bound || n == counter
                &&& !taken.contains(numbered(name, n))
                &&& forall|k: nat| counter <= k < n ==> taken.contains(#[trigger] numbered(name, k))
            },
            None => {
                &&& taken.contains(numbered(name, counter))
                &&& forall|k: nat|
                    counter <= k <= bound ==> taken.contains(#[trigger] numbered(name, k))
            },
        },
    decreases bound - counter,
{
    if taken.contains(numbered(name, counter)) && counter < bound {
        lemma_first_free(taken, name, counter + 1, bound);
    }
}

/// The index of the last `.` among `cs[..end]`, if any.
fn find_last_dot(cs: &Vec<char>) -> (at: Option<usize>)
    ensures
        match at {
            Some(i) => i == last_dot(cs@) && i < cs.len(),
            None => last_dot(cs@) == -1,
        },
{
    let mut end: usize = cs.len();
    assert(cs@.take(end as int) =~= cs@);
    while end > 0
        invariant
            end <= cs.len(),
            last_dot(cs@) == last_dot(cs@.take(end as int)),
        decreases end,
    {
        let ghost head = cs@.take(end as int);
        assert(head.last() == cs@[end - 1]);
        assert(head.drop_last() =~= cs@.take(end - 1));
        if cs[end - 1] == '.' {
            return Some(end - 1);
        }
        end = end - 1;
    }
    assert(cs@.take(0).len() == 0);
    None
}

/// The candidate of `name` that carries the number `counter`.
pub fn numbered_name(name: &str, counter: u64) -> (out: String)
    ensures
        out@ == numbered(name@, counter as nat),
{
    let cs = chars_of(name);
    let split: usize = match find_last_dot(&cs) {
        Some(i) => if i > 0 {
            i
        } else {
            cs.len()
        },
        None => cs.len(),
    };
    let mut out = String::new();
    push_chars(&mut out, &cs, 0, split);
    out.push(' ');
    out.push('(');
    push_decimal(&mut out, counter);
    out.push(')');
    push_chars(&mut out, &cs, split, cs.len());
    assert(out@ =~= numbered(name@, counter as nat));
    out
}

/// Whether `name` is one of `taken`.
pub fn is_taken(taken: &Vec<String>, name: &String) -> (found: bool)
    ensures
        found == taken.deep_view().contains(name@),
{
    let mut i: usize = 0;
    while i < taken.len()
        invariant
            i <= taken.len(),
            forall|j: int| 0 <= j < i ==> taken.deep_view()[j] != name@,
        decreases taken.len() - i,
    {
        assert(taken.deep_view()[i as int] == taken[i as int]@);
        if taken[i] == *name {
            return true;
        }
        i = i + 1;
    }
    false
}

/// The first numbered name of `name` that is not among `taken`, trying the
/// numbers from 2 up to `bound`; `None` where all of them are taken.
pub fn next_free_name(taken: &Vec<String>, name: &str, bound: u64) -> (out: Option<String>)
    ensures
        match first_free(taken.deep_view().to_set(), name@, FIRST_NUMBER as nat, bound as nat) {
            Some(n) => out matches Some(free) && free@ == numbered(name@, n),
            None => out is None,
        },
{
    let ghost set = taken.deep_view().to_set();
    let mut counter: u64 = FIRST_NUMBER;
    loop
        invariant
            set == taken.deep_view().to_set(),
            counter >= FIRST_NUMBER,
            first_free(set, name@, counter as nat, bound as nat) == first_free(
                set,
                name@,
                FIRST_NUMBER as nat,
                bound as nat,
            ),
        decreases
                if counter > bound {
                    0
                } else {
                    bound - counter + 1
                },
    {
        let candidate = numbered_name(name, counter);
        if !is_taken(taken, &candidate) {
            return Some(candidate);
        }
        if counter >= bound {
            return None;
        }
        counter = counter + 1;
    }
}

} // verus!
