//! Paths as sequences of components.
//!
//! A path is an anchor (the text of a drive prefix and root, empty for a
//! relative path) followed by its components in order. Two paths denote the
//! same location exactly when anchor and components agree, so equality and
//! prefix tests are plain comparisons of sequences.

use vstd::prelude::*;
use crate::text::clone_names;
use crate::text::same_text;

verus! {

/// The mathematical value of a path.
pub struct PathV {
    /// Text of the prefix and root; empty for a relative path.
    pub anchor: Seq<char>,
    /// The components after the anchor, outermost first.
    pub parts: Seq<Seq<char>>,
}

impl PathV {
    /// Whether the path names a location by itself.
    pub open spec fn is_absolute(self) -> bool {
        self.anchor.len() > 0
    }

    /// The path one level below `self`, at `name`.
    pub open spec fn child(self, name: Seq<char>) -> PathV {
        PathV { anchor: self.anchor, parts: self.parts.push(name) }
    }

    /// The path one level above; meaningful where `self` has components.
    pub open spec fn parent(self) -> PathV {
        PathV { anchor: self.anchor, parts: self.parts.drop_last() }
    }

    /// Whether `self` is `other` or lies above it.
    pub open spec fn is_prefix_of(self, other: PathV) -> bool {
        self.anchor == other.anchor && self.parts.is_prefix_of(other.parts)
    }

    /// Whether the last component is an ordinary name, neither `.` nor `..`.
    pub open spec fn has_name(self) -> bool {
        self.parts.len() > 0 && !is_dots(self.parts.last())
    }

    /// The last component.
    pub open spec fn name(self) -> Seq<char>
        recommends
            self.parts.len() > 0,
    {
        self.parts.last()
    }

    /// `input` seen from `self`: an absolute `input` stands for itself, a
    /// relative one is appended to `self`.
    pub open spec fn resolve(self, input: PathV) -> PathV {
        if input.is_absolute() {
            input
        } else {
            PathV { anchor: self.anchor, parts: self.parts + input.parts }
        }
    }
}

/// Whether `name` is one of the two special components `.` and `..`.
pub open spec fn is_dots(name: Seq<char>) -> bool {
    name == seq!['.'] || name == seq!['.', '.']
}

/// An owned path.
#[derive(Debug, PartialEq, Eq)]
pub struct Path {
    /// Text of the prefix and root; empty for a relative path.
    pub anchor: String,
    /// The components after the anchor, outermost first.
    pub parts: Vec<String>,
}

impl View for Path {
    type V = PathV;

    open spec fn view(&self) -> PathV {
        PathV { anchor: self.anchor@, parts: self.parts.deep_view() }
    }
}

impl DeepView for Path {
    type V = PathV;

    open spec fn deep_view(&self) -> PathV {
        self@
    }
}

impl Clone for Path {
    fn clone(&self) -> (out: Self)
        ensures
            out@ == self@,
    {
        Path { anchor: self.anchor.clone(), parts: clone_names(&self.parts) }
    }
}

/// Tests a component for `.` and `..`.
pub fn name_is_dots(name: &str) -> (b: bool)
    ensures
        b == is_dots(name@),
{
    proof {
        reveal_strlit(".");
        reveal_strlit("..");
    }
    let one = same_text(name, ".");
    let two = same_text(name, "..");
    assert("."@ =~= seq!['.']);
    assert(".."@ =~= seq!['.', '.']);
    one || two
}

impl Path {
    /// Whether the path names a location by itself.
    pub fn is_absolute(&self) -> (b: bool)
        ensures
            b == self@.is_absolute(),
    {
        self.anchor.as_str().unicode_len() > 0
    }

    /// The path one level below `self`, at `name`.
    pub fn join(&self, name: &str) -> (out: Path)
        ensures
            out@ == self@.child(name@),
    {
        let mut parts = clone_names(&self.parts);
        parts.push(String::from_str(name));
        assert(parts.deep_view() =~= self.parts.deep_view().push(name@));
        Path { anchor: self.anchor.clone(), parts }
    }

    /// `input` seen from `self`.
    pub fn resolve(&self, input: &Path) -> (out: Path)
        ensures
            out@ == self@.resolve(input@),
    {
        if input.is_absolute() {
            return input.clone();
        }
        let mut parts = clone_names(&self.parts);
        let ghost base = self.parts.deep_view();
        let mut i: usize = 0;
        while i < input.parts.len()
            invariant
                i <= input.parts.len(),
                base == self.parts.deep_view(),
                parts.len() == base.len() + i,
                forall|j: int| 0 <= j < base.len() ==> parts[j]@ == base[j],
                forall|j: int| 0 <= j < i ==> parts[base.len() + j]@ == input.parts[j]@,
            decreases input.parts.len() - i,
        {
            parts.push(input.parts[i].clone());
            i = i + 1;
        }
        assert(parts.deep_view() =~= base + input.parts.deep_view());
        Path { anchor: self.anchor.clone(), parts }
    }

    /// Whether both paths denote the same location.
    pub fn same_as(&self, other: &Path) -> (b: bool)
        ensures
            b == (self@ == other@),
    {
        if self.anchor != other.anchor || self.parts.len() != other.parts.len() {
            assert(self.parts.deep_view().len() == self.parts.len());
            assert(other.parts.deep_view().len() == other.parts.len());
            return false;
        }
        let mut i: usize = 0;
        while i < self.parts.len()
            invariant
                i <= self.parts.len(),
                self.parts.len() == other.parts.len(),
                self.anchor@ == other.anchor@,
                forall|j: int| 0 <= j < i ==> self.parts[j]@ == other.parts[j]@,
            decreases self.parts.len() - i,
        {
            if self.parts[i] != other.parts[i] {
                assert(self.parts.deep_view()[i as int] != other.parts.deep_view()[i as int]);
                return false;
            }
            i = i + 1;
        }
        assert(self.parts.deep_view() =~= other.parts.deep_view());
        true
    }

    /// Whether `prefix` is `self` or lies above it.
    pub fn starts_with(&self, prefix: &Path) -> (b: bool)
        ensures
            b == prefix@.is_prefix_of(self@),
    {
        if self.anchor != prefix.anchor || prefix.parts.len() > self.parts.len() {
            assert(self.parts.deep_view().len() == self.parts.len());
            assert(prefix.parts.deep_view().len() == prefix.parts.len());
            return false;
        }
        let mut i: usize = 0;
        while i < prefix.parts.len()
            invariant
                i <= prefix.parts.len() <= self.parts.len(),
                self.anchor@ == prefix.anchor@,
                forall|j: int| 0 <= j < i ==> self.parts[j]@ == prefix.parts[j]@,
            decreases prefix.parts.len() - i,
        {
            if self.parts[i] != prefix.parts[i] {
                assert(self.parts.deep_view()[i as int] != prefix.parts.deep_view()[i as int]);
                assert(!prefix.parts.deep_view().is_prefix_of(self.parts.deep_view())) by {
                    if prefix.parts.deep_view().is_prefix_of(self.parts.deep_view()) {
                        assert(self.parts.deep_view().subrange(
                            0,
                            prefix.parts.deep_view().len() as int,
                        )[i as int] == prefix.parts.deep_view()[i as int]);
                    }
                }
                return false;
            }
            i = i + 1;
        }
        assert(self.parts.deep_view().subrange(0, prefix.parts.deep_view().len() as int)
            =~= prefix.parts.deep_view());
        true
    }

    /// Whether `self` stands directly below `dir`.
    pub fn is_directly_below(&self, dir: &Path) -> (b: bool)
        ensures
            b == (self@.parts.len() > 0 && self@.parent() == dir@),
    {
        let n = dir.parts.len();
        assert(self.parts.deep_view().len() == self.parts.len());
        assert(dir.parts.deep_view().len() == dir.parts.len());
        if self.anchor != dir.anchor || self.parts.len() == 0 || self.parts.len() - 1 != n {
            return false;
        }
        let mut i: usize = 0;
        while i < n
            invariant
                i <= n,
                n == dir.parts.len(),
                self.parts.len() == n + 1,
                forall|j: int| 0 <= j < i ==> self.parts[j]@ == dir.parts[j]@,
            decreases n - i,
        {
            if self.parts[i] != dir.parts[i] {
                assert(self.parts.deep_view().drop_last()[i as int] != dir.parts.deep_view()[i as int]);
                return false;
            }
            i = i + 1;
        }
        assert(self.parts.deep_view().drop_last() =~= dir.parts.deep_view());
        true
    }

    /// Whether the last component is an ordinary name.
    pub fn has_name(&self) -> (b: bool)
        ensures
            b == self@.has_name(),
    {
        let n = self.parts.len();
        if n == 0 {
            assert(self.parts.deep_view().len() == 0);
            return false;
        }
        assert(self.parts.deep_view().last() == self.parts[n - 1]@);
        !name_is_dots(self.parts[n - 1].as_str())
    }

    /// The last component, where it is an ordinary name.
    pub fn file_name(&self) -> (out: Option<String>)
        ensures
            out is Some <==> self@.has_name(),
            out matches Some(name) ==> name@ == self@.name(),
    {
        if self.has_name() {
            let n = self.parts.len();
            assert(self.parts.deep_view().last() == self.parts[n - 1]@);
            Some(self.parts[n - 1].clone())
        } else {
            None
        }
    }
}

} // verus!
