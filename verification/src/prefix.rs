//! The everyday form of a canonical path.
//!
//! A canonical path may begin with an extended-length prefix (`\\?\C:\`,
//! `\\?\UNC\server\share\`). The working directory is kept without it: the
//! prefix is replaced by its ordinary spelling and every other component is
//! taken over as it is. Where paths have no such prefixes nothing changes.

use vstd::prelude::*;

verus! {

/// The mathematical value of a `Prefix`.
pub enum PrefixV {
    Verbatim(Seq<char>),
    VerbatimUnc(Seq<char>, Seq<char>),
    VerbatimDisk(u8),
    Plain(Seq<char>),
}

/// The prefix of a path.
#[derive(Debug, PartialEq, Eq)]
pub enum Prefix {
    /// `\\?\name`.
    Verbatim(String),
    /// `\\?\UNC\server\share`.
    VerbatimUnc(String, String),
    /// `\\?\C:`, with the drive letter.
    VerbatimDisk(u8),
    /// Any prefix that is not of the extended-length kind, as it is written.
    Plain(String),
}

impl View for Prefix {
    type V = PrefixV;

    open spec fn view(&self) -> PrefixV {
        match self {
            Prefix::Verbatim(name) => PrefixV::Verbatim(name@),
            Prefix::VerbatimUnc(server, share) => PrefixV::VerbatimUnc(server@, share@),
            Prefix::VerbatimDisk(letter) => PrefixV::VerbatimDisk(*letter),
            Prefix::Plain(text) => PrefixV::Plain(text@),
        }
    }
}

/// The mathematical value of a `Component`.
pub enum ComponentV {
    Prefix(PrefixV),
    Other(Seq<char>),
}

/// A component of a canonical path.
#[derive(Debug, PartialEq, Eq)]
pub enum Component {
    /// The prefix.
    Prefix(Prefix),
    /// A root, a name, `.` or `..`, as it is written.
    Other(String),
}

impl View for Component {
    type V = ComponentV;

    open spec fn view(&self) -> ComponentV {
        match self {
            Component::Prefix(prefix) => ComponentV::Prefix(prefix@),
            Component::Other(text) => ComponentV::Other(text@),
        }
    }
}

impl DeepView for Component {
    type V = ComponentV;

    open spec fn deep_view(&self) -> ComponentV {
        self@
    }
}

/// The ordinary spelling of a prefix: the name of a verbatim prefix,
/// `\\server\share` for a verbatim network share, the letter and a colon for a
/// verbatim disk; any other prefix is spelled as it is.
pub open spec fn plain_prefix(prefix: PrefixV) -> Seq<char> {
    match prefix {
        PrefixV::Verbatim(name) => name,
        PrefixV::VerbatimUnc(server, share) => seq!['\\', '\\'] + server + seq!['\\'] + share,
        PrefixV::VerbatimDisk(letter) => seq![letter as char, ':'],
        PrefixV::Plain(text) => text,
    }
}

/// The ordinary spelling of a component.
pub open spec fn plain_component(component: ComponentV) -> Seq<char> {
    match component {
        ComponentV::Prefix(prefix) => plain_prefix(prefix),
        ComponentV::Other(text) => text,
    }
}

/// Spells a prefix in the ordinary way.
pub fn strip_verbatim(prefix: &Prefix) -> (out: String)
    ensures
        out@ == plain_prefix(prefix@),
{
    match prefix {
        Prefix::Verbatim(name) => name.clone(),
        Prefix::VerbatimUnc(server, share) => {
            let mut out = String::new();
            out.push('\\');
            out.push('\\');
            out.append(server.as_str());
            out.push('\\');
            out.append(share.as_str());
            assert(out@ =~= plain_prefix(prefix@));
            out
        },
        Prefix::VerbatimDisk(letter) => {
            let mut out = String::new();
            out.push(*letter as char);
            out.push(':');
            assert(out@ =~= plain_prefix(prefix@));
            out
        },
        Prefix::Plain(text) => text.clone(),
    }
}

/// The components of a canonical path in their ordinary spelling, in order:
/// what is put together again to give the path that is shown and kept.
pub fn plain_components(components: &Vec<Component>) -> (out: Vec<String>)
    ensures
        out.len() == components.len(),
        forall|i: int|
            0 <= i < components.len() ==> #[trigger] out[i]@ == plain_component(components[i]@),
{
    let mut out: Vec<String> = Vec::new();
    let mut i: usize = 0;
    while i < components.len()
        invariant
            i <= components.len(),
            out.len() == i,
            forall|j: int| 0 <= j < i ==> #[trigger] out[j]@ == plain_component(components[j]@),
        decreases components.len() - i,
    {
        let text = match &components[i] {
            Component::Prefix(prefix) => strip_verbatim(prefix),
            Component::Other(text) => text.clone(),
        };
        out.push(text);
        i = i + 1;
    }
    out
}

} // verus!
