//! Bidirectional mapping between XML documents and typed data structures.
//!
//! The crate converts user values to namespace-correct XML text and parses
//! XML back into values. Its pieces, from the leaves up: the entity codec
//! (`entity`), the namespace scope stack (`scope`), the serializer core
//! (`ser`), the token source and deserializer core (`token`, `de`), the
//! scalar value adapters (`adapters`), and hand-written bindings for a few
//! record shapes (`records`), in the style a code generator would emit.

use vstd::prelude::*;

pub mod adapters;
pub mod de;
pub mod entity;
pub mod num;
pub mod records;
pub mod scope;
pub mod ser;
pub mod token;

verus! {

/// Character-wise string equality; two strings are equal exactly when
/// their character sequences are.
pub fn str_eq(a: &str, b: &str) -> (r: bool)
    ensures
        r == (a@ == b@),
{
    let na = a.unicode_len();
    let nb = b.unicode_len();
    if na != nb {
        return false;
    }
    let mut i: usize = 0;
    while i < na
        invariant
            i <= na,
            na == a@.len(),
            na == b@.len(),
            forall|j: int| 0 <= j < i ==> a@[j] == b@[j],
        decreases na - i,
    {
        if a.get_char(i) != b.get_char(i) {
            return false;
        }
        i = i + 1;
    }
    proof {
        assert(a@ =~= b@);
    }
    true
}

/// The flat error taxonomy: every failure of the serializer, the
/// deserializer or an adapter maps to exactly one kind.
#[derive(Debug, PartialEq, Eq)]
pub enum Error {
    /// The text sink refused a write.
    Format,
    /// The token source reported a lexical error.
    Parse,
    /// Adapter-specific failure, with a short message.
    Other(String),
    /// Input ended before the root element was closed.
    UnexpectedEndOfStream,
    /// A scalar adapter could not interpret the text.
    UnexpectedValue,
    /// A required element's name or namespace did not match.
    UnexpectedTag,
    /// A required child element was absent at finalize.
    MissingTag,
    /// A required field accumulator was empty at finalize.
    MissingValue,
    /// A once-optional accumulator received a second occurrence.
    DuplicateValue,
    /// The deserializer saw a token of a kind forbidden in its state.
    UnexpectedToken,
    /// A prefix reference could not be resolved in scope.
    MissingPrefix,
    /// The caller violated the serializer or deserializer state contract.
    UnexpectedState,
    /// An element matched by local name but not by namespace URI.
    WrongNamespace,
    /// A decoded entity body was not in the predefined table.
    InvalidEntity(String),
}

/// The qualified name of an element or attribute: a namespace URI
/// (`""` means "no namespace") and a local name. Two ids are equal
/// exactly when both components are equal strings.
#[derive(Debug)]
pub struct Id {
    pub ns: String,
    pub name: String,
}

impl Id {
    /// Exact equality on both components.
    pub fn matches(&self, other: &Id) -> (r: bool)
        ensures
            r == (self.ns@ == other.ns@ && self.name@ == other.name@),
    {
        self.ns == other.ns && self.name == other.name
    }
}

/// A type's wire classification: an `Element` carries its own id and
/// writes its own tags; a `Scalar` is a text leaf that the parent wraps.
#[derive(Debug)]
pub enum Kind {
    Scalar,
    Element(Id),
}

} // verus!
