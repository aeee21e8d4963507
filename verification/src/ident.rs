use vstd::prelude::*;

verus! {

/// An opaque wrapper around a name string. Identifiers are compared by their
/// underlying string and are used both as expression-tree fields and as
/// environment keys.
#[derive(Debug)]
pub struct Ident {
    identifier: String,
}

impl View for Ident {
    type V = Seq<char>;

    closed spec fn view(&self) -> Seq<char> {
        self.identifier@
    }
}

impl Ident {
    pub fn from_str(identifier: &str) -> (r: Self)
        ensures
            r@ == identifier@,
    {
        Ident { identifier: identifier.to_owned() }
    }

    /// The underlying name string.
    pub fn as_str(&self) -> (r: &str)
        ensures
            r@ == self@,
    {
        self.identifier.as_str()
    }
}

impl Clone for Ident {
    fn clone(&self) -> (r: Self)
        ensures
            r == *self,
    {
        Ident { identifier: self.identifier.clone() }
    }
}

impl PartialEq for Ident {
    fn eq(&self, other: &Ident) -> (r: bool) {
        self.identifier == other.identifier
    }
}

impl vstd::std_specs::cmp::PartialEqSpecImpl for Ident {
    open spec fn obeys_eq_spec() -> bool {
        true
    }

    open spec fn eq_spec(&self, other: &Ident) -> bool {
        self@ == other@
    }
}

} // verus!
