use vstd::prelude::*;

verus! {

/// True for the characters that may start an identifier: an ASCII letter or
/// an underscore.
pub open spec fn is_ident_start_char(c: char) -> bool {
    ('a' <= c <= 'z') || ('A' <= c <= 'Z') || c == '_'
}

/// True for the characters that may follow the first one: an ASCII letter, an
/// ASCII digit or an underscore.
pub open spec fn is_ident_continue_char(c: char) -> bool {
    is_ident_start_char(c) || ('0' <= c <= '9')
}

/// The identifier grammar `[A-Za-z_][A-Za-z0-9_]*`.
pub open spec fn is_identifier(text: Seq<char>) -> bool {
    &&& text.len() > 0
    &&& is_ident_start_char(text[0])
    &&& forall|i: int| 0 <= i < text.len() ==> is_ident_continue_char(#[trigger] text[i])
}

/// A slice of the source text that the identifier grammar accepted.
#[derive(Debug, PartialEq, Eq)]
pub struct Ident<'a>(&'a str);

impl<'a> View for Ident<'a> {
    type V = Seq<char>;

    closed spec fn view(&self) -> Seq<char> {
        self.0@
    }
}

impl<'a> Ident<'a> {
    #[verifier::type_invariant]
    spec fn accepted(&self) -> bool {
        is_identifier(self.0@)
    }

    /// Wraps a slice that spells an identifier.
    pub fn new(ident: &'a str) -> (id: Self)
        requires
            is_identifier(ident@),
        ensures
            id@ == ident@,
    {
        Ident(ident)
    }

    /// The slice itself, which spells an identifier.
    pub fn as_str(&self) -> (text: &'a str)
        ensures
            text@ == self@,
            is_identifier(text@),
    {
        proof {
            use_type_invariant(self);
        }
        self.0
    }
}

impl<'a> core::ops::Deref for Ident<'a> {
    type Target = str;

    /// The slice itself.
    fn deref(&self) -> (text: &str)
        ensures
            text@ == self@,
    {
        self.as_str()
    }
}

} // verus!
