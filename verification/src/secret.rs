//! A text that is wiped from memory when it is dropped.
use vstd::prelude::*;

verus! {

/// Overwrites a string with `zeroize::Zeroize::zeroize`, which leaves it empty and does not panic.
#[verifier::external_body]
fn wipe(text: &mut String)
    ensures
        final(text)@.len() == 0,
    opens_invariants none
    no_unwind
{
    zeroize::Zeroize::zeroize(text);
}

/// A secret text. Whatever becomes of it, its memory is overwritten before it is given back.
#[derive(PartialEq, Eq)]
pub struct Secret {
    pub text: String,
}

impl View for Secret {
    type V = Seq<char>;

    open spec fn view(&self) -> Seq<char> {
        self.text@
    }
}

impl Drop for Secret {
    fn drop(&mut self)
        opens_invariants none
        no_unwind
    {
        wipe(&mut self.text);
    }
}

impl Default for Secret {
    fn default() -> (r: Self)
        ensures
            r@ == Seq::<char>::empty(),
    {
        Secret { text: String::new() }
    }
}

impl Clone for Secret {
    fn clone(&self) -> (r: Self)
        ensures
            r@ == self@,
    {
        Secret { text: self.text.clone() }
    }
}

impl Secret {
    pub fn new(text: String) -> (r: Self)
        ensures
            r@ == text@,
    {
        Secret { text }
    }

    pub fn as_str(&self) -> (r: &str)
        ensures
            r@ == self@,
    {
        self.text.as_str()
    }

    pub fn is_empty(&self) -> (r: bool)
        ensures
            r == (self@.len() == 0),
    {
        self.text.as_str().is_empty()
    }

    /// Overwrites the text; nothing is left of it.
    pub fn clear(&mut self)
        ensures
            final(self)@ == Seq::<char>::empty(),
    {
        wipe(&mut self.text);
        assert(self@ =~= Seq::empty());
    }

    /// Takes the text out, and leaves nothing.
    pub fn take(&mut self) -> (r: Self)
        ensures
            r@ == old(self)@,
            final(self)@ == Seq::<char>::empty(),
    {
        let mut out = Secret::default();
        std::mem::swap(&mut self.text, &mut out.text);
        out
    }
}

/// The text of a secret, if there is one.
pub open spec fn secret_text(value: Option<Secret>) -> Option<Seq<char>> {
    match value {
        Some(secret) => Some(secret@),
        None => None,
    }
}

} // verus!
