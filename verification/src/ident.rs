//! The string interner and the identifiers it hands out.

use vstd::prelude::*;
use crate::error::Error;
use crate::text::{alphabetic, chars_of, ident_part, in_ident, is_alphabetic};

verus! {

/// An interned, immutable string.
pub type Str = String;

/// The identifier grammar: a letter, then letters, digits and underscores.
pub open spec fn valid_ident(s: Seq<char>) -> bool {
    &&& s.len() > 0
    &&& alphabetic(s[0])
    &&& forall|i: int| 1 <= i < s.len() ==> ident_part(#[trigger] s[i])
}

/// An interned string that obeys the identifier grammar. It names functions,
/// variables, record keys and symbols. Two identifiers are the same handle
/// exactly when their texts are equal, from whichever pool they come.
#[derive(Debug, PartialEq, Eq, Hash)]
pub struct Ident {
    name: Str,
}

impl View for Ident {
    type V = Seq<char>;

    closed spec fn view(&self) -> Seq<char> {
        self.name@
    }
}

impl Ident {
    #[verifier::type_invariant]
    spec fn well_formed(self) -> bool {
        valid_ident(self.name@)
    }

    /// Whether two identifiers are the same handle, which they are exactly
    /// when their texts are equal.
    pub fn same_as(&self, other: &Ident) -> (r: bool)
        ensures
            r == (self@ == other@),
    {
        self.name == other.name
    }

    /// The identifier's text, which obeys the identifier grammar.
    pub fn as_str(&self) -> (s: &str)
        ensures
            s@ == self@,
            valid_ident(self@),
    {
        proof {
            use_type_invariant(self);
        }
        self.name.as_str()
    }
}

impl Clone for Ident {
    fn clone(&self) -> (r: Self)
        ensures
            r == *self,
    {
        proof {
            use_type_invariant(self);
        }
        Ident { name: self.name.clone() }
    }
}

/// What an interner can hand out: a value made from a pooled string.
pub trait Interned: Sized {
    /// Whether a pooled string with this text can be handed out as `Self`.
    spec fn accepts(text: Seq<char>) -> bool;

    /// The text of a value that was handed out.
    spec fn text(&self) -> Seq<char>;

    /// Makes a value from a pooled string, or fails with `InvalidIdent`
    /// carrying the string when its text is not accepted.
    fn from_arc(s: &Str) -> (r: Result<Self, Error>)
        ensures
            r is Ok <==> Self::accepts(s@),
            r matches Ok(v) ==> v.text() == s@,
            r matches Err(e) ==> e == (Error::InvalidIdent { input: *s }),
    ;
}

impl Interned for Str {
    open spec fn accepts(text: Seq<char>) -> bool {
        true
    }

    open spec fn text(&self) -> Seq<char> {
        self@
    }

    fn from_arc(s: &Str) -> (r: Result<Str, Error>) {
        Ok(s.clone())
    }
}

impl Interned for Ident {
    open spec fn accepts(text: Seq<char>) -> bool {
        valid_ident(text)
    }

    open spec fn text(&self) -> Seq<char> {
        self@
    }

    fn from_arc(s: &Str) -> (r: Result<Ident, Error>) {
        let chars = chars_of(s.as_str());
        if chars.len() == 0 || !is_alphabetic(chars[0]) {
            return Err(Error::InvalidIdent { input: s.clone() });
        }
        let mut i: usize = 1;
        while i < chars.len()
            invariant
                1 <= i <= chars.len(),
                chars@ == s@,
                alphabetic(chars@[0]),
                forall|j: int| 1 <= j < i ==> ident_part(#[trigger] chars@[j]),
            decreases chars.len() - i,
        {
            if !in_ident(chars[i]) {
                return Err(Error::InvalidIdent { input: s.clone() });
            }
            i = i + 1;
        }
        Ok(Ident { name: s.clone() })
    }
}

/// The pool after `text` has been interned: unchanged when it already holds
/// the text, longer by that text otherwise.
pub open spec fn pool_with(pool: Seq<Seq<char>>, text: Seq<char>) -> Seq<Seq<char>> {
    if pool.contains(text) {
        pool
    } else {
        pool.push(text)
    }
}

/// The string pool. It holds each interned text once, in the order of first
/// interning.
#[derive(Debug)]
pub struct Strings {
    pool: Vec<Str>,
}

impl View for Strings {
    type V = Seq<Seq<char>>;

    closed spec fn view(&self) -> Seq<Seq<char>> {
        Seq::new(self.pool@.len(), |i: int| self.pool@[i]@)
    }
}

impl Strings {
    /// An empty pool.
    pub fn new() -> (s: Strings)
        ensures
            s@ == Seq::<Seq<char>>::empty(),
    {
        let s = Strings { pool: Vec::new() };
        assert(s@ =~= Seq::<Seq<char>>::empty());
        s
    }

    /// The number of pooled strings.
    pub fn len(&self) -> (n: usize)
        ensures
            n == self@.len(),
    {
        self.pool.len()
    }

    /// The position of a text in the pool, if it is there.
    fn find(&self, input: &Str) -> (r: Option<usize>)
        ensures
            r matches Some(i) ==> i < self@.len() && self@[i as int] == input@ && i < self.pool@.len(),
            r is None ==> !self@.contains(input@),
    {
        let mut i: usize = 0;
        while i < self.pool.len()
            invariant
                i <= self.pool.len(),
                forall|j: int| 0 <= j < i ==> self@[j] != input@,
            decreases self.pool.len() - i,
        {
            if self.pool[i] == *input {
                return Some(i);
            }
            i = i + 1;
        }
        None
    }

    /// Interns `input`: pools its text unless it is pooled already, then hands
    /// out the pooled string as an `O`. The text is pooled even when `O`
    /// does not accept it. A pool that held no text twice still holds none twice.
    pub fn intern<O: Interned>(&mut self, input: &str) -> (r: Result<O, Error>)
        ensures
            final(self)@ == pool_with(old(self)@, input@),
            old(self)@.no_duplicates() ==> final(self)@.no_duplicates(),
            r is Ok <==> O::accepts(input@),
            r matches Ok(v) ==> v.text() == input@,
            r matches Err(e) ==> e matches Error::InvalidIdent { input: i } && i@ == input@,
    {
        proof {
            interning_is_idempotent(self@, input@);
        }
        let text = input.to_owned();
        let index = match self.find(&text) {
            Some(i) => i,
            None => {
                let ghost before = self@;
                let n = self.pool.len();
                self.pool.push(text);
                assert(self@ =~= before.push(input@));
                n
            },
        };
        O::from_arc(&self.pool[index])
    }
}

/// Interning is idempotent: a second interning of the same text leaves the
/// pool as the first one made it, and the pool never holds a text twice.
pub proof fn interning_is_idempotent(pool: Seq<Seq<char>>, text: Seq<char>)
    ensures
        pool_with(pool, text).contains(text),
        pool.no_duplicates() ==> pool_with(pool, text).no_duplicates(),
        pool_with(pool_with(pool, text), text) == pool_with(pool, text),
{
    let p = pool_with(pool, text);
    if pool.contains(text) {
    } else {
        assert(p[pool.len() as int] == text);
    }
}

} // verus!
