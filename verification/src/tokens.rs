use vstd::prelude::*;

verus! {

/// The tokens of a file as the tokenizer hands them out, kept up to and
/// including the first end-of-file token: what the parser is given.
pub struct TokenCollector<T> {
    tokens: Vec<T>,
    ends: Ghost<Seq<bool>>,
    done: bool,
}

impl<T> TokenCollector<T> {
    /// The tokens collected so far.
    pub closed spec fn tokens(&self) -> Seq<T> {
        self.tokens@
    }

    /// Which of the tokens collected so far end the file.
    pub closed spec fn ends(&self) -> Seq<bool> {
        self.ends@
    }

    /// The end-of-file token has been collected.
    pub closed spec fn complete(&self) -> bool {
        self.done
    }

    /// One flag per token; no token but the last ends the file, and the
    /// collection is complete exactly when the last one does.
    pub open spec fn well_formed(&self) -> bool {
        &&& self.ends().len() == self.tokens().len()
        &&& forall|i: int| 0 <= i < self.ends().len() - 1 ==> !#[trigger] self.ends()[i]
        &&& self.complete() == (self.ends().len() > 0 && self.ends().last())
    }

    /// A collection with no token yet.
    pub fn new() -> (c: Self)
        ensures
            c.tokens() == Seq::<T>::empty(),
            c.ends() == Seq::<bool>::empty(),
            !c.complete(),
            c.well_formed(),
    {
        TokenCollector { tokens: Vec::new(), ends: Ghost(Seq::empty()), done: false }
    }

    /// Whether the end-of-file token has been collected.
    pub fn is_done(&self) -> (b: bool)
        ensures
            b == self.complete(),
    {
        self.done
    }

    /// Keeps the next token, which ends the file where `is_eof`, and says
    /// whether the collection is now complete.
    pub fn push(&mut self, token: T, is_eof: bool) -> (done: bool)
        requires
            old(self).well_formed(),
            !old(self).complete(),
        ensures
            final(self).tokens() == old(self).tokens().push(token),
            final(self).ends() == old(self).ends().push(is_eof),
            final(self).complete() == is_eof,
            done == is_eof,
            final(self).well_formed(),
    {
        self.tokens.push(token);
        self.ends = Ghost(self.ends@.push(is_eof));
        self.done = is_eof;
        is_eof
    }

    /// The tokens collected.
    pub fn into_tokens(self) -> (tokens: Vec<T>)
        ensures
            tokens@ == self.tokens(),
    {
        self.tokens
    }
}

/// A complete collection ends with its one end-of-file token: every token
/// before the last was handed out before the end of the file.
pub proof fn lemma_complete_ends_once<T>(c: TokenCollector<T>)
    requires
        c.well_formed(),
        c.complete(),
    ensures
        c.tokens().len() > 0,
        c.ends().last(),
        forall|i: int| 0 <= i < c.ends().len() - 1 ==> !#[trigger] c.ends()[i],
{
}

} // verus!
