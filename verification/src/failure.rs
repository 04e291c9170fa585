//! Why a command could not do what it was asked.

use vstd::prelude::*;
use crate::text::{join, joined, texts};

verus! {

/// A failure, and what each caller on the way out had to add to it.
#[derive(Debug, PartialEq, Eq)]
pub struct Failure {
    /// Outermost first: what was being attempted stands before why it failed.
    pub layers: Vec<String>,
}

impl View for Failure {
    type V = Seq<Seq<char>>;

    open spec fn view(&self) -> Seq<Seq<char>> {
        texts(self.layers@)
    }
}

/// A failure with nothing around it.
pub open spec fn plain(message: Seq<char>) -> Seq<Seq<char>> {
    seq![message]
}

/// A failure with one more layer around it.
pub open spec fn within(context: Seq<char>, inner: Seq<Seq<char>>) -> Seq<Seq<char>> {
    seq![context] + inner
}

/// What the outermost layer says.
pub open spec fn headline_of(layers: Seq<Seq<char>>) -> Seq<char> {
    if layers.len() == 0 {
        seq![]
    } else {
        layers[0]
    }
}

/// Every layer, outermost first.
pub open spec fn full_of(layers: Seq<Seq<char>>) -> Seq<char> {
    joined(layers, ": "@)
}

/// A result with its failure taken by its layers.
pub open spec fn told<T>(r: Result<T, Failure>) -> Result<T, Seq<Seq<char>>> {
    match r {
        Ok(v) => Ok(v),
        Err(e) => Err(e@),
    }
}

/// As `told`, for a result that is text.
pub open spec fn told_text(r: Result<String, Failure>) -> Result<Seq<char>, Seq<Seq<char>>> {
    match r {
        Ok(v) => Ok(v@),
        Err(e) => Err(e@),
    }
}

impl Clone for Failure {
    fn clone(&self) -> (r: Failure)
        ensures
            r@ == self@,
    {
        Failure { layers: crate::text::clone_texts(&self.layers) }
    }
}

impl Failure {
    pub fn new(message: String) -> (r: Failure)
        ensures
            r@ == plain(message@),
    {
        let mut layers: Vec<String> = Vec::new();
        layers.push(message);
        let r = Failure { layers };
        assert(r@ =~= plain(message@));
        r
    }

    pub fn context(self, message: String) -> (r: Failure)
        ensures
            r@ == within(message@, self@),
    {
        let ghost before = self@;
        let mut layers = self.layers;
        layers.insert(0, message);
        let r = Failure { layers };
        assert(r@ =~= within(message@, before));
        r
    }

    /// The outermost layer.
    pub fn headline(&self) -> (r: String)
        ensures
            r@ == headline_of(self@),
    {
        if self.layers.len() == 0 {
            String::new()
        } else {
            self.layers[0].clone()
        }
    }

    /// Every layer, outermost first, with a colon between each two.
    pub fn full(&self) -> (r: String)
        ensures
            r@ == full_of(self@),
    {
        join(&self.layers, ": ")
    }
}

// ---------------------------------------------------------------------------
// Laws
// ---------------------------------------------------------------------------

proof fn lemma_joined_first(first: Seq<char>, rest: Seq<Seq<char>>, sep: Seq<char>)
    requires
        rest.len() > 0,
    ensures
        joined(seq![first] + rest, sep) == first + sep + joined(rest, sep),
    decreases rest.len(),
{
    let all = seq![first] + rest;
    if rest.len() == 1 {
        assert(all.drop_last() =~= seq![first]);
        assert(joined(rest, sep) =~= rest[0]);
        reveal_with_fuel(joined, 2);
        assert(joined(all, sep) =~= first + sep + rest[0]);
    } else {
        let front = rest.drop_last();
        lemma_joined_first(first, front, sep);
        assert(all.drop_last() =~= seq![first] + front);
        assert(all.last() == rest.last());
        assert(joined(all, sep) =~= first + sep + (joined(front, sep) + sep + rest.last()));
    }
}

/// What is added to a failure on its way out stands before it, and is what it is headed
/// by; nothing of what it said is lost. Read in full it tells every layer, the outermost
/// first, with a colon between each two.
pub proof fn law_a_failure_keeps_every_layer(
    message: Seq<char>,
    context: Seq<char>,
    inner: Seq<Seq<char>>,
)
    ensures
        plain(message).len() == 1,
        headline_of(plain(message)) == message,
        full_of(plain(message)) == message,
        within(context, inner).len() == inner.len() + 1,
        within(context, inner).drop_first() == inner,
        headline_of(within(context, inner)) == context,
        inner.len() > 0 ==> full_of(within(context, inner)) == context + ": "@ + full_of(inner),
{
    assert(within(context, inner).drop_first() =~= inner);
    if inner.len() > 0 {
        lemma_joined_first(context, inner, ": "@);
    }
}

} // verus!
