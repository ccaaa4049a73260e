//! Lists of answers that were obtained one after the other.
use vstd::prelude::*;

verus! {

/// An answer to a question of one kind.
pub trait Fact: Sized {
    /// What tells two questions of this kind apart, as a mathematical value.
    type Key;

    /// What tells two questions of this kind apart.
    type Probe: ?Sized;

    /// The question that this answers.
    spec fn key(&self) -> Self::Key;

    /// The question that `probe` asks.
    spec fn asked(probe: &Self::Probe) -> Self::Key;

    /// Whether this answers the question that `probe` asks.
    fn answers(&self, probe: &Self::Probe) -> (r: bool)
        ensures
            r == (self.key() == Self::asked(probe)),
    ;
}

/// The answer to a question that was obtained last.
pub open spec fn latest<F: Fact>(facts: Seq<F>, key: F::Key) -> Option<F>
    decreases facts.len(),
{
    if facts.len() == 0 {
        None
    } else if facts.last().key() == key {
        Some(facts.last())
    } else {
        latest(facts.drop_last(), key)
    }
}

/// Finds the answer to a question that was obtained last.
pub fn find_latest<'a, F: Fact>(facts: &'a Vec<F>, probe: &F::Probe) -> (r: Option<&'a F>)
    ensures
        match latest(facts@, F::asked(probe)) {
            Some(fact) => r == Some(&fact),
            None => r is None,
        },
{
    let mut i: usize = facts.len();
    assert(facts@.take(i as int) =~= facts@);
    while i > 0
        invariant
            i <= facts.len(),
            latest(facts@, F::asked(probe)) == latest(facts@.take(i as int), F::asked(probe)),
        decreases i,
    {
        let ghost prefix = facts@.take(i as int);
        i = i - 1;
        assert(prefix.last() == facts@[i as int]);
        if facts[i].answers(probe) {
            return Some(&facts[i]);
        }
        assert(prefix.drop_last() =~= facts@.take(i as int));
    }
    None
}

/// A new answer replaces the earlier ones to the same question and leaves all others as they were.
pub proof fn law_new_answer_is_used<F: Fact>(facts: Seq<F>, fact: F, key: F::Key)
    ensures
        latest(facts.push(fact), fact.key()) == Some(fact),
        key != fact.key() ==> latest(facts.push(fact), key) == latest(facts, key),
{
    assert(facts.push(fact).drop_last() =~= facts);
}

} // verus!
