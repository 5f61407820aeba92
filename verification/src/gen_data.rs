use vstd::prelude::*;
use rand::distributions::Uniform;
use rand::rngs::ThreadRng;
use rand::{thread_rng, Rng};
use std::collections::HashSet;

verus! {

#[verifier::external_type_specification]
#[verifier::external_body]
pub struct ExThreadRng(ThreadRng);

/// `rand::thread_rng`: a handle to the thread-local random number generator.
#[verifier::external_body]
fn new_rng() -> ThreadRng {
    thread_rng()
}

/// `Rng::sample` with `Uniform::new(0, bound)`: a random index below `bound`.
/// `Uniform::new` panics unless `0 < bound`. Which index comes out depends on
/// the generator's state and is left unsaid.
#[verifier::external_body]
fn sample_below(rng: &mut ThreadRng, bound: usize) -> (res: usize)
    requires
        bound > 0,
    ensures
        res < bound,
{
    rng.sample(Uniform::new(0, bound))
}

/// Adds a drawn value to the distinct values of a dataset being generated, and
/// tells whether there are now `card` of them. A value already present is not
/// added again.
pub fn record_draw(universe: &mut HashSet<u64>, elem: u64, card: usize) -> (done: bool)
    requires
        old(universe)@.finite(),
        old(universe)@.len() < card,
    ensures
        final(universe)@ == old(universe)@.insert(elem),
        final(universe)@.finite(),
        final(universe)@.len() <= card,
        done == (final(universe)@.len() == card),
{
    broadcast use vstd::std_specs::hash::group_hash_axioms;

    universe.insert(elem);
    proof {
        if !old(universe)@.contains(elem) {
            vstd::set::axiom_set_insert_len(old(universe)@, elem);
        } else {
            assert(old(universe)@.insert(elem) =~= old(universe)@);
        }
    }
    universe.len() == card
}

/// The elements of `universe` at the given indices, in order.
pub fn pick_all(universe: &Vec<u64>, indices: &Vec<usize>) -> (res: Vec<u64>)
    requires
        forall|k: int| 0 <= k < indices@.len() ==> #[trigger] indices@[k] < universe@.len(),
    ensures
        res@.len() == indices@.len(),
        forall|k: int|
            0 <= k < indices@.len() ==> #[trigger] res@[k] == universe@[indices@[k] as int],
{
    let mut res: Vec<u64> = Vec::new();
    let mut k: usize = 0;
    while k < indices.len()
        invariant
            forall|j: int| 0 <= j < indices@.len() ==> #[trigger] indices@[j] < universe@.len(),
            k <= indices@.len(),
            res@.len() == k,
            forall|j: int| 0 <= j < k ==> #[trigger] res@[j] == universe@[indices@[j] as int],
        decreases indices@.len() - k,
    {
        let index = indices[k];
        res.push(universe[index]);
        k = k + 1;
    }
    res
}

/// `count` elements drawn at random, with repetition, from `universe`: the
/// repeated part of a generated dataset.
pub fn sample_duplicates(universe: &Vec<u64>, count: usize) -> (res: Vec<u64>)
    requires
        universe@.len() > 0,
    ensures
        res@.len() == count,
        forall|i: int| 0 <= i < count ==> universe@.contains(#[trigger] res@[i]),
{
    let mut rng = new_rng();
    let mut indices: Vec<usize> = Vec::new();
    let mut k: usize = 0;
    while k < count
        invariant
            universe@.len() > 0,
            k <= count,
            indices@.len() == k,
            forall|j: int| 0 <= j < k ==> #[trigger] indices@[j] < universe@.len(),
        decreases count - k,
    {
        let index = sample_below(&mut rng, universe.len());
        indices.push(index);
        k = k + 1;
    }
    let res = pick_all(universe, &indices);
    assert forall|i: int| 0 <= i < count implies universe@.contains(#[trigger] res@[i]) by {
        assert(universe@[indices@[i] as int] == res@[i]);
    }
    res
}

} // verus!
