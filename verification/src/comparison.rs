use vstd::prelude::*;

verus! {

/// The estimators that the comparison suite can run.
#[derive(Clone, Debug, PartialEq, Copy, Eq, Hash)]
pub enum Algorithm {
    Hll,
    Ghll,
    GhllReal,
    GhllPlus,
}

/// The Gumbel transforms that the comparison suite can use.
#[derive(Clone, Debug, PartialEq, Copy, Eq, Hash)]
pub enum Transform {
    Icdf,
    SimpleBithack,
    TaylorBithack,
}

/// The name under which a transform's results are saved.
pub open spec fn transform_name(t: Transform) -> Seq<char> {
    match t {
        Transform::Icdf => "ICDF"@,
        Transform::SimpleBithack => "SimpleBitHack"@,
        Transform::TaylorBithack => "TaylorBitHack"@,
    }
}

/// The name under which a transform's results are saved.
pub fn get_transform_name(t: Transform) -> (res: &'static str)
    ensures
        res@ == transform_name(t),
{
    match t {
        Transform::Icdf => "ICDF",
        Transform::SimpleBithack => "SimpleBitHack",
        Transform::TaylorBithack => "TaylorBitHack",
    }
}

/// `K` values starting at `begin` and growing by `step`.
pub fn array_from_range<const K: usize>(begin: usize, step: usize) -> (res: Vec<usize>)
    requires
        begin + K * step <= usize::MAX,
    ensures
        res@.len() == K,
        forall|i: int| 0 <= i < K ==> #[trigger] res@[i] == begin + i * step,
{
    let mut result: Vec<usize> = Vec::new();
    let mut curr = begin;
    let mut index: usize = 0;
    while index < K
        invariant
            index <= K,
            begin + K * step <= usize::MAX,
            curr == begin + index * step,
            result@.len() == index,
            forall|i: int| 0 <= i < index ==> #[trigger] result@[i] == begin + i * step,
        decreases K - index,
    {
        result.push(curr);
        proof {
            assert(begin + (index + 1) * step <= begin + K * step) by (nonlinear_arith)
                requires
                    index + 1 <= K,
                    step >= 0,
            ;
            assert(begin + (index + 1) * step == curr + step) by (nonlinear_arith)
                requires
                    curr == begin + index * step,
            ;
        }
        curr = curr + step;
        index = index + 1;
    }
    result
}

} // verus!
