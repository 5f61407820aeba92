use vstd::prelude::*;

verus! {

/// The standard inverse-CDF (quantile function) Gumbel transform,
/// `-ln(-ln(q))`.
#[derive(Debug, Clone, Copy, Default, PartialEq, Eq, Hash, PartialOrd, Ord)]
pub struct ICDFGumbel;

impl ICDFGumbel {
    pub fn new() -> (res: Self)
        ensures
            res == ICDFGumbel,
    {
        ICDFGumbel
    }
}

/// The Gumbel transform that replaces both logarithms by a linear bit-hack
/// approximation.
#[derive(Debug, Clone, Copy, Default, PartialEq, Eq, Hash, PartialOrd, Ord)]
pub struct SimpleBitHackGumbel;

impl SimpleBitHackGumbel {
    pub fn new() -> (res: Self)
        ensures
            res == SimpleBitHackGumbel,
    {
        SimpleBitHackGumbel
    }
}

/// The bit-hack Gumbel transform with a Taylor correction near `q = 1`.
#[derive(Debug, Clone, Copy, Default, PartialEq, Eq, Hash, PartialOrd, Ord)]
pub struct TaylorBitHackGumbel;

impl TaylorBitHackGumbel {
    pub fn new() -> (res: Self)
        ensures
            res == TaylorBitHackGumbel,
    {
        TaylorBitHackGumbel
    }
}

} // verus!
