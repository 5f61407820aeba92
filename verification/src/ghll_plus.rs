use vstd::prelude::*;
use vstd::arithmetic::power2::pow2;

use crate::common::{hash_index, hash_rest, hash_value, register_count, valid_precision, GumbelError};
use crate::flags::{count_true, flag_bits, flags_count_ones, flags_get, flags_repeat, flags_set, Flags};
use crate::registers::Registers;

verus! {

/// A register value after it has seen the stored code `code`: the greater of
/// the two, with `code` capped at 31.
pub open spec fn raised(old: u32, code: u32) -> u32 {
    vstd::math::max(old as int, vstd::math::min(code as int, 31)) as u32
}

/// The registers after register `index` has seen `code`.
pub open spec fn observe(regs: Seq<u32>, index: int, code: u32) -> Seq<u32> {
    regs.update(index, raised(regs[index], code))
}

/// `reg` is, capped at 31, a code that `init` may return for register `i`.
pub open spec fn initial_code<B, G, F: Fn(&B, &G, usize) -> u32>(
    init: F,
    builder: B,
    transform: G,
    i: usize,
    reg: u32,
) -> bool {
    exists|c: u32|
        #[trigger] call_ensures(init, (&builder, &transform, i), c) && reg == vstd::math::min(
            c as int,
            31,
        )
}

/// Each register holds, capped at 31, a code that `init` may return for its
/// index.
pub open spec fn initialized_by<B, G, F: Fn(&B, &G, usize) -> u32>(
    regs: Seq<u32>,
    init: F,
    builder: B,
    transform: G,
) -> bool {
    forall|i: int|
        0 <= i < regs.len() ==> #[trigger] initial_code(init, builder, transform, i as usize, regs[i])
}

/// `after` is `before` once register `index` has seen a code that `code` may
/// return for `index` and the remaining bits `rest`.
pub open spec fn observed_by<B, G, F: Fn(&B, &G, usize, u32) -> u32>(
    code: F,
    builder: B,
    transform: G,
    index: usize,
    rest: u32,
    before: Seq<u32>,
    after: Seq<u32>,
) -> bool {
    exists|c: u32|
        #[trigger] call_ensures(code, (&builder, &transform, index, rest), c) && after == observe(
            before,
            index as int,
            c,
        )
}

/// The occupied registers among the first `n`, as (index, value) pairs in
/// increasing order of index.
pub open spec fn occupied(regs: Seq<u32>, free: Seq<bool>, n: nat) -> Seq<(usize, u32)>
    decreases n,
{
    if n == 0 {
        Seq::empty()
    } else {
        let rest = occupied(regs, free, (n - 1) as nat);
        if free[n - 1] {
            rest
        } else {
            rest.push(((n - 1) as usize, regs[n - 1]))
        }
    }
}

/// A cardinality estimator with 5-bit Gumbel registers, one per substream,
/// that also tracks which registers no element has reached yet.
///
/// `builder` hashes elements and register indices and `transform` turns bits
/// into Gumbel variates; both are used by the caller through the functions it
/// hands to `with_precision` and `add`.
#[derive(Debug)]
pub struct GHLLPlus<B, G> {
    builder: B,
    transform: G,
    precision: u8,
    no_registers: usize,
    registers: Registers,
    free: Flags,
}

/// Seeing a code changes one register only: register `i` becomes the greater
/// of its value and the code capped at 31, and every other register keeps its
/// value.
pub proof fn lemma_observe_changes_one(regs: Seq<u32>, i: int, c: u32)
    requires
        0 <= i < regs.len(),
    ensures
        observe(regs, i, c).len() == regs.len(),
        observe(regs, i, c)[i] == vstd::math::max(regs[i] as int, vstd::math::min(c as int, 31)),
        forall|k: int| 0 <= k < regs.len() && k != i ==> #[trigger] observe(regs, i, c)[k] == regs[k],
{
}

/// With an initialiser that returns a fixed code `f(i)` for index `i`, each
/// register `i` starts at `f(i)` capped at 31: the code of its own index.
pub proof fn lemma_initialized_by_own_index<B, G, F: Fn(&B, &G, usize) -> u32>(
    regs: Seq<u32>,
    init: F,
    builder: B,
    transform: G,
    f: spec_fn(usize) -> u32,
)
    requires
        initialized_by(regs, init, builder, transform),
        forall|j: usize, c: u32|
            #[trigger] call_ensures(init, (&builder, &transform, j), c) ==> c == f(j),
    ensures
        forall|i: int| 0 <= i < regs.len() ==> #[trigger] regs[i] == vstd::math::min(f(i as usize) as int, 31),
{
    assert forall|i: int| 0 <= i < regs.len() implies #[trigger] regs[i] == vstd::math::min(
        f(i as usize) as int,
        31,
    ) by {
        assert(initial_code(init, builder, transform, i as usize, regs[i]));
        let c = choose|c: u32|
            #[trigger] call_ensures(init, (&builder, &transform, i as usize), c) && regs[i]
                == vstd::math::min(c as int, 31);
        assert(call_ensures(init, (&builder, &transform, i as usize), c));
    }
}

/// With a code function that returns a fixed code `f(i, rest)`, observing
/// raises register `index` to `f(index, rest)` capped at 31, if that is
/// greater, and leaves every other register as it was.
pub proof fn lemma_observed_by_fixed_code<B, G, F: Fn(&B, &G, usize, u32) -> u32>(
    code: F,
    builder: B,
    transform: G,
    index: usize,
    rest: u32,
    before: Seq<u32>,
    after: Seq<u32>,
    f: spec_fn(usize, u32) -> u32,
)
    requires
        index < before.len(),
        observed_by(code, builder, transform, index, rest, before, after),
        forall|j: usize, r: u32, c: u32|
            #[trigger] call_ensures(code, (&builder, &transform, j, r), c) ==> c == f(j, r),
    ensures
        after.len() == before.len(),
        after[index as int] == vstd::math::max(
            before[index as int] as int,
            vstd::math::min(f(index, rest) as int, 31),
        ),
        forall|k: int| 0 <= k < before.len() && k != index ==> #[trigger] after[k] == before[k],
{
    let c = choose|c: u32|
        #[trigger] call_ensures(code, (&builder, &transform, index, rest), c) && after == observe(
            before,
            index as int,
            c,
        );
    assert(call_ensures(code, (&builder, &transform, index, rest), c));
    lemma_observe_changes_one(before, index as int, c);
}

/// What `occupied` lists: (index, value) pairs of the registers below `n` that
/// are not free, each with the value that register holds, in strictly
/// increasing order of index, and every such register is listed.
pub proof fn lemma_occupied_members(regs: Seq<u32>, free: Seq<bool>, n: nat)
    requires
        n <= regs.len(),
        n <= free.len(),
        n <= usize::MAX,
    ensures
        forall|k: int|
            0 <= k < occupied(regs, free, n).len() ==> {
                let (i, v) = #[trigger] occupied(regs, free, n)[k];
                &&& i < n
                &&& !free[i as int]
                &&& v == regs[i as int]
            },
        forall|k1: int, k2: int|
            0 <= k1 < k2 < occupied(regs, free, n).len() ==> (#[trigger] occupied(regs, free, n)[k1]).0
                < (#[trigger] occupied(regs, free, n)[k2]).0,
        forall|i: int|
            0 <= i < n && !free[i] ==> exists|k: int|
                0 <= k < occupied(regs, free, n).len() && #[trigger] occupied(regs, free, n)[k] == (
                i as usize,
                regs[i],
            ),
    decreases n,
{
    if n > 0 {
        lemma_occupied_members(regs, free, (n - 1) as nat);
        let prev = occupied(regs, free, (n - 1) as nat);
        let cur = occupied(regs, free, n);
        if free[n - 1] {
            assert(cur == prev);
        } else {
            assert(cur == prev.push(((n - 1) as usize, regs[n - 1])));
            assert forall|i: int| 0 <= i < n && !free[i] implies exists|k: int|
                0 <= k < cur.len() && #[trigger] cur[k] == (i as usize, regs[i]) by {
                if i == n - 1 {
                    assert(cur[prev.len() as int] == (i as usize, regs[i]));
                } else {
                    let k = choose|k: int| 0 <= k < prev.len() && #[trigger] prev[k] == (i as usize, regs[i]);
                    assert(cur[k] == prev[k]);
                }
            }
        }
    }
}

/// The order in which two registers see their codes does not matter.
pub proof fn lemma_observe_commutes(regs: Seq<u32>, i: int, a: u32, j: int, b: u32)
    requires
        0 <= i < regs.len(),
        0 <= j < regs.len(),
    ensures
        observe(observe(regs, i, a), j, b) == observe(observe(regs, j, b), i, a),
{
    assert(observe(observe(regs, i, a), j, b) =~= observe(observe(regs, j, b), i, a));
}

/// A register that sees the same code twice is as if it had seen it once, so
/// an element that occurs again leaves the registers as they are.
pub proof fn lemma_observe_idempotent(regs: Seq<u32>, i: int, a: u32)
    requires
        0 <= i < regs.len(),
    ensures
        observe(observe(regs, i, a), i, a) == observe(regs, i, a),
{
    assert(observe(observe(regs, i, a), i, a) =~= observe(regs, i, a));
}

/// Seeing a code never lowers a register.
pub proof fn lemma_observe_monotone(regs: Seq<u32>, i: int, a: u32)
    requires
        0 <= i < regs.len(),
    ensures
        observe(regs, i, a).len() == regs.len(),
        forall|k: int| 0 <= k < regs.len() ==> regs[k] <= #[trigger] observe(regs, i, a)[k],
{
}

/// Marking a register taken lowers the number of free registers by one if it
/// was free, and leaves it as it is otherwise.
pub proof fn lemma_take_count(free: Seq<bool>, i: int)
    requires
        0 <= i < free.len(),
    ensures
        count_true(free.update(i, false)) == count_true(free) - if free[i] {
            1int
        } else {
            0int
        },
    decreases free.len(),
{
    let u = free.update(i, false);
    if i == free.len() - 1 {
        assert(u.drop_last() =~= free.drop_last());
    } else {
        lemma_take_count(free.drop_last(), i);
        assert(u.drop_last() =~= free.drop_last().update(i, false));
    }
}

/// Every register is either free or occupied.
pub proof fn lemma_occupied_count(regs: Seq<u32>, free: Seq<bool>, n: nat)
    requires
        n <= free.len(),
    ensures
        occupied(regs, free, n).len() + count_true(free.subrange(0, n as int)) == n,
        n == free.len() ==> occupied(regs, free, n).len() + count_true(free) == n,
    decreases n,
{
    assert(free.subrange(0, free.len() as int) =~= free);
    if n > 0 {
        lemma_occupied_count(regs, free, (n - 1) as nat);
        assert(free.subrange(0, n as int).drop_last() =~= free.subrange(0, n - 1));
    }
}

impl<B: Clone, G: Clone> Clone for GHLLPlus<B, G> {
    /// A copy with the same precision, registers and free flags, and clones
    /// of the builder and the transform.
    fn clone(&self) -> (res: Self)
        ensures
            self.wf() ==> res.wf(),
            res.spec_precision() == self.spec_precision(),
            res.spec_registers() == self.spec_registers(),
            res.spec_free() == self.spec_free(),
            vstd::pervasive::cloned(self.spec_builder(), res.spec_builder()),
            vstd::pervasive::cloned(self.spec_transform(), res.spec_transform()),
    {
        GHLLPlus {
            builder: self.builder.clone(),
            transform: self.transform.clone(),
            precision: self.precision,
            no_registers: self.no_registers,
            registers: self.registers.clone(),
            free: self.free.clone(),
        }
    }
}

impl<B, G> GHLLPlus<B, G> {
    /// The estimator's invariant: an accepted precision, and one register and
    /// one flag for each of the `2^precision` substreams.
    pub closed spec fn wf(&self) -> bool {
        &&& valid_precision(self.precision as int)
        &&& self.no_registers == pow2(self.precision as nat)
        &&& self.registers@.len() == self.no_registers
        &&& self.registers.slots() >= self.no_registers
        &&& flag_bits(self.free).len() == self.no_registers
    }

    /// A well-formed estimator has an accepted precision, `2^precision`
    /// registers and one free flag per register.
    pub proof fn lemma_wf(&self)
        requires
            self.wf(),
        ensures
            valid_precision(self.spec_precision() as int),
            self.spec_registers().len() == pow2(self.spec_precision() as nat),
            self.spec_free().len() == self.spec_registers().len(),
    {
    }

    /// The precision: there are `2^precision` registers.
    pub closed spec fn spec_precision(&self) -> u8 {
        self.precision
    }

    /// The register values.
    pub closed spec fn spec_registers(&self) -> Seq<u32> {
        self.registers@
    }

    /// For each register, whether no element has reached it yet.
    pub closed spec fn spec_free(&self) -> Seq<bool> {
        flag_bits(self.free)
    }

    /// The hash builder.
    pub closed spec fn spec_builder(&self) -> B {
        self.builder
    }

    /// The Gumbel transform.
    pub closed spec fn spec_transform(&self) -> G {
        self.transform
    }

    /// Creates an estimator with `2^precision` registers, all of them free,
    /// for a precision in `MIN_PRECISION..=MAX_PRECISION`. Register `i` starts
    /// at the code that `init(&builder, &transform, i)` returns, capped at 31.
    pub fn with_precision<F: Fn(&B, &G, usize) -> u32>(
        precision: u8,
        builder: B,
        transform: G,
        init: F,
    ) -> (res: Result<Self, GumbelError>)
        requires
            forall|b: &B, t: &G, i: usize| #[trigger] init.requires((b, t, i)),
        ensures
            res is Err <==> !valid_precision(precision as int),
            res is Ok <==> 4 <= precision <= 16,
            res matches Err(e) ==> e == GumbelError::InvalidPrecision,
            res matches Ok(est) ==> {
                &&& est.wf()
                &&& est.spec_precision() == precision
                &&& est.spec_builder() == builder
                &&& est.spec_transform() == transform
                &&& est.spec_registers().len() == pow2(precision as nat)
                &&& est.spec_free() == Seq::new(pow2(precision as nat), |i: int| true)
                &&& initialized_by(est.spec_registers(), init, builder, transform)
            },
    {
        let no_registers = match register_count(precision) {
            Ok(n) => n,
            Err(e) => return Err(e),
        };
        let mut registers = Registers::new(no_registers);
        let ghost mut codes: Seq<u32> = Seq::empty();
        let mut i: usize = 0;
        while i < no_registers
            invariant
                no_registers == pow2(precision as nat),
                no_registers <= 0x1_0000,
                i <= no_registers,
                registers@.len() == no_registers,
                registers.slots() >= no_registers,
                forall|b: &B, t: &G, j: usize| #[trigger] init.requires((b, t, j)),
                codes.len() == i,
                forall|j: int|
                    0 <= j < i ==> #[trigger] init.ensures((&builder, &transform, j as usize), codes[j])
                        && registers@[j] == vstd::math::min(codes[j] as int, 31),
            decreases no_registers - i,
        {
            let code = init(&builder, &transform, i);
            registers.set(i, code);
            proof {
                codes = codes.push(code);
            }
            i = i + 1;
        }
        let free = flags_repeat(true, no_registers);
        let est = GHLLPlus { builder, transform, precision, no_registers, registers, free };
        assert(est.spec_free() =~= Seq::new(pow2(precision as nat), |i: int| true));
        assert forall|i: int| 0 <= i < est.spec_registers().len() implies #[trigger] initial_code(
            init,
            builder,
            transform,
            i as usize,
            est.spec_registers()[i],
        ) by {
            assert(init.ensures((&builder, &transform, i as usize), codes[i]));
        }
        assert(initialized_by(est.spec_registers(), init, builder, transform));
        Ok(est)
    }

    /// Observes a stream element whose hash is `hash`. The top `precision`
    /// bits of the low 32 bits of the hash select a register, which stops
    /// being free; `code(&builder, &transform, index, rest)` gives the stored
    /// code of the element's Gumbel variate from the remaining bits, and the
    /// register is raised to it if that is greater.
    pub fn add<F: Fn(&B, &G, usize, u32) -> u32>(&mut self, hash: u64, code: F)
        requires
            old(self).wf(),
            forall|b: &B, t: &G, i: usize, r: u32| #[trigger] code.requires((b, t, i, r)),
        ensures
            final(self).wf(),
            final(self).spec_precision() == old(self).spec_precision(),
            final(self).spec_builder() == old(self).spec_builder(),
            final(self).spec_transform() == old(self).spec_transform(),
            final(self).spec_free() == old(self).spec_free().update(
                hash_index(hash, old(self).spec_precision() as nat),
                false,
            ),
            observed_by(
                code,
                old(self).spec_builder(),
                old(self).spec_transform(),
                hash_index(hash, old(self).spec_precision() as nat) as usize,
                hash_rest(hash, old(self).spec_precision() as nat) as u32,
                old(self).spec_registers(),
                final(self).spec_registers(),
            ),
            count_true(final(self).spec_free()) == count_true(old(self).spec_free()) - if old(
                self,
            ).spec_free()[hash_index(hash, old(self).spec_precision() as nat)] {
                1int
            } else {
                0int
            },
            forall|k: int|
                0 <= k < old(self).spec_registers().len() ==> old(self).spec_registers()[k]
                    <= #[trigger] final(self).spec_registers()[k],
            final(self).spec_registers().len() == old(self).spec_registers().len(),
            forall|k: int|
                0 <= k < old(self).spec_registers().len() && k != hash_index(
                    hash,
                    old(self).spec_precision() as nat,
                ) ==> #[trigger] final(self).spec_registers()[k] == old(self).spec_registers()[k],
    {
        let (index, rest) = hash_value(hash, self.precision);
        flags_set(&mut self.free, index, false);
        let c = code(&self.builder, &self.transform, index, rest);
        self.registers.set_greater(index, c);
        assert(call_ensures(code, (&self.builder, &self.transform, index, rest), c));
        proof {
            lemma_take_count(flag_bits(old(self).free), index as int);
            lemma_observe_changes_one(old(self).registers@, index as int, c);
        }
    }

    /// The number of free registers, those that no element has reached.
    pub fn free_count(&self) -> (res: usize)
        ensures
            res == count_true(self.spec_free()),
    {
        flags_count_ones(&self.free)
    }

    /// The occupied registers, as (index, value) pairs in increasing order of
    /// index.
    pub fn occupied_registers(&self) -> (res: Vec<(usize, u32)>)
        requires
            self.wf(),
        ensures
            res@ == occupied(
                self.spec_registers(),
                self.spec_free(),
                self.spec_registers().len(),
            ),
            forall|k: int|
                0 <= k < res@.len() ==> {
                    let (i, v) = #[trigger] res@[k];
                    &&& i < self.spec_registers().len()
                    &&& !self.spec_free()[i as int]
                    &&& v == self.spec_registers()[i as int]
                },
            forall|k1: int, k2: int|
                0 <= k1 < k2 < res@.len() ==> (#[trigger] res@[k1]).0 < (#[trigger] res@[k2]).0,
            forall|i: int|
                0 <= i < self.spec_registers().len() && !self.spec_free()[i] ==> exists|k: int|
                    0 <= k < res@.len() && #[trigger] res@[k] == (i as usize, self.spec_registers()[i]),
    {
        let values = self.registers.iter();
        let mut res: Vec<(usize, u32)> = Vec::new();
        let mut i: usize = 0;
        while i < self.no_registers
            invariant
                self.wf(),
                values@ == self.registers@,
                i <= self.no_registers,
                res@ == occupied(self.registers@, flag_bits(self.free), i as nat),
            decreases self.no_registers - i,
        {
            let is_free = flags_get(&self.free, i);
            if !is_free {
                res.push((i, values[i]));
            }
            i = i + 1;
        }
        proof {
            lemma_occupied_members(self.registers@, flag_bits(self.free), self.no_registers as nat);
        }
        res
    }

    /// The precision: there are `2^precision` registers.
    pub fn precision(&self) -> (res: u8)
        ensures
            res == self.spec_precision(),
    {
        self.precision
    }

    /// The number of registers, `2^precision`.
    pub fn no_registers(&self) -> (res: usize)
        requires
            self.wf(),
        ensures
            res == self.spec_registers().len(),
            res == pow2(self.spec_precision() as nat),
    {
        self.no_registers
    }

    /// The registers.
    pub fn registers(&self) -> (res: &Registers)
        ensures
            res@ == self.spec_registers(),
    {
        &self.registers
    }

    /// The hash builder.
    pub fn builder(&self) -> (res: &B)
        ensures
            *res == self.spec_builder(),
    {
        &self.builder
    }

    /// The Gumbel transform.
    pub fn transform(&self) -> (res: &G)
        ensures
            *res == self.spec_transform(),
    {
        &self.transform
    }
}

} // verus!
