use vstd::prelude::*;

verus! {

/// Width of one register in bits.
pub const SIZE: usize = 5;

/// Offset added to a register level so that it is stored as an unsigned number.
pub const BIAS: i32 = 16;

/// Smallest register level that can be stored.
pub const MIN_LEVEL: i32 = -16;

/// Largest register level that can be stored.
pub const MAX_LEVEL: i32 = 15;

/// Largest stored register value: all five bits set.
pub const MASK: u32 = 31;

/// Number of registers packed in one 32-bit word.
pub const COUNT_PER_WORD: usize = 6;

/// The register held at position `r` (0..6) of a packed word.
pub open spec fn field(word: u32, r: int) -> u32 {
    (word >> ((5 * r) as u32)) & 31u32
}

proof fn lemma_field_of_zero(r: u32)
    requires
        r < 6,
    ensures
        field(0, r as int) == 0,
{
    assert(((0u32 >> ((5 * r) as u32)) & 31u32) == 0) by (bit_vector);
}

/// Writing a value into one field of a word leaves the other fields as they were.
proof fn lemma_field_write(w: u32, v: u32, r: u32, q: u32)
    requires
        v <= 31,
        r < 6,
        q < 6,
    ensures
        field((w & !(31u32 << ((5 * r) as u32))) | (v << ((5 * r) as u32)), q as int)
            == if q == r { v } else { field(w, q as int) },
{
    assert((((w & !(31u32 << ((5 * r) as u32))) | (v << ((5 * r) as u32))) >> ((5 * q) as u32))
        & 31u32 == if q == r { v } else { (w >> ((5 * q) as u32)) & 31u32 }) by (bit_vector)
        requires
            v <= 31,
            r < 6,
            q < 6,
    ;
}

/// A field is at most 31.
proof fn lemma_field_bound(w: u32, r: u32)
    requires
        r < 6,
    ensures
        field(w, r as int) <= 31,
{
    assert((w >> ((5 * r) as u32)) & 31u32 <= 31) by (bit_vector);
}

/// Division rounding up.
pub open spec fn spec_ceil(num: int, denom: int) -> int {
    (num + denom - 1) / denom
}

/// Integer division of `num` by `denom`, rounding up.
pub fn ceil(num: usize, denom: usize) -> (res: usize)
    requires
        denom > 0,
        num + denom <= usize::MAX,
    ensures
        res == spec_ceil(num as int, denom as int),
        res * denom >= num,
        res == 0 || (res - 1) * denom < num,
{
    let res = (num + denom - 1) / denom;
    proof {
        let n = num as int;
        let d = denom as int;
        let q = res as int;
        assert(q * d >= n && (q == 0 || (q - 1) * d < n)) by (nonlinear_arith)
            requires
                d > 0,
                n >= 0,
                q == (n + d - 1) / d,
        {
            let r = (n + d - 1) % d;
            assert(n + d - 1 == q * d + r);
            assert(0 <= r < d);
        }
    }
    res
}

/// The stored value of a register level: the level clamped to
/// `MIN_LEVEL..=MAX_LEVEL`, shifted up by `BIAS`.
pub open spec fn spec_encode_level(level: int) -> int {
    if level < MIN_LEVEL {
        0
    } else if level > MAX_LEVEL {
        31
    } else {
        level + BIAS
    }
}

/// A level clamped to the range that a register can hold.
pub open spec fn clamp_level(level: int) -> int {
    if level < MIN_LEVEL {
        MIN_LEVEL as int
    } else if level > MAX_LEVEL {
        MAX_LEVEL as int
    } else {
        level
    }
}

/// Decoding a stored level gives back the level, clamped to the range a
/// register can hold; encoding a decoded register value gives back the value.
pub proof fn lemma_level_round_trip(level: int, reg: int)
    requires
        0 <= reg <= 31,
    ensures
        spec_encode_level(level) - BIAS == clamp_level(level),
        spec_encode_level(reg - BIAS) == reg,
{
}

/// Encoding keeps the order of levels, so the greater of two stored values
/// stands for the greater of their levels.
pub proof fn lemma_encode_monotone(a: int, b: int)
    requires
        a <= b,
    ensures
        spec_encode_level(a) <= spec_encode_level(b),
{
}

/// A fixed-capacity array of 5-bit registers, six to a 32-bit word.
#[derive(Debug)]
pub struct Registers {
    buf: Vec<u32>,
    count: usize,
}

impl View for Registers {
    type V = Seq<u32>;

    /// The register values, in order.
    closed spec fn view(&self) -> Seq<u32> {
        Seq::new(self.count as nat, |i: int| field(self.buf@[i / 6], i % 6))
    }
}

impl Clone for Registers {
    fn clone(&self) -> (res: Self)
        ensures
            res@ == self@,
            res.slots() == self.slots(),
    {
        proof {
            use_type_invariant(self);
        }
        let res = Registers { buf: self.buf.clone(), count: self.count };
        assert(res.buf@ == self.buf@);
        res
    }
}

impl Registers {
    #[verifier::type_invariant]
    spec fn well_formed(self) -> bool {
        self.buf@.len() == spec_ceil(self.count as int, 6)
    }

    /// Number of register positions the packed words hold; at least as many
    /// as there are registers, the last word may hold spare positions.
    pub closed spec fn slots(&self) -> nat {
        (self.buf@.len() * 6) as nat
    }

    /// The register at position `index`, which may be a spare position.
    pub closed spec fn slot(&self, index: int) -> u32 {
        field(self.buf@[index / 6], index % 6)
    }

    /// Stored value of a register level: the level clamped to
    /// `MIN_LEVEL..=MAX_LEVEL`, plus `BIAS`.
    pub fn encode_level(level: i32) -> (res: u32)
        ensures
            res == spec_encode_level(level as int),
            res <= MASK,
    {
        if level < MIN_LEVEL {
            0
        } else if level > MAX_LEVEL {
            31
        } else {
            (level + BIAS) as u32
        }
    }

    /// The level a stored register value stands for.
    pub fn decode_level(reg_bits: u32) -> (res: i32)
        requires
            (reg_bits as i32) - BIAS >= i32::MIN,
        ensures
            res == (reg_bits as i32) - BIAS,
    {
        reg_bits as i32 - BIAS
    }

    /// Creates `count` registers, all holding 0.
    pub fn new(count: usize) -> (res: Self)
        requires
            count + COUNT_PER_WORD <= usize::MAX,
        ensures
            res@ == Seq::new(count as nat, |i: int| 0u32),
            res.slots() == 6 * spec_ceil(count as int, 6),
            res.slots() >= count,
    {
        let words = ceil(count, COUNT_PER_WORD);
        let mut buf: Vec<u32> = Vec::new();
        while buf.len() < words
            invariant
                buf@.len() <= words,
                forall|j: int| 0 <= j < buf@.len() ==> buf@[j] == 0,
            decreases words - buf.len(),
        {
            buf.push(0);
        }
        let res = Registers { buf, count };
        assert forall|i: int| 0 <= i < count implies #[trigger] field(res.buf@[i / 6], i % 6) == 0 by {
            lemma_field_of_zero((i % 6) as u32);
        }
        assert(res@ =~= Seq::new(count as nat, |i: int| 0u32));
        res
    }
}

impl Registers {
    /// Writes `value`, which fits in five bits, at position `index`.
    fn write_slot(&mut self, index: usize, value: u32)
        requires
            index < old(self).slots(),
            value <= MASK,
        ensures
            final(self).slots() == old(self).slots(),
            final(self)@.len() == old(self)@.len(),
            forall|j: int|
                0 <= j < old(self).slots() ==> #[trigger] final(self).slot(j) == if j == index {
                    value
                } else {
                    old(self).slot(j)
                },
        no_unwind
    {
        proof {
            use_type_invariant(&*self);
        }
        let quot = index / COUNT_PER_WORD;
        let rem = index % COUNT_PER_WORD;
        let shift = (rem * SIZE) as u32;
        let mask = MASK << shift;
        let word = self.buf[quot];
        let new_word = (word & !mask) | (value << shift);
        self.buf[quot] = new_word;
        proof {
            assert forall|j: int| 0 <= j < old(self).slots() implies #[trigger] self.slot(j) == if j
                == index {
                value
            } else {
                old(self).slot(j)
            } by {
                if j / 6 == quot as int {
                    lemma_field_write(word, value, rem as u32, (j % 6) as u32);
                }
            }
        }
    }

    /// Sets register `index` to `value`, capped at 31. A spare position past the
    /// last register may be written too; the registers are then unchanged.
    pub fn set(&mut self, index: usize, value: u32)
        requires
            index < old(self).slots(),
        ensures
            final(self).slots() == old(self).slots(),
            final(self)@ == if index < old(self)@.len() {
                old(self)@.update(index as int, vstd::math::min(value as int, 31) as u32)
            } else {
                old(self)@
            },
    {
        proof {
            use_type_invariant(&*self);
        }
        let value = if value < MASK { value } else { MASK };
        self.write_slot(index, value);
        assert forall|j: int| 0 <= j < self@.len() implies #[trigger] self@[j] == self.slot(j)
            && old(self)@[j] == old(self).slot(j) by {}
        assert(self@ =~= if index < old(self)@.len() {
            old(self)@.update(index as int, value)
        } else {
            old(self)@
        });
    }

    /// Raises register `index` to `value`, capped at 31, if that is greater
    /// than what it holds; otherwise leaves it as it is.
    pub fn set_greater(&mut self, index: usize, value: u32)
        requires
            index < old(self).slots(),
        ensures
            final(self).slots() == old(self).slots(),
            final(self)@ == if index < old(self)@.len() {
                old(self)@.update(
                    index as int,
                    vstd::math::max(
                        old(self)@[index as int] as int,
                        vstd::math::min(value as int, 31),
                    ) as u32,
                )
            } else {
                old(self)@
            },
            forall|j: int| 0 <= j < old(self)@.len() ==> old(self)@[j] <= #[trigger] final(self)@[j],
    {
        proof {
            use_type_invariant(&*self);
        }
        let value = if value < MASK { value } else { MASK };
        let quot = index / COUNT_PER_WORD;
        let rem = index % COUNT_PER_WORD;
        let shift = (rem * SIZE) as u32;
        let curr = (self.buf[quot] >> shift) & MASK;
        assert(curr == self.slot(index as int));
        if value > curr {
            self.write_slot(index, value);
        }
        assert forall|j: int| 0 <= j < self@.len() implies #[trigger] self@[j] == self.slot(j)
            && old(self)@[j] == old(self).slot(j) by {}
        proof {
            lemma_field_bound(old(self).buf@[quot as int], rem as u32);
        }
        assert(self@ =~= if index < old(self)@.len() {
            old(self)@.update(
                index as int,
                vstd::math::max(old(self)@[index as int] as int, value as int) as u32,
            )
        } else {
            old(self)@
        });
    }

    /// The packed words have a position for every register, so every register
    /// index may be passed to `set` and `set_greater`.
    pub fn slots_cover(&self)
        ensures
            self.slots() >= self@.len(),
    {
        proof {
            use_type_invariant(self);
            let n = self.count as int;
            assert(6 * ((n + 5) / 6) >= n) by (nonlinear_arith)
                requires
                    n >= 0,
            ;
        }
    }

    /// Every register value fits in five bits.
    pub proof fn lemma_values_fit(&self)
        ensures
            forall|i: int| 0 <= i < self@.len() ==> #[trigger] self@[i] <= MASK,
    {
        assert forall|i: int| 0 <= i < self@.len() implies #[trigger] self@[i] <= MASK by {
            lemma_field_bound(self.buf@[i / 6], (i % 6) as u32);
        }
    }

    /// The register values, in order.
    pub fn iter(&self) -> (res: Vec<u32>)
        ensures
            res@ == self@,
    {
        proof {
            use_type_invariant(self);
        }
        let mut res: Vec<u32> = Vec::new();
        let mut w: usize = 0;
        while w < self.buf.len() && res.len() < self.count
            invariant
                w <= self.buf@.len(),
                self.buf@.len() == spec_ceil(self.count as int, 6),
                res@.len() == if 6 * w < self.count { 6 * w } else { self.count as int },
                forall|i: int| 0 <= i < res@.len() ==> #[trigger] res@[i] == self@[i],
            decreases self.buf@.len() - w,
        {
            let val = self.buf[w];
            let mut r: usize = 0;
            while r < COUNT_PER_WORD && res.len() < self.count
                invariant
                    w < self.buf@.len(),
                    val == self.buf@[w as int],
                    r <= 6,
                    res@.len() == if 6 * w + r < self.count { 6 * w + r } else { self.count as int },
                    forall|i: int| 0 <= i < res@.len() ==> #[trigger] res@[i] == self@[i],
                decreases 6 - r,
            {
                res.push((val >> ((r * SIZE) as u32)) & MASK);
                assert(res@[res@.len() - 1] == self@[6 * w + r]);
                r = r + 1;
            }
            w = w + 1;
        }
        assert(res@ =~= self@);
        res
    }
}

} // verus!
