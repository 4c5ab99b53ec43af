//! Bit storage for the tokenizer's nesting stack, and depth counters.
//!
//! A bit bucket is a fixed-capacity stack of bits: `push` shifts every bit one
//! place towards the bottom (the bottom-most bit falls off), `pop` shifts them
//! back (a `false` enters at the bottom). Index 0 of the model is the top.

use vstd::prelude::*;

verus! {

/// The bits of a bucket after pushing `bit` onto a bucket holding `s`.
pub open spec fn push_bits(s: Seq<bool>, bit: bool) -> Seq<bool> {
    if s.len() == 0 {
        s
    } else {
        seq![bit] + s.take(s.len() - 1)
    }
}

/// The bits of a bucket holding `s` after one pop.
pub open spec fn pop_bits(s: Seq<bool>) -> Seq<bool> {
    if s.len() == 0 {
        s
    } else {
        s.skip(1).push(false)
    }
}

/// The top bit of a bucket holding `s` (`false` for a bucket of no capacity).
pub open spec fn top_bit(s: Seq<bool>) -> bool {
    s.len() > 0 && s[0]
}

/// An all-clear bit sequence of the given length.
pub open spec fn clear_bits(n: nat) -> Seq<bool> {
    Seq::new(n, |i: int| false)
}

/// A machine word used as one element of a bit bucket.
pub trait BitWord: Sized + Copy {
    /// Number of bits in the word.
    spec fn width() -> nat;

    /// The bits of the word, least significant first.
    spec fn word_bits(&self) -> Seq<bool>;

    proof fn lemma_word_bits_len(w: Self)
        ensures
            w.word_bits().len() == Self::width(),
            Self::width() > 0,
    ;

    /// The word with every bit clear.
    fn zero_word() -> (r: Self)
        ensures
            r.word_bits() == clear_bits(Self::width()),
    ;

    /// Shifts the word one place up, entering `bit` at the least significant
    /// end; returns the new word and the bit that left at the top.
    fn shift_up(self, bit: bool) -> (r: (Self, bool))
        ensures
            r.0.word_bits() == seq![bit] + self.word_bits().take(Self::width() - 1),
            r.1 == self.word_bits()[Self::width() - 1],
    ;

    /// Shifts the word one place down, entering `bit` at the most significant
    /// end; returns the new word and the bit that left at the bottom.
    fn shift_down(self, bit: bool) -> (r: (Self, bool))
        ensures
            r.0.word_bits() == self.word_bits().skip(1).push(bit),
            r.1 == self.word_bits()[0],
    ;

    /// The least significant bit.
    fn low_bit(self) -> (r: bool)
        ensures
            r == self.word_bits()[0],
    ;
}

/// Trait for bit buckets - provides bit storage for JSON parser state.
/// This trait is implemented for both integer and [T; N] types.
///
/// NOTE: BitBucket implementations do NOT implement depth tracking.
/// This is the responsibility of the caller.
pub trait BitBucket: Sized {
    /// The bits held, top of the stack first.
    spec fn bits(&self) -> Seq<bool>;

    /// Number of bits the bucket holds.
    spec fn capacity() -> nat;

    proof fn lemma_bits_len(b: &Self)
        ensures
            b.bits().len() == Self::capacity(),
    ;

    /// A bucket with every bit clear.
    fn default() -> (r: Self)
        ensures
            r.bits() == clear_bits(Self::capacity()),
    ;

    /// Pushes a bit (true for 1, false for 0) onto the stack.
    fn push(&mut self, bit: bool)
        ensures
            final(self).bits() == push_bits(old(self).bits(), bit),
    ;

    /// Pops the top bit off the stack.
    fn pop(&mut self) -> (r: bool)
        ensures
            r == top_bit(old(self).bits()),
            final(self).bits() == pop_bits(old(self).bits()),
    ;

    /// Returns the top bit without removing it.
    fn top(&self) -> (r: bool)
        ensures
            r == top_bit(self.bits()),
    ;
}

/// Popping right after a push gives back the pushed bit; and when the
/// bottom-most bit of the bucket was clear (its capacity was not exceeded),
/// the bucket is back to what it was.
pub proof fn lemma_push_pop(s: Seq<bool>, bit: bool)
    requires
        s.len() > 0,
    ensures
        top_bit(push_bits(s, bit)) == bit,
        !s[s.len() - 1] ==> pop_bits(push_bits(s, bit)) == s,
{
    let p = push_bits(s, bit);
    assert(p[0] == bit);
    if !s[s.len() - 1] {
        assert(pop_bits(p) =~= s);
    }
}

/// The bits of a bucket holding `s` after pushing `bits`, in order.
pub open spec fn push_all(s: Seq<bool>, bits: Seq<bool>) -> Seq<bool>
    decreases bits.len(),
{
    if bits.len() == 0 {
        s
    } else {
        push_bits(push_all(s, bits.drop_last()), bits.last())
    }
}

/// The bits of a bucket holding `s` after `n` pops.
pub open spec fn pop_n(s: Seq<bool>, n: nat) -> Seq<bool>
    decreases n,
{
    if n == 0 {
        s
    } else {
        pop_n(pop_bits(s), (n - 1) as nat)
    }
}

proof fn lemma_push_all_shape(s: Seq<bool>, bits: Seq<bool>)
    requires
        bits.len() <= s.len(),
    ensures
        push_all(s, bits) =~= Seq::new(
            s.len(),
            |i: int|
                if i < bits.len() {
                    bits[bits.len() - 1 - i]
                } else {
                    s[i - bits.len()]
                },
        ),
    decreases bits.len(),
{
    if bits.len() > 0 {
        lemma_push_all_shape(s, bits.drop_last());
    }
}

proof fn lemma_pop_n_shape(t: Seq<bool>, n: nat)
    requires
        n <= t.len(),
    ensures
        pop_n(t, n) =~= Seq::new(
            t.len(),
            |i: int|
                if i < t.len() - n {
                    t[i + n]
                } else {
                    false
                },
        ),
    decreases n,
{
    if n > 0 {
        lemma_pop_n_shape(pop_bits(t), (n - 1) as nat);
    }
}

/// Pushing `k` bits onto a bucket whose bottom `k` bits are clear (its
/// capacity is not exceeded) and then popping `k` times gives the bits back,
/// the last pushed first, and leaves the bucket as it was.
pub proof fn law_push_pop_many(s: Seq<bool>, bits: Seq<bool>)
    requires
        bits.len() <= s.len(),
        forall|i: int| s.len() - bits.len() <= i < s.len() ==> !s[i],
    ensures
        forall|j: int|
            0 <= j < bits.len() ==> #[trigger] top_bit(pop_n(push_all(s, bits), j as nat)) == bits[bits.len() - 1
                - j],
        pop_n(push_all(s, bits), bits.len()) == s,
{
    let k = bits.len();
    let p = push_all(s, bits);
    lemma_push_all_shape(s, bits);
    assert forall|j: int| 0 <= j < k implies #[trigger] top_bit(pop_n(p, j as nat)) == bits[k - 1 - j] by {
        lemma_pop_n_shape(p, j as nat);
    }
    lemma_pop_n_shape(p, k);
    assert(pop_n(p, k) =~= s);
}

/// The bits of a `u8`, least significant first.
pub open spec fn u8_bits(x: u8) -> Seq<bool> {
    Seq::new(8, |i: int| (x >> (i as u8)) & 1u8 == 1u8)
}

proof fn lemma_u8_shift_up(x: u8, b: u8)
    requires
        b <= 1,
    ensures
        forall|i: u8| #![trigger (((x << 1u8) | b) >> i)]
            1 <= i < 8 ==> (((x << 1u8) | b) >> i) & 1u8 == (x >> ((i - 1) as u8)) & 1u8,
        ((x << 1u8) | b) & 1u8 == b,
        ((x << 1u8) | b) >> 0u8 == (x << 1u8) | b,
        (x >> (7u8)) & 1u8 == x >> 7u8,
        x >> 7u8 <= 1,
{
    assert(forall|i: u8| #![trigger (((x << 1u8) | b) >> i)]
        1 <= i < 8 ==> (((x << 1u8) | b) >> i) & 1u8 == (x >> ((i - 1) as u8)) & 1u8) by (bit_vector)
        requires b <= 1;
    assert(((x << 1u8) | b) & 1u8 == b && ((x << 1u8) | b) >> 0u8 == (x << 1u8) | b) by (bit_vector)
        requires
            b <= 1,
    ;
    assert((x >> (7u8)) & 1u8 == x >> 7u8 && x >> 7u8 <= 1) by (bit_vector);
}

proof fn lemma_u8_shift_down(x: u8, b: u8)
    requires
        b <= 1,
    ensures
        forall|i: u8| #![trigger (((x >> 1u8) | (b << 7u8)) >> i)]
            i < 7 ==> (((x >> 1u8) | (b << 7u8)) >> i) & 1u8 == (x >> ((i + 1) as u8)) & 1u8,
        (((x >> 1u8) | (b << 7u8)) >> 7u8) & 1u8 == b,
        (x >> 0u8) & 1u8 == x & 1u8,
        x & 1u8 <= 1,
{
    assert(forall|i: u8| #![trigger (((x >> 1u8) | (b << 7u8)) >> i)]
        i < 7 ==> (((x >> 1u8) | (b << 7u8)) >> i) & 1u8 == (x >> ((i + 1) as u8)) & 1u8) by (bit_vector)
        requires b <= 1;
    assert((((x >> 1u8) | (b << 7u8)) >> 7u8) & 1u8 == b) by (bit_vector) requires b <= 1;
    assert((x >> 0u8) & 1u8 == x & 1u8 && x & 1u8 <= 1) by (bit_vector);
}

proof fn lemma_u8_zero()
    ensures
        forall|i: u8| #![trigger (0u8 >> i)] (0u8 >> i) & 1u8 == 0u8,
{
    assert(forall|i: u8| #![trigger (0u8 >> i)] (0u8 >> i) & 1u8 == 0u8) by (bit_vector);
}

impl BitWord for u8 {
    open spec fn width() -> nat {
        8
    }

    open spec fn word_bits(&self) -> Seq<bool> {
        u8_bits(*self)
    }

    proof fn lemma_word_bits_len(w: Self) {
    }

    fn zero_word() -> (r: Self) {
        proof {
            lemma_u8_zero();
            assert forall|i: int| 0 <= i < 8 implies !u8_bits(0u8)[i] by {
                let j = i as u8;
                assert((0u8 >> j) & 1u8 == 0u8);
            }
            assert(u8_bits(0u8) =~= clear_bits(8));
        }
        0
    }

    fn shift_up(self, bit: bool) -> (r: (Self, bool)) {
        let b: u8 = if bit { 1 } else { 0 };
        let top: u8 = self >> 7u8;
        let n: u8 = (self << 1u8) | b;
        proof {
            lemma_u8_shift_up(self, b);
            let old_bits = u8_bits(self);
            let new_bits = u8_bits(n);
            assert forall|i: int| 0 <= i < 8 implies new_bits[i] == (seq![bit] + old_bits.take(7))[i] by {
                if i == 0 {
                    assert(n >> 0u8 == n);
                } else {
                    let j = i as u8;
                    assert((n >> j) & 1u8 == (self >> ((j - 1) as u8)) & 1u8);
                    assert(((j - 1) as u8) as int == i - 1);
                }
            }
            assert(new_bits =~= seq![bit] + old_bits.take(7));
            assert(old_bits[7] == ((self >> (7u8)) & 1u8 == 1u8));
        }
        (n, top == 1)
    }

    fn shift_down(self, bit: bool) -> (r: (Self, bool)) {
        let b: u8 = if bit { 1 } else { 0 };
        let low: u8 = self & 1;
        let n: u8 = (self >> 1u8) | (b << 7u8);
        proof {
            lemma_u8_shift_down(self, b);
            let old_bits = u8_bits(self);
            let new_bits = u8_bits(n);
            assert forall|i: int| 0 <= i < 8 implies new_bits[i] == old_bits.skip(1).push(bit)[i] by {
                let j = i as u8;
                if i < 7 {
                    assert((n >> j) & 1u8 == (self >> ((j + 1) as u8)) & 1u8);
                    assert(((j + 1) as u8) as int == i + 1);
                } else {
                    assert(j == 7u8);
                }
            }
            assert(new_bits =~= old_bits.skip(1).push(bit));
            assert(old_bits[0] == ((self >> 0u8) & 1u8 == 1u8));
        }
        (n, low == 1)
    }

    fn low_bit(self) -> (r: bool) {
        proof {
            lemma_u8_shift_down(self, 0);
            assert(u8_bits(self)[0] == ((self >> 0u8) & 1u8 == 1u8));
        }
        self & 1 == 1
    }
}

impl BitBucket for u8 {
    open spec fn bits(&self) -> Seq<bool> {
        u8_bits(*self)
    }

    open spec fn capacity() -> nat {
        8
    }

    proof fn lemma_bits_len(b: &Self) {
    }

    fn default() -> (r: Self) {
        Self::zero_word()
    }

    fn push(&mut self, bit: bool) {
        let (n, _dropped) = self.shift_up(bit);
        *self = n;
    }

    fn pop(&mut self) -> (r: bool) {
        let (n, low) = self.shift_down(false);
        *self = n;
        low
    }

    fn top(&self) -> (r: bool) {
        self.low_bit()
    }
}

/// The bits of a `u16`, least significant first.
pub open spec fn u16_bits(x: u16) -> Seq<bool> {
    Seq::new(16, |i: int| (x >> (i as u16)) & 1u16 == 1u16)
}

proof fn lemma_u16_shift_up(x: u16, b: u16)
    requires
        b <= 1,
    ensures
        forall|i: u16| #![trigger (((x << 1u16) | b) >> i)]
            1 <= i < 16 ==> (((x << 1u16) | b) >> i) & 1u16 == (x >> ((i - 1) as u16)) & 1u16,
        ((x << 1u16) | b) & 1u16 == b,
        ((x << 1u16) | b) >> 0u16 == (x << 1u16) | b,
        (x >> (15u16)) & 1u16 == x >> 15u16,
        x >> 15u16 <= 1,
{
    assert(forall|i: u16| #![trigger (((x << 1u16) | b) >> i)]
        1 <= i < 16 ==> (((x << 1u16) | b) >> i) & 1u16 == (x >> ((i - 1) as u16)) & 1u16) by (bit_vector)
        requires b <= 1;
    assert(((x << 1u16) | b) & 1u16 == b && ((x << 1u16) | b) >> 0u16 == (x << 1u16) | b) by (bit_vector)
        requires
            b <= 1,
    ;
    assert((x >> (15u16)) & 1u16 == x >> 15u16 && x >> 15u16 <= 1) by (bit_vector);
}

proof fn lemma_u16_shift_down(x: u16, b: u16)
    requires
        b <= 1,
    ensures
        forall|i: u16| #![trigger (((x >> 1u16) | (b << 15u16)) >> i)]
            i < 15 ==> (((x >> 1u16) | (b << 15u16)) >> i) & 1u16 == (x >> ((i + 1) as u16)) & 1u16,
        (((x >> 1u16) | (b << 15u16)) >> 15u16) & 1u16 == b,
        (x >> 0u16) & 1u16 == x & 1u16,
        x & 1u16 <= 1,
{
    assert(forall|i: u16| #![trigger (((x >> 1u16) | (b << 15u16)) >> i)]
        i < 15 ==> (((x >> 1u16) | (b << 15u16)) >> i) & 1u16 == (x >> ((i + 1) as u16)) & 1u16) by (bit_vector)
        requires b <= 1;
    assert((((x >> 1u16) | (b << 15u16)) >> 15u16) & 1u16 == b) by (bit_vector) requires b <= 1;
    assert((x >> 0u16) & 1u16 == x & 1u16 && x & 1u16 <= 1) by (bit_vector);
}

proof fn lemma_u16_zero()
    ensures
        forall|i: u16| #![trigger (0u16 >> i)] (0u16 >> i) & 1u16 == 0u16,
{
    assert(forall|i: u16| #![trigger (0u16 >> i)] (0u16 >> i) & 1u16 == 0u16) by (bit_vector);
}

impl BitWord for u16 {
    open spec fn width() -> nat {
        16
    }

    open spec fn word_bits(&self) -> Seq<bool> {
        u16_bits(*self)
    }

    proof fn lemma_word_bits_len(w: Self) {
    }

    fn zero_word() -> (r: Self) {
        proof {
            lemma_u16_zero();
            assert forall|i: int| 0 <= i < 16 implies !u16_bits(0u16)[i] by {
                let j = i as u16;
                assert((0u16 >> j) & 1u16 == 0u16);
            }
            assert(u16_bits(0u16) =~= clear_bits(16));
        }
        0
    }

    fn shift_up(self, bit: bool) -> (r: (Self, bool)) {
        let b: u16 = if bit { 1 } else { 0 };
        let top: u16 = self >> 15u16;
        let n: u16 = (self << 1u16) | b;
        proof {
            lemma_u16_shift_up(self, b);
            let old_bits = u16_bits(self);
            let new_bits = u16_bits(n);
            assert forall|i: int| 0 <= i < 16 implies new_bits[i] == (seq![bit] + old_bits.take(15))[i] by {
                if i == 0 {
                    assert(n >> 0u16 == n);
                } else {
                    let j = i as u16;
                    assert((n >> j) & 1u16 == (self >> ((j - 1) as u16)) & 1u16);
                    assert(((j - 1) as u16) as int == i - 1);
                }
            }
            assert(new_bits =~= seq![bit] + old_bits.take(15));
            assert(old_bits[15] == ((self >> (15u16)) & 1u16 == 1u16));
        }
        (n, top == 1)
    }

    fn shift_down(self, bit: bool) -> (r: (Self, bool)) {
        let b: u16 = if bit { 1 } else { 0 };
        let low: u16 = self & 1;
        let n: u16 = (self >> 1u16) | (b << 15u16);
        proof {
            lemma_u16_shift_down(self, b);
            let old_bits = u16_bits(self);
            let new_bits = u16_bits(n);
            assert forall|i: int| 0 <= i < 16 implies new_bits[i] == old_bits.skip(1).push(bit)[i] by {
                let j = i as u16;
                if i < 15 {
                    assert((n >> j) & 1u16 == (self >> ((j + 1) as u16)) & 1u16);
                    assert(((j + 1) as u16) as int == i + 1);
                } else {
                    assert(j == 15u16);
                }
            }
            assert(new_bits =~= old_bits.skip(1).push(bit));
            assert(old_bits[0] == ((self >> 0u16) & 1u16 == 1u16));
        }
        (n, low == 1)
    }

    fn low_bit(self) -> (r: bool) {
        proof {
            lemma_u16_shift_down(self, 0);
            assert(u16_bits(self)[0] == ((self >> 0u16) & 1u16 == 1u16));
        }
        self & 1 == 1
    }
}

impl BitBucket for u16 {
    open spec fn bits(&self) -> Seq<bool> {
        u16_bits(*self)
    }

    open spec fn capacity() -> nat {
        16
    }

    proof fn lemma_bits_len(b: &Self) {
    }

    fn default() -> (r: Self) {
        Self::zero_word()
    }

    fn push(&mut self, bit: bool) {
        let (n, _dropped) = self.shift_up(bit);
        *self = n;
    }

    fn pop(&mut self) -> (r: bool) {
        let (n, low) = self.shift_down(false);
        *self = n;
        low
    }

    fn top(&self) -> (r: bool) {
        self.low_bit()
    }
}

/// The bits of a `u32`, least significant first.
pub open spec fn u32_bits(x: u32) -> Seq<bool> {
    Seq::new(32, |i: int| (x >> (i as u32)) & 1u32 == 1u32)
}

proof fn lemma_u32_shift_up(x: u32, b: u32)
    requires
        b <= 1,
    ensures
        forall|i: u32| #![trigger (((x << 1u32) | b) >> i)]
            1 <= i < 32 ==> (((x << 1u32) | b) >> i) & 1u32 == (x >> ((i - 1) as u32)) & 1u32,
        ((x << 1u32) | b) & 1u32 == b,
        ((x << 1u32) | b) >> 0u32 == (x << 1u32) | b,
        (x >> (31u32)) & 1u32 == x >> 31u32,
        x >> 31u32 <= 1,
{
    assert(forall|i: u32| #![trigger (((x << 1u32) | b) >> i)]
        1 <= i < 32 ==> (((x << 1u32) | b) >> i) & 1u32 == (x >> ((i - 1) as u32)) & 1u32) by (bit_vector)
        requires b <= 1;
    assert(((x << 1u32) | b) & 1u32 == b && ((x << 1u32) | b) >> 0u32 == (x << 1u32) | b) by (bit_vector)
        requires
            b <= 1,
    ;
    assert((x >> (31u32)) & 1u32 == x >> 31u32 && x >> 31u32 <= 1) by (bit_vector);
}

proof fn lemma_u32_shift_down(x: u32, b: u32)
    requires
        b <= 1,
    ensures
        forall|i: u32| #![trigger (((x >> 1u32) | (b << 31u32)) >> i)]
            i < 31 ==> (((x >> 1u32) | (b << 31u32)) >> i) & 1u32 == (x >> ((i + 1) as u32)) & 1u32,
        (((x >> 1u32) | (b << 31u32)) >> 31u32) & 1u32 == b,
        (x >> 0u32) & 1u32 == x & 1u32,
        x & 1u32 <= 1,
{
    assert(forall|i: u32| #![trigger (((x >> 1u32) | (b << 31u32)) >> i)]
        i < 31 ==> (((x >> 1u32) | (b << 31u32)) >> i) & 1u32 == (x >> ((i + 1) as u32)) & 1u32) by (bit_vector)
        requires b <= 1;
    assert((((x >> 1u32) | (b << 31u32)) >> 31u32) & 1u32 == b) by (bit_vector) requires b <= 1;
    assert((x >> 0u32) & 1u32 == x & 1u32 && x & 1u32 <= 1) by (bit_vector);
}

proof fn lemma_u32_zero()
    ensures
        forall|i: u32| #![trigger (0u32 >> i)] (0u32 >> i) & 1u32 == 0u32,
{
    assert(forall|i: u32| #![trigger (0u32 >> i)] (0u32 >> i) & 1u32 == 0u32) by (bit_vector);
}

impl BitWord for u32 {
    open spec fn width() -> nat {
        32
    }

    open spec fn word_bits(&self) -> Seq<bool> {
        u32_bits(*self)
    }

    proof fn lemma_word_bits_len(w: Self) {
    }

    fn zero_word() -> (r: Self) {
        proof {
            lemma_u32_zero();
            assert forall|i: int| 0 <= i < 32 implies !u32_bits(0u32)[i] by {
                let j = i as u32;
                assert((0u32 >> j) & 1u32 == 0u32);
            }
            assert(u32_bits(0u32) =~= clear_bits(32));
        }
        0
    }

    fn shift_up(self, bit: bool) -> (r: (Self, bool)) {
        let b: u32 = if bit { 1 } else { 0 };
        let top: u32 = self >> 31u32;
        let n: u32 = (self << 1u32) | b;
        proof {
            lemma_u32_shift_up(self, b);
            let old_bits = u32_bits(self);
            let new_bits = u32_bits(n);
            assert forall|i: int| 0 <= i < 32 implies new_bits[i] == (seq![bit] + old_bits.take(31))[i] by {
                if i == 0 {
                    assert(n >> 0u32 == n);
                } else {
                    let j = i as u32;
                    assert((n >> j) & 1u32 == (self >> ((j - 1) as u32)) & 1u32);
                    assert(((j - 1) as u32) as int == i - 1);
                }
            }
            assert(new_bits =~= seq![bit] + old_bits.take(31));
            assert(old_bits[31] == ((self >> (31u32)) & 1u32 == 1u32));
        }
        (n, top == 1)
    }

    fn shift_down(self, bit: bool) -> (r: (Self, bool)) {
        let b: u32 = if bit { 1 } else { 0 };
        let low: u32 = self & 1;
        let n: u32 = (self >> 1u32) | (b << 31u32);
        proof {
            lemma_u32_shift_down(self, b);
            let old_bits = u32_bits(self);
            let new_bits = u32_bits(n);
            assert forall|i: int| 0 <= i < 32 implies new_bits[i] == old_bits.skip(1).push(bit)[i] by {
                let j = i as u32;
                if i < 31 {
                    assert((n >> j) & 1u32 == (self >> ((j + 1) as u32)) & 1u32);
                    assert(((j + 1) as u32) as int == i + 1);
                } else {
                    assert(j == 31u32);
                }
            }
            assert(new_bits =~= old_bits.skip(1).push(bit));
            assert(old_bits[0] == ((self >> 0u32) & 1u32 == 1u32));
        }
        (n, low == 1)
    }

    fn low_bit(self) -> (r: bool) {
        proof {
            lemma_u32_shift_down(self, 0);
            assert(u32_bits(self)[0] == ((self >> 0u32) & 1u32 == 1u32));
        }
        self & 1 == 1
    }
}

impl BitBucket for u32 {
    open spec fn bits(&self) -> Seq<bool> {
        u32_bits(*self)
    }

    open spec fn capacity() -> nat {
        32
    }

    proof fn lemma_bits_len(b: &Self) {
    }

    fn default() -> (r: Self) {
        Self::zero_word()
    }

    fn push(&mut self, bit: bool) {
        let (n, _dropped) = self.shift_up(bit);
        *self = n;
    }

    fn pop(&mut self) -> (r: bool) {
        let (n, low) = self.shift_down(false);
        *self = n;
        low
    }

    fn top(&self) -> (r: bool) {
        self.low_bit()
    }
}

/// The bits of a `u64`, least significant first.
pub open spec fn u64_bits(x: u64) -> Seq<bool> {
    Seq::new(64, |i: int| (x >> (i as u64)) & 1u64 == 1u64)
}

proof fn lemma_u64_shift_up(x: u64, b: u64)
    requires
        b <= 1,
    ensures
        forall|i: u64| #![trigger (((x << 1u64) | b) >> i)]
            1 <= i < 64 ==> (((x << 1u64) | b) >> i) & 1u64 == (x >> ((i - 1) as u64)) & 1u64,
        ((x << 1u64) | b) & 1u64 == b,
        ((x << 1u64) | b) >> 0u64 == (x << 1u64) | b,
        (x >> (63u64)) & 1u64 == x >> 63u64,
        x >> 63u64 <= 1,
{
    assert(forall|i: u64| #![trigger (((x << 1u64) | b) >> i)]
        1 <= i < 64 ==> (((x << 1u64) | b) >> i) & 1u64 == (x >> ((i - 1) as u64)) & 1u64) by (bit_vector)
        requires b <= 1;
    assert(((x << 1u64) | b) & 1u64 == b && ((x << 1u64) | b) >> 0u64 == (x << 1u64) | b) by (bit_vector)
        requires
            b <= 1,
    ;
    assert((x >> (63u64)) & 1u64 == x >> 63u64 && x >> 63u64 <= 1) by (bit_vector);
}

proof fn lemma_u64_shift_down(x: u64, b: u64)
    requires
        b <= 1,
    ensures
        forall|i: u64| #![trigger (((x >> 1u64) | (b << 63u64)) >> i)]
            i < 63 ==> (((x >> 1u64) | (b << 63u64)) >> i) & 1u64 == (x >> ((i + 1) as u64)) & 1u64,
        (((x >> 1u64) | (b << 63u64)) >> 63u64) & 1u64 == b,
        (x >> 0u64) & 1u64 == x & 1u64,
        x & 1u64 <= 1,
{
    assert(forall|i: u64| #![trigger (((x >> 1u64) | (b << 63u64)) >> i)]
        i < 63 ==> (((x >> 1u64) | (b << 63u64)) >> i) & 1u64 == (x >> ((i + 1) as u64)) & 1u64) by (bit_vector)
        requires b <= 1;
    assert((((x >> 1u64) | (b << 63u64)) >> 63u64) & 1u64 == b) by (bit_vector) requires b <= 1;
    assert((x >> 0u64) & 1u64 == x & 1u64 && x & 1u64 <= 1) by (bit_vector);
}

proof fn lemma_u64_zero()
    ensures
        forall|i: u64| #![trigger (0u64 >> i)] (0u64 >> i) & 1u64 == 0u64,
{
    assert(forall|i: u64| #![trigger (0u64 >> i)] (0u64 >> i) & 1u64 == 0u64) by (bit_vector);
}

impl BitWord for u64 {
    open spec fn width() -> nat {
        64
    }

    open spec fn word_bits(&self) -> Seq<bool> {
        u64_bits(*self)
    }

    proof fn lemma_word_bits_len(w: Self) {
    }

    fn zero_word() -> (r: Self) {
        proof {
            lemma_u64_zero();
            assert forall|i: int| 0 <= i < 64 implies !u64_bits(0u64)[i] by {
                let j = i as u64;
                assert((0u64 >> j) & 1u64 == 0u64);
            }
            assert(u64_bits(0u64) =~= clear_bits(64));
        }
        0
    }

    fn shift_up(self, bit: bool) -> (r: (Self, bool)) {
        let b: u64 = if bit { 1 } else { 0 };
        let top: u64 = self >> 63u64;
        let n: u64 = (self << 1u64) | b;
        proof {
            lemma_u64_shift_up(self, b);
            let old_bits = u64_bits(self);
            let new_bits = u64_bits(n);
            assert forall|i: int| 0 <= i < 64 implies new_bits[i] == (seq![bit] + old_bits.take(63))[i] by {
                if i == 0 {
                    assert(n >> 0u64 == n);
                } else {
                    let j = i as u64;
                    assert((n >> j) & 1u64 == (self >> ((j - 1) as u64)) & 1u64);
                    assert(((j - 1) as u64) as int == i - 1);
                }
            }
            assert(new_bits =~= seq![bit] + old_bits.take(63));
            assert(old_bits[63] == ((self >> (63u64)) & 1u64 == 1u64));
        }
        (n, top == 1)
    }

    fn shift_down(self, bit: bool) -> (r: (Self, bool)) {
        let b: u64 = if bit { 1 } else { 0 };
        let low: u64 = self & 1;
        let n: u64 = (self >> 1u64) | (b << 63u64);
        proof {
            lemma_u64_shift_down(self, b);
            let old_bits = u64_bits(self);
            let new_bits = u64_bits(n);
            assert forall|i: int| 0 <= i < 64 implies new_bits[i] == old_bits.skip(1).push(bit)[i] by {
                let j = i as u64;
                if i < 63 {
                    assert((n >> j) & 1u64 == (self >> ((j + 1) as u64)) & 1u64);
                    assert(((j + 1) as u64) as int == i + 1);
                } else {
                    assert(j == 63u64);
                }
            }
            assert(new_bits =~= old_bits.skip(1).push(bit));
            assert(old_bits[0] == ((self >> 0u64) & 1u64 == 1u64));
        }
        (n, low == 1)
    }

    fn low_bit(self) -> (r: bool) {
        proof {
            lemma_u64_shift_down(self, 0);
            assert(u64_bits(self)[0] == ((self >> 0u64) & 1u64 == 1u64));
        }
        self & 1 == 1
    }
}

impl BitBucket for u64 {
    open spec fn bits(&self) -> Seq<bool> {
        u64_bits(*self)
    }

    open spec fn capacity() -> nat {
        64
    }

    proof fn lemma_bits_len(b: &Self) {
    }

    fn default() -> (r: Self) {
        Self::zero_word()
    }

    fn push(&mut self, bit: bool) {
        let (n, _dropped) = self.shift_up(bit);
        *self = n;
    }

    fn pop(&mut self) -> (r: bool) {
        let (n, low) = self.shift_down(false);
        *self = n;
        low
    }

    fn top(&self) -> (r: bool) {
        self.low_bit()
    }
}

/// The bits of a `u128`, least significant first.
pub open spec fn u128_bits(x: u128) -> Seq<bool> {
    Seq::new(128, |i: int| (x >> (i as u128)) & 1u128 == 1u128)
}

proof fn lemma_u128_shift_up(x: u128, b: u128)
    requires
        b <= 1,
    ensures
        forall|i: u128| #![trigger (((x << 1u128) | b) >> i)]
            1 <= i < 128 ==> (((x << 1u128) | b) >> i) & 1u128 == (x >> ((i - 1) as u128)) & 1u128,
        ((x << 1u128) | b) & 1u128 == b,
        ((x << 1u128) | b) >> 0u128 == (x << 1u128) | b,
        (x >> (127u128)) & 1u128 == x >> 127u128,
        x >> 127u128 <= 1,
{
    assert(forall|i: u128| #![trigger (((x << 1u128) | b) >> i)]
        1 <= i < 128 ==> (((x << 1u128) | b) >> i) & 1u128 == (x >> ((i - 1) as u128)) & 1u128) by (bit_vector)
        requires b <= 1;
    assert(((x << 1u128) | b) & 1u128 == b && ((x << 1u128) | b) >> 0u128 == (x << 1u128) | b) by (bit_vector)
        requires
            b <= 1,
    ;
    assert((x >> (127u128)) & 1u128 == x >> 127u128 && x >> 127u128 <= 1) by (bit_vector);
}

proof fn lemma_u128_shift_down(x: u128, b: u128)
    requires
        b <= 1,
    ensures
        forall|i: u128| #![trigger (((x >> 1u128) | (b << 127u128)) >> i)]
            i < 127 ==> (((x >> 1u128) | (b << 127u128)) >> i) & 1u128 == (x >> ((i + 1) as u128)) & 1u128,
        (((x >> 1u128) | (b << 127u128)) >> 127u128) & 1u128 == b,
        (x >> 0u128) & 1u128 == x & 1u128,
        x & 1u128 <= 1,
{
    assert(forall|i: u128| #![trigger (((x >> 1u128) | (b << 127u128)) >> i)]
        i < 127 ==> (((x >> 1u128) | (b << 127u128)) >> i) & 1u128 == (x >> ((i + 1) as u128)) & 1u128) by (bit_vector)
        requires b <= 1;
    assert((((x >> 1u128) | (b << 127u128)) >> 127u128) & 1u128 == b) by (bit_vector) requires b <= 1;
    assert((x >> 0u128) & 1u128 == x & 1u128 && x & 1u128 <= 1) by (bit_vector);
}

proof fn lemma_u128_zero()
    ensures
        forall|i: u128| #![trigger (0u128 >> i)] (0u128 >> i) & 1u128 == 0u128,
{
    assert(forall|i: u128| #![trigger (0u128 >> i)] (0u128 >> i) & 1u128 == 0u128) by (bit_vector);
}

impl BitWord for u128 {
    open spec fn width() -> nat {
        128
    }

    open spec fn word_bits(&self) -> Seq<bool> {
        u128_bits(*self)
    }

    proof fn lemma_word_bits_len(w: Self) {
    }

    fn zero_word() -> (r: Self) {
        proof {
            lemma_u128_zero();
            assert forall|i: int| 0 <= i < 128 implies !u128_bits(0u128)[i] by {
                let j = i as u128;
                assert((0u128 >> j) & 1u128 == 0u128);
            }
            assert(u128_bits(0u128) =~= clear_bits(128));
        }
        0
    }

    fn shift_up(self, bit: bool) -> (r: (Self, bool)) {
        let b: u128 = if bit { 1 } else { 0 };
        let top: u128 = self >> 127u128;
        let n: u128 = (self << 1u128) | b;
        proof {
            lemma_u128_shift_up(self, b);
            let old_bits = u128_bits(self);
            let new_bits = u128_bits(n);
            assert forall|i: int| 0 <= i < 128 implies new_bits[i] == (seq![bit] + old_bits.take(127))[i] by {
                if i == 0 {
                    assert(n >> 0u128 == n);
                } else {
                    let j = i as u128;
                    assert((n >> j) & 1u128 == (self >> ((j - 1) as u128)) & 1u128);
                    assert(((j - 1) as u128) as int == i - 1);
                }
            }
            assert(new_bits =~= seq![bit] + old_bits.take(127));
            assert(old_bits[127] == ((self >> (127u128)) & 1u128 == 1u128));
        }
        (n, top == 1)
    }

    fn shift_down(self, bit: bool) -> (r: (Self, bool)) {
        let b: u128 = if bit { 1 } else { 0 };
        let low: u128 = self & 1;
        let n: u128 = (self >> 1u128) | (b << 127u128);
        proof {
            lemma_u128_shift_down(self, b);
            let old_bits = u128_bits(self);
            let new_bits = u128_bits(n);
            assert forall|i: int| 0 <= i < 128 implies new_bits[i] == old_bits.skip(1).push(bit)[i] by {
                let j = i as u128;
                if i < 127 {
                    assert((n >> j) & 1u128 == (self >> ((j + 1) as u128)) & 1u128);
                    assert(((j + 1) as u128) as int == i + 1);
                } else {
                    assert(j == 127u128);
                }
            }
            assert(new_bits =~= old_bits.skip(1).push(bit));
            assert(old_bits[0] == ((self >> 0u128) & 1u128 == 1u128));
        }
        (n, low == 1)
    }

    fn low_bit(self) -> (r: bool) {
        proof {
            lemma_u128_shift_down(self, 0);
            assert(u128_bits(self)[0] == ((self >> 0u128) & 1u128 == 1u128));
        }
        self & 1 == 1
    }
}

impl BitBucket for u128 {
    open spec fn bits(&self) -> Seq<bool> {
        u128_bits(*self)
    }

    open spec fn capacity() -> nat {
        128
    }

    proof fn lemma_bits_len(b: &Self) {
    }

    fn default() -> (r: Self) {
        Self::zero_word()
    }

    fn push(&mut self, bit: bool) {
        let (n, _dropped) = self.shift_up(bit);
        *self = n;
    }

    fn pop(&mut self) -> (r: bool) {
        let (n, low) = self.shift_down(false);
        *self = n;
        low
    }

    fn top(&self) -> (r: bool) {
        self.low_bit()
    }
}

impl DepthCounter for u8 {
    open spec fn count(&self) -> nat {
        *self as nat
    }

    open spec fn max_count() -> nat {
        u8::MAX as nat
    }

    proof fn lemma_count_bound(d: Self) {
    }

    fn zero() -> (r: Self) {
        0
    }

    fn increment(self) -> (r: (Self, bool)) {
        if self == u8::MAX {
            (0, true)
        } else {
            (self + 1, false)
        }
    }

    fn decrement(self) -> (r: (Self, bool)) {
        if self == 0 {
            (u8::MAX, true)
        } else {
            (self - 1, false)
        }
    }

    fn is_zero(self) -> (r: bool) {
        self == 0
    }
}

impl DepthCounter for u16 {
    open spec fn count(&self) -> nat {
        *self as nat
    }

    open spec fn max_count() -> nat {
        u16::MAX as nat
    }

    proof fn lemma_count_bound(d: Self) {
    }

    fn zero() -> (r: Self) {
        0
    }

    fn increment(self) -> (r: (Self, bool)) {
        if self == u16::MAX {
            (0, true)
        } else {
            (self + 1, false)
        }
    }

    fn decrement(self) -> (r: (Self, bool)) {
        if self == 0 {
            (u16::MAX, true)
        } else {
            (self - 1, false)
        }
    }

    fn is_zero(self) -> (r: bool) {
        self == 0
    }
}

impl DepthCounter for u32 {
    open spec fn count(&self) -> nat {
        *self as nat
    }

    open spec fn max_count() -> nat {
        u32::MAX as nat
    }

    proof fn lemma_count_bound(d: Self) {
    }

    fn zero() -> (r: Self) {
        0
    }

    fn increment(self) -> (r: (Self, bool)) {
        if self == u32::MAX {
            (0, true)
        } else {
            (self + 1, false)
        }
    }

    fn decrement(self) -> (r: (Self, bool)) {
        if self == 0 {
            (u32::MAX, true)
        } else {
            (self - 1, false)
        }
    }

    fn is_zero(self) -> (r: bool) {
        self == 0
    }
}

impl DepthCounter for u64 {
    open spec fn count(&self) -> nat {
        *self as nat
    }

    open spec fn max_count() -> nat {
        u64::MAX as nat
    }

    proof fn lemma_count_bound(d: Self) {
    }

    fn zero() -> (r: Self) {
        0
    }

    fn increment(self) -> (r: (Self, bool)) {
        if self == u64::MAX {
            (0, true)
        } else {
            (self + 1, false)
        }
    }

    fn decrement(self) -> (r: (Self, bool)) {
        if self == 0 {
            (u64::MAX, true)
        } else {
            (self - 1, false)
        }
    }

    fn is_zero(self) -> (r: bool) {
        self == 0
    }
}

impl DepthCounter for u128 {
    open spec fn count(&self) -> nat {
        *self as nat
    }

    open spec fn max_count() -> nat {
        u128::MAX as nat
    }

    proof fn lemma_count_bound(d: Self) {
    }

    fn zero() -> (r: Self) {
        0
    }

    fn increment(self) -> (r: (Self, bool)) {
        if self == u128::MAX {
            (0, true)
        } else {
            (self + 1, false)
        }
    }

    fn decrement(self) -> (r: (Self, bool)) {
        if self == 0 {
            (u128::MAX, true)
        } else {
            (self - 1, false)
        }
    }

    fn is_zero(self) -> (r: bool) {
        self == 0
    }
}

/// Trait for depth counters - tracks nesting depth.
///
/// This trait provides overflow-safe operations for tracking JSON nesting depth.
/// Implemented for all unsigned integer types.
pub trait DepthCounter: Sized + Copy {
    /// The depth the counter holds.
    spec fn count(&self) -> nat;

    /// The largest depth the counter can hold.
    spec fn max_count() -> nat;

    proof fn lemma_count_bound(d: Self)
        ensures
            d.count() <= Self::max_count(),
    ;

    /// Create a zero depth value
    fn zero() -> (r: Self)
        ensures
            r.count() == 0,
    ;

    /// Increment depth, returning (new_value, overflow_occurred)
    fn increment(self) -> (r: (Self, bool))
        ensures
            self.count() == Self::max_count() ==> r.0.count() == 0 && r.1,
            self.count() < Self::max_count() ==> r.0.count() == self.count() + 1 && !r.1,
    ;

    /// Decrement depth, returning (new_value, underflow_occurred)
    fn decrement(self) -> (r: (Self, bool))
        ensures
            self.count() == 0 ==> r.0.count() == Self::max_count() && r.1,
            self.count() > 0 ==> r.0.count() == self.count() - 1 && !r.1,
    ;

    /// Check if depth is zero
    fn is_zero(self) -> (r: bool)
        ensures
            r == (self.count() == 0),
    ;
}

/// The bits of a sequence of words, the last word's bits first.
pub open spec fn flat_bits<T: BitWord>(s: Seq<T>) -> Seq<bool>
    decreases s.len(),
{
    if s.len() == 0 {
        Seq::empty()
    } else {
        s.last().word_bits() + flat_bits(s.drop_last())
    }
}

proof fn lemma_flat_concat<T: BitWord>(p: Seq<T>, q: Seq<T>)
    ensures
        flat_bits(p + q) == flat_bits(q) + flat_bits(p),
    decreases q.len(),
{
    if q.len() == 0 {
        assert(p + q =~= p);
        assert(flat_bits(q) + flat_bits(p) =~= flat_bits(p));
    } else {
        assert((p + q).drop_last() =~= p + q.drop_last());
        assert((p + q).last() == q.last());
        lemma_flat_concat(p, q.drop_last());
        assert(flat_bits(p + q) =~= flat_bits(q) + flat_bits(p));
    }
}

proof fn lemma_flat_len<T: BitWord>(s: Seq<T>)
    ensures
        flat_bits(s).len() == s.len() * T::width(),
    decreases s.len(),
{
    if s.len() > 0 {
        lemma_flat_len(s.drop_last());
        T::lemma_word_bits_len(s.last());
        let n = s.len() as int;
        let w = T::width() as int;
        assert((n - 1) * w + w == n * w) by (nonlinear_arith);
    }
}

proof fn lemma_flat_single<T: BitWord>(e: T)
    ensures
        flat_bits(seq![e]) == e.word_bits(),
{
    assert(seq![e].drop_last() =~= Seq::<T>::empty());
    assert(seq![e].last() == e);
    assert(flat_bits(Seq::<T>::empty()) =~= Seq::<bool>::empty());
    assert(flat_bits(seq![e]) =~= e.word_bits() + Seq::<bool>::empty());
    assert(e.word_bits() + Seq::<bool>::empty() =~= e.word_bits());
}

proof fn lemma_flat_clear<T: BitWord>(s: Seq<T>)
    requires
        forall|i: int| 0 <= i < s.len() ==> s[i].word_bits() == clear_bits(T::width()),
    ensures
        flat_bits(s) == clear_bits(s.len() * T::width()),
    decreases s.len(),
{
    lemma_flat_len(s);
    if s.len() > 0 {
        lemma_flat_clear(s.drop_last());
    }
    assert(flat_bits(s) =~= clear_bits(s.len() * T::width()));
}

/// Array-based BitBucket implementation for large storage capacity.
///
/// Provides large BitBucket storage using multiple elements.
/// This can be used to parse very deeply nested JSON.
///
/// Use the [ArrayBitStack] convenience wrapper to create this.
#[derive(Debug)]
pub struct ArrayBitBucket<const N: usize, T>(pub [T; N]);

impl<const N: usize, T: BitWord> BitBucket for ArrayBitBucket<N, T> {
    open spec fn bits(&self) -> Seq<bool> {
        flat_bits(self.0@)
    }

    open spec fn capacity() -> nat {
        N as nat * T::width()
    }

    proof fn lemma_bits_len(b: &Self) {
        lemma_flat_len(b.0@);
    }

    fn default() -> (r: Self) {
        let z = T::zero_word();
        let a: [T; N] = [z; N];
        proof {
            lemma_flat_clear(a@);
        }
        ArrayBitBucket(a)
    }

    fn push(&mut self, bit: bool) {
        // The array is big-endian storage: the last element holds the top of the
        // stack. Shift every element up, carrying each element's top bit into the
        // element before it; the carry out of the first element is dropped.
        let ghost old_words = self.0@;
        let mut carry = bit;
        let mut i: usize = N;
        proof {
            assert(old_words.skip(N as int) =~= Seq::<T>::empty());
        }
        while i > 0
            invariant
                i <= N,
                self.0@.len() == N,
                old_words.len() == N,
                self.0@.take(i as int) == old_words.take(i as int),
                flat_bits(self.0@.skip(i as int)).push(carry) == seq![bit] + flat_bits(old_words.skip(i as int)),
            decreases i,
        {
            let e = self.0[i - 1];
            let (ne, c) = e.shift_up(carry);
            let ghost prev = self.0@;
            let ghost prev_carry = carry;
            self.0[i - 1] = ne;
            carry = c;
            proof {
                T::lemma_word_bits_len(e);
                let rest = prev.skip(i as int);
                let old_rest = old_words.skip(i as int);
                assert(e == old_words[i - 1]) by {
                    assert(prev.take(i as int)[i - 1] == prev[i - 1]);
                    assert(old_words.take(i as int)[i - 1] == old_words[i - 1]);
                }
                assert(self.0@.skip(i - 1) =~= seq![ne] + rest);
                assert(old_words.skip(i - 1) =~= seq![e] + old_rest);
                lemma_flat_concat(seq![ne], rest);
                lemma_flat_concat(seq![e], old_rest);
                lemma_flat_single(ne);
                lemma_flat_single(e);
                let w = T::width() as int;
                assert(e.word_bits().take(w - 1).push(c) =~= e.word_bits());
                assert(flat_bits(self.0@.skip(i - 1)).push(carry) =~= flat_bits(rest) + (seq![prev_carry] + e.word_bits().take(w - 1)).push(c));
                assert(flat_bits(rest) + (seq![prev_carry] + e.word_bits().take(w - 1)).push(c)
                    =~= flat_bits(rest).push(prev_carry) + e.word_bits());
                assert(self.0@.take(i - 1) =~= old_words.take(i - 1)) by {
                    assert(self.0@.take(i - 1) =~= prev.take(i as int).take(i - 1));
                    assert(old_words.take(i - 1) =~= old_words.take(i as int).take(i - 1));
                }
                assert(seq![bit] + flat_bits(old_words.skip(i - 1)) =~= (seq![bit] + flat_bits(old_rest)) + e.word_bits());
            }
            i = i - 1;
        }
        proof {
            assert(self.0@.skip(0) =~= self.0@);
            assert(old_words.skip(0) =~= old_words);
            lemma_flat_len(self.0@);
            lemma_flat_len(old_words);
            let nb = flat_bits(self.0@);
            let ob = flat_bits(old_words);
            if ob.len() > 0 {
                assert(nb =~= nb.push(carry).take(nb.len() as int));
                assert(nb =~= (seq![bit] + ob).take(ob.len() as int));
                assert(nb =~= push_bits(ob, bit));
            } else {
                assert(nb =~= push_bits(ob, bit));
            }
        }
    }

    fn pop(&mut self) -> (r: bool) {
        if N == 0 {
            proof {
                lemma_flat_len(self.0@);
            }
            return false;
        }
        let bit = self.0[N - 1].low_bit();
        let ghost old_words = self.0@;
        proof {
            lemma_flat_len(old_words);
            T::lemma_word_bits_len(old_words.last());
            assert(flat_bits(old_words)[0] == old_words.last().word_bits()[0]);
            assert(old_words.take(0) =~= Seq::<T>::empty());
        }
        // Shift every element down, carrying each element's bottom bit into the
        // top of the element after it; a clear bit enters the first element.
        let mut carry = false;
        let mut i: usize = 0;
        while i < N
            invariant
                i <= N,
                self.0@.len() == N,
                old_words.len() == N,
                self.0@.skip(i as int) == old_words.skip(i as int),
                seq![carry] + flat_bits(self.0@.take(i as int)) == flat_bits(old_words.take(i as int)).push(false),
            decreases N - i,
        {
            let e = self.0[i];
            let (ne, c) = e.shift_down(carry);
            let ghost prev = self.0@;
            let ghost prev_carry = carry;
            self.0[i] = ne;
            carry = c;
            proof {
                T::lemma_word_bits_len(e);
                assert(e == old_words[i as int]) by {
                    assert(prev.skip(i as int)[0] == prev[i as int]);
                }
                let pre = prev.take(i as int);
                let old_pre = old_words.take(i as int);
                assert(self.0@.take(i + 1) =~= pre + seq![ne]);
                assert(old_words.take(i + 1) =~= old_pre + seq![e]);
                lemma_flat_concat(pre, seq![ne]);
                lemma_flat_concat(old_pre, seq![e]);
                lemma_flat_single(ne);
                lemma_flat_single(e);
                assert(seq![e.word_bits()[0]] + e.word_bits().skip(1) =~= e.word_bits());
                assert(seq![carry] + flat_bits(self.0@.take(i + 1)) =~= (seq![c] + e.word_bits().skip(1).push(prev_carry)) + flat_bits(pre));
                assert((seq![c] + e.word_bits().skip(1).push(prev_carry)) + flat_bits(pre)
                    =~= e.word_bits() + (seq![prev_carry] + flat_bits(pre)));
                assert(flat_bits(old_words.take(i + 1)).push(false) =~= e.word_bits() + flat_bits(old_pre).push(false));
                assert(self.0@.skip(i + 1) =~= old_words.skip(i + 1)) by {
                    assert(self.0@.skip(i + 1) =~= prev.skip(i as int).skip(1));
                    assert(old_words.skip(i + 1) =~= old_words.skip(i as int).skip(1));
                }
            }
            i = i + 1;
        }
        proof {
            assert(self.0@.take(N as int) =~= self.0@);
            assert(old_words.take(N as int) =~= old_words);
            let nb = flat_bits(self.0@);
            let ob = flat_bits(old_words);
            assert(nb =~= (seq![carry] + nb).skip(1));
            assert(nb =~= ob.skip(1).push(false));
        }
        bit
    }

    fn top(&self) -> (r: bool) {
        proof {
            lemma_flat_len(self.0@);
        }
        if N == 0 {
            return false;
        }
        proof {
            T::lemma_word_bits_len(self.0@.last());
            assert(flat_bits(self.0@)[0] == self.0@.last().word_bits()[0]);
        }
        self.0[N - 1].low_bit()
    }
}

/// Configuration trait for BitStack systems - defines bucket and counter types.
pub trait BitStackConfig {
    /// The type used for storing the bit stack (e.g., u32, or a custom array-based type).
    /// This type must implement the [`BitBucket`] trait.
    type Bucket: BitBucket;
    /// The type used for tracking nesting depth (e.g., u8).
    /// This type must implement the [`DepthCounter`] trait.
    type Counter: DepthCounter;
}

/// Default depth configuration using [u32] for tracking bits and [u8] for counting depth.
pub struct DefaultConfig;

impl BitStackConfig for DefaultConfig {
    type Bucket = u32;
    type Counter = u8;
}

/// BitStack configuration for custom bit depth parsing.
///
/// Allows specifying custom types for bit storage and depth counting.
///
/// Example: `BitStackStruct<u64, u16>` for 64-bit nesting depth with 16 counter.
pub struct BitStackStruct<B, C> {
    _phantom: core::marker::PhantomData<(B, C)>,
}

impl<B: BitBucket, C: DepthCounter> BitStackConfig for BitStackStruct<B, C> {
    type Bucket = B;
    type Counter = C;
}

/// Array-based BitStack configuration: an `N`-element array of `T` for the
/// bits, with a `D` counter.
pub type ArrayBitStack<const N: usize, T, D> = BitStackStruct<ArrayBitBucket<N, T>, D>;

} // verus!
