//! A bit range: the place of one field inside a machine word, with the
//! masked reads and writes that move a field's bits in and out.

use vstd::prelude::*;
use vstd::arithmetic::power2::pow2;
use vstd::arithmetic::power2::lemma_pow2_adds;
use vstd::arithmetic::power2::lemma_pow2_pos;
use vstd::bits::lemma_usize_shr_is_div;
use vstd::bits::lemma_usize_shl_is_mul;
use crate::word::PTR_WIDTH;
use crate::word::const_mask;
use crate::word::field_value;
use crate::word::with_field;
use crate::word::range_mask_spec;
use crate::word::fields_disjoint;
use crate::word::lemma_read_unshifted;
use crate::word::lemma_read_low;
use crate::word::lemma_read_high;
use crate::word::lemma_write;
use crate::word::lemma_field_bound;
use crate::word::lemma_field_empty;
use crate::word::lemma_field_of_shifted;
use crate::word::lemma_field_of_with_field;
use crate::word::lemma_with_field_frame;
use crate::word::lemma_masks_disjoint;
use crate::word::lemma_max_word;
use crate::word::lemma_all_ones;
use vstd::arithmetic::div_mod::lemma_small_mod;
use vstd::arithmetic::mul::lemma_mul_basics;

verus! {

/// The end of a word at which a field's type keeps its significant bits.
#[derive(Clone, Copy, PartialEq, Eq, Debug, Structural)]
pub enum Side {
    /// Integer-like: the bits sit at the least significant end.
    Low,
    /// Pointer-like: the bits sit at the most significant end.
    High,
}

/// Whether `bits` is a pattern that a type of `width` bits on the given side
/// can have: on the low side a number below two to the `width`, on the high
/// side a word with zeros below its `width` most significant bits.
pub open spec fn canonical(bits: usize, width: nat, side: Side) -> bool {
    match side {
        Side::Low => bits < pow2(width),
        Side::High => bits as nat % pow2((PTR_WIDTH - width) as nat) == 0,
    }
}

/// The number that the `width` significant bits of a canonical pattern spell.
pub open spec fn payload_of(bits: usize, width: nat, side: Side) -> nat {
    match side {
        Side::Low => bits as nat,
        Side::High => bits as nat / pow2((PTR_WIDTH - width) as nat),
    }
}

/// The canonical pattern whose significant bits spell `payload`.
pub open spec fn bits_of(payload: nat, width: nat, side: Side) -> nat {
    match side {
        Side::Low => payload,
        Side::High => payload * pow2((PTR_WIDTH - width) as nat),
    }
}

/// The place of a field in a word: `before` counts the unused bits above the
/// field, `after` the unused bits below it.
#[derive(Clone, Copy, PartialEq, Eq, Debug, Structural)]
pub struct FieldRange {
    pub before: u32,
    pub after: u32,
}

impl FieldRange {
    /// The two counts leave room for a field: together they do not exceed
    /// the word width.
    pub open spec fn wf(self) -> bool {
        self.before + self.after <= PTR_WIDTH
    }

    /// Number of bits of the field.
    pub open spec fn spec_width(self) -> nat {
        (PTR_WIDTH - self.before - self.after) as nat
    }

    /// Position of the field's least significant bit.
    pub open spec fn spec_low(self) -> nat {
        self.after as nat
    }

    /// The word with ones at the field's positions and zeros elsewhere.
    pub open spec fn spec_mask(self) -> nat {
        range_mask_spec(self.after as nat, (PTR_WIDTH - self.before) as nat)
    }

    /// The number that `word` holds in this field.
    pub open spec fn get(self, word: usize) -> nat {
        field_value(word, self.spec_low(), self.spec_width())
    }

    /// `word` with this field holding `v` and every other bit kept.
    pub open spec fn put(self, word: usize, v: nat) -> nat {
        with_field(word, self.spec_low(), self.spec_width(), v)
    }

    /// Whether `bits` has no one outside this field.
    pub open spec fn inside(self, bits: usize) -> bool {
        bits as nat == self.get(bits) * pow2(self.spec_low())
    }

    /// Whether the two fields share no bit position.
    pub open spec fn disjoint(self, other: FieldRange) -> bool {
        fields_disjoint(self.spec_low(), self.spec_width(), other.spec_low(), other.spec_width())
    }

    /// Whether every bit position of `inner` is one of this field.
    pub open spec fn contains(self, inner: FieldRange) -> bool {
        self.before <= inner.before && self.after <= inner.after
    }

    /// The range with the given unused bit counts, or nothing where they
    /// leave no room in a word.
    pub fn new(before: u32, after: u32) -> (range: Option<FieldRange>)
        ensures
            before + after <= PTR_WIDTH ==> range == Some(FieldRange { before, after }),
            before + after > PTR_WIDTH ==> range.is_none(),
    {
        if before > PTR_WIDTH || after > PTR_WIDTH - before {
            None
        } else {
            Some(FieldRange { before, after })
        }
    }

    /// Number of bits of the field.
    pub fn width(&self) -> (w: u32)
        requires
            self.wf(),
        ensures
            w == self.spec_width(),
    {
        PTR_WIDTH - self.before - self.after
    }

    /// The mask that selects the field.
    pub fn mask(&self) -> (m: usize)
        requires
            self.wf(),
        ensures
            m == self.spec_mask(),
    {
        const_mask(self.before, self.after)
    }

    /// The mask that selects everything but the field.
    pub fn clear_mask(&self) -> (m: usize)
        requires
            self.wf(),
        ensures
            m == usize::MAX - self.spec_mask(),
    {
        let m = self.mask();
        proof {
            lemma_all_ones();
            assert(!m == !0usize - m) by (bit_vector);
        }
        !m
    }

    /// The field's bits, left where they are in the word, with every other
    /// bit cleared.
    pub fn read_unshifted_bits(&self, word: usize) -> (bits: usize)
        requires
            self.wf(),
        ensures
            bits == self.get(word) * pow2(self.spec_low()),
            self.inside(bits),
            self.get(bits) == self.get(word),
    {
        let m = self.mask();
        proof {
            lemma_read_unshifted(word, m, self.before, self.after);
            lemma_field_bound(word, self.spec_low(), self.spec_width());
            lemma_field_of_shifted(self.get(word), self.spec_low(), self.spec_width());
        }
        word & m
    }

    /// The field's bits moved up to the most significant end of a word.
    pub fn read_high_bits(&self, word: usize) -> (bits: usize)
        requires
            self.wf(),
        ensures
            bits == bits_of(self.get(word), self.spec_width(), Side::High),
    {
        let m = self.mask();
        let kept = word & m;
        proof {
            lemma_read_unshifted(word, m, self.before, self.after);
            if self.before + self.after < PTR_WIDTH {
                lemma_read_high(word, m, self.before, self.after);
                lemma_small_mod(self.before as nat, usize::BITS as nat);
            } else {
                lemma_field_empty(word, self.spec_low());
                lemma_mul_basics(pow2(self.spec_low()) as int);
                lemma_mul_basics(pow2((PTR_WIDTH - self.spec_width()) as nat) as int);
                let s = self.before % usize::BITS;
                assert(0usize << s == 0) by (bit_vector);
            }
        }
        kept.wrapping_shl(self.before)
    }

    /// The field's bits moved down to the least significant end of a word.
    pub fn read_low_bits(&self, word: usize) -> (bits: usize)
        requires
            self.wf(),
        ensures
            bits == bits_of(self.get(word), self.spec_width(), Side::Low),
    {
        let m = self.mask();
        let kept = word & m;
        proof {
            lemma_read_unshifted(word, m, self.before, self.after);
            if self.before + self.after < PTR_WIDTH {
                lemma_read_low(word, m, self.before, self.after);
                lemma_small_mod(self.after as nat, usize::BITS as nat);
            } else {
                lemma_field_empty(word, self.spec_low());
                lemma_mul_basics(pow2(self.spec_low()) as int);
                let s = self.after % usize::BITS;
                assert(0usize >> s == 0) by (bit_vector);
            }
        }
        kept.wrapping_shr(self.after)
    }

    /// `word` with the field replaced by `bits`, which are already at the
    /// field's place and have no one outside it.
    pub fn write_unshifted_bits(&self, word: usize, bits: usize) -> (out: usize)
        requires
            self.wf(),
            self.inside(bits),
        ensures
            out == self.put(word, self.get(bits)),
            self.get(out) == self.get(bits),
    {
        let m = self.mask();
        proof {
            lemma_field_bound(bits, self.spec_low(), self.spec_width());
            lemma_write(word, m, self.before, self.after, bits, self.get(bits));
            lemma_field_of_with_field(word, self.spec_low(), self.spec_width(), self.get(bits));
        }
        (word & !m) | bits
    }

    /// The bits that `bits` has at its most significant end, moved down to
    /// the field's place; below them `bits` has only zeros.
    pub fn high_bits_to_range(&self, bits: usize) -> (shifted: usize)
        requires
            self.wf(),
            canonical(bits, self.spec_width(), Side::High),
        ensures
            shifted == payload_of(bits, self.spec_width(), Side::High) * pow2(self.spec_low()),
            self.inside(shifted),
            self.get(shifted) == payload_of(bits, self.spec_width(), Side::High),
    {
        proof {
            let unused = (self.before + self.after) as nat;
            let v = bits as nat / pow2(unused);
            self.lemma_high_payload(bits);
            lemma_field_of_shifted(v, self.spec_low(), self.spec_width());
            lemma_pow2_pos(unused);
            if self.before + self.after < PTR_WIDTH {
                lemma_small_mod(self.before as nat, usize::BITS as nat);
                lemma_usize_shr_is_div(bits, self.before as usize);
                lemma_pow2_adds(self.after as nat, self.before as nat);
                lemma_pow2_pos(self.before as nat);
                lemma_pow2_pos(self.after as nat);
                vstd::arithmetic::div_mod::lemma_fundamental_div_mod(
                    bits as int,
                    pow2(unused) as int,
                );
                assert(bits as nat == pow2(self.before as nat) * (v * pow2(self.after as nat)))
                    by (nonlinear_arith)
                    requires
                        bits as nat == pow2(unused) * v,
                        pow2(unused) == pow2(self.after as nat) * pow2(self.before as nat),
                ;
                vstd::arithmetic::div_mod::lemma_div_multiples_vanish(
                    (v * pow2(self.after as nat)) as int,
                    pow2(self.before as nat) as int,
                );
            } else {
                lemma_max_word();
                lemma_small_mod(bits as nat, pow2(unused));
                let s = self.before % usize::BITS;
                assert(0usize >> s == 0) by (bit_vector);
                lemma_mul_basics(pow2(self.spec_low()) as int);
            }
        }
        bits.wrapping_shr(self.before)
    }

    /// The number `bits`, which fits the field's width, moved up to the
    /// field's place.
    pub fn low_bits_to_range(&self, bits: usize) -> (shifted: usize)
        requires
            self.wf(),
            canonical(bits, self.spec_width(), Side::Low),
        ensures
            shifted == payload_of(bits, self.spec_width(), Side::Low) * pow2(self.spec_low()),
            self.inside(shifted),
            self.get(shifted) == payload_of(bits, self.spec_width(), Side::Low),
    {
        proof {
            lemma_field_of_shifted(bits as nat, self.spec_low(), self.spec_width());
            if self.before + self.after < PTR_WIDTH {
                lemma_small_mod(self.after as nat, usize::BITS as nat);
                lemma_usize_shl_is_mul(bits, self.after as usize);
            } else {
                vstd::arithmetic::power2::lemma2_to64();
                let s = self.after % usize::BITS;
                assert(0usize << s == 0) by (bit_vector);
                lemma_mul_basics(pow2(self.spec_low()) as int);
            }
        }
        bits.wrapping_shl(self.after)
    }

    /// `word` with the field replaced by the bits that `bits` has at its most
    /// significant end; below them `bits` has only zeros.
    pub fn write_high_bits(&self, word: usize, bits: usize) -> (out: usize)
        requires
            self.wf(),
            canonical(bits, self.spec_width(), Side::High),
        ensures
            out == self.put(word, payload_of(bits, self.spec_width(), Side::High)),
            self.get(out) == payload_of(bits, self.spec_width(), Side::High),
    {
        let shifted = self.high_bits_to_range(bits);
        self.write_unshifted_bits(word, shifted)
    }

    /// `word` with the field replaced by `bits`, a number that fits the
    /// field's width.
    pub fn write_low_bits(&self, word: usize, bits: usize) -> (out: usize)
        requires
            self.wf(),
            canonical(bits, self.spec_width(), Side::Low),
        ensures
            out == self.put(word, payload_of(bits, self.spec_width(), Side::Low)),
            self.get(out) == payload_of(bits, self.spec_width(), Side::Low),
    {
        let shifted = self.low_bits_to_range(bits);
        self.write_unshifted_bits(word, shifted)
    }

    /// The field's bits as a canonical pattern of the given side.
    pub fn read(&self, word: usize, side: Side) -> (bits: usize)
        requires
            self.wf(),
        ensures
            bits == bits_of(self.get(word), self.spec_width(), side),
            canonical(bits, self.spec_width(), side),
            payload_of(bits, self.spec_width(), side) == self.get(word),
    {
        proof {
            lemma_field_bound(word, self.spec_low(), self.spec_width());
            lemma_bits_of_payload(self.get(word), self.spec_width(), side);
        }
        match side {
            Side::Low => self.read_low_bits(word),
            Side::High => self.read_high_bits(word),
        }
    }

    /// `word` with the field replaced by the significant bits of `bits`, a
    /// canonical pattern of the given side.
    pub fn write(&self, word: usize, side: Side, bits: usize) -> (out: usize)
        requires
            self.wf(),
            canonical(bits, self.spec_width(), side),
        ensures
            out == self.put(word, payload_of(bits, self.spec_width(), side)),
            self.get(out) == payload_of(bits, self.spec_width(), side),
    {
        match side {
            Side::Low => self.write_low_bits(word, bits),
            Side::High => self.write_high_bits(word, bits),
        }
    }

    /// Whether every bit position of `inner` is one of this field.
    pub fn covers(&self, inner: &FieldRange) -> (covered: bool)
        ensures
            covered == self.contains(*inner),
    {
        self.before <= inner.before && self.after <= inner.after
    }

    /// Whether the two fields share no bit position.
    pub fn apart(&self, other: &FieldRange) -> (apart: bool)
        requires
            self.wf(),
            other.wf(),
        ensures
            apart == self.disjoint(*other),
    {
        PTR_WIDTH - self.before <= other.after || PTR_WIDTH - other.before <= self.after
    }

    /// What is written to a field is what is read from it, whatever the
    /// word held before: writing the canonical pattern `bits` and reading a
    /// pattern of the same side gives `bits` back.
    pub proof fn lemma_write_read(self, word: usize, side: Side, bits: usize)
        requires
            self.wf(),
            canonical(bits, self.spec_width(), side),
        ensures
            self.put(word, payload_of(bits, self.spec_width(), side)) <= usize::MAX,
            bits_of(
                self.get(self.put(word, payload_of(bits, self.spec_width(), side)) as usize),
                self.spec_width(),
                side,
            ) == bits,
    {
        lemma_payload_of_bits(bits, self.spec_width(), side);
        lemma_field_of_with_field(
            word,
            self.spec_low(),
            self.spec_width(),
            payload_of(bits, self.spec_width(), side),
        );
    }

    /// A write to a field changes no field that shares no bit position with
    /// it.
    pub proof fn lemma_write_keeps(self, word: usize, v: nat, other: FieldRange)
        requires
            self.wf(),
            other.wf(),
            self.disjoint(other),
            v < pow2(self.spec_width()),
        ensures
            self.put(word, v) <= usize::MAX,
            other.get(self.put(word, v) as usize) == other.get(word),
    {
        lemma_with_field_frame(
            word,
            self.spec_low(),
            self.spec_width(),
            v,
            other.spec_low(),
            other.spec_width(),
        );
    }

    /// The masks of two fields that share no bit position have no bit in
    /// common.
    pub proof fn lemma_masks_apart(self, other: FieldRange)
        requires
            self.wf(),
            other.wf(),
            self.disjoint(other),
        ensures
            self.spec_mask() <= usize::MAX,
            other.spec_mask() <= usize::MAX,
            (self.spec_mask() as usize) & (other.spec_mask() as usize) == 0,
    {
        lemma_masks_disjoint(
            self.spec_low(),
            self.spec_width(),
            other.spec_low(),
            other.spec_width(),
        );
    }

    /// In a word whose bits below the most significant `width` are zero, the
    /// number at that end is below two to the `width`.
    pub proof fn lemma_high_payload(self, bits: usize)
        requires
            self.wf(),
        ensures
            bits as nat / pow2((PTR_WIDTH - self.spec_width()) as nat) < pow2(self.spec_width()),
    {
        let unused = (PTR_WIDTH - self.spec_width()) as nat;
        lemma_max_word();
        lemma_pow2_adds(unused, self.spec_width());
        lemma_pow2_pos(unused);
        vstd::arithmetic::div_mod::lemma_div_by_multiple_is_strongly_ordered(
            bits as int,
            pow2(PTR_WIDTH as nat) as int,
            pow2(self.spec_width()) as int,
            pow2(unused) as int,
        );
        vstd::arithmetic::div_mod::lemma_div_multiples_vanish(
            pow2(self.spec_width()) as int,
            pow2(unused) as int,
        );
    }
}

/// The canonical pattern of a number below two to the `width` is canonical,
/// fits a word, and spells that number.
pub proof fn lemma_bits_of_payload(payload: nat, width: nat, side: Side)
    requires
        width <= PTR_WIDTH,
        payload < pow2(width),
    ensures
        bits_of(payload, width, side) <= usize::MAX,
        canonical(bits_of(payload, width, side) as usize, width, side),
        payload_of(bits_of(payload, width, side) as usize, width, side) == payload,
{
    let unused = (PTR_WIDTH - width) as nat;
    lemma_field_of_shifted(payload, unused, width);
    lemma_pow2_pos(unused);
    lemma_pow2_pos(width);
    lemma_max_word();
    if side == Side::High {
        vstd::arithmetic::div_mod::lemma_mod_multiples_basic(payload as int, pow2(unused) as int);
        vstd::arithmetic::div_mod::lemma_div_by_multiple(payload as int, pow2(unused) as int);
    } else {
        if width < PTR_WIDTH {
            vstd::arithmetic::power2::lemma_pow2_strictly_increases(width, PTR_WIDTH as nat);
        }
    }
}

/// A canonical pattern is the canonical pattern of the number it spells, and
/// that number is below two to the `width`.
pub proof fn lemma_payload_of_bits(bits: usize, width: nat, side: Side)
    requires
        width <= PTR_WIDTH,
        canonical(bits, width, side),
    ensures
        payload_of(bits, width, side) < pow2(width),
        bits_of(payload_of(bits, width, side), width, side) == bits,
{
    let unused = (PTR_WIDTH - width) as nat;
    lemma_pow2_pos(unused);
    if side == Side::High {
        let r = FieldRange { before: 0, after: unused as u32 };
        r.lemma_high_payload(bits);
        vstd::arithmetic::div_mod::lemma_fundamental_div_mod(bits as int, pow2(unused) as int);
        assert(pow2(unused) * (bits as nat / pow2(unused)) == (bits as nat / pow2(unused)) * pow2(
            unused,
        )) by (nonlinear_arith);
    }
}

} // verus!
