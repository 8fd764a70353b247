//! The machine word as a row of binary digits: the arithmetic model of a
//! field inside a word, the masks that select one, and the laws that relate
//! masking and shifting to that model.

use vstd::prelude::*;
use vstd::arithmetic::power2::pow2;
use vstd::arithmetic::power2::lemma_pow2_adds;
use vstd::arithmetic::power2::lemma_pow2_pos;
use vstd::arithmetic::power2::lemma_pow2_strictly_increases;
use vstd::arithmetic::power2::lemma2_to64;
use vstd::arithmetic::power2::lemma2_to64_rest;
use vstd::arithmetic::div_mod::lemma_small_mod;
use vstd::arithmetic::div_mod::lemma_basic_div;
use vstd::bits::lemma_usize_shr_is_div;
use vstd::bits::lemma_usize_shl_is_mul;
use vstd::bits::lemma_usize_low_bits_mask_is_mod;
use vstd::bits::low_bits_mask;

verus! {

/// Width of a machine word, in bits.
pub const PTR_WIDTH: u32 = usize::BITS;

/// The number held by the `width` bits of `word` that start `low` bits above
/// the least significant one.
pub open spec fn field_value(word: usize, low: nat, width: nat) -> nat {
    (word as nat / pow2(low)) % pow2(width)
}

/// The number whose binary digits are one exactly at the positions
/// `low <= i < high`.
pub open spec fn range_mask_spec(low: nat, high: nat) -> nat {
    if low < high {
        (pow2(high) - pow2(low)) as nat
    } else {
        0
    }
}

/// `word` with the `width` bits that start at `low` replaced by the number
/// `v`, every other bit kept.
pub open spec fn with_field(word: usize, low: nat, width: nat, v: nat) -> nat {
    (word - field_value(word, low, width) * pow2(low) + v * pow2(low)) as nat
}

/// Whether the bits `low1 .. low1 + width1` and `low2 .. low2 + width2` have
/// no position in common.
pub open spec fn fields_disjoint(low1: nat, width1: nat, low2: nat, width2: nat) -> bool {
    low1 + width1 <= low2 || low2 + width2 <= low1
}

/// The smaller of two numbers.
pub open spec fn spec_min(a: int, b: int) -> int {
    if b < a {
        b
    } else {
        a
    }
}

/// The larger of two numbers.
pub open spec fn spec_max(a: int, b: int) -> int {
    if a > b {
        a
    } else {
        b
    }
}

/// The smaller of two cursor positions: the one that leaves less room.
pub fn const_min(a: u32, b: u32) -> (m: u32)
    ensures
        m == spec_min(a as int, b as int),
{
    if b < a {
        b
    } else {
        a
    }
}

/// The larger of two widths.
pub fn const_max(x: u32, y: u32) -> (m: u32)
    ensures
        m == spec_max(x as int, y as int),
{
    if x > y {
        x
    } else {
        y
    }
}

/// The mask of a field that leaves `before` high bits and `after` low bits
/// unused. A field without bits has the empty mask, whatever the two counts.
pub fn const_mask(before: u32, after: u32) -> (mask: usize)
    ensures
        before + after <= PTR_WIDTH ==> mask == range_mask_spec(
            after as nat,
            (PTR_WIDTH - before) as nat,
        ),
        before + after >= PTR_WIDTH ==> mask == 0,
{
    if before >= PTR_WIDTH || after >= PTR_WIDTH - before {
        0
    } else {
        let not_before = usize::MAX >> before;
        let not_after = usize::MAX << after;
        proof {
            lemma_all_ones();
            lemma_closed_mask(before, after);
        }
        not_before & not_after
    }
}

/// The lower of two bit positions, or the word width where both lie past
/// the word.
pub open spec fn lower_bound(a: u32, b: u32) -> u32 {
    let least = if b < a {
        b
    } else {
        a
    };
    if least < usize::BITS {
        least
    } else {
        usize::BITS
    }
}

/// The higher of two bit positions, or the word width where it lies past
/// the word.
pub open spec fn upper_bound(a: u32, b: u32) -> u32 {
    let most = if a > b {
        a
    } else {
        b
    };
    if most < usize::BITS {
        most
    } else {
        usize::BITS
    }
}

/// The mask of the bits between the positions `low` and `high` of a word;
/// positions past the word width are dropped, and the two bounds may come
/// in either order.
pub fn range_mask(low: u32, high: u32) -> (mask: usize)
    requires
        low < 128,
        high < 128,
    ensures
        mask == range_mask_spec(lower_bound(low, high) as nat, upper_bound(low, high) as nat),
{
    let wide: u128 = (u128::MAX << low) ^ (u128::MAX << high);
    let mask = wide as usize;
    proof {
        let lo = lower_bound(low, high);
        let hi = upper_bound(low, high);
        let all: u128 = u128::MAX;
        assert(all == !0u128) by (bit_vector)
            requires
                all == 0xffff_ffff_ffff_ffff_ffff_ffff_ffff_ffffu128,
        ;
        if lo < hi {
            let before = (usize::BITS - hi) as u32;
            assert(mask == (!0usize >> before) & (!0usize << lo)) by (bit_vector)
                requires
                    mask == (((!0u128 << low) ^ (!0u128 << high)) as usize),
                    low < 128,
                    high < 128,
                    lo == lower_bound(low, high),
                    hi == upper_bound(low, high),
                    lo < hi,
                    before == usize::BITS - hi,
            ;
            lemma_closed_mask(before, lo);
        } else {
            assert(mask == 0) by (bit_vector)
                requires
                    mask == (((!0u128 << low) ^ (!0u128 << high)) as usize),
                    low < 128,
                    high < 128,
                    lower_bound(low, high) >= upper_bound(low, high),
            ;
        }
    }
    mask
}

/// One less than a multiple of `d`, divided by `d`, is one less than the
/// factor.
proof fn lemma_div_pow2_minus_one(q: nat, d: nat)
    by (nonlinear_arith)
    requires
        q >= 1,
        d >= 1,
    ensures
        ((q * d - 1) as nat) / d == q - 1,
{
}

/// The largest word is one less than two to the word width.
pub proof fn lemma_max_word()
    ensures
        usize::MAX as nat == pow2(usize::BITS as nat) - 1,
{
    lemma2_to64();
    lemma2_to64_rest();
}

/// The complement of zero is the largest word.
pub proof fn lemma_all_ones()
    ensures
        !0usize == usize::MAX,
{
    let top: usize = usize::MAX;
    assert(top <= !0usize) by (bit_vector);
}

/// Shifting the all-ones word right by `s` leaves the low `BITS - s` ones.
proof fn lemma_ones_shr(s: u32)
    requires
        s <= usize::BITS,
    ensures
        (!0usize >> s) as nat == pow2((usize::BITS - s) as nat) - 1,
{
    lemma_all_ones();
    lemma_max_word();
    if s < usize::BITS {
        lemma_usize_shr_is_div(usize::MAX, s as usize);
        lemma_pow2_adds((usize::BITS - s) as nat, s as nat);
        lemma_pow2_pos((usize::BITS - s) as nat);
        lemma_pow2_pos(s as nat);
        lemma_div_pow2_minus_one(pow2((usize::BITS - s) as nat), pow2(s as nat));
    } else {
        assert(!0usize >> s == 0) by (bit_vector)
            requires
                s == usize::BITS,
        ;
        lemma2_to64();
    }
}

/// One shifted left by `s` is two to the `s`.
proof fn lemma_one_shl(s: u32)
    requires
        s < usize::BITS,
    ensures
        (1usize << s) as nat == pow2(s as nat),
{
    lemma_max_word();
    lemma_pow2_strictly_increases(s as nat, usize::BITS as nat);
    lemma_usize_shl_is_mul(1usize, s as usize);
}

/// The mask built from two shifts is the mask of the model.
proof fn lemma_closed_mask(before: u32, after: u32)
    requires
        before + after < usize::BITS,
    ensures
        ((!0usize >> before) & (!0usize << after)) as nat == range_mask_spec(
            after as nat,
            (usize::BITS - before) as nat,
        ),
{
    let m = (!0usize >> before) & (!0usize << after);
    let hi = !0usize >> before;
    let one = 1usize << after;
    assert(m == hi - (one - 1)) by (bit_vector)
        requires
            before + after < usize::BITS,
            m == (!0usize >> before) & (!0usize << after),
            hi == !0usize >> before,
            one == 1usize << after,
    ;
    lemma_ones_shr(before);
    lemma_one_shl(after);
    lemma_pow2_strictly_increases(after as nat, (usize::BITS - before) as nat);
}

/// A number below two to the `n`, multiplied by two to the `low`, is below
/// two to the `low + n`.
proof fn lemma_shifted_bound(v: nat, low: nat, n: nat)
    requires
        v < pow2(n),
    ensures
        v * pow2(low) <= pow2(low + n) - pow2(low),
        v * pow2(low) < pow2(low + n),
{
    lemma_pow2_adds(low, n);
    lemma_pow2_pos(low);
    assert(v * pow2(low) <= (pow2(n) - 1) * pow2(low)) by (nonlinear_arith)
        requires
            v <= pow2(n) - 1,
            pow2(low) > 0,
    ;
    assert((pow2(n) - 1) * pow2(low) == pow2(n) * pow2(low) - pow2(low)) by (nonlinear_arith);
    assert(pow2(n) * pow2(low) == pow2(low) * pow2(n)) by (nonlinear_arith);
}

/// Two to the `k` fits a word for every `k` up to the word width, the width
/// itself excepted.
proof fn lemma_pow2_word(k: nat)
    requires
        k <= usize::BITS,
    ensures
        pow2(k) <= usize::MAX + 1,
        k < usize::BITS ==> pow2(k) <= usize::MAX,
        pow2(k) > 0,
{
    lemma_max_word();
    lemma_pow2_pos(k);
    if k < usize::BITS {
        lemma_pow2_strictly_increases(k, usize::BITS as nat);
    }
}

/// A field's number is below two to the field's width.
pub proof fn lemma_field_bound(word: usize, low: nat, width: nat)
    ensures
        field_value(word, low, width) < pow2(width),
{
    lemma_pow2_pos(width);
    lemma_pow2_pos(low);
    vstd::arithmetic::div_mod::lemma_mod_bound(
        (word as nat / pow2(low)) as int,
        pow2(width) as int,
    );
}

/// Masking a word and shifting the field down to the least significant bit
/// yields the field's number.
pub proof fn lemma_read_low(word: usize, mask: usize, before: u32, after: u32)
    requires
        before + after < usize::BITS,
        mask == range_mask_spec(after as nat, (usize::BITS - before) as nat),
    ensures
        ((word & mask) >> after) as nat == field_value(
            word,
            after as nat,
            (usize::BITS - before - after) as nat,
        ),
{
    let n = (usize::BITS - before - after) as u32;
    let s = (before + after) as u32;
    lemma_closed_mask(before, after);
    let down = word >> after;
    let ones = !0usize >> s;
    assert((word & mask) >> after == down & ones) by (bit_vector)
        requires
            before + after < usize::BITS,
            s == before + after,
            mask == (!0usize >> before) & (!0usize << after),
            down == word >> after,
            ones == !0usize >> s,
    ;
    lemma_usize_shr_is_div(word, after as usize);
    lemma_ones_shr(s);
    lemma_pow2_word(n as nat);
    lemma_pow2_word(after as nat);
    if n < usize::BITS {
        lemma_usize_low_bits_mask_is_mod(down, n as nat);
        assert(ones == low_bits_mask(n as nat) as usize);
    } else {
        assert(down & ones == down) by (bit_vector)
            requires
                ones == !0usize >> s,
                s == 0,
        ;
        lemma_max_word();
        lemma_small_mod(down as nat, pow2(n as nat));
    }
}

/// Masking a word yields the field's number, still at the field's place.
pub proof fn lemma_read_unshifted(word: usize, mask: usize, before: u32, after: u32)
    requires
        before + after <= usize::BITS,
        mask == range_mask_spec(after as nat, (usize::BITS - before) as nat),
    ensures
        (word & mask) as nat == field_value(
            word,
            after as nat,
            (usize::BITS - before - after) as nat,
        ) * pow2(after as nat),
{
    let n = (usize::BITS - before - after) as nat;
    if before + after < usize::BITS {
        lemma_closed_mask(before, after);
        lemma_read_low(word, mask, before, after);
        let kept = word & mask;
        let down = kept >> after;
        assert(kept == down << after) by (bit_vector)
            requires
                before + after < usize::BITS,
                mask == (!0usize >> before) & (!0usize << after),
                kept == word & mask,
                down == kept >> after,
        ;
        lemma_field_bound(word, after as nat, n);
        lemma_shifted_bound(down as nat, after as nat, n);
        lemma_pow2_word(after as nat + n);
        lemma_usize_shl_is_mul(down, after as usize);
    } else {
        assert(word & mask == 0) by (bit_vector)
            requires
                mask == 0,
        ;
        lemma2_to64();
        assert(pow2(0) == 1);
        assert(field_value(word, after as nat, 0) == 0);
    }
}

/// Masking a word and shifting the field up to the most significant bit
/// yields the field's number times two to the number of bits below it.
pub proof fn lemma_read_high(word: usize, mask: usize, before: u32, after: u32)
    requires
        before + after < usize::BITS,
        mask == range_mask_spec(after as nat, (usize::BITS - before) as nat),
    ensures
        ((word & mask) << before) as nat == field_value(
            word,
            after as nat,
            (usize::BITS - before - after) as nat,
        ) * pow2((before + after) as nat),
{
    let n = (usize::BITS - before - after) as nat;
    let v = field_value(word, after as nat, n);
    let kept = word & mask;
    lemma_read_unshifted(word, mask, before, after);
    lemma_field_bound(word, after as nat, n);
    lemma_shifted_bound(v, (before + after) as nat, n);
    lemma_pow2_word((before + after) as nat + n);
    lemma_pow2_adds(after as nat, before as nat);
    assert(v * pow2(after as nat) * pow2(before as nat) == v * pow2((before + after) as nat))
        by (nonlinear_arith)
        requires
            pow2(after as nat) * pow2(before as nat) == pow2((before + after) as nat),
    ;
    lemma_usize_shl_is_mul(kept, before as usize);
}

/// The mask of a field fits a word.
pub proof fn lemma_mask_fits(low: nat, high: nat)
    requires
        high <= usize::BITS,
    ensures
        range_mask_spec(low, high) <= usize::MAX,
{
    lemma_pow2_word(high);
    lemma_pow2_pos(low);
    if low < high {
        lemma_pow2_strictly_increases(low, high);
    }
}

/// A number below two to the `width`, moved up by `low` bits, is a word whose
/// field at `low` holds that number.
pub proof fn lemma_field_of_shifted(v: nat, low: nat, width: nat)
    requires
        low + width <= usize::BITS,
        v < pow2(width),
    ensures
        v * pow2(low) <= usize::MAX,
        field_value((v * pow2(low)) as usize, low, width) == v,
{
    lemma_shifted_bound(v, low, width);
    lemma_pow2_word(low + width);
    lemma_pow2_pos(low);
    vstd::arithmetic::div_mod::lemma_div_by_multiple(v as int, pow2(low) as int);
    assert(v * pow2(low) == pow2(low) * v) by (nonlinear_arith);
    lemma_small_mod(v, pow2(width));
}

/// Every field of the zero word holds zero.
pub proof fn lemma_field_of_zero(low: nat, width: nat)
    ensures
        field_value(0usize, low, width) == 0,
{
    lemma_pow2_pos(low);
    lemma_pow2_pos(width);
    lemma_basic_div(0, pow2(low) as int);
    lemma_small_mod(0, pow2(width));
}

/// A word with zeros in its `k` lowest bits has zeros in its `fewer` lowest
/// bits, for every `fewer` up to `k`.
pub proof fn lemma_low_zeros_narrow(word: usize, k: nat, fewer: nat)
    requires
        fewer <= k,
        field_value(word, 0, k) == 0,
    ensures
        field_value(word, 0, fewer) == 0,
{
    lemma2_to64();
    lemma_pow2_pos(fewer);
    lemma_pow2_pos((k - fewer) as nat);
    lemma_pow2_adds(fewer, (k - fewer) as nat);
    vstd::arithmetic::div_mod::lemma_mod_mod(
        word as int,
        pow2(fewer) as int,
        pow2((k - fewer) as nat) as int,
    );
    lemma_small_mod(0, pow2(fewer));
}

/// A field that lies among the `k` lowest bits of a word holds zero where
/// those bits are zero.
pub proof fn lemma_field_in_low_zeros(word: usize, k: nat, low: nat, width: nat)
    requires
        low + width <= k,
        field_value(word, 0, k) == 0,
    ensures
        field_value(word, low, width) == 0,
{
    let rest = (k - low - width) as nat;
    let q = word as nat / pow2(k);
    lemma2_to64();
    lemma_pow2_pos(k);
    lemma_pow2_pos(low);
    lemma_pow2_pos(width);
    lemma_pow2_adds(low, (k - low) as nat);
    lemma_pow2_adds(width, rest);
    vstd::arithmetic::div_mod::lemma_fundamental_div_mod(word as int, pow2(k) as int);
    assert(word as nat == pow2(low) * (pow2(width) * (pow2(rest) * q))) by (nonlinear_arith)
        requires
            word as nat == pow2(k) * q,
            pow2(k) == pow2(low) * pow2((k - low) as nat),
            pow2((k - low) as nat) == pow2(width) * pow2(rest),
    ;
    vstd::arithmetic::div_mod::lemma_div_multiples_vanish(
        (pow2(width) * (pow2(rest) * q)) as int,
        pow2(low) as int,
    );
    vstd::arithmetic::div_mod::lemma_mod_multiples_basic(
        (pow2(rest) * q) as int,
        pow2(width) as int,
    );
    assert(pow2(width) * (pow2(rest) * q) == (pow2(rest) * q) * pow2(width)) by (nonlinear_arith);
}

/// A field without bits holds zero.
pub proof fn lemma_field_empty(word: usize, low: nat)
    ensures
        field_value(word, low, 0) == 0,
{
    lemma2_to64();
}

/// Clearing a field and setting bits that lie inside it replaces the field's
/// number and keeps every other bit.
pub proof fn lemma_write(word: usize, mask: usize, before: u32, after: u32, bits: usize, v: nat)
    requires
        before + after <= usize::BITS,
        mask == range_mask_spec(after as nat, (usize::BITS - before) as nat),
        v < pow2((usize::BITS - before - after) as nat),
        bits == v * pow2(after as nat),
    ensures
        ((word & !mask) | bits) as nat == with_field(
            word,
            after as nat,
            (usize::BITS - before - after) as nat,
            v,
        ),
        ((word & !mask) | bits) & mask == bits,
        bits & !mask == 0,
{
    let n = (usize::BITS - before - after) as nat;
    lemma_pow2_word(after as nat);
    lemma_read_unshifted(bits, mask, before, after);
    lemma_field_of_shifted(v, after as nat, n);
    assert(bits & !mask == 0) by (bit_vector)
        requires
            bits & mask == bits,
    ;
    assert((word & !mask) | bits == word - (word & mask) + bits) by (bit_vector)
        requires
            bits & !mask == 0,
    ;
    assert(((word & !mask) | bits) & mask == bits) by (bit_vector)
        requires
            bits & !mask == 0,
    ;
    lemma_read_unshifted(word, mask, before, after);
}

/// What was written to a field is what the field then holds: the word made
/// by `with_field` fits a machine word, and its field has the number `v`,
/// whatever the word held before.
pub proof fn lemma_field_of_with_field(word: usize, low: nat, width: nat, v: nat)
    requires
        low + width <= usize::BITS,
        v < pow2(width),
    ensures
        with_field(word, low, width, v) <= usize::MAX,
        field_value(with_field(word, low, width, v) as usize, low, width) == v,
{
    let before = (usize::BITS - low - width) as u32;
    let after = low as u32;
    lemma_mask_fits(low, low + width);
    let mask = range_mask_spec(low, low + width) as usize;
    lemma_shifted_bound(v, low, width);
    lemma_pow2_word(low + width);
    let bits = (v * pow2(low)) as usize;
    let next = (word & !mask) | bits;
    lemma_write(word, mask, before, after, bits, v);
    lemma_read_unshifted(next, mask, before, after);
    lemma_pow2_pos(low);
    assert(field_value(next, low, width) == v) by (nonlinear_arith)
        requires
            field_value(next, low, width) * pow2(low) == v * pow2(low),
            pow2(low) > 0,
    ;
}

/// The masks of two fields without a common position have no common bit.
pub proof fn lemma_masks_disjoint(low1: nat, width1: nat, low2: nat, width2: nat)
    requires
        low1 + width1 <= usize::BITS,
        low2 + width2 <= usize::BITS,
        fields_disjoint(low1, width1, low2, width2),
    ensures
        range_mask_spec(low1, low1 + width1) <= usize::MAX,
        range_mask_spec(low2, low2 + width2) <= usize::MAX,
        (range_mask_spec(low1, low1 + width1) as usize) & (range_mask_spec(
            low2,
            low2 + width2,
        ) as usize) == 0,
{
    lemma_mask_fits(low1, low1 + width1);
    lemma_mask_fits(low2, low2 + width2);
    let m1 = range_mask_spec(low1, low1 + width1) as usize;
    let m2 = range_mask_spec(low2, low2 + width2) as usize;
    if width1 == 0 || width2 == 0 {
        assert(m1 & m2 == 0) by (bit_vector)
            requires
                m1 == 0 || m2 == 0,
        ;
    } else {
        let a1 = low1 as u32;
        let b1 = (usize::BITS - low1 - width1) as u32;
        let a2 = low2 as u32;
        let b2 = (usize::BITS - low2 - width2) as u32;
        lemma_closed_mask(b1, a1);
        lemma_closed_mask(b2, a2);
        if low1 + width1 <= low2 {
            assert(m1 & m2 == 0) by (bit_vector)
                requires
                    m1 == (!0usize >> b1) & (!0usize << a1),
                    m2 == (!0usize >> b2) & (!0usize << a2),
                    usize::BITS - b1 <= a2,
                    b1 <= usize::BITS,
            ;
        } else {
            assert(m1 & m2 == 0) by (bit_vector)
                requires
                    m1 == (!0usize >> b1) & (!0usize << a1),
                    m2 == (!0usize >> b2) & (!0usize << a2),
                    usize::BITS - b2 <= a1,
                    b2 <= usize::BITS,
            ;
        }
    }
}

/// Writing to one field leaves every field that shares no position with it
/// as it was.
pub proof fn lemma_with_field_frame(
    word: usize,
    low: nat,
    width: nat,
    v: nat,
    low2: nat,
    width2: nat,
)
    requires
        low + width <= usize::BITS,
        v < pow2(width),
        low2 + width2 <= usize::BITS,
        fields_disjoint(low, width, low2, width2),
    ensures
        with_field(word, low, width, v) <= usize::MAX,
        field_value(with_field(word, low, width, v) as usize, low2, width2) == field_value(
            word,
            low2,
            width2,
        ),
{
    let before = (usize::BITS - low - width) as u32;
    let after = low as u32;
    let before2 = (usize::BITS - low2 - width2) as u32;
    let after2 = low2 as u32;
    lemma_masks_disjoint(low, width, low2, width2);
    let mask = range_mask_spec(low, low + width) as usize;
    let mask2 = range_mask_spec(low2, low2 + width2) as usize;
    lemma_shifted_bound(v, low, width);
    lemma_pow2_word(low + width);
    let bits = (v * pow2(low)) as usize;
    let next = (word & !mask) | bits;
    lemma_write(word, mask, before, after, bits, v);
    assert(next & mask2 == word & mask2) by (bit_vector)
        requires
            next == (word & !mask) | bits,
            bits & !mask == 0,
            mask & mask2 == 0,
    ;
    lemma_read_unshifted(next, mask2, before2, after2);
    lemma_read_unshifted(word, mask2, before2, after2);
    lemma_pow2_pos(low2);
    assert(field_value(next, low2, width2) == field_value(word, low2, width2))
        by (nonlinear_arith)
        requires
            field_value(next, low2, width2) * pow2(low2) == field_value(word, low2, width2)
                * pow2(low2),
            pow2(low2) > 0,
    ;
}

} // verus!
