//! The layout compiler: from a list of field descriptors, or a list of
//! variants, to the bit range of each field, and the stores and loads that go
//! by those ranges.

use vstd::prelude::*;
use vstd::arithmetic::power2::pow2;
use vstd::arithmetic::power2::lemma_pow2_unfold;
use vstd::arithmetic::power2::lemma_pow2_strictly_increases;
use vstd::arithmetic::power2::lemma2_to64;
use crate::word::PTR_WIDTH;
use crate::word::lemma_max_word;
use crate::range::FieldRange;
use crate::range::Side;
use crate::range::canonical;
use crate::range::payload_of;
use crate::range::bits_of;
use crate::range::lemma_payload_of_bits;
use crate::word::lemma_with_field_frame;
use crate::word::lemma_masks_disjoint;
use crate::word::const_min;
use vstd::arithmetic::power2::lemma2_to64_rest;

verus! {

/// What the layout needs to know of a field's type.
#[derive(Clone, Copy, PartialEq, Eq, Debug, Structural)]
pub struct FieldDescriptor {
    /// Number of bits of a value.
    pub width: u32,
    /// The end of a word that a value's bits occupy.
    pub side: Side,
    /// Whether the pattern of all zeros is a value.
    pub nullable: bool,
}

/// Why a layout could not be made.
#[derive(Clone, Copy, PartialEq, Eq, Debug, Structural)]
pub enum LayoutError {
    /// The field with this index is wider than the bits that are left.
    WidthOverflow { field: usize },
    /// An enum without variants has no discriminant.
    NoVariants,
    /// The discriminant would need more than 32 bits.
    TooManyVariants,
    /// The discriminant is wider than the bits that the variants leave.
    DiscriminantOverflow,
    /// The variant with this index has named fields.
    StructVariant { variant: usize },
    /// The variant with this index has a number of fields other than one.
    MultiFieldVariant { variant: usize },
    /// Unions have no layout.
    UnionUnsupported,
}

impl LayoutError {
    /// The error in words.
    pub open spec fn spec_message(self) -> &'static str {
        match self {
            LayoutError::WidthOverflow { .. } => "field is wider than the bits that are left",
            LayoutError::NoVariants => "enums without variants are unsupported",
            LayoutError::TooManyVariants => {
                "Too many variants! At most 2^32 - 1 variants are supported"
            },
            LayoutError::DiscriminantOverflow => "no bits are left for the discriminant",
            LayoutError::StructVariant { .. } => "struct-style enum variants unsupported",
            LayoutError::MultiFieldVariant { .. } => {
                "multiple fields in enum variants are unsupported"
            },
            LayoutError::UnionUnsupported => "union types are unsupported",
        }
    }

    /// The error in words.
    pub fn message(&self) -> (text: &'static str)
        ensures
            text == self.spec_message(),
    {
        match self {
            LayoutError::WidthOverflow { .. } => "field is wider than the bits that are left",
            LayoutError::NoVariants => "enums without variants are unsupported",
            LayoutError::TooManyVariants => {
                "Too many variants! At most 2^32 - 1 variants are supported"
            },
            LayoutError::DiscriminantOverflow => "no bits are left for the discriminant",
            LayoutError::StructVariant { .. } => "struct-style enum variants unsupported",
            LayoutError::MultiFieldVariant { .. } => {
                "multiple fields in enum variants are unsupported"
            },
            LayoutError::UnionUnsupported => "union types are unsupported",
        }
    }

    /// The index of the field or variant that the error is about, if it is
    /// about one.
    pub fn position(&self) -> (index: Option<usize>)
        ensures
            index == match *self {
                LayoutError::WidthOverflow { field } => Some(field),
                LayoutError::StructVariant { variant } => Some(variant),
                LayoutError::MultiFieldVariant { variant } => Some(variant),
                _ => None,
            },
    {
        match self {
            LayoutError::WidthOverflow { field } => Some(*field),
            LayoutError::StructVariant { variant } => Some(*variant),
            LayoutError::MultiFieldVariant { variant } => Some(*variant),
            _ => None,
        }
    }
}

impl FieldDescriptor {
    /// A value fits a word.
    pub open spec fn wf(self) -> bool {
        self.width <= PTR_WIDTH
    }

    /// The descriptor of a type with the given width, or the error for a
    /// type that is wider than a word.
    pub fn new(width: u32, side: Side, nullable: bool) -> (made: Result<
        FieldDescriptor,
        LayoutError,
    >)
        ensures
            width <= PTR_WIDTH ==> made == Ok::<FieldDescriptor, LayoutError>(
                FieldDescriptor { width, side, nullable },
            ),
            width > PTR_WIDTH ==> made == Err::<FieldDescriptor, LayoutError>(
                LayoutError::WidthOverflow { field: 0 },
            ),
    {
        if width > PTR_WIDTH {
            Err(LayoutError::WidthOverflow { field: 0 })
        } else {
            Ok(FieldDescriptor { width, side, nullable })
        }
    }

    /// The descriptor of a small unsigned integer of `width` bits.
    pub fn integer(width: u32) -> (made: Result<FieldDescriptor, LayoutError>)
        ensures
            made == Self::spec_new(width, Side::Low, true),
    {
        Self::new(width, Side::Low, true)
    }

    /// The descriptor of a pointer to a type aligned to two to the
    /// `free_bits`: the low `free_bits` bits of such a pointer are zero.
    pub fn pointer(free_bits: u32) -> (made: Result<FieldDescriptor, LayoutError>)
        ensures
            free_bits <= PTR_WIDTH ==> made == Self::spec_new(
                (PTR_WIDTH - free_bits) as u32,
                Side::High,
                false,
            ),
            free_bits > PTR_WIDTH ==> made == Err::<FieldDescriptor, LayoutError>(
                LayoutError::WidthOverflow { field: 0 },
            ),
    {
        if free_bits > PTR_WIDTH {
            Err(LayoutError::WidthOverflow { field: 0 })
        } else {
            Self::new(PTR_WIDTH - free_bits, Side::High, false)
        }
    }

    /// The descriptor of the optional type of this type: the same bits,
    /// with the pattern of all zeros for the absent value. Only a type
    /// without that pattern has an optional type.
    pub fn optional(&self) -> (made: Option<FieldDescriptor>)
        ensures
            !self.nullable ==> made == Some(
                FieldDescriptor { width: self.width, side: self.side, nullable: true },
            ),
            self.nullable ==> made.is_none(),
    {
        if self.nullable {
            None
        } else {
            Some(FieldDescriptor { width: self.width, side: self.side, nullable: true })
        }
    }

    /// What `new` returns.
    pub open spec fn spec_new(width: u32, side: Side, nullable: bool) -> Result<
        FieldDescriptor,
        LayoutError,
    > {
        if width <= PTR_WIDTH {
            Ok(FieldDescriptor { width, side, nullable })
        } else {
            Err(LayoutError::WidthOverflow { field: 0 })
        }
    }
}

/// The range of a field of `width` bits that starts at `cursor`, counted
/// from the least significant bit, and the cursor after it.
pub open spec fn spec_allocate(cursor: u32, width: u32) -> (FieldRange, u32) {
    (
        FieldRange { before: (PTR_WIDTH - cursor) as u32, after: (cursor - width) as u32 },
        (cursor - width) as u32,
    )
}

/// Gives the next `width` bits below `cursor` to a field: its range and the
/// cursor after it, or nothing where fewer than `width` bits are left.
pub fn allocate(cursor: u32, width: u32) -> (got: Option<(FieldRange, u32)>)
    requires
        cursor <= PTR_WIDTH,
    ensures
        width <= cursor ==> got == Some(spec_allocate(cursor, width)),
        width > cursor ==> got.is_none(),
        got matches Some((range, next)) ==> range.wf() && range.spec_width() == width
            && range.spec_low() == next && next <= cursor,
{
    if width > cursor {
        None
    } else {
        Some((FieldRange { before: PTR_WIDTH - cursor, after: cursor - width }, cursor - width))
    }
}

/// Whether `bits` is the least number of bits that tell `count` variants
/// apart: two to the `bits` is at least `count`, and no smaller power is.
pub open spec fn is_discriminant_width(count: nat, bits: nat) -> bool {
    &&& count <= pow2(bits)
    &&& bits > 0 ==> pow2((bits - 1) as nat) < count
}

/// The least number of bits that tell `count` variants apart.
pub open spec fn spec_discriminant_bits(count: nat) -> nat {
    choose|bits: nat| is_discriminant_width(count, bits)
}

/// Only one number of bits is the least that tells `count` variants apart.
pub proof fn lemma_discriminant_width_unique(count: nat, a: nat, b: nat)
    requires
        is_discriminant_width(count, a),
        is_discriminant_width(count, b),
    ensures
        a == b,
{
    if a < b {
        if a < b - 1 {
            lemma_pow2_strictly_increases(a, (b - 1) as nat);
        }
    } else if b < a {
        if b < a - 1 {
            lemma_pow2_strictly_increases(b, (a - 1) as nat);
        }
    }
}

/// The least number of bits that tell `count` variants apart.
pub fn discriminant_bits(count: usize) -> (bits: u32)
    ensures
        is_discriminant_width(count as nat, bits as nat),
        bits == spec_discriminant_bits(count as nat),
        bits <= PTR_WIDTH,
{
    let bits = discriminant_bits_search(count);
    proof {
        lemma_discriminant_width_unique(
            count as nat,
            bits as nat,
            spec_discriminant_bits(count as nat),
        );
    }
    bits
}

/// Doubles a power of two until it reaches `count`, and counts the steps.
fn discriminant_bits_search(count: usize) -> (bits: u32)
    ensures
        is_discriminant_width(count as nat, bits as nat),
        bits <= PTR_WIDTH,
{
    let mut bits: u32 = 0;
    let mut reach: usize = 1;
    proof {
        lemma2_to64();
    }
    while reach < count
        invariant
            reach == pow2(bits as nat),
            bits < PTR_WIDTH,
            bits > 0 ==> pow2((bits - 1) as nat) < count,
        decreases PTR_WIDTH - bits,
    {
        proof {
            lemma_pow2_unfold((bits + 1) as nat);
            lemma_max_word();
        }
        if reach > usize::MAX / 2 {
            proof {
                if bits + 1 < PTR_WIDTH {
                    lemma_pow2_strictly_increases((bits + 1) as nat, PTR_WIDTH as nat);
                }
            }
            return PTR_WIDTH;
        }
        reach = reach * 2;
        bits = bits + 1;
        proof {
            if bits >= PTR_WIDTH {
                lemma_pow2_strictly_increases(PTR_WIDTH as nat, bits as nat);
            }
        }
    }
    bits
}

/// The fields of a struct or of one variant of an enum, in their order.
#[derive(Clone, Debug)]
pub enum Fields {
    /// Fields with names.
    Named(Vec<FieldDescriptor>),
    /// Fields known by their position.
    Unnamed(Vec<FieldDescriptor>),
    /// No fields.
    Unit,
}

impl Fields {
    /// The descriptors in their order.
    pub open spec fn view(&self) -> Seq<FieldDescriptor> {
        match self {
            Fields::Named(list) => list@,
            Fields::Unnamed(list) => list@,
            Fields::Unit => Seq::empty(),
        }
    }

    /// Number of fields.
    pub fn len(&self) -> (n: usize)
        ensures
            n == self@.len(),
    {
        match self {
            Fields::Named(list) => list.len(),
            Fields::Unnamed(list) => list.len(),
            Fields::Unit => 0,
        }
    }

    /// The descriptor of the field with the given index.
    pub fn get(&self, index: usize) -> (field: FieldDescriptor)
        requires
            index < self@.len(),
        ensures
            field == self@[index as int],
    {
        match self {
            Fields::Named(list) => list[index],
            Fields::Unnamed(list) => list[index],
            Fields::Unit => FieldDescriptor { width: 0, side: Side::Low, nullable: true },
        }
    }
}

/// The place of one field and the side of its type.
#[derive(Clone, Copy, PartialEq, Eq, Debug, Structural)]
pub struct FieldSlot {
    /// The bits given to the field.
    pub range: FieldRange,
    /// The end of a word that the field's canonical patterns occupy.
    pub side: Side,
    /// Whether the pattern of all zeros is a value of the field.
    pub nullable: bool,
}

impl FieldSlot {
    /// The field's bits as a canonical pattern of its type.
    pub fn load(&self, word: usize) -> (bits: usize)
        requires
            self.range.wf(),
        ensures
            bits == bits_of(self.range.get(word), self.range.spec_width(), self.side),
            canonical(bits, self.range.spec_width(), self.side),
            payload_of(bits, self.range.spec_width(), self.side) == self.range.get(word),
    {
        self.range.read(word, self.side)
    }

    /// `word` with the field holding the value whose canonical pattern is
    /// `bits`.
    pub fn store(&self, word: usize, bits: usize) -> (out: usize)
        requires
            self.range.wf(),
            canonical(bits, self.range.spec_width(), self.side),
        ensures
            out == self.range.put(word, payload_of(bits, self.range.spec_width(), self.side)),
            self.range.get(out) == payload_of(bits, self.range.spec_width(), self.side),
    {
        self.range.write(word, self.side, bits)
    }
}

/// Sum of the widths of the fields.
pub open spec fn total_width(fields: Seq<FieldDescriptor>) -> nat
    decreases fields.len(),
{
    if fields.len() == 0 {
        0
    } else {
        total_width(fields.drop_last()) + fields.last().width as nat
    }
}

/// The slot of the field with index `i` where the fields are laid out one
/// after the other from the cursor `start` downwards.
pub open spec fn slot_at(fields: Seq<FieldDescriptor>, start: nat, i: int) -> FieldSlot {
    FieldSlot {
        range: FieldRange {
            before: (PTR_WIDTH - start + total_width(fields.take(i))) as u32,
            after: (start - total_width(fields.take(i + 1))) as u32,
        },
        side: fields[i].side,
        nullable: fields[i].nullable,
    }
}

/// Whether the field with index `i` is the first that does not fit below the
/// cursor `start`.
pub open spec fn first_overflow(fields: Seq<FieldDescriptor>, start: nat, i: int) -> bool {
    &&& 0 <= i < fields.len()
    &&& total_width(fields.take(i)) <= start
    &&& total_width(fields.take(i + 1)) > start
}

/// The widths of the first `i + 1` fields are those of the first `i` and of
/// the field with index `i`.
pub proof fn lemma_total_width_step(fields: Seq<FieldDescriptor>, i: int)
    requires
        0 <= i < fields.len(),
    ensures
        total_width(fields.take(i + 1)) == total_width(fields.take(i)) + fields[i].width,
{
    assert(fields.take(i + 1).drop_last() =~= fields.take(i));
}

/// The widths of fewer fields sum to no more than those of more.
pub proof fn lemma_total_width_grows(fields: Seq<FieldDescriptor>, i: int, j: int)
    requires
        0 <= i <= j <= fields.len(),
    ensures
        total_width(fields.take(i)) <= total_width(fields.take(j)),
    decreases j - i,
{
    if i < j {
        lemma_total_width_step(fields, j - 1);
        lemma_total_width_grows(fields, i, j - 1);
    }
}

/// Fields that are laid out one after the other never overlap: the slots
/// of two different fields share no bit position, and their masks have no
/// bit in common.
pub proof fn lemma_fields_disjoint(fields: Seq<FieldDescriptor>, start: nat, i: int, j: int)
    requires
        start <= PTR_WIDTH,
        total_width(fields) <= start,
        0 <= i < fields.len(),
        0 <= j < fields.len(),
        i != j,
    ensures
        slot_at(fields, start, i).range.wf(),
        slot_at(fields, start, j).range.wf(),
        slot_at(fields, start, i).range.disjoint(slot_at(fields, start, j).range),
        slot_at(fields, start, i).range.spec_mask() <= usize::MAX,
        slot_at(fields, start, j).range.spec_mask() <= usize::MAX,
        (slot_at(fields, start, i).range.spec_mask() as usize) & (slot_at(
            fields,
            start,
            j,
        ).range.spec_mask() as usize) == 0,
{
    let a = slot_at(fields, start, i).range;
    let b = slot_at(fields, start, j).range;
    assert(fields.take(fields.len() as int) =~= fields);
    lemma_total_width_step(fields, i);
    lemma_total_width_step(fields, j);
    lemma_total_width_grows(fields, i + 1, fields.len() as int);
    lemma_total_width_grows(fields, j + 1, fields.len() as int);
    if i < j {
        lemma_total_width_grows(fields, i + 1, j);
    } else {
        lemma_total_width_grows(fields, j + 1, i);
    }
    lemma_masks_disjoint(a.spec_low(), a.spec_width(), b.spec_low(), b.spec_width());
}

/// The layout of a struct: the slot of each field in the order of the
/// fields, the cursor at which the first field starts and the cursor that
/// the last field leaves.
#[derive(Clone, Debug)]
pub struct StructLayout {
    /// One slot for each field.
    pub slots: Vec<FieldSlot>,
    /// The cursor before the first field.
    pub start: u32,
    /// The cursor after the last field.
    pub next: u32,
}

impl StructLayout {
    /// Whether this is the layout that puts `fields` one after the other
    /// from the cursor `start` downwards.
    pub open spec fn is_layout_of(self, fields: Seq<FieldDescriptor>, start: nat) -> bool {
        &&& self.start == start
        &&& start <= PTR_WIDTH
        &&& total_width(fields) <= start
        &&& self.next == start - total_width(fields)
        &&& self.slots@.len() == fields.len()
        &&& forall|i: int|
            0 <= i < fields.len() ==> #[trigger] self.slots@[i] == slot_at(fields, start, i)
    }

    /// Every slot lies between the two cursors, and each field lies below
    /// the fields before it.
    pub open spec fn wf(self) -> bool {
        &&& self.next <= self.start <= PTR_WIDTH
        &&& forall|i: int|
            0 <= i < self.slots@.len() ==> {
                &&& (#[trigger] self.slots@[i]).range.wf()
                &&& self.slots@[i].range.before >= PTR_WIDTH - self.start
                &&& self.slots@[i].range.after >= self.next
            }
        &&& forall|i: int, j: int|
            0 <= i < j < self.slots@.len() ==> (#[trigger] self.slots@[j]).range.before
                + (#[trigger] self.slots@[i]).range.after >= PTR_WIDTH
    }

    /// Number of bits that the fields take together.
    pub fn width(&self) -> (w: u32)
        requires
            self.wf(),
        ensures
            w == self.start - self.next,
    {
        self.start - self.next
    }

    /// Number of fields.
    pub fn len(&self) -> (n: usize)
        ensures
            n == self.slots@.len(),
    {
        self.slots.len()
    }

    /// The canonical pattern of the field with the given index in `word`.
    pub fn load(&self, word: usize, field: usize) -> (bits: usize)
        requires
            self.wf(),
            field < self.slots@.len(),
        ensures
            bits == bits_of(
                self.slots@[field as int].range.get(word),
                self.slots@[field as int].range.spec_width(),
                self.slots@[field as int].side,
            ),
            canonical(
                bits,
                self.slots@[field as int].range.spec_width(),
                self.slots@[field as int].side,
            ),
    {
        self.slots[field].load(word)
    }

    /// `word` with the field with the given index holding the value whose
    /// canonical pattern is `bits`; every other field is as it was.
    pub fn store(&self, word: usize, field: usize, bits: usize) -> (out: usize)
        requires
            self.wf(),
            field < self.slots@.len(),
            canonical(
                bits,
                self.slots@[field as int].range.spec_width(),
                self.slots@[field as int].side,
            ),
        ensures
            out == self.slots@[field as int].range.put(
                word,
                payload_of(
                    bits,
                    self.slots@[field as int].range.spec_width(),
                    self.slots@[field as int].side,
                ),
            ),
            self.spec_load(out, field as int) == bits,
            forall|other: int|
                0 <= other < self.slots@.len() && other != field ==> self.spec_load(out, other)
                    == self.spec_load(word, other),
    {
        let slot = self.slots[field];
        let out = slot.store(word, bits);
        proof {
            let width = slot.range.spec_width();
            let v = payload_of(bits, width, slot.side);
            lemma_payload_of_bits(bits, width, slot.side);
            assert forall|other: int|
                0 <= other < self.slots@.len() && other != field implies self.spec_load(out, other)
                == self.spec_load(word, other) by {
                let o = self.slots@[other];
                self.lemma_slots_disjoint(field as int, other);
                lemma_with_field_frame(
                    word,
                    slot.range.spec_low(),
                    width,
                    v,
                    o.range.spec_low(),
                    o.range.spec_width(),
                );
            }
        }
        out
    }

    /// The word that, starting from zero, has the first `count` of the
    /// patterns stored in their fields.
    pub open spec fn spec_pack(self, patterns: Seq<usize>, count: nat) -> nat
        decreases count,
    {
        if count == 0 {
            0
        } else {
            let slot = self.slots@[count - 1];
            slot.range.put(
                self.spec_pack(patterns, (count - 1) as nat) as usize,
                payload_of(patterns[count - 1], slot.range.spec_width(), slot.side),
            )
        }
    }

    /// Whether each pattern is one that the field with its index can hold.
    pub open spec fn all_canonical(self, patterns: Seq<usize>) -> bool {
        &&& patterns.len() == self.slots@.len()
        &&& forall|i: int|
            0 <= i < patterns.len() ==> canonical(
                #[trigger] patterns[i],
                self.slots@[i].range.spec_width(),
                self.slots@[i].side,
            )
    }

    /// The word that has each pattern in the field with its index, and
    /// zeros outside of the fields.
    pub fn pack(&self, patterns: &Vec<usize>) -> (word: usize)
        requires
            self.wf(),
            self.all_canonical(patterns@),
        ensures
            word == self.spec_pack(patterns@, patterns@.len()),
            forall|i: int|
                0 <= i < patterns@.len() ==> self.spec_load(word, i) == #[trigger] patterns@[i],
    {
        let count = self.slots.len();
        let mut word: usize = 0;
        let mut index: usize = 0;
        while index < count
            invariant
                self.wf(),
                self.all_canonical(patterns@),
                count == self.slots@.len(),
                index <= count,
                word == self.spec_pack(patterns@, index as nat),
                forall|i: int|
                    0 <= i < index ==> self.spec_load(word, i) == #[trigger] patterns@[i],
            decreases count - index,
        {
            let ghost before = word;
            word = self.store(word, index, patterns[index]);
            proof {
                assert forall|i: int| 0 <= i < index + 1 implies self.spec_load(word, i)
                    == #[trigger] patterns@[i] by {
                    if i < index {
                        assert(self.spec_load(before, i) == patterns@[i]);
                    }
                }
            }
            index = index + 1;
        }
        word
    }

    /// The pattern of every field of `word`, in the order of the fields.
    pub fn unpack(&self, word: usize) -> (patterns: Vec<usize>)
        requires
            self.wf(),
        ensures
            self.all_canonical(patterns@),
            forall|i: int|
                0 <= i < patterns@.len() ==> #[trigger] patterns@[i] == self.spec_load(word, i),
    {
        let count = self.slots.len();
        let mut patterns: Vec<usize> = Vec::new();
        let mut index: usize = 0;
        while index < count
            invariant
                self.wf(),
                count == self.slots@.len(),
                index <= count,
                patterns@.len() == index,
                forall|i: int|
                    0 <= i < index ==> #[trigger] patterns@[i] == self.spec_load(word, i),
                forall|i: int|
                    0 <= i < index ==> canonical(
                        #[trigger] patterns@[i],
                        self.slots@[i].range.spec_width(),
                        self.slots@[i].side,
                    ),
            decreases count - index,
        {
            let pattern = self.load(word, index);
            patterns.push(pattern);
            index = index + 1;
        }
        patterns
    }

    /// What `load` returns.
    pub open spec fn spec_load(self, word: usize, field: int) -> nat {
        bits_of(
            self.slots@[field].range.get(word),
            self.slots@[field].range.spec_width(),
            self.slots@[field].side,
        )
    }

    /// Two different fields of a layout share no bit position, and their
    /// masks have no bit in common.
    pub proof fn lemma_slots_disjoint(self, i: int, j: int)
        requires
            self.wf(),
            0 <= i < self.slots@.len(),
            0 <= j < self.slots@.len(),
            i != j,
        ensures
            self.slots@[i].range.disjoint(self.slots@[j].range),
            self.slots@[i].range.spec_mask() <= usize::MAX,
            self.slots@[j].range.spec_mask() <= usize::MAX,
            (self.slots@[i].range.spec_mask() as usize) & (self.slots@[j].range.spec_mask()
                as usize) == 0,
    {
        let a = self.slots@[i].range;
        let b = self.slots@[j].range;
        if i < j {
            assert(self.slots@[j].range.before + self.slots@[i].range.after >= PTR_WIDTH);
        } else {
            assert(self.slots@[i].range.before + self.slots@[j].range.after >= PTR_WIDTH);
        }
        lemma_masks_disjoint(a.spec_low(), a.spec_width(), b.spec_low(), b.spec_width());
    }
}

/// Lays the fields out one after the other from the cursor `start`
/// downwards. The error names the first field that is wider than the bits
/// that are left.
pub fn struct_data(fields: &Fields, start: u32) -> (made: Result<StructLayout, LayoutError>)
    requires
        start <= PTR_WIDTH,
    ensures
        made is Ok <==> total_width(fields@) <= start,
        made matches Ok(layout) ==> layout.is_layout_of(fields@, start as nat) && layout.wf(),
        made matches Err(e) ==> e matches LayoutError::WidthOverflow { field } && first_overflow(
            fields@,
            start as nat,
            field as int,
        ),
{
    let count = fields.len();
    let mut slots: Vec<FieldSlot> = Vec::new();
    let mut cursor: u32 = start;
    let mut index: usize = 0;
    proof {
        assert(fields@.take(0) =~= Seq::<FieldDescriptor>::empty());
    }
    while index < count
        invariant
            count == fields@.len(),
            index <= count,
            start <= PTR_WIDTH,
            slots@.len() == index,
            total_width(fields@.take(index as int)) <= start,
            cursor == start - total_width(fields@.take(index as int)),
            forall|i: int|
                0 <= i < index ==> #[trigger] slots@[i] == slot_at(fields@, start as nat, i),
        decreases count - index,
    {
        let field = fields.get(index);
        proof {
            lemma_total_width_step(fields@, index as int);
        }
        match allocate(cursor, field.width) {
            None => {
                proof {
                    lemma_total_width_grows(fields@, index as int + 1, count as int);
                    assert(fields@.take(count as int) =~= fields@);
                }
                return Err(LayoutError::WidthOverflow { field: index });
            },
            Some((range, next)) => {
                slots.push(FieldSlot { range, side: field.side, nullable: field.nullable });
                cursor = next;
            },
        }
        index = index + 1;
    }
    let layout = StructLayout { slots, start, next: cursor };
    proof {
        assert(fields@.take(count as int) =~= fields@);
        lemma_layout_wf(layout, fields@, start as nat);
    }
    Ok(layout)
}

/// The layout of a list of fields keeps every slot between its cursors and
/// each field below the fields before it.
pub proof fn lemma_layout_wf(layout: StructLayout, fields: Seq<FieldDescriptor>, start: nat)
    requires
        layout.is_layout_of(fields, start),
    ensures
        layout.wf(),
{
    assert(fields.take(fields.len() as int) =~= fields);
    assert forall|i: int| 0 <= i < layout.slots@.len() implies {
        &&& (#[trigger] layout.slots@[i]).range.wf()
        &&& layout.slots@[i].range.before >= PTR_WIDTH - layout.start
        &&& layout.slots@[i].range.after >= layout.next
    } by {
        lemma_total_width_step(fields, i);
        lemma_total_width_grows(fields, i + 1, fields.len() as int);
    }
    assert forall|i: int, j: int| 0 <= i < j < layout.slots@.len() implies (
    #[trigger] layout.slots@[j]).range.before + (#[trigger] layout.slots@[i]).range.after
        >= PTR_WIDTH by {
        lemma_total_width_step(fields, i);
        lemma_total_width_step(fields, j);
        lemma_total_width_grows(fields, i + 1, j);
        lemma_total_width_grows(fields, j + 1, fields.len() as int);
    }
}

/// The width of the discriminant of an enum with `count` variants, or the
/// error for an enum without variants or with so many that their
/// discriminant needs more than 32 bits.
pub fn discriminant_for(count: usize) -> (made: Result<u32, LayoutError>)
    ensures
        count == 0 ==> made == Err::<u32, LayoutError>(LayoutError::NoVariants),
        count > pow2(32) ==> made == Err::<u32, LayoutError>(LayoutError::TooManyVariants),
        0 < count <= pow2(32) ==> made is Ok,
        made matches Ok(bits) ==> bits == spec_discriminant_bits(count as nat) && bits <= 32
            && is_discriminant_width(count as nat, bits as nat),
{
    if count == 0 {
        return Err(LayoutError::NoVariants);
    }
    let bits = discriminant_bits(count);
    proof {
        lemma2_to64();
        lemma2_to64_rest();
        if bits > 33 {
            lemma_pow2_strictly_increases(32, (bits - 1) as nat);
        } else if bits < 32 {
            lemma_pow2_strictly_increases(bits as nat, 32);
        }
    }
    if bits > 32 {
        Err(LayoutError::TooManyVariants)
    } else {
        Ok(bits)
    }
}

/// Number of bits of the payload of a variant: the width of its one field,
/// or nothing for a variant without fields.
pub open spec fn variant_width(variant: Fields) -> nat {
    if variant@.len() == 1 {
        variant@[0].width as nat
    } else {
        0
    }
}

/// Width of the widest payload among the variants.
pub open spec fn max_payload(variants: Seq<Fields>) -> nat
    decreases variants.len(),
{
    if variants.len() == 0 {
        0
    } else {
        let rest = max_payload(variants.drop_last());
        if variant_width(variants.last()) > rest {
            variant_width(variants.last())
        } else {
            rest
        }
    }
}

/// The error for a variant of a shape that has no layout, if its shape is
/// one: a variant with named fields, or with more or fewer than one field.
pub open spec fn shape_error(variant: Fields, index: usize) -> Option<LayoutError> {
    match variant {
        Fields::Named(_) => Some(LayoutError::StructVariant { variant: index }),
        Fields::Unnamed(list) => if list@.len() != 1 {
            Some(LayoutError::MultiFieldVariant { variant: index })
        } else {
            None
        },
        Fields::Unit => None,
    }
}

/// Whether every variant has a shape with a layout.
pub open spec fn shapes_ok(variants: Seq<Fields>) -> bool {
    forall|i: int|
        0 <= i < variants.len() ==> shape_error(#[trigger] variants[i], i as usize) is None
}

/// Whether the variant with index `i` is the first whose shape has no layout.
pub open spec fn first_bad_shape(variants: Seq<Fields>, i: int) -> bool {
    &&& 0 <= i < variants.len()
    &&& shape_error(variants[i], i as usize) is Some
    &&& forall|j: int| 0 <= j < i ==> shape_error(#[trigger] variants[j], j as usize) is None
}

/// Whether the variant with index `i` is the first whose payload is wider
/// than the bits below the cursor `start`.
pub open spec fn first_wide_variant(variants: Seq<Fields>, start: nat, i: int) -> bool {
    &&& 0 <= i < variants.len()
    &&& variant_width(variants[i]) > start
    &&& forall|j: int| 0 <= j < i ==> variant_width(#[trigger] variants[j]) <= start
}

/// Whether an enum with these variants has a layout below the cursor
/// `start`.
pub open spec fn enum_accepts(variants: Seq<Fields>, start: nat) -> bool {
    &&& 0 < variants.len() <= pow2(32)
    &&& shapes_ok(variants)
    &&& max_payload(variants) + spec_discriminant_bits(variants.len()) <= start
}

/// Whether `error` is the one that an enum with these variants is refused
/// with. The conditions are tried in the order of the variants of the error:
/// the number of variants, then their shapes, then the widths of their
/// payloads, then the room for the discriminant.
pub open spec fn enum_rejects(variants: Seq<Fields>, start: nat, error: LayoutError) -> bool {
    match error {
        LayoutError::NoVariants => variants.len() == 0,
        LayoutError::TooManyVariants => variants.len() > pow2(32),
        LayoutError::StructVariant { variant } => {
            &&& 0 < variants.len() <= pow2(32)
            &&& first_bad_shape(variants, variant as int)
            &&& shape_error(variants[variant as int], variant) == Some(error)
        },
        LayoutError::MultiFieldVariant { variant } => {
            &&& 0 < variants.len() <= pow2(32)
            &&& first_bad_shape(variants, variant as int)
            &&& shape_error(variants[variant as int], variant) == Some(error)
        },
        LayoutError::WidthOverflow { field } => {
            &&& 0 < variants.len() <= pow2(32)
            &&& shapes_ok(variants)
            &&& first_wide_variant(variants, start, field as int)
        },
        LayoutError::DiscriminantOverflow => {
            &&& 0 < variants.len() <= pow2(32)
            &&& shapes_ok(variants)
            &&& max_payload(variants) <= start
            &&& max_payload(variants) + spec_discriminant_bits(variants.len()) > start
        },
        LayoutError::UnionUnsupported => false,
    }
}

/// The payload slot of a variant: its one field at the cursor `start`, or
/// nothing for a variant without fields.
pub open spec fn payload_slot(variant: Fields, start: nat) -> Option<FieldSlot> {
    if variant@.len() == 1 {
        Some(
            FieldSlot {
                range: FieldRange {
                    before: (PTR_WIDTH - start) as u32,
                    after: (start - variant@[0].width) as u32,
                },
                side: variant@[0].side,
                nullable: variant@[0].nullable,
            },
        )
    } else {
        None
    }
}

/// The bits of the discriminant of an enum with these variants at the
/// cursor `start`: as many as tell the variants apart, below the widest
/// payload.
pub open spec fn discriminant_range(variants: Seq<Fields>, start: nat) -> FieldRange {
    let merged = start - max_payload(variants);
    FieldRange {
        before: (PTR_WIDTH - merged) as u32,
        after: (merged - spec_discriminant_bits(variants.len())) as u32,
    }
}

/// The discriminant lies below the payload of every variant, however the
/// widths of the payloads differ: its bits and those of a payload share no
/// position, and their masks have no bit in common.
pub proof fn lemma_discriminant_below_payloads(variants: Seq<Fields>, start: nat, i: int)
    requires
        start <= PTR_WIDTH,
        max_payload(variants) + spec_discriminant_bits(variants.len()) <= start,
        0 <= i < variants.len(),
        payload_slot(variants[i], start) is Some,
    ensures
        payload_slot(variants[i], start)->0.range.wf(),
        discriminant_range(variants, start).wf(),
        payload_slot(variants[i], start)->0.range.disjoint(discriminant_range(variants, start)),
        payload_slot(variants[i], start)->0.range.spec_mask() <= usize::MAX,
        discriminant_range(variants, start).spec_mask() <= usize::MAX,
        (payload_slot(variants[i], start)->0.range.spec_mask() as usize) & (discriminant_range(
            variants,
            start,
        ).spec_mask() as usize) == 0,
{
    let payload = payload_slot(variants[i], start)->0.range;
    let discriminant = discriminant_range(variants, start);
    lemma_max_payload_bounds(variants, i);
    lemma_masks_disjoint(
        payload.spec_low(),
        payload.spec_width(),
        discriminant.spec_low(),
        discriminant.spec_width(),
    );
}

/// The layout of an enum: every payload starts at the same cursor, and the
/// discriminant lies below the widest of them.
#[derive(Clone, Debug)]
pub struct EnumLayout {
    /// For each variant the slot of its payload, if it has one.
    pub payloads: Vec<Option<FieldSlot>>,
    /// The bits of the discriminant.
    pub discriminant: FieldRange,
    /// The cursor at which every payload starts.
    pub start: u32,
    /// The cursor after the discriminant.
    pub next: u32,
}

impl EnumLayout {
    /// Whether this is the layout of an enum with these variants at the
    /// cursor `start`.
    pub open spec fn is_layout_of(self, variants: Seq<Fields>, start: nat) -> bool {
        let merged = start - max_payload(variants);
        let bits = spec_discriminant_bits(variants.len());
        &&& self.start == start
        &&& start <= PTR_WIDTH
        &&& max_payload(variants) + bits <= start
        &&& self.next == merged - bits
        &&& self.discriminant == discriminant_range(variants, start)
        &&& self.payloads@.len() == variants.len()
        &&& forall|i: int|
            0 <= i < variants.len() ==> #[trigger] self.payloads@[i] == payload_slot(
                variants[i],
                start,
            )
    }

    /// The discriminant ends where the layout ends, every payload starts
    /// where the layout starts and lies above the discriminant, and the
    /// discriminant has a pattern for every variant.
    pub open spec fn wf(self) -> bool {
        &&& self.next <= self.start <= PTR_WIDTH
        &&& self.discriminant.wf()
        &&& self.discriminant.after == self.next
        &&& self.discriminant.before >= PTR_WIDTH - self.start
        &&& self.payloads@.len() <= pow2(self.discriminant.spec_width())
        &&& forall|i: int|
            0 <= i < self.payloads@.len() ==> (#[trigger] self.payloads@[i] matches Some(slot)
                ==> {
                &&& slot.range.wf()
                &&& slot.range.before == PTR_WIDTH - self.start
                &&& slot.range.after + self.discriminant.before >= PTR_WIDTH
            })
    }

    /// Number of bits that the payloads and the discriminant take together.
    pub fn width(&self) -> (w: u32)
        requires
            self.wf(),
        ensures
            w == self.start - self.next,
    {
        self.start - self.next
    }

    /// Number of variants.
    pub fn len(&self) -> (n: usize)
        ensures
            n == self.payloads@.len(),
    {
        self.payloads.len()
    }

    /// The canonical pattern of the payload of the given variant in `word`;
    /// zero for a variant without payload.
    pub open spec fn spec_payload(self, word: usize, variant: int) -> nat {
        match self.payloads@[variant] {
            Some(slot) => bits_of(slot.range.get(word), slot.range.spec_width(), slot.side),
            None => 0,
        }
    }

    /// Whether `bits` can be stored as the payload of the given variant.
    pub open spec fn payload_fits(self, variant: int, bits: usize) -> bool {
        match self.payloads@[variant] {
            Some(slot) => canonical(bits, slot.range.spec_width(), slot.side),
            None => bits == 0,
        }
    }

    /// The number that `word` holds as its discriminant.
    pub fn load_discriminant(&self, word: usize) -> (index: usize)
        requires
            self.wf(),
        ensures
            index == self.discriminant.get(word),
    {
        self.discriminant.read_low_bits(word)
    }

    /// The canonical pattern of the payload of the given variant in `word`.
    pub fn load_payload(&self, word: usize, variant: usize) -> (bits: usize)
        requires
            self.wf(),
            variant < self.payloads@.len(),
        ensures
            bits == self.spec_payload(word, variant as int),
            self.payload_fits(variant as int, bits),
    {
        match self.payloads[variant] {
            Some(slot) => slot.load(word),
            None => 0,
        }
    }

    /// Reads the discriminant and then the payload of the variant that it
    /// names: the index of the variant and the canonical pattern of its
    /// payload, or nothing where the discriminant names no variant.
    pub fn load(&self, word: usize) -> (found: Option<(usize, usize)>)
        requires
            self.wf(),
        ensures
            self.discriminant.get(word) < self.payloads@.len() ==> found == Some(
                (
                    self.discriminant.get(word) as usize,
                    self.spec_payload(word, self.discriminant.get(word) as int) as usize,
                ),
            ),
            self.discriminant.get(word) >= self.payloads@.len() ==> found.is_none(),
    {
        let index = self.load_discriminant(word);
        if index < self.payloads.len() {
            let bits = self.load_payload(word, index);
            Some((index, bits))
        } else {
            None
        }
    }

    /// `word` with the payload of the given variant written to its bits,
    /// where the variant has one.
    pub open spec fn with_payload(self, word: usize, variant: int, bits: usize) -> nat {
        match self.payloads@[variant] {
            Some(slot) => slot.range.put(
                word,
                payload_of(bits, slot.range.spec_width(), slot.side),
            ),
            None => word as nat,
        }
    }

    /// `word` with the payload of the given variant, whose canonical pattern
    /// is `bits`, and with the discriminant that names the variant. Every
    /// bit outside of the payload and the discriminant is kept.
    pub fn store(&self, word: usize, variant: usize, bits: usize) -> (out: usize)
        requires
            self.wf(),
            variant < self.payloads@.len(),
            self.payload_fits(variant as int, bits),
        ensures
            out == self.discriminant.put(
                self.with_payload(word, variant as int, bits) as usize,
                variant as nat,
            ),
            self.discriminant.get(out) == variant,
            self.spec_payload(out, variant as int) == bits,
    {
        let with_payload = match self.payloads[variant] {
            Some(slot) => slot.store(word, bits),
            None => word,
        };
        let out = self.discriminant.write_low_bits(with_payload, variant);
        proof {
            match self.payloads@[variant as int] {
                Some(slot) => {
                    lemma_payload_of_bits(bits, slot.range.spec_width(), slot.side);
                    lemma_with_field_frame(
                        with_payload,
                        self.discriminant.spec_low(),
                        self.discriminant.spec_width(),
                        variant as nat,
                        slot.range.spec_low(),
                        slot.range.spec_width(),
                    );
                },
                None => {},
            }
        }
        out
    }

    /// The discriminant shares no bit position with the payload of any
    /// variant, whatever the widths of the payloads.
    pub proof fn lemma_discriminant_apart(self, variant: int)
        requires
            self.wf(),
            0 <= variant < self.payloads@.len(),
            self.payloads@[variant] is Some,
        ensures
            self.discriminant.disjoint(self.payloads@[variant]->0.range),
            self.discriminant.spec_mask() <= usize::MAX,
            self.payloads@[variant]->0.range.spec_mask() <= usize::MAX,
            (self.discriminant.spec_mask() as usize) & (self.payloads@[variant]->0.range.spec_mask()
                as usize) == 0,
    {
        let d = self.discriminant;
        let p = self.payloads@[variant]->0.range;
        lemma_masks_disjoint(d.spec_low(), d.spec_width(), p.spec_low(), p.spec_width());
    }
}

/// The widest payload is at least as wide as the payload of each variant.
pub proof fn lemma_max_payload_bounds(variants: Seq<Fields>, i: int)
    requires
        0 <= i < variants.len(),
    ensures
        variant_width(variants[i]) <= max_payload(variants),
    decreases variants.len(),
{
    if i < variants.len() - 1 {
        lemma_max_payload_bounds(variants.drop_last(), i);
    }
}

/// The widest payload of the first `i + 1` variants is the wider of the
/// widest of the first `i` and the payload of the variant with index `i`.
pub proof fn lemma_max_payload_step(variants: Seq<Fields>, i: int)
    requires
        0 <= i < variants.len(),
    ensures
        max_payload(variants.take(i + 1)) == if variant_width(variants[i]) > max_payload(
            variants.take(i),
        ) {
            variant_width(variants[i])
        } else {
            max_payload(variants.take(i))
        },
{
    assert(variants.take(i + 1).drop_last() =~= variants.take(i));
}

/// Lays out an enum at the cursor `start`: the payload of every variant
/// starts there, and the discriminant follows below the widest payload. A
/// variant has one field without a name or no field at all.
pub fn enum_data(variants: &Vec<Fields>, start: u32) -> (made: Result<EnumLayout, LayoutError>)
    requires
        start <= PTR_WIDTH,
    ensures
        made is Ok <==> enum_accepts(variants@, start as nat),
        made matches Ok(layout) ==> layout.is_layout_of(variants@, start as nat) && layout.wf(),
        made matches Err(error) ==> enum_rejects(variants@, start as nat, error),
{
    let count = variants.len();
    let discr_bits = match discriminant_for(count) {
        Ok(bits) => bits,
        Err(error) => {
            return Err(error);
        },
    };
    let mut index: usize = 0;
    while index < count
        invariant
            count == variants@.len(),
            index <= count,
            0 < count <= pow2(32),
            forall|j: int|
                0 <= j < index ==> shape_error(#[trigger] variants@[j], j as usize) is None,
        decreases count - index,
    {
        match &variants[index] {
            Fields::Named(_) => {
                return Err(LayoutError::StructVariant { variant: index });
            },
            Fields::Unnamed(list) => {
                if list.len() != 1 {
                    return Err(LayoutError::MultiFieldVariant { variant: index });
                }
            },
            Fields::Unit => {},
        }
        index = index + 1;
    }
    let mut payloads: Vec<Option<FieldSlot>> = Vec::new();
    let mut merged: u32 = start;
    index = 0;
    proof {
        assert(variants@.take(0) =~= Seq::<Fields>::empty());
    }
    while index < count
        invariant
            count == variants@.len(),
            index <= count,
            start <= PTR_WIDTH,
            0 < count <= pow2(32),
            shapes_ok(variants@),
            payloads@.len() == index,
            max_payload(variants@.take(index as int)) <= start,
            merged == start - max_payload(variants@.take(index as int)),
            forall|j: int| 0 <= j < index ==> variant_width(#[trigger] variants@[j]) <= start,
            forall|j: int|
                0 <= j < index ==> #[trigger] payloads@[j] == payload_slot(
                    variants@[j],
                    start as nat,
                ),
        decreases count - index,
    {
        proof {
            lemma_max_payload_step(variants@, index as int);
            assert(shape_error(variants@[index as int], index) is None);
        }
        let variant = &variants[index];
        if variant.len() == 1 {
            let field = variant.get(0);
            match allocate(start, field.width) {
                None => {
                    proof {
                        lemma_max_payload_bounds(variants@, index as int);
                    }
                    return Err(LayoutError::WidthOverflow { field: index });
                },
                Some((range, next)) => {
                    payloads.push(
                        Some(FieldSlot { range, side: field.side, nullable: field.nullable }),
                    );
                    merged = const_min(merged, next);
                },
            }
        } else {
            payloads.push(None);
        }
        index = index + 1;
    }
    proof {
        assert(variants@.take(count as int) =~= variants@);
    }
    match allocate(merged, discr_bits) {
        None => Err(LayoutError::DiscriminantOverflow),
        Some((discriminant, next)) => {
            let layout = EnumLayout { payloads, discriminant, start, next };
            proof {
                assert forall|i: int| 0 <= i < layout.payloads@.len() implies (
                #[trigger] layout.payloads@[i] matches Some(slot) ==> {
                    &&& slot.range.wf()
                    &&& slot.range.before == PTR_WIDTH - layout.start
                    &&& slot.range.after + layout.discriminant.before >= PTR_WIDTH
                }) by {
                    lemma_max_payload_bounds(variants@, i);
                }
            }
            Ok(layout)
        },
    }
}

/// What is to be laid out: the fields of a struct, the variants of an enum,
/// or a union.
#[derive(Clone, Debug)]
pub enum Data {
    /// A struct with its fields.
    Struct(Fields),
    /// An enum with the fields of each variant.
    Enum(Vec<Fields>),
    /// A union.
    Union,
}

/// A layout of either kind.
#[derive(Clone, Debug)]
pub enum Layout {
    /// The layout of a struct.
    Struct(StructLayout),
    /// The layout of an enum.
    Enum(EnumLayout),
}

impl Layout {
    /// The layout keeps the invariant of its kind.
    pub open spec fn wf(self) -> bool {
        match self {
            Layout::Struct(layout) => layout.wf(),
            Layout::Enum(layout) => layout.wf(),
        }
    }

    /// The cursor at which the layout starts.
    pub open spec fn spec_start(self) -> u32 {
        match self {
            Layout::Struct(layout) => layout.start,
            Layout::Enum(layout) => layout.start,
        }
    }

    /// The cursor that the layout leaves for what follows.
    pub open spec fn spec_next(self) -> u32 {
        match self {
            Layout::Struct(layout) => layout.next,
            Layout::Enum(layout) => layout.next,
        }
    }

    /// The cursor that the layout leaves for what follows.
    pub fn next(&self) -> (cursor: u32)
        ensures
            cursor == self.spec_next(),
    {
        match self {
            Layout::Struct(layout) => layout.next,
            Layout::Enum(layout) => layout.next,
        }
    }

    /// Number of bits of the whole: the distance between the cursor at
    /// which the layout starts and the cursor that it leaves.
    pub fn width(&self) -> (w: u32)
        requires
            self.wf(),
        ensures
            w == self.spec_start() - self.spec_next(),
    {
        match self {
            Layout::Struct(layout) => layout.width(),
            Layout::Enum(layout) => layout.width(),
        }
    }
}

/// Lays out a type at the cursor `start`: a struct field after field, an
/// enum variant beside variant with the discriminant below. A union has no
/// layout.
pub fn do_derive_packable(input: &Data, start: u32) -> (made: Result<Layout, LayoutError>)
    requires
        start <= PTR_WIDTH,
    ensures
        match input {
            Data::Struct(fields) => {
                &&& made is Ok <==> total_width(fields@) <= start
                &&& made matches Ok(layout) ==> layout matches Layout::Struct(inner)
                    && inner.is_layout_of(fields@, start as nat) && inner.wf()
                &&& made matches Err(e) ==> e matches LayoutError::WidthOverflow { field }
                    && first_overflow(fields@, start as nat, field as int)
            },
            Data::Enum(variants) => {
                &&& made is Ok <==> enum_accepts(variants@, start as nat)
                &&& made matches Ok(layout) ==> layout matches Layout::Enum(inner)
                    && inner.is_layout_of(variants@, start as nat) && inner.wf()
                &&& made matches Err(e) ==> enum_rejects(variants@, start as nat, e)
            },
            Data::Union => made == Err::<Layout, LayoutError>(LayoutError::UnionUnsupported),
        },
{
    match input {
        Data::Struct(fields) => {
            match struct_data(fields, start) {
                Ok(layout) => Ok(Layout::Struct(layout)),
                Err(e) => Err(e),
            }
        },
        Data::Enum(variants) => {
            match enum_data(variants, start) {
                Ok(layout) => Ok(Layout::Enum(layout)),
                Err(e) => Err(e),
            }
        },
        Data::Union => Err(LayoutError::UnionUnsupported),
    }
}

} // verus!
