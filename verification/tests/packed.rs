use pack::aligned::Aligned;
use pack::bitstart::BitStart;
use pack::bitstart::DefaultStart;
use pack::bitstart::NextStart;
use pack::bitstart::UnionStart;
use pack::detail::BitRange;
use pack::impls::PackedBox;
use pack::impls::PackedCopy;
use pack::impls::U3;
use pack::impls::U8;
use pack::packed::Pack;
use pack::packed::RawPackedBits;
use pack::packed::SubPack;
use pack::range::FieldRange;

const WORD: u32 = usize::BITS;

type AfterBool = NextStart<DefaultStart, bool>;
type AfterBoth = NextStart<AfterBool, U3>;

#[test]
fn cursors() {
    assert_eq!(DefaultStart::start(), WORD);
    assert_eq!(AfterBool::start(), WORD - 1);
    assert_eq!(AfterBoth::start(), WORD - 4);
    assert_eq!(<NextStart<DefaultStart, ()>>::start(), WORD);
    assert_eq!(<NextStart<DefaultStart, Aligned<u64>>>::start(), 3);
}

#[test]
fn union_of_cursors_is_the_further_advanced() {
    assert_eq!(<UnionStart<AfterBool, AfterBoth>>::start(), WORD - 4);
    assert_eq!(<UnionStart<AfterBoth, AfterBool>>::start(), WORD - 4);
    assert_eq!(<UnionStart<DefaultStart, DefaultStart>>::start(), WORD);
    type Wide = NextStart<DefaultStart, U8>;
    type Narrow = NextStart<DefaultStart, U3>;
    type Merged = UnionStart<UnionStart<Wide, Narrow>, DefaultStart>;
    assert_eq!(Merged::start(), WORD - 8);
    assert_eq!(<NextStart<Merged, bool>>::start(), WORD - 9);
}

#[test]
fn window_constants() {
    type Window = RawPackedBits<AfterBool, U3>;
    assert_eq!(Window::before(), 1);
    assert_eq!(Window::after(), WORD - 4);
    assert_eq!(Window::mask(), 0b111 << (WORD - 4));
    assert_eq!(Window::clear_mask(), !(0b111usize << (WORD - 4)));
    assert_eq!(<Window as BitRange>::range(), FieldRange { before: 1, after: WORD - 4 });

    type Empty = RawPackedBits<NextStart<DefaultStart, Aligned<u8>>, ()>;
    assert_eq!(Empty::before(), WORD);
    assert_eq!(Empty::after(), 0);
    assert_eq!(Empty::mask(), 0);
}

#[test]
fn window_reads() {
    type Window = RawPackedBits<AfterBool, U3>;
    let window = Window::for_bits(0b1101 << (WORD - 4));
    assert_eq!(window.read_unshifted_bits(), 0b101 << (WORD - 4));
    assert_eq!(window.read_low_bits(), 0b101);
    assert_eq!(window.read_high_bits(), 0b101 << (WORD - 3));
    assert_eq!(window.load().get(), 5);
    assert_eq!(Window::for_bits(usize::MAX).read_low_bits(), 0b111);
    assert_eq!(window.into_bits(), 0b1101 << (WORD - 4));
}

#[test]
fn window_writes() {
    type Window = RawPackedBits<AfterBool, U3>;
    let mut window = Window::for_bits(usize::MAX);
    window.write_low_bits(0b010);
    assert_eq!(window.into_bits(), !(0b101usize << (WORD - 4)));

    let mut window = Window::for_bits(0);
    window.write_high_bits(0b110 << (WORD - 3));
    assert_eq!(window.into_bits(), 0b110 << (WORD - 4));

    let mut window = Window::for_bits(1 << (WORD - 1));
    window.write_unshifted_bits(0b011 << (WORD - 4));
    assert_eq!(window.into_bits(), 0b1011 << (WORD - 4));

    let mut window = Window::for_bits(usize::MAX);
    window.store(U3::new(0).unwrap());
    assert_eq!(window.load().get(), 0);
    assert_eq!(window.into_bits(), !(0b111usize << (WORD - 4)));
}

#[test]
fn window_on_a_part() {
    type Whole = RawPackedBits<DefaultStart, U8>;
    let mut whole = Whole::for_bits(0);
    whole.write_field::<DefaultStart, bool>(true);
    whole.write_field::<AfterBool, U3>(U3::new(5).unwrap());
    assert_eq!(whole.into_bits(), 0b1101 << (WORD - 4));
    let whole = Whole::for_bits(0b1101 << (WORD - 4));
    assert_eq!(whole.read_field::<DefaultStart, bool>(), true);
    assert_eq!(whole.read_field::<AfterBool, U3>().get(), 5);
    assert_eq!(whole.as_field::<AfterBool, U3>().read_low_bits(), 5);
    assert_eq!(whole.load().get(), 0b11010000);
}

#[test]
fn sub_pack_get_set_replace() {
    let raw = RawPackedBits::<AfterBool, U3>::for_bits(0b1101 << (WORD - 4));
    let mut place = SubPack::new(raw);
    assert_eq!(place.get().get(), 5);
    place.set(U3::new(2).unwrap());
    assert_eq!(place.get().get(), 2);
    assert_eq!(place.replace(U3::new(7).unwrap()).get(), 2);
    assert_eq!(place.get().get(), 7);
    assert_eq!(place.as_field::<AfterBool, U3>().get().get(), 7);
    assert_eq!(place.into_bits(), 0b1111 << (WORD - 4));
}

#[test]
fn packed_copy_get_set_replace() {
    let raw = RawPackedBits::<DefaultStart, bool>::for_bits(0);
    let mut place = PackedCopy::new(SubPack::new(raw));
    assert_eq!(place.get(), false);
    place.set(true);
    assert_eq!(place.get(), true);
    assert_eq!(place.replace(false), true);
    assert_eq!(place.get(), false);
    place.set(true);
    assert_eq!(place.into_bits(), 1 << (WORD - 1));
}

#[test]
fn packed_box_keeps_the_address() {
    let first = Aligned::<u64>::new(0x1000).unwrap();
    let second = Aligned::<u64>::new(0x2000).unwrap();
    let raw = RawPackedBits::<DefaultStart, Aligned<u64>>::for_bits(0x1005);
    let mut place = PackedBox::new(SubPack::new(raw));
    assert_eq!(place.address(), first);
    assert_eq!(place.replace(second), first);
    assert_eq!(place.address(), second);
    assert_eq!(place.into_bits(), 0x2005);
}

#[test]
fn pack_of_a_single_value() {
    assert_eq!(Pack::new(true).to_bits(), 1 << (WORD - 1));
    assert_eq!(Pack::new(false).to_bits(), 0);
    assert_eq!(Pack::new(U3::new(5).unwrap()).to_bits(), 5 << (WORD - 3));
    assert_eq!(Pack::new(()).to_bits(), 0);
    let address = Aligned::<u32>::new(0x1234).unwrap();
    assert_eq!(Pack::new(address).to_bits(), 0x1234);
    assert_eq!(Pack::new(address).into_inner(), address);
    assert_eq!(Pack::new(Some(address)).get(), Some(address));
    assert_eq!(Pack::new(None::<Aligned<u32>>).get(), None);
    assert_eq!(Pack::new(None::<Aligned<u32>>).to_bits(), 0);
}

#[test]
fn pack_replace() {
    let mut pack = Pack::new(U3::new(1).unwrap());
    assert_eq!(pack.replace(U3::new(6).unwrap()).get(), 1);
    assert_eq!(pack.get().get(), 6);
    assert_eq!(pack.to_bits(), 6 << (WORD - 3));
}

#[test]
fn cursors_can_be_reached_while_bits_are_left() {
    assert!(DefaultStart::has_layout());
    assert!(AfterBool::has_layout());
    assert!(AfterBoth::has_layout());
    assert!(<NextStart<DefaultStart, Aligned<u8>>>::has_layout());
    assert!(!<NextStart<NextStart<DefaultStart, Aligned<u8>>, bool>>::has_layout());
    assert!(<UnionStart<AfterBool, AfterBoth>>::has_layout());
    type Lost = NextStart<NextStart<DefaultStart, Aligned<u8>>, bool>;
    assert!(!<UnionStart<AfterBool, Lost>>::has_layout());
    assert!(<RawPackedBits<AfterBool, U3> as BitRange>::has_layout());
    assert!(!<RawPackedBits<AfterBool, Aligned<u8>> as BitRange>::has_layout());
}
