use pack::aligned::Aligned;
use pack::impls::U3;
use pack::layout::struct_data;
use pack::layout::Fields;
use pack::packable::descriptor;
use pack::packable::Packable;
use pack::ptrpack::PtrPack;

/// The address of the value behind a reference, as the pointer format
/// prints it.
fn address_of<T>(value: &T) -> usize {
    let printed = format!("{:p}", value);
    usize::from_str_radix(printed.trim_start_matches("0x"), 16).unwrap()
}

#[test]
fn test_packable() {
    let x = 5u32;
    let addr = address_of(&x);
    let ptr = Aligned::<u32>::new(addr).unwrap();
    let pack1 = <PtrPack<(Aligned<u32>, bool, bool)>>::new((ptr, false, true));
    let pack2 = <PtrPack<(Aligned<u32>, bool, bool)>>::new((ptr, false, true));
    assert_eq!(pack1, pack2);

    assert_eq!(pack1.get_0().as_ptr(), addr);
    assert_eq!(pack2.get_0().as_ptr(), addr);

    assert_eq!(pack1.get_1(), false);
    assert_eq!(pack2.get_1(), false);

    assert_eq!(pack1.get_2(), true);
    assert_eq!(pack2.get_2(), true);
}

const WORD: u32 = usize::BITS;

#[test]
fn pack_of_a_boolean_and_a_three_bit_integer() {
    let pack = PtrPack::new((true, U3::new(5).unwrap()));
    assert_eq!(pack.to_bits(), (1 << (WORD - 1)) | (5 << (WORD - 4)));
    assert_eq!(pack.get_0(), true);
    assert_eq!(pack.get_1().get(), 5);
    assert_eq!(pack.to_tuple(), (true, U3::new(5).unwrap()));
}

#[test]
fn pack_keeps_the_address_and_tags_its_low_bits() {
    let ptr = Aligned::<u64>::new(0x7F00).unwrap();
    assert_eq!(PtrPack::new((ptr,)).to_bits(), 0x7F00);
    assert_eq!(PtrPack::new((ptr, false, false)).to_bits(), 0x7F00);
    assert_eq!(PtrPack::new((ptr, true, false)).to_bits(), 0x7F04);
    assert_eq!(PtrPack::new((ptr, false, true)).to_bits(), 0x7F02);
    assert_eq!(PtrPack::new((ptr, U3::new(6).unwrap())).to_bits(), 0x7F06);
    assert_eq!(PtrPack::new((ptr,)).get_0(), ptr);
}

#[test]
fn pack_comes_back_from_its_word() {
    let ptr = Aligned::<u32>::new(0x1230).unwrap();
    let pack = PtrPack::new((ptr, true));
    let copy = <PtrPack<(Aligned<u32>, bool)>>::from_bits(pack.to_bits());
    assert_eq!(copy, pack);
    assert_eq!(copy.to_tuple(), (ptr, true));
    assert_eq!(<PtrPack<()>>::new(()).to_bits(), 0);
    assert_eq!(<PtrPack<()>>::from_bits(0).to_tuple(), ());
}

#[test]
fn setters_replace_one_element() {
    let first = Aligned::<u64>::new(0x1000).unwrap();
    let second = Aligned::<u64>::new(0x2008).unwrap();

    let mut one = PtrPack::new((first,));
    one.set_0(second);
    assert_eq!(one.to_tuple(), (second,));

    let mut two = PtrPack::new((first, U3::new(1).unwrap()));
    two.set_1(U3::new(7).unwrap());
    assert_eq!(two.to_tuple(), (first, U3::new(7).unwrap()));
    two.set_0(second);
    assert_eq!(two.to_tuple(), (second, U3::new(7).unwrap()));
    assert_eq!(two.to_bits(), 0x200F);

    let mut three = PtrPack::new((first, false, true));
    three.set_1(true);
    assert_eq!(three.to_tuple(), (first, true, true));
    three.set_2(false);
    assert_eq!(three.to_tuple(), (first, true, false));
    three.set_0(second);
    assert_eq!(three.to_tuple(), (second, true, false));
    assert_eq!(three.get_0(), second);
    assert_eq!(three.get_1(), true);
    assert_eq!(three.get_2(), false);
    assert_eq!(three, PtrPack::new((second, true, false)));
}

#[test]
fn pack_is_packable_at_the_high_end() {
    type Inner = PtrPack<(bool, U3)>;
    assert_eq!(<Inner as Packable>::bits(), 4);
    assert_eq!(<PtrPack<(Aligned<u64>, bool)> as Packable>::bits(), WORD - 2);
    assert_eq!(<PtrPack<()> as Packable>::bits(), 0);

    let inner = Inner::new((true, U3::new(2).unwrap()));
    assert_eq!(Packable::to_bits(inner), 0b1010 << (WORD - 4));
    assert_eq!(<Inner as Packable>::from_bits(0b1010 << (WORD - 4)), inner);

    let outer = PtrPack::new((true, inner, false));
    assert_eq!(outer.to_bits(), 0b110100 << (WORD - 6));
    assert_eq!(outer.get_1(), inner);
    assert_eq!(outer.get_1().get_1().get(), 2);
}

#[test]
fn pack_agrees_with_the_layout_of_its_descriptors() {
    let ptr = Aligned::<u64>::new(0x7F00).unwrap();
    let tiny = U3::new(6).unwrap();
    let fields = Fields::Unnamed(vec![descriptor::<Aligned<u64>>(), descriptor::<U3>()]);
    let layout = struct_data(&fields, WORD).unwrap();
    let pack = PtrPack::new((ptr, tiny));
    assert_eq!(layout.pack(&vec![ptr.to_bits(), tiny.to_bits()]), pack.to_bits());
    assert_eq!(layout.unpack(pack.to_bits()), vec![0x7F00, 6]);

    let fields =
        Fields::Unnamed(vec![descriptor::<bool>(), descriptor::<U3>(), descriptor::<bool>()]);
    let layout = struct_data(&fields, WORD).unwrap();
    let pack = PtrPack::new((true, U3::new(2).unwrap(), true));
    assert_eq!(layout.pack(&vec![1, 2, 1]), pack.to_bits());
}

#[test]
fn pack_of_four() {
    let first = Aligned::<u64>::new(0x1000).unwrap();
    let second = Aligned::<u64>::new(0x2008).unwrap();
    let mut pack = PtrPack::new((first, true, false, true));
    assert_eq!(pack.to_bits(), 0x1005);
    assert_eq!(pack.get_0(), first);
    assert_eq!(pack.get_1(), true);
    assert_eq!(pack.get_2(), false);
    assert_eq!(pack.get_3(), true);
    pack.set_2(true);
    assert_eq!(pack.to_tuple(), (first, true, true, true));
    pack.set_3(false);
    pack.set_1(false);
    pack.set_0(second);
    assert_eq!(pack.to_tuple(), (second, false, true, false));
    assert_eq!(pack.to_bits(), 0x200A);
}

#[test]
fn packs_compare_by_their_words() {
    let low = PtrPack::new((Aligned::<u32>::new(0x10).unwrap(), true));
    let high = PtrPack::new((Aligned::<u32>::new(0x20).unwrap(), false));
    assert!(low < high);
    assert!(PtrPack::new((false, true)) < PtrPack::new((true, false)));
    assert_eq!(low, low.clone());
    assert_ne!(low, high);
}
