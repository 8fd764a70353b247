use pack::aligned::Aligned;
use pack::either::Either;
use pack::either::TinyEither;
use pack::either::TinyUnion;
use pack::impls::U3;
use pack::impls::U8;
use pack::layout::enum_data;
use pack::layout::Fields;
use pack::packable::descriptor;
use pack::packable::Packable;
use pack::packed::Pack;
use pack::ptrpack::PtrPack;

/// The address of the value behind a reference, as the pointer format
/// prints it.
fn addr_of<T>(value: &T) -> usize {
    let printed = format!("{:p}", value);
    usize::from_str_radix(printed.trim_start_matches("0x"), 16).unwrap()
}

#[test]
fn test_something() {
    let apple = &15u32;
    let pear = true;

    let apple_addr = Aligned::<u32>::new(addr_of(apple)).unwrap();
    let something = PtrPack::new((apple_addr, pear));
    let packed = Pack::new(something);

    let apple_ = packed.get().get_0();
    let pear_ = packed.get().get_1();
    assert_eq!(apple_, apple_addr);
    assert_eq!(apple_.as_ptr(), addr_of(apple));
    assert_eq!(pear_, pear);
}

#[test]
fn test_either_ref() {
    let a = 5;
    let b = 10;
    let addr_a = Aligned::<i32>::new(addr_of(&a)).unwrap();
    let addr_b = Aligned::<i32>::new(addr_of(&b)).unwrap();

    let left: Either<Aligned<i32>, Aligned<i32>> = Either::Left(addr_a);
    println!("{:?}", left);

    let right: Either<Aligned<i32>, Aligned<i32>> = Either::Right(addr_b);
    println!("{:?}", right);

    assert_ne!(left, right);

    let packed_l = Pack::new(left);
    println!("{:#x?} {:#x}", packed_l, addr_a.as_ptr());
    println!("{:?}", packed_l.get());

    let packed_r = Pack::new(right);
    println!("{:#x?} {:#x}", packed_r, addr_b.as_ptr());
    println!("{:?}", packed_r.get());

    assert_eq!(packed_l.get(), left);
    assert_eq!(packed_r.get(), right);
}

const WORD: u32 = usize::BITS;

#[test]
fn either_of_two_references() {
    let x = 7i32;
    let address = Aligned::<i32>::new(addr_of(&x)).unwrap();
    let packed = TinyEither::<Aligned<i32>, Aligned<i64>>::from_left(address);
    assert_eq!(packed.is_left(), true);
    assert_eq!(packed.is_right(), false);
    assert_eq!(packed.as_left(), Some(address));
    assert_eq!(packed.as_right(), None);
    assert_eq!(packed.as_left().map(|found| found.as_ptr()), Some(addr_of(&x)));
    assert_eq!(packed.as_either(), Either::Left(address));
}

#[test]
fn either_of_the_second_type() {
    let y = 9i64;
    let address = Aligned::<i64>::new(addr_of(&y)).unwrap();
    let packed = TinyEither::<Aligned<i32>, Aligned<i64>>::from_right(address);
    assert_eq!(packed.is_left(), false);
    assert_eq!(packed.is_right(), true);
    assert_eq!(packed.as_left(), None);
    assert_eq!(packed.as_right(), Some(address));
    assert_eq!(packed.as_either(), Either::Right(address));
    assert_eq!(packed.as_right_unchecked(), address);
}

#[test]
fn either_word_has_the_tag_below_the_union() {
    type Packed = TinyEither<Aligned<u32>, Aligned<u64>>;
    let narrow = Aligned::<u32>::new(0x1004).unwrap();
    let wide = Aligned::<u64>::new(0x2008).unwrap();
    assert_eq!(Packed::from_left(narrow).to_word(), 0x1004);
    assert_eq!(Packed::from_right(wide).to_word(), 0x2008 | 0b10);
    assert_eq!(<Packed as Packable>::bits(), WORD - 1);

    type Small = TinyEither<U3, U8>;
    assert_eq!(<Small as Packable>::bits(), 9);
    assert_eq!(Small::from_left(U3::new(5).unwrap()).to_word(), 5 << (WORD - 3));
    assert_eq!(
        Small::from_right(U8::new(0xA5).unwrap()).to_word(),
        (0xA5 << (WORD - 8)) | (1 << (WORD - 9))
    );
}

#[test]
fn new_and_as_either_are_inverse() {
    type Packed = TinyEither<U3, Aligned<u32>>;
    let values = [
        Either::Left(U3::new(0).unwrap()),
        Either::Left(U3::new(5).unwrap()),
        Either::Left(U3::new(7).unwrap()),
        Either::Right(Aligned::<u32>::new(4).unwrap()),
        Either::Right(Aligned::<u32>::new(0x7FFC).unwrap()),
        Either::Right(Aligned::<u32>::dangling()),
    ];
    for value in values {
        let packed = Packed::new(value);
        assert_eq!(packed.as_either(), value);
        assert_eq!(packed.is_left(), matches!(value, Either::Left(_)));
        assert_eq!(Packed::from_word(packed.to_word()).as_either(), value);
        assert_eq!(packed.clone().as_either(), value);
    }
}

#[test]
fn union_gives_back_what_was_put_in() {
    let left = U3::new(6).unwrap();
    let address = Aligned::<u64>::new(0x5550).unwrap();
    assert_eq!(TinyUnion::<U3, Aligned<u64>>::from_left(left).as_left(), left);
    assert_eq!(TinyUnion::<U3, bool>::from_left(left).as_left(), left);
    assert_eq!(TinyUnion::<U3, ()>::from_left(left).as_left(), left);
    assert_eq!(TinyUnion::<U3, Aligned<u64>>::from_right(address).as_right(), address);
    assert_eq!(TinyUnion::<bool, Aligned<u64>>::from_right(address).as_right(), address);
}

#[test]
fn union_values_start_at_the_same_end() {
    type Mixed = TinyUnion<U3, Aligned<u64>>;
    assert_eq!(<Mixed as Packable>::bits(), WORD - 3);
    assert_eq!(<TinyUnion<U3, U8> as Packable>::bits(), 8);
    assert_eq!(<TinyUnion<U8, U3> as Packable>::bits(), 8);
    assert_eq!(<TinyUnion<bool, bool> as Packable>::bits(), 1);
    assert_eq!(Mixed::from_left(U3::new(5).unwrap()).to_bits(), 5 << (WORD - 3));
    assert_eq!(Mixed::from_right(Aligned::<u64>::new(0x5550).unwrap()).to_bits(), 0x5550);
    assert_eq!(<Mixed as Packable>::from_bits(0x5550).as_right().as_ptr(), 0x5550);
}

#[test]
fn either_as_a_tuple_element() {
    type Inner = TinyEither<bool, U3>;
    let inner = Inner::from_right(U3::new(3).unwrap());
    let pack = PtrPack::new((inner, true));
    assert_eq!(pack.get_0().as_either(), Either::Right(U3::new(3).unwrap()));
    assert_eq!(pack.get_1(), true);
    assert_eq!(pack.to_bits(), 0b011_1_1 << (WORD - 5));
}

#[test]
fn either_value_packs_as_a_tagged_union() {
    let value: Either<U3, bool> = Either::Right(true);
    assert_eq!(<Either<U3, bool> as Packable>::bits(), 4);
    assert_eq!(value.to_bits(), 0b1001 << (WORD - 4));
    assert_eq!(<Either<U3, bool> as Packable>::from_bits(0b1001 << (WORD - 4)), value);
    let left: Either<U3, bool> = Either::Left(U3::new(6).unwrap());
    assert_eq!(left.to_bits(), 0b1100 << (WORD - 4));
    assert_eq!(<Either<U3, bool> as Packable>::from_bits(left.to_bits()), left);
}

#[test]
fn either_needs_a_bit_for_its_tag() {
    assert!(<TinyEither<Aligned<i32>, Aligned<i64>> as Packable>::has_layout());
    assert!(<TinyEither<U3, bool> as Packable>::has_layout());
    assert!(!<TinyEither<Aligned<u8>, bool> as Packable>::has_layout());
    assert!(!<TinyEither<bool, Aligned<u8>> as Packable>::has_layout());
    assert!(<TinyUnion<Aligned<u8>, bool> as Packable>::has_layout());
    assert!(<Either<U3, bool> as Packable>::has_layout());
    assert!(!<Either<Aligned<u8>, bool> as Packable>::has_layout());
}

#[test]
fn either_agrees_with_the_layout_of_an_enum() {
    type Packed = TinyEither<Aligned<u32>, U8>;
    let variants = vec![
        Fields::Unnamed(vec![descriptor::<Aligned<u32>>()]),
        Fields::Unnamed(vec![descriptor::<U8>()]),
    ];
    let layout = enum_data(&variants, WORD).unwrap();
    let address = Aligned::<u32>::new(0x1004).unwrap();
    let small = U8::new(0x5A).unwrap();
    assert_eq!(layout.store(0, 0, address.to_bits()), Packed::from_left(address).to_word());
    assert_eq!(layout.store(0, 1, small.to_bits()), Packed::from_right(small).to_word());
    assert_eq!(layout.load(Packed::from_right(small).to_word()), Some((1, 0x5A)));
    assert_eq!(layout.load(Packed::from_left(address).to_word()), Some((0, 0x1004)));
    assert_eq!(layout.width(), <Packed as Packable>::bits());
}
