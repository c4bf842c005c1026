use trie_keys::endian::{ByteOrder, Tagged};
use trie_keys::keys::TrieKey;

fn nibble_list<K: TrieKey>(key: &K) -> Vec<u8> {
    let nv = key.encode();
    let mut out = Vec::new();
    for i in 0..nv.len() {
        out.push(nv.get(i));
    }
    out
}

#[test]
fn byte_vector_encodes_as_itself() {
    let key: Vec<u8> = vec![0, 1, 0xfe, 0xff];
    assert_eq!(key.encode_bytes(), vec![0, 1, 0xfe, 0xff]);
}

#[test]
fn byte_slice_encodes_as_itself() {
    let bytes = [9u8, 8, 7];
    let key: &[u8] = &bytes;
    assert_eq!(key.encode_bytes(), vec![9, 8, 7]);
}

#[test]
fn text_encodes_as_utf8() {
    assert_eq!("car".encode_bytes(), vec![0x63, 0x61, 0x72]);
    assert_eq!(String::from("car").encode_bytes(), vec![0x63, 0x61, 0x72]);
    // U+00E9 takes two bytes, U+20AC three.
    assert_eq!("\u{e9}".encode_bytes(), vec![0xc3, 0xa9]);
    assert_eq!(String::from("a\u{20ac}").encode_bytes(), vec![0x61, 0xe2, 0x82, 0xac]);
}

#[test]
fn empty_keys_encode_to_nothing() {
    assert_eq!(Vec::<u8>::new().encode_bytes(), Vec::<u8>::new());
    assert_eq!("".encode_bytes(), Vec::<u8>::new());
    assert_eq!(String::new().encode_bytes(), Vec::<u8>::new());
    let none: &[u8] = &[];
    assert_eq!(none.encode_bytes(), Vec::<u8>::new());
    assert_eq!("".encode().len(), 0);
    assert_eq!(Vec::<u8>::new().encode().len(), 0);
}

#[test]
fn single_bytes_encode_as_one_byte() {
    assert_eq!(0u8.encode_bytes(), vec![0x00]);
    assert_eq!(0xabu8.encode_bytes(), vec![0xab]);
    assert_eq!(255u8.encode_bytes(), vec![0xff]);
    assert_eq!(0i8.encode_bytes(), vec![0x00]);
    assert_eq!(1i8.encode_bytes(), vec![0x01]);
    assert_eq!(127i8.encode_bytes(), vec![0x7f]);
}

#[test]
fn signed_bytes_keep_their_bits() {
    assert_eq!((-1i8).encode_bytes(), vec![0xff]);
    assert_eq!((-2i8).encode_bytes(), vec![0xfe]);
    assert_eq!((-128i8).encode_bytes(), vec![0x80]);
    // The encoding of -1 comes after that of 1, though -1 is less.
    assert!((-1i8).encode_bytes() > 1i8.encode_bytes());
}

#[test]
fn unsigned_integers_encode_most_significant_byte_first() {
    assert_eq!(0x0102u16.encode_bytes(), vec![0x01, 0x02]);
    assert_eq!(0x01020304u32.encode_bytes(), vec![0x01, 0x02, 0x03, 0x04]);
    assert_eq!(
        0x0102030405060708u64.encode_bytes(),
        vec![0x01, 0x02, 0x03, 0x04, 0x05, 0x06, 0x07, 0x08]
    );
    assert_eq!(1u16.encode_bytes(), vec![0, 1]);
    assert_eq!(u16::MAX.encode_bytes(), vec![0xff, 0xff]);
    assert_eq!(u32::MAX.encode_bytes(), vec![0xff; 4]);
    assert_eq!(u64::MAX.encode_bytes(), vec![0xff; 8]);
    assert_eq!(0u64.encode_bytes(), vec![0; 8]);
}

#[test]
fn signed_integers_encode_in_twos_complement() {
    assert_eq!(0x0102i16.encode_bytes(), vec![0x01, 0x02]);
    assert_eq!((-2i16).encode_bytes(), vec![0xff, 0xfe]);
    assert_eq!(i16::MIN.encode_bytes(), vec![0x80, 0x00]);
    assert_eq!((-1i32).encode_bytes(), vec![0xff; 4]);
    assert_eq!((-256i32).encode_bytes(), vec![0xff, 0xff, 0xff, 0x00]);
    assert_eq!(i32::MAX.encode_bytes(), vec![0x7f, 0xff, 0xff, 0xff]);
    assert_eq!(
        (-0x0102030405060708i64).encode_bytes(),
        vec![0xfe, 0xfd, 0xfc, 0xfb, 0xfa, 0xf9, 0xf8, 0xf8]
    );
    assert_eq!(i64::MIN.encode_bytes(), vec![0x80, 0, 0, 0, 0, 0, 0, 0]);
}

#[test]
fn pointer_sized_integers_take_the_width_of_a_pointer() {
    let width = std::mem::size_of::<usize>();
    let mut expected = vec![0u8; width];
    expected[width - 2] = 0x12;
    expected[width - 1] = 0x34;
    assert_eq!(0x1234usize.encode_bytes(), expected);
    assert_eq!(0x1234isize.encode_bytes(), expected);
    assert_eq!((-1isize).encode_bytes(), vec![0xffu8; width]);
    assert_eq!(usize::MAX.encode_bytes(), vec![0xffu8; width]);
    let mut low = vec![0xffu8; width];
    low[width - 1] = 0xfe;
    assert_eq!((-2isize).encode_bytes(), low);
}

#[test]
fn tagged_integers_encode_in_the_order_of_the_tag() {
    let big = Tagged { payload: 0x01020304u32, order: ByteOrder::Big };
    let little = Tagged { payload: 0x01020304u32, order: ByteOrder::Little };
    assert_eq!(big.encode_bytes(), vec![0x01, 0x02, 0x03, 0x04]);
    assert_eq!(little.encode_bytes(), vec![0x04, 0x03, 0x02, 0x01]);

    let big = Tagged { payload: -2i16, order: ByteOrder::Big };
    let little = Tagged { payload: -2i16, order: ByteOrder::Little };
    assert_eq!(big.encode_bytes(), vec![0xff, 0xfe]);
    assert_eq!(little.encode_bytes(), vec![0xfe, 0xff]);

    let big = Tagged { payload: 0x0102030405060708u64, order: ByteOrder::Big };
    let little = Tagged { payload: 0x0102030405060708u64, order: ByteOrder::Little };
    assert_eq!(big.encode_bytes(), vec![1, 2, 3, 4, 5, 6, 7, 8]);
    assert_eq!(little.encode_bytes(), vec![8, 7, 6, 5, 4, 3, 2, 1]);
}

#[test]
fn tagged_pointer_sized_integers() {
    let width = std::mem::size_of::<usize>();
    let mut first = vec![0u8; width];
    first[0] = 0x34;
    first[1] = 0x12;
    let little = Tagged { payload: 0x1234usize, order: ByteOrder::Little };
    assert_eq!(little.encode_bytes(), first);
    let little = Tagged { payload: -1isize, order: ByteOrder::Little };
    assert_eq!(little.encode_bytes(), vec![0xffu8; width]);
}

#[test]
fn integer_keys_encode_as_their_big_endian_tag() {
    let tagged = Tagged { payload: 0xbeefu16, order: ByteOrder::Big };
    assert_eq!(0xbeefu16.encode_bytes(), tagged.encode_bytes());
    let tagged = Tagged { payload: -77i64, order: ByteOrder::Big };
    assert_eq!((-77i64).encode_bytes(), tagged.encode_bytes());
}

#[test]
fn same_order_tells_integers_apart() {
    let a = Tagged { payload: 0x0102u16, order: ByteOrder::Little };
    let b = Tagged { payload: 0x0201u16, order: ByteOrder::Little };
    assert_ne!(a.encode_bytes(), b.encode_bytes());
}

#[test]
fn different_orders_can_encode_alike() {
    let a = Tagged { payload: 0x0102u16, order: ByteOrder::Big };
    let b = Tagged { payload: 0x0201u16, order: ByteOrder::Little };
    assert_ne!(a, b);
    assert_eq!(a.encode_bytes(), b.encode_bytes());
}

#[test]
fn tagged_values_copy_and_compare() {
    let a = Tagged { payload: 5u32, order: ByteOrder::Big };
    let b = a;
    let c = a.clone();
    assert_eq!(a, b);
    assert_eq!(a, c);
    assert_ne!(a, Tagged { payload: 5u32, order: ByteOrder::Little });
    assert_eq!(format!("{:?}", ByteOrder::Big), "Big");
}

#[test]
fn encode_splits_each_byte_in_two() {
    assert_eq!(nibble_list(&0xabu8), vec![0xa, 0xb]);
    assert_eq!(nibble_list(&"cat"), vec![6, 3, 6, 1, 7, 4]);
    assert_eq!(nibble_list(&0x0f10u16), vec![0, 0xf, 1, 0]);
    assert_eq!(nibble_list(&vec![0xffu8, 0x00]), vec![15, 15, 0, 0]);
    assert_eq!("carpet".encode().len(), 12);
}

#[test]
fn different_values_encode_differently() {
    assert_ne!(1u16.encode_bytes(), 256u16.encode_bytes());
    assert_ne!(1u32.encode_bytes(), 0x0100_0000u32.encode_bytes());
    assert_ne!((-1i16).encode_bytes(), 1i16.encode_bytes());
    assert_ne!((-1i8).encode_bytes(), 1i8.encode_bytes());
    assert_ne!(i64::MIN.encode_bytes(), 0i64.encode_bytes());
    assert_ne!("ab".encode_bytes(), "ba".encode_bytes());
    assert_ne!("a".encode_bytes(), "a ".encode_bytes());
    assert_ne!(vec![0u8].encode_bytes(), vec![0u8, 0].encode_bytes());
    assert_ne!(nibble_list(&vec![0x12u8]), nibble_list(&vec![0x21u8]));
}

#[test]
fn every_u16_has_its_own_encoding_in_rising_order() {
    let mut last = 0u16.encode_bytes();
    for x in 1..=u16::MAX {
        let next = x.encode_bytes();
        assert!(last < next);
        last = next;
    }
}

#[test]
fn every_byte_has_its_own_encoding() {
    let mut seen = Vec::new();
    for x in i8::MIN..=i8::MAX {
        let bytes = x.encode_bytes();
        assert!(!seen.contains(&bytes));
        seen.push(bytes);
    }
    for x in u8::MIN..=u8::MAX {
        assert_eq!(x.encode_bytes(), vec![x]);
    }
}

#[test]
fn unsigned_order_is_kept() {
    assert!(255u16.encode_bytes() < 256u16.encode_bytes());
    assert!(0x00ff_ffffu32.encode_bytes() < 0x0100_0000u32.encode_bytes());
    assert!(1u64.encode_bytes() < u64::MAX.encode_bytes());
    assert!(0xffusize.encode_bytes() < 0x100usize.encode_bytes());
    assert!(3u8.encode_bytes() < 200u8.encode_bytes());
}

#[test]
fn little_endian_order_is_not_numeric() {
    let a = Tagged { payload: 255u16, order: ByteOrder::Little };
    let b = Tagged { payload: 256u16, order: ByteOrder::Little };
    assert!(a.encode_bytes() > b.encode_bytes());
}
