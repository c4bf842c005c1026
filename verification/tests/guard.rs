use trie_keys::endian::{ByteOrder, Tagged};
use trie_keys::keys::{check_keys, TrieKey};

#[test]
fn equal_keys_pass_the_guard() {
    check_keys(&7u8, &7u8);
    check_keys(&-3i64, &-3i64);
    check_keys(&"car", &"car");
    check_keys(&String::from("carpet"), &String::from("carpet"));
    check_keys(&vec![1u8, 2, 3], &vec![1u8, 2, 3]);
    let bytes = [4u8, 5];
    let a: &[u8] = &bytes;
    let b: &[u8] = &bytes;
    check_keys(&a, &b);
}

#[test]
fn equal_tagged_keys_pass_the_guard() {
    let a = Tagged { payload: 0x0102u16, order: ByteOrder::Big };
    let b = Tagged { payload: 0x0102u16, order: ByteOrder::Big };
    check_keys(&a, &b);
}

#[test]
fn colliding_keys_are_not_equal() {
    // One integer written most significant byte first, another written least
    // significant byte first, can come to the same bytes. The guard asks for
    // equal keys, and these are not.
    let a = Tagged { payload: 0x0102u16, order: ByteOrder::Big };
    let b = Tagged { payload: 0x0201u16, order: ByteOrder::Little };
    assert_eq!(a.encode_bytes(), b.encode_bytes());
    assert!(a != b);
}
