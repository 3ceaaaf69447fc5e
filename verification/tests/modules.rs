use mbl2::modules::{find_bytes, find_lib};

#[test]
fn finds_first_module_holding_name() {
    let names = vec![b"/system/lib64/libc.so".to_vec(), b"/data/app/lib/arm64/libminecraftpe.so".to_vec(), b"libminecraftpe_extra.so".to_vec()];
    assert_eq!(find_lib(&names, b"libminecraftpe"), Some(1));
    assert_eq!(find_lib(&names, b"libfoo"), None);
    assert_eq!(find_lib(&Vec::new(), b"libminecraftpe"), None);
}

#[test]
fn finds_bytes() {
    assert_eq!(find_bytes(b"hello world", b"o w"), Some(4));
    assert_eq!(find_bytes(b"hello", b""), Some(0));
    assert_eq!(find_bytes(b"hi", b"hello"), None);
    assert_eq!(find_bytes(b"aaab", b"ab"), Some(2));
}
