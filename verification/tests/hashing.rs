use hashrename::digests::{Md5Hasher, Sha256Hasher};
use md5::Digest;

fn hex_of(d: &[u8]) -> String {
    d.iter().map(|b| format!("{b:02x}")).collect()
}

#[test]
fn hash_reader_streaming_no_huge_alloc() {
    let h = Md5Hasher;
    let data = vec![0xABu8; 12 * 1024 * 1024];
    let mut s = h.begin();
    for chunk in data.chunks(256 * 1024) {
        h.absorb(&mut s, chunk);
    }
    let v1 = h.finish(s);
    let mut m = md5::Md5::new();
    m.update(&data);
    assert_eq!(v1.hex(), hex_of(&m.finalize()));
}

#[test]
fn md5_known_vectors() {
    let h = Md5Hasher;
    assert_eq!(h.digest(b"").hex(), "d41d8cd98f00b204e9800998ecf8427e");
    assert_eq!(h.digest(b"abc").hex(), "900150983cd24fb0d6963f7d28e17f72");
    let chunk = b"0123456789abcdef";
    let mut data = Vec::with_capacity(1 << 20);
    while data.len() < 1 << 20 {
        data.extend_from_slice(chunk);
    }
    data.truncate(1 << 20);
    let mut s = h.begin();
    for c in data.chunks(100_000) {
        h.absorb(&mut s, c);
    }
    let streamed = h.finish(s).hex();
    let mut m = md5::Md5::new();
    m.update(&data);
    assert_eq!(streamed, hex_of(&m.finalize()));
}

#[test]
fn sha256_extensibility() {
    let h = Sha256Hasher;
    let v = h.digest(b"abc");
    assert_eq!(v.0.len(), 32);
    assert_eq!(h.algorithm(), "sha256");
    assert!(v.hex().starts_with("ba7816bf8f01cfea414140de5dae2223"));
}
