use chacha20::stream_cipher::generic_array::GenericArray;
use chacha20::stream_cipher::{NewStreamCipher, SyncStreamCipher};
use chacha20::ChaCha20;
use crypto_service::MockRng;
use crypto_service::KEYSTREAM_LIMIT;

/// The first 72 keystream bytes of ChaCha20 under the generator's key and
/// nonce, straight from the `chacha20` crate.
fn reference_stream(n: usize) -> Vec<u8> {
    let key = GenericArray::from_slice(b"an example very very secret key.");
    let nonce = GenericArray::from_slice(b"secret nonce");
    let mut cipher = ChaCha20::new(key, nonce);
    let mut out = vec![0u8; n];
    cipher.apply_keystream(&mut out);
    out
}

#[test]
fn new_starts_at_position_zero() {
    let rng = MockRng::new();
    assert_eq!(rng.position(), 0);
}

#[test]
fn first_bytes_are_the_rfc8439_keystream() {
    let mut rng = MockRng::new();
    let mut buf = [0u8; 16];
    assert!(rng.read(&mut buf).is_ok());
    assert_eq!(
        buf,
        [72, 96, 233, 206, 76, 137, 7, 111, 35, 126, 76, 28, 232, 174, 17, 12]
    );
    assert_eq!(rng.position(), 16);
}

#[test]
fn read_across_a_block_boundary() {
    let mut rng = MockRng::new();
    let mut skip = [0u8; 60];
    rng.read(&mut skip).unwrap();
    let mut buf = [0u8; 10];
    rng.read(&mut buf).unwrap();
    assert_eq!(buf, [210, 38, 203, 68, 107, 62, 132, 117, 196, 5]);
    assert_eq!(rng.position(), 70);
}

#[test]
fn zeroed_read_matches_the_chacha20_crate() {
    let mut rng = MockRng::new();
    let mut buf = vec![0u8; 200];
    rng.read(&mut buf).unwrap();
    assert_eq!(buf, reference_stream(200));
}

#[test]
fn read_xors_into_what_the_buffer_holds() {
    let mut rng = MockRng::new();
    let mut buf = [0xffu8, 0x00, 0x0f, 0xf0];
    rng.read(&mut buf).unwrap();
    let ks = reference_stream(4);
    assert_eq!(buf, [0xff ^ ks[0], ks[1], 0x0f ^ ks[2], 0xf0 ^ ks[3]]);
}

#[test]
fn consecutive_reads_concatenate() {
    let mut split = MockRng::new();
    let mut a = [0u8; 37];
    let mut b = [0u8; 100];
    split.read(&mut a).unwrap();
    split.read(&mut b).unwrap();

    let mut whole = MockRng::new();
    let mut ab = [0u8; 137];
    whole.read(&mut ab).unwrap();

    assert_eq!(&ab[..37], &a[..]);
    assert_eq!(&ab[37..], &b[..]);
    assert_eq!(split.position(), whole.position());
}

#[test]
fn fresh_generators_agree() {
    let mut r1 = MockRng::new();
    let mut r2 = MockRng::new();
    for len in [1usize, 5, 64, 3, 129] {
        let mut x = vec![0u8; len];
        let mut y = vec![0u8; len];
        r1.read(&mut x).unwrap();
        r2.read(&mut y).unwrap();
        assert_eq!(x, y);
    }
}

#[test]
fn successive_reads_differ() {
    let mut rng = MockRng::new();
    let mut x = [0u8; 32];
    let mut y = [0u8; 32];
    rng.read(&mut x).unwrap();
    rng.read(&mut y).unwrap();
    assert_ne!(x, y);
    assert_ne!(x, [0u8; 32]);
}

#[test]
fn empty_read_changes_nothing() {
    let mut rng = MockRng::new();
    let mut empty: [u8; 0] = [];
    assert!(rng.read(&mut empty).is_ok());
    assert_eq!(rng.position(), 0);
}

#[test]
fn keystream_limit_is_below_the_block_counter_bound() {
    assert_eq!(KEYSTREAM_LIMIT, 64 * (u32::MAX as u64 - 4));
}
