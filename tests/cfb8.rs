use minecraft_protocol::cfb8_stream::{CFB8ReadHalf, CFB8Stream, CFB8WriteHalf};

fn encrypt_chunks(key: &[u8; 16], data: &[u8], sizes: &[usize]) -> Vec<u8> {
    let mut w = CFB8WriteHalf::new((), key).unwrap();
    let mut out = Vec::new();
    let mut at = 0;
    let mut k = 0;
    while at < data.len() {
        let n = sizes[k % sizes.len()].min(data.len() - at);
        let enc = w.encrypt(&data[at..at + n]).unwrap();
        assert_eq!(enc.len(), n);
        out.extend_from_slice(&enc);
        at += n;
        k += 1;
    }
    out
}

fn decrypt_chunks(key: &[u8; 16], data: &[u8], sizes: &[usize]) -> Vec<u8> {
    let mut r = CFB8ReadHalf::new((), key).unwrap();
    let mut buf = Vec::new();
    let mut at = 0;
    let mut k = 0;
    while at < data.len() {
        let n = sizes[k % sizes.len()].min(data.len() - at);
        let pre = buf.len();
        buf.extend_from_slice(&data[at..at + n]);
        r.decrypt_filled(&mut buf[..], pre).unwrap();
        at += n;
        k += 1;
    }
    buf
}

#[test]
fn cipher_round_trip_in_chunks() {
    let key = [7u8; 16];
    let data: Vec<u8> = (0..1000u32).map(|i| (i * 31 % 251) as u8).collect();
    let sealed = encrypt_chunks(&key, &data, &[1, 3, 17, 5, 100]);
    assert_ne!(sealed, data);
    assert_eq!(decrypt_chunks(&key, &sealed, &[7, 2, 33, 1]), data);
    assert_eq!(decrypt_chunks(&key, &sealed, &[1000]), data);
    assert_eq!(encrypt_chunks(&key, &data, &[1000]), sealed);
}

#[test]
fn different_keys_differ() {
    let data = vec![0x42u8; 64];
    let a = encrypt_chunks(&[1u8; 16], &data, &[64]);
    let b = encrypt_chunks(&[2u8; 16], &data, &[64]);
    assert_ne!(a, b);
}

#[test]
fn stream_halves_pair_up() {
    let key = [9u8; 16];
    let s = CFB8Stream::new(1u8, 2u8, &key).unwrap();
    let (mut r, mut w) = s.split();
    let sealed = w.encrypt(b"login start").unwrap();
    let mut buf = sealed.clone();
    r.decrypt_filled(&mut buf[..], 0).unwrap();
    assert_eq!(buf, b"login start".to_vec());
    assert_eq!((r.into_inner(), w.into_inner()), (1u8, 2u8));
    let s = CFB8Stream::new(3u8, 4u8, &key).unwrap();
    assert_eq!(s.split_inner(), (3u8, 4u8));
}

#[test]
fn decrypt_leaves_earlier_bytes() {
    let key = [5u8; 16];
    let mut r = CFB8ReadHalf::new((), &key).unwrap();
    let mut buf = vec![1, 2, 3, 0xAA, 0xBB];
    r.decrypt_filled(&mut buf[..], 3).unwrap();
    assert_eq!(&buf[..3], &[1, 2, 3]);
}
