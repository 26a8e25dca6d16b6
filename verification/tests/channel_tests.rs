//! Tests of the byte channel, the bit-tracking wrapper and the hashing
//! wrapper.

use fancy_garbling::channel::Channel;
use fancy_garbling::hash_channel::HashChannel;
use fancy_garbling::track_channel::TrackChannel;

#[test]
fn typed_round_trips() {
    let mut w = Channel::new(Vec::new(), Vec::new());
    w.write_u8(7);
    w.write_bool(true);
    w.write_u16(0xbeef);
    w.write_u32(0xdeadbeef);
    w.write_u64(0x0123_4567_89ab_cdef);
    w.write_block(0x1111_2222_3333_4444_5555_6666_7777_8888);
    let bytes = w.take_written();
    let mut r = Channel::new(bytes, Vec::new());
    assert_eq!(r.read_u8().unwrap(), 7);
    assert_eq!(r.read_bool().unwrap(), true);
    assert_eq!(r.read_u16().unwrap(), 0xbeef);
    assert_eq!(r.read_u32().unwrap(), 0xdeadbeef);
    assert_eq!(r.read_u64().unwrap(), 0x0123_4567_89ab_cdef);
    assert_eq!(r.read_block().unwrap(), 0x1111_2222_3333_4444_5555_6666_7777_8888);
    assert_eq!(r.unread_len(), 0);
    assert!(r.read_u8().is_err());
}

#[test]
fn short_read_fails_and_preserves() {
    let mut c = Channel::new(vec![1, 2, 3], Vec::new());
    assert!(c.read_u32().is_err());
    // The failed read consumed nothing.
    assert_eq!(c.unread_len(), 3);
    let got = c.read_bytes(3).unwrap();
    assert_eq!(got, vec![1, 2, 3]);
}

#[test]
fn feed_appends() {
    let mut c = Channel::new(vec![1], Vec::new());
    c.feed(&[2, 3]);
    assert_eq!(c.read_bytes(3).unwrap(), vec![1, 2, 3]);
}

#[test]
fn tracking_counts_exact_bits() {
    // nbits counters equal eight times the bytes moved, over any sequence.
    let inner = Channel::new(vec![9; 40], Vec::new());
    let mut t = TrackChannel::new(inner);
    assert_eq!(t.nbits_written(), 0);
    assert_eq!(t.nbits_read(), 0);
    t.write_bytes(&[1, 2, 3]);
    t.write_bytes(&[4]);
    let _ = t.read_bytes(10).unwrap();
    t.write_bytes(&[5, 6]);
    let _ = t.read_bytes(7).unwrap();
    assert_eq!(t.nbits_written(), 8 * 6);
    assert_eq!(t.nbits_read(), 8 * 17);
    // A failed read counts nothing.
    assert!(t.read_bytes(1000).is_err());
    assert_eq!(t.nbits_read(), 8 * 17);
    t.clear();
    assert_eq!(t.nbits_written(), 0);
    assert_eq!(t.nbits_read(), 0);
    // Counting resumes after a reset.
    t.write_bytes(&[7]);
    assert_eq!(t.nbits_written(), 8);
}

#[test]
fn hash_channel_digests_traffic() {
    let mut a = HashChannel::new(Channel::new(vec![1, 2, 3, 4], Vec::new()));
    a.write_bytes(&[9, 9]);
    let _ = a.read_bytes(4).unwrap();
    let da = a.finish();

    // The same traffic gives the same digest.
    let mut b = HashChannel::new(Channel::new(vec![1, 2, 3, 4], Vec::new()));
    b.write_bytes(&[9, 9]);
    let _ = b.read_bytes(4).unwrap();
    let db = b.finish();
    assert_eq!(da, db);

    // Different traffic gives a different digest, and the digest is not the
    // transcript handed back.
    let mut c = HashChannel::new(Channel::new(vec![1, 2, 3, 5], Vec::new()));
    c.write_bytes(&[9, 9]);
    let _ = c.read_bytes(4).unwrap();
    let dc = c.finish();
    assert_ne!(da, dc);
    assert_eq!(da.len(), 32);
    assert_ne!(&da[..], &[9u8, 9, 1, 2, 3, 4][..]);
}

#[test]
fn usize_and_block_batches() {
    let mut w = Channel::new(Vec::new(), Vec::new());
    w.write_usize(123456);
    w.write_block(1);
    w.write_block(2);
    let mut r = Channel::new(w.take_written(), Vec::new());
    assert_eq!(r.read_usize().unwrap(), 123456);
    let blocks = r.read_blocks(2).unwrap();
    assert_eq!(blocks, vec![1, 2]);
    assert!(r.read_blocks(1).is_err());
}
