use rand_core::RngCore;
use squares::{u32, u64, Key, Squares};

const KEY: u64 = 0xaf9ed4c87b8e4fa5;

fn cursor_at(index: u64) -> Squares {
    Squares::with_key(Key::unchecked(KEY)).with_index(index)
}

#[test]
fn cursor_starts_at_zero() {
    let rng = Squares::with_key(Key::unchecked(KEY));
    assert_eq!(rng.index(), 0);
}

#[test]
fn cursor_position_can_be_set_and_read() {
    assert_eq!(cursor_at(20).index(), 20);
    assert_eq!(cursor_at(20).with_index(7).index(), 7);
    assert_eq!(cursor_at(u64::MAX).index(), u64::MAX);
}

#[test]
fn skip_adds_to_the_position() {
    assert_eq!(cursor_at(20).skip(0).index(), 20);
    assert_eq!(cursor_at(20).skip(5).index(), 25);
    assert_eq!(cursor_at(20).skip(5).skip(7).index(), 32);
}

#[test]
fn skip_wraps_round() {
    assert_eq!(cursor_at(u64::MAX).skip(1).index(), 0);
    assert_eq!(cursor_at(u64::MAX - 1).skip(5).index(), 3);
    assert_eq!(cursor_at(20).skip(u64::MAX).index(), 19);
}

#[test]
fn next_u32_draws_and_moves_on() {
    let mut rng = cursor_at(20);
    assert_eq!(rng.next_u32(), 0xe4183f21);
    assert_eq!(rng.index(), 21);
    assert_eq!(rng.next_u32(), 0xdb71736b);
    assert_eq!(rng.next_u32(), 0x7ab60937);
    assert_eq!(rng.index(), 23);
}

#[test]
fn next_u64_draws_and_moves_on() {
    let mut rng = cursor_at(20);
    assert_eq!(rng.next_u64(), 0xe4183f218af19d26);
    assert_eq!(rng.index(), 21);
    assert_eq!(rng.next_u64(), 0xdb71736bd3bd0d2c);
    assert_eq!(rng.next_u64(), 0x7ab60937c7aa5461);
    assert_eq!(rng.index(), 23);
}

#[test]
fn draws_agree_with_the_generator() {
    let k = Key::unchecked(KEY);
    let mut rng = Squares::with_key(k);
    for counter in 0..100u64 {
        assert_eq!(rng.index(), counter);
        if counter % 2 == 0 {
            assert_eq!(rng.next_u32(), u32(k, counter));
        } else {
            assert_eq!(rng.next_u64(), u64(k, counter));
        }
    }
}

#[test]
fn draws_wrap_round_at_the_last_position() {
    let mut rng = cursor_at(u64::MAX);
    assert_eq!(rng.next_u32(), 0xdeb5ab0f);
    assert_eq!(rng.index(), 0);
    let mut rng = cursor_at(u64::MAX);
    assert_eq!(rng.next_u64(), 0xdeb5ab0f607f8920);
    assert_eq!(rng.index(), 0);
}

fn filled(index: u64, len: usize) -> (Vec<u8>, u64) {
    let mut rng = cursor_at(index);
    let mut dest = vec![0xaau8; len];
    rng.fill_bytes(&mut dest);
    (dest, rng.index())
}

#[test]
fn fill_bytes_of_nothing_draws_nothing() {
    assert_eq!(filled(20, 0), (vec![], 20));
}

#[test]
fn fill_bytes_short_tail_comes_from_a_32_bit_draw() {
    assert_eq!(filled(20, 1), (vec![0x21], 21));
    assert_eq!(filled(20, 3), (vec![0x21, 0x3f, 0x18], 21));
    assert_eq!(filled(20, 4), (vec![0x21, 0x3f, 0x18, 0xe4], 21));
}

#[test]
fn fill_bytes_long_tail_comes_from_a_64_bit_draw() {
    assert_eq!(filled(20, 5), (vec![0x26, 0x9d, 0xf1, 0x8a, 0x21], 21));
    assert_eq!(filled(20, 7), (vec![0x26, 0x9d, 0xf1, 0x8a, 0x21, 0x3f, 0x18], 21));
}

#[test]
fn fill_bytes_full_groups() {
    assert_eq!(filled(20, 8), (vec![0x26, 0x9d, 0xf1, 0x8a, 0x21, 0x3f, 0x18, 0xe4], 21));
    assert_eq!(
        filled(20, 16),
        (
            vec![
                0x26, 0x9d, 0xf1, 0x8a, 0x21, 0x3f, 0x18, 0xe4, 0x2c, 0x0d, 0xbd, 0xd3, 0x6b, 0x73,
                0x71, 0xdb
            ],
            22
        )
    );
}

#[test]
fn fill_bytes_groups_and_tail() {
    assert_eq!(
        filled(20, 9),
        (vec![0x26, 0x9d, 0xf1, 0x8a, 0x21, 0x3f, 0x18, 0xe4, 0x6b], 22)
    );
    assert_eq!(
        filled(20, 12),
        (vec![0x26, 0x9d, 0xf1, 0x8a, 0x21, 0x3f, 0x18, 0xe4, 0x6b, 0x73, 0x71, 0xdb], 22)
    );
    assert_eq!(
        filled(20, 13),
        (
            vec![0x26, 0x9d, 0xf1, 0x8a, 0x21, 0x3f, 0x18, 0xe4, 0x2c, 0x0d, 0xbd, 0xd3, 0x6b],
            22
        )
    );
    assert_eq!(
        filled(20, 20),
        (
            vec![
                0x26, 0x9d, 0xf1, 0x8a, 0x21, 0x3f, 0x18, 0xe4, 0x2c, 0x0d, 0xbd, 0xd3, 0x6b, 0x73,
                0x71, 0xdb, 0x37, 0x09, 0xb6, 0x7a
            ],
            23
        )
    );
}

#[test]
fn fill_bytes_wraps_round() {
    assert_eq!(
        filled(u64::MAX, 9),
        (vec![0x20, 0x89, 0x7f, 0x60, 0x0f, 0xab, 0xb5, 0xde, 0x62], 1)
    );
}

#[test]
fn try_fill_bytes_fills_like_fill_bytes() {
    for len in 0..40usize {
        let mut rng = cursor_at(20);
        let mut dest = vec![0u8; len];
        assert!(rng.try_fill_bytes(&mut dest).is_ok());
        assert_eq!((dest, rng.index()), filled(20, len));
    }
}

#[test]
fn fill_bytes_matches_the_draws() {
    let k = Key::unchecked(KEY);
    for len in 0..64usize {
        let (bytes, end) = filled(1000, len);
        assert_eq!(end, 1000 + ((len as u64) + 7) / 8);
        for (i, byte) in bytes.iter().enumerate() {
            let at = 1000 + (i as u64) / 8;
            let word = if len - 8 * (i / 8) > 4 { u64(k, at) } else { u32(k, at) as u64 };
            assert_eq!(*byte, (word >> (8 * (i % 8))) as u8);
        }
    }
}
