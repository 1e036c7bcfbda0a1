use squares::{key, u32, u64, Key};

const KEY: u64 = 0xaf9ed4c87b8e4fa5;

#[test]
fn u32_known_vectors() {
    let k = Key::unchecked(KEY);
    assert_eq!(u32(k, 0), 0xfad09562);
    assert_eq!(u32(k, 1), 0x6ef1187e);
    assert_eq!(u32(k, 20), 0xe4183f21);
    assert_eq!(u32(k, 21), 0xdb71736b);
    assert_eq!(u32(k, u64::MAX), 0xdeb5ab0f);
}

#[test]
fn u64_known_vectors() {
    let k = Key::unchecked(KEY);
    assert_eq!(u64(k, 0), 0xfad095629bb517ff);
    assert_eq!(u64(k, 1), 0x6ef1187ef3869f3c);
    assert_eq!(u64(k, 20), 0xe4183f218af19d26);
    assert_eq!(u64(k, 21), 0xdb71736bd3bd0d2c);
    assert_eq!(u64(k, u64::MAX), 0xdeb5ab0f607f8920);
}

#[test]
fn master_key_draws() {
    let a = Key::unchecked(0xec13a6976ecf14ad);
    let b = Key::unchecked(0x72f9c8a323a5e4f1);
    assert_eq!(u64(a, 0), 0xf84d43c776090060);
    assert_eq!(u32(b, 0), 0xfc98dadb);
}

#[test]
fn outputs_are_total_at_the_edges() {
    let k = Key::unchecked(KEY);
    for counter in [0u64, 1, u64::MAX - 1, u64::MAX, 1 << 32, (1 << 32) - 1, 1 << 63] {
        let a = u32(k, counter);
        let b = u64(k, counter);
        assert_eq!((b >> 32) as u32, a);
    }
}

#[test]
fn outputs_repeat_for_equal_inputs() {
    let k1 = Key::unchecked(KEY);
    let k2 = Key::checked(KEY).unwrap();
    for counter in 0..1000u64 {
        assert_eq!(u32(k1, counter), u32(k2, counter));
        assert_eq!(u64(k1, counter), u64(k2, counter));
    }
    for index in 0..200u64 {
        assert_eq!(key(index).inner(), key(index).inner());
    }
}

#[test]
fn consecutive_counters_give_a_stream() {
    let k = Key::unchecked(KEY);
    let drawn: Vec<u32> = (20..23u64).map(|c| u32(k, c)).collect();
    assert_eq!(drawn, vec![0xe4183f21, 0xdb71736b, 0x7ab60937]);
}
