use gumbel_estimation::{GHLLPlus, GumbelError};

fn index_init(_b: &u64, _t: &(), i: usize) -> u32 {
    (i % 32) as u32
}

fn top_bits_code(_b: &u64, _t: &(), _i: usize, rest: u32) -> u32 {
    rest >> 27
}

#[test]
fn with_precision_rejects_out_of_range() {
    for p in [0u8, 1, 3, 17, 32, 255] {
        let res = GHLLPlus::with_precision(p, 7u64, (), index_init);
        assert!(matches!(res, Err(GumbelError::InvalidPrecision)));
    }
}

#[test]
fn with_precision_initialises_registers() {
    let est = GHLLPlus::with_precision(4, 7u64, (), index_init).unwrap();
    assert_eq!(est.precision(), 4);
    assert_eq!(est.no_registers(), 16);
    assert_eq!(est.free_count(), 16);
    assert!(est.occupied_registers().is_empty());
    let expected: Vec<u32> = (0..16).collect();
    assert_eq!(est.registers().iter(), expected);
    assert_eq!(*est.builder(), 7);

    let big = GHLLPlus::with_precision(16, 0u64, (), |_: &u64, _: &(), _: usize| 100).unwrap();
    assert_eq!(big.no_registers(), 65536);
    assert!(big.registers().iter().iter().all(|&r| r == 31));
}

#[test]
fn add_takes_register_and_raises_it() {
    let mut est = GHLLPlus::with_precision(4, 0u64, (), |_: &u64, _: &(), _: usize| 3).unwrap();
    // low word 0x5F00_0000: register 5, remaining bits 0xF000_0000, code 30
    est.add(0xAAAA_AAAA_5F00_0000, top_bits_code);
    assert_eq!(est.free_count(), 15);
    assert_eq!(est.occupied_registers(), vec![(5usize, 30u32)]);
    // a smaller code does not lower the register
    est.add(0x5000_0000, top_bits_code);
    assert_eq!(est.free_count(), 15);
    assert_eq!(est.occupied_registers(), vec![(5usize, 30u32)]);
    // another register
    est.add(0x0800_0000, top_bits_code);
    assert_eq!(est.free_count(), 14);
    // low word 0x0800_0000: register 0, remaining bits 0x8000_0000, code 16
    assert_eq!(est.occupied_registers(), vec![(0usize, 16u32), (5usize, 30u32)]);
}

#[test]
fn add_is_idempotent_and_order_free() {
    let hashes = [0x1234_5678u64, 0xFEDC_BA98, 0x0F0F_0F0F, 0x1234_5678, 0x8765_4321];
    let mut a = GHLLPlus::with_precision(5, 0u64, (), index_init).unwrap();
    for &h in hashes.iter() {
        a.add(h, top_bits_code);
    }
    let mut b = GHLLPlus::with_precision(5, 0u64, (), index_init).unwrap();
    for &h in hashes.iter().rev() {
        b.add(h, top_bits_code);
        b.add(h, top_bits_code);
    }
    assert_eq!(a.registers().iter(), b.registers().iter());
    assert_eq!(a.free_count(), b.free_count());
    assert_eq!(a.occupied_registers(), b.occupied_registers());
    assert_eq!(a.free_count() + a.occupied_registers().len(), a.no_registers());
}

#[test]
fn add_code_sees_builder_transform_and_rest() {
    let mut est = GHLLPlus::with_precision(4, 9u64, 2u8, |_: &u64, _: &u8, _: usize| 0).unwrap();
    est.add(0x3000_0001, |b: &u64, t: &u8, i: usize, rest: u32| {
        (*b as u32) + (*t as u32) + (i as u32) + (rest >> 4)
    });
    // index 3, rest 0x10: 9 + 2 + 3 + 1
    assert_eq!(est.occupied_registers(), vec![(3usize, 15u32)]);
}

#[test]
fn clone_keeps_state() {
    let mut est = GHLLPlus::with_precision(4, 1u64, (), index_init).unwrap();
    est.add(0x7800_0000, top_bits_code);
    let copy = est.clone();
    assert_eq!(copy.precision(), est.precision());
    assert_eq!(copy.free_count(), 15);
    assert_eq!(copy.registers().iter(), est.registers().iter());
    assert_eq!(copy.occupied_registers(), vec![(7usize, 16u32)]);
    assert_eq!(*copy.builder(), 1);
    assert_eq!(*copy.transform(), ());
}
