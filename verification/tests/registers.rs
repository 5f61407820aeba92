use gumbel_estimation::registers::{BIAS, MASK, MAX_LEVEL, MIN_LEVEL, SIZE};
use gumbel_estimation::{ceil, Registers};

#[test]
fn new_registers_are_zero() {
    let regs = Registers::new(13);
    assert_eq!(regs.iter(), vec![0u32; 13]);
    let empty = Registers::new(0);
    assert_eq!(empty.iter(), Vec::<u32>::new());
}

#[test]
fn set_writes_one_register() {
    let mut regs = Registers::new(13);
    regs.set(0, 7);
    regs.set(5, 31);
    regs.set(6, 1);
    regs.set(12, 17);
    let mut expected = vec![0u32; 13];
    expected[0] = 7;
    expected[5] = 31;
    expected[6] = 1;
    expected[12] = 17;
    assert_eq!(regs.iter(), expected);
    // overwrite, including with a smaller value
    regs.set(5, 2);
    expected[5] = 2;
    assert_eq!(regs.iter(), expected);
}

#[test]
fn set_caps_at_31() {
    let mut regs = Registers::new(7);
    regs.set(3, 1000);
    regs.set(4, u32::MAX);
    assert_eq!(regs.iter(), vec![0, 0, 0, 31, 31, 0, 0]);
}

#[test]
fn set_spare_slot_leaves_registers() {
    // 7 registers take two words, with 5 spare positions after the last one
    let mut regs = Registers::new(7);
    regs.set(6, 9);
    regs.set(11, 30);
    assert_eq!(regs.iter(), vec![0, 0, 0, 0, 0, 0, 9]);
}

#[test]
fn set_greater_keeps_the_maximum() {
    let mut regs = Registers::new(8);
    regs.set_greater(2, 10);
    regs.set_greater(2, 4);
    regs.set_greater(2, 12);
    regs.set_greater(7, 40);
    regs.set_greater(7, 3);
    assert_eq!(regs.iter(), vec![0, 0, 12, 0, 0, 0, 0, 31]);
}

#[test]
fn set_greater_order_does_not_matter() {
    let values = [(1usize, 5u32), (3, 9), (1, 2), (3, 20), (0, 17), (1, 11)];
    let mut forward = Registers::new(4);
    for &(i, v) in values.iter() {
        forward.set_greater(i, v);
    }
    let mut backward = Registers::new(4);
    for &(i, v) in values.iter().rev() {
        backward.set_greater(i, v);
    }
    assert_eq!(forward.iter(), backward.iter());
    assert_eq!(forward.iter(), vec![17, 11, 0, 20]);
}

#[test]
fn clone_keeps_registers() {
    let mut regs = Registers::new(9);
    regs.set(8, 21);
    let copy = regs.clone();
    assert_eq!(copy.iter(), regs.iter());
}

#[test]
fn ceil_rounds_up() {
    assert_eq!(ceil(0, 6), 0);
    assert_eq!(ceil(1, 6), 1);
    assert_eq!(ceil(6, 6), 1);
    assert_eq!(ceil(7, 6), 2);
    assert_eq!(ceil(65536, 6), 10923);
    assert_eq!(ceil(10, 1), 10);
}

#[test]
fn encode_level_clamps_and_biases() {
    assert_eq!(Registers::encode_level(0), 16);
    assert_eq!(Registers::encode_level(-16), 0);
    assert_eq!(Registers::encode_level(15), 31);
    assert_eq!(Registers::encode_level(-17), 0);
    assert_eq!(Registers::encode_level(i32::MIN), 0);
    assert_eq!(Registers::encode_level(16), 31);
    assert_eq!(Registers::encode_level(i32::MAX), 31);
    assert_eq!(Registers::encode_level(-3), 13);
}

#[test]
fn decode_level_removes_bias() {
    assert_eq!(Registers::decode_level(0), -16);
    assert_eq!(Registers::decode_level(16), 0);
    assert_eq!(Registers::decode_level(31), 15);
}

#[test]
fn level_round_trip() {
    for reg in 0..=31u32 {
        assert_eq!(Registers::encode_level(Registers::decode_level(reg)), reg);
    }
    for level in -40..40i32 {
        let clamped = level.clamp(MIN_LEVEL, MAX_LEVEL);
        assert_eq!(Registers::decode_level(Registers::encode_level(level)), clamped);
    }
}

#[test]
fn constants() {
    assert_eq!(SIZE, 5);
    assert_eq!(BIAS, 16);
    assert_eq!(MASK, 31);
}

#[test]
fn slots_cover_every_register() {
    let mut regs = Registers::new(13);
    regs.slots_cover();
    regs.set(12, 5);
    assert_eq!(regs.iter()[12], 5);
}
