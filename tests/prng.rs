use bdsp_ug_search::search::starting_state;
use bdsp_ug_search::xorshift::XorShift;

fn stepped(seed: [u32; 4], n: u64) -> [u32; 4] {
    let mut rng = XorShift::from_state(seed);
    for _ in 0..n {
        rng.advance(1);
    }
    rng.state()
}

fn jumped(seed: [u32; 4], n: u64) -> [u32; 4] {
    let mut rng = XorShift::from_state(seed);
    rng.jump(n);
    rng.state()
}

#[test]
fn state_round_trips() {
    let rng = XorShift::from_state([1, 2, 3, 4]);
    assert_eq!(rng.state(), [1, 2, 3, 4]);
}

#[test]
fn one_step_exact_value() {
    let mut rng = XorShift::from_state([1, 2, 3, 4]);
    rng.step_once();
    assert_eq!(rng.state(), [2, 3, 4, 0x80d]);
}

#[test]
fn advance_counts_single_steps() {
    let mut a = XorShift::from_state([0x1234_5678, 0x9abc_def0, 0x0fed_cba9, 0x8765_4321]);
    a.advance(3);
    let mut b = XorShift::from_state([0x1234_5678, 0x9abc_def0, 0x0fed_cba9, 0x8765_4321]);
    b.step_once();
    b.step_once();
    b.step_once();
    assert_eq!(a, b);
}

#[test]
fn jump_equals_single_steps() {
    let seed = [0x1234_5678, 0x9abc_def0, 0x0fed_cba9, 0x8765_4321];
    for n in [0u64, 1, 2, 3, 127, 128, 129, 4095, 4096, 4097, 100000] {
        assert_eq!(jumped(seed, n), stepped(seed, n), "n = {}", n);
    }
}

#[test]
fn jump_equals_single_steps_from_unit_seed() {
    let seed = [0, 0, 0, 1];
    for n in [0u64, 1, 4095, 4096, 4097, 100000] {
        assert_eq!(jumped(seed, n), stepped(seed, n), "n = {}", n);
    }
}

#[test]
fn zero_steps_change_nothing() {
    let seed = [0xdead_beef, 1, 0xffff_ffff, 42];
    let mut a = XorShift::from_state(seed);
    a.advance(0);
    assert_eq!(a.state(), seed);
    let mut j = XorShift::from_state(seed);
    j.jump(0);
    assert_eq!(j.state(), seed);
}

#[test]
fn large_jumps_compose() {
    let seed = [0x1111_1111, 0x2222_2222, 0x3333_3333, 0x4444_4444];
    let a: u64 = 1 << 40;
    let b: u64 = 0x0123_4567_89ab;
    let mut x = XorShift::from_state(seed);
    x.jump(a);
    x.jump(b);
    let mut y = XorShift::from_state(seed);
    y.jump(a + b);
    assert_eq!(x, y);
    let mut z = XorShift::from_state(seed);
    z.jump(u64::MAX);
    let mut w = XorShift::from_state(seed);
    w.jump(u64::MAX - 5);
    w.advance(5);
    assert_eq!(z, w);
}

#[test]
fn zero_state_is_fixed() {
    assert_eq!(jumped([0, 0, 0, 0], 12345), [0, 0, 0, 0]);
}

#[test]
fn starting_state_below_and_above_threshold() {
    let seed = XorShift::from_state([5, 6, 7, 8]);
    for (min, delay) in [(0u32, 0u32), (10, 3), (4095, 2), (4096, 0), (4096, 7), (5000, 1)] {
        let s = starting_state(seed, min, delay);
        assert_eq!(s.state(), stepped([5, 6, 7, 8], min as u64 + delay as u64));
    }
}
