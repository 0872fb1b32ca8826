use rand::{RngCore, SeedableRng};
use rand_xoshiro::Xoshiro256PlusPlus;
use random_line::random::{skip_from_draw, RandomSource, XoshiroSource};
use random_line::sampler::{
    try_iterator_choose_one_pass, try_iterator_choose_recur, try_iterator_choose_skip, SkipState,
};
use random_line::sequence::VecSequence;

fn three_items() -> Vec<Result<u32, String>> {
    vec![Ok(0), Ok(1), Ok(2)]
}

fn assert_roughly_uniform(counts: &[u64; 3], trials: u64) {
    // Mean is trials / 3; allow a band of five percent of the trials on each
    // side, many standard deviations wide, so the test only fails on a real
    // bias, never on noise.
    let lo = trials / 3 - trials / 20;
    let hi = trials / 3 + trials / 20;
    for &c in counts.iter() {
        assert!(
            lo <= c && c <= hi,
            "count {} outside [{}, {}] over {} trials",
            c,
            lo,
            hi,
            trials
        );
    }
}

#[test]
fn uniformity_one_pass() {
    let trials = 30_000u64;
    let mut counts = [0u64; 3];
    for seed in 0..trials {
        let mut s = VecSequence::new(three_items());
        let mut rng = XoshiroSource::seed_from_u64(seed);
        let v = try_iterator_choose_one_pass(&mut s, &mut rng).unwrap().unwrap();
        counts[v as usize] += 1;
    }
    assert_roughly_uniform(&counts, trials);
}

#[test]
fn uniformity_recursive() {
    let trials = 30_000u64;
    let mut counts = [0u64; 3];
    for seed in 0..trials {
        let mut s = VecSequence::new(three_items());
        let mut rng = XoshiroSource::seed_from_u64(seed);
        let v = try_iterator_choose_recur(&mut s, &mut rng, 1, None)
            .unwrap()
            .unwrap();
        counts[v as usize] += 1;
    }
    assert_roughly_uniform(&counts, trials);
}

#[test]
fn uniformity_skip_ahead() {
    let trials = 30_000u64;
    let mut counts = [0u64; 3];
    for seed in 0..trials {
        let mut s = VecSequence::new(three_items());
        let mut rng = XoshiroSource::seed_from_u64(seed);
        let v = try_iterator_choose_skip(&mut s, &mut rng).unwrap().unwrap();
        counts[v as usize] += 1;
    }
    assert_roughly_uniform(&counts, trials);
}

#[test]
fn skip_state_moves_strictly_forward() {
    let mut state = SkipState::new();
    assert_eq!(state.index1, 1);
    assert_eq!(state.offset, 1);
    let mut rng = XoshiroSource::seed_from_u64(11);
    let mut saw_long_skip = false;
    for _ in 0..2000 {
        let before = state.index1;
        state.step(&mut rng);
        assert!(state.offset >= 1);
        assert!(state.index1 > before || before == usize::MAX);
        if state.offset > 1 {
            saw_long_skip = true;
        }
    }
    assert!(saw_long_skip);
}

#[test]
fn uniform_range_draws_stay_in_range_and_vary() {
    let mut rng = XoshiroSource::seed_from_u64(5);
    let mut seen_nonzero = false;
    let mut seen_distinct = false;
    let mut previous: Option<usize> = None;
    for _ in 0..500 {
        let d = rng.draw_uniform_range(10, 20);
        assert!(10 <= d && d < 20);
        if d != 10 {
            seen_nonzero = true;
        }
        if let Some(p) = previous {
            if p != d {
                seen_distinct = true;
            }
        }
        previous = Some(d);
    }
    assert!(seen_nonzero && seen_distinct);
}

#[test]
fn skip_from_draw_exact_values() {
    // A zero draw (unit draw 0) gives the minimum distance of one.
    assert_eq!(skip_from_draw(0, 1), 1);
    assert_eq!(skip_from_draw(0, 1_000_000), 1);

    // A draw of 2^52 is the unit draw one half, so the distance is exactly
    // ceil(index1 * (1/2) / (1/2)) == index1.
    let half = 1u64 << 52;
    assert_eq!(skip_from_draw(half, 1), 1);
    assert_eq!(skip_from_draw(half, 7), 7);
    assert_eq!(skip_from_draw(half, 123_456), 123_456);

    // The largest draw at position 1: ceil((2^53 - 1) / 1) == 2^53 - 1.
    let top = (1u64 << 53) - 1;
    assert_eq!(skip_from_draw(top, 1), (1usize << 53) - 1);

    // The largest draw at a huge position pins to the machine's range.
    assert_eq!(skip_from_draw(top, usize::MAX), usize::MAX);
}

#[test]
fn skip_distance_matches_its_formula_exactly() {
    // The source turns the top 53 bits of one 64-bit draw into a unit draw
    // v = u / 2^53 and hands back ceil(v * index1 / (1 - v)), floored at one.
    // Recompute that from the same seed, both exactly over the integers and
    // through the floating-point form of the formula.
    for seed in 0..50u64 {
        for &index1 in &[1usize, 2, 3, 10, 1000, 1_000_000_000] {
            let mut raw_rng = Xoshiro256PlusPlus::seed_from_u64(seed);
            let u = raw_rng.next_u64() >> 11;

            let num = (u as u128) * (index1 as u128);
            let den = (1u128 << 53) - (u as u128);
            let mut expected = num.div_ceil(den);
            if expected < 1 {
                expected = 1;
            }
            if expected > usize::MAX as u128 {
                expected = usize::MAX as u128;
            }

            let mut source = XoshiroSource::seed_from_u64(seed);
            let got = source.skip_distance(index1);
            assert_eq!(got as u128, expected);

            let v = (u as f64) / (1u64 << 53) as f64;
            let float_form = ((v * index1 as f64 / (1.0 - v)).ceil() as usize).max(1);
            let difference = if got > float_form {
                got - float_form
            } else {
                float_form - got
            };
            // The floating-point form rounds the quotient before taking the
            // ceiling, so it may land one step away from the exact value.
            assert!(difference <= 1, "got {} but the formula gives {}", got, float_form);
        }
    }
}

#[test]
fn skip_distances_follow_the_position() {
    // For position 1 the distance is ceil(v / (1 - v)), which is 1 whenever
    // the unit draw v is below one half: short skips must dominate.
    let mut rng = XoshiroSource::seed_from_u64(9);
    let mut ones = 0u32;
    let draws = 1000u32;
    for _ in 0..draws {
        let d = rng.skip_distance(1);
        assert!(d >= 1);
        if d == 1 {
            ones += 1;
        }
    }
    assert!(ones > draws / 3);

    // For a large position the distance is rarely 1: a draw of v lands on 1
    // only when v * index1 <= 1 - v.
    let mut rng = XoshiroSource::seed_from_u64(9);
    let mut ones = 0u32;
    for _ in 0..draws {
        let d = rng.skip_distance(1_000_000);
        assert!(d >= 1);
        if d == 1 {
            ones += 1;
        }
    }
    assert!(ones < draws / 3);
}
