use speaklab_server::mean::mean;

/// The mean as the processor works it out.
fn reference(all: &[f64]) -> f64 {
    let mut sum = 0f64;
    for x in all {
        sum += x;
    }
    f64::from((sum / all.len() as f64) as f32)
}

fn agrees(all: &[f64]) {
    let bits: Vec<u64> = all.iter().map(|x| x.to_bits()).collect();
    let got = f64::from_bits(mean(&bits));
    let want = reference(all);
    assert!(
        got.to_bits() == want.to_bits() || (got.is_nan() && want.is_nan()),
        "mean of {:?} is {:?}, not {:?}",
        all,
        got,
        want
    );
}

/// Bits that look like chance, always the same.
fn next(state: &mut u64) -> u64 {
    *state ^= *state << 13;
    *state ^= *state >> 7;
    *state ^= *state << 17;
    *state
}

#[test]
fn scores_are_averaged_as_the_processor_does() {
    let mut state = 0x9E37_79B9_7F4A_7C15;
    for n in 1..400 {
        let scores: Vec<f64> =
            (0..n).map(|_| f64::from((next(&mut state) >> 40) as f32 / (1u64 << 24) as f32)).collect();
        agrees(&scores);
    }
    agrees(&[f64::from(0.8f32), f64::from(0.6f32), 1.0]);
}

#[test]
fn any_bits_are_averaged_as_the_processor_does() {
    let mut state = 0x1234_5678_9ABC_DEF1;
    for _ in 0..20_000 {
        let n = 1 + next(&mut state) % 4;
        let all: Vec<f64> = (0..n).map(|_| f64::from_bits(next(&mut state))).collect();
        agrees(&all);
    }
    // Numbers of about the same size, so that digits cancel and halves come up.
    for _ in 0..20_000 {
        let n = 1 + next(&mut state) % 7;
        let all: Vec<f64> = (0..n)
            .map(|_| {
                let r = next(&mut state);
                let exponent = 1023 + r % 5 * 14;
                f64::from_bits((r & 0x8000_0000_0000_0000) | exponent << 52 | (r >> 12) & (0xF_FFFF << (r % 33)))
            })
            .collect();
        agrees(&all);
    }
}

#[test]
fn the_edges_are_averaged_as_the_processor_does() {
    let edges = [
        0.0, -0.0, 1.0, -1.0, 5e-324, -5e-324, f64::MIN_POSITIVE, f64::MAX, f64::MIN, f64::INFINITY, f64::NEG_INFINITY,
        f64::NAN, f64::from(f32::MAX), f64::from(f32::MIN_POSITIVE), 1.401298464324817e-45, 7.006492321624085e-46,
        7.006492321624086e-46, 3.4028235677973366e38, 3.4028235677973362e38, 9007199254740992.0, 9007199254740993.0,
        0.1, 1.0 + f64::EPSILON, 1.00000005960464478, 2.1019476964872256e-45,
    ];
    for a in edges {
        agrees(&[a]);
        for b in edges {
            agrees(&[a, b]);
            for c in edges {
                agrees(&[a, b, c]);
            }
        }
    }
}
