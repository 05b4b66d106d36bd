use hover_train::binary32::Binary32;

fn soft(x: f32) -> Binary32 {
    Binary32 { bits: x.to_bits() }
}

/// Equal bits, or both not a number.
fn agree(mine: Binary32, theirs: f32) -> bool {
    if theirs.is_nan() {
        mine.is_nan()
    } else {
        mine.bits == theirs.to_bits()
    }
}

/// Bit patterns at the edges of every range.
fn edges() -> Vec<u32> {
    let mut bits = Vec::new();
    for magnitude in [
        0x0000_0000u32, 0x0000_0001, 0x0000_0002, 0x0000_0003, 0x0012_3456, 0x007f_fffe,
        0x007f_ffff, 0x0080_0000, 0x0080_0001, 0x0100_0000, 0x0180_0000, 0x0cff_ffff,
        0x1980_0000, 0x2b00_0001, 0x3300_0000, 0x337f_ffff, 0x3380_0000, 0x3380_0001,
        0x3e99_999a, 0x3f00_0000, 0x3f33_3333, 0x3f7f_ffff, 0x3f80_0000, 0x3f80_0001,
        0x4000_0000, 0x4049_0fdb, 0x40c9_0fdb, 0x4280_0000, 0x4b7f_ffff, 0x4b80_0000,
        0x4b80_0001, 0x4eff_ffff, 0x4f00_0000, 0x5f00_0000, 0x7e80_0000, 0x7f00_0000,
        0x7f7f_fffe, 0x7f7f_ffff, 0x7f80_0000, 0x7f80_0001, 0x7fc0_0000,
    ] {
        bits.push(magnitude);
        bits.push(magnitude | 0x8000_0000);
    }
    bits
}

/// A fixed run of pseudo-random bit patterns.
fn scattered(count: usize) -> Vec<u32> {
    let mut state: u64 = 0x9e37_79b9_7f4a_7c15;
    let mut bits = Vec::new();
    for _ in 0..count {
        state ^= state << 13;
        state ^= state >> 7;
        state ^= state << 17;
        bits.push((state >> 16) as u32);
    }
    bits
}

fn pairs() -> Vec<(u32, u32)> {
    let mut all = Vec::new();
    let edges = edges();
    for &a in &edges {
        for &b in &edges {
            all.push((a, b));
        }
    }
    let random = scattered(40_000);
    for i in 1..random.len() {
        all.push((random[i - 1], random[i]));
        // Nearby exponents, where sums cancel and round.
        all.push((random[i - 1], (random[i - 1] & 0xff80_0000) ^ (random[i] & 0x81ff_ffff)));
    }
    all
}

#[test]
fn sums_match_the_hardware() {
    for (a, b) in pairs() {
        let (x, y) = (f32::from_bits(a), f32::from_bits(b));
        assert!(agree(soft(x).plus(soft(y)), x + y), "{a:#x} + {b:#x}");
        assert!(agree(soft(x).minus(soft(y)), x - y), "{a:#x} - {b:#x}");
    }
}

#[test]
fn products_match_the_hardware() {
    for (a, b) in pairs() {
        let (x, y) = (f32::from_bits(a), f32::from_bits(b));
        assert!(agree(soft(x).times(soft(y)), x * y), "{a:#x} * {b:#x}");
    }
}

#[test]
fn quotients_match_the_hardware() {
    for (a, b) in pairs() {
        let (x, y) = (f32::from_bits(a), f32::from_bits(b));
        assert!(agree(soft(x).over(soft(y)), x / y), "{a:#x} / {b:#x}");
    }
}

#[test]
fn remainders_match_the_hardware() {
    for (a, b) in pairs() {
        let (x, y) = (f32::from_bits(a), f32::from_bits(b));
        assert!(agree(soft(x).remainder(soft(y)), x % y), "{a:#x} % {b:#x}");
    }
}

#[test]
fn comparisons_match_the_hardware() {
    for (a, b) in pairs() {
        let (x, y) = (f32::from_bits(a), f32::from_bits(b));
        assert_eq!(soft(x).lt(soft(y)), x < y);
        assert_eq!(soft(x).le(soft(y)), x <= y);
        assert_eq!(soft(x).equals(soft(y)), x == y);
        assert_eq!(soft(x).negated().bits, (-x).to_bits());
    }
}

#[test]
fn conversions_match_the_hardware() {
    let mut all = edges();
    all.extend(scattered(40_000));
    for &a in &all {
        let x = f32::from_bits(a);
        assert_eq!(soft(x).to_i32(), x as i32, "{a:#x} as i32");
        assert_eq!(soft(x).round_to_i32(), x.round() as i32, "{a:#x} round");
        assert_eq!(Binary32::from_i32(a as i32).bits, (a as i32 as f32).to_bits());
        assert_eq!(Binary32::from_u32(a).bits, (a as f32).to_bits());
    }
    for i in [-2.5f32, -1.5, -0.5, 0.49999997, 0.5, 1.5, 2.5, 8388607.5, 2147483648.0] {
        assert_eq!(soft(i).round_to_i32(), i.round() as i32);
    }
}

#[test]
fn clamping_matches_the_hardware() {
    for (a, b) in pairs() {
        let (x, y) = (f32::from_bits(a), f32::from_bits(b).abs());
        if y.is_nan() {
            continue;
        }
        let mine = soft(x).clamp(soft(-y), soft(y));
        assert!(agree(mine, x.clamp(-y, y)), "{a:#x} clamp {b:#x}");
    }
}

#[test]
fn exact_values() {
    assert_eq!(soft(0.1).plus(soft(0.2)).bits, 0x3e99_999a);
    assert_eq!(soft(0.7).times(soft(0.7)).bits, (0.7f32 * 0.7).to_bits());
    assert_eq!(soft(1.0).over(soft(3.0)).bits, 0x3eaa_aaab);
    assert_eq!(soft(5.5).remainder(soft(2.0)).bits, soft(1.5).bits);
    assert_eq!(soft(-5.5).remainder(soft(2.0)).bits, soft(-1.5).bits);
    assert_eq!(soft(-0.0).plus(soft(-0.0)).bits, 0x8000_0000);
    assert_eq!(soft(1.0).minus(soft(1.0)).bits, 0);
}

#[test]
fn rounding_returns_the_closest_number() {
    // Halfway between 1 and the next number: the even one is taken.
    assert_eq!(Binary32::round(0x100_0001, 149 - 24), 0x3f80_0000);
    // Halfway between the next two: again the even one, which now lies above.
    assert_eq!(Binary32::round(0x100_0003, 149 - 24), 0x3f80_0002);
    // Just past halfway.
    assert_eq!(Binary32::round(0x200_0003, 149 - 25), 0x3f80_0001);
    // Past the largest finite number.
    assert_eq!(Binary32::round(0x1ff_ffff, 149 + 103), 0x7f80_0000);
    assert_eq!(Binary32::round(0, 0), 0);
}

#[test]
fn arithmetic_commutes_and_cancels() {
    for (a, b) in pairs().into_iter().take(4000) {
        let (x, y) = (Binary32 { bits: a }, Binary32 { bits: b });
        assert_eq!(x.plus(y), y.plus(x));
        assert_eq!(x.times(y), y.times(x));
        assert_eq!(x.negated().negated(), x);
        if !x.is_nan() && !x.is_infinite() {
            assert_eq!(x.minus(x).bits, 0);
        }
    }
}

#[test]
fn arithmetic_keeps_the_order() {
    let steps: [f32; 9] = [-1.0e30, -7.5, -1.0e-45, 0.0, 1.0e-40, 0.1, 1.0, 3.25, 2.0e35];
    for pair in steps.windows(2) {
        let (a, b) = (soft(pair[0]), soft(pair[1]));
        for c in steps {
            assert!(a.plus(soft(c)).le(b.plus(soft(c))));
            if c >= 0.0 {
                assert!(a.times(soft(c)).le(b.times(soft(c))));
            }
            if c > 0.0 && pair[0] >= 0.0 {
                assert!(a.over(soft(c)).le(b.over(soft(c))));
            }
        }
        assert!(a.plus(soft(0.0)).equals(a));
    }
}
