use osu_map_manager::numeral::{read_single, trim_number, write_two_places};
use osu_map_manager::single::Single;

fn single(x: f32) -> Single {
    Single::from_bits(x.to_bits())
}

fn chars(s: &str) -> Vec<char> {
    s.chars().collect()
}

fn next(seed: &mut u64) -> u32 {
    *seed = seed.wrapping_mul(6364136223846793005).wrapping_add(1442695040888963407);
    (*seed >> 32) as u32
}

fn same(ours: Single, theirs: f32) -> bool {
    (ours.is_nan() && theirs.is_nan()) || ours.to_bits() == theirs.to_bits()
}

/// Bits of all kinds: small and large exponents, neighbours, zeros, infinities
/// and values that are not numbers.
fn samples() -> Vec<u32> {
    let mut bits = vec![
        0,
        0x8000_0000,
        1,
        0x8000_0001,
        0x007f_ffff,
        0x0080_0000,
        0x0080_0001,
        0x3f80_0000,
        0xbf80_0000,
        0x3f80_0001,
        0x3f7f_ffff,
        0x4b80_0000,
        0x4b7f_ffff,
        0x7f7f_ffff,
        0xff7f_ffff,
        0x7f80_0000,
        0xff80_0000,
        0x7fc0_0000,
    ];
    let mut seed: u64 = 42;
    for _ in 0..40 {
        bits.push(next(&mut seed));
    }
    for _ in 0..40 {
        // Values of everyday size.
        bits.push(0x3a00_0000 + next(&mut seed) % 0x0e00_0000);
    }
    bits
}

#[test]
fn arithmetic_agrees_with_the_machine() {
    let bits = samples();
    for &a in &bits {
        for &b in &bits {
            let (x, y) = (f32::from_bits(a), f32::from_bits(b));
            let (p, q) = (Single::from_bits(a), Single::from_bits(b));
            assert!(same(p.plus(q), x + y), "{x:e} + {y:e}");
            assert!(same(p.minus(q), x - y), "{x:e} - {y:e}");
            assert!(same(p.times(q), x * y), "{x:e} * {y:e}");
            assert!(same(p.divided_by(q), x / y), "{x:e} / {y:e}");
        }
    }
}

#[test]
fn order_agrees_with_the_machine() {
    let bits = samples();
    for &a in &bits {
        for &b in &bits {
            let (x, y) = (f32::from_bits(a), f32::from_bits(b));
            let (p, q) = (Single::from_bits(a), Single::from_bits(b));
            assert_eq!(p.is_below(q), x < y);
            assert_eq!(p.is_at_most(q), x <= y);
            assert_eq!(p == q, x == y);
            let (low, high) = (0.0_f32, 12.0_f32);
            assert!(same(p.clamp(single(low), single(high)), x.clamp(low, high)));
            if x != y {
                assert!(same(p.max(q), x.max(y)));
                assert!(same(p.min(q), x.min(y)));
            }
        }
        let (x, p) = (f32::from_bits(a), Single::from_bits(a));
        assert!(same(p.negate(), -x));
        assert!(same(p.abs(), x.abs()));
        assert_eq!(p.is_nan(), x.is_nan());
        assert_eq!(p.is_finite(), x.is_finite());
        assert_eq!(p.is_infinite(), x.is_infinite());
    }
}

#[test]
fn integers_agree_with_the_machine() {
    let mut seed: u64 = 7;
    let mut numbers: Vec<i64> = vec![0, 1, -1, 60, 1000, 60_000, 16_777_215, 16_777_216, 16_777_217];
    numbers.push(i64::MAX);
    numbers.push(i64::MIN);
    numbers.push(u32::MAX as i64);
    for _ in 0..500 {
        let wide = ((next(&mut seed) as i64) << 32) | next(&mut seed) as i64;
        numbers.push(wide);
        numbers.push(next(&mut seed) as i32 as i64);
        numbers.push(wide >> (next(&mut seed) % 60));
    }
    for n in numbers {
        assert!(same(Single::from_integer(n), n as f32), "{n}");
    }
}

#[test]
fn reading_agrees_with_the_machine() {
    let texts = [
        "0", "-0", "+0", "1", "1.0", "01", "5.5", "5.", ".5", ".", "", "-", "+", "+3.25", "-3.25",
        "1e10", "1E10", "1e-5", "1e+5", "1e", "1e+", "e5", "0x10", "1_000", " 1", "1 ", "--1",
        "+-1", "inf", "-inf", "Infinity", "-INFINITY", "infinit", "nan", "NaN", "-nan", "nann",
        "1e400", "-1e400", "1e-400", "-1e-400", "0e999999999999", "1e99999999999999999999",
        "1e-99999999999999999999", "3.4028235e38", "3.4028236e38", "3.40282357e38", "1.17549435e-38",
        "1.4e-45", "7.0e-46", "7.1e-46", "16777217", "16777219", "9007199254740993",
        "123456789012345678901234567890", "0.1", "0.05", "0.001", "0.30000001192092896",
        "0.000000000000000000000000000000000000000000001", "1.00000005960464477539062500001",
        "1.000000059604644775390625", "1,5", "١", "1.5f", "5..5", "1e5.5",
    ];
    for text in texts {
        let ours = read_single(&chars(text));
        match text.parse::<f32>() {
            Ok(theirs) => assert!(ours.is_some_and(|ours| same(ours, theirs)), "{text:?}"),
            Err(_) => assert!(ours.is_none(), "{text:?}"),
        }
    }
    let mut seed: u64 = 99;
    for _ in 0..1500 {
        let x = f32::from_bits(next(&mut seed));
        for text in [format!("{x}"), format!("{x:e}"), format!("{x:.3}")] {
            let theirs = text.parse::<f32>().unwrap();
            assert!(read_single(&chars(&text)).is_some_and(|ours| same(ours, theirs)), "{text}");
        }
        let digits = next(&mut seed);
        let text = format!("{}.{}e{}", digits % 1000, digits, (digits % 90) as i32 - 45);
        let theirs = text.parse::<f32>().unwrap();
        assert!(read_single(&chars(&text)).is_some_and(|ours| same(ours, theirs)), "{text}");
    }
}

#[test]
fn writing_agrees_with_the_machine() {
    let mut bits = samples();
    let mut seed: u64 = 5;
    for _ in 0..1500 {
        bits.push(next(&mut seed));
        bits.push(0x3a00_0000 + next(&mut seed) % 0x0e00_0000);
    }
    for x in [0.125_f32, 0.375, 0.005, 0.015, 0.025, 2.5, 1.005, 0.045, 99.995, 12.0, 350.0] {
        bits.push(x.to_bits());
        bits.push((-x).to_bits());
    }
    for b in bits {
        let x = f32::from_bits(b);
        let theirs = format!("{x:.2}");
        assert_eq!(write_two_places(Single::from_bits(b)), theirs);
        let short = theirs.trim_end_matches('0').trim_end_matches('.');
        assert_eq!(trim_number(Single::from_bits(b)), short);
    }
}

#[test]
fn short_numbers_have_no_empty_fraction() {
    assert_eq!(trim_number(single(5.5)), "5.5");
    assert_eq!(trim_number(single(7.0)), "7");
    assert_eq!(trim_number(single(120.0)), "120");
    assert_eq!(trim_number(single(0.25)), "0.25");
    assert_eq!(trim_number(single(0.0)), "0");
    assert_eq!(trim_number(single(-0.0)), "-0");
    assert_eq!(trim_number(single(f32::INFINITY)), "inf");
}

#[test]
fn numbers_with_two_places_survive_writing_and_reading() {
    for hundredths in 0..40_000 {
        let x = hundredths as f32 / 100.0;
        let text = trim_number(single(x));
        assert_eq!(read_single(&chars(&text)), Some(single(x)), "{text}");
    }
    // From 131072 on neighbouring numbers are further apart than that.
    let far = 131_072.015_625_f32;
    let text = trim_number(single(far));
    assert_eq!(read_single(&chars(&text)).map(|x| x.to_bits()), Some(text.parse::<f32>().unwrap().to_bits()));
}

#[test]
fn zeros_are_equal_and_nan_equals_nothing() {
    assert_eq!(single(0.0), single(-0.0));
    assert_ne!(single(f32::NAN), single(f32::NAN));
    assert_eq!(Single::default(), single(0.0));
}
