use trimbit::format::compact;

/// The short form computed the floating-point way: a quotient that would
/// print as 1000 moves to the next unit.
fn compact_by_float(n: u64) -> String {
    const UNITS: [(f64, &str); 4] = [(1e3, "K"), (1e6, "M"), (1e9, "B"), (1e12, "T")];
    let value = n as f64;
    let Some(mut idx) = UNITS.iter().rposition(|(limit, _)| value >= *limit) else {
        return n.to_string();
    };
    loop {
        let (limit, suffix) = UNITS[idx];
        let scaled = value / limit;
        if scaled >= 999.5 && idx + 1 < UNITS.len() {
            idx += 1;
            continue;
        }
        let text = if scaled >= 100.0 { format!("{scaled:.0}") } else { format!("{scaled:.1}") };
        let text = text.strip_suffix(".0").unwrap_or(&text);
        return format!("{text}{suffix}");
    }
}

struct Lcg(u64);

impl Lcg {
    fn next(&mut self) -> u64 {
        self.0 = self.0.wrapping_mul(6364136223846793005).wrapping_add(1442695040888963407);
        self.0 ^ (self.0 >> 29)
    }
}

#[test]
fn compact_agrees_with_float_formatting() {
    let mut rng = Lcg(7);
    for n in (0..3_000_000u64).step_by(50).chain([u64::MAX, 1 << 53, (1 << 53) + 1, u64::MAX - 1]) {
        assert_eq!(compact(n), compact_by_float(n), "{n}");
    }
    for _ in 0..300_000 {
        let bits = rng.next() % 65;
        let mut n = if bits == 64 { rng.next() } else { rng.next() & ((1u64 << bits) - 1) };
        if rng.next() % 3 == 0 {
            n -= n % 50;
        }
        assert_eq!(compact(n), compact_by_float(n), "{n}");
    }
}
