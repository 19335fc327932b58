use std::f64::consts::PI;

use plasma::lookup::MathLookup;

fn build_lookup() -> MathLookup {
    let mut sin_table = Vec::new();
    for a in 0..360 {
        sin_table.push((a as f64 * PI / 180.0).sin().to_bits());
    }
    let mut cos_table = Vec::new();
    for a in 0..360 {
        cos_table.push((a as f64 * PI / 180.0).cos().to_bits());
    }
    let mut sqrt_table = Vec::new();
    for d in 0..2_000_000u64 {
        sqrt_table.push((d as f64).sqrt().to_bits());
    }
    MathLookup::new(sin_table, cos_table, sqrt_table)
}

#[test]
fn tables_carry_their_entries() {
    let ml = build_lookup();
    assert_eq!(ml.sin(0), 0.0f64.to_bits());
    assert_eq!(ml.sin(90), 1.0f64.to_bits());
    assert_eq!(ml.cos(0), 1.0f64.to_bits());
    assert_eq!(ml.sqrt(4), 2.0f64.to_bits());
    assert_eq!(ml.sqrt(1_999_999), (1_999_999.0f64).sqrt().to_bits());
}

#[test]
fn angle_index_wraps_modulo_360() {
    let ml = build_lookup();
    assert_eq!(ml.sin(361), ml.sin(1));
    assert_eq!(ml.sin(725), ml.sin(5));
    assert_eq!(ml.cos(360 * 1000 + 17), ml.cos(17));
    assert_eq!(ml.sin(usize::MAX), ml.sin(usize::MAX % 360));
}

/// The squared distances that the wave formula feeds the square-root table,
/// for one pixel at one time.
fn formula_radicands(ml: &MathLookup, time: f64, x: u32, y: u32) -> [f64; 4] {
    let sin = |a: f64| f64::from_bits(ml.sin((a * 180.0 / PI) as usize));
    let cos = |a: f64| f64::from_bits(ml.cos((a * 180.0 / PI) as usize));
    let sq = |x: f64, y: f64, w: f64, h: f64| {
        (x - w / 2.0) * (x - w / 2.0) + (y - h / 2.0) * (y - h / 2.0)
    };
    let fx = x as f64;
    let fy = y as f64;
    [
        sq(fx + time, fy, 128.0 * sin(time), 128.0 * sin(time)),
        sq(fx, fy, 64.0 * cos(time), 64.0 * cos(time)),
        sq(fx, fy + time / 7.0, 192.0, 64.0),
        sq(
            fx,
            fy,
            192.0 + 200.0 + sin(time) * 200.0,
            100.0 + 200.0 + sin(time / 2.0) * 200.0,
        ),
    ]
}

#[test]
fn lookup_indices_stay_in_domain() {
    // Representative times and a bounded raster: every square-root radicand
    // the formula produces truncates to an index inside the table's domain,
    // and every angle reduces into the sine table.
    let ml = build_lookup();
    for &time in &[0.0, 1.0, 1000.0] {
        for y in 0..48u32 {
            for x in 0..64u32 {
                for d in formula_radicands(&ml, time, x, y) {
                    assert!(d >= 0.0);
                    let idx = d as usize;
                    assert!(idx < 2_000_000);
                    // In domain, so the lookup itself must answer.
                    let _ = ml.sqrt(idx);
                    let degrees = ((d / 8.0) * 180.0 / PI) as usize;
                    assert!(degrees % 360 < 360);
                    let _ = ml.sin(degrees);
                }
            }
        }
    }
}
