use raytracer::render::{
    band_bytes, band_seed, flipped_row, next_depth, pixel_offset, rows_per_band, Band,
    ConfigError, RenderConfig, DEFAULT_SEED, MAX_DEPTH,
};

fn config(width: u32, height: u32) -> RenderConfig {
    RenderConfig::new(width, height, 8, DEFAULT_SEED)
}

#[test]
fn rows_per_band_rounds_to_nearest() {
    assert_eq!(rows_per_band(500, 8), 63);
    assert_eq!(rows_per_band(500, 4), 125);
    assert_eq!(rows_per_band(10, 3), 3);
    assert_eq!(rows_per_band(10, 4), 3);
    assert_eq!(rows_per_band(10, 6), 2);
    assert_eq!(rows_per_band(1, 3), 0);
    assert_eq!(rows_per_band(u32::MAX, 1), u32::MAX);
}

#[test]
fn plan_of_ten_rows_on_four_units() {
    let bands = config(20, 10).plan_bands(4).unwrap();
    assert_eq!(
        bands,
        vec![
            Band { start_row: 0, rows: 3, seed: 485468 },
            Band { start_row: 3, rows: 3, seed: 485469 },
            Band { start_row: 6, rows: 3, seed: 485470 },
            Band { start_row: 9, rows: 1, seed: 485471 },
        ]
    );
}

#[test]
fn plan_on_one_unit_is_one_band() {
    let bands = config(1000, 500).plan_bands(1).unwrap();
    assert_eq!(bands, vec![Band { start_row: 0, rows: 500, seed: DEFAULT_SEED }]);
}

#[test]
fn plan_covers_every_row_once() {
    for height in 1u32..60 {
        for units in 1u32..20 {
            let cfg = config(7, height);
            match cfg.plan_bands(units) {
                Ok(bands) => {
                    let mut next = 0u32;
                    let mut seeds: Vec<u32> = Vec::new();
                    for b in &bands {
                        assert_eq!(b.start_row, next);
                        assert!(b.rows > 0);
                        assert!(b.seed != 0);
                        assert!(!seeds.contains(&b.seed));
                        seeds.push(b.seed);
                        next += b.rows;
                    }
                    assert_eq!(next, height);
                    assert_eq!(bands[0].seed, DEFAULT_SEED);
                }
                Err(e) => {
                    assert_eq!(e, ConfigError::TooFewRows);
                    assert_eq!(rows_per_band(height, units), 0);
                }
            }
        }
    }
}

#[test]
fn plan_errors() {
    assert_eq!(config(0, 10).plan_bands(4), Err(ConfigError::ZeroWidth));
    assert_eq!(config(10, 0).plan_bands(4), Err(ConfigError::ZeroHeight));
    assert_eq!(RenderConfig::new(10, 10, 0, 1).plan_bands(4), Err(ConfigError::ZeroSamples));
    assert_eq!(config(10, 10).plan_bands(0), Err(ConfigError::ZeroUnits));
    assert_eq!(RenderConfig::new(10, 10, 8, 0).plan_bands(4), Err(ConfigError::ZeroSeed));
    assert_eq!(config(10, 1).plan_bands(3), Err(ConfigError::TooFewRows));
    assert_eq!(
        config(u32::MAX, u32::MAX).plan_bands(1),
        Err(ConfigError::BufferTooLarge)
    );
    assert_eq!(config(0, 0).plan_bands(0), Err(ConfigError::ZeroWidth));
}

#[test]
fn config_new_uses_depth_cap() {
    let cfg = RenderConfig::new(20, 10, 8, 485468);
    assert_eq!(cfg.width, 20);
    assert_eq!(cfg.height, 10);
    assert_eq!(cfg.samples, 8);
    assert_eq!(cfg.max_depth, 50);
    assert_eq!(cfg.seed, 485468);
    assert_eq!(cfg.buffer_len(), 600);
}

#[test]
fn band_seeds_wrap_past_zero() {
    assert_eq!(band_seed(485468, 0), 485468);
    assert_eq!(band_seed(485468, 3), 485471);
    assert_eq!(band_seed(u32::MAX, 0), u32::MAX);
    assert_eq!(band_seed(u32::MAX, 1), 1);
    assert_eq!(band_seed(0, 0), u32::MAX);
    assert_eq!(band_seed(0, 1), 1);
}

#[test]
fn pixel_offsets_are_row_major() {
    assert_eq!(pixel_offset(20, 0, 0), 0);
    assert_eq!(pixel_offset(20, 3, 2), 129);
    assert_eq!(pixel_offset(20, 19, 9), 597);
    assert_eq!(band_bytes(20, 10), 600);
    assert_eq!(band_bytes(1000, 63), 189000);
    let mut seen = vec![false; 600];
    for y in 0..10 {
        for x in 0..20 {
            let o = pixel_offset(20, x, y);
            for k in 0..3 {
                assert!(!seen[o + k]);
                seen[o + k] = true;
            }
        }
    }
    assert!(seen.iter().all(|b| *b));
}

#[test]
fn rows_flip_to_bottom_up() {
    assert_eq!(flipped_row(10, 0, 0), 9);
    assert_eq!(flipped_row(10, 3, 2), 4);
    assert_eq!(flipped_row(10, 9, 0), 0);
}

#[test]
fn bounce_depth_rule() {
    assert_eq!(next_depth(0, MAX_DEPTH, true), Some(1));
    assert_eq!(next_depth(49, MAX_DEPTH, true), Some(50));
    assert_eq!(next_depth(50, MAX_DEPTH, true), None);
    assert_eq!(next_depth(3, MAX_DEPTH, false), None);
    assert_eq!(next_depth(0, 0, true), None);
}

#[test]
fn always_reflecting_path_stops_at_cap() {
    let mut depth = 0u32;
    let mut levels = 1u32;
    while let Some(d) = next_depth(depth, MAX_DEPTH, true) {
        assert_eq!(d, depth + 1);
        depth = d;
        levels += 1;
        assert!(levels <= 51);
    }
    assert_eq!(depth, 50);
    assert_eq!(levels, 51);
}
