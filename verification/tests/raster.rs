use terrain_gen::heightmap::{ChunkCoord, HeightMap};
use terrain_gen::noise::NoiseConfig;
use terrain_gen::pixels::{
    default_gradient, pixel_data_empty, pixel_data_from_height_map, stops_ascending, GradientStop,
    Pixel, PixelData,
};

const ONE: i64 = 65536;
const WORLD: i64 = 5 * ONE;

fn gray_map() -> HeightMap {
    let cfg = NoiseConfig::with_seed(7);
    HeightMap::new(ChunkCoord { x: 0, z: 0 }, &cfg, 16, WORLD)
}

#[test]
fn height_map_pixels_are_opaque_gray() {
    let map = gray_map();
    let d = PixelData::from_height_map(&map);
    assert_eq!(d.width(), 16);
    assert_eq!(d.height(), 16);
    assert_eq!(d.len(), 256);
    for i in 0..d.len() {
        let p = d.pixel(i);
        assert_eq!(p.g, p.r);
        assert_eq!(p.b, p.r);
        assert_eq!(p.a, 255);
    }
}

#[test]
fn height_map_pixels_match_free_function() {
    let map = gray_map();
    let d = PixelData::from_height_map(&map);
    let v = pixel_data_from_height_map(&map);
    assert_eq!(d.len(), v.len());
    for i in 0..v.len() {
        assert_eq!(d.pixel(i), v[i]);
    }
}

#[test]
fn empty_buffer_is_a_gray_ramp() {
    let d = PixelData::empty(4, 4);
    assert_eq!(d.len(), 16);
    // pixel i carries 255 * i / 16
    assert_eq!(d.pixel(0).r, 0);
    assert_eq!(d.pixel(1).r, 15);
    assert_eq!(d.pixel(8).r, 127);
    assert_eq!(d.pixel(15).r, 239);
    for i in 0..16 {
        let p = d.pixel(i);
        assert_eq!(p.g, p.r);
        assert_eq!(p.b, p.r);
        assert_eq!(p.a, 255);
    }
}

#[test]
fn empty_buffer_with_zero_side_is_empty() {
    let d = PixelData::empty(0, 7);
    assert_eq!(d.len(), 0);
    let v = pixel_data_empty(7, 0);
    assert_eq!(v.len(), 0);
}

#[test]
fn splat_fills_every_pixel() {
    let px = Pixel { r: 9, g: 8, b: 7, a: 6 };
    let d = PixelData::splat(3, 2, px);
    assert_eq!(d.len(), 6);
    for i in 0..6 {
        assert_eq!(d.pixel(i), px);
    }
}

#[test]
fn flat_data_serializes_row_major_rgba() {
    let px = Pixel { r: 1, g: 2, b: 3, a: 4 };
    let d = PixelData::splat(2, 1, px);
    let bytes = d.flat_data();
    assert_eq!(bytes, vec![1, 2, 3, 4, 1, 2, 3, 4]);
}

#[test]
fn gradient_clamps_to_outer_stops() {
    // thresholds 0.1 and 0.9; value 0.0 maps to A, value 1.0 maps to B
    let a = Pixel { r: 10, g: 20, b: 30, a: 255 };
    let b = Pixel { r: 200, g: 210, b: 220, a: 255 };
    let stops = vec![
        GradientStop { threshold: 6554, color: a },
        GradientStop { threshold: 58982, color: b },
    ];
    let mut low = PixelData::splat(1, 1, Pixel { r: 0, g: 0, b: 0, a: 255 });
    low.apply_gradient(&stops);
    assert_eq!(low.pixel(0), a);
    let mut high = PixelData::splat(1, 1, Pixel { r: 255, g: 255, b: 255, a: 255 });
    high.apply_gradient(&stops);
    assert_eq!(high.pixel(0), b);
}

#[test]
fn gradient_interpolates_midpoint() {
    // stops at 0.0 black and 1.0 white: a mid value maps to mid gray
    let stops = vec![
        GradientStop { threshold: 0, color: Pixel { r: 0, g: 0, b: 0, a: 255 } },
        GradientStop { threshold: ONE, color: Pixel { r: 255, g: 255, b: 255, a: 255 } },
    ];
    let mut d = PixelData::splat(1, 1, Pixel { r: 127, g: 127, b: 127, a: 255 });
    d.apply_gradient(&stops);
    let p = d.pixel(0);
    assert_eq!(p, Pixel { r: 127, g: 127, b: 127, a: 255 });
}

#[test]
fn gradient_picks_bracketing_pair() {
    // three stops; a value between the second and third blends those two
    let stops = vec![
        GradientStop { threshold: 0, color: Pixel { r: 0, g: 0, b: 0, a: 255 } },
        GradientStop { threshold: ONE / 2, color: Pixel { r: 100, g: 0, b: 0, a: 255 } },
        GradientStop { threshold: ONE, color: Pixel { r: 200, g: 0, b: 0, a: 255 } },
    ];
    // red 255 * 3 / 4 rounds to 191; t = 191 * ONE / 255 is just below 0.75,
    // halfway through the second segment
    let mut d = PixelData::splat(1, 1, Pixel { r: 191, g: 0, b: 0, a: 255 });
    d.apply_gradient(&stops);
    let p = d.pixel(0);
    assert!(149 <= p.r && p.r <= 150);
    assert_eq!(p.g, 0);
    assert_eq!(p.a, 255);
}

#[test]
fn default_gradient_is_ascending() {
    let stops = default_gradient();
    assert_eq!(stops.len(), 7);
    for i in 0..stops.len() - 1 {
        assert!(stops[i].threshold < stops[i + 1].threshold);
    }
    assert!(stops[0].threshold >= 0);
    assert!(stops[stops.len() - 1].threshold <= ONE);
}

#[test]
fn gradient_applies_over_height_map_image() {
    let map = gray_map();
    let mut d = PixelData::from_height_map(&map);
    let stops = default_gradient();
    d.apply_gradient(&stops);
    for i in 0..d.len() {
        assert_eq!(d.pixel(i).a, 255);
    }
}

#[test]
fn quantize_posterizes_to_four_levels() {
    let mut d = PixelData::empty(16, 16);
    d.quantize(4);
    let mut reds = Vec::new();
    let mut greens = Vec::new();
    let mut blues = Vec::new();
    for i in 0..d.len() {
        let p = d.pixel(i);
        if !reds.contains(&p.r) {
            reds.push(p.r);
        }
        if !greens.contains(&p.g) {
            greens.push(p.g);
        }
        if !blues.contains(&p.b) {
            blues.push(p.b);
        }
    }
    assert!(reds.len() <= 4);
    assert!(greens.len() <= 4);
    assert!(blues.len() <= 4);
}

#[test]
fn quantize_maps_exact_levels() {
    // steps = 4 has levels 0, 85, 170, 255
    let mut d = PixelData::splat(1, 1, Pixel { r: 100, g: 50, b: 200, a: 7 });
    d.quantize(4);
    let p = d.pixel(0);
    assert_eq!(p, Pixel { r: 85, g: 85, b: 170, a: 7 });
}

#[test]
fn quantize_two_steps_is_threshold() {
    let mut d = PixelData::splat(1, 1, Pixel { r: 100, g: 200, b: 0, a: 255 });
    d.quantize(2);
    let p = d.pixel(0);
    assert_eq!(p, Pixel { r: 0, g: 255, b: 0, a: 255 });
}

#[test]
fn quantize_keeps_extremes() {
    let mut d = PixelData::splat(1, 1, Pixel { r: 0, g: 255, b: 128, a: 9 });
    d.quantize(6);
    let p = d.pixel(0);
    assert_eq!(p.r, 0);
    assert_eq!(p.g, 255);
    assert_eq!(p.a, 9);
}

#[test]
fn stop_table_validation() {
    let good = default_gradient();
    assert!(stops_ascending(&good));
    let empty: Vec<GradientStop> = Vec::new();
    assert!(!stops_ascending(&empty));
    let unsorted = vec![
        GradientStop { threshold: 30000, color: Pixel { r: 0, g: 0, b: 0, a: 255 } },
        GradientStop { threshold: 10000, color: Pixel { r: 1, g: 1, b: 1, a: 255 } },
    ];
    assert!(!stops_ascending(&unsorted));
    let out_of_range = vec![
        GradientStop { threshold: -5, color: Pixel { r: 0, g: 0, b: 0, a: 255 } },
    ];
    assert!(!stops_ascending(&out_of_range));
}
