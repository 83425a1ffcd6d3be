use palettizer::color::Color;
use palettizer::palette::Palette;
use palettizer::quantizer::{apply, MemoryImage, Metric, QuantizeError};

fn c(x: u8, y: u8, z: u8) -> Color {
    Color::new(x, y, z)
}

fn image(width: usize, height: usize, data: Vec<Color>) -> MemoryImage {
    assert_eq!(data.len(), width * height);
    MemoryImage { width, height, data }
}

#[test]
fn squared_distance_exact_value() {
    assert_eq!(c(1, 2, 3).squared_distance(&c(4, 6, 3)), 9 + 16);
    assert_eq!(c(0, 0, 0).squared_distance(&c(255, 255, 255)), 3 * 255 * 255);
    assert_eq!(c(7, 8, 9).squared_distance(&c(7, 8, 9)), 0);
    assert_eq!(c(10, 0, 0).squared_distance(&c(0, 0, 0)), 100);
}

#[test]
fn build_deduplicates() {
    let p = Palette::build(&vec![c(1, 2, 3), c(1, 2, 3), c(4, 5, 6)]);
    assert_eq!(p.colors.len(), 2);
    assert_eq!(p.labs.len(), 2);
    assert_eq!(p.colors[0], c(1, 2, 3));
    assert_eq!(p.colors[1], c(4, 5, 6));
}

#[test]
fn build_keeps_first_occurrence_order() {
    let p = Palette::build(&vec![c(9, 9, 9), c(1, 1, 1), c(9, 9, 9), c(2, 2, 2), c(1, 1, 1)]);
    assert_eq!(p.colors, vec![c(9, 9, 9), c(1, 1, 1), c(2, 2, 2)]);
}

#[test]
fn build_empty_image_gives_empty_palette() {
    let p = Palette::build(&vec![]);
    assert_eq!(p.colors.len(), 0);
    assert_eq!(p.labs.len(), 0);
}

#[test]
fn self_match_both_metrics() {
    let p = Palette::build(&vec![
        c(0, 0, 0),
        c(255, 255, 255),
        c(200, 30, 40),
        c(10, 200, 99),
        c(1, 2, 3),
    ]);
    for (i, color) in p.colors.iter().enumerate() {
        assert_eq!(color.to_palette_index_rbg(&p), i);
        assert_eq!(color.to_palette_index_lab(&p), i);
    }
}

#[test]
fn rgb_tie_break_lowest_index() {
    let p = Palette::build(&vec![c(0, 0, 0), c(0, 0, 10)]);
    // (0,0,5) is at squared distance 25 from both entries: index 0 must win.
    assert_eq!(c(0, 0, 5).to_palette_index_rbg(&p), 0);
}

#[test]
fn rgb_nearest_simple() {
    let p = Palette::build(&vec![c(0, 0, 0), c(100, 100, 100), c(255, 255, 255)]);
    assert_eq!(c(10, 10, 10).to_palette_index_rbg(&p), 0);
    assert_eq!(c(120, 90, 110).to_palette_index_rbg(&p), 1);
    assert_eq!(c(250, 240, 250).to_palette_index_rbg(&p), 2);
}

// The Lab metric must agree with the result of running the real RGB-to-Lab
// conversion and float squared distance, recomputed here independently.
fn lab_reference_index(query: Color, palette: &Palette) -> usize {
    let q = lab::Lab::from_rgb(&[query.x, query.y, query.z]);
    let mut best = 0usize;
    let mut best_dist = f32::MAX;
    for (i, pc) in palette.colors.iter().enumerate() {
        let l = lab::Lab::from_rgb(&[pc.x, pc.y, pc.z]);
        let dl = q.l - l.l;
        let da = q.a - l.a;
        let db = q.b - l.b;
        let d = dl * dl + da * da + db * db;
        if d < best_dist {
            best_dist = d;
            best = i;
        }
    }
    best
}

#[test]
fn metric_divergence_red_green() {
    // Pure red and pure green; the query is yellowish. Under squared RGB
    // distance both entries are at 43025, so index 0 wins by tie-break.
    let p = Palette::build(&vec![c(255, 0, 0), c(0, 255, 0)]);
    let query = c(200, 200, 0);
    assert_eq!(query.to_palette_index_rbg(&p), 0);
    // Under Lab the metrics are computed independently and may disagree;
    // the library must agree with the independently recomputed Lab ranking.
    let lab_index = query.to_palette_index_lab(&p);
    assert!(lab_index < 2);
    assert_eq!(lab_index, lab_reference_index(query, &p));
}

#[test]
fn lab_lookup_matches_reference_scan() {
    let p = Palette::build(&vec![
        c(255, 0, 0),
        c(0, 255, 0),
        c(0, 0, 255),
        c(128, 128, 0),
        c(30, 30, 30),
        c(240, 240, 240),
    ]);
    let queries = [
        c(200, 200, 0),
        c(0, 0, 0),
        c(255, 255, 255),
        c(100, 0, 200),
        c(50, 60, 70),
        c(255, 128, 128),
    ];
    for q in queries {
        assert_eq!(q.to_palette_index_lab(&p), lab_reference_index(q, &p));
    }
}

#[test]
fn palette_labs_hold_real_conversion() {
    // The cached Lab triples must be the bit patterns of the real
    // conversion's components, not some stand-in.
    let p = Palette::build(&vec![c(240, 33, 95), c(0, 0, 0)]);
    let l = lab::Lab::from_rgb(&[240, 33, 95]);
    assert_eq!(p.labs[0].l_bits, l.l.to_bits());
    assert_eq!(p.labs[0].a_bits, l.a.to_bits());
    assert_eq!(p.labs[0].b_bits, l.b.to_bits());
    // The conversion is not the identity on the components.
    assert_ne!(
        (p.labs[0].l_bits, p.labs[0].a_bits, p.labs[0].b_bits),
        (240, 33, 95)
    );
}

#[test]
fn quantize_dimensions_preserved() {
    let p = Palette::build(&vec![c(0, 0, 0), c(255, 255, 255)]);
    let img = image(3, 2, vec![
        c(10, 10, 10),
        c(200, 200, 200),
        c(0, 0, 0),
        c(255, 255, 255),
        c(90, 90, 90),
        c(180, 180, 180),
    ]);
    for metric in [Metric::Rgb, Metric::Lab] {
        let out = apply(&img, &p, metric).unwrap();
        assert_eq!(out.width, 3);
        assert_eq!(out.height, 2);
        assert_eq!(out.data.len(), 6);
    }
}

#[test]
fn quantize_maps_to_nearest_palette_colors() {
    let p = Palette::build(&vec![c(0, 0, 0), c(255, 255, 255)]);
    let img = image(2, 2, vec![c(10, 10, 10), c(200, 200, 200), c(0, 0, 0), c(130, 130, 130)]);
    let out = apply(&img, &p, Metric::Rgb).unwrap();
    assert_eq!(
        out.data,
        vec![c(0, 0, 0), c(255, 255, 255), c(0, 0, 0), c(255, 255, 255)]
    );
}

#[test]
fn quantize_idempotent_both_metrics() {
    let p = Palette::build(&vec![c(255, 0, 0), c(0, 255, 0), c(0, 0, 255), c(20, 20, 20)]);
    let img = image(2, 3, vec![
        c(200, 10, 10),
        c(10, 200, 10),
        c(10, 10, 200),
        c(0, 0, 0),
        c(100, 100, 100),
        c(250, 250, 0),
    ]);
    for metric in [Metric::Rgb, Metric::Lab] {
        let once = apply(&img, &p, metric).unwrap();
        let twice = apply(&once, &p, metric).unwrap();
        assert_eq!(once.data, twice.data);
        assert_eq!(once.width, twice.width);
        assert_eq!(once.height, twice.height);
    }
}

#[test]
fn quantize_deterministic() {
    let p = Palette::build(&vec![c(255, 0, 0), c(0, 255, 0), c(40, 40, 200)]);
    let img = image(2, 2, vec![c(200, 200, 0), c(1, 2, 3), c(99, 98, 97), c(255, 255, 255)]);
    for metric in [Metric::Rgb, Metric::Lab] {
        let a = apply(&img, &p, metric).unwrap();
        let b = apply(&img, &p, metric).unwrap();
        assert_eq!(a.data, b.data);
    }
}

#[test]
fn empty_palette_surfaces_error() {
    let p = Palette::build(&vec![]);
    let img = image(1, 1, vec![c(1, 2, 3)]);
    for metric in [Metric::Rgb, Metric::Lab] {
        match apply(&img, &p, metric) {
            Err(e) => assert_eq!(e, QuantizeError::EmptyPalette),
            Ok(_) => panic!("quantizing against an empty palette must fail"),
        }
    }
}

#[test]
fn zero_pixel_image_quantizes_to_zero_pixels() {
    let p = Palette::build(&vec![c(5, 5, 5)]);
    let img = image(0, 0, vec![]);
    let out = apply(&img, &p, Metric::Rgb).unwrap();
    assert_eq!(out.width, 0);
    assert_eq!(out.height, 0);
    assert_eq!(out.data.len(), 0);
}

#[test]
fn single_color_palette_maps_everything() {
    let p = Palette::build(&vec![c(7, 7, 7)]);
    let img = image(2, 1, vec![c(0, 0, 0), c(255, 255, 255)]);
    for metric in [Metric::Rgb, Metric::Lab] {
        let out = apply(&img, &p, metric).unwrap();
        assert_eq!(out.data, vec![c(7, 7, 7), c(7, 7, 7)]);
    }
}

#[test]
fn palette_len_reports_entry_count() {
    let p = Palette::build(&vec![c(1, 1, 1), c(2, 2, 2), c(1, 1, 1)]);
    assert_eq!(p.len(), 2);
}
