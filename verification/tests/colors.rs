use mandelbrot::color_schemas::{color_logarithmic_mapping, color_palette, hue_rotation};
use mandelbrot::generator::escape_time_to_color;
use mandelbrot::models::PlotColorSchema;
use std::cell::RefCell;

const TABLE: [[u8; 3]; 16] = [
    [66, 30, 15],
    [25, 7, 26],
    [9, 1, 47],
    [4, 4, 73],
    [0, 7, 100],
    [12, 44, 138],
    [24, 82, 177],
    [57, 125, 209],
    [134, 181, 229],
    [211, 236, 248],
    [241, 233, 191],
    [248, 201, 95],
    [255, 170, 0],
    [204, 128, 0],
    [153, 87, 0],
    [106, 52, 3],
];

const GRADIENTS: [PlotColorSchema; 4] = [
    PlotColorSchema::LinearGradient,
    PlotColorSchema::CubicPolynomial,
    PlotColorSchema::HueRotation,
    PlotColorSchema::Custom,
];

/// A shading function that reports what it was asked.
fn tag(schema: PlotColorSchema, count: usize, limit: usize) -> [u8; 3] {
    let which = match schema {
        PlotColorSchema::LinearGradient => 1,
        PlotColorSchema::CubicPolynomial => 2,
        PlotColorSchema::HueRotation => 3,
        PlotColorSchema::LogarithmicMapping => 4,
        PlotColorSchema::Custom => 5,
        PlotColorSchema::Palette => 6,
    };
    [which, count as u8, limit as u8]
}

fn linear_gradient(t: f32) -> [u8; 3] {
    [(255.0 * t) as u8, (255.0 * (1.0 - t)) as u8, (255.0 * t * (1.0 - t)) as u8]
}

#[test]
fn palette_entries() {
    for (index, entry) in TABLE.iter().enumerate() {
        assert_eq!(color_palette(index), *entry);
    }
}

#[test]
fn palette_wraps_every_sixteen() {
    assert_eq!(color_palette(16), color_palette(0));
    assert_eq!(color_palette(16), [66, 30, 15]);
    for count in 0..200usize {
        assert_eq!(color_palette(count), TABLE[count % 16]);
        assert_eq!(color_palette(count + 16), color_palette(count));
        assert_eq!(color_palette(count + 16 * 7), color_palette(count));
    }
    assert_eq!(color_palette(254), [153, 87, 0]);
    assert_eq!(color_palette(usize::MAX), TABLE[15]);
}

#[test]
fn hue_sectors() {
    assert_eq!(hue_rotation(0, 10), [255, 10, 0]);
    assert_eq!(hue_rotation(59, 10), [255, 10, 0]);
    assert_eq!(hue_rotation(60, 10), [10, 255, 0]);
    assert_eq!(hue_rotation(119, 10), [10, 255, 0]);
    assert_eq!(hue_rotation(120, 10), [0, 255, 10]);
    assert_eq!(hue_rotation(179, 10), [0, 255, 10]);
    assert_eq!(hue_rotation(180, 10), [0, 10, 255]);
    assert_eq!(hue_rotation(239, 10), [0, 10, 255]);
    assert_eq!(hue_rotation(240, 10), [10, 0, 255]);
    assert_eq!(hue_rotation(299, 10), [10, 0, 255]);
    assert_eq!(hue_rotation(300, 10), [255, 0, 10]);
    assert_eq!(hue_rotation(359, 10), [255, 0, 10]);
}

#[test]
fn hue_beyond_the_circle_falls_into_the_last_sector() {
    assert_eq!(hue_rotation(360, 0), [255, 0, 0]);
    assert_eq!(hue_rotation(361, 200), [255, 0, 200]);
    assert_eq!(hue_rotation(u32::MAX, 255), [255, 0, 255]);
}

#[test]
fn hue_partial_level_is_kept() {
    for level in [0u8, 1, 127, 254, 255] {
        assert_eq!(hue_rotation(30, level), [255, level, 0]);
        assert_eq!(hue_rotation(150, level), [0, 255, level]);
        assert_eq!(hue_rotation(270, level), [level, 0, 255]);
    }
}

#[test]
fn logarithmic_mapping_never_shades_a_zero_count() {
    assert_eq!(color_logarithmic_mapping(0, 255, &tag), [4, 1, 255]);
    assert_eq!(color_logarithmic_mapping(1, 255, &tag), [4, 1, 255]);
    assert_eq!(color_logarithmic_mapping(2, 255, &tag), [4, 2, 255]);
    assert_eq!(color_logarithmic_mapping(200, 17, &tag), [4, 200, 17]);
}

#[test]
fn logarithmic_mapping_with_a_real_logarithm() {
    let shade = |_schema: PlotColorSchema, count: usize, limit: usize| {
        let t = (count as f32).ln() / (limit as f32).ln();
        [
            (9.0 * (1.0 - t) * t * t * t * 255.0) as u8,
            (15.0 * (1.0 - t) * (1.0 - t) * t * t * 255.0) as u8,
            (8.5 * (1.0 - t) * (1.0 - t) * (1.0 - t) * t * 255.0) as u8,
        ]
    };
    // A count of zero is shaded as a count of one, whose logarithm is zero.
    assert_eq!(color_logarithmic_mapping(0, 255, &shade), [0, 0, 0]);
    assert_eq!(color_logarithmic_mapping(1, 255, &shade), [0, 0, 0]);
    assert_eq!(color_logarithmic_mapping(255, 255, &shade), [0, 0, 0]);
    let middle = color_logarithmic_mapping(16, 256, &shade);
    // t = 1/2: r = 9/16 * 255, g = 15/16 * 255, b = 8.5/16 * 255
    assert_eq!(middle, [143, 239, 135]);
}

#[test]
fn no_escape_is_black_in_every_scheme() {
    for schema in [
        PlotColorSchema::LinearGradient,
        PlotColorSchema::CubicPolynomial,
        PlotColorSchema::HueRotation,
        PlotColorSchema::LogarithmicMapping,
        PlotColorSchema::Custom,
        PlotColorSchema::Palette,
    ] {
        assert_eq!(escape_time_to_color(None, 255, schema, &tag), [0, 0, 0]);
        assert_eq!(escape_time_to_color(None, 1, schema, &tag), [0, 0, 0]);
    }
}

#[test]
fn palette_scheme_looks_the_count_up() {
    for count in 0..64usize {
        assert_eq!(
            escape_time_to_color(Some(count), 255, PlotColorSchema::Palette, &tag),
            TABLE[count % 16]
        );
    }
}

#[test]
fn palette_scheme_does_not_ask_the_shading_function() {
    let asked = RefCell::new(0usize);
    let shade = |schema: PlotColorSchema, count: usize, limit: usize| {
        *asked.borrow_mut() += 1;
        tag(schema, count, limit)
    };
    escape_time_to_color(Some(5), 255, PlotColorSchema::Palette, &shade);
    escape_time_to_color(None, 255, PlotColorSchema::HueRotation, &shade);
    assert_eq!(*asked.borrow(), 0);
    escape_time_to_color(Some(5), 255, PlotColorSchema::HueRotation, &shade);
    assert_eq!(*asked.borrow(), 1);
}

#[test]
fn gradient_schemes_shade_the_count_as_it_is() {
    for (schema, which) in GRADIENTS.iter().zip([1u8, 2, 3, 5]) {
        assert_eq!(escape_time_to_color(Some(0), 255, *schema, &tag), [which, 0, 255]);
        assert_eq!(escape_time_to_color(Some(7), 255, *schema, &tag), [which, 7, 255]);
        assert_eq!(escape_time_to_color(Some(254), 100, *schema, &tag), [which, 254, 100]);
    }
}

#[test]
fn logarithmic_scheme_shades_the_count_raised_to_one() {
    let schema = PlotColorSchema::LogarithmicMapping;
    assert_eq!(escape_time_to_color(Some(0), 255, schema, &tag), [4, 1, 255]);
    assert_eq!(escape_time_to_color(Some(1), 255, schema, &tag), [4, 1, 255]);
    assert_eq!(escape_time_to_color(Some(9), 255, schema, &tag), [4, 9, 255]);
}

#[test]
fn linear_gradient_at_both_ends() {
    let shade = |_schema: PlotColorSchema, count: usize, limit: usize| {
        linear_gradient(count as f32 / limit as f32)
    };
    let schema = PlotColorSchema::LinearGradient;
    assert_eq!(escape_time_to_color(Some(0), 255, schema, &shade), [0, 255, 0]);
    assert_eq!(escape_time_to_color(Some(255), 255, schema, &shade), [255, 0, 0]);
    assert_eq!(escape_time_to_color(Some(128), 256, schema, &shade), [127, 127, 63]);
}

#[test]
fn hue_scheme_through_the_sector_rule() {
    let shade = |_schema: PlotColorSchema, count: usize, limit: usize| {
        let t = count as f32 / limit as f32;
        let hue = 360.0 * t;
        let x = 1.0 - ((hue / 60.0) % 2.0 - 1.0).abs();
        hue_rotation(hue as u32, (x * 255.0) as u8)
    };
    let schema = PlotColorSchema::HueRotation;
    // With a limit of eight every hue is a whole multiple of 45 degrees.
    assert_eq!(escape_time_to_color(Some(0), 8, schema, &shade), [255, 0, 0]);
    assert_eq!(escape_time_to_color(Some(1), 8, schema, &shade), [255, 191, 0]);
    assert_eq!(escape_time_to_color(Some(2), 8, schema, &shade), [127, 255, 0]);
    assert_eq!(escape_time_to_color(Some(3), 8, schema, &shade), [0, 255, 63]);
    assert_eq!(escape_time_to_color(Some(4), 8, schema, &shade), [0, 255, 255]);
    assert_eq!(escape_time_to_color(Some(5), 8, schema, &shade), [0, 63, 255]);
    assert_eq!(escape_time_to_color(Some(6), 8, schema, &shade), [127, 0, 255]);
    assert_eq!(escape_time_to_color(Some(7), 8, schema, &shade), [255, 0, 191]);
    assert_eq!(escape_time_to_color(Some(8), 8, schema, &shade), [255, 0, 0]);
}
