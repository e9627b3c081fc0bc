use packed_font::blend::{blend, rgb_blend, Rgb, TwoColor};
use packed_font::font::{drawn_height, PackedFont};
use packed_font::geometry::{Baseline, Point, Rectangle, Size, TextMetrics};
use packed_font::pack::{pack_font_metrics, pack_glyph_metrics, CompressedFont, PackError};
use packed_font::rle::compress;
use packed_font::rle::AA_BITS;
use packed_font::structs::{all_chars, map_character, FontMetrics, Metrics};
use packed_font::text::CharacterStyle;

fn leak<T>(v: Vec<T>) -> &'static [T] {
    Box::leak(v.into_boxed_slice())
}

/// A font with glyphs for '!' (2x2 bitmap), '"' (no bitmap) and '#'.
fn sample_font() -> PackedFont {
    let mut cf = CompressedFont::new();
    let m1 = Metrics { left_bearing: 1, top_bearing: 5, width: 2, advance: 4 };
    let m2 = Metrics { left_bearing: 0, top_bearing: 0, width: 0, advance: 3 };
    let m3 = Metrics { left_bearing: -1, top_bearing: 7, width: 3, advance: 5 };
    cf.add_glyph(m1, Some(vec![0, 255, 255, 0])).unwrap();
    cf.add_glyph(m2, None).unwrap();
    cf.add_glyph(m3, Some(vec![255; 6])).unwrap();
    cf.metrics = pack_font_metrics(8, -2, 1).unwrap();
    PackedFont {
        metrics: cf.metrics,
        first_char: b'!',
        dict: leak(cf.dict),
        data: leak(cf.font_data),
    }
}

#[test]
fn character_set() {
    let chars = all_chars();
    assert_eq!(chars.len(), 96);
    assert_eq!(chars[0], ' ');
    assert_eq!(chars[94], '~');
    assert_eq!(chars[95], '°');
    for (i, c) in chars.iter().enumerate() {
        assert_eq!(map_character(*c), Some(i as u8));
    }
    assert_eq!(map_character('A'), Some(0x21));
    assert_eq!(map_character('\n'), None);
    assert_eq!(map_character('é'), None);
    assert_eq!(map_character('\x7f'), None);
}

#[test]
fn metrics_bytes() {
    let m = Metrics { left_bearing: -3, top_bearing: 100, width: 200, advance: 7 };
    let b = m.to_bytes();
    assert_eq!(b, [0xfd, 100, 200, 7]);
    assert_eq!(Metrics::from_bytes(&b), m);
}

#[test]
fn packed_glyph_lookup() {
    let font = sample_font();
    assert_eq!(font.dict, &[0, 7, 11]);
    let (m, packed) = font.get_metrics_and_data('!').unwrap();
    assert_eq!(m, Metrics { left_bearing: 1, top_bearing: 5, width: 2, advance: 4 });
    assert_eq!(packed, &compress(vec![0, 255, 255, 0], AA_BITS)[..]);
    let (m, packed) = font.get_metrics_and_data('"').unwrap();
    assert_eq!(m.advance, 3);
    assert!(packed.is_empty());
    let (m, _) = font.get_metrics_and_data('#').unwrap();
    assert_eq!(m.left_bearing, -1);
    assert!(font.get_metrics_and_data(' ').is_none());
    assert!(font.get_metrics_and_data('$').is_none());
    assert!(font.get_metrics_and_data('€').is_none());
}

#[test]
fn render_glyph() {
    let font = sample_font();
    let mut g = font.render('!', Point::new(10, 20)).unwrap();
    let mut grades = Vec::new();
    while let Some(a) = g.grades.next() {
        grades.push(a);
    }
    assert_eq!(grades, vec![0, 15, 15, 0]);
    assert_eq!(
        g.area,
        Some(Rectangle::new(Point::new(11, 15), Size::new(2, 10)))
    );
    let mut g = font.render('"', Point::new(10, 20)).unwrap();
    assert!(g.area.is_none());
    assert_eq!(g.grades.next(), None);
    assert!(font.render('z', Point::new(0, 0)).is_none());
    assert_eq!(drawn_height(4, 2), 2);
    assert_eq!(drawn_height(5, 0), 0);
}

#[test]
fn offset_too_large() {
    let mut cf = CompressedFont::new();
    cf.add_glyph(Metrics { left_bearing: 0, top_bearing: 0, width: 0, advance: 0 }, Some(vec![0x80; 70000]))
        .unwrap();
    let before = cf.dict.clone();
    assert_eq!(
        cf.add_glyph(Metrics { left_bearing: 0, top_bearing: 0, width: 0, advance: 0 }, None),
        Err(PackError::OffsetTooLarge)
    );
    assert_eq!(cf.dict, before);
}

#[test]
fn glyph_metrics_packing() {
    assert_eq!(
        pack_glyph_metrics(12, -2, 30, 9),
        Ok(Metrics { left_bearing: -2, top_bearing: 30, width: 11, advance: 12 })
    );
    assert_eq!(pack_glyph_metrics(256, 0, 0, 0), Err(PackError::MetricOutOfRange));
    assert_eq!(pack_glyph_metrics(-1, 0, 0, 0), Err(PackError::MetricOutOfRange));
    assert_eq!(pack_glyph_metrics(1, -129, 0, 0), Err(PackError::MetricOutOfRange));
    assert_eq!(pack_glyph_metrics(1, 0, 128, 0), Err(PackError::MetricOutOfRange));
    assert_eq!(pack_glyph_metrics(1, 10, 0, 5), Err(PackError::MetricOutOfRange));
    assert_eq!(pack_glyph_metrics(1, 0, 0, 256), Err(PackError::MetricOutOfRange));
    assert_eq!(
        pack_font_metrics(40, -12, 3),
        Ok(FontMetrics { ascent: 40, descent: -12, leading: 3 })
    );
    assert_eq!(pack_font_metrics(128, 0, 0), Err(PackError::MetricOutOfRange));
    assert_eq!(pack_font_metrics(0, 0, -1), Err(PackError::MetricOutOfRange));
}

#[test]
fn blending() {
    assert_eq!(blend(255, 0, 8), 136);
    assert_eq!(blend(200, 100, 15), 200);
    assert_eq!(blend(200, 100, 0), 100);
    assert_eq!(blend(31, 0, 7), 14);
    assert_eq!(blend(10, 20, 5), 16);
    let c = rgb_blend(&Rgb { r: 31, g: 63, b: 0 }, &Rgb { r: 0, g: 0, b: 31 }, 10);
    assert_eq!(c, Rgb { r: 20, g: 42, b: 10 });
    let style = TwoColor { foreground: Rgb { r: 31, g: 63, b: 31 }, background: Rgb { r: 0, g: 0, b: 0 } };
    assert_eq!(style.map_color(15), Rgb { r: 31, g: 63, b: 31 });
    assert_eq!(style.map_color(0), Rgb { r: 0, g: 0, b: 0 });
    assert_eq!(style.background_color(), Some(Rgb { r: 0, g: 0, b: 0 }));
}

#[test]
fn baselines() {
    let font = sample_font();
    let style = CharacterStyle::new(&font, ());
    let p = Point::new(5, 50);
    assert_eq!(style.apply_baseline(p, Baseline::Top), Point::new(5, 58));
    assert_eq!(style.apply_baseline(p, Baseline::Bottom), Point::new(5, 48));
    assert_eq!(style.apply_baseline(p, Baseline::Middle), Point::new(5, 53));
    assert_eq!(style.apply_baseline(p, Baseline::Alphabetic), p);
    assert_eq!(style.line_height(), 11);
}

#[test]
fn middle_baseline_rounds_toward_zero() {
    let mut font = sample_font();
    font.metrics = FontMetrics { ascent: 3, descent: -8, leading: 0 };
    let style = CharacterStyle::new(&font, ());
    assert_eq!(style.apply_baseline(Point::new(0, 0), Baseline::Middle), Point::new(0, -2));
}

#[test]
fn character_cells() {
    let font = sample_font();
    let style = CharacterStyle::new(&font, ());
    let t = style.character_metrics('!', Point::new(10, 20));
    assert_eq!(
        t,
        TextMetrics {
            bounding_box: Rectangle::new(Point::new(10, 12), Size::new(4, 10)),
            next_position: Point::new(14, 20),
        }
    );
    let t = style.character_metrics('x', Point::new(10, 20));
    assert_eq!(t.next_position, Point::new(10, 20));
    assert_eq!(t.bounding_box, Rectangle::new(Point::new(10, 20), Size::new(0, 0)));
    assert_eq!(style.measure_character('!'), Size::new(4, 10));
    assert_eq!(style.measure_character('x'), Size::new(0, 0));
}

#[test]
fn background_around_glyph() {
    let font = sample_font();
    let style = CharacterStyle::new(&font, ());
    let m = Metrics { left_bearing: 1, top_bearing: 5, width: 2, advance: 4 };
    let rects = style.background_fill(m, 2, Point::new(10, 20));
    assert_eq!(
        rects,
        vec![
            Rectangle::new(Point::new(10, 12), Size::new(1, 10)),
            Rectangle::new(Point::new(11, 12), Size::new(2, 3)),
            Rectangle::new(Point::new(11, 17), Size::new(2, 5)),
            Rectangle::new(Point::new(13, 12), Size::new(1, 10)),
        ]
    );
    let m = Metrics { left_bearing: -1, top_bearing: 8, width: 5, advance: 4 };
    let rects = style.background_fill(m, 10, Point::new(0, 0));
    assert!(rects.is_empty());
}

#[test]
fn strings() {
    let font = sample_font();
    let style = CharacterStyle::new(&font, ());
    let (origins, end) = style.layout_string("!x\"#", Point::new(3, 30), Baseline::Top);
    assert_eq!(
        origins,
        vec![Point::new(3, 38), Point::new(7, 38), Point::new(7, 38), Point::new(10, 38)]
    );
    assert_eq!(end, Point::new(15, 30));
    let t = style.measure_string("!x\"#", Point::new(3, 30), Baseline::Top);
    assert_eq!(t.next_position, end);
    assert_eq!(t.bounding_box, Rectangle::new(Point::new(3, 30), Size::new(12, 10)));
    assert_eq!(style.text_advance("!!"), 8);
    let (r, next) = style.whitespace_layout(6, Point::new(1, 2), Baseline::Alphabetic);
    assert_eq!(r, Rectangle::new(Point::new(1, 2), Size::new(6, 11)));
    assert_eq!(next, Point::new(7, 2));
}

#[test]
fn record_checks() {
    let font = sample_font();
    assert!(font.is_well_formed());
    assert!(font.can_look_up_exec('!'));
    assert!(font.can_look_up_exec('z'));
    let broken = PackedFont {
        metrics: font.metrics,
        first_char: b'a',
        dict: leak(vec![0, 6, 5]),
        data: leak(vec![0u8; 12]),
    };
    assert!(!broken.is_well_formed());
    assert!(broken.can_look_up_exec('a'));
    assert!(!broken.can_look_up_exec('b'));
    assert!(broken.can_look_up_exec('c'));
    assert!(broken.can_look_up_exec('d'));
    assert!(broken.record_is_well_formed(2));
    assert!(!broken.record_is_well_formed(1));
    let short = PackedFont {
        metrics: font.metrics,
        first_char: 0,
        dict: leak(vec![0]),
        data: leak(vec![1, 2, 3]),
    };
    assert!(!short.is_well_formed());
}

#[test]
fn advance_overflow_is_detected() {
    let mut cf = CompressedFont::new();
    cf.add_glyph(Metrics { left_bearing: 0, top_bearing: 0, width: 0, advance: 255 }, None).unwrap();
    let font = PackedFont { metrics: font_metrics(), first_char: b'w', dict: leak(cf.dict), data: leak(cf.font_data) };
    let style = CharacterStyle::new(&font, ());
    let fits = "w".repeat(8_421_504);
    assert_eq!(style.checked_text_advance(&fits), Some(2_147_483_520));
    let too_long = "w".repeat(8_421_505);
    assert_eq!(style.checked_text_advance(&too_long), None);
    assert_eq!(style.checked_text_advance("wxw"), Some(510));
}

fn font_metrics() -> FontMetrics {
    FontMetrics { ascent: 10, descent: -3, leading: 2 }
}

#[test]
fn degree_sign_is_found() {
    let mut cf = CompressedFont::new();
    for (i, _) in all_chars().iter().enumerate() {
        let m = Metrics { left_bearing: 0, top_bearing: 1, width: 1, advance: i as u8 };
        cf.add_glyph(m, Some(vec![(i as u8).wrapping_mul(2)])).unwrap();
    }
    let font = PackedFont { metrics: font_metrics(), first_char: 0x20, dict: leak(cf.dict), data: leak(cf.font_data) };
    assert!(font.is_well_formed());
    let (m, packed) = font.get_metrics_and_data('°').unwrap();
    assert_eq!(m.advance, 95);
    assert_eq!(packed, &compress(vec![190], AA_BITS)[..]);
    let (m, _) = font.get_metrics_and_data('~').unwrap();
    assert_eq!(m.advance, 94);
    let (m, _) = font.get_metrics_and_data(' ').unwrap();
    assert_eq!(m.advance, 0);
    // Characters outside the set are found by their own code.
    let (m, _) = font.get_metrics_and_data('\x7f').unwrap();
    assert_eq!(m.advance, 95);
    assert!(font.get_metrics_and_data('\x1f').is_none());
    let style = CharacterStyle::new(&font, ());
    assert_eq!(style.measure_character('°'), Size::new(95, 13));
    assert_eq!(style.checked_text_advance("27°C"), Some(18 + 23 + 95 + 35));
}

#[test]
fn background_and_glyph_tile_the_cell() {
    let font = sample_font();
    let style = CharacterStyle::new(&font, ());
    let m = Metrics { left_bearing: 1, top_bearing: 5, width: 2, advance: 4 };
    let origin = Point::new(10, 20);
    let mut rects = style.background_fill(m, 2, origin);
    rects.push(Rectangle::new(Point::new(11, 15), Size::new(2, 2)));
    let cell = style.character_metrics('!', origin).bounding_box;
    let covers = |r: &Rectangle, x: i32, y: i32| {
        r.top_left.x <= x
            && x < r.top_left.x + r.size.width as i32
            && r.top_left.y <= y
            && y < r.top_left.y + r.size.height as i32
    };
    for x in 0..30 {
        for y in 0..40 {
            let n = rects.iter().filter(|r| covers(r, x, y)).count();
            assert_eq!(n, if covers(&cell, x, y) { 1 } else { 0 });
        }
    }
}

#[test]
fn unpacked_grades_stay_in_range() {
    let packed: Vec<u8> = (0..200u32).map(|i| ((i * 53 + 7) % 256) as u8).collect();
    for g in packed_font::rle::unpack_all(&packed) {
        assert!(g <= 15);
    }
}

#[test]
fn advances_add_over_joined_text() {
    let font = sample_font();
    let style = CharacterStyle::new(&font, ());
    let a = "!#x";
    let b = "\"!!";
    let joined = format!("{a}{b}");
    assert_eq!(
        style.checked_text_advance(&joined).unwrap(),
        style.checked_text_advance(a).unwrap() + style.checked_text_advance(b).unwrap()
    );
}

#[test]
fn other_characters_by_their_code() {
    let mut cf = CompressedFont::new();
    cf.add_glyph(Metrics { left_bearing: 0, top_bearing: 0, width: 0, advance: 7 }, None).unwrap();
    let del = PackedFont { metrics: font_metrics(), first_char: 0x7f, dict: leak(cf.dict), data: leak(cf.font_data) };
    assert_eq!(del.get_metrics_and_data('\x7f').unwrap().0.advance, 7);
    // The degree sign is stored under the code after the tilde.
    assert_eq!(del.get_metrics_and_data('°').unwrap().0.advance, 7);

    let mut cf = CompressedFont::new();
    for i in 0..3u8 {
        cf.add_glyph(Metrics { left_bearing: 0, top_bearing: 0, width: 0, advance: i }, None).unwrap();
    }
    let latin = PackedFont { metrics: font_metrics(), first_char: 0xe8, dict: leak(cf.dict), data: leak(cf.font_data) };
    assert_eq!(latin.get_metrics_and_data('é').unwrap().0.advance, 1);
    assert!(latin.get_metrics_and_data('ë').is_none());
    assert!(latin.get_metrics_and_data('€').is_none());

    let mut cf = CompressedFont::new();
    cf.add_glyph(Metrics { left_bearing: 0, top_bearing: 0, width: 0, advance: 9 }, None).unwrap();
    let ctl = PackedFont { metrics: font_metrics(), first_char: 0x0a, dict: leak(cf.dict), data: leak(cf.font_data) };
    assert_eq!(ctl.get_metrics_and_data('\n').unwrap().0.advance, 9);
}

#[test]
fn packed_font_from_compressed() {
    let mut cf = CompressedFont::new();
    cf.add_glyph(Metrics { left_bearing: 1, top_bearing: 2, width: 1, advance: 3 }, Some(vec![255])).unwrap();
    cf.add_glyph(Metrics { left_bearing: 0, top_bearing: 0, width: 0, advance: 4 }, None).unwrap();
    cf.metrics = font_metrics();
    let font = cf.into_packed_font();
    assert_eq!(font.first_char, 0x20);
    assert_eq!(font.metrics, font_metrics());
    assert!(font.is_well_formed());
    assert_eq!(font.get_metrics_and_data(' ').unwrap().0.advance, 3);
    assert_eq!(font.get_metrics_and_data('!').unwrap().0.advance, 4);
    assert!(font.get_metrics_and_data('"').is_none());
}
