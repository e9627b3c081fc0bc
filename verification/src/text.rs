//! Laying out text drawn with a packed font.
use vstd::prelude::*;
use crate::font::PackedFont;
use crate::geometry::{Baseline, Point, Rectangle, Size, TextMetrics};
use crate::structs::{FontMetrics, Metrics};
use vstd::std_specs::iter::IteratorSpec;

verus! {

broadcast use vstd::string::axiom_spec_iter, vstd::string::next_postcondition;

/// The full height of the font: from its ascent down to its descent.
pub open spec fn font_height(m: FontMetrics) -> u32 {
    (m.ascent - m.descent) as u32
}

/// The vertical metrics can be subtracted within `i8`, as the font's full
/// height is computed.
pub open spec fn height_fits(m: FontMetrics) -> bool {
    -128 <= m.ascent - m.descent <= 127
}

/// What drawing the character `chr` with its origin at `origin` covers and
/// where the next character starts: the cell of the glyph's advance and of
/// the font's full height, or nothing for a character without a glyph.
pub open spec fn char_box(font: &PackedFont, chr: char, origin: Point) -> TextMetrics {
    match font.lookup(chr) {
        Some((m, _)) => TextMetrics {
            bounding_box: Rectangle {
                top_left: Point { x: origin.x, y: (origin.y - font.metrics.ascent) as i32 },
                size: Size { width: m.advance as u32, height: font_height(font.metrics) },
            },
            next_position: Point { x: (origin.x + m.advance) as i32, y: origin.y },
        },
        None => TextMetrics {
            bounding_box: Rectangle { top_left: origin, size: Size { width: 0, height: 0 } },
            next_position: origin,
        },
    }
}

/// The size of the cell of a character: its advance by the font's full
/// height, or nothing for a character without a glyph.
pub open spec fn char_size(font: &PackedFont, chr: char) -> Size {
    match font.lookup(chr) {
        Some((m, _)) => Size { width: m.advance as u32, height: font_height(font.metrics) },
        None => Size { width: 0, height: 0 },
    }
}

/// The parts of a glyph's cell that its bitmap leaves uncovered, when the
/// bitmap covered `height` rows: left of the bitmap, above it, below it and
/// right of it, in this order; empty parts are left out.
pub open spec fn background_rects(fm: FontMetrics, m: Metrics, height: u32, origin: Point) -> Seq<
    Rectangle,
> {
    background_left(fm, m, origin) + background_above(fm, m, origin) + background_below(
        fm,
        m,
        height,
        origin,
    ) + background_right(fm, m, origin)
}

/// The part of a glyph's cell left of its bitmap, when the left bearing is
/// not negative.
pub open spec fn background_left(fm: FontMetrics, m: Metrics, origin: Point) -> Seq<Rectangle> {
    if m.left_bearing >= 0 {
        seq![
            Rectangle {
                top_left: Point { x: origin.x, y: (origin.y - fm.ascent) as i32 },
                size: Size { width: m.left_bearing as u32, height: font_height(fm) },
            },
        ]
    } else {
        Seq::empty()
    }
}

/// The part of a glyph's cell above its bitmap, from the ascent down to the
/// top bearing.
pub open spec fn background_above(fm: FontMetrics, m: Metrics, origin: Point) -> Seq<Rectangle> {
    if fm.ascent > m.top_bearing {
        seq![
            Rectangle {
                top_left: Point {
                    x: (origin.x + m.left_bearing) as i32,
                    y: (origin.y - fm.ascent) as i32,
                },
                size: Size { width: m.width as u32, height: (fm.ascent - m.top_bearing) as u32 },
            },
        ]
    } else {
        Seq::empty()
    }
}

/// The part of a glyph's cell below the `height` rows its bitmap covered,
/// down to the descent.
pub open spec fn background_below(fm: FontMetrics, m: Metrics, height: u32, origin: Point) -> Seq<
    Rectangle,
> {
    let bottom_offset = (height as i32) - m.top_bearing;
    let bottom_rest = -bottom_offset - fm.descent;
    if bottom_rest > 0 {
        seq![
            Rectangle {
                top_left: Point {
                    x: (origin.x + m.left_bearing) as i32,
                    y: (origin.y + bottom_offset) as i32,
                },
                size: Size { width: m.width as u32, height: bottom_rest as u32 },
            },
        ]
    } else {
        Seq::empty()
    }
}

/// The part of a glyph's cell right of its bitmap, up to its advance.
pub open spec fn background_right(fm: FontMetrics, m: Metrics, origin: Point) -> Seq<Rectangle> {
    let right_rest = m.advance - m.left_bearing - m.width;
    if right_rest > 0 {
        seq![
            Rectangle {
                top_left: Point {
                    x: (origin.x + m.left_bearing + m.width) as i32,
                    y: (origin.y - fm.ascent) as i32,
                },
                size: Size { width: right_rest as u32, height: font_height(fm) },
            },
        ]
    } else {
        Seq::empty()
    }
}

/// The background parts of a glyph's cell can be computed within the integer
/// types that hold them.
pub open spec fn background_fits(fm: FontMetrics, m: Metrics, height: u32, origin: Point) -> bool {
    let x = origin.x + m.left_bearing;
    let bottom_offset = (height as i32) - m.top_bearing;
    let bottom_rest = -bottom_offset - fm.descent;
    let right_rest = m.advance - m.left_bearing - m.width;
    &&& i32::MIN <= origin.y - fm.ascent <= i32::MAX
    &&& height_fits(fm)
    &&& fm.ascent > m.top_bearing ==> fm.ascent - m.top_bearing <= 127 && i32::MIN <= x
        <= i32::MAX
    &&& i32::MIN < bottom_offset <= i32::MAX
    &&& i32::MIN <= bottom_rest <= i32::MAX
    &&& bottom_rest > 0 ==> i32::MIN <= x <= i32::MAX && i32::MIN <= origin.y + bottom_offset
        <= i32::MAX
    &&& right_rest > 0 ==> i32::MIN <= x <= i32::MAX && i32::MIN <= x + m.width <= i32::MAX
}

/// Where the characters of `text` start when the first starts at `start`:
/// each one advances by the glyph of the one before.
pub open spec fn string_origins(font: &PackedFont, text: Seq<char>, start: Point) -> Seq<Point> {
    Seq::new(
        text.len(),
        |i: int| Point { x: (start.x + advance_sum(font, text.take(i))) as i32, y: start.y },
    )
}

/// Where text drawn at `position` ends: the position moved right by the
/// advances of its characters.
pub open spec fn string_end(font: &PackedFont, text: Seq<char>, position: Point) -> Point {
    Point { x: (position.x + advance_sum(font, text)) as i32, y: position.y }
}

/// What measuring `text` at `position` gives: the box from the font's ascent
/// above the baseline, as wide as the text advances and of the font's full
/// height, and where the text ends.
pub open spec fn measured_string(
    font: &PackedFont,
    text: Seq<char>,
    position: Point,
    baseline: Baseline,
) -> TextMetrics {
    let y = position.y + baseline_offset(font.metrics, baseline);
    TextMetrics {
        next_position: string_end(font, text, position),
        bounding_box: Rectangle {
            top_left: Point { x: position.x, y: (y - font.metrics.ascent) as i32 },
            size: Size {
                width: advance_sum(font, text) as u32,
                height: font_height(font.metrics),
            },
        },
    }
}

/// The height of a line of text: the font's full height and its leading.
pub open spec fn line_height_of(m: FontMetrics) -> u32 {
    (m.ascent - m.descent + m.leading) as u32
}

/// Half of `x`, rounded toward zero.
pub open spec fn half_toward_zero(x: int) -> int {
    if x >= 0 {
        x / 2
    } else {
        -((-x) / 2)
    }
}

/// How far below a text position its alphabetic baseline lies.
pub open spec fn baseline_offset(m: FontMetrics, baseline: Baseline) -> int {
    match baseline {
        Baseline::Top => m.ascent as int,
        Baseline::Bottom => m.descent as int,
        Baseline::Middle => half_toward_zero(m.ascent + m.descent),
        Baseline::Alphabetic => 0,
    }
}

/// The sum of the advances of the characters of `text` that the font has.
pub open spec fn advance_sum(font: &PackedFont, text: Seq<char>) -> int
    decreases text.len(),
{
    if text.len() == 0 {
        0
    } else {
        advance_sum(font, text.drop_last()) + match font.lookup(text.last()) {
            Some((m, _)) => m.advance as int,
            None => 0,
        }
    }
}

/// Text drawn with a packed font in a style.
pub struct CharacterStyle<'t, S> {
    pub font: &'t PackedFont,
    pub style: S,
}

impl<'t, S> CharacterStyle<'t, S> {
    pub fn new(font: &'t PackedFont, style: S) -> (c: Self)
        ensures
            c.font == font,
            c.style == style,
    {
        Self { font, style }
    }

    /// How far below a text position its alphabetic baseline lies.
    pub fn baseline_shift(&self, baseline: Baseline) -> (d: i32)
        ensures
            d == baseline_offset(self.font.metrics, baseline),
    {
        let metrics = &self.font.metrics;
        match baseline {
            Baseline::Top => metrics.ascent as i32,
            Baseline::Bottom => metrics.descent as i32,
            Baseline::Middle => (metrics.ascent as i32 + metrics.descent as i32) / 2,
            Baseline::Alphabetic => 0,
        }
    }

    /// The point on the alphabetic baseline that a text position gives.
    pub fn apply_baseline(&self, position: Point, baseline: Baseline) -> (p: Point)
        requires
            i32::MIN <= position.y + baseline_offset(self.font.metrics, baseline) <= i32::MAX,
        ensures
            p == (Point {
                x: position.x,
                y: (position.y + baseline_offset(self.font.metrics, baseline)) as i32,
            }),
    {
        let offset = self.baseline_shift(baseline);
        Point::new(position.x, position.y + offset)
    }

    /// The sum of the advances of the characters of `text` that the font has,
    /// if it fits in an `i32`.
    pub fn checked_text_advance(&self, text: &str) -> (w: Option<i32>)
        requires
            forall|i: int| 0 <= i < text@.len() ==> self.font.can_look_up(#[trigger] text@[i]),
        ensures
            advance_sum(self.font, text@) <= i32::MAX ==> w == Some(
                advance_sum(self.font, text@) as i32,
            ),
            advance_sum(self.font, text@) > i32::MAX ==> w is None,
    {
        let mut total: i32 = 0;
        for chr in it: text.chars()
            invariant
                it.seq() == text@,
                total == advance_sum(self.font, text@.take(it.index() as int)),
                forall|i: int| 0 <= i < text@.len() ==> self.font.can_look_up(#[trigger] text@[i]),
        {
            let ghost k = it.index() as int;
            proof {
                assert(text@.take(k + 1).drop_last() =~= text@.take(k));
                assert(text@.take(text@.len() as int) =~= text@);
            }
            if let Some((m, _)) = self.font.get_metrics_and_data(chr) {
                if total > i32::MAX - m.advance as i32 {
                    proof {
                        lemma_advance_sum_prefix(self.font, text@, k + 1, text@.len() as int);
                    }
                    return None;
                }
                total = total + m.advance as i32;
            }
        }
        proof {
            assert(text@.take(text@.len() as int) =~= text@);
        }
        Some(total)
    }

    /// The sum of the advances of the characters of `text` that the font has.
    pub fn text_advance(&self, text: &str) -> (w: i32)
        requires
            forall|i: int| 0 <= i < text@.len() ==> self.font.can_look_up(#[trigger] text@[i]),
            advance_sum(self.font, text@) <= i32::MAX,
        ensures
            w == advance_sum(self.font, text@),
    {
        proof {
            lemma_advance_sum_nonneg(self.font, text@);
        }
        match self.checked_text_advance(text) {
            Some(w) => w,
            None => 0,  // not reached: the sum fits
        }
    }
}

impl<'t, S> CharacterStyle<'t, S> {
    /// What drawing `chr` with its origin at `origin` covers, and where the
    /// next character starts.
    pub fn character_metrics(&self, chr: char, origin: Point) -> (t: TextMetrics)
        requires
            self.font.can_look_up(chr),
            self.font.lookup(chr) is Some ==> {
                &&& height_fits(self.font.metrics)
                &&& i32::MIN <= origin.y - self.font.metrics.ascent <= i32::MAX
                &&& origin.x + self.font.lookup(chr).unwrap().0.advance <= i32::MAX
            },
        ensures
            t == char_box(self.font, chr, origin),
    {
        match self.font.get_metrics_and_data(chr) {
            Some((metrics, _)) => {
                let fm = &self.font.metrics;
                let top_left = Point::new(origin.x, origin.y - fm.ascent as i32);
                let full_height = (fm.ascent - fm.descent) as u32;
                let next_position = Point::new(origin.x + metrics.advance as i32, origin.y);
                let size = Size::new(metrics.advance as u32, full_height);
                TextMetrics { bounding_box: Rectangle::new(top_left, size), next_position }
            },
            None => TextMetrics {
                bounding_box: Rectangle::new(origin, Size::new(0, 0)),
                next_position: origin,
            },
        }
    }

    /// The parts of the cell of a glyph with metrics `metrics`, drawn with its
    /// origin at `origin`, that its bitmap left uncovered after covering
    /// `height` rows; a style with a background colour fills them with it.
    pub fn background_fill(&self, metrics: Metrics, height: u32, origin: Point) -> (rects: Vec<
        Rectangle,
    >)
        requires
            background_fits(self.font.metrics, metrics, height, origin),
        ensures
            rects@ == background_rects(self.font.metrics, metrics, height, origin),
    {
        let fm = &self.font.metrics;
        let top_left = Point::new(origin.x, origin.y - fm.ascent as i32);
        let full_height = (fm.ascent - fm.descent) as u32;
        let mut rects: Vec<Rectangle> = Vec::new();
        if metrics.left_bearing >= 0 {
            rects.push(
                Rectangle::new(top_left, Size::new(metrics.left_bearing as u32, full_height)),
            );
        }
        if fm.ascent > metrics.top_bearing {
            rects.push(
                Rectangle::new(
                    Point::new(top_left.x + metrics.left_bearing as i32, top_left.y),
                    Size::new(metrics.width as u32, (fm.ascent - metrics.top_bearing) as u32),
                ),
            );
        }
        let bottom_y_offset = height as i32 - metrics.top_bearing as i32;
        let bottom_rest = -bottom_y_offset - fm.descent as i32;
        if bottom_rest > 0 {
            rects.push(
                Rectangle::new(
                    Point::new(
                        top_left.x + metrics.left_bearing as i32,
                        origin.y + bottom_y_offset,
                    ),
                    Size::new(metrics.width as u32, bottom_rest as u32),
                ),
            );
        }
        let right_rest = metrics.advance as i32 - metrics.left_bearing as i32
            - metrics.width as i32;
        if right_rest > 0 {
            rects.push(
                Rectangle::new(
                    Point::new(
                        top_left.x + metrics.left_bearing as i32 + metrics.width as i32,
                        top_left.y,
                    ),
                    Size::new(right_rest as u32, full_height),
                ),
            );
        }
        assert(rects@ =~= background_rects(self.font.metrics, metrics, height, origin));
        rects
    }

    /// The size of the cell of `chr`.
    pub fn measure_character(&self, chr: char) -> (s: Size)
        requires
            self.font.can_look_up(chr),
            height_fits(self.font.metrics),
        ensures
            s == char_size(self.font, chr),
    {
        let full_height = (self.font.metrics.ascent - self.font.metrics.descent) as u32;
        match self.font.get_metrics_and_data(chr) {
            Some((metrics, _)) => Size::new(metrics.advance as u32, full_height),
            None => Size::zero(),
        }
    }

    /// Where each character of `text` drawn at `position` starts, and where
    /// the text ends.
    pub fn layout_string(&self, text: &str, position: Point, baseline: Baseline) -> (r: (
        Vec<Point>,
        Point,
    ))
        requires
            forall|i: int| 0 <= i < text@.len() ==> self.font.can_look_up(#[trigger] text@[i]),
            i32::MIN <= position.y + baseline_offset(self.font.metrics, baseline) <= i32::MAX,
            position.x + advance_sum(self.font, text@) <= i32::MAX,
        ensures
            r.0@ == string_origins(
                self.font,
                text@,
                Point {
                    x: position.x,
                    y: (position.y + baseline_offset(self.font.metrics, baseline)) as i32,
                },
            ),
            r.1 == string_end(self.font, text@, position),
    {
        let start = self.apply_baseline(position, baseline);
        let mut origins: Vec<Point> = Vec::new();
        let mut pos = start;
        for chr in it: text.chars()
            invariant
                it.seq() == text@,
                forall|i: int| 0 <= i < text@.len() ==> self.font.can_look_up(#[trigger] text@[i]),
                position.x + advance_sum(self.font, text@) <= i32::MAX,
                pos == (Point {
                    x: (start.x + advance_sum(self.font, text@.take(it.index() as int))) as i32,
                    y: start.y,
                }),
                start.x == position.x,
                0 <= advance_sum(self.font, text@.take(it.index() as int)),
                position.x + advance_sum(self.font, text@.take(it.index() as int)) <= i32::MAX,
                origins@ =~= string_origins(self.font, text@.take(it.index() as int), start),
        {
            let ghost k = it.index() as int;
            proof {
                assert(text@.take(k + 1).drop_last() =~= text@.take(k));
                assert(text@.take(text@.len() as int) =~= text@);
                lemma_advance_sum_prefix(self.font, text@, k + 1, text@.len() as int);
                lemma_advance_sum_prefix(self.font, text@, k, k + 1);
                assert(text@.take(k + 1).last() == chr);
                assert forall|i: int| 0 <= i <= k implies #[trigger] text@.take(k + 1).take(i)
                    == text@.take(k).take(i) by {
                    assert(text@.take(k + 1).take(i) =~= text@.take(i));
                    assert(text@.take(k).take(i) =~= text@.take(i));
                }
            }
            origins.push(pos);
            if let Some((m, _)) = self.font.get_metrics_and_data(chr) {
                pos = Point::new(pos.x + m.advance as i32, pos.y);
            }
        }
        proof {
            assert(text@.take(text@.len() as int) =~= text@);
        }
        (origins, Point::new(pos.x, position.y))
    }

    /// The area that a blank of `width` pixels drawn at `position` fills with
    /// the background colour, and where the text after it starts.
    pub fn whitespace_layout(&self, width: u32, position: Point, baseline: Baseline) -> (r: (
        Rectangle,
        Point,
    ))
        requires
            i32::MIN <= position.y + baseline_offset(self.font.metrics, baseline) <= i32::MAX,
            position.x + (width as i32) <= i32::MAX,
            i32::MIN <= position.x + (width as i32),
        ensures
            r.0 == (Rectangle {
                top_left: Point {
                    x: position.x,
                    y: (position.y + baseline_offset(self.font.metrics, baseline)) as i32,
                },
                size: Size { width, height: line_height_of(self.font.metrics) },
            }),
            r.1 == (Point {
                x: (position.x + (width as i32)) as i32,
                y: (position.y + baseline_offset(self.font.metrics, baseline)) as i32,
            }),
    {
        let pos = self.apply_baseline(position, baseline);
        let height = self.line_height();
        (Rectangle::new(pos, Size::new(width, height)), Point::new(pos.x + width as i32, pos.y))
    }

    /// What drawing `text` at `position` would cover, and where it would end.
    pub fn measure_string(&self, text: &str, position: Point, baseline: Baseline) -> (t:
        TextMetrics)
        requires
            forall|i: int| 0 <= i < text@.len() ==> self.font.can_look_up(#[trigger] text@[i]),
            i32::MIN <= position.y + baseline_offset(self.font.metrics, baseline) <= i32::MAX,
            i32::MIN <= position.y + baseline_offset(self.font.metrics, baseline)
                - self.font.metrics.ascent <= i32::MAX,
            height_fits(self.font.metrics),
            advance_sum(self.font, text@) <= i32::MAX,
            position.x + advance_sum(self.font, text@) <= i32::MAX,
        ensures
            t == measured_string(self.font, text@, position, baseline),
    {
        let pos = self.apply_baseline(position, baseline);
        let full_height = (self.font.metrics.ascent - self.font.metrics.descent) as u32;
        let top_left = Point::new(pos.x, pos.y - self.font.metrics.ascent as i32);
        let total_width = self.text_advance(text);
        proof {
            lemma_advance_sum_nonneg(self.font, text@);
        }
        let width = if total_width > 0 {
            total_width as u32
        } else {
            0
        };
        TextMetrics {
            next_position: Point::new(position.x + total_width, position.y),
            bounding_box: Rectangle::new(top_left, Size::new(width, full_height)),
        }
    }

    /// The height of a line of text.
    pub fn line_height(&self) -> (h: u32)
        ensures
            h == line_height_of(self.font.metrics),
    {
        (self.font.metrics.ascent as i32 - self.font.metrics.descent as i32
            + self.font.metrics.leading as i32) as u32
    }
}

/// Each character of a laid out text starts where drawing the character
/// before it ends.
pub proof fn lemma_origins_follow_advances(font: &PackedFont, text: Seq<char>, start: Point, i: int)
    requires
        0 <= i,
        i + 1 < text.len(),
        start.x + advance_sum(font, text) <= i32::MAX,
    ensures
        string_origins(font, text, start)[i + 1] == char_box(
            font,
            text[i],
            string_origins(font, text, start)[i],
        ).next_position,
{
    lemma_advance_sum_prefix(font, text, i, i + 1);
    lemma_advance_sum_prefix(font, text, i + 1, text.len() as int);
    assert(text.take(text.len() as int) =~= text);
    assert(text.take(i + 1).drop_last() =~= text.take(i));
    assert(text.take(i + 1).last() == text[i]);
}

/// Measuring text says where drawing it character by character ends: at the
/// next position of its last character, back on the line of the text
/// position (at the position itself for empty text).
pub proof fn lemma_measure_matches_drawing(
    font: &PackedFont,
    text: Seq<char>,
    position: Point,
    baseline: Baseline,
)
    requires
        position.x + advance_sum(font, text) <= i32::MAX,
    ensures
        text.len() == 0 ==> measured_string(font, text, position, baseline).next_position
            == position,
        text.len() > 0 ==> {
            let start = Point {
                x: position.x,
                y: (position.y + baseline_offset(font.metrics, baseline)) as i32,
            };
            let last = (text.len() - 1) as int;
            let end = char_box(font, text[last], string_origins(font, text, start)[last]).next_position;
            measured_string(font, text, position, baseline).next_position == Point {
                x: end.x,
                y: position.y,
            }
        },
{
    if text.len() > 0 {
        let n = text.len() as int;
        lemma_advance_sum_prefix(font, text, n - 1, n);
        assert(text.take(n) =~= text);
        assert(text.drop_last() =~= text.take(n - 1));
    }
}

/// The advances of two pieces of text joined together add up.
pub proof fn lemma_advance_sum_concat(font: &PackedFont, a: Seq<char>, b: Seq<char>)
    ensures
        advance_sum(font, a + b) == advance_sum(font, a) + advance_sum(font, b),
    decreases b.len(),
{
    if b.len() == 0 {
        assert(a + b =~= a);
    } else {
        lemma_advance_sum_concat(font, a, b.drop_last());
        assert((a + b).drop_last() =~= a + b.drop_last());
        assert((a + b).last() == b.last());
    }
}

/// The rectangle covers the pixel at `(x, y)`.
pub open spec fn rect_covers(r: Rectangle, x: int, y: int) -> bool {
    &&& r.top_left.x <= x < r.top_left.x + r.size.width
    &&& r.top_left.y <= y < r.top_left.y + r.size.height
}

/// How many of the rectangles cover the pixel at `(x, y)`.
pub open spec fn cover_count(rs: Seq<Rectangle>, x: int, y: int) -> int
    decreases rs.len(),
{
    if rs.len() == 0 {
        0
    } else {
        cover_count(rs.drop_last(), x, y) + if rect_covers(rs.last(), x, y) {
            1int
        } else {
            0
        }
    }
}

proof fn lemma_cover_count_concat(a: Seq<Rectangle>, b: Seq<Rectangle>, x: int, y: int)
    ensures
        cover_count(a + b, x, y) == cover_count(a, x, y) + cover_count(b, x, y),
    decreases b.len(),
{
    if b.len() == 0 {
        assert(a + b =~= a);
    } else {
        lemma_cover_count_concat(a, b.drop_last(), x, y);
        assert((a + b).drop_last() =~= a + b.drop_last());
        assert((a + b).last() == b.last());
    }
}

proof fn lemma_cover_count_small(rs: Seq<Rectangle>, x: int, y: int)
    requires
        rs.len() <= 1,
    ensures
        cover_count(rs, x, y) == if rs.len() == 1 && rect_covers(rs[0], x, y) {
            1int
        } else {
            0
        },
{
    if rs.len() == 1 {
        assert(rs.drop_last().len() == 0);
        assert(rs.last() == rs[0]);
        assert(cover_count(rs.drop_last(), x, y) == 0);
    }
}

/// The rows of a glyph's bitmap that were drawn: `height` rows of its width,
/// from `top_bearing` above the origin.
pub open spec fn glyph_rows(m: Metrics, height: u32, origin: Point) -> Rectangle {
    Rectangle {
        top_left: Point {
            x: (origin.x + m.left_bearing) as i32,
            y: (origin.y - m.top_bearing) as i32,
        },
        size: Size { width: m.width as u32, height },
    }
}

/// Whatever the sign of the left bearing, when a glyph's drawn rows lie
/// within its cell's rows and do not reach past its advance, they and the
/// background parts cover exactly once every pixel from the leftmost of the
/// cell's left edge and the bitmap's left edge up to the advance, between the
/// ascent and the descent, and nothing else.
pub proof fn lemma_background_tiles_glyph_span(
    fm: FontMetrics,
    m: Metrics,
    height: u32,
    origin: Point,
    x: int,
    y: int,
)
    requires
        background_fits(fm, m, height, origin),
        m.left_bearing + m.width <= m.advance,
        m.top_bearing <= fm.ascent,
        fm.descent <= m.top_bearing - height,
        i32::MIN <= origin.x + m.left_bearing <= i32::MAX,
        i32::MIN <= origin.y - m.top_bearing <= i32::MAX,
    ensures
        cover_count(background_rects(fm, m, height, origin).push(glyph_rows(m, height, origin)), x, y)
            == if (if m.left_bearing >= 0 {
            origin.x as int
        } else {
            origin.x + m.left_bearing
        }) <= x < origin.x + m.advance && origin.y - fm.ascent <= y < origin.y - fm.descent {
            1int
        } else {
            0
        },
{
    let left = background_left(fm, m, origin);
    let above = background_above(fm, m, origin);
    let below = background_below(fm, m, height, origin);
    let right = background_right(fm, m, origin);
    let g = glyph_rows(m, height, origin);
    assert(background_rects(fm, m, height, origin) == left + above + below + right);
    let all = background_rects(fm, m, height, origin).push(g);
    assert(all =~= left + above + below + right + seq![g]);
    lemma_cover_count_concat(left + above + below + right, seq![g], x, y);
    lemma_cover_count_concat(left + above + below, right, x, y);
    lemma_cover_count_concat(left + above, below, x, y);
    lemma_cover_count_concat(left, above, x, y);
    lemma_cover_count_small(left, x, y);
    lemma_cover_count_small(above, x, y);
    lemma_cover_count_small(below, x, y);
    lemma_cover_count_small(right, x, y);
    lemma_cover_count_small(seq![g], x, y);
    assert(height <= i32::MAX);
    assert((height as i32) == height);
}

/// Measuring text puts the top edge of its box `ascent` above the baseline
/// that the position and the baseline kind give: at the position itself for
/// `Top`, `ascent` above it for `Alphabetic`, and with the box's bottom edge
/// at the position for `Bottom`. The box's corner does not depend on the
/// text, and it is the corner of the cell of the first character drawn at the
/// text's first origin.
pub proof fn lemma_measured_box_placement(
    font: &PackedFont,
    text: Seq<char>,
    other: Seq<char>,
    position: Point,
    baseline: Baseline,
)
    requires
        i32::MIN <= position.y + baseline_offset(font.metrics, baseline) <= i32::MAX,
        i32::MIN <= position.y + baseline_offset(font.metrics, baseline) - font.metrics.ascent
            <= i32::MAX,
        font.metrics.descent <= font.metrics.ascent,
    ensures
        measured_string(font, text, position, baseline).bounding_box.top_left == measured_string(
            font,
            other,
            position,
            baseline,
        ).bounding_box.top_left,
        measured_string(font, text, position, baseline).bounding_box.top_left.x == position.x,
        baseline == Baseline::Top ==> measured_string(
            font,
            text,
            position,
            baseline,
        ).bounding_box.top_left.y == position.y,
        baseline == Baseline::Alphabetic ==> measured_string(
            font,
            text,
            position,
            baseline,
        ).bounding_box.top_left.y == position.y - font.metrics.ascent,
        baseline == Baseline::Bottom ==> measured_string(
            font,
            text,
            position,
            baseline,
        ).bounding_box.top_left.y + measured_string(
            font,
            text,
            position,
            baseline,
        ).bounding_box.size.height == position.y,
        text.len() > 0 && font.lookup(text[0]) is Some ==> measured_string(
            font,
            text,
            position,
            baseline,
        ).bounding_box.top_left == char_box(
            font,
            text[0],
            string_origins(
                font,
                text,
                Point {
                    x: position.x,
                    y: (position.y + baseline_offset(font.metrics, baseline)) as i32,
                },
            )[0],
        ).bounding_box.top_left,
{
    assert(font_height(font.metrics) == font.metrics.ascent - font.metrics.descent);
    if text.len() > 0 {
        assert(text.take(0).len() == 0);
        assert(advance_sum(font, text.take(0)) == 0);
    }
}

/// When a glyph's drawn rows lie within its cell, they and the background
/// parts cover every pixel of the cell exactly once, and nothing outside it.
pub proof fn lemma_background_tiles_cell(
    fm: FontMetrics,
    m: Metrics,
    height: u32,
    origin: Point,
    x: int,
    y: int,
)
    requires
        background_fits(fm, m, height, origin),
        0 <= m.left_bearing,
        m.left_bearing + m.width <= m.advance,
        m.top_bearing <= fm.ascent,
        fm.descent <= m.top_bearing - height,
        i32::MIN <= origin.x + m.left_bearing <= i32::MAX,
        i32::MIN <= origin.y - m.top_bearing <= i32::MAX,
    ensures
        cover_count(background_rects(fm, m, height, origin).push(glyph_rows(m, height, origin)), x, y)
            == if rect_covers(
            Rectangle {
                top_left: Point { x: origin.x, y: (origin.y - fm.ascent) as i32 },
                size: Size { width: m.advance as u32, height: font_height(fm) },
            },
            x,
            y,
        ) {
            1int
        } else {
            0
        },
{
    let left = background_left(fm, m, origin);
    let above = background_above(fm, m, origin);
    let below = background_below(fm, m, height, origin);
    let right = background_right(fm, m, origin);
    let g = glyph_rows(m, height, origin);
    assert(background_rects(fm, m, height, origin) == left + above + below + right);
    let all = background_rects(fm, m, height, origin).push(g);
    assert(all =~= left + above + below + right + seq![g]);
    lemma_cover_count_concat(left + above + below + right, seq![g], x, y);
    lemma_cover_count_concat(left + above + below, right, x, y);
    lemma_cover_count_concat(left + above, below, x, y);
    lemma_cover_count_concat(left, above, x, y);
    lemma_cover_count_small(left, x, y);
    lemma_cover_count_small(above, x, y);
    lemma_cover_count_small(below, x, y);
    lemma_cover_count_small(right, x, y);
    lemma_cover_count_small(seq![g], x, y);
    assert(height <= i32::MAX);
    assert((height as i32) == height);
}

/// Drawing a character covers the cell that measuring it gives.
pub proof fn lemma_char_box_is_measured(font: &PackedFont, chr: char, origin: Point)
    ensures
        char_box(font, chr, origin).bounding_box.size == char_size(font, chr),
{
}

/// The advances of a prefix of a text sum to no more than those of a longer one.
proof fn lemma_advance_sum_prefix(font: &PackedFont, text: Seq<char>, j: int, k: int)
    requires
        0 <= j <= k <= text.len(),
    ensures
        0 <= advance_sum(font, text.take(j)) <= advance_sum(font, text.take(k)),
    decreases k - j,
{
    if j < k {
        lemma_advance_sum_prefix(font, text, j, k - 1);
        assert(text.take(k).drop_last() =~= text.take(k - 1));
    } else {
        lemma_advance_sum_nonneg(font, text.take(k));
    }
}

proof fn lemma_advance_sum_nonneg(font: &PackedFont, text: Seq<char>)
    ensures
        0 <= advance_sum(font, text),
    decreases text.len(),
{
    if text.len() > 0 {
        lemma_advance_sum_nonneg(font, text.drop_last());
    }
}

} // verus!
