//! A packed font: glyph records found through a table of offsets.
//!
//! The record of the glyph with index `i` starts at byte `dict[i]` of `data`
//! and ends where the next record starts (the last one at the end of `data`).
//! It holds the four bytes of the glyph's `Metrics`, then its packed bitmap.
use vstd::prelude::*;
use crate::geometry::{Point, Rectangle, Size};
use crate::rle::{Unpacker, unpacked};
use crate::structs::{FontMetrics, Metrics, METRICS_SIZE, metrics_of_bytes, char_slot, map_character};

verus! {

/// A font whose glyphs are stored packed, for the characters from
/// `first_char` on.
#[derive(Debug)]
pub struct PackedFont {
    pub metrics: FontMetrics,
    pub first_char: u8,
    pub dict: &'static [u16],
    pub data: &'static [u8],
}

/// Where the record of glyph `idx` starts in `data`.
pub open spec fn record_start(dict: Seq<u16>, idx: int) -> int {
    dict[idx] as int
}

/// Where the record of glyph `idx` ends in `data`: where the next one starts.
pub open spec fn record_end(dict: Seq<u16>, data: Seq<u8>, idx: int) -> int {
    if idx + 1 < dict.len() {
        dict[idx + 1] as int
    } else {
        data.len() as int
    }
}

/// The record of glyph `idx` lies within `data` and holds a whole `Metrics`.
pub open spec fn record_ok(dict: Seq<u16>, data: Seq<u8>, idx: int) -> bool {
    record_start(dict, idx) + METRICS_SIZE <= record_end(dict, data, idx) <= data.len()
}

/// The metrics and packed bitmap of glyph `idx`, when the table has it.
pub open spec fn glyph_record(dict: Seq<u16>, data: Seq<u8>, idx: int) -> Option<
    (Metrics, Seq<u8>),
> {
    if 0 <= idx < dict.len() {
        let start = record_start(dict, idx);
        let raw = data.subrange(start, record_end(dict, data, idx));
        Some(
            (
                metrics_of_bytes(raw.subrange(0, METRICS_SIZE as int)),
                raw.subrange(METRICS_SIZE as int, raw.len() as int),
            ),
        )
    } else {
        None
    }
}

/// The code of the first character of the packed character set, the space.
pub const FIRST_PACKED_CODE: u8 = 0x20;

/// The code under which a character's glyph is stored. A character of the
/// packed character set has its position there counted from the space, so
/// that printable ASCII keeps its own code and the degree sign takes the code
/// after the tilde; any other character below 256 has its own code; the rest
/// have none.
pub open spec fn packed_code(chr: char) -> Option<int> {
    match char_slot(chr) {
        Some(slot) => Some(FIRST_PACKED_CODE + slot),
        None => if (chr as int) < 256 {
            Some(chr as int)
        } else {
            None
        },
    }
}

/// The vertical metrics of every glyph area: the font's full height.
pub open spec fn full_height(m: FontMetrics) -> u32 {
    (m.ascent as i32 - m.descent as i32) as u32
}

/// A glyph ready to be drawn: its metrics, the area its bitmap fills (none
/// for a glyph without width) and the unpacker that yields the grades of its
/// pixels, row by row, as they are drawn.
pub struct GlyphRaster<'a> {
    pub metrics: Metrics,
    pub area: Option<Rectangle>,
    pub grades: Unpacker<'a>,
}

impl PackedFont {
    /// The index of the glyph of a character, if the font has one: its
    /// `packed_code` counted from `first_char`.
    pub open spec fn glyph_index(&self, chr: char) -> Option<int> {
        match packed_code(chr) {
            Some(code) => if self.first_char <= code && code - self.first_char < self.dict@.len() {
                Some(code - self.first_char)
            } else {
                None
            },
            None => None,
        }
    }

    /// The index of the glyph of a character, if the font has one.
    pub fn glyph_index_exec(&self, chr: char) -> (idx: Option<usize>)
        ensures
            match idx {
                Some(i) => self.glyph_index(chr) == Some(i as int),
                None => self.glyph_index(chr) is None,
            },
    {
        let code: u8 = match map_character(chr) {
            Some(slot) => slot + FIRST_PACKED_CODE,
            None => {
                let raw = chr as u32;
                if raw >= 256 {
                    return None;
                }
                raw as u8
            },
        };
        if code < self.first_char {
            return None;
        }
        let idx = (code - self.first_char) as usize;
        if idx >= self.dict.len() {
            return None;
        }
        Some(idx)
    }

    /// Every glyph record of the font is well formed.
    pub open spec fn wf(&self) -> bool {
        forall|i: int| 0 <= i < self.dict@.len() ==> record_ok(self.dict@, self.data@, i)
    }

    /// The record of the glyph of `chr`, if there is one, is well formed.
    pub open spec fn can_look_up(&self, chr: char) -> bool {
        self.glyph_index(chr) matches Some(idx) ==> record_ok(self.dict@, self.data@, idx)
    }

    /// The metrics and packed bitmap of the glyph of `chr`.
    pub open spec fn lookup(&self, chr: char) -> Option<(Metrics, Seq<u8>)> {
        match self.glyph_index(chr) {
            Some(idx) => glyph_record(self.dict@, self.data@, idx),
            None => None,
        }
    }

    /// Whether the record of glyph `idx` lies within the data and holds a
    /// whole `Metrics`.
    pub fn record_is_well_formed(&self, idx: usize) -> (ok: bool)
        requires
            idx < self.dict@.len(),
        ensures
            ok == record_ok(self.dict@, self.data@, idx as int),
    {
        let start = self.dict[idx] as usize;
        let end = if idx + 1 < self.dict.len() {
            self.dict[idx + 1] as usize
        } else {
            self.data.len()
        };
        start + METRICS_SIZE <= end && end <= self.data.len()
    }

    /// Whether the glyph of `chr`, if the font has one, can be looked up.
    pub fn can_look_up_exec(&self, chr: char) -> (ok: bool)
        ensures
            ok == self.can_look_up(chr),
    {
        match self.glyph_index_exec(chr) {
            Some(idx) => self.record_is_well_formed(idx),
            None => true,
        }
    }

    /// Whether every glyph record of the font is well formed.
    pub fn is_well_formed(&self) -> (ok: bool)
        ensures
            ok == self.wf(),
    {
        let mut i: usize = 0;
        while i < self.dict.len()
            invariant
                0 <= i <= self.dict@.len(),
                forall|j: int| 0 <= j < i ==> record_ok(self.dict@, self.data@, j),
            decreases self.dict@.len() - i,
        {
            if !self.record_is_well_formed(i) {
                return false;
            }
            i = i + 1;
        }
        true
    }

    /// The metrics and packed bitmap of the glyph of `character`, if the
    /// font has one.
    pub fn get_metrics_and_data(&self, character: char) -> (r: Option<(Metrics, &[u8])>)
        requires
            self.can_look_up(character),
        ensures
            match r {
                Some((m, packed)) => self.lookup(character) == Some((m, packed@)),
                None => self.lookup(character) is None,
            },
    {
        let idx = match self.glyph_index_exec(character) {
            Some(idx) => idx,
            None => return None,
        };
        let offset = self.dict[idx] as usize;
        let end_offset = if idx + 1 < self.dict.len() {
            self.dict[idx + 1] as usize
        } else {
            self.data.len()
        };
        let raw = &self.data[offset..end_offset];
        let (metrics, packed) = raw.split_at(METRICS_SIZE);
        let metrics = Metrics::from_bytes(metrics);
        Some((metrics, packed))
    }

    /// The glyph of `character` made ready to be drawn with its origin at
    /// `origin`: its bitmap fills, row by row, the area of its width and of
    /// the font's full height whose top left corner lies `left_bearing` to
    /// the right of the origin and `top_bearing` above it.
    pub fn render(&self, character: char, origin: Point) -> (r: Option<GlyphRaster<'_>>)
        requires
            self.can_look_up(character),
            self.lookup(character) matches Some((m, _)) ==> m.width > 0 ==> {
                &&& i32::MIN <= origin.x + m.left_bearing <= i32::MAX
                &&& i32::MIN <= origin.y - m.top_bearing <= i32::MAX
            },
        ensures
            match self.lookup(character) {
                None => r is None,
                Some((m, packed)) => r matches Some(g) && g.metrics == m && g.grades.wf()
                    && g.grades.source() == packed && g.grades.remaining() == unpacked(packed) && (
                if m.width > 0 {
                    g.area == Some(
                        Rectangle {
                            top_left: Point {
                                x: (origin.x + m.left_bearing) as i32,
                                y: (origin.y - m.top_bearing) as i32,
                            },
                            size: Size { width: m.width as u32, height: full_height(self.metrics) },
                        },
                    )
                } else {
                    g.area is None
                }),
            },
    {
        let (metrics, packed) = match self.get_metrics_and_data(character) {
            Some(found) => found,
            None => return None,
        };
        if metrics.width > 0 {
            let h = (self.metrics.ascent as i32 - self.metrics.descent as i32) as u32;
            let top_left = Point::new(
                origin.x + metrics.left_bearing as i32,
                origin.y - metrics.top_bearing as i32,
            );
            let area = Rectangle::new(top_left, Size::new(metrics.width as u32, h));
            Some(GlyphRaster { metrics, area: Some(area), grades: Unpacker::new(packed) })
        } else {
            Some(GlyphRaster { metrics, area: None, grades: Unpacker::new(packed) })
        }
    }
}

/// The height in rows that a glyph's drawn pixels cover: whole rows of its
/// width among the `drawn` pixels that the display took (none for a glyph
/// without width).
pub fn drawn_height(drawn: u32, width: u8) -> (h: u32)
    ensures
        width > 0 ==> h == drawn / (width as u32),
        width == 0 ==> h == 0,
{
    if width > 0 {
        drawn / width as u32
    } else {
        0
    }
}

} // verus!
