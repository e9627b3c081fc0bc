//! Building a packed font out of rendered glyphs.
use vstd::prelude::*;
use crate::font::{glyph_record, record_ok, PackedFont, FIRST_PACKED_CODE};
use crate::rle::{compress, packed_bitmap, quantize, unpacked, lemma_unpack_compress, AA_BITS};
use crate::structs::{
    FontMetrics, Metrics, bytes_of_metrics, lemma_metrics_bytes_roundtrip, char_set, lemma_char_slots,
    CHAR_COUNT,
};

verus! {

/// Why a font could not be packed.
#[derive(Debug, Clone, Copy, PartialEq, Eq, Structural)]
pub enum PackError {
    /// The data of the glyphs before one of them is too long for its offset
    /// to be stored in 16 bits.
    OffsetTooLarge,
    /// A metric does not fit in the type that stores it.
    MetricOutOfRange,
}

/// A font being packed: the font's vertical metrics, the offsets of the
/// glyph records, and the records; and, for the proofs, the glyphs added so far.
pub struct CompressedFont {
    pub metrics: FontMetrics,
    pub dict: Vec<u16>,
    pub font_data: Vec<u8>,
    pub glyphs: Ghost<Seq<(Metrics, Option<Seq<u8>>)>>,
}

/// `Vec::leak`: consumes the vector and gives its contents as a slice that
/// lives as long as the program; the slice holds the vector's elements.
#[verifier::external_body]
fn leak_vec<T: 'static>(v: Vec<T>) -> (s: &'static [T])
    ensures
        s@ == v@,
{
    v.leak()
}

/// The alpha values that a glyph's bitmap holds, if it has one.
pub open spec fn alpha_seq(alpha: Option<Vec<u8>>) -> Option<Seq<u8>> {
    match alpha {
        Some(a) => Some(a@),
        None => None,
    }
}

/// The packed bitmap that a glyph's alpha values give; a glyph with no bitmap
/// (no width or no height) stores none.
pub open spec fn glyph_bitmap(alpha: Option<Seq<u8>>) -> Seq<u8> {
    match alpha {
        Some(a) => packed_bitmap(a, AA_BITS),
        None => Seq::empty(),
    }
}

/// The grades that a glyph's alpha values are drawn with.
pub open spec fn glyph_grades(alpha: Option<Seq<u8>>) -> Seq<u8> {
    match alpha {
        Some(a) => quantize(a, AA_BITS),
        None => Seq::empty(),
    }
}

/// The records of the glyphs `gs` (metrics and alpha values), one after the other.
pub open spec fn packed_records(gs: Seq<(Metrics, Option<Seq<u8>>)>) -> Seq<u8>
    decreases gs.len(),
{
    if gs.len() == 0 {
        Seq::empty()
    } else {
        packed_records(gs.drop_last()) + bytes_of_metrics(gs.last().0) + glyph_bitmap(
            gs.last().1,
        )
    }
}

/// The offsets at which the records of the glyphs `gs` start.
pub open spec fn packed_offsets(gs: Seq<(Metrics, Option<Seq<u8>>)>) -> Seq<u16> {
    Seq::new(gs.len(), |i: int| packed_records(gs.take(i)).len() as u16)
}

/// Every record of the glyphs `gs` starts at an offset that 16 bits hold.
pub open spec fn offsets_fit(gs: Seq<(Metrics, Option<Seq<u8>>)>) -> bool {
    forall|i: int| 0 <= i < gs.len() ==> packed_records(#[trigger] gs.take(i)).len() <= u16::MAX
}

impl CompressedFont {
    /// The glyphs (metrics and alpha values) added so far, in order.
    pub open spec fn glyphs(&self) -> Seq<(Metrics, Option<Seq<u8>>)> {
        self.glyphs@
    }

    /// The offsets and records are exactly those of the glyphs added so far,
    /// and every offset fits in 16 bits.
    pub open spec fn wf(&self) -> bool {
        &&& self.dict@ == packed_offsets(self.glyphs@)
        &&& self.font_data@ == packed_records(self.glyphs@)
        &&& offsets_fit(self.glyphs@)
    }

    /// A font with no glyph yet and zero metrics.
    pub fn new() -> (f: CompressedFont)
        ensures
            f.metrics == (FontMetrics { ascent: 0, descent: 0, leading: 0 }),
            f.dict@ == packed_offsets(Seq::empty()),
            f.font_data@ == packed_records(Seq::empty()),
            f.glyphs() == Seq::<(Metrics, Option<Seq<u8>>)>::empty(),
            f.wf(),
    {
        let f = CompressedFont {
            metrics: FontMetrics { ascent: 0, descent: 0, leading: 0 },
            dict: Vec::new(),
            font_data: Vec::new(),
            glyphs: Ghost(Seq::empty()),
        };
        assert(f.dict@ =~= packed_offsets(Seq::empty()));
        f
    }

    /// Appends the record of the next glyph: its metrics, then its bitmap of
    /// 8-bit alpha values packed with `AA_BITS` bits per pixel, if it has one.
    pub fn add_glyph(&mut self, metrics: Metrics, alpha: Option<Vec<u8>>) -> (r: Result<
        (),
        PackError,
    >)
        ensures
            old(self).font_data.len() > u16::MAX ==> r == Err::<(), PackError>(
                PackError::OffsetTooLarge,
            ) && *final(self) == *old(self),
            old(self).font_data.len() <= u16::MAX ==> {
                &&& r is Ok
                &&& final(self).metrics == old(self).metrics
                &&& final(self).dict@ == old(self).dict@.push(old(self).font_data.len() as u16)
                &&& final(self).font_data@ == old(self).font_data@ + bytes_of_metrics(metrics)
                    + glyph_bitmap(
                    alpha_seq(alpha),
                )
                &&& final(self).glyphs() == old(self).glyphs().push(
                    (
                        metrics,
                        alpha_seq(alpha),
                    ),
                )
                &&& old(self).wf() ==> final(self).wf()
            },
    {
        let ghost alpha_view = alpha_seq(alpha);
        let len = self.font_data.len();
        if len > 65535 {
            return Err(PackError::OffsetTooLarge);
        }
        self.dict.push(len as u16);
        let bytes = metrics.to_bytes();
        self.font_data.push(bytes[0]);
        self.font_data.push(bytes[1]);
        self.font_data.push(bytes[2]);
        self.font_data.push(bytes[3]);
        let ghost with_metrics = self.font_data@;
        assert(with_metrics =~= old(self).font_data@ + bytes_of_metrics(metrics));
        match alpha {
            Some(a) => {
                let mut packed = compress(a, AA_BITS);
                self.font_data.append(&mut packed);
            },
            None => {
                assert(self.font_data@ =~= with_metrics + Seq::<u8>::empty());
            },
        }
        let ghost old_glyphs = self.glyphs@;
        self.glyphs = Ghost(old_glyphs.push((metrics, alpha_view)));
        proof {
            lemma_records_push(old_glyphs, (metrics, alpha_view));
            if old(self).wf() {
                let gs = self.glyphs@;
                assert forall|i: int| 0 <= i < gs.len() implies packed_records(
                    #[trigger] gs.take(i),
                ).len() <= u16::MAX by {
                    if i < old_glyphs.len() {
                        assert(gs.take(i) =~= old_glyphs.take(i));
                    } else {
                        assert(gs.take(i) =~= old_glyphs);
                    }
                }
            }
        }
        Ok(())
    }

    /// The packed font, for the characters from the space on, that the glyphs
    /// added so far make; every glyph is found again as it was added.
    pub fn into_packed_font(self) -> (f: PackedFont)
        requires
            self.wf(),
        ensures
            f.metrics == self.metrics,
            f.first_char == FIRST_PACKED_CODE,
            f.dict@ == self.dict@,
            f.data@ == self.font_data@,
            f.wf(),
            forall|i: int|
                0 <= i < self.glyphs().len() ==> #[trigger] glyph_record(f.dict@, f.data@, i)
                    == Some((self.glyphs()[i].0, glyph_bitmap(self.glyphs()[i].1))),
    {
        let ghost gs = self.glyphs@;
        let metrics = self.metrics;
        let dict = leak_vec(self.dict);
        let data = leak_vec(self.font_data);
        let f = PackedFont { metrics, first_char: FIRST_PACKED_CODE, dict, data };
        proof {
            assert forall|i: int| 0 <= i < gs.len() implies #[trigger] glyph_record(
                f.dict@,
                f.data@,
                i,
            ) == Some((gs[i].0, glyph_bitmap(gs[i].1))) && record_ok(f.dict@, f.data@, i) by {
                lemma_packed_glyph_lookup(gs, i);
            }
            assert forall|i: int| 0 <= i < f.dict@.len() implies record_ok(
                f.dict@,
                f.data@,
                i,
            ) by {
                lemma_packed_glyph_lookup(gs, i);
            }
        }
        f
    }
}

/// Packs a glyph's metrics from its rounded outline measures in pixels: the
/// advance rounded up, the left edge rounded down, the top edge rounded up and
/// the right edge rounded up.
pub fn pack_glyph_metrics(advance: i32, x_min: i32, y_max: i32, x_max: i32) -> (r: Result<
    Metrics,
    PackError,
>)
    requires
        0 <= advance <= 255 && -128 <= x_min <= 127 && -128 <= y_max <= 127 ==> i32::MIN <= x_max
            - x_min <= i32::MAX,
    ensures
        (0 <= advance <= 255 && -128 <= x_min <= 127 && -128 <= y_max <= 127 && 0 <= x_max - x_min
            <= 255) ==> r == Ok::<Metrics, PackError>(
            Metrics {
                left_bearing: x_min as i8,
                top_bearing: y_max as i8,
                width: (x_max - x_min) as u8,
                advance: advance as u8,
            },
        ),
        !(0 <= advance <= 255 && -128 <= x_min <= 127 && -128 <= y_max <= 127 && 0 <= x_max - x_min
            <= 255) ==> r == Err::<Metrics, PackError>(PackError::MetricOutOfRange),
{
    if advance < 0 || advance > 255 {
        return Err(PackError::MetricOutOfRange);
    }
    if x_min < -128 || x_min > 127 {
        return Err(PackError::MetricOutOfRange);
    }
    if y_max < -128 || y_max > 127 {
        return Err(PackError::MetricOutOfRange);
    }
    let width = x_max - x_min;
    if width < 0 || width > 255 {
        return Err(PackError::MetricOutOfRange);
    }
    Ok(
        Metrics {
            left_bearing: x_min as i8,
            top_bearing: y_max as i8,
            width: width as u8,
            advance: advance as u8,
        },
    )
}

/// Packs a font's vertical metrics from its ascent rounded up, its descent
/// rounded down and its leading rounded up, in pixels.
pub fn pack_font_metrics(ascent: i32, descent: i32, leading: i32) -> (r: Result<
    FontMetrics,
    PackError,
>)
    ensures
        (-128 <= ascent <= 127 && -128 <= descent <= 127 && 0 <= leading <= 255) ==> r == Ok::<
            FontMetrics,
            PackError,
        >(FontMetrics { ascent: ascent as i8, descent: descent as i8, leading: leading as u8 }),
        !(-128 <= ascent <= 127 && -128 <= descent <= 127 && 0 <= leading <= 255) ==> r == Err::<
            FontMetrics,
            PackError,
        >(PackError::MetricOutOfRange),
{
    if ascent < -128 || ascent > 127 || descent < -128 || descent > 127 || leading < 0 || leading
        > 255 {
        return Err(PackError::MetricOutOfRange);
    }
    Ok(FontMetrics { ascent: ascent as i8, descent: descent as i8, leading: leading as u8 })
}

proof fn lemma_records_prefix(gs: Seq<(Metrics, Option<Seq<u8>>)>, j: int, k: int)
    requires
        0 <= j <= k <= gs.len(),
    ensures
        packed_records(gs.take(j)).len() <= packed_records(gs.take(k)).len(),
        packed_records(gs.take(k)).subrange(0, packed_records(gs.take(j)).len() as int)
            == packed_records(gs.take(j)),
    decreases k - j,
{
    if j < k {
        lemma_records_prefix(gs, j, k - 1);
        assert(gs.take(k).drop_last() =~= gs.take(k - 1));
        let pj = packed_records(gs.take(j));
        let pk1 = packed_records(gs.take(k - 1));
        let pk = packed_records(gs.take(k));
        assert(pk.subrange(0, pj.len() as int) =~= pk1.subrange(0, pj.len() as int));
    } else {
        assert(packed_records(gs.take(k)).subrange(0, packed_records(gs.take(j)).len() as int)
            =~= packed_records(gs.take(j)));
    }
}

/// Appending a glyph appends its offset and its record.
pub proof fn lemma_records_push(gs: Seq<(Metrics, Option<Seq<u8>>)>, g: (Metrics, Option<Seq<u8>>))
    ensures
        packed_records(gs.push(g)) == packed_records(gs) + bytes_of_metrics(g.0) + glyph_bitmap(
            g.1,
        ),
        packed_offsets(gs.push(g)) == packed_offsets(gs).push(packed_records(gs).len() as u16),
{
    assert(gs.push(g).drop_last() =~= gs);
    assert forall|i: int| 0 <= i < gs.len() implies #[trigger] gs.push(g).take(i) == gs.take(
        i,
    ) by {
        assert(gs.push(g).take(i) =~= gs.take(i));
    }
    assert(gs.push(g).take(gs.len() as int) =~= gs);
    assert(packed_offsets(gs.push(g)) =~= packed_offsets(gs).push(
        packed_records(gs).len() as u16,
    ));
}

/// In a font packed from the glyphs `gs`, looking up glyph `i` gives back its
/// metrics and its packed bitmap, and unpacking that bitmap gives back the
/// glyph's alpha values reduced to `AA_BITS` bits.
pub proof fn lemma_packed_glyph_lookup(gs: Seq<(Metrics, Option<Seq<u8>>)>, i: int)
    requires
        offsets_fit(gs),
        0 <= i < gs.len(),
    ensures
        record_ok(packed_offsets(gs), packed_records(gs), i),
        glyph_record(packed_offsets(gs), packed_records(gs), i) == Some(
            (gs[i].0, glyph_bitmap(gs[i].1)),
        ),
        unpacked(glyph_bitmap(gs[i].1)) == glyph_grades(gs[i].1),
{
    let dict = packed_offsets(gs);
    let data = packed_records(gs);
    assert(gs.take(gs.len() as int) =~= gs);
    lemma_records_prefix(gs, i, i + 1);
    lemma_records_prefix(gs, i + 1, gs.len() as int);
    let before = packed_records(gs.take(i));
    let upto = packed_records(gs.take(i + 1));
    assert(gs.take(i + 1).drop_last() =~= gs.take(i));
    assert(gs.take(i + 1).last() == gs[i]);
    let rec = bytes_of_metrics(gs[i].0) + glyph_bitmap(gs[i].1);
    assert(upto =~= before + rec);
    assert(dict[i] as int == before.len());
    let end = if i + 1 < gs.len() {
        assert(dict[i + 1] as int == upto.len());
        upto.len() as int
    } else {
        upto.len() as int
    };
    assert(crate::font::record_end(dict, data, i) == end);
    assert(data.subrange(before.len() as int, end) =~= rec) by {
        assert(data.subrange(0, upto.len() as int) == upto);
        assert forall|k: int| 0 <= k < rec.len() implies data.subrange(
            before.len() as int,
            end,
        )[k] == rec[k] by {
            assert(data[before.len() + k] == data.subrange(0, upto.len() as int)[before.len()
                + k]);
        }
    }
    lemma_metrics_bytes_roundtrip(gs[i].0);
    assert(rec.subrange(0, 4) =~= bytes_of_metrics(gs[i].0));
    assert(rec.subrange(4, rec.len() as int) =~= glyph_bitmap(gs[i].1));
    match gs[i].1 {
        Some(a) => {
            lemma_unpack_compress(a);
        },
        None => {
            assert(unpacked(Seq::<u8>::empty()) == Seq::<u8>::empty());
        },
    }
}

/// In a font packed with one glyph per character of the packed character set,
/// in its order and starting at the space, every character of the set, the
/// degree sign among them, finds its own glyph.
pub proof fn lemma_packed_charset_lookup(
    font: &PackedFont,
    gs: Seq<(Metrics, Option<Seq<u8>>)>,
    i: int,
)
    requires
        offsets_fit(gs),
        gs.len() == CHAR_COUNT,
        font.first_char == FIRST_PACKED_CODE,
        font.dict@ == packed_offsets(gs),
        font.data@ == packed_records(gs),
        0 <= i < CHAR_COUNT,
    ensures
        font.can_look_up(char_set()[i]),
        font.lookup(char_set()[i]) == Some((gs[i].0, glyph_bitmap(gs[i].1))),
{
    lemma_char_slots(char_set()[i], i);
    assert(font.glyph_index(char_set()[i]) == Some(i));
    lemma_packed_glyph_lookup(gs, i);
}

} // verus!
