//! The records stored in a packed font and its character set.
use vstd::prelude::*;

verus! {

/// Vertical metrics of a whole font, in pixels relative to the baseline.
#[derive(Debug, Clone, Copy, PartialEq, Eq, Structural)]
pub struct FontMetrics {
    pub ascent: i8,
    pub descent: i8,
    pub leading: u8,
}

/// Metrics of one glyph, in pixels. Stored as four bytes in this order.
#[derive(Debug, Clone, Copy, PartialEq, Eq, Structural)]
pub struct Metrics {
    pub left_bearing: i8,
    pub top_bearing: i8,
    pub width: u8,
    pub advance: u8,
}

/// Size in bytes of a stored `Metrics` record.
pub const METRICS_SIZE: usize = 4;

/// The record that four stored bytes hold.
pub open spec fn metrics_of_bytes(b: Seq<u8>) -> Metrics {
    Metrics { left_bearing: b[0] as i8, top_bearing: b[1] as i8, width: b[2], advance: b[3] }
}

/// The four bytes that store a record.
pub open spec fn bytes_of_metrics(m: Metrics) -> Seq<u8> {
    seq![m.left_bearing as u8, m.top_bearing as u8, m.width, m.advance]
}

impl Metrics {
    /// Reads a record from its four stored bytes.
    pub fn from_bytes(bytes: &[u8]) -> (m: Metrics)
        requires
            bytes@.len() == METRICS_SIZE,
        ensures
            m == metrics_of_bytes(bytes@),
    {
        Metrics {
            left_bearing: bytes[0] as i8,
            top_bearing: bytes[1] as i8,
            width: bytes[2],
            advance: bytes[3],
        }
    }

    /// The four bytes that store this record.
    pub fn to_bytes(&self) -> (b: [u8; 4])
        ensures
            b@ == bytes_of_metrics(*self),
    {
        let b = [self.left_bearing as u8, self.top_bearing as u8, self.width, self.advance];
        assert(b@ =~= bytes_of_metrics(*self));
        b
    }
}

/// Reading back the stored bytes of a record gives the record.
pub proof fn lemma_metrics_bytes_roundtrip(m: Metrics)
    ensures
        metrics_of_bytes(bytes_of_metrics(m)) == m,
        bytes_of_metrics(m).len() == METRICS_SIZE,
{
    let lb = m.left_bearing;
    let tb = m.top_bearing;
    assert((lb as u8) as i8 == lb) by (bit_vector);
    assert((tb as u8) as i8 == tb) by (bit_vector);
}

/// Number of characters in the packed character set.
pub const CHAR_COUNT: usize = 96;

/// The packed character set in packing order: printable ASCII from space to
/// tilde, then the degree sign.
pub open spec fn char_set() -> Seq<char> {
    Seq::new(
        CHAR_COUNT as nat,
        |i: int|
            if i < 95 {
                (0x20 + i) as char
            } else {
                '\u{b0}'
            },
    )
}

/// The position of a character in the packed character set, if it is in it.
pub open spec fn char_slot(chr: char) -> Option<u8> {
    if 0x20 <= chr as int <= 0x7e {
        Some((chr as int - 0x20) as u8)
    } else if chr == '\u{b0}' {
        Some(0x5f)
    } else {
        None
    }
}

/// All characters of the packed character set, in packing order.
pub fn all_chars() -> (chars: Vec<char>)
    ensures
        chars@ == char_set(),
{
    let mut chars: Vec<char> = Vec::new();
    let mut c: u8 = 0x20;
    while c <= 0x7e
        invariant
            0x20 <= c <= 0x7f,
            chars@.len() == c - 0x20,
            forall|i: int| 0 <= i < chars@.len() ==> chars@[i] == char_set()[i],
        decreases 0x7f - c,
    {
        chars.push(c as char);
        c = c + 1;
    }
    chars.push('\u{b0}');
    assert(chars@ =~= char_set());
    chars
}

/// The position of a character in the packed character set.
pub fn map_character(chr: char) -> (slot: Option<u8>)
    ensures
        slot == char_slot(chr),
{
    let code = chr as u32;
    if 0x20 <= code && code <= 0x7e {
        Some(code as u8 - 0x20)
    } else if chr == '\u{b0}' {
        Some(0x5f)
    } else {
        None
    }
}

/// The position that `map_character` gives a character is the one it has in
/// `all_chars`, and `map_character` gives one exactly to the characters there.
pub proof fn lemma_char_slots(chr: char, i: int)
    requires
        0 <= i < CHAR_COUNT,
    ensures
        char_slot(char_set()[i]) == Some(i as u8),
        char_slot(chr) is Some ==> char_set()[char_slot(chr).unwrap() as int] == chr,
        char_slot(chr) is Some <==> char_set().contains(chr),
{
    if char_slot(chr) is Some {
        let j = char_slot(chr).unwrap() as int;
        assert(char_set()[j] == chr);
    }
    if char_set().contains(chr) {
        let j = choose|j: int| 0 <= j < char_set().len() && char_set()[j] == chr;
        assert(char_set()[j] == chr);
    }
}

} // verus!
