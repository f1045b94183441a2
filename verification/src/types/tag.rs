//! Four-byte tags.

use vstd::prelude::*;

verus! {

/// A four-byte identifier of a script, a language or a feature.
///
/// Tags are ordered as their bytes are, the first byte counting most.
#[derive(Debug, Clone, Copy, PartialEq, Eq, PartialOrd, Ord, Hash, Structural)]
pub struct Tag(pub u32);

/// Why a byte string is not a tag.
#[derive(Debug, Clone, Copy, PartialEq, Eq, Structural)]
pub enum InvalidTag {
    /// The string is empty or longer than four bytes.
    InvalidLength(usize),
    /// The byte at the given position is not printable ASCII.
    InvalidByte { pos: usize, byte: u8 },
}

/// The number whose big-endian bytes are `a`, `b`, `c`, `d`.
pub open spec fn pack(a: u8, b: u8, c: u8, d: u8) -> u32 {
    ((a as u32) << 24) | ((b as u32) << 16) | ((c as u32) << 8) | (d as u32)
}

/// Whether a byte may occur in a tag: printable ASCII, the space included.
pub open spec fn is_tag_byte(byte: u8) -> bool {
    0x20 <= byte <= 0x7E
}

/// The byte at `i`, or a space where the string has ended.
pub open spec fn padded(raw: Seq<u8>, i: int) -> u8 {
    if 0 <= i < raw.len() {
        raw[i]
    } else {
        0x20
    }
}

/// The position of the first byte of `raw` that may not occur in a tag, or
/// the length of `raw` if there is none.
pub open spec fn first_bad_byte(raw: Seq<u8>) -> int
    decreases raw.len(),
{
    if raw.len() == 0 {
        0
    } else if !is_tag_byte(raw[0]) {
        0
    } else {
        1 + first_bad_byte(raw.subrange(1, raw.len() as int))
    }
}

/// What parsing `raw` as a tag gives.
pub open spec fn parse_tag(raw: Seq<u8>) -> Result<Tag, InvalidTag> {
    if raw.len() == 0 || raw.len() > 4 {
        Err(InvalidTag::InvalidLength(raw.len() as usize))
    } else if first_bad_byte(raw) < raw.len() {
        Err(
            InvalidTag::InvalidByte {
                pos: first_bad_byte(raw) as usize,
                byte: raw[first_bad_byte(raw)],
            },
        )
    } else {
        Ok(Tag(pack(padded(raw, 0), padded(raw, 1), padded(raw, 2), padded(raw, 3))))
    }
}

/// The position that `first_bad_byte` names is the first whose byte may not
/// occur in a tag.
pub proof fn lemma_first_bad_byte(raw: Seq<u8>)
    ensures
        0 <= first_bad_byte(raw) <= raw.len(),
        forall|i: int| 0 <= i < first_bad_byte(raw) ==> is_tag_byte(#[trigger] raw[i]),
        first_bad_byte(raw) < raw.len() ==> !is_tag_byte(raw[first_bad_byte(raw)]),
    decreases raw.len(),
{
    if raw.len() > 0 && is_tag_byte(raw[0]) {
        let rest = raw.subrange(1, raw.len() as int);
        lemma_first_bad_byte(rest);
        assert forall|i: int| 0 <= i < first_bad_byte(raw) implies is_tag_byte(
            #[trigger] raw[i],
        ) by {
            if i > 0 {
                assert(raw[i] == rest[i - 1]);
            }
        }
    }
}

impl Tag {
    /// The tag with the given four bytes.
    pub fn new(raw: &[u8; 4]) -> (r: Tag)
        ensures
            r == Tag(pack(raw@[0], raw@[1], raw@[2], raw@[3])),
    {
        Tag::from_bytes(raw[0], raw[1], raw[2], raw[3])
    }

    /// The tag with the given four bytes.
    pub fn from_bytes(a: u8, b: u8, c: u8, d: u8) -> (r: Tag)
        ensures
            r == Tag(pack(a, b, c, d)),
    {
        Tag(((a as u32) << 24) | ((b as u32) << 16) | ((c as u32) << 8) | (d as u32))
    }

    /// The four bytes of this tag.
    pub fn to_be_bytes(self) -> (r: [u8; 4])
        ensures
            self == Tag(pack(r@[0], r@[1], r@[2], r@[3])),
    {
        let x: u32 = self.0;
        let a: u32 = (x >> 24) & 0xFF;
        let b: u32 = (x >> 16) & 0xFF;
        let c: u32 = (x >> 8) & 0xFF;
        let d: u32 = x & 0xFF;
        assert(a < 0x100 && b < 0x100 && c < 0x100 && d < 0x100 && x == (a << 24) | (b << 16) | (c
            << 8) | d) by (bit_vector)
            requires
                a == (x >> 24) & 0xFF,
                b == (x >> 16) & 0xFF,
                c == (x >> 8) & 0xFF,
                d == x & 0xFF,
        ;
        [a as u8, b as u8, c as u8, d as u8]
    }

    /// Parses a tag from one to four bytes of printable ASCII. A shorter
    /// string is padded with spaces on the right.
    pub fn from_raw(raw: &[u8]) -> (r: Result<Tag, InvalidTag>)
        ensures
            r == parse_tag(raw@),
    {
        if raw.len() == 0 || raw.len() > 4 {
            return Err(InvalidTag::InvalidLength(raw.len()));
        }
        proof {
            lemma_first_bad_byte(raw@);
        }
        let mut bytes: [u8; 4] = [0x20, 0x20, 0x20, 0x20];
        let mut i: usize = 0;
        while i < raw.len()
            invariant
                0 < raw@.len() <= 4,
                i <= raw@.len(),
                i <= first_bad_byte(raw@),
                0 <= first_bad_byte(raw@) <= raw@.len(),
                forall|k: int| 0 <= k < first_bad_byte(raw@) ==> is_tag_byte(#[trigger] raw@[k]),
                first_bad_byte(raw@) < raw@.len() ==> !is_tag_byte(raw@[first_bad_byte(raw@)]),
                forall|k: int| 0 <= k < i ==> bytes@[k] == raw@[k],
                forall|k: int| i <= k < 4 ==> bytes@[k] == 0x20,
            decreases raw@.len() - i,
        {
            let byte = raw[i];
            if byte < 0x20 || byte > 0x7E {
                assert(first_bad_byte(raw@) == i) by {
                    if first_bad_byte(raw@) > i {
                        assert(is_tag_byte(raw@[i as int]));
                    }
                }
                return Err(InvalidTag::InvalidByte { pos: i, byte });
            }
            assert(first_bad_byte(raw@) != i);
            bytes[i] = byte;
            i += 1;
        }
        Ok(Tag::from_bytes(bytes[0], bytes[1], bytes[2], bytes[3]))
    }
}

} // verus!
