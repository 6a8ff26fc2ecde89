//! A decoder from raw bytes to characters: bytes are shifted into an
//! accumulator, at most four at a time, until the accumulated value is a
//! valid Unicode scalar value.

use vstd::prelude::*;

verus! {

/// A value that denotes a Unicode scalar value: not a surrogate and at most
/// 0x10FFFF.
pub open spec fn valid_scalar(v: int) -> bool {
    (0 <= v < 0xD800) || (0xE000 <= v <= 0x10FFFF)
}

/// Relies on char::from_u32: returns `Some` exactly on Unicode scalar values
/// (not a surrogate, at most 0x10FFFF), yielding the character with that
/// code point.
#[verifier::external_body]
fn char_from_u32(value: u32) -> (r: Option<char>)
    ensures
        r matches Some(c) ==> c as u32 == value,
        r is Some <==> valid_scalar(value as int),
{
    char::from_u32(value)
}

/// The decode scan from position `pos` with accumulator `acc` after `k`
/// bytes already taken: shift in one byte at a time, and yield the first
/// accumulated value that is a valid scalar together with the position just
/// past the bytes consumed, or `None` once four bytes are taken or the bytes
/// run out.
pub open spec fn scan_char(bytes: Seq<u8>, pos: int, acc: int, k: int) -> Option<(int, int)>
    decreases 4 - k,
{
    if k >= 4 || pos < 0 || pos >= bytes.len() {
        None
    } else {
        let v = acc * 256 + bytes[pos];
        if valid_scalar(v) {
            Some((v, pos + 1))
        } else {
            scan_char(bytes, pos + 1, v, k + 1)
        }
    }
}

/// An upper bound on the accumulator after `k` bytes were shifted in.
pub open spec fn pow256(k: int) -> int
    decreases k,
{
    if k <= 0 {
        1
    } else {
        256 * pow256(k - 1)
    }
}

/// Converts a byte sequence to a character sequence, one call at a time.
pub struct Chars {
    bytes: Vec<u8>,
    pos: usize,
}

impl Chars {
    /// The bytes being decoded.
    pub closed spec fn spec_bytes(&self) -> Seq<u8> {
        self.bytes@
    }

    /// The position of the next byte to decode.
    pub closed spec fn spec_pos(&self) -> int {
        self.pos as int
    }

    /// The decoder never runs past the end of its bytes.
    pub open spec fn wf(&self) -> bool {
        self.spec_pos() <= self.spec_bytes().len()
    }

    /// Starts a decoder at the beginning of the given bytes.
    pub fn from(value: Vec<u8>) -> (r: Chars)
        ensures
            r.spec_bytes() == value@,
            r.spec_pos() == 0,
            r.wf(),
    {
        Chars { bytes: value, pos: 0 }
    }

    /// Decodes the next character: takes up to four bytes, shifting each
    /// into the accumulated value, and returns the first valid character so
    /// formed.  Returns `None`, consuming the bytes it examined, when four
    /// bytes form no character or the bytes run out.
    pub fn next(&mut self) -> (r: Option<char>)
        requires
            old(self).wf(),
        ensures
            final(self).wf(),
            final(self).spec_bytes() == old(self).spec_bytes(),
            ({
                let d = scan_char(old(self).spec_bytes(), old(self).spec_pos(), 0, 0);
                match r {
                    Some(c) => d matches Some(p) && p.0 == c as u32 && p.1 == final(self).spec_pos(),
                    None => d is None && final(self).spec_pos() == if old(self).spec_pos() + 4
                        <= old(self).spec_bytes().len() {
                        old(self).spec_pos() + 4
                    } else {
                        old(self).spec_bytes().len() as int
                    },
                }
            }),
    {
        // Stores the value of the char if valid.
        let mut value: u32 = 0;
        let mut taken: usize = 0;

        // A character needs at most four bytes.
        while taken < 4 && self.pos < self.bytes.len()
            invariant
                self.bytes@ == old(self).bytes@,
                taken <= 4,
                self.pos == old(self).pos + taken,
                self.pos <= self.bytes@.len(),
                value < pow256(taken as int),
                scan_char(self.bytes@, old(self).pos as int, 0, 0) == scan_char(
                    self.bytes@,
                    self.pos as int,
                    value as int,
                    taken as int,
                ),
            decreases 4 - taken,
        {
            proof {
                assert(pow256(0) == 1);
                assert(pow256(1) == 256);
                assert(pow256(2) == 65536);
                assert(pow256(3) == 16777216);
                assert(pow256(4) == 4294967296);
            }
            // Add the current byte to the char value.
            let byte = self.bytes[self.pos];
            let v2 = value * 256 + byte as u32;
            self.pos = self.pos + 1;
            taken = taken + 1;

            // Try to convert the value to a character, return it if valid.
            match char_from_u32(v2) {
                Some(c) => {
                    return Some(c);
                },
                None => {
                    value = v2;
                },
            }
        }

        // No character was found.
        None
    }
}

} // verus!
