//! The byte cursor: an owned buffer, a movable read offset, fixed-width
//! little-endian primitive reads, the format's signed-length string
//! encoding, hex-identifier reads, and block decryption of a sub-buffer.
use vstd::prelude::*;
use vstd::bytes::{
    spec_u16_from_le_bytes, spec_u32_from_le_bytes, spec_u64_from_le_bytes, u16_from_le_bytes,
    u32_from_le_bytes, u64_from_le_bytes,
};
use vstd::slice::{slice_subrange, slice_to_vec};
use crate::err::ParseError;
use crate::hex::{hex_lower, hex_string_lower};
use crate::text::{utf16_decode, utf8_to_string, utf16_to_string};
use crate::crypto::{aes256_ecb_decrypt, aes256_ecb_decrypt_call};

verus! {

/// The little-endian `u16` held by the two buffer bytes starting at `i`.
pub open spec fn le_u16_at(b: Seq<u8>, i: int) -> u16 {
    spec_u16_from_le_bytes(b.subrange(i, i + 2))
}

/// The little-endian `u32` held by the four buffer bytes starting at `i`.
pub open spec fn le_u32_at(b: Seq<u8>, i: int) -> u32 {
    spec_u32_from_le_bytes(b.subrange(i, i + 4))
}

/// The little-endian `u64` held by the eight buffer bytes starting at `i`.
pub open spec fn le_u64_at(b: Seq<u8>, i: int) -> u64 {
    spec_u64_from_le_bytes(b.subrange(i, i + 8))
}

/// The little-endian `i16` held by the two buffer bytes starting at `i`.
pub open spec fn le_i16_at(b: Seq<u8>, i: int) -> i16 {
    le_u16_at(b, i) as i16
}

/// The little-endian `i32` held by the four buffer bytes starting at `i`.
pub open spec fn le_i32_at(b: Seq<u8>, i: int) -> i32 {
    le_u32_at(b, i) as i32
}

/// The little-endian `i64` held by the eight buffer bytes starting at `i`.
pub open spec fn le_i64_at(b: Seq<u8>, i: int) -> i64 {
    le_u64_at(b, i) as i64
}

/// The sequence of `n` little-endian `u16` code units starting at `off`.
pub open spec fn le_u16_seq_at(b: Seq<u8>, off: int, n: int) -> Seq<u16> {
    Seq::new(n as nat, |i: int| le_u16_at(b, off + 2 * i))
}

/// Whether the signed-length string starting at `off` lies within the
/// buffer: four bytes of length, then the payload the length declares
/// (`l` bytes for `l > 0`, `-l` two-byte code units for `l < 0`).
pub open spec fn spec_string_in_bounds(b: Seq<u8>, off: int) -> bool {
    &&& off + 4 <= b.len()
    &&& {
        let l = le_i32_at(b, off) as int;
        if l >= 0 {
            off + 4 + l <= b.len()
        } else {
            off + 4 + 2 * (-l) <= b.len()
        }
    }
}

/// The offset just past the signed-length string starting at `off`.
pub open spec fn spec_string_end(b: Seq<u8>, off: int) -> int {
    let l = le_i32_at(b, off) as int;
    if l >= 0 {
        off + 4 + l
    } else {
        off + 4 + 2 * (-l)
    }
}

/// The decoded text of the signed-length string starting at `off`, or
/// `None` when the payload is not valid text. A positive length declares
/// that many UTF-8 bytes, a negative length that many UTF-16 code units;
/// either way the payload carries a trailing null that is dropped before
/// decoding.
pub open spec fn spec_string_payload(b: Seq<u8>, off: int) -> Option<Seq<char>>
    recommends
        spec_string_in_bounds(b, off),
{
    let l = le_i32_at(b, off) as int;
    let p = off + 4;
    if l == 0 {
        Some(Seq::<char>::empty())
    } else if l > 0 {
        let content = b.subrange(p, p + l).drop_last();
        if vstd::utf8::valid_utf8(content) {
            Some(vstd::utf8::decode_utf8(content))
        } else {
            None
        }
    } else {
        utf16_decode(le_u16_seq_at(b, p, -l).drop_last())
    }
}

/// The string list starting at `off`: `n` consecutive signed-length
/// strings, with the offset just past the last one; `None` as soon as one
/// of them is out of bounds or fails to decode.
pub open spec fn spec_string_seq(b: Seq<u8>, off: int, n: int) -> Option<(Seq<Seq<char>>, int)>
    decreases n,
{
    if n <= 0 {
        Some((Seq::<Seq<char>>::empty(), off))
    } else {
        if spec_string_in_bounds(b, off) && spec_string_payload(b, off) is Some {
            match spec_string_seq(b, spec_string_end(b, off), n - 1) {
                Some((rest, end)) => Some(
                    (seq![spec_string_payload(b, off).unwrap()] + rest, end),
                ),
                None => None,
            }
        } else {
            None
        }
    }
}

/// The (string, u32) pair list starting at `off`: `n` consecutive pairs of
/// a signed-length string and a little-endian `u32`.
pub open spec fn spec_string_u32_seq(b: Seq<u8>, off: int, n: int) -> Option<
    (Seq<(Seq<char>, u32)>, int),
>
    decreases n,
{
    if n <= 0 {
        Some((Seq::<(Seq<char>, u32)>::empty(), off))
    } else {
        if spec_string_in_bounds(b, off) && spec_string_payload(b, off) is Some
            && spec_string_end(b, off) + 4 <= b.len() {
            let s = spec_string_payload(b, off).unwrap();
            let v = le_u32_at(b, spec_string_end(b, off));
            match spec_string_u32_seq(b, spec_string_end(b, off) + 4, n - 1) {
                Some((rest, end)) => Some((seq![(s, v)] + rest, end)),
                None => None,
            }
        } else {
            None
        }
    }
}

/// Appending one more parsed string to a parsed prefix parses the longer
/// prefix: the list model peels strings off the front, the reading loop
/// adds them at the back.
proof fn lemma_string_seq_snoc(b: Seq<u8>, off: int, n: int)
    requires
        n >= 0,
        spec_string_seq(b, off, n) is Some,
        spec_string_in_bounds(b, spec_string_seq(b, off, n).unwrap().1),
        spec_string_payload(b, spec_string_seq(b, off, n).unwrap().1) is Some,
    ensures
        spec_string_seq(b, off, n + 1) == Some(
            (
                spec_string_seq(b, off, n).unwrap().0.push(
                    spec_string_payload(b, spec_string_seq(b, off, n).unwrap().1).unwrap(),
                ),
                spec_string_end(b, spec_string_seq(b, off, n).unwrap().1),
            ),
        ),
    decreases n,
{
    if n == 0 {
        assert(spec_string_seq(b, off, 1) is Some);
        assert(spec_string_seq(b, off, n + 1).unwrap().0 =~= spec_string_seq(
            b,
            off,
            n,
        ).unwrap().0.push(spec_string_payload(b, spec_string_seq(b, off, n).unwrap().1).unwrap()));
    } else {
        lemma_string_seq_snoc(b, spec_string_end(b, off), n - 1);
        assert(spec_string_seq(b, off, n + 1).unwrap().0 =~= spec_string_seq(
            b,
            off,
            n,
        ).unwrap().0.push(spec_string_payload(b, spec_string_seq(b, off, n).unwrap().1).unwrap()));
    }
}

/// A parsed prefix whose next string fails to parse dooms every longer
/// prefix.
proof fn lemma_string_seq_fail(b: Seq<u8>, off: int, n: int, m: int)
    requires
        0 <= n < m,
        spec_string_seq(b, off, n) is Some,
        !(spec_string_in_bounds(b, spec_string_seq(b, off, n).unwrap().1)
            && spec_string_payload(b, spec_string_seq(b, off, n).unwrap().1) is Some),
    ensures
        spec_string_seq(b, off, m) is None,
    decreases n,
{
    if n == 0 {
        assert(spec_string_seq(b, off, m) is None);
    } else {
        lemma_string_seq_fail(b, spec_string_end(b, off), n - 1, m - 1);
    }
}

/// As [`lemma_string_seq_snoc`], for the (string, u32) pair list model.
proof fn lemma_pair_seq_snoc(b: Seq<u8>, off: int, n: int)
    requires
        n >= 0,
        spec_string_u32_seq(b, off, n) is Some,
        spec_string_in_bounds(b, spec_string_u32_seq(b, off, n).unwrap().1),
        spec_string_payload(b, spec_string_u32_seq(b, off, n).unwrap().1) is Some,
        spec_string_end(b, spec_string_u32_seq(b, off, n).unwrap().1) + 4 <= b.len(),
    ensures
        spec_string_u32_seq(b, off, n + 1) == Some(
            (
                spec_string_u32_seq(b, off, n).unwrap().0.push(
                    (
                        spec_string_payload(b, spec_string_u32_seq(b, off, n).unwrap().1).unwrap(),
                        le_u32_at(b, spec_string_end(b, spec_string_u32_seq(b, off, n).unwrap().1)),
                    ),
                ),
                spec_string_end(b, spec_string_u32_seq(b, off, n).unwrap().1) + 4,
            ),
        ),
    decreases n,
{
    if n == 0 {
        assert(spec_string_u32_seq(b, off, n + 1).unwrap().0 =~= spec_string_u32_seq(
            b,
            off,
            n,
        ).unwrap().0.push(
            (
                spec_string_payload(b, spec_string_u32_seq(b, off, n).unwrap().1).unwrap(),
                le_u32_at(b, spec_string_end(b, spec_string_u32_seq(b, off, n).unwrap().1)),
            ),
        ));
    } else {
        lemma_pair_seq_snoc(b, spec_string_end(b, off) + 4, n - 1);
        assert(spec_string_u32_seq(b, off, n + 1).unwrap().0 =~= spec_string_u32_seq(
            b,
            off,
            n,
        ).unwrap().0.push(
            (
                spec_string_payload(b, spec_string_u32_seq(b, off, n).unwrap().1).unwrap(),
                le_u32_at(b, spec_string_end(b, spec_string_u32_seq(b, off, n).unwrap().1)),
            ),
        ));
    }
}

/// As [`lemma_string_seq_fail`], for the (string, u32) pair list model.
proof fn lemma_pair_seq_fail(b: Seq<u8>, off: int, n: int, m: int)
    requires
        0 <= n < m,
        spec_string_u32_seq(b, off, n) is Some,
        !(spec_string_in_bounds(b, spec_string_u32_seq(b, off, n).unwrap().1)
            && spec_string_payload(b, spec_string_u32_seq(b, off, n).unwrap().1) is Some
            && spec_string_end(b, spec_string_u32_seq(b, off, n).unwrap().1) + 4 <= b.len()),
    ensures
        spec_string_u32_seq(b, off, m) is None,
    decreases n,
{
    if n == 0 {
    } else {
        lemma_pair_seq_fail(b, spec_string_end(b, off) + 4, n - 1, m - 1);
    }
}

/// The byte cursor over one replay buffer (or one decrypted event
/// payload). The buffer's contents never change; only the offset moves,
/// and the symmetric key is captured once during metadata decode.
pub struct Reader {
    pub buffer: Vec<u8>,
    pub offset: usize,
    pub encryption_key: Option<Vec<u8>>,
}

/// True when a cursor operation left the buffer and the captured key as
/// they were (reads only move the offset).
pub open spec fn keeps_data(pre: Reader, post: Reader) -> bool {
    &&& post.buffer@ == pre.buffer@
    &&& post.encryption_key == pre.encryption_key
}

impl Reader {
    /// A fresh cursor over the given bytes, offset at the start, no key
    /// captured yet.
    pub fn new(buffer: Vec<u8>) -> (r: Reader)
        ensures
            r.buffer@ == buffer@,
            r.offset == 0,
            r.encryption_key is None,
    {
        Reader { buffer, offset: 0, encryption_key: None }
    }

    /// Moves the offset forward by `byte_count` without reading.
    pub fn skip(&mut self, byte_count: &usize)
        requires
            old(self).offset + *byte_count <= usize::MAX,
        ensures
            keeps_data(*old(self), *final(self)),
            final(self).offset == old(self).offset + *byte_count,
    {
        self.offset = self.offset + *byte_count;
    }

    /// Moves the offset to an absolute position.
    pub fn goto(&mut self, byte_offset: &usize)
        ensures
            keeps_data(*old(self), *final(self)),
            final(self).offset == *byte_offset,
    {
        self.offset = *byte_offset;
    }

    /// Copies the next `byte_count` bytes and advances past them; a bounds
    /// error if fewer remain.
    pub fn read_bytes(&mut self, byte_count: &usize) -> (r: Result<Vec<u8>, ParseError>)
        ensures
            keeps_data(*old(self), *final(self)),
            old(self).offset + *byte_count <= old(self).buffer@.len() ==> {
                &&& r is Ok
                &&& r.unwrap()@ == old(self).buffer@.subrange(
                    old(self).offset as int,
                    old(self).offset + *byte_count,
                )
                &&& final(self).offset == old(self).offset + *byte_count
            },
            old(self).offset + *byte_count > old(self).buffer@.len() ==> {
                &&& r == Err::<Vec<u8>, ParseError>(ParseError::Bounds { offset: old(self).offset })
                &&& final(self).offset == old(self).offset
            },
    {
        let n: usize = *byte_count;
        if self.buffer.len() >= n && self.offset <= self.buffer.len() - n {
            let s = slice_subrange(self.buffer.as_slice(), self.offset, self.offset + n);
            let v = slice_to_vec(s);
            self.offset = self.offset + n;
            Ok(v)
        } else {
            Err(ParseError::Bounds { offset: self.offset })
        }
    }

    /// Reads one byte and advances by one.
    pub fn read_byte(&mut self) -> (r: Result<u8, ParseError>)
        ensures
            keeps_data(*old(self), *final(self)),
            old(self).offset + 1 <= old(self).buffer@.len() ==> {
                &&& r == Ok::<u8, ParseError>(old(self).buffer@[old(self).offset as int])
                &&& final(self).offset == old(self).offset + 1
            },
            old(self).offset + 1 > old(self).buffer@.len() ==> {
                &&& r == Err::<u8, ParseError>(ParseError::Bounds { offset: old(self).offset })
                &&& final(self).offset == old(self).offset
            },
    {
        if self.offset < self.buffer.len() {
            let b: u8 = self.buffer[self.offset];
            self.offset = self.offset + 1;
            Ok(b)
        } else {
            Err(ParseError::Bounds { offset: self.offset })
        }
    }

    /// Reads a little-endian `u16` and advances by two.
    pub fn read_u16(&mut self) -> (r: Result<u16, ParseError>)
        ensures
            keeps_data(*old(self), *final(self)),
            old(self).offset + 2 <= old(self).buffer@.len() ==> {
                &&& r == Ok::<u16, ParseError>(
                    le_u16_at(old(self).buffer@, old(self).offset as int),
                )
                &&& final(self).offset == old(self).offset + 2
            },
            old(self).offset + 2 > old(self).buffer@.len() ==> {
                &&& r == Err::<u16, ParseError>(ParseError::Bounds { offset: old(self).offset })
                &&& final(self).offset == old(self).offset
            },
    {
        if self.buffer.len() >= 2 && self.offset <= self.buffer.len() - 2 {
            let s = slice_subrange(self.buffer.as_slice(), self.offset, self.offset + 2);
            let v = u16_from_le_bytes(s);
            self.offset = self.offset + 2;
            Ok(v)
        } else {
            Err(ParseError::Bounds { offset: self.offset })
        }
    }

    /// Reads a little-endian `u32` and advances by four.
    pub fn read_u32(&mut self) -> (r: Result<u32, ParseError>)
        ensures
            keeps_data(*old(self), *final(self)),
            old(self).offset + 4 <= old(self).buffer@.len() ==> {
                &&& r == Ok::<u32, ParseError>(
                    le_u32_at(old(self).buffer@, old(self).offset as int),
                )
                &&& final(self).offset == old(self).offset + 4
            },
            old(self).offset + 4 > old(self).buffer@.len() ==> {
                &&& r == Err::<u32, ParseError>(ParseError::Bounds { offset: old(self).offset })
                &&& final(self).offset == old(self).offset
            },
    {
        if self.buffer.len() >= 4 && self.offset <= self.buffer.len() - 4 {
            let s = slice_subrange(self.buffer.as_slice(), self.offset, self.offset + 4);
            let v = u32_from_le_bytes(s);
            self.offset = self.offset + 4;
            Ok(v)
        } else {
            Err(ParseError::Bounds { offset: self.offset })
        }
    }

    /// Reads a little-endian `u64` and advances by eight.
    pub fn read_u64(&mut self) -> (r: Result<u64, ParseError>)
        ensures
            keeps_data(*old(self), *final(self)),
            old(self).offset + 8 <= old(self).buffer@.len() ==> {
                &&& r == Ok::<u64, ParseError>(
                    le_u64_at(old(self).buffer@, old(self).offset as int),
                )
                &&& final(self).offset == old(self).offset + 8
            },
            old(self).offset + 8 > old(self).buffer@.len() ==> {
                &&& r == Err::<u64, ParseError>(ParseError::Bounds { offset: old(self).offset })
                &&& final(self).offset == old(self).offset
            },
    {
        if self.buffer.len() >= 8 && self.offset <= self.buffer.len() - 8 {
            let s = slice_subrange(self.buffer.as_slice(), self.offset, self.offset + 8);
            let v = u64_from_le_bytes(s);
            self.offset = self.offset + 8;
            Ok(v)
        } else {
            Err(ParseError::Bounds { offset: self.offset })
        }
    }

    /// Reads a little-endian `i16` and advances by two.
    pub fn read_i16(&mut self) -> (r: Result<i16, ParseError>)
        ensures
            keeps_data(*old(self), *final(self)),
            old(self).offset + 2 <= old(self).buffer@.len() ==> {
                &&& r == Ok::<i16, ParseError>(
                    le_i16_at(old(self).buffer@, old(self).offset as int),
                )
                &&& final(self).offset == old(self).offset + 2
            },
            old(self).offset + 2 > old(self).buffer@.len() ==> {
                &&& r == Err::<i16, ParseError>(ParseError::Bounds { offset: old(self).offset })
                &&& final(self).offset == old(self).offset
            },
    {
        match self.read_u16() {
            Ok(v) => Ok(v as i16),
            Err(e) => Err(e),
        }
    }

    /// Reads a little-endian `i32` and advances by four.
    pub fn read_i32(&mut self) -> (r: Result<i32, ParseError>)
        ensures
            keeps_data(*old(self), *final(self)),
            old(self).offset + 4 <= old(self).buffer@.len() ==> {
                &&& r == Ok::<i32, ParseError>(
                    le_i32_at(old(self).buffer@, old(self).offset as int),
                )
                &&& final(self).offset == old(self).offset + 4
            },
            old(self).offset + 4 > old(self).buffer@.len() ==> {
                &&& r == Err::<i32, ParseError>(ParseError::Bounds { offset: old(self).offset })
                &&& final(self).offset == old(self).offset
            },
    {
        match self.read_u32() {
            Ok(v) => Ok(v as i32),
            Err(e) => Err(e),
        }
    }

    /// Reads a little-endian `i64` and advances by eight.
    pub fn read_i64(&mut self) -> (r: Result<i64, ParseError>)
        ensures
            keeps_data(*old(self), *final(self)),
            old(self).offset + 8 <= old(self).buffer@.len() ==> {
                &&& r == Ok::<i64, ParseError>(
                    le_i64_at(old(self).buffer@, old(self).offset as int),
                )
                &&& final(self).offset == old(self).offset + 8
            },
            old(self).offset + 8 > old(self).buffer@.len() ==> {
                &&& r == Err::<i64, ParseError>(ParseError::Bounds { offset: old(self).offset })
                &&& final(self).offset == old(self).offset
            },
    {
        match self.read_u64() {
            Ok(v) => Ok(v as i64),
            Err(e) => Err(e),
        }
    }

    /// Reads the four bytes of a little-endian 32-bit float and advances by
    /// four, returning the raw bit pattern; consumers that need the
    /// floating-point value reinterpret the bits themselves.
    pub fn read_f32_bits(&mut self) -> (r: Result<u32, ParseError>)
        ensures
            keeps_data(*old(self), *final(self)),
            old(self).offset + 4 <= old(self).buffer@.len() ==> {
                &&& r == Ok::<u32, ParseError>(
                    le_u32_at(old(self).buffer@, old(self).offset as int),
                )
                &&& final(self).offset == old(self).offset + 4
            },
            old(self).offset + 4 > old(self).buffer@.len() ==> {
                &&& r == Err::<u32, ParseError>(ParseError::Bounds { offset: old(self).offset })
                &&& final(self).offset == old(self).offset
            },
    {
        self.read_u32()
    }

    /// Reads sixteen raw bytes and renders them as a 32-character
    /// lowercase hexadecimal string: a GUID without dashes.
    pub fn read_id(&mut self) -> (r: Result<String, ParseError>)
        ensures
            keeps_data(*old(self), *final(self)),
            old(self).offset + 16 <= old(self).buffer@.len() ==> {
                &&& r is Ok
                &&& r.unwrap()@ == hex_lower(
                    old(self).buffer@.subrange(old(self).offset as int, old(self).offset + 16),
                )
                &&& final(self).offset == old(self).offset + 16
            },
            old(self).offset + 16 > old(self).buffer@.len() ==> {
                &&& r == Err::<String, ParseError>(ParseError::Bounds { offset: old(self).offset })
                &&& final(self).offset == old(self).offset
            },
    {
        match self.read_bytes(&16) {
            Ok(bytes) => Ok(hex_string_lower(&bytes)),
            Err(e) => Err(e),
        }
    }

    /// Reads the format's signed-length string: a signed 32-bit length
    /// `l`, then either `l` UTF-8 bytes (`l > 0`) or `-l` two-byte UTF-16
    /// code units (`l < 0`), each payload carrying a trailing null that is
    /// dropped before decoding; `l == 0` is the empty string.
    pub fn read_string(&mut self) -> (r: Result<String, ParseError>)
        ensures
            keeps_data(*old(self), *final(self)),
            !spec_string_in_bounds(old(self).buffer@, old(self).offset as int) ==> (r matches Err(
                e,
            ) && e is Bounds),
            spec_string_in_bounds(old(self).buffer@, old(self).offset as int)
                && spec_string_payload(old(self).buffer@, old(self).offset as int) is None ==> (
            r matches Err(e) && e is Format),
            spec_string_in_bounds(old(self).buffer@, old(self).offset as int)
                && spec_string_payload(old(self).buffer@, old(self).offset as int) is Some ==> {
                &&& r is Ok
                &&& r.unwrap()@ == spec_string_payload(
                    old(self).buffer@,
                    old(self).offset as int,
                ).unwrap()
                &&& final(self).offset == spec_string_end(
                    old(self).buffer@,
                    old(self).offset as int,
                )
            },
    {
        let l: i32 = match self.read_i32() {
            Ok(v) => v,
            Err(e) => { return Err(e) },
        };
        if l == 0 {
            Ok(String::new())
        } else if l > 0 {
            let n: usize = l as usize;
            let mut bytes = match self.read_bytes(&n) {
                Ok(v) => v,
                Err(e) => { return Err(e) },
            };
            bytes.pop();
            match utf8_to_string(bytes) {
                Some(s) => Ok(s),
                None => Err(ParseError::Format { offset: self.offset }),
            }
        } else {
            let n_units: u64 = (-(l as i64)) as u64;
            let mut units: Vec<u16> = Vec::new();
            let mut i: u64 = 0;
            while i < n_units
                invariant
                    i <= n_units,
                    l == le_i32_at(old(self).buffer@, old(self).offset as int),
                    l < 0,
                    n_units as int == -(l as int),
                    self.buffer@ == old(self).buffer@,
                    self.encryption_key == old(self).encryption_key,
                    self.offset == old(self).offset + 4 + 2 * (i as int),
                    i > 0 ==> self.offset <= old(self).buffer@.len(),
                    units@ == le_u16_seq_at(
                        old(self).buffer@,
                        old(self).offset + 4,
                        i as int,
                    ),
                decreases n_units - i,
            {
                match self.read_u16() {
                    Ok(u) => {
                        units.push(u);
                        proof {
                            assert(units@ =~= le_u16_seq_at(
                                old(self).buffer@,
                                old(self).offset + 4,
                                i as int + 1,
                            ));
                        }
                    },
                    Err(e) => { return Err(e) },
                }
                i = i + 1;
            }
            units.pop();
            proof {
                assert(units@ =~= le_u16_seq_at(
                    old(self).buffer@,
                    old(self).offset + 4,
                    n_units as int,
                ).drop_last());
            }
            match utf16_to_string(&units) {
                Some(s) => Ok(s),
                None => Err(ParseError::Format { offset: self.offset }),
            }
        }
    }

    /// Reads a four-byte unsigned count, then that many signed-length
    /// strings, in order.
    pub fn read_string_vec(&mut self) -> (r: Result<Vec<String>, ParseError>)
        ensures
            keeps_data(*old(self), *final(self)),
            old(self).offset + 4 > old(self).buffer@.len() ==> (r matches Err(e) && e is Bounds),
            old(self).offset + 4 <= old(self).buffer@.len() ==> {
                let m = spec_string_seq(
                    old(self).buffer@,
                    old(self).offset + 4,
                    le_u32_at(old(self).buffer@, old(self).offset as int) as int,
                );
                &&& (r is Ok <==> m is Some)
                &&& (r is Ok ==> r.unwrap()@.map_values(|s: String| s@) == m.unwrap().0
                    && final(self).offset == m.unwrap().1)
            },
    {
        let n: u32 = match self.read_u32() {
            Ok(v) => v,
            Err(e) => { return Err(e) },
        };
        let mut out: Vec<String> = Vec::new();
        let mut i: u32 = 0;
        while i < n
            invariant
                i <= n,
                old(self).offset + 4 <= old(self).buffer@.len(),
                n == le_u32_at(old(self).buffer@, old(self).offset as int),
                self.buffer@ == old(self).buffer@,
                self.encryption_key == old(self).encryption_key,
                spec_string_seq(old(self).buffer@, old(self).offset + 4, i as int) == Some(
                    (out@.map_values(|s: String| s@), self.offset as int),
                ),
            decreases n - i,
        {
            let ghost pre = spec_string_seq(old(self).buffer@, old(self).offset + 4, i as int);
            match self.read_string() {
                Ok(s) => {
                    out.push(s);
                    proof {
                        lemma_string_seq_snoc(old(self).buffer@, old(self).offset + 4, i as int);
                        assert(out@.map_values(|s: String| s@) =~= pre.unwrap().0.push(
                            spec_string_payload(old(self).buffer@, pre.unwrap().1).unwrap(),
                        ));
                    }
                },
                Err(e) => {
                    proof {
                        lemma_string_seq_fail(
                            old(self).buffer@,
                            old(self).offset + 4,
                            i as int,
                            n as int,
                        );
                    }
                    return Err(e);
                },
            }
            i = i + 1;
        }
        Ok(out)
    }

    /// Reads a four-byte unsigned count, then that many (signed-length
    /// string, little-endian u32) pairs, in order.
    pub fn read_string_u32_tuple_vec(&mut self) -> (r: Result<Vec<(String, u32)>, ParseError>)
        ensures
            keeps_data(*old(self), *final(self)),
            old(self).offset + 4 > old(self).buffer@.len() ==> (r matches Err(e) && e is Bounds),
            old(self).offset + 4 <= old(self).buffer@.len() ==> {
                let m = spec_string_u32_seq(
                    old(self).buffer@,
                    old(self).offset + 4,
                    le_u32_at(old(self).buffer@, old(self).offset as int) as int,
                );
                &&& (r is Ok <==> m is Some)
                &&& (r is Ok ==> r.unwrap()@.map_values(|p: (String, u32)| (p.0@, p.1))
                    == m.unwrap().0 && final(self).offset == m.unwrap().1)
            },
    {
        let n: u32 = match self.read_u32() {
            Ok(v) => v,
            Err(e) => { return Err(e) },
        };
        let mut out: Vec<(String, u32)> = Vec::new();
        let mut i: u32 = 0;
        while i < n
            invariant
                i <= n,
                old(self).offset + 4 <= old(self).buffer@.len(),
                n == le_u32_at(old(self).buffer@, old(self).offset as int),
                self.buffer@ == old(self).buffer@,
                self.encryption_key == old(self).encryption_key,
                spec_string_u32_seq(old(self).buffer@, old(self).offset + 4, i as int) == Some(
                    (out@.map_values(|p: (String, u32)| (p.0@, p.1)), self.offset as int),
                ),
            decreases n - i,
        {
            let ghost pre = spec_string_u32_seq(old(self).buffer@, old(self).offset + 4, i as int);
            let s = match self.read_string() {
                Ok(s) => s,
                Err(e) => {
                    proof {
                        lemma_pair_seq_fail(
                            old(self).buffer@,
                            old(self).offset + 4,
                            i as int,
                            n as int,
                        );
                    }
                    return Err(e);
                },
            };
            let v = match self.read_u32() {
                Ok(v) => v,
                Err(e) => {
                    proof {
                        lemma_pair_seq_fail(
                            old(self).buffer@,
                            old(self).offset + 4,
                            i as int,
                            n as int,
                        );
                    }
                    return Err(e);
                },
            };
            out.push((s, v));
            proof {
                lemma_pair_seq_snoc(old(self).buffer@, old(self).offset + 4, i as int);
                assert(out@.map_values(|p: (String, u32)| (p.0@, p.1)) =~= pre.unwrap().0.push(
                    (
                        spec_string_payload(old(self).buffer@, pre.unwrap().1).unwrap(),
                        le_u32_at(
                            old(self).buffer@,
                            spec_string_end(old(self).buffer@, pre.unwrap().1),
                        ),
                    ),
                ));
            }
            i = i + 1;
        }
        Ok(out)
    }

    /// Decrypts the given bytes with the key captured during metadata
    /// decode and returns a fresh cursor over the plaintext, offset at the
    /// start. An encryption error if no key was captured, or if the key or
    /// the data does not fit the cipher.
    pub fn decrypt_buffer(&self, data: Vec<u8>) -> (r: Result<Reader, ParseError>)
        ensures
            r is Ok <==> (self.encryption_key is Some && self.encryption_key.unwrap()@.len() == 32
                && data@.len() > 0 && data@.len() % 16 == 0),
            r is Ok ==> {
                &&& r.unwrap().buffer@ == aes256_ecb_decrypt(
                    self.encryption_key.unwrap()@,
                    data@,
                )
                &&& r.unwrap().offset == 0
                &&& r.unwrap().encryption_key is None
            },
            r matches Err(e) ==> e == ParseError::Encryption,
    {
        let key = match &self.encryption_key {
            Some(k) => k,
            None => { return Err(ParseError::Encryption) },
        };
        if data.len() == 0 {
            return Err(ParseError::Encryption);
        }
        match aes256_ecb_decrypt_call(key, &data) {
            Some(plain) => Ok(Reader { buffer: plain, offset: 0, encryption_key: None }),
            None => Err(ParseError::Encryption),
        }
    }

    /// Reads a four-byte signed integer and returns true only when the
    /// value equals exactly one; zero and every other non-one value,
    /// negative values included, read as false.
    pub fn read_bool(&mut self) -> (r: Result<bool, ParseError>)
        ensures
            keeps_data(*old(self), *final(self)),
            old(self).offset + 4 <= old(self).buffer@.len() ==> {
                &&& r == Ok::<bool, ParseError>(
                    le_i32_at(old(self).buffer@, old(self).offset as int) == 1,
                )
                &&& final(self).offset == old(self).offset + 4
            },
            old(self).offset + 4 > old(self).buffer@.len() ==> {
                &&& r == Err::<bool, ParseError>(ParseError::Bounds { offset: old(self).offset })
                &&& final(self).offset == old(self).offset
            },
    {
        match self.read_i32() {
            Ok(v) => Ok(v == 1),
            Err(e) => Err(e),
        }
    }
}

/// Law: the signed-length string encoding round-trips for ASCII text.
/// Encode a text of ASCII characters as its UTF-8 bytes followed by a
/// trailing null, preceded by the little-endian length byte-count-plus-one:
/// reading a string at that position yields the original text, with the
/// cursor just past the trailing null.
pub proof fn lemma_utf8_string_round_trip(b: Seq<u8>, off: int, s: Seq<char>)
    requires
        vstd::utf8::is_ascii_chars(s),
        s.len() + 1 <= i32::MAX,
        0 <= off,
        off + 4 + s.len() + 1 <= b.len(),
        le_i32_at(b, off) == s.len() + 1,
        b.subrange(off + 4, off + 4 + s.len()) == vstd::utf8::encode_utf8(s),
        b[off + 4 + s.len()] == 0,
    ensures
        spec_string_in_bounds(b, off),
        spec_string_payload(b, off) == Some(s),
        spec_string_end(b, off) == off + 4 + s.len() + 1,
{
    vstd::utf8::is_ascii_chars_encode_utf8(s);
    let l = le_i32_at(b, off) as int;
    assert(l == s.len() + 1);
    let content = b.subrange(off + 4, off + 4 + l).drop_last();
    assert(content =~= b.subrange(off + 4, off + 4 + s.len()));
    vstd::utf8::encode_utf8_valid_utf8(s);
    vstd::utf8::encode_utf8_decode_utf8(s);
}

} // verus!
