//! Markers and headers: the first bytes of every encoded value.
//!
//! A header is the marker byte together with the big-endian length, integer
//! or tag that follows it. This module states what each header means and
//! holds the verified routines that write and read one.

use crate::errors::{Container, Violation};
use vstd::prelude::*;

verus! {

/// What a header announces.
#[derive(Clone, Copy, Debug, PartialEq, Eq, Structural)]
pub enum Head {
    Null,
    Boolean(bool),
    Integer(i64),
    /// The bit pattern of an IEEE-754 double.
    Float(u64),
    /// A container of the given kind with that many bytes, items or entries.
    Sized(Container, u32),
    /// A structure with that many fields (first) and that tag (second).
    Structure(u8, u8),
}

/// Number of values that `width` bytes can hold.
pub open spec fn limit(width: int) -> int {
    if width == 1 {
        0x100
    } else if width == 2 {
        0x1_0000
    } else if width == 4 {
        0x1_0000_0000
    } else {
        0x1_0000_0000_0000_0000
    }
}

/// The unsigned number that the four bytes from `at` spell, big end first.
pub open spec fn quad_at(s: Seq<u8>, at: int) -> nat {
    (((s[at] as nat * 0x100 + s[at + 1] as nat) * 0x100 + s[at + 2] as nat) * 0x100 + s[at
        + 3] as nat) as nat
}

/// The unsigned number that the `width` bytes from `at` spell, big end first.
pub open spec fn uint_at(s: Seq<u8>, at: int, width: int) -> nat {
    if width == 1 {
        s[at] as nat
    } else if width == 2 {
        (s[at] as nat * 0x100 + s[at + 1] as nat) as nat
    } else if width == 4 {
        quad_at(s, at)
    } else {
        (quad_at(s, at) * 0x1_0000_0000 + quad_at(s, at + 4)) as nat
    }
}

/// The four bytes of `n`, big end first.
pub open spec fn quad(n: nat) -> Seq<u8> {
    seq![
        (n / 0x100_0000 % 0x100) as u8,
        (n / 0x1_0000 % 0x100) as u8,
        (n / 0x100 % 0x100) as u8,
        (n % 0x100) as u8,
    ]
}

/// The `width` bytes of `n`, big end first.
pub open spec fn be(n: nat, width: int) -> Seq<u8> {
    if width == 1 {
        seq![(n % 0x100) as u8]
    } else if width == 2 {
        seq![(n / 0x100 % 0x100) as u8, (n % 0x100) as u8]
    } else if width == 4 {
        quad(n)
    } else {
        quad(n / 0x1_0000_0000) + quad(n % 0x1_0000_0000)
    }
}

/// Two's complement: the signed reading of an unsigned number of `width` bytes.
pub open spec fn to_signed(u: nat, width: int) -> int {
    if 2 * u >= limit(width) {
        u - limit(width)
    } else {
        u as int
    }
}

/// Two's complement: the unsigned number that stands for `i` in `width` bytes.
pub open spec fn to_unsigned(i: int, width: int) -> nat {
    if i < 0 {
        (i + limit(width)) as nat
    } else {
        i as nat
    }
}

/// Bytes that follow the marker in the shortest encoding of the integer `i`;
/// 0 where the marker itself holds the value.
pub open spec fn int_width(i: int) -> int {
    if -16 <= i <= 127 {
        0
    } else if -0x80 <= i < 0x80 {
        1
    } else if -0x8000 <= i < 0x8000 {
        2
    } else if -0x8000_0000 <= i < 0x8000_0000 {
        4
    } else {
        8
    }
}

/// Bytes of length that follow the marker in the shortest header of a
/// container of `n` items; 0 where the marker itself holds the length.
/// Byte strings have no such short form.
pub open spec fn size_width(kind: Container, n: nat) -> int {
    if n < 16 && kind != Container::Bytes {
        0
    } else if n < 0x100 {
        1
    } else if n < 0x1_0000 {
        2
    } else {
        4
    }
}

/// The marker of an integer that is followed by `width` bytes.
pub open spec fn int_marker(width: int) -> u8 {
    if width == 1 {
        0xC8
    } else if width == 2 {
        0xC9
    } else if width == 4 {
        0xCA
    } else {
        0xCB
    }
}

/// The marker that holds the length of a short container in its low nibble.
pub open spec fn tiny_marker(kind: Container) -> u8 {
    match kind {
        Container::String => 0x80,
        Container::List => 0x90,
        Container::Dictionary => 0xA0,
        Container::Bytes => 0xCC,
    }
}

/// The marker of a container whose length follows in `width` bytes.
pub open spec fn sized_marker(kind: Container, width: int) -> u8 {
    let base: u8 = match kind {
        Container::Bytes => 0xCC,
        Container::String => 0xD0,
        Container::List => 0xD4,
        Container::Dictionary => 0xD8,
    };
    if width == 1 {
        base
    } else if width == 2 {
        (base + 1) as u8
    } else {
        (base + 2) as u8
    }
}

/// The shortest encoding of an integer.
pub open spec fn encode_int(i: i64) -> Seq<u8> {
    let w = int_width(i as int);
    if w == 0 {
        seq![to_unsigned(i as int, 1) as u8]
    } else {
        seq![int_marker(w)] + be(to_unsigned(i as int, w), w)
    }
}

/// The encoding of a double, given by its bit pattern.
pub open spec fn encode_float(bits: u64) -> Seq<u8> {
    seq![0xC1u8] + be(bits as nat, 8)
}

/// The shortest header of a container of `n` items.
pub open spec fn encode_size(kind: Container, n: nat) -> Seq<u8> {
    let w = size_width(kind, n);
    if w == 0 {
        seq![(tiny_marker(kind) + n) as u8]
    } else {
        seq![sized_marker(kind, w)] + be(n, w)
    }
}

/// The header of a structure with `fields` fields.
pub open spec fn encode_struct_head(fields: nat, tag: u8) -> Seq<u8> {
    seq![(0xB0 + fields) as u8, tag]
}

/// For a marker that is followed by a big-endian number: the kind of
/// container it opens (`None` for an integer), and the width of the number.
pub open spec fn wide_marker(m: u8) -> Option<(Option<Container>, int)> {
    if m == 0xC8 {
        Some((None, 1))
    } else if m == 0xC9 {
        Some((None, 2))
    } else if m == 0xCA {
        Some((None, 4))
    } else if m == 0xCB {
        Some((None, 8))
    } else if m == 0xCC {
        Some((Some(Container::Bytes), 1))
    } else if m == 0xCD {
        Some((Some(Container::Bytes), 2))
    } else if m == 0xCE {
        Some((Some(Container::Bytes), 4))
    } else if m == 0xD0 {
        Some((Some(Container::String), 1))
    } else if m == 0xD1 {
        Some((Some(Container::String), 2))
    } else if m == 0xD2 {
        Some((Some(Container::String), 4))
    } else if m == 0xD4 {
        Some((Some(Container::List), 1))
    } else if m == 0xD5 {
        Some((Some(Container::List), 2))
    } else if m == 0xD6 {
        Some((Some(Container::List), 4))
    } else if m == 0xD8 {
        Some((Some(Container::Dictionary), 1))
    } else if m == 0xD9 {
        Some((Some(Container::Dictionary), 2))
    } else if m == 0xDA {
        Some((Some(Container::Dictionary), 4))
    } else {
        None
    }
}

/// What the header at the start of `s` announces, and how many bytes it takes.
///
/// Any valid marker width is accepted. With `strict`, a header that is wider
/// than its content needs is refused as an unexpected marker.
#[verifier::opaque]
pub open spec fn parse_head(s: Seq<u8>, strict: bool) -> Result<(Head, nat), Violation> {
    if s.len() == 0 {
        Err(Violation::UnexpectedEnd)
    } else {
        let m = s[0];
        if m < 0x80 {
            Ok((Head::Integer(m as i64), 1))
        } else if m < 0x90 {
            Ok((Head::Sized(Container::String, (m - 0x80) as u32), 1))
        } else if m < 0xA0 {
            Ok((Head::Sized(Container::List, (m - 0x90) as u32), 1))
        } else if m < 0xB0 {
            Ok((Head::Sized(Container::Dictionary, (m - 0xA0) as u32), 1))
        } else if m < 0xC0 {
            if s.len() < 2 {
                Err(Violation::UnexpectedEnd)
            } else {
                Ok((Head::Structure((m - 0xB0) as u8, s[1]), 2))
            }
        } else if m == 0xC0 {
            Ok((Head::Null, 1))
        } else if m == 0xC1 {
            if s.len() < 9 {
                Err(Violation::UnexpectedEnd)
            } else {
                Ok((Head::Float(uint_at(s, 1, 8) as u64), 9))
            }
        } else if m == 0xC2 {
            Ok((Head::Boolean(false), 1))
        } else if m == 0xC3 {
            Ok((Head::Boolean(true), 1))
        } else if m >= 0xF0 {
            Ok((Head::Integer((m - 0x100) as i64), 1))
        } else {
            match wide_marker(m) {
                None => Err(Violation::UnexpectedMarker),
                Some((shape, w)) => {
                    if s.len() < 1 + w {
                        Err(Violation::UnexpectedEnd)
                    } else {
                        let u = uint_at(s, 1, w);
                        match shape {
                            None => {
                                let i = to_signed(u, w);
                                if strict && int_width(i) != w {
                                    Err(Violation::UnexpectedMarker)
                                } else {
                                    Ok((Head::Integer(i as i64), (1 + w) as nat))
                                }
                            },
                            Some(kind) => {
                                if strict && size_width(kind, u) != w {
                                    Err(Violation::UnexpectedMarker)
                                } else {
                                    Ok((Head::Sized(kind, u as u32), (1 + w) as nat))
                                }
                            },
                        }
                    }
                },
            }
        }
    }
}

/// The unsigned number of `width` bytes at `pos`.
pub(crate) fn read_uint(buf: &[u8], pos: usize, width: usize) -> (r: u64)
    requires
        width == 1 || width == 2 || width == 4 || width == 8,
        pos + width <= buf@.len(),
    ensures
        r == uint_at(buf@, pos as int, width as int),
        r < limit(width as int),
{
    let len: usize = buf.len();
    let mut r: u64 = 0;
    let mut i: usize = 0;
    while i < width
        invariant
            width == 1 || width == 2 || width == 4 || width == 8,
            pos + width <= len,
            len == buf@.len(),
            i <= width,
            i == 0 ==> r == 0,
            i == 1 ==> r == buf@[pos as int],
            i == 2 ==> r == buf@[pos as int] as nat * 0x100 + buf@[pos + 1] as nat,
            i == 3 ==> r == (buf@[pos as int] as nat * 0x100 + buf@[pos + 1] as nat) * 0x100
                + buf@[pos + 2] as nat,
            i == 4 ==> r == quad_at(buf@, pos as int),
            i == 5 ==> r == quad_at(buf@, pos as int) * 0x100 + buf@[pos + 4] as nat,
            i == 6 ==> r == (quad_at(buf@, pos as int) * 0x100 + buf@[pos + 4] as nat) * 0x100
                + buf@[pos + 5] as nat,
            i == 7 ==> r == ((quad_at(buf@, pos as int) * 0x100 + buf@[pos + 4] as nat) * 0x100
                + buf@[pos + 5] as nat) * 0x100 + buf@[pos + 6] as nat,
            i == 8 ==> r == uint_at(buf@, pos as int, 8),
        decreases width - i,
    {
        let b: u8 = buf[pos + i];
        r = r * 256 + b as u64;
        i += 1;
    }
    r
}

/// Appends the `width` bytes of `n`, big end first.
pub(crate) fn write_uint(out: &mut Vec<u8>, n: u64, width: usize)
    requires
        width == 1 || width == 2 || width == 4 || width == 8,
        n < limit(width as int),
    ensures
        final(out)@ == old(out)@ + be(n as nat, width as int),
{
    if width == 8 {
        let hi: u64 = n / 0x1_0000_0000;
        let lo: u64 = n % 0x1_0000_0000;
        out.push((hi / 0x100_0000 % 0x100) as u8);
        out.push((hi / 0x1_0000 % 0x100) as u8);
        out.push((hi / 0x100 % 0x100) as u8);
        out.push((hi % 0x100) as u8);
        out.push((lo / 0x100_0000 % 0x100) as u8);
        out.push((lo / 0x1_0000 % 0x100) as u8);
        out.push((lo / 0x100 % 0x100) as u8);
        out.push((lo % 0x100) as u8);
    } else if width == 4 {
        out.push((n / 0x100_0000 % 0x100) as u8);
        out.push((n / 0x1_0000 % 0x100) as u8);
        out.push((n / 0x100 % 0x100) as u8);
        out.push((n % 0x100) as u8);
    } else if width == 2 {
        out.push((n / 0x100 % 0x100) as u8);
        out.push((n % 0x100) as u8);
    } else {
        out.push((n % 0x100) as u8);
    }
    assert(out@ =~= old(out)@ + be(n as nat, width as int));
}

/// Appends the shortest encoding of `i`.
pub(crate) fn write_int(out: &mut Vec<u8>, i: i64)
    ensures
        final(out)@ == old(out)@ + encode_int(i),
{
    if -16 <= i && i <= 127 {
        let b: u8 = if i < 0 {
            (i + 0x100) as u8
        } else {
            i as u8
        };
        out.push(b);
        assert(out@ =~= old(out)@ + encode_int(i));
    } else if -0x80 <= i && i < 0x80 {
        let u: u64 = if i < 0 {
            (i + 0x100) as u64
        } else {
            i as u64
        };
        out.push(0xC8);
        write_uint(out, u, 1);
        assert(out@ =~= old(out)@ + encode_int(i));
    } else if -0x8000 <= i && i < 0x8000 {
        let u: u64 = if i < 0 {
            (i + 0x1_0000) as u64
        } else {
            i as u64
        };
        out.push(0xC9);
        write_uint(out, u, 2);
        assert(out@ =~= old(out)@ + encode_int(i));
    } else if -0x8000_0000 <= i && i < 0x8000_0000 {
        let u: u64 = if i < 0 {
            (i + 0x1_0000_0000) as u64
        } else {
            i as u64
        };
        out.push(0xCA);
        write_uint(out, u, 4);
        assert(out@ =~= old(out)@ + encode_int(i));
    } else {
        let u: u64 = if i < 0 {
            (i - i64::MIN) as u64 + 0x8000_0000_0000_0000
        } else {
            i as u64
        };
        out.push(0xCB);
        write_uint(out, u, 8);
        assert(out@ =~= old(out)@ + encode_int(i));
    }
}

/// Appends the encoding of the double with the given bit pattern.
pub(crate) fn write_float(out: &mut Vec<u8>, bits: u64)
    ensures
        final(out)@ == old(out)@ + encode_float(bits),
{
    out.push(0xC1);
    write_uint(out, bits, 8);
    assert(out@ =~= old(out)@ + encode_float(bits));
}

/// Appends the shortest header of a container of `n` items.
pub(crate) fn write_size(out: &mut Vec<u8>, kind: Container, n: u32)
    ensures
        final(out)@ == old(out)@ + encode_size(kind, n as nat),
{
    let tiny: bool = n < 16 && !matches!(kind, Container::Bytes);
    let base: u8 = match kind {
        Container::Bytes => 0xCC,
        Container::String => 0xD0,
        Container::List => 0xD4,
        Container::Dictionary => 0xD8,
    };
    if tiny {
        let low: u8 = match kind {
            Container::String => 0x80,
            Container::List => 0x90,
            _ => 0xA0,
        };
        out.push(low + n as u8);
    } else if n < 0x100 {
        out.push(base);
        write_uint(out, n as u64, 1);
    } else if n < 0x1_0000 {
        out.push(base + 1);
        write_uint(out, n as u64, 2);
    } else {
        out.push(base + 2);
        write_uint(out, n as u64, 4);
    }
    assert(out@ =~= old(out)@ + encode_size(kind, n as nat));
}

/// Appends the header of a structure.
pub(crate) fn write_struct_head(out: &mut Vec<u8>, fields: u8, tag: u8)
    requires
        fields < 16,
    ensures
        final(out)@ == old(out)@ + encode_struct_head(fields as nat, tag),
{
    out.push(0xB0 + fields);
    out.push(tag);
    assert(out@ =~= old(out)@ + encode_struct_head(fields as nat, tag));
}

/// The meaning of a `read_head` result, with the length as a number.
pub open spec fn head_of(r: Result<(Head, usize), Violation>) -> Result<(Head, nat), Violation> {
    match r {
        Ok((h, n)) => Ok((h, n as nat)),
        Err(e) => Err(e),
    }
}

/// The signed reading of `u`, a number of `width` bytes.
fn signed(u: u64, width: usize) -> (i: i64)
    requires
        width == 1 || width == 2 || width == 4 || width == 8,
        u < limit(width as int),
    ensures
        i == to_signed(u as nat, width as int),
{
    if width == 1 {
        if u >= 0x80 {
            u as i64 - 0x100
        } else {
            u as i64
        }
    } else if width == 2 {
        if u >= 0x8000 {
            u as i64 - 0x1_0000
        } else {
            u as i64
        }
    } else if width == 4 {
        if u >= 0x8000_0000 {
            u as i64 - 0x1_0000_0000
        } else {
            u as i64
        }
    } else {
        if u >= 0x8000_0000_0000_0000 {
            (u - 0x8000_0000_0000_0000) as i64 + i64::MIN
        } else {
            u as i64
        }
    }
}

/// Reads the header at `pos`, accepting any valid marker width.
pub(crate) fn read_head(buf: &[u8], pos: usize) -> (r: Result<(Head, usize), Violation>)
    requires
        pos <= buf@.len(),
    ensures
        head_of(r) == parse_head(buf@.skip(pos as int), false),
        r matches Ok((_, n)) ==> 1 <= n && pos + n <= buf@.len(),
{
    let ghost s = buf@.skip(pos as int);
    reveal(parse_head);
    if pos >= buf.len() {
        return Err(Violation::UnexpectedEnd);
    }
    let left: usize = buf.len() - pos;
    let m: u8 = buf[pos];
    assert(m == s[0]);
    if m < 0x80 {
        Ok((Head::Integer(m as i64), 1))
    } else if m < 0x90 {
        Ok((Head::Sized(Container::String, (m - 0x80) as u32), 1))
    } else if m < 0xA0 {
        Ok((Head::Sized(Container::List, (m - 0x90) as u32), 1))
    } else if m < 0xB0 {
        Ok((Head::Sized(Container::Dictionary, (m - 0xA0) as u32), 1))
    } else if m < 0xC0 {
        if left < 2 {
            Err(Violation::UnexpectedEnd)
        } else {
            let tag: u8 = buf[pos + 1];
            assert(tag == s[1]);
            Ok((Head::Structure(m - 0xB0, tag), 2))
        }
    } else if m == 0xC0 {
        Ok((Head::Null, 1))
    } else if m == 0xC1 {
        if left < 9 {
            Err(Violation::UnexpectedEnd)
        } else {
            let bits: u64 = read_uint(buf, pos + 1, 8);
            assert(uint_at(buf@, pos + 1, 8) == uint_at(s, 1, 8));
            Ok((Head::Float(bits), 9))
        }
    } else if m == 0xC2 {
        Ok((Head::Boolean(false), 1))
    } else if m == 0xC3 {
        Ok((Head::Boolean(true), 1))
    } else if m >= 0xF0 {
        Ok((Head::Integer(m as i64 - 0x100), 1))
    } else {
        let (kind, width): (Option<Container>, usize) = if m == 0xC8 {
            (None, 1)
        } else if m == 0xC9 {
            (None, 2)
        } else if m == 0xCA {
            (None, 4)
        } else if m == 0xCB {
            (None, 8)
        } else if m == 0xCC {
            (Some(Container::Bytes), 1)
        } else if m == 0xCD {
            (Some(Container::Bytes), 2)
        } else if m == 0xCE {
            (Some(Container::Bytes), 4)
        } else if m == 0xD0 {
            (Some(Container::String), 1)
        } else if m == 0xD1 {
            (Some(Container::String), 2)
        } else if m == 0xD2 {
            (Some(Container::String), 4)
        } else if m == 0xD4 {
            (Some(Container::List), 1)
        } else if m == 0xD5 {
            (Some(Container::List), 2)
        } else if m == 0xD6 {
            (Some(Container::List), 4)
        } else if m == 0xD8 {
            (Some(Container::Dictionary), 1)
        } else if m == 0xD9 {
            (Some(Container::Dictionary), 2)
        } else if m == 0xDA {
            (Some(Container::Dictionary), 4)
        } else {
            return Err(Violation::UnexpectedMarker);
        };
        assert(wide_marker(m) == Some((kind, width as int)));
        if left < 1 + width {
            return Err(Violation::UnexpectedEnd);
        }
        let u: u64 = read_uint(buf, pos + 1, width);
        assert(uint_at(buf@, pos + 1, width as int) == uint_at(s, 1, width as int));
        match kind {
            None => Ok((Head::Integer(signed(u, width)), 1 + width)),
            Some(k) => Ok((Head::Sized(k, u as u32), 1 + width)),
        }
    }
}

} // verus!
