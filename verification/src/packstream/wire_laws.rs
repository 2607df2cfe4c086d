//! Headers read back as they were written, and a header that is as short as
//! can be is the one that the writer would have chosen.

use crate::errors::Container;
use crate::packstream::wire::{
    be, encode_float, encode_int, encode_size, encode_struct_head, int_width, limit, parse_head,
    quad, quad_at, size_width, to_signed, to_unsigned, uint_at, Head,
};
use vstd::prelude::*;

verus! {

/// The bytes of a header, each as short as can be.
pub open spec fn encode_head(head: Head) -> Seq<u8> {
    match head {
        Head::Null => seq![0xC0u8],
        Head::Boolean(b) => if b {
            seq![0xC3u8]
        } else {
            seq![0xC2u8]
        },
        Head::Integer(i) => encode_int(i),
        Head::Float(bits) => encode_float(bits),
        Head::Sized(kind, n) => encode_size(kind, n as nat),
        Head::Structure(n, tag) => encode_struct_head(n as nat, tag),
    }
}

/// Four bytes spell the number that they are the bytes of.
pub proof fn lemma_quad(n: nat, s: Seq<u8>, at: int)
    requires
        n < 0x1_0000_0000,
        0 <= at,
        at + 4 <= s.len(),
        s.subrange(at, at + 4) == quad(n),
    ensures
        quad_at(s, at) == n,
{
    let q = quad(n);
    assert(s[at] == s.subrange(at, at + 4)[0]);
    assert(s[at + 1] == s.subrange(at, at + 4)[1]);
    assert(s[at + 2] == s.subrange(at, at + 4)[2]);
    assert(s[at + 3] == s.subrange(at, at + 4)[3]);
    let a = n / 0x100_0000 % 0x100;
    let b = n / 0x1_0000 % 0x100;
    let c = n / 0x100 % 0x100;
    let d = n % 0x100;
    assert(n == ((a * 0x100 + b) * 0x100 + c) * 0x100 + d);
}

/// The number that four bytes spell has those bytes.
pub proof fn lemma_quad_back(s: Seq<u8>, at: int)
    requires
        0 <= at,
        at + 4 <= s.len(),
    ensures
        quad(quad_at(s, at)) == s.subrange(at, at + 4),
        quad_at(s, at) < 0x1_0000_0000,
{
    let n = quad_at(s, at);
    let a = s[at] as nat;
    let b = s[at + 1] as nat;
    let c = s[at + 2] as nat;
    let d = s[at + 3] as nat;
    assert(n == ((a * 0x100 + b) * 0x100 + c) * 0x100 + d);
    assert(n % 0x100 == d);
    assert(n / 0x100 == (a * 0x100 + b) * 0x100 + c);
    assert(n / 0x100 % 0x100 == c);
    assert(n / 0x1_0000 == a * 0x100 + b);
    assert(n / 0x1_0000 % 0x100 == b);
    assert(n / 0x100_0000 == a);
    assert(quad(n) =~= s.subrange(at, at + 4));
}

/// Bytes spell the number that they are the bytes of.
pub proof fn lemma_uint(n: nat, width: int, s: Seq<u8>, at: int)
    requires
        width == 1 || width == 2 || width == 4 || width == 8,
        n < limit(width),
        0 <= at,
        at + width <= s.len(),
        s.subrange(at, at + width) == be(n, width),
    ensures
        uint_at(s, at, width) == n,
{
    let b = be(n, width);
    if width == 1 {
        assert(s[at] == s.subrange(at, at + width)[0]);
    } else if width == 2 {
        assert(s[at] == s.subrange(at, at + width)[0]);
        assert(s[at + 1] == s.subrange(at, at + width)[1]);
    } else if width == 4 {
        lemma_quad(n, s, at);
    } else {
        let hi = n / 0x1_0000_0000;
        let lo = n % 0x1_0000_0000;
        assert(s.subrange(at, at + 4) =~= b.subrange(0, 4));
        assert(s.subrange(at + 4, at + 8) =~= b.subrange(4, 8));
        assert(b.subrange(0, 4) =~= quad(hi));
        assert(b.subrange(4, 8) =~= quad(lo));
        lemma_quad(hi, s, at);
        lemma_quad(lo, s, at + 4);
    }
}

/// The number that bytes spell has those bytes.
pub proof fn lemma_uint_back(width: int, s: Seq<u8>, at: int)
    requires
        width == 1 || width == 2 || width == 4 || width == 8,
        0 <= at,
        at + width <= s.len(),
    ensures
        be(uint_at(s, at, width), width) == s.subrange(at, at + width),
        uint_at(s, at, width) < limit(width),
{
    let n = uint_at(s, at, width);
    if width == 1 {
        assert(be(n, width) =~= s.subrange(at, at + width));
    } else if width == 2 {
        let a = s[at] as nat;
        let b = s[at + 1] as nat;
        assert(n == a * 0x100 + b);
        assert(n % 0x100 == b);
        assert(n / 0x100 == a);
        assert(be(n, width) =~= s.subrange(at, at + width));
    } else if width == 4 {
        lemma_quad_back(s, at);
    } else {
        lemma_quad_back(s, at);
        lemma_quad_back(s, at + 4);
        let hi = quad_at(s, at);
        let lo = quad_at(s, at + 4);
        assert(n == hi * 0x1_0000_0000 + lo);
        assert(n / 0x1_0000_0000 == hi);
        assert(n % 0x1_0000_0000 == lo);
        assert(be(n, width) =~= s.subrange(at, at + width));
    }
}

/// An integer reads back as it was written, whatever follows it.
pub proof fn lemma_head_int(i: i64, rest: Seq<u8>, strict: bool)
    ensures
        parse_head(encode_int(i) + rest, strict) == Ok::<(Head, nat), crate::errors::Violation>(
            (Head::Integer(i), encode_int(i).len()),
        ),
        1 <= encode_int(i).len() <= 9,
{
    reveal(parse_head);
    let s = encode_int(i) + rest;
    let w = int_width(i as int);
    if w != 0 {
        let u = to_unsigned(i as int, w);
        assert(s.subrange(1, 1 + w) =~= be(u, w));
        lemma_uint(u, w, s, 1);
        assert(to_signed(u, w) == i);
    }
}

/// A double reads back as it was written, whatever follows it.
pub proof fn lemma_head_float(bits: u64, rest: Seq<u8>, strict: bool)
    ensures
        parse_head(encode_float(bits) + rest, strict) == Ok::<(Head, nat), crate::errors::Violation>(
            (Head::Float(bits), 9),
        ),
        encode_float(bits).len() == 9,
{
    reveal(parse_head);
    let s = encode_float(bits) + rest;
    assert(s.subrange(1, 9) =~= be(bits as nat, 8));
    lemma_uint(bits as nat, 8, s, 1);
}

/// The header of a container reads back as it was written, whatever follows it.
pub proof fn lemma_head_size(kind: Container, n: nat, rest: Seq<u8>, strict: bool)
    requires
        n <= u32::MAX,
    ensures
        parse_head(encode_size(kind, n) + rest, strict) == Ok::<(Head, nat), crate::errors::Violation>(
            (Head::Sized(kind, n as u32), encode_size(kind, n).len()),
        ),
        1 <= encode_size(kind, n).len() <= 5,
{
    reveal(parse_head);
    let s = encode_size(kind, n) + rest;
    let w = size_width(kind, n);
    if w != 0 {
        assert(s.subrange(1, 1 + w) =~= be(n, w));
        lemma_uint(n, w, s, 1);
    }
}

/// The header of a structure reads back as it was written, whatever follows it.
pub proof fn lemma_head_struct(n: nat, tag: u8, rest: Seq<u8>, strict: bool)
    requires
        n < 16,
    ensures
        parse_head(encode_struct_head(n, tag) + rest, strict) == Ok::<
            (Head, nat),
            crate::errors::Violation,
        >((Head::Structure(n as u8, tag), 2)),
        encode_struct_head(n, tag).len() == 2,
{
    reveal(parse_head);
}

/// A header that the strict reading accepts is the shortest for what it
/// announces, and the lenient reading accepts it as the same.
pub proof fn lemma_head_canonical(s: Seq<u8>)
    requires
        parse_head(s, true) is Ok,
    ensures
        parse_head(s, false) == parse_head(s, true),
        encode_head(parse_head(s, true)->Ok_0.0) == s.take(parse_head(s, true)->Ok_0.1 as int),
{
    reveal(parse_head);
    let (head, h) = parse_head(s, true)->Ok_0;
    let m = s[0];
    if m == 0xC1 {
        lemma_uint_back(8, s, 1);
        assert(encode_head(head) =~= s.take(h as int));
    } else if 0xC8 <= m < 0xF0 {
        let w = (h - 1) as int;
        lemma_uint_back(w, s, 1);
        let u = uint_at(s, 1, w);
        match head {
            Head::Integer(i) => {
                assert(to_unsigned(i as int, w) == u);
                assert(encode_head(head) =~= s.take(h as int));
            },
            Head::Sized(kind, n) => {
                assert(encode_head(head) =~= s.take(h as int));
            },
            _ => {},
        }
    } else {
        assert(encode_head(head) =~= s.take(h as int));
    }
}

/// No integer is written wider than it needs: one that fits the marker is
/// written in the marker, and a marker for a wider form is used only for an
/// integer that does not fit the narrower one.
pub proof fn lemma_int_minimal(i: i64)
    ensures
        -16 <= i <= 127 <==> encode_int(i).len() == 1,
        encode_int(i)[0] == 0xC8 ==> -0x80 <= i < -16,
        encode_int(i)[0] == 0xC9 ==> (-0x8000 <= i < -0x80 || 0x80 <= i < 0x8000),
        encode_int(i)[0] == 0xCA ==> (-0x8000_0000 <= i < -0x8000 || 0x8000 <= i < 0x8000_0000),
        encode_int(i)[0] == 0xCB ==> (i < -0x8000_0000 || 0x8000_0000 <= i),
{
}

/// No length is written wider than it needs: one below 16 is written in the
/// marker (but for byte strings, which have no such marker), and a marker
/// for a wider length is used only for a length that does not fit the
/// narrower one.
pub proof fn lemma_size_minimal(kind: Container, n: nat)
    requires
        n <= u32::MAX,
    ensures
        (n < 16 && kind != Container::Bytes) <==> encode_size(kind, n).len() == 1,
        encode_size(kind, n).len() == 2 ==> n < 0x100 && (n >= 16 || kind == Container::Bytes),
        encode_size(kind, n).len() == 3 ==> 0x100 <= n < 0x1_0000,
        encode_size(kind, n).len() == 5 ==> 0x1_0000 <= n,
        encode_size(kind, n).len() == 1 + size_width(kind, n),
{
}

} // verus!
