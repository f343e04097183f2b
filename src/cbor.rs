//! CBOR item heads (RFC 8949, section 3): a major type and an argument,
//! written in the shortest form on encode and read in any form on decode.
use vstd::prelude::*;
use vstd::utf8::*;

use ciborium_ll::{Decoder, Encoder, Header};

verus! {

/// A CBOR head with a definite argument.
#[derive(Clone, Copy, Debug, PartialEq, Eq, Structural)]
pub enum Head {
    Positive(u64),
    Negative(u64),
    Bytes(u64),
    Text(u64),
    Array(u64),
    Pairs(u64),
    Tag(u64),
}

/// The major type of a head.
pub open spec fn major_of(h: Head) -> nat {
    match h {
        Head::Positive(_) => 0,
        Head::Negative(_) => 1,
        Head::Bytes(_) => 2,
        Head::Text(_) => 3,
        Head::Array(_) => 4,
        Head::Pairs(_) => 5,
        Head::Tag(_) => 6,
    }
}

/// The argument of a head.
pub open spec fn arg_of(h: Head) -> nat {
    match h {
        Head::Positive(v) => v as nat,
        Head::Negative(v) => v as nat,
        Head::Bytes(v) => v as nat,
        Head::Text(v) => v as nat,
        Head::Array(v) => v as nat,
        Head::Pairs(v) => v as nat,
        Head::Tag(v) => v as nat,
    }
}

/// The head of major type `major` (below 7) with argument `v`.
pub open spec fn head_with(major: nat, v: u64) -> Option<Head> {
    if major == 0 {
        Some(Head::Positive(v))
    } else if major == 1 {
        Some(Head::Negative(v))
    } else if major == 2 {
        Some(Head::Bytes(v))
    } else if major == 3 {
        Some(Head::Text(v))
    } else if major == 4 {
        Some(Head::Array(v))
    } else if major == 5 {
        Some(Head::Pairs(v))
    } else if major == 6 {
        Some(Head::Tag(v))
    } else {
        None
    }
}

/// The `w` low-order bytes of `x`, most significant first.
pub open spec fn be_bytes(x: nat, w: nat) -> Seq<u8>
    decreases w,
{
    if w == 0 {
        seq![]
    } else {
        be_bytes(x / 256, (w - 1) as nat).push((x % 256) as u8)
    }
}

/// The number that bytes spell, most significant first.
pub open spec fn be_value(s: Seq<u8>) -> nat
    decreases s.len(),
{
    if s.len() == 0 {
        0
    } else {
        be_value(s.drop_last()) * 256 + s.last() as nat
    }
}

/// The shortest encoding of a head: the argument in the low five bits of
/// the first byte when below 24, else in the 1, 2, 4 or 8 bytes that follow.
#[verifier::opaque]
pub open spec fn head_bytes(h: Head) -> Seq<u8> {
    let m = major_of(h) * 32;
    let v = arg_of(h);
    if v < 24 {
        seq![(m + v) as u8]
    } else if v < 0x100 {
        seq![(m + 24) as u8] + be_bytes(v, 1)
    } else if v < 0x1_0000 {
        seq![(m + 25) as u8] + be_bytes(v, 2)
    } else if v < 0x1_0000_0000 {
        seq![(m + 26) as u8] + be_bytes(v, 4)
    } else {
        seq![(m + 27) as u8] + be_bytes(v, 8)
    }
}

/// The number of argument bytes that follow a first byte with low bits `minor`
/// (24 to 27).
pub open spec fn arg_width(minor: nat) -> nat {
    if minor == 24 {
        1
    } else if minor == 25 {
        2
    } else if minor == 26 {
        4
    } else {
        8
    }
}

/// The head at the start of `b` and its length in bytes, or `None` where `b`
/// does not start with a complete head of definite argument and major type
/// 0 to 6 (a float, a simple value, a break, an indefinite length, a
/// reserved form, or too few bytes).
pub open spec fn parse_head(b: Seq<u8>) -> Option<(Head, nat)> {
    if b.len() == 0 {
        None
    } else {
        let major = (b[0] / 32) as nat;
        let minor = (b[0] % 32) as nat;
        if minor < 24 {
            match head_with(major, minor as u64) {
                Some(h) => Some((h, 1)),
                None => None,
            }
        } else if minor < 28 {
            let w = arg_width(minor);
            if b.len() < 1 + w {
                None
            } else {
                match head_with(major, be_value(b.subrange(1, 1 + w as int)) as u64) {
                    Some(h) => Some((h, 1 + w)),
                    None => None,
                }
            }
        } else {
            None
        }
    }
}

pub open spec fn pow256(w: nat) -> nat
    decreases w,
{
    if w == 0 {
        1
    } else {
        256 * pow256((w - 1) as nat)
    }
}

proof fn lemma_be_bytes_len(x: nat, w: nat)
    ensures
        be_bytes(x, w).len() == w,
    decreases w,
{
    if w > 0 {
        lemma_be_bytes_len(x / 256, (w - 1) as nat);
    }
}

/// Spelling a number below `256^w` in `w` bytes and reading it back gives
/// the number.
pub proof fn lemma_be_round_trip(x: nat, w: nat)
    requires
        x < pow256(w),
    ensures
        be_value(be_bytes(x, w)) == x,
        be_bytes(x, w).len() == w,
    decreases w,
{
    lemma_be_bytes_len(x, w);
    if w > 0 {
        assert(x / 256 < pow256((w - 1) as nat)) by (nonlinear_arith)
            requires
                x < 256 * pow256((w - 1) as nat),
        ;
        lemma_be_round_trip(x / 256, (w - 1) as nat);
        let s = be_bytes(x, w);
        assert(s.drop_last() =~= be_bytes(x / 256, (w - 1) as nat));
        assert(x == (x / 256) * 256 + x % 256) by (nonlinear_arith);
    }
}

/// What bytes spell is below `256^len`.
pub proof fn lemma_be_value_bound(s: Seq<u8>)
    ensures
        be_value(s) < pow256(s.len()),
    decreases s.len(),
{
    if s.len() > 0 {
        lemma_be_value_bound(s.drop_last());
        let p = pow256((s.len() - 1) as nat);
        let v = be_value(s.drop_last());
        assert(v * 256 + (s.last() as nat) < 256 * p) by (nonlinear_arith)
            requires
                v < p,
                s.last() < 256,
        ;
    }
}

proof fn lemma_pow256_values()
    ensures
        pow256(1) == 0x100,
        pow256(2) == 0x1_0000,
        pow256(4) == 0x1_0000_0000,
        pow256(8) == 0x1_0000_0000_0000_0000,
{
    reveal_with_fuel(pow256, 9);
}

/// A head whose argument, where it is a length, fits a `usize`.
pub open spec fn length_fits(h: Head) -> bool {
    (2 <= major_of(h) <= 5) ==> arg_of(h) <= usize::MAX
}

/// Reading back the shortest encoding of a head, with anything after it,
/// gives the head and its length.
pub proof fn lemma_parse_head_bytes(h: Head, rest: Seq<u8>)
    ensures
        parse_head(head_bytes(h) + rest) == Some((h, head_bytes(h).len())),
{
    reveal(head_bytes);
    let m = major_of(h) * 32;
    let v = arg_of(h);
    let b = head_bytes(h) + rest;
    lemma_pow256_values();
    let w: nat = if v < 24 {
        0
    } else if v < 0x100 {
        1
    } else if v < 0x1_0000 {
        2
    } else if v < 0x1_0000_0000 {
        4
    } else {
        8
    };
    if w > 0 {
        lemma_be_round_trip(v, w);
        assert(b.subrange(1, 1 + w as int) =~= be_bytes(v, w));
    }
    assert(b[0] / 32 == major_of(h));
    assert(head_with(major_of(h), v as u64) == Some(h));
}

/// Relies on ciborium_ll's `Encoder::push`: it appends the head in its
/// shortest form; writing to a `Vec` does not fail.
#[verifier::external_body]
pub(crate) fn push_head(buf: &mut Vec<u8>, h: Head)
    requires
        length_fits(h),
    ensures
        final(buf)@ == old(buf)@ + head_bytes(h),
{
    let header = match h {
        Head::Positive(v) => Header::Positive(v),
        Head::Negative(v) => Header::Negative(v),
        Head::Bytes(n) => Header::Bytes(Some(n as usize)),
        Head::Text(n) => Header::Text(Some(n as usize)),
        Head::Array(n) => Header::Array(Some(n as usize)),
        Head::Pairs(n) => Header::Map(Some(n as usize)),
        Head::Tag(v) => Header::Tag(v),
    };
    let _ = Encoder::from(buf).push(header);
}

/// Relies on ciborium_ll's `Encoder::text` with no segment size: one text
/// head for the string's UTF-8 length, then those bytes.
#[verifier::external_body]
pub(crate) fn push_text(buf: &mut Vec<u8>, s: &str)
    ensures
        final(buf)@ == old(buf)@ + head_bytes(Head::Text(encode_utf8(s@).len() as u64))
            + encode_utf8(s@),
{
    let _ = Encoder::from(buf).text(s, None);
}

/// Relies on ciborium_ll's `Decoder::pull` over the bytes from `pos` on: the
/// head found there and the number of bytes it took (`Decoder::offset`), or
/// `None` where it reports an error or a head that `Head` does not hold.
#[verifier::external_body]
pub(crate) fn pull_head(b: &[u8], pos: usize) -> (r: Option<(Head, usize)>)
    requires
        pos <= b@.len(),
    ensures
        match parse_head(b@.subrange(pos as int, b@.len() as int)) {
            Some((h, n)) => r == Some((h, n as usize)),
            None => r is None,
        },
{
    let mut dec = Decoder::from(&b[pos..]);
    let head = match dec.pull() {
        Ok(Header::Positive(v)) => Head::Positive(v),
        Ok(Header::Negative(v)) => Head::Negative(v),
        Ok(Header::Bytes(Some(n))) => Head::Bytes(n as u64),
        Ok(Header::Text(Some(n))) => Head::Text(n as u64),
        Ok(Header::Array(Some(n))) => Head::Array(n as u64),
        Ok(Header::Map(Some(n))) => Head::Pairs(n as u64),
        Ok(Header::Tag(v)) => Head::Tag(v),
        Ok(_) | Err(_) => return None,
    };
    Some((head, dec.offset()))
}

/// Relies on `std::str::from_utf8`: it accepts exactly well-formed UTF-8,
/// and the string it gives holds those bytes.
#[verifier::external_body]
pub(crate) fn utf8_string(b: &[u8]) -> (r: Option<String>)
    ensures
        r is Some <==> valid_utf8(b@),
        r matches Some(s) ==> s@ == decode_utf8(b@),
{
    std::str::from_utf8(b).ok().map(|s| s.to_owned())
}

} // verus!
