//! Identifiers of records and of the hosts that author them.
use vstd::prelude::*;

use crate::cbor::{be_bytes, be_value, lemma_be_value_bound, pow256};

verus! {

/// The 128-bit identifier of a record. Its numeric order is the order of
/// its 16 bytes read most significant first.
#[derive(Clone, Copy, Debug, PartialEq, Eq, Hash, PartialOrd, Ord, Structural)]
pub struct RecordId(pub u128);

/// The 128-bit identifier of a host, a device that authors records.
#[derive(Clone, Copy, Debug, PartialEq, Eq, Hash, PartialOrd, Ord, Structural)]
pub struct HostId(pub u128);

/// The unix time in milliseconds that a time-ordered identifier carries
/// for an instant, saturated at the largest `u64`.
pub open spec fn unix_millis(seconds: u64, nanos: u32) -> nat {
    let m = seconds as nat * 1000 + nanos as nat / 1_000_000;
    if m > u64::MAX { u64::MAX as nat } else { m }
}

/// Relies on uuid's `Uuid::new_v7` with `NoContext` (no counter): the top 48
/// bits hold the instant in unix milliseconds (modulo 2^48), then the
/// version nibble 7; the rest is random.
#[verifier::external_body]
pub(crate) fn time_ordered_id(seconds: u64, nanos: u32) -> (r: RecordId)
    ensures
        r.0 as nat / pow256(10) == unix_millis(seconds, nanos) % pow256(6),
        (r.0 as nat / 0x1000_0000_0000_0000_0000) % 16 == 7,
{
    let ts = uuid::Timestamp::from_unix(uuid::NoContext, seconds, nanos);
    RecordId(uuid::Uuid::new_v7(ts).as_u128())
}

impl RecordId {
    /// A new time-ordered identifier for a record created at `seconds` plus
    /// `nanos` since the Unix epoch (before it, the seconds count as their
    /// 64-bit two's complement, as an unsigned cast gives them). Its top 48
    /// bits are the creation time in milliseconds; the low bits are random.
    pub fn time_ordered(seconds: i64, nanos: u32) -> (r: RecordId)
        ensures
            r.0 as nat / pow256(10) == unix_millis(seconds as u64, nanos) % pow256(6),
    {
        time_ordered_id(seconds as u64, nanos)
    }
}

/// Appends the `w` low-order bytes of `x`, most significant first.
pub fn push_be(buf: &mut Vec<u8>, x: u128, w: usize)
    requires
        w <= 16,
    ensures
        final(buf)@ == old(buf)@ + be_bytes(x as nat, w as nat),
    decreases w,
{
    if w > 0 {
        push_be(buf, x / 256, w - 1);
        buf.push((x % 256) as u8);
        assert(final(buf)@ =~= old(buf)@ + be_bytes(x as nat, w as nat));
    } else {
        assert(final(buf)@ =~= old(buf)@ + be_bytes(x as nat, w as nat));
    }
}

/// The number that the 16 bytes of `b` from `p` spell, most significant
/// first.
pub fn read_be16(b: &[u8], p: usize) -> (r: u128)
    requires
        p + 16 <= b@.len(),
    ensures
        r as nat == be_value(b@.subrange(p as int, p + 16)),
{
    let n = b.len();
    let mut acc: u128 = 0;
    let mut i: usize = 0;
    while i < 16
        invariant
            i <= 16,
            n == b@.len(),
            p + 16 <= b@.len(),
            acc as nat == be_value(b@.subrange(p as int, p + i)),
        decreases 16 - i,
    {
        proof {
            lemma_be_value_bound(b@.subrange(p as int, p + i));
            assert(pow256(i as nat) <= pow256(15)) by {
                lemma_pow256_mono(i as nat, 15);
            }
            lemma_pow256_15();
        }
        let next = b[p + i];
        acc = acc * 256 + next as u128;
        assert(b@.subrange(p as int, p + i + 1).drop_last() =~= b@.subrange(p as int, p + i));
        i += 1;
    }
    acc
}

proof fn lemma_pow256_mono(a: nat, c: nat)
    requires
        a <= c,
    ensures
        pow256(a) <= pow256(c),
    decreases c,
{
    if a < c {
        lemma_pow256_mono(a, (c - 1) as nat);
    }
}

proof fn lemma_pow256_15()
    ensures
        pow256(15) == 0x1_0000_0000_0000_0000_0000_0000_0000_00,
{
    reveal_with_fuel(pow256, 16);
}

} // verus!
