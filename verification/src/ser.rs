//! Building blocks of the canonical JSON serialization that block and
//! transaction identities are hashed over: decimal numbers, literal chunks,
//! and comma-separated lists, all written as UTF-8 bytes.

use vstd::prelude::*;
use vstd::string::StringSliceAdditionalSpecFns;

verus! {

/// The ASCII decimal digits of a non-negative integer.
pub open spec fn ser_u64(v: int) -> Seq<u8>
    recommends
        v >= 0,
    decreases v,
{
    if v < 10 {
        seq![(0x30 + v) as u8]
    } else {
        ser_u64(v / 10).push((0x30 + v % 10) as u8)
    }
}

/// The items of a comma-separated list, each written by `f`.
pub open spec fn ser_items<T>(s: Seq<T>, f: spec_fn(T) -> Seq<u8>) -> Seq<u8>
    decreases s.len(),
{
    if s.len() == 0 {
        Seq::empty()
    } else if s.len() == 1 {
        f(s[0])
    } else {
        ser_items(s.drop_last(), f) + ",".spec_bytes() + f(s.last())
    }
}

/// A bracketed, comma-separated list, each item written by `f`.
pub open spec fn ser_list<T>(s: Seq<T>, f: spec_fn(T) -> Seq<u8>) -> Seq<u8> {
    "[".spec_bytes() + ser_items(s, f) + "]".spec_bytes()
}

/// The JSON form of a byte value.
pub open spec fn ser_byte(v: u8) -> Seq<u8> {
    ser_u64(v as int)
}

/// A JSON array of byte values.
pub open spec fn ser_byte_list(b: Seq<u8>) -> Seq<u8> {
    ser_list(b, |v: u8| ser_byte(v))
}

/// Extending a list by one item extends its serialized items by a comma and
/// the item, or by the item alone when the list was empty.
pub proof fn lemma_ser_items_push<T>(s: Seq<T>, f: spec_fn(T) -> Seq<u8>, x: T)
    ensures
        s.len() == 0 ==> ser_items(s.push(x), f) == f(x),
        s.len() > 0 ==> ser_items(s.push(x), f) == ser_items(s, f) + ",".spec_bytes() + f(x),
{
    let p = s.push(x);
    assert(p.last() == x);
    if s.len() == 0 {
        assert(p.len() == 1);
        assert(p[0] == x);
    } else {
        assert(p.drop_last() =~= s);
    }
}

/// Append the decimal digits of `v`.
pub fn push_u64(buf: &mut Vec<u8>, v: u64)
    ensures
        final(buf)@ == old(buf)@ + ser_u64(v as int),
    decreases v,
{
    if v < 10 {
        buf.push(0x30 + (v as u8));
        proof {
            assert(buf@ =~= old(buf)@ + ser_u64(v as int));
        }
    } else {
        proof {
            assert(v as int / 10 < v as int && v as int / 10 >= 0) by (nonlinear_arith)
                requires
                    v >= 10,
            ;
        }
        push_u64(buf, v / 10);
        buf.push(0x30 + ((v % 10) as u8));
        proof {
            assert(v as int / 10 == (v / 10) as int);
            assert(buf@ =~= old(buf)@ + ser_u64(v as int));
        }
    }
}

/// Append a JSON array holding the byte values of `b`.
#[verifier::loop_isolation(false)]
pub fn push_byte_list(buf: &mut Vec<u8>, b: &[u8])
    ensures
        final(buf)@ == old(buf)@ + ser_byte_list(b@),
{
    buf.extend_from_slice("[".as_bytes());
    let ghost start = buf@;
    let ghost f = |v: u8| ser_byte(v);
    let mut i: usize = 0;
    while i < b.len()
        invariant
            i <= b@.len(),
            buf@ == start + ser_items(b@.take(i as int), f),
        decreases b@.len() - i,
    {
        if i > 0 {
            buf.extend_from_slice(",".as_bytes());
        }
        push_u64(buf, b[i] as u64);
        i = i + 1;
        proof {
            let prev = b@.take(i - 1);
            assert(prev.push(b@[i - 1]) =~= b@.take(i as int));
            lemma_ser_items_push(prev, f, b@[i - 1]);
            assert(buf@ =~= start + ser_items(b@.take(i as int), f));
        }
    }
    proof {
        assert(b@.take(b@.len() as int) =~= b@);
    }
    buf.extend_from_slice("]".as_bytes());
    proof {
        assert(buf@ =~= old(buf)@ + ser_byte_list(b@));
    }
}

/// Append a literal chunk of the serialization.
pub fn push_chunk(buf: &mut Vec<u8>, chunk: &str)
    ensures
        final(buf)@ == old(buf)@ + chunk.spec_bytes(),
{
    buf.extend_from_slice(chunk.as_bytes());
}

} // verus!
