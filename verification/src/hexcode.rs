//! Lowercase hexadecimal encoding and decoding of byte strings, with a
//! round-trip proof. Keys are persisted and addressed in this form.

use vstd::prelude::*;

verus! {

/// The ASCII code of the lowercase hex digit for a value below 16.
pub open spec fn hex_digit(v: u8) -> u8
    recommends
        v < 16,
{
    if v < 10 {
        (0x30 + v) as u8
    } else {
        (0x57 + v) as u8
    }
}

/// The value of an ASCII lowercase hex digit, if it is one.
pub open spec fn hex_val(c: u8) -> Option<u8> {
    if 0x30 <= c && c <= 0x39 {
        Some((c - 0x30) as u8)
    } else if 0x61 <= c && c <= 0x66 {
        Some((c - 0x57) as u8)
    } else {
        None
    }
}

/// The lowercase hex encoding of a byte string: two digits per byte.
pub open spec fn hex_of(b: Seq<u8>) -> Seq<u8>
    decreases b.len(),
{
    if b.len() == 0 {
        Seq::empty()
    } else {
        hex_of(b.drop_last()) + seq![hex_digit(b.last() / 16), hex_digit(b.last() % 16)]
    }
}

/// Whether a byte string is a well-formed lowercase hex encoding.
pub open spec fn is_hex(s: Seq<u8>) -> bool {
    &&& s.len() % 2 == 0
    &&& forall|i: int| 0 <= i < s.len() ==> #[trigger] hex_val(s[i]) is Some
}

/// The bytes encoded by a well-formed lowercase hex string.
pub open spec fn unhex(s: Seq<u8>) -> Seq<u8>
    recommends
        is_hex(s),
    decreases s.len(),
{
    if s.len() < 2 {
        Seq::empty()
    } else {
        unhex(s.take(s.len() - 2))
            + seq![
            (hex_val(s[s.len() - 2]).unwrap() * 16 + hex_val(s[s.len() - 1]).unwrap()) as u8,
        ]
    }
}

pub proof fn lemma_hex_of_len(b: Seq<u8>)
    ensures
        hex_of(b).len() == 2 * b.len(),
    decreases b.len(),
{
    if b.len() > 0 {
        lemma_hex_of_len(b.drop_last());
    }
}

proof fn lemma_hex_digit_val(v: u8)
    requires
        v < 16,
    ensures
        hex_val(hex_digit(v)) == Some(v),
{
}

/// Decoding inverts encoding.
pub proof fn lemma_unhex_hex_of(b: Seq<u8>)
    ensures
        is_hex(hex_of(b)),
        unhex(hex_of(b)) == b,
    decreases b.len(),
{
    if b.len() == 0 {
        assert(unhex(hex_of(b)) =~= b);
    } else {
        lemma_unhex_hex_of(b.drop_last());
        lemma_hex_of_len(b.drop_last());
        let s = hex_of(b);
        let lo = b.last() % 16;
        let hi = b.last() / 16;
        lemma_hex_digit_val(hi);
        lemma_hex_digit_val(lo);
        assert(s.len() == hex_of(b.drop_last()).len() + 2);
        assert(s.take(s.len() - 2) =~= hex_of(b.drop_last()));
        assert(is_hex(s)) by {
            assert forall|i: int| 0 <= i < s.len() implies #[trigger] hex_val(s[i]) is Some by {
                if i < s.len() - 2 {
                    assert(s[i] == hex_of(b.drop_last())[i]);
                }
            }
        }
        assert(hi * 16 + lo == b.last()) by {
            assert(b.last() / 16 * 16 + b.last() % 16 == b.last());
        }
        assert(unhex(s) =~= b.drop_last() + seq![b.last()]);
        assert(b.drop_last() + seq![b.last()] =~= b);
    }
}

/// Encode bytes as lowercase hex.
pub fn hex_encode(b: &[u8]) -> (r: Vec<u8>)
    ensures
        r@ == hex_of(b@),
{
    let mut out: Vec<u8> = Vec::new();
    let mut i: usize = 0;
    while i < b.len()
        invariant
            i <= b@.len(),
            out@ == hex_of(b@.take(i as int)),
        decreases b@.len() - i,
    {
        let byte = b[i];
        let hi = byte / 16;
        let lo = byte % 16;
        out.push(if hi < 10 { 0x30 + hi } else { 0x57 + hi });
        out.push(if lo < 10 { 0x30 + lo } else { 0x57 + lo });
        i = i + 1;
        proof {
            let t = b@.take(i as int);
            assert(t.drop_last() =~= b@.take(i - 1));
            assert(t.last() == byte);
            assert(out@ =~= hex_of(b@.take(i - 1)) + seq![
                hex_digit(byte / 16),
                hex_digit(byte % 16),
            ]);
        }
    }
    proof {
        assert(b@.take(b@.len() as int) =~= b@);
    }
    out
}

/// Decode a lowercase hex string; `None` exactly when it is not one.
pub fn hex_decode(s: &[u8]) -> (r: Option<Vec<u8>>)
    ensures
        r is Some <==> is_hex(s@),
        r matches Some(b) ==> b@ == unhex(s@),
{
    if s.len() % 2 != 0 {
        return None;
    }
    let mut out: Vec<u8> = Vec::new();
    let mut i: usize = 0;
    while i < s.len()
        invariant
            i <= s@.len(),
            i % 2 == 0,
            s@.len() % 2 == 0,
            forall|j: int| 0 <= j < i ==> #[trigger] hex_val(s@[j]) is Some,
            is_hex(s@.take(i as int)),
            out@ == unhex(s@.take(i as int)),
        decreases s@.len() - i,
    {
        let hi = match hex_val_exec(s[i]) {
            Some(v) => v,
            None => {
                return None;
            },
        };
        let lo = match hex_val_exec(s[i + 1]) {
            Some(v) => v,
            None => {
                return None;
            },
        };
        out.push(hi * 16 + lo);
        i = i + 2;
        proof {
            let t = s@.take(i as int);
            assert(t.take(t.len() - 2) =~= s@.take(i - 2));
            assert(out@ =~= unhex(s@.take(i - 2)) + seq![
                (hex_val(s@[i - 2]).unwrap() * 16 + hex_val(s@[i - 1]).unwrap()) as u8,
            ]);
        }
    }
    proof {
        assert(s@.take(s@.len() as int) =~= s@);
    }
    Some(out)
}

/// The value of an ASCII lowercase hex digit.
pub fn hex_val_exec(c: u8) -> (r: Option<u8>)
    ensures
        r == hex_val(c),
{
    if 0x30 <= c && c <= 0x39 {
        Some(c - 0x30)
    } else if 0x61 <= c && c <= 0x66 {
        Some(c - 0x57)
    } else {
        None
    }
}

} // verus!
