//! Lowercase hexadecimal framing for the credential codec.
//!
//! Tokens are ASCII strings; each binary segment is framed as lowercase hex
//! digits. Decoding is strict: it accepts exactly the strings that encoding
//! produces, which is what lets the codec prove that a decoded token is a
//! byte-exact product of `encode`.

use vstd::prelude::*;

verus! {

/// The lowercase hex digit (as an ASCII byte) for a value below 16.
pub open spec fn hex_digit_char(n: u8) -> u8
    recommends
        n < 16,
{
    if n < 10 {
        (48 + n) as u8
    } else {
        (87 + n) as u8
    }
}

/// The value of an ASCII byte read as a lowercase hex digit.
pub open spec fn hex_val(c: u8) -> Option<u8> {
    if 48 <= c <= 57 {
        Some((c - 48) as u8)
    } else if 97 <= c <= 102 {
        Some((c - 87) as u8)
    } else {
        None
    }
}

/// The lowercase hex framing of a byte sequence: two digits per byte.
pub open spec fn hex_of(b: Seq<u8>) -> Seq<u8> {
    Seq::new(
        b.len() * 2,
        |i: int|
            if i % 2 == 0 {
                hex_digit_char(b[i / 2] / 16)
            } else {
                hex_digit_char(b[i / 2] % 16)
            },
    )
}

/// Whether a byte sequence consists of lowercase hex digits only, with even length.
pub open spec fn is_hex_seq(s: Seq<u8>) -> bool {
    s.len() % 2 == 0 && forall|i: int| 0 <= i < s.len() ==> #[trigger] hex_val(s[i]) is Some
}

/// The strict inverse of [`hex_of`]: defined exactly on its products.
pub open spec fn unhex(s: Seq<u8>) -> Option<Seq<u8>> {
    if is_hex_seq(s) {
        Some(
            Seq::new(
                s.len() / 2,
                |i: int| (hex_val(s[2 * i]).unwrap() * 16 + hex_val(s[2 * i + 1]).unwrap()) as u8,
            ),
        )
    } else {
        None
    }
}

proof fn lemma_hex_val_digit(n: u8)
    requires
        n < 16,
    ensures
        hex_val(hex_digit_char(n)) == Some(n),
{
}

proof fn lemma_hex_digit_val(c: u8)
    requires
        hex_val(c) is Some,
    ensures
        hex_val(c).unwrap() < 16,
        hex_digit_char(hex_val(c).unwrap()) == c,
{
}

/// Every hex framing decodes back to the framed bytes.
pub proof fn lemma_unhex_hex(b: Seq<u8>)
    ensures
        unhex(hex_of(b)) == Some(b),
{
    let s = hex_of(b);
    assert forall|i: int| 0 <= i < s.len() implies #[trigger] hex_val(s[i]) is Some by {
        if i % 2 == 0 {
            lemma_hex_val_digit(b[i / 2] / 16);
        } else {
            lemma_hex_val_digit(b[i / 2] % 16);
        }
    }
    let d = unhex(s).unwrap();
    assert forall|i: int| 0 <= i < d.len() implies d[i] == b[i] by {
        assert((2 * i) / 2 == i && (2 * i) % 2 == 0);
        assert((2 * i + 1) / 2 == i && (2 * i + 1) % 2 == 1);
        lemma_hex_val_digit(b[i] / 16);
        lemma_hex_val_digit(b[i] % 16);
        assert(b[i] / 16 * 16 + b[i] % 16 == b[i]);
    }
    assert(d =~= b);
}

/// Strictness: a sequence that decodes is the framing of what it decodes to.
pub proof fn lemma_hex_unhex(s: Seq<u8>, b: Seq<u8>)
    requires
        unhex(s) == Some(b),
    ensures
        hex_of(b) == s,
        b.len() == s.len() / 2,
{
    assert(is_hex_seq(s));
    let h = hex_of(b);
    assert forall|i: int| 0 <= i < h.len() implies h[i] == s[i] by {
        let j = i / 2;
        assert(b[j] == (hex_val(s[2 * j]).unwrap() * 16 + hex_val(s[2 * j + 1]).unwrap()) as u8);
        lemma_hex_digit_val(s[2 * j]);
        lemma_hex_digit_val(s[2 * j + 1]);
        let hi = hex_val(s[2 * j]).unwrap();
        let lo = hex_val(s[2 * j + 1]).unwrap();
        assert((hi * 16 + lo) / 16 == hi && (hi * 16 + lo) % 16 == lo);
        if i % 2 == 0 {
            assert(i == 2 * j);
        } else {
            assert(i == 2 * j + 1);
        }
    }
    assert(h =~= s);
}

/// Hex framings hold ASCII digit bytes only: in particular never a separator dot.
pub proof fn lemma_hex_ascii(b: Seq<u8>)
    ensures
        forall|i: int|
            0 <= i < hex_of(b).len() ==> 48 <= #[trigger] hex_of(b)[i] < 128 && hex_of(b)[i] != 46,
{
}

/// Frame a byte vector as lowercase hex digits.
pub fn hex_encode(b: &Vec<u8>) -> (r: Vec<u8>)
    ensures
        r@ == hex_of(b@),
{
    let mut r: Vec<u8> = Vec::new();
    let mut i: usize = 0;
    while i < b.len()
        invariant
            i <= b@.len(),
            r@ == hex_of(b@.take(i as int)),
        decreases b@.len() - i,
    {
        let x = b[i];
        let hi = x / 16;
        let lo = x % 16;
        r.push(if hi < 10 {
            48 + hi
        } else {
            87 + hi
        });
        r.push(if lo < 10 {
            48 + lo
        } else {
            87 + lo
        });
        i = i + 1;
        proof {
            assert(b@.take(i as int).len() == i);
            assert forall|k: int| 0 <= k < 2 * i implies #[trigger] hex_of(b@.take(i as int))[k]
                == r@[k] by {
                assert(b@.take(i as int)[k / 2] == b@[k / 2]);
                if k < 2 * (i - 1) {
                    assert(b@.take(i - 1 as int)[k / 2] == b@[k / 2]);
                    assert(r@[k] == hex_of(b@.take(i - 1 as int))[k]);
                }
            }
            assert(r@ =~= hex_of(b@.take(i as int)));
        }
    }
    proof {
        assert(b@.take(b@.len() as int) =~= b@);
    }
    r
}

/// Strictly unframe lowercase hex digits; fails on anything else.
pub fn hex_decode(s: &Vec<u8>) -> (r: Option<Vec<u8>>)
    ensures
        match r {
            Some(d) => unhex(s@) == Some(d@),
            None => unhex(s@) is None,
        },
{
    if s.len() % 2 != 0 {
        return None;
    }
    let mut d: Vec<u8> = Vec::new();
    let mut i: usize = 0;
    while i < s.len()
        invariant
            s@.len() % 2 == 0,
            i % 2 == 0,
            i <= s@.len(),
            d@.len() == i / 2,
            forall|k: int| 0 <= k < i ==> #[trigger] hex_val(s@[k]) is Some,
            forall|k: int|
                0 <= k < i / 2 ==> #[trigger] d@[k] == (hex_val(s@[2 * k]).unwrap() * 16 + hex_val(
                    s@[2 * k + 1],
                ).unwrap()) as u8,
        decreases s@.len() - i,
    {
        let c0 = s[i];
        let c1 = s[i + 1];
        let v0 = if 48 <= c0 && c0 <= 57 {
            c0 - 48
        } else if 97 <= c0 && c0 <= 102 {
            c0 - 87
        } else {
            proof {
                assert(hex_val(s@[i as int]) is None);
            }
            return None;
        };
        let v1 = if 48 <= c1 && c1 <= 57 {
            c1 - 48
        } else if 97 <= c1 && c1 <= 102 {
            c1 - 87
        } else {
            proof {
                assert(hex_val(s@[i + 1 as int]) is None);
            }
            return None;
        };
        d.push(v0 * 16 + v1);
        i = i + 2;
    }
    proof {
        assert(is_hex_seq(s@));
        assert(d@ =~= unhex(s@).unwrap());
    }
    Some(d)
}

} // verus!
