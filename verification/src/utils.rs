//! Formatting helpers for the report that the surrounding tooling
//! prints for mismatching instructions.

use vstd::prelude::*;
use vstd::string::StrSliceExecFns;
use vstd::string::StringExecFns;

verus! {

/// The lowercase hexadecimal digit for a value below 16.
pub open spec fn hex_digit_char(v: int) -> char {
    if v == 0 {
        '0'
    } else if v == 1 {
        '1'
    } else if v == 2 {
        '2'
    } else if v == 3 {
        '3'
    } else if v == 4 {
        '4'
    } else if v == 5 {
        '5'
    } else if v == 6 {
        '6'
    } else if v == 7 {
        '7'
    } else if v == 8 {
        '8'
    } else if v == 9 {
        '9'
    } else if v == 10 {
        'a'
    } else if v == 11 {
        'b'
    } else if v == 12 {
        'c'
    } else if v == 13 {
        'd'
    } else if v == 14 {
        'e'
    } else {
        'f'
    }
}

/// A byte sequence rendered as lowercase hexadecimal, two digits per
/// byte, consecutive bytes separated by one space.
pub open spec fn hex_str(b: Seq<u8>) -> Seq<char>
    decreases b.len(),
{
    if b.len() == 0 {
        seq![]
    } else {
        seq![hex_digit_char(b[0] as int / 16), hex_digit_char(b[0] as int % 16)] + (if b.len()
            == 1 {
            seq![]
        } else {
            seq![' '] + hex_str(b.skip(1))
        })
    }
}

/// Appending one byte to a non-empty sequence appends a separator and
/// its two digits to the rendering.
proof fn lemma_hex_str_push(u: Seq<u8>, x: u8)
    ensures
        u.len() == 0 ==> hex_str(u.push(x)) == seq![
            hex_digit_char(x as int / 16),
            hex_digit_char(x as int % 16),
        ],
        u.len() > 0 ==> hex_str(u.push(x)) == hex_str(u) + seq![' '] + seq![
            hex_digit_char(x as int / 16),
            hex_digit_char(x as int % 16),
        ],
    decreases u.len(),
{
    let p = u.push(x);
    if u.len() == 0 {
        assert(p.len() == 1 && p[0] == x);
        assert(hex_str(p) =~= seq![
            hex_digit_char(x as int / 16),
            hex_digit_char(x as int % 16),
        ]);
    } else {
        lemma_hex_str_push(u.skip(1), x);
        assert(p.skip(1) =~= u.skip(1).push(x));
        if u.len() == 1 {
            assert(hex_str(p) =~= hex_str(u) + seq![' '] + seq![
                hex_digit_char(x as int / 16),
                hex_digit_char(x as int % 16),
            ]);
        } else {
            assert(hex_str(p) =~= hex_str(u) + seq![' '] + seq![
                hex_digit_char(x as int / 16),
                hex_digit_char(x as int % 16),
            ]);
        }
    }
}

/// Render a byte slice as a space-separated lowercase hexadecimal
/// string, two digits per byte.
pub fn slice_as_hex_string(slice: &[u8]) -> (r: String)
    ensures
        r@ == hex_str(slice@),
{
    let digits = "0123456789abcdef";
    proof {
        reveal_strlit("0123456789abcdef");
        reveal_strlit(" ");
    }
    let n = slice.len();
    let mut out = String::new();
    let mut i: usize = 0;
    while i < n
        invariant
            i <= n,
            n == slice@.len(),
            digits@.len() == 16,
            forall|k: int| 0 <= k < 16 ==> digits@[k] == hex_digit_char(k),
            out@ == hex_str(slice@.take(i as int)),
        decreases n - i,
    {
        let ghost out0 = out@;
        let b = slice[i];
        let hi = (b / 16) as usize;
        let lo = (b % 16) as usize;
        proof {
            reveal_strlit(" ");
            assert(hi < 16 && lo < 16);
        }
        if i > 0 {
            out.append(" ");
        }
        let d1 = digits.substring_char(hi, hi + 1);
        let d2 = digits.substring_char(lo, lo + 1);
        proof {
            assert(d1@ =~= seq![hex_digit_char(b as int / 16)]);
            assert(d2@ =~= seq![hex_digit_char(b as int % 16)]);
        }
        out.append(d1);
        out.append(d2);
        proof {
            lemma_hex_str_push(slice@.take(i as int), b);
            assert(slice@.take(i as int).push(b) =~= slice@.take(i as int + 1));
            if i == 0 {
                assert(out@ =~= hex_str(slice@.take(i as int + 1)));
            } else {
                assert(out@ =~= out0 + seq![' '] + d1@ + d2@);
                assert(out@ =~= hex_str(slice@.take(i as int + 1)));
            }
        }
        i = i + 1;
    }
    proof {
        assert(slice@.take(n as int) =~= slice@);
    }
    out
}

} // verus!
