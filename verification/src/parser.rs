//! The parser for one line of the fuzzer's textual log.
//!
//! A line has the exact shape `EXC <hh> OK | <hh> <hh> ...`: the
//! exception as two hex digits, then at least one instruction byte of
//! two hex digits each, separated by single spaces, with nothing after
//! the last byte.  A line that does not match this shape, or whose
//! values violate the instruction construction invariants, is rejected
//! as a whole.

use vstd::prelude::*;
use vstd::string::StrSliceExecFns;

use crate::instruction::{Instruction, InvalidInstruction};

verus! {

/// Whether `c` is a hexadecimal digit, in either case.
pub open spec fn is_hex_char(c: char) -> bool {
    ||| '0' as int <= c as int <= '9' as int
    ||| 'a' as int <= c as int <= 'f' as int
    ||| 'A' as int <= c as int <= 'F' as int
}

/// The value of a hexadecimal digit.
pub open spec fn hex_char_val(c: char) -> u8 {
    if '0' as int <= c as int <= '9' as int {
        (c as int - '0' as int) as u8
    } else if 'a' as int <= c as int <= 'f' as int {
        (c as int - 'a' as int + 10) as u8
    } else if 'A' as int <= c as int <= 'F' as int {
        (c as int - 'A' as int + 10) as u8
    } else {
        0
    }
}

/// The byte-list part of a line: two hex digits per byte, consecutive
/// bytes separated by exactly one space, at least one byte, nothing
/// else.
pub open spec fn valid_hex_bytes(s: Seq<char>) -> bool
    decreases s.len(),
{
    &&& s.len() >= 2
    &&& is_hex_char(s[0])
    &&& is_hex_char(s[1])
    &&& (s.len() == 2 || (s[2] == ' ' && valid_hex_bytes(s.skip(3))))
}

/// The byte values of a byte-list part.
pub open spec fn hex_bytes_val(s: Seq<char>) -> Seq<u8>
    decreases s.len(),
{
    if s.len() < 2 {
        seq![]
    } else {
        seq![((hex_char_val(s[0]) as int) * 16 + hex_char_val(s[1]) as int) as u8] + (if s.len()
            == 2 {
            seq![]
        } else {
            hex_bytes_val(s.skip(3))
        })
    }
}

/// One whole log line: the tag `EXC `, two hex digits, the tag ` OK | `,
/// and the byte list.
pub open spec fn valid_line(s: Seq<char>) -> bool {
    &&& s.len() >= 14
    &&& s[0] == 'E' && s[1] == 'X' && s[2] == 'C' && s[3] == ' '
    &&& is_hex_char(s[4]) && is_hex_char(s[5])
    &&& s[6] == ' ' && s[7] == 'O' && s[8] == 'K' && s[9] == ' ' && s[10] == '|' && s[11] == ' '
    &&& valid_hex_bytes(s.skip(12))
}

/// The exception value written on a line.
pub open spec fn line_exception(s: Seq<char>) -> u8 {
    ((hex_char_val(s[4]) as int) * 16 + hex_char_val(s[5]) as int) as u8
}

/// The byte values written on a line.
pub open spec fn line_bytes(s: Seq<char>) -> Seq<u8> {
    hex_bytes_val(s.skip(12))
}

/// A line parses into an instruction: it matches the grammar and the
/// values it carries satisfy the construction invariants.
pub open spec fn parse_ok(s: Seq<char>) -> bool {
    valid_line(s) && line_exception(s) < 16 && line_bytes(s).len() < 16
}

/// Whether `c` is a hexadecimal digit.
pub fn is_hex_digit(c: char) -> (r: bool)
    ensures
        r == is_hex_char(c),
{
    let v = c as u32;
    (48 <= v && v <= 57) || (97 <= v && v <= 102) || (65 <= v && v <= 70)
}

/// The value of one hexadecimal digit.
pub fn from_hex(c: char) -> (r: u8)
    requires
        is_hex_char(c),
    ensures
        r == hex_char_val(c),
        r < 16,
{
    let v = c as u32;
    if 48 <= v && v <= 57 {
        (v - 48) as u8
    } else if 97 <= v && v <= 102 {
        (v - 97 + 10) as u8
    } else {
        (v - 65 + 10) as u8
    }
}

impl Instruction {
    /// Parse one log line into an instruction.
    ///
    /// Succeeds exactly when the line matches the log grammar and the
    /// exception and byte count satisfy the construction invariants;
    /// there is no partial success, and a rejected line reports the same
    /// invalid-instruction condition as a rejected construction.
    pub fn from_str(s: &str) -> (r: Result<Instruction, InvalidInstruction>)
        ensures
            r is Ok <==> parse_ok(s@),
            r is Ok ==> {
                let i = r->Ok_0;
                &&& i.wf()
                &&& i@.exc == line_exception(s@)
                &&& i@.len == line_bytes(s@).len()
                &&& i.sig() == line_bytes(s@)
            },
    {
        let n = s.unicode_len();
        if n < 14 {
            return Err(InvalidInstruction {});
        }
        if s.get_char(0) != 'E' || s.get_char(1) != 'X' || s.get_char(2) != 'C' || s.get_char(3)
            != ' ' {
            return Err(InvalidInstruction {});
        }
        let c4 = s.get_char(4);
        let c5 = s.get_char(5);
        if !is_hex_digit(c4) || !is_hex_digit(c5) {
            return Err(InvalidInstruction {});
        }
        if s.get_char(6) != ' ' || s.get_char(7) != 'O' || s.get_char(8) != 'K' || s.get_char(9)
            != ' ' || s.get_char(10) != '|' || s.get_char(11) != ' ' {
            return Err(InvalidInstruction {});
        }
        let exc = from_hex(c4) * 16 + from_hex(c5);
        let mut out: Vec<u8> = Vec::new();
        let mut i: usize = 12;
        loop
            invariant_except_break
                12 <= i <= n,
                n == s@.len(),
                valid_hex_bytes(s@.skip(12)) <==> valid_hex_bytes(s@.skip(i as int)),
                valid_hex_bytes(s@.skip(i as int)) ==> hex_bytes_val(s@.skip(12)) == out@
                    + hex_bytes_val(s@.skip(i as int)),
            ensures
                valid_hex_bytes(s@.skip(12)),
                out@ == hex_bytes_val(s@.skip(12)),
            decreases n - i,
        {
            let ghost tail = s@.skip(i as int);
            proof {
                assert(tail.len() == n - i);
            }
            if n - i < 2 {
                return Err(InvalidInstruction {});
            }
            let c0 = s.get_char(i);
            let c1 = s.get_char(i + 1);
            proof {
                assert(tail[0] == s@[i as int] && tail[1] == s@[i as int + 1]);
            }
            if !is_hex_digit(c0) || !is_hex_digit(c1) {
                return Err(InvalidInstruction {});
            }
            let b = from_hex(c0) * 16 + from_hex(c1);
            out.push(b);
            if n - i == 2 {
                proof {
                    assert(valid_hex_bytes(tail));
                    assert(hex_bytes_val(tail) =~= seq![b]);
                    assert(out@ =~= hex_bytes_val(s@.skip(12)));
                }
                break ;
            }
            let c2 = s.get_char(i + 2);
            proof {
                assert(tail[2] == s@[i as int + 2]);
            }
            if c2 != ' ' {
                return Err(InvalidInstruction {});
            }
            proof {
                assert(tail.skip(3) =~= s@.skip(i as int + 3));
                assert(valid_hex_bytes(tail) <==> valid_hex_bytes(s@.skip(i as int + 3)));
                assert(hex_bytes_val(tail) == seq![b] + hex_bytes_val(s@.skip(i as int + 3)));
                assert(valid_hex_bytes(s@.skip(i as int + 3)) ==> hex_bytes_val(s@.skip(12))
                    =~= out@ + hex_bytes_val(s@.skip(i as int + 3)));
            }
            i = i + 3;
        }
        proof {
            assert(valid_line(s@));
        }
        let r = Instruction::new(exc, out.as_slice());
        proof {
            assert(exc == line_exception(s@));
            assert(out@ == line_bytes(s@));
            if r is Ok {
                assert(r->Ok_0.sig() == line_bytes(s@));
            }
        }
        r
    }
}

} // verus!
