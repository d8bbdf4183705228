//! Printing numbers: the canonical rendering is `Num(0x..)` with the value
//! in lowercase hexadecimal.

use crate::expr::Num;
use crate::strutil::push_char;
use vstd::prelude::*;
use vstd::string::StringExecFns;

verus! {

/// The lowercase hexadecimal digit of a value below 16.
pub open spec fn hex_digit(d: u64) -> char {
    if d < 10 {
        (('0' as u32) + d as u32) as char
    } else {
        (('a' as u32) + (d - 10) as u32) as char
    }
}

/// The lowercase hexadecimal digits of a number, most significant first,
/// with no leading zeros (a single zero for zero).
pub open spec fn hex_digits(n: u64) -> Seq<char>
    decreases n,
{
    if n < 16 {
        seq![hex_digit(n)]
    } else {
        hex_digits(n / 16).push(hex_digit(n % 16))
    }
}

/// The canonical rendering of a number.
pub open spec fn num_display(n: u64) -> Seq<char> {
    "Num(0x"@ + hex_digits(n) + ")"@
}

/// A sequence reversed.
pub open spec fn rev_seq(s: Seq<char>) -> Seq<char> {
    Seq::new(s.len(), |i: int| s[s.len() - 1 - i])
}

fn hex_digit_char(d: u64) -> (c: char)
    requires
        d < 16,
    ensures
        c == hex_digit(d),
{
    if d < 10 {
        (('0' as u32) + d as u32) as u8 as char
    } else {
        (('a' as u32) + (d as u32 - 10)) as u8 as char
    }
}

impl Num {
    /// Renders the number as `Num(0x..)` in lowercase hexadecimal.
    pub fn fmt_to_string(&self) -> (r: String)
        ensures
            r@ == num_display(self.val),
    {
        let mut digits: Vec<char> = Vec::new();
        let mut m = self.val;
        while m >= 16
            invariant
                hex_digits(self.val) == hex_digits(m) + rev_seq(digits@),
            decreases m,
        {
            let ghost d0 = digits@;
            let ghost m0 = m;
            digits.push(hex_digit_char(m % 16));
            m = m / 16;
            proof {
                assert(rev_seq(digits@) =~= seq![hex_digit(m0 % 16)] + rev_seq(d0));
                assert(hex_digits(m0) + rev_seq(d0) =~= hex_digits(m) + rev_seq(digits@));
            }
        }
        let ghost dfinal = digits@;
        let ghost mfinal = m;
        let mut out = String::from_str("Num(0x");
        push_char(&mut out, hex_digit_char(m));
        let n = digits.len();
        let mut i: usize = 0;
        while i < n
            invariant
                n == dfinal.len(),
                digits@ == dfinal,
                i <= n,
                mfinal < 16,
                out@ == "Num(0x"@ + seq![hex_digit(mfinal)] + rev_seq(dfinal).take(i as int),
            decreases n - i,
        {
            push_char(&mut out, digits[n - 1 - i]);
            proof {
                assert(rev_seq(dfinal)[i as int] == dfinal[n - 1 - i]);
                assert(out@ =~= "Num(0x"@ + seq![hex_digit(mfinal)] + rev_seq(dfinal).take(
                    i + 1,
                ));
            }
            i += 1;
        }
        push_char(&mut out, ')');
        proof {
            assert(rev_seq(dfinal).take(n as int) =~= rev_seq(dfinal));
            assert(hex_digits(self.val) == hex_digits(mfinal) + rev_seq(dfinal));
            assert(hex_digits(mfinal) == seq![hex_digit(mfinal)]);
            reveal_strlit(")");
            assert(out@ =~= num_display(self.val));
        }
        out
    }
}

} // verus!
