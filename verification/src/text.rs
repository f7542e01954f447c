//! Text utilities shared by the layout and serialization passes:
//! decimal rendering of wire names and connector distances, and
//! substring search used to classify gate names.

use vstd::prelude::*;

verus! {

/// The decimal digit character for a value below ten.
pub open spec fn dec_digit(n: nat) -> char {
    if n == 0 {
        '0'
    } else if n == 1 {
        '1'
    } else if n == 2 {
        '2'
    } else if n == 3 {
        '3'
    } else if n == 4 {
        '4'
    } else if n == 5 {
        '5'
    } else if n == 6 {
        '6'
    } else if n == 7 {
        '7'
    } else if n == 8 {
        '8'
    } else {
        '9'
    }
}

/// The decimal digit sequence of a natural number, most significant
/// digit first, with no leading zeros (a lone zero for zero).
pub open spec fn dec_of(n: nat) -> Seq<char>
    decreases n,
{
    if n < 10 {
        seq![dec_digit(n)]
    } else {
        dec_of(n / 10) + seq![dec_digit(n % 10)]
    }
}

/// The decimal digit sequence of an integer: a minus sign followed by
/// the magnitude's digits when negative.
pub open spec fn dec_of_int(v: int) -> Seq<char> {
    if v >= 0 {
        dec_of(v as nat)
    } else {
        seq!['-'] + dec_of((-v) as nat)
    }
}

fn digit_str(d: u64) -> (r: &'static str)
    requires
        d < 10,
    ensures
        r@ == seq![dec_digit(d as nat)],
{
    proof {
        reveal_strlit("0");
        reveal_strlit("1");
        reveal_strlit("2");
        reveal_strlit("3");
        reveal_strlit("4");
        reveal_strlit("5");
        reveal_strlit("6");
        reveal_strlit("7");
        reveal_strlit("8");
        reveal_strlit("9");
    }
    if d == 0 {
        proof { assert("0"@ =~= seq![dec_digit(d as nat)]); }
        "0"
    } else if d == 1 {
        proof { assert("1"@ =~= seq![dec_digit(d as nat)]); }
        "1"
    } else if d == 2 {
        proof { assert("2"@ =~= seq![dec_digit(d as nat)]); }
        "2"
    } else if d == 3 {
        proof { assert("3"@ =~= seq![dec_digit(d as nat)]); }
        "3"
    } else if d == 4 {
        proof { assert("4"@ =~= seq![dec_digit(d as nat)]); }
        "4"
    } else if d == 5 {
        proof { assert("5"@ =~= seq![dec_digit(d as nat)]); }
        "5"
    } else if d == 6 {
        proof { assert("6"@ =~= seq![dec_digit(d as nat)]); }
        "6"
    } else if d == 7 {
        proof { assert("7"@ =~= seq![dec_digit(d as nat)]); }
        "7"
    } else if d == 8 {
        proof { assert("8"@ =~= seq![dec_digit(d as nat)]); }
        "8"
    } else {
        proof { assert("9"@ =~= seq![dec_digit(d as nat)]); }
        "9"
    }
}

/// Renders an unsigned number in decimal.
pub fn u64_to_dec(n: u64) -> (r: String)
    ensures
        r@ == dec_of(n as nat),
    decreases n,
{
    if n < 10 {
        digit_str(n).to_owned()
    } else {
        proof {
            assert(n as nat / 10 < n as nat) by (nonlinear_arith)
                requires n >= 10;
        }
        let mut s = u64_to_dec(n / 10);
        s.append(digit_str(n % 10));
        s
    }
}

/// Renders a signed number in decimal.
pub fn i64_to_dec(v: i64) -> (r: String)
    ensures
        r@ == dec_of_int(v as int),
{
    if v >= 0 {
        u64_to_dec(v as u64)
    } else {
        let magnitude: u64 = ((-(v + 1)) as u64) + 1;
        proof {
            assert(magnitude as int == -(v as int));
            reveal_strlit("-");
            assert("-"@ =~= seq!['-']);
        }
        let mut s = String::from_str("-");
        let rest = u64_to_dec(magnitude);
        s.append(rest.as_str());
        s
    }
}

/// Whether `t` occurs as a contiguous run of characters inside `s`.
pub open spec fn has_substring(s: Seq<char>, t: Seq<char>) -> bool {
    exists|i: int| 0 <= i && i + t.len() <= s.len() && #[trigger] s.subrange(i, i + t.len()) == t
}

/// Substring search over characters.
pub fn contains_str(s: &str, t: &str) -> (r: bool)
    ensures
        r == has_substring(s@, t@),
{
    let s_len = s.unicode_len();
    let t_len = t.unicode_len();
    if t_len > s_len {
        return false;
    }
    if t_len == 0 {
        proof {
            assert(s@.subrange(0, 0 + t@.len() as int) =~= t@);
        }
        return true;
    }
    let mut i: usize = 0;
    while i <= s_len - t_len
        invariant
            t_len == t@.len(),
            s_len == s@.len(),
            0 < t_len <= s_len,
            i <= s_len,
            forall|k: int| 0 <= k < i ==> #[trigger] s@.subrange(k, k + t@.len()) != t@,
        decreases s_len - i,
    {
        let mut j: usize = 0;
        let mut mismatch = false;
        while j < t_len && !mismatch
            invariant
                t_len == t@.len(),
                s_len == s@.len(),
                0 < t_len,
                i + t_len <= s_len,
                j <= t_len,
                !mismatch ==> forall|l: int| 0 <= l < j ==> s@[i + l] == t@[l],
                mismatch ==> s@.subrange(i as int, i + t@.len()) != t@,
            decreases t_len - j + (if mismatch { 0int } else { 1int }),
        {
            if s.get_char(i + j) != t.get_char(j) {
                proof {
                    assert(s@.subrange(i as int, i + t@.len())[j as int] != t@[j as int]);
                }
                mismatch = true;
            } else {
                j = j + 1;
            }
        }
        if !mismatch {
            proof {
                assert(s@.subrange(i as int, i + t@.len()) =~= t@);
            }
            return true;
        }
        i = i + 1;
    }
    proof {
        assert(forall|k: int| 0 <= k && k + t@.len() <= s@.len() ==> #[trigger] s@.subrange(k, k + t@.len()) != t@);
    }
    false
}

/// Whether the character sequence begins with an upper-case `C`, the
/// composed-control prefix that marks a multi-qubit relationship.
pub open spec fn starts_with_c(s: Seq<char>) -> bool {
    s.len() > 0 && s[0] == 'C'
}

/// Tests for the composed-control prefix.
pub fn str_starts_with_c(s: &str) -> (r: bool)
    ensures
        r == starts_with_c(s@),
{
    if s.is_empty() {
        false
    } else {
        let c = s.get_char(0);
        c == 'C'
    }
}

} // verus!
