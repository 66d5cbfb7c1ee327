//! Number literals. A scanned number keeps its exact decimal digits: an
//! integer part and an optional fractional part. The language's runtime
//! numbers are exact 64-bit signed integers, so a numeral denotes a runtime
//! number exactly when its fractional digits are all zero and its integer
//! part fits; anything else is reported as unrepresentable at evaluation
//! time rather than approximated.
use vstd::prelude::*;

use crate::text::push_char;

verus! {

/// Whether `c` is a decimal digit.
pub open spec fn is_digit(c: char) -> bool {
    48 <= c as u32 && c as u32 <= 57
}

/// The value of a decimal digit character.
pub open spec fn digit_of(c: char) -> int {
    c as u32 - 48
}

/// Whether every character of `s` is a decimal digit.
pub open spec fn all_digits(s: Seq<char>) -> bool {
    forall|i: int| 0 <= i < s.len() ==> is_digit(#[trigger] s[i])
}

/// Whether every character of `s` is the digit zero.
pub open spec fn all_zeros(s: Seq<char>) -> bool {
    forall|i: int| 0 <= i < s.len() ==> #[trigger] s[i] == '0'
}

/// The integer a run of decimal digits denotes, most significant first.
pub open spec fn digits_value(s: Seq<char>) -> int
    decreases s.len(),
{
    if s.len() == 0 {
        0
    } else {
        digits_value(s.drop_last()) * 10 + digit_of(s.last())
    }
}

pub proof fn lemma_digits_value_push(s: Seq<char>, c: char)
    ensures
        digits_value(s.push(c)) == digits_value(s) * 10 + digit_of(c),
{
    assert(s.push(c).drop_last() =~= s);
}

pub proof fn lemma_digits_value_nonneg(s: Seq<char>)
    requires
        all_digits(s),
    ensures
        digits_value(s) >= 0,
    decreases s.len(),
{
    if s.len() > 0 {
        assert forall|i: int| 0 <= i < s.drop_last().len() implies is_digit(
            #[trigger] s.drop_last()[i],
        ) by {
            assert(s.drop_last()[i] == s[i]);
        }
        lemma_digits_value_nonneg(s.drop_last());
    }
}

/// A prefix of a digit run denotes no more than the whole run.
pub proof fn lemma_digits_value_prefix_le(s: Seq<char>, j: int)
    requires
        all_digits(s),
        0 <= j <= s.len(),
    ensures
        digits_value(s.subrange(0, j)) <= digits_value(s),
    decreases s.len() - j,
{
    if j == s.len() {
        assert(s.subrange(0, j) =~= s);
    } else {
        let p = s.subrange(0, j);
        assert(s.subrange(0, j + 1) =~= p.push(s[j]));
        lemma_digits_value_push(p, s[j]);
        assert forall|i: int| 0 <= i < p.len() implies is_digit(#[trigger] p[i]) by {
            assert(p[i] == s[i]);
        }
        lemma_digits_value_nonneg(p);
        lemma_digits_value_prefix_le(s, j + 1);
    }
}

/// The position of the first `.` in `s` at or after `i`, or `s.len()`.
pub open spec fn dot_from(s: Seq<char>, i: int) -> int
    decreases s.len() - i,
{
    if i < 0 || i >= s.len() {
        s.len() as int
    } else if s[i] == '.' {
        i
    } else {
        dot_from(s, i + 1)
    }
}

/// The position of the first `.` in `s`, or `s.len()` when there is none.
pub open spec fn dot_position(s: Seq<char>) -> int {
    dot_from(s, 0)
}

pub proof fn lemma_dot_from_bounds(s: Seq<char>, i: int)
    requires
        0 <= i <= s.len(),
    ensures
        i <= dot_from(s, i) <= s.len(),
        dot_from(s, i) < s.len() ==> s[dot_from(s, i)] == '.',
    decreases s.len() - i,
{
    if i < s.len() && s[i] != '.' {
        lemma_dot_from_bounds(s, i + 1);
    }
}

/// A run of digits holds no `.`.
pub proof fn lemma_dot_from_all_digits(s: Seq<char>, i: int)
    requires
        0 <= i <= s.len(),
        all_digits(s),
    ensures
        dot_from(s, i) == s.len(),
    decreases s.len() - i,
{
    if i < s.len() {
        lemma_dot_from_all_digits(s, i + 1);
    }
}

/// The digits before the first `.`.
pub open spec fn int_part(s: Seq<char>) -> Seq<char> {
    s.subrange(0, dot_position(s))
}

/// The digits after the first `.`, empty when there is no `.`.
pub open spec fn frac_part(s: Seq<char>) -> Seq<char> {
    if dot_position(s) < s.len() {
        s.subrange(dot_position(s) + 1, s.len() as int)
    } else {
        Seq::empty()
    }
}

/// The shape a number literal is scanned with: a nonempty run of digits,
/// optionally followed by `.` and a nonempty run of digits.
pub open spec fn is_numeral(s: Seq<char>) -> bool {
    &&& int_part(s).len() > 0
    &&& all_digits(int_part(s))
    &&& (dot_position(s) < s.len() ==> frac_part(s).len() > 0 && all_digits(frac_part(s)))
}

/// The runtime number a numeral denotes: defined exactly when the numeral
/// is integral (its fractional digits, if any, are all zero) and its value
/// fits a 64-bit signed integer.
pub open spec fn numeral_as_i64(s: Seq<char>) -> Option<int> {
    if is_numeral(s) && all_zeros(frac_part(s)) && digits_value(int_part(s)) <= i64::MAX as int {
        Some(digits_value(int_part(s)))
    } else {
        None
    }
}

/// Interprets a number literal's text as a runtime number, or reports that
/// it denotes none.
pub fn numeral_to_int(s: &String) -> (r: Option<i64>)
    ensures
        r matches Some(v) ==> numeral_as_i64(s@) == Some(v as int),
        r is None ==> numeral_as_i64(s@) is None,
{
    let st = s.as_str();
    let n = st.unicode_len();
    let mut i: usize = 0;
    let mut acc: i64 = 0;
    while i < n
        invariant
            0 <= i <= n == s@.len(),
            st@ == s@,
            0 <= acc <= i64::MAX,
            acc as int == digits_value(s@.subrange(0, i as int)),
            all_digits(s@.subrange(0, i as int)),
            dot_from(s@, 0) == dot_from(s@, i as int),
        ensures
            0 <= i <= n == s@.len(),
            0 <= acc <= i64::MAX,
            acc as int == digits_value(s@.subrange(0, i as int)),
            all_digits(s@.subrange(0, i as int)),
            dot_from(s@, 0) == dot_from(s@, i as int),
            i == n || s@[i as int] == '.',
        decreases n - i,
    {
        let c = st.get_char(i);
        if c == '.' {
            break ;
        }
        let cv: u32 = c as u32;
        if cv < 48 || cv > 57 {
            proof {
                // the character sits inside the integer part, which is
                // therefore not all digits
                lemma_dot_from_bounds(s@, i as int + 1);
                assert(dot_from(s@, i as int) == dot_from(s@, i as int + 1));
                assert(i as int + 1 <= dot_position(s@) <= s@.len());
                assert(int_part(s@)[i as int] == c);
                assert(!is_numeral(s@));
            }
            return None;
        }
        let d: u32 = cv - 48;
        proof {
            let p = s@.subrange(0, i as int);
            let q = s@.subrange(0, i as int + 1);
            assert(q =~= p.push(c));
            lemma_digits_value_push(p, c);
            assert forall|k: int| 0 <= k < q.len() implies is_digit(#[trigger] q[k]) by {
                if k < i as int {
                    assert(q[k] == p[k]);
                } else {
                    assert(q[k] == c);
                }
            }
        }
        if acc > (i64::MAX - d as i64) / 10 {
            proof {
                lemma_dot_from_bounds(s@, i as int + 1);
                assert(dot_from(s@, i as int) == dot_from(s@, i as int + 1));
                assert(i as int + 1 <= dot_position(s@) <= s@.len());
                if is_numeral(s@) {
                    let ip = int_part(s@);
                    assert(s@.subrange(0, i as int + 1) =~= ip.subrange(0, i as int + 1));
                    lemma_digits_value_prefix_le(ip, i as int + 1);
                    assert(digits_value(ip) > i64::MAX as int);
                }
            }
            return None;
        }
        acc = acc * 10 + d as i64;
        i = i + 1;
    }
    if i == 0 {
        // the integer part is empty: either the text is empty or it
        // starts with '.'
        proof {
            assert(dot_position(s@) == 0);
            assert(int_part(s@).len() == 0);
        }
        return None;
    }
    if i == n {
        // no fractional part
        proof {
            assert(dot_position(s@) == s@.len() as int);
            assert(int_part(s@) =~= s@.subrange(0, i as int));
            assert(frac_part(s@) =~= Seq::<char>::empty());
        }
        return Some(acc);
    }
    // s@[i] == '.', so the dot position is exactly i
    proof {
        assert(dot_position(s@) == i as int);
        assert(int_part(s@) =~= s@.subrange(0, i as int));
    }
    if i + 1 == n {
        // a trailing '.' with no fractional digits is not a numeral
        proof {
            assert(frac_part(s@).len() == 0);
        }
        return None;
    }
    let mut j: usize = i + 1;
    while j < n
        invariant
            i as int + 1 <= j as int <= n == s@.len(),
            st@ == s@,
            i < n,
            s@[i as int] == '.',
            dot_position(s@) == i as int,
            int_part(s@) == s@.subrange(0, i as int),
            forall|k: int| i as int + 1 <= k < j as int ==> #[trigger] s@[k] == '0',
        decreases n - j,
    {
        let c = st.get_char(j);
        if c != '0' {
            let cv: u32 = c as u32;
            if cv < 48 || cv > 57 {
                proof {
                    assert(frac_part(s@)[j as int - (i as int + 1)] == c);
                    assert(!is_numeral(s@));
                }
                return None;
            }
            proof {
                assert(frac_part(s@)[j as int - (i as int + 1)] == c);
                assert(!all_zeros(frac_part(s@)));
            }
            return None;
        }
        j = j + 1;
    }
    proof {
        let fp = frac_part(s@);
        assert forall|k: int| 0 <= k < fp.len() implies #[trigger] fp[k] == '0' by {
            assert(fp[k] == s@[i as int + 1 + k]);
        }
        assert(all_zeros(fp));
        assert forall|k: int| 0 <= k < fp.len() implies is_digit(#[trigger] fp[k]) by {
            assert(fp[k] == '0');
        }
        assert(is_numeral(s@));
    }
    Some(acc)
}

/// A digit run with leading zeros removed; an empty run reads as `0`.
pub open spec fn strip_leading_zeros(s: Seq<char>) -> Seq<char>
    decreases s.len(),
{
    if s.len() == 0 {
        seq!['0']
    } else if s.len() > 1 && s[0] == '0' {
        strip_leading_zeros(s.drop_first())
    } else {
        s
    }
}

/// A digit run with trailing zeros removed.
pub open spec fn strip_trailing_zeros(s: Seq<char>) -> Seq<char>
    decreases s.len(),
{
    if s.len() > 0 && s.last() == '0' {
        strip_trailing_zeros(s.drop_last())
    } else {
        s
    }
}

/// The canonical form of a numeral: no leading zeros on the integer
/// part, no trailing zeros on the fractional part, and no dot when the
/// fractional part is all zeros.
pub open spec fn canonical_numeral(s: Seq<char>) -> Seq<char> {
    let ip = strip_leading_zeros(int_part(s));
    let fp = strip_trailing_zeros(frac_part(s));
    if fp.len() == 0 {
        ip
    } else {
        ip + seq!['.'] + fp
    }
}

/// Renders a numeral in its canonical form.
pub fn canonical_numeral_text(s: &String) -> (r: String)
    ensures
        r@ == canonical_numeral(s@),
{
    let st = s.as_str();
    let n = st.unicode_len();
    let mut d: usize = 0;
    loop
        invariant
            d <= n == s@.len(),
            st@ == s@,
            dot_from(s@, 0) == dot_from(s@, d as int),
        ensures
            d <= n,
            st@ == s@,
            d as int == dot_position(s@),
        decreases n - d,
    {
        if d >= n {
            break ;
        }
        let c = st.get_char(d);
        if c == '.' {
            break ;
        }
        d = d + 1;
    }
    proof {
        assert(int_part(s@) =~= s@.subrange(0, d as int));
    }
    let mut k: usize = 0;
    while 1 <= d && k < d - 1 && st.get_char(k) == '0'
        invariant
            k <= d <= n == s@.len(),
            st@ == s@,
            d == 0 ==> k == 0,
            d > 0 ==> k < d,
            strip_leading_zeros(s@.subrange(0, d as int)) == strip_leading_zeros(
                s@.subrange(k as int, d as int),
            ),
        decreases d - k,
    {
        proof {
            assert(s@.subrange(k as int, d as int).drop_first() =~= s@.subrange(
                k as int + 1,
                d as int,
            ));
        }
        k = k + 1;
    }
    let mut out: String = if d == 0 {
        let mut o = String::new();
        push_char(&mut o, '0');
        proof {
            assert(o@ =~= seq!['0']);
            assert(strip_leading_zeros(s@.subrange(0, 0)) == seq!['0']);
        }
        o
    } else {
        proof {
            assert(strip_leading_zeros(s@.subrange(k as int, d as int)) == s@.subrange(
                k as int,
                d as int,
            ));
        }
        String::from_str(st.substring_char(k, d))
    };
    if d < n {
        proof {
            assert(frac_part(s@) =~= s@.subrange(d as int + 1, n as int));
        }
        let mut e: usize = n;
        while e > d + 1 && st.get_char(e - 1) == '0'
            invariant
                d + 1 <= e,
                e <= n,
                n == s@.len(),
                d < n,
                st@ == s@,
                strip_trailing_zeros(s@.subrange(d as int + 1, n as int)) == strip_trailing_zeros(
                    s@.subrange(d as int + 1, e as int),
                ),
            decreases e,
        {
            proof {
                assert(s@.subrange(d as int + 1, e as int).drop_last() =~= s@.subrange(
                    d as int + 1,
                    e as int - 1,
                ));
            }
            e = e - 1;
        }
        if e > d + 1 {
            proof {
                assert(strip_trailing_zeros(s@.subrange(d as int + 1, e as int)) == s@.subrange(
                    d as int + 1,
                    e as int,
                ));
            }
            push_char(&mut out, '.');
            out.append(st.substring_char(d + 1, e));
            proof {
                assert(out@ =~= canonical_numeral(s@));
            }
        } else {
            proof {
                assert(s@.subrange(d as int + 1, d as int + 1) =~= Seq::<char>::empty());
                assert(strip_trailing_zeros(s@.subrange(d as int + 1, e as int)).len() == 0);
            }
        }
    } else {
        proof {
            assert(frac_part(s@).len() == 0);
            assert(strip_trailing_zeros(frac_part(s@)).len() == 0);
        }
    }
    out
}

} // verus!
