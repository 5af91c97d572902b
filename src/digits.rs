//! Decimal integers as text: the grammar that `i64` and `u64` read, and the canonical
//! rendering that they are written in.
use vstd::prelude::*;

verus! {

pub open spec fn is_digit(c: char) -> bool {
    '0' <= c && c <= '9'
}

pub open spec fn digit_value(c: char) -> int {
    c as int - '0' as int
}

pub open spec fn digit_char(d: int) -> char {
    (d + '0' as int) as char
}

pub open spec fn all_digits(s: Seq<char>) -> bool {
    forall|i: int| 0 <= i < s.len() ==> is_digit(#[trigger] s[i])
}

/// The number that a run of decimal digits spells.
pub open spec fn digits_value(s: Seq<char>) -> nat
    decreases s.len(),
{
    if s.len() == 0 {
        0
    } else {
        (digits_value(s.drop_last()) * 10 + digit_value(s.last())) as nat
    }
}

/// The integer that a text spells: an optional `+` or `-` sign, then one or more decimal
/// digits, and nothing else.
pub open spec fn signed_text_value(s: Seq<char>) -> Option<int> {
    if s.len() > 0 && (s[0] == '+' || s[0] == '-') {
        let d = s.subrange(1, s.len() as int);
        if d.len() > 0 && all_digits(d) {
            Some(if s[0] == '-' { -digits_value(d) } else { digits_value(d) as int })
        } else {
            None
        }
    } else if s.len() > 0 && all_digits(s) {
        Some(digits_value(s) as int)
    } else {
        None
    }
}

/// The number that a text spells without a minus sign: an optional `+`, then one or more
/// decimal digits, and nothing else.
pub open spec fn unsigned_text_value(s: Seq<char>) -> Option<int> {
    if s.len() > 0 && s[0] == '-' {
        None
    } else {
        signed_text_value(s)
    }
}

/// What `i64`'s parser makes of a text: the value it spells, if that fits.
pub open spec fn signed_reading(s: Seq<char>) -> Option<i64> {
    match signed_text_value(s) {
        Some(v) => if i64::MIN <= v <= i64::MAX {
            Some(v as i64)
        } else {
            None
        },
        None => None,
    }
}

/// What `u64`'s parser makes of a text: the value it spells, if that fits.
pub open spec fn unsigned_reading(s: Seq<char>) -> Option<u64> {
    match unsigned_text_value(s) {
        Some(v) => if 0 <= v <= u64::MAX {
            Some(v as u64)
        } else {
            None
        },
        None => None,
    }
}

/// The canonical decimal rendering of a natural number: no sign and no leading zeros.
pub open spec fn decimal_text(n: nat) -> Seq<char>
    decreases n,
{
    if n < 10 {
        seq![digit_char(n as int)]
    } else {
        decimal_text(n / 10).push(digit_char((n % 10) as int))
    }
}

/// The canonical decimal rendering of an integer: a `-` before a negative one.
pub open spec fn integer_text(v: int) -> Seq<char> {
    if v < 0 {
        seq!['-'].add(decimal_text((-v) as nat))
    } else {
        decimal_text(v as nat)
    }
}

/// A canonical rendering is a nonempty run of digits that spells the number back.
pub proof fn lemma_decimal_text(n: nat)
    ensures
        decimal_text(n).len() > 0,
        all_digits(decimal_text(n)),
        digits_value(decimal_text(n)) == n,
    decreases n,
{
    assert(digit_value(digit_char((n % 10) as int)) == n % 10);
    if n < 10 {
        let s = decimal_text(n);
        assert(s.drop_last().len() == 0);
        assert(digits_value(s) == digits_value(s.drop_last()) * 10 + digit_value(s.last()));
    } else {
        lemma_decimal_text(n / 10);
        let s = decimal_text(n);
        assert(s.drop_last() =~= decimal_text(n / 10));
        assert(s.last() == digit_char((n % 10) as int));
        assert(digits_value(s) == digits_value(s.drop_last()) * 10 + digit_value(s.last()));
        assert(n == (n / 10) * 10 + n % 10);
        assert(all_digits(s)) by {
            assert forall|i: int| 0 <= i < s.len() implies is_digit(#[trigger] s[i]) by {
                if i < s.len() - 1 {
                    assert(s[i] == decimal_text(n / 10)[i]);
                }
            }
        }
    }
}

/// Reading back the canonical rendering of an integer gives that integer.
pub proof fn lemma_integer_text_reads_back(v: int)
    ensures
        signed_text_value(integer_text(v)) == Some(v),
        v >= 0 ==> unsigned_text_value(integer_text(v)) == Some(v),
{
    if v < 0 {
        let d = decimal_text((-v) as nat);
        lemma_decimal_text((-v) as nat);
        let s = integer_text(v);
        assert(s.subrange(1, s.len() as int) =~= d);
    } else {
        lemma_decimal_text(v as nat);
        let s = integer_text(v);
        assert(is_digit(s[0]));
    }
}

/// A one-digit literal.
fn digit_str(d: u64) -> (r: &'static str)
    requires
        d < 10,
    ensures
        r@ == seq![digit_char(d as int)],
{
    proof {
        reveal_strlit("0");
        reveal_strlit("1");
        reveal_strlit("2");
        reveal_strlit("3");
        reveal_strlit("4");
        reveal_strlit("5");
        reveal_strlit("6");
        reveal_strlit("7");
        reveal_strlit("8");
        reveal_strlit("9");
    }
    let r = if d == 0 {
        "0"
    } else if d == 1 {
        "1"
    } else if d == 2 {
        "2"
    } else if d == 3 {
        "3"
    } else if d == 4 {
        "4"
    } else if d == 5 {
        "5"
    } else if d == 6 {
        "6"
    } else if d == 7 {
        "7"
    } else if d == 8 {
        "8"
    } else {
        "9"
    };
    assert(r@ =~= seq![digit_char(d as int)]);
    r
}

/// The canonical decimal rendering of `n`.
pub fn render_unsigned(n: u64) -> (r: String)
    ensures
        r@ == decimal_text(n as nat),
    decreases n,
{
    if n < 10 {
        String::from_str(digit_str(n))
    } else {
        let mut s = render_unsigned(n / 10);
        s.append(digit_str(n % 10));
        s
    }
}

/// The canonical decimal rendering of `v`.
pub fn render_signed(v: i64) -> (r: String)
    ensures
        r@ == integer_text(v as int),
{
    if v < 0 {
        let m: u64 = (0 - (v as i128)) as u64;
        let mut s = String::from_str("-");
        proof {
            reveal_strlit("-");
        }
        s.append(render_unsigned(m).as_str());
        s
    } else {
        render_unsigned(v as u64)
    }
}

/// One more than the largest magnitude that either integer type can hold: magnitudes are
/// counted up to it and no further.
pub const MAGNITUDE_CAP: u128 = 0x1_0000_0000_0000_0001;

pub open spec fn saturated(v: nat) -> nat {
    if v < MAGNITUDE_CAP {
        v
    } else {
        MAGNITUDE_CAP as nat
    }
}

/// The decimal digits of `s` from `start` on: `None` unless there are one or more and
/// nothing else; otherwise the number they spell, counted up to `MAGNITUDE_CAP`.
fn digits_from(s: &str, start: usize) -> (r: Option<u128>)
    requires
        start <= s@.len(),
    ensures
        r is Some <==> (start < s@.len() && all_digits(s@.subrange(start as int, s@.len() as int))),
        r is Some ==> r->Some_0 == saturated(digits_value(s@.subrange(start as int, s@.len() as int))),
{
    let n = s.unicode_len();
    if start >= n {
        return None;
    }
    let mut acc: u128 = 0;
    let mut i = start;
    assert(s@.subrange(start as int, start as int).len() == 0);
    while i < n
        invariant
            start <= i <= n,
            n == s@.len(),
            all_digits(s@.subrange(start as int, i as int)),
            acc == saturated(digits_value(s@.subrange(start as int, i as int))),
        decreases n - i,
    {
        let c = s.get_char(i);
        if !('0' <= c && c <= '9') {
            proof {
                let t = s@.subrange(start as int, n as int);
                assert(t[i - start] == c);
            }
            return None;
        }
        let d = (c as u32 - '0' as u32) as u128;
        proof {
            let p = s@.subrange(start as int, i as int);
            let q = s@.subrange(start as int, i + 1);
            assert(q.drop_last() =~= p);
            assert(q.last() == c);
            assert(digits_value(q) == digits_value(p) * 10 + digit_value(c));
            assert(all_digits(q)) by {
                assert forall|j: int| 0 <= j < q.len() implies is_digit(#[trigger] q[j]) by {
                    if j < q.len() - 1 {
                        assert(q[j] == p[j]);
                    }
                }
            }
        }
        acc = if acc >= MAGNITUDE_CAP {
            MAGNITUDE_CAP
        } else {
            let x = acc * 10 + d;
            if x > MAGNITUDE_CAP {
                MAGNITUDE_CAP
            } else {
                x
            }
        };
        i = i + 1;
    }
    Some(acc)
}

/// Reads a text as `i64`'s parser does: an optional sign, then decimal digits, in range.
pub fn parse_signed(s: &str) -> (r: Option<i64>)
    ensures
        r == signed_reading(s@),
{
    let n = s.unicode_len();
    if n == 0 {
        return None;
    }
    let c = s.get_char(0);
    if c == '+' || c == '-' {
        match digits_from(s, 1) {
            None => None,
            Some(m) => {
                if c == '-' {
                    if m <= 0x8000_0000_0000_0000u128 {
                        Some((0 - (m as i128)) as i64)
                    } else {
                        None
                    }
                } else if m <= 0x7fff_ffff_ffff_ffffu128 {
                    Some(m as i64)
                } else {
                    None
                }
            },
        }
    } else {
        assert(s@.subrange(0, n as int) =~= s@);
        match digits_from(s, 0) {
            None => None,
            Some(m) => {
                if m <= 0x7fff_ffff_ffff_ffffu128 {
                    Some(m as i64)
                } else {
                    None
                }
            },
        }
    }
}

/// Reads a text as `u64`'s parser does: an optional `+`, then decimal digits, in range.
pub fn parse_unsigned(s: &str) -> (r: Option<u64>)
    ensures
        r == unsigned_reading(s@),
{
    let n = s.unicode_len();
    if n == 0 {
        return None;
    }
    let c = s.get_char(0);
    if c == '-' {
        None
    } else if c == '+' {
        match digits_from(s, 1) {
            None => None,
            Some(m) => {
                if m <= 0xffff_ffff_ffff_ffffu128 {
                    Some(m as u64)
                } else {
                    None
                }
            },
        }
    } else {
        assert(s@.subrange(0, n as int) =~= s@);
        match digits_from(s, 0) {
            None => None,
            Some(m) => {
                if m <= 0xffff_ffff_ffff_ffffu128 {
                    Some(m as u64)
                } else {
                    None
                }
            },
        }
    }
}

} // verus!
