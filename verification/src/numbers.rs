//! Decimal integers in text: `i32::from_str` and `i32::to_string`.
use vstd::prelude::*;
use crate::text::{is_white};

verus! {

/// The character of a decimal digit.
pub open spec fn digit_char(d: int) -> char {
    if d == 0 {
        '0'
    } else if d == 1 {
        '1'
    } else if d == 2 {
        '2'
    } else if d == 3 {
        '3'
    } else if d == 4 {
        '4'
    } else if d == 5 {
        '5'
    } else if d == 6 {
        '6'
    } else if d == 7 {
        '7'
    } else if d == 8 {
        '8'
    } else {
        '9'
    }
}

pub open spec fn is_digit(c: char) -> bool {
    '0' <= c && c <= '9'
}

/// The value of a decimal digit character.
pub open spec fn digit_value(c: char) -> int {
    c as int - '0' as int
}

pub open spec fn all_digits(s: Seq<char>) -> bool {
    forall|i: int| 0 <= i < s.len() ==> is_digit(#[trigger] s[i])
}

/// The value of a string of decimal digits.
pub open spec fn digits_value(s: Seq<char>) -> int
    decreases s.len(),
{
    if s.len() == 0 {
        0
    } else {
        digits_value(s.drop_last()) * 10 + digit_value(s.last())
    }
}

/// `i32::from_str`: an optional `+` or `-`, then one or more decimal digits,
/// whose value fits in `i32`; anything else is an error (`None`).
pub open spec fn parse_i32(s: Seq<char>) -> Option<i32> {
    let neg = s.len() > 0 && s[0] == '-';
    let ds = if s.len() > 0 && (s[0] == '-' || s[0] == '+') {
        s.drop_first()
    } else {
        s
    };
    if ds.len() == 0 || !all_digits(ds) {
        None
    } else {
        let v = if neg {
            -digits_value(ds)
        } else {
            digits_value(ds)
        };
        if i32::MIN <= v <= i32::MAX {
            Some(v as i32)
        } else {
            None
        }
    }
}

/// The decimal digits of `n`, without leading zeros.
pub open spec fn decimal(n: nat) -> Seq<char>
    decreases n,
{
    if n < 10 {
        seq![digit_char(n as int)]
    } else {
        decimal(n / 10).push(digit_char((n % 10) as int))
    }
}

/// `i32::to_string`: a `-` for a negative number, then the decimal digits of
/// its magnitude.
pub open spec fn render_i32(n: i32) -> Seq<char> {
    if n < 0 {
        seq!['-'] + decimal((-n) as nat)
    } else {
        decimal(n as nat)
    }
}

const CAP: i64 = 2147483649;

fn digit_char_exec(d: u32) -> (c: char)
    requires
        d < 10,
    ensures
        c == digit_char(d as int),
{
    if d == 0 {
        '0'
    } else if d == 1 {
        '1'
    } else if d == 2 {
        '2'
    } else if d == 3 {
        '3'
    } else if d == 4 {
        '4'
    } else if d == 5 {
        '5'
    } else if d == 6 {
        '6'
    } else if d == 7 {
        '7'
    } else if d == 8 {
        '8'
    } else {
        '9'
    }
}

proof fn lemma_digits_nonneg(s: Seq<char>)
    requires
        all_digits(s),
    ensures
        digits_value(s) >= 0,
    decreases s.len(),
{
    if s.len() > 0 {
        assert(all_digits(s.drop_last())) by {
            assert forall|i: int| 0 <= i < s.drop_last().len() implies is_digit(#[trigger] s.drop_last()[i]) by {
                assert(s.drop_last()[i] == s[i]);
            }
        }
        lemma_digits_nonneg(s.drop_last());
        assert(is_digit(s.last()));
    }
}

/// `i32::from_str` on characters.
pub fn parse_i32_exec(s: &Vec<char>) -> (r: Option<i32>)
    ensures
        r == parse_i32(s@),
{
    let neg = s.len() > 0 && s[0] == '-';
    let start: usize = if s.len() > 0 && (s[0] == '-' || s[0] == '+') {
        1
    } else {
        0
    };
    let ghost ds = if s@.len() > 0 && (s@[0] == '-' || s@[0] == '+') {
        s@.drop_first()
    } else {
        s@
    };
    assert(ds =~= s@.skip(start as int));
    if start == s.len() {
        return None;
    }
    let mut acc: i64 = 0;
    let mut i: usize = start;
    assert(s@.subrange(start as int, start as int) =~= Seq::<char>::empty());
    while i < s.len()
        invariant
            start <= i <= s.len(),
            ds == s@.skip(start as int),
            ds == (if s@.len() > 0 && (s@[0] == '-' || s@[0] == '+') {
                s@.drop_first()
            } else {
                s@
            }),
            all_digits(s@.subrange(start as int, i as int)),
            0 <= acc <= CAP,
            acc == if digits_value(s@.subrange(start as int, i as int)) < CAP {
                digits_value(s@.subrange(start as int, i as int))
            } else {
                CAP as int
            },
        decreases s.len() - i,
    {
        let c = s[i];
        let ghost pre = s@.subrange(start as int, i as int);
        let ghost next = s@.subrange(start as int, i + 1);
        assert(next.drop_last() =~= pre);
        assert(next.last() == c);
        if !('0' <= c && c <= '9') {
            assert(ds[i - start] == c);
            return None;
        }
        let d: i64 = (c as u32 - '0' as u32) as i64;
        proof {
            lemma_digits_nonneg(pre);
            assert(all_digits(next)) by {
                assert forall|k: int| 0 <= k < next.len() implies is_digit(#[trigger] next[k]) by {
                    if k < pre.len() {
                        assert(next[k] == pre[k]);
                    }
                }
            }
            assert(digits_value(next) == digits_value(pre) * 10 + d);
            if acc == CAP {
                assert(digits_value(pre) >= CAP);
                assert(digits_value(pre) * 10 + d >= CAP) by (nonlinear_arith)
                    requires
                        digits_value(pre) >= CAP,
                        d >= 0,
                ;
            }
        }
        if acc >= CAP / 10 + 1 {
            acc = CAP;
            proof {
                assert(digits_value(pre) * 10 + d >= CAP) by (nonlinear_arith)
                    requires
                        digits_value(pre) >= CAP / 10 + 1,
                        d >= 0,
                ;
            }
        } else {
            acc = acc * 10 + d;
            if acc > CAP {
                acc = CAP;
            }
        }
        i = i + 1;
    }
    assert(s@.subrange(start as int, i as int) =~= ds);
    if neg {
        if acc > 2147483648 {
            None
        } else {
            Some((-acc) as i32)
        }
    } else {
        if acc > 2147483647 {
            None
        } else {
            Some(acc as i32)
        }
    }
}

/// The decimal digits of `m`, as `u64::to_string` writes them.
pub fn decimal_exec(m: u64) -> (r: Vec<char>)
    ensures
        r@ == decimal(m as nat),
{
    let ghost mag: nat = m as nat;
    // Digits from the least significant one.
    let mut rev: Vec<char> = Vec::new();
    let mut k: u64 = m;
    while k >= 10
        invariant
            mag == m as nat,
            k <= m,
            decimal(mag) == decimal(k as nat) + rev@.reverse(),
        decreases k,
    {
        let ghost before = rev@;
        rev.push(digit_char_exec((k % 10) as u32));
        proof {
            assert(decimal(k as nat) == decimal((k / 10) as nat).push(digit_char((k % 10) as int)));
            assert(rev@.reverse() =~= seq![digit_char((k % 10) as int)] + before.reverse());
            assert(decimal(mag) =~= decimal((k / 10) as nat) + rev@.reverse());
        }
        k = k / 10;
    }
    let mut r: Vec<char> = Vec::new();
    r.push(digit_char_exec(k as u32));
    assert(decimal(k as nat) == seq![digit_char(k as int)]);
    let mut j: usize = rev.len();
    while j > 0
        invariant
            j <= rev.len(),
            r@ == decimal(k as nat) + rev@.reverse().take((rev.len() - j) as int),
        decreases j,
    {
        j = j - 1;
        r.push(rev[j]);
        assert(rev@.reverse().take((rev.len() - j) as int) =~= rev@.reverse().take(
            (rev.len() - j - 1) as int,
        ).push(rev@[j as int]));
    }
    assert(rev@.reverse().take(rev.len() as int) =~= rev@.reverse());
    r
}

/// `i32::to_string` on characters.
pub fn render_i32_exec(n: i32) -> (r: Vec<char>)
    ensures
        r@ == render_i32(n),
{
    let m: u64 = if n < 0 {
        (-(n as i64)) as u64
    } else {
        n as u64
    };
    let digits = decimal_exec(m);
    if n < 0 {
        let mut r: Vec<char> = Vec::new();
        r.push('-');
        let mut j: usize = 0;
        while j < digits.len()
            invariant
                j <= digits.len(),
                r@ == seq!['-'] + digits@.take(j as int),
            decreases digits.len() - j,
        {
            r.push(digits[j]);
            j = j + 1;
            assert(r@ =~= seq!['-'] + digits@.take(j as int));
        }
        assert(digits@.take(j as int) =~= digits@);
        r
    } else {
        digits
    }
}

} // verus!

verus! {

proof fn lemma_digit_char(d: int)
    requires
        0 <= d < 10,
    ensures
        is_digit(digit_char(d)),
        digit_value(digit_char(d)) == d,
{
}

proof fn lemma_decimal(m: nat)
    ensures
        decimal(m).len() > 0,
        all_digits(decimal(m)),
        digits_value(decimal(m)) == m,
    decreases m,
{
    if m < 10 {
        lemma_digit_char(m as int);
        assert(decimal(m).drop_last() =~= Seq::<char>::empty());
        assert(digits_value(Seq::<char>::empty()) == 0);
        assert(decimal(m).last() == digit_char(m as int));
        assert(digits_value(decimal(m)) == digit_value(digit_char(m as int)));
    } else {
        let q = (m / 10) as nat;
        let r = (m % 10) as int;
        lemma_decimal(q);
        lemma_digit_char(r);
        let s = decimal(m);
        assert(s.drop_last() =~= decimal(q));
        assert(all_digits(s)) by {
            assert forall|i: int| 0 <= i < s.len() implies is_digit(#[trigger] s[i]) by {
                if i < s.len() - 1 {
                    assert(s[i] == decimal(q)[i]);
                }
            }
        }
        assert(s.last() == digit_char(r));
        assert(digits_value(s) == digits_value(decimal(q)) * 10 + r);
        assert(m == q * 10 + r) by (nonlinear_arith)
            requires
                q == m / 10,
                r == m % 10,
        ;
    }
}

/// Reading back a written `i32` gives the same number.
pub proof fn lemma_parse_render(n: i32)
    ensures
        parse_i32(render_i32(n)) == Some(n),
{
    let s = render_i32(n);
    if n < 0 {
        let m = (-n) as nat;
        lemma_decimal(m);
        assert(s.drop_first() =~= decimal(m));
    } else {
        let m = n as nat;
        lemma_decimal(m);
        assert(is_digit(s[0]));
    }
}

/// A written `i32` is nonempty and starts and ends with a character that is
/// not whitespace.
pub proof fn lemma_render_shape(n: i32)
    ensures
        render_i32(n).len() > 0,
        !is_white(render_i32(n)[0]),
        !is_white(render_i32(n).last()),
        forall|j: int| 0 <= j < render_i32(n).len() ==> !is_white(#[trigger] render_i32(n)[j]),
{
    let s = render_i32(n);
    if n < 0 {
        let m = (-n) as nat;
        lemma_decimal(m);
        assert(s.last() == decimal(m).last());
        assert(is_digit(decimal(m)[decimal(m).len() - 1]));
        assert forall|j: int| 0 <= j < s.len() implies !is_white(#[trigger] s[j]) by {
            if j > 0 {
                assert(s[j] == decimal(m)[j - 1]);
                assert(is_digit(decimal(m)[j - 1]));
            }
        }
    } else {
        lemma_decimal(n as nat);
        assert(is_digit(s[0]));
        assert(is_digit(s[s.len() - 1]));
        assert forall|j: int| 0 <= j < s.len() implies !is_white(#[trigger] s[j]) by {
            assert(is_digit(s[j]));
        }
    }
}

} // verus!
