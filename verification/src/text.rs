//! Small verified helpers on strings: character-wise equality, decimal
//! rendering of integers, and parsing of unsigned decimal numerals.

use vstd::prelude::*;
use vstd::string::StrSliceExecFns;
use vstd::string::StringExecFns;

verus! {

/// Character-wise equality of two string slices.
pub fn str_eq(a: &str, b: &str) -> (r: bool)
    ensures
        r == (a@ == b@),
{
    let n = a.unicode_len();
    let m = b.unicode_len();
    if n != m {
        return false;
    }
    let mut i: usize = 0;
    while i < n
        invariant
            n == a@.len(),
            n == b@.len(),
            i <= n,
            forall|k: int| 0 <= k < i ==> a@[k] == b@[k],
        decreases n - i,
    {
        if a.get_char(i) != b.get_char(i) {
            return false;
        }
        i = i + 1;
    }
    proof {
        assert(a@ =~= b@);
    }
    true
}

/// The character for one decimal digit.
pub open spec fn digit_char(d: nat) -> char {
    if d == 0 {
        '0'
    } else if d == 1 {
        '1'
    } else if d == 2 {
        '2'
    } else if d == 3 {
        '3'
    } else if d == 4 {
        '4'
    } else if d == 5 {
        '5'
    } else if d == 6 {
        '6'
    } else if d == 7 {
        '7'
    } else if d == 8 {
        '8'
    } else {
        '9'
    }
}

/// The decimal rendering of a natural number, most significant digit first.
pub open spec fn spec_decimal(n: nat) -> Seq<char>
    decreases n,
{
    if n < 10 {
        seq![digit_char(n)]
    } else {
        spec_decimal(n / 10).push(digit_char(n % 10))
    }
}

pub proof fn lemma_decimal_len(n: nat)
    ensures
        spec_decimal(n).len() >= 1,
        n >= 10 ==> spec_decimal(n).len() >= 2,
    decreases n,
{
    if n >= 10 {
        lemma_decimal_len(n / 10);
    }
}

proof fn lemma_digit_char_inj(a: nat, b: nat)
    requires
        a < 10,
        b < 10,
        digit_char(a) == digit_char(b),
    ensures
        a == b,
{
}

/// Distinct numbers have distinct decimal renderings.
pub proof fn lemma_decimal_injective(a: nat, b: nat)
    requires
        spec_decimal(a) == spec_decimal(b),
    ensures
        a == b,
    decreases a,
{
    lemma_decimal_len(a);
    lemma_decimal_len(b);
    if a < 10 && b < 10 {
        assert(spec_decimal(a)[0] == digit_char(a));
        assert(spec_decimal(b)[0] == digit_char(b));
        lemma_digit_char_inj(a, b);
    } else if a < 10 {
        assert(spec_decimal(a).len() == 1);
        assert(spec_decimal(b).len() >= 2);
    } else if b < 10 {
        assert(spec_decimal(b).len() == 1);
        assert(spec_decimal(a).len() >= 2);
    } else {
        let pa = spec_decimal(a / 10);
        let pb = spec_decimal(b / 10);
        assert(pa.push(digit_char(a % 10)).last() == digit_char(a % 10));
        assert(pa.push(digit_char(a % 10)).drop_last() =~= pa);
        assert(pb.push(digit_char(b % 10)).drop_last() =~= pb);
        assert(digit_char(a % 10) == digit_char(b % 10));
        lemma_digit_char_inj(a % 10, b % 10);
        assert(pa == pb);
        lemma_decimal_injective(a / 10, b / 10);
        assert(a / 10 == b / 10 && a % 10 == b % 10);
        assert(a == (a / 10) * 10 + a % 10) by (nonlinear_arith);
        assert(b == (b / 10) * 10 + b % 10) by (nonlinear_arith);
    }
}

fn digit_str(d: u64) -> (r: &'static str)
    requires
        d < 10,
    ensures
        r@ == seq![digit_char(d as nat)],
{
    proof {
        reveal_strlit("0");
        reveal_strlit("1");
        reveal_strlit("2");
        reveal_strlit("3");
        reveal_strlit("4");
        reveal_strlit("5");
        reveal_strlit("6");
        reveal_strlit("7");
        reveal_strlit("8");
        reveal_strlit("9");
    }
    let r = if d == 0 {
        "0"
    } else if d == 1 {
        "1"
    } else if d == 2 {
        "2"
    } else if d == 3 {
        "3"
    } else if d == 4 {
        "4"
    } else if d == 5 {
        "5"
    } else if d == 6 {
        "6"
    } else if d == 7 {
        "7"
    } else if d == 8 {
        "8"
    } else {
        "9"
    };
    proof {
        assert(r@ =~= seq![digit_char(d as nat)]);
    }
    r
}

/// Render an unsigned integer in decimal.
pub fn u64_to_decimal(n: u64) -> (r: String)
    ensures
        r@ == spec_decimal(n as nat),
    decreases n,
{
    if n < 10 {
        digit_str(n).to_owned()
    } else {
        let mut s = u64_to_decimal(n / 10);
        s.append(digit_str(n % 10));
        proof {
            assert(spec_decimal((n / 10) as nat) + seq![digit_char((n % 10) as nat)] =~= spec_decimal(
                (n / 10) as nat,
            ).push(digit_char((n % 10) as nat)));
        }
        s
    }
}

/// Whether a character is a decimal digit.
pub open spec fn is_digit(c: char) -> bool {
    '0' <= c && c <= '9'
}

/// The value of one decimal digit character.
pub open spec fn digit_value(c: char) -> nat {
    (c as nat - '0' as nat) as nat
}

/// The value of a sequence of decimal digit characters, most significant first.
pub open spec fn numeral_value(s: Seq<char>) -> nat
    decreases s.len(),
{
    if s.len() == 0 {
        0
    } else {
        numeral_value(s.drop_last()) * 10 + digit_value(s.last())
    }
}

/// The digits of a numeral, with an optional leading `+` sign removed.
pub open spec fn digits_part(s: Seq<char>) -> Seq<char> {
    if s.len() > 0 && s[0] == '+' {
        s.subrange(1, s.len() as int)
    } else {
        s
    }
}

/// Whether a string is an unsigned decimal numeral: an optional leading `+`
/// followed by at least one digit.
pub open spec fn is_numeral(s: Seq<char>) -> bool {
    &&& digits_part(s).len() > 0
    &&& forall|i: int| 0 <= i < digits_part(s).len() ==> is_digit(#[trigger] digits_part(s)[i])
}

/// Appending more digits to a numeral never shrinks its value.
proof fn lemma_numeral_prefix_monotone(s: Seq<char>, k: int)
    requires
        0 <= k <= s.len(),
    ensures
        numeral_value(s.subrange(0, k)) <= numeral_value(s),
    decreases s.len() - k,
{
    if k < s.len() {
        let t = s.subrange(0, k + 1);
        assert(t.drop_last() =~= s.subrange(0, k));
        assert(numeral_value(s.subrange(0, k)) * 10 + digit_value(t.last()) >= numeral_value(
            s.subrange(0, k),
        )) by (nonlinear_arith);
        lemma_numeral_prefix_monotone(s, k + 1);
        assert(s.subrange(0, s.len() as int) =~= s);
    } else {
        assert(s.subrange(0, s.len() as int) =~= s);
    }
}

/// Parse the digits of `s` starting at character `start` as an unsigned
/// decimal number, requiring the value to be at most `max`.
///
/// Returns `None` when the remainder is empty, holds a non-digit, or the
/// value exceeds `max`.
fn parse_digits(s: &str, start: usize, max: u64) -> (r: Option<u64>)
    requires
        start <= s@.len(),
    ensures
        ({
            let body = s@.subrange(start as int, s@.len() as int);
            match r {
                Some(v) => {
                    &&& body.len() > 0
                    &&& (forall|i: int| 0 <= i < body.len() ==> is_digit(#[trigger] body[i]))
                    &&& v as nat == numeral_value(body)
                    &&& v <= max
                },
                None => {
                    ||| body.len() == 0
                    ||| exists|i: int| 0 <= i < body.len() && !is_digit(#[trigger] body[i])
                    ||| numeral_value(body) > max
                },
            }
        }),
{
    let ghost body = s@.subrange(start as int, s@.len() as int);
    let n = s.unicode_len();
    if start == n {
        return None;
    }
    let mut acc: u64 = 0;
    let mut i: usize = start;
    while i < n
        invariant
            start <= i <= n,
            n == s@.len(),
            body == s@.subrange(start as int, s@.len() as int),
            forall|k: int| start <= k < i ==> is_digit(#[trigger] s@[k]),
            acc as nat == numeral_value(s@.subrange(start as int, i as int)),
            acc <= max,
        decreases n - i,
    {
        let c = s.get_char(i);
        if !(c >= '0' && c <= '9') {
            proof {
                assert(body[i - start] == s@[i as int]);
                assert(!is_digit(body[i - start]));
            }
            return None;
        }
        let d: u64 = (c as u32 as u64) - 48;
        proof {
            assert(d as nat == digit_value(s@[i as int]));
        }
        if acc > max / 10 || (acc == max / 10 && d > max % 10) {
            proof {
                let pre = s@.subrange(start as int, i as int + 1);
                assert(pre.drop_last() =~= s@.subrange(start as int, i as int));
                assert(numeral_value(pre) == acc * 10 + d);
                assert(acc * 10 + d > max) by (nonlinear_arith)
                    requires
                        acc > max / 10 || (acc == max / 10 && d > max % 10),
                        max == (max / 10) * 10 + max % 10,
                        d < 10,
                ;
                let rel = pre.len() as int;
                assert(body.subrange(0, rel) =~= pre);
                lemma_numeral_prefix_monotone(body, rel);
            }
            return None;
        }
        proof {
            assert(acc * 10 + d <= max) by (nonlinear_arith)
                requires
                    acc <= max / 10,
                    acc < max / 10 || d <= max % 10,
                    max == (max / 10) * 10 + max % 10,
                    d < 10,
            ;
            let pre = s@.subrange(start as int, i as int + 1);
            assert(pre.drop_last() =~= s@.subrange(start as int, i as int));
        }
        acc = acc * 10 + d;
        i = i + 1;
    }
    proof {
        assert(s@.subrange(start as int, n as int) =~= body);
        assert(forall|k: int| 0 <= k < body.len() ==> is_digit(#[trigger] body[k]));
    }
    Some(acc)
}

/// Decide executably whether a string is an unsigned decimal numeral.
pub fn is_numeral_str(s: &str) -> (r: bool)
    ensures
        r == is_numeral(s@),
{
    let n = s.unicode_len();
    let start: usize = if n > 0 && s.get_char(0) == '+' {
        1
    } else {
        0
    };
    proof {
        if start == 1 {
            assert(digits_part(s@) =~= s@.subrange(1, s@.len() as int));
        } else {
            assert(digits_part(s@) =~= s@.subrange(0, s@.len() as int));
        }
    }
    if start == n {
        return false;
    }
    let ghost body = digits_part(s@);
    let mut i: usize = start;
    while i < n
        invariant
            start <= i <= n,
            start < n,
            n == s@.len(),
            body == digits_part(s@),
            body == s@.subrange(start as int, s@.len() as int),
            forall|k: int| start <= k < i ==> is_digit(#[trigger] s@[k]),
        decreases n - i,
    {
        let c = s.get_char(i);
        if !(c >= '0' && c <= '9') {
            proof {
                assert(body[i - start] == s@[i as int]);
            }
            return false;
        }
        i = i + 1;
    }
    proof {
        assert(forall|k: int| 0 <= k < body.len() ==> is_digit(#[trigger] body[k]));
    }
    true
}

/// Parse an unsigned decimal numeral with an optional leading `+`, as the
/// standard library's unsigned `parse` accepts, with values capped at `max`.
pub fn parse_unsigned(s: &str, max: u64) -> (r: Option<u64>)
    ensures
        r is Some <==> is_numeral(s@) && numeral_value(digits_part(s@)) <= max,
        r matches Some(v) ==> v as nat == numeral_value(digits_part(s@)) && v <= max,
{
    let n = s.unicode_len();
    let start: usize = if n > 0 && s.get_char(0) == '+' {
        1
    } else {
        0
    };
    proof {
        if start == 1 {
            assert(digits_part(s@) =~= s@.subrange(1, s@.len() as int));
        } else {
            assert(digits_part(s@) =~= s@.subrange(0, s@.len() as int));
        }
    }
    parse_digits(s, start, max)
}

} // verus!
