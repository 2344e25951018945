//! Character classes and the decimal text form of numbers.
//!
//! The scanner classifies characters with the predicates below, and the
//! interpreter renders numbers with `num_to_string`, whose output is pinned
//! to the mathematical digit sequence `spec_num_text`.

use vstd::prelude::*;

verus! {

/// An ASCII decimal digit.
pub open spec fn is_digit(c: char) -> bool {
    '0' <= c && c <= '9'
}

/// An ASCII letter; identifiers start with one.
pub open spec fn is_alpha(c: char) -> bool {
    ('a' <= c && c <= 'z') || ('A' <= c && c <= 'Z')
}

/// An ASCII letter or digit; identifiers continue with these.
pub open spec fn is_alnum(c: char) -> bool {
    is_alpha(c) || is_digit(c)
}

/// Whitespace the scanner skips: space, tab, carriage return, line feed.
pub open spec fn is_space(c: char) -> bool {
    c == ' ' || c == '\t' || c == '\r' || c == '\n'
}

/// Decides `is_digit`.
pub fn check_digit(c: char) -> (b: bool)
    ensures
        b == is_digit(c),
{
    '0' <= c && c <= '9'
}

/// Decides `is_alpha`.
pub fn check_alpha(c: char) -> (b: bool)
    ensures
        b == is_alpha(c),
{
    ('a' <= c && c <= 'z') || ('A' <= c && c <= 'Z')
}

/// Decides `is_alnum`.
pub fn check_alnum(c: char) -> (b: bool)
    ensures
        b == is_alnum(c),
{
    check_alpha(c) || check_digit(c)
}

/// The character for one decimal digit.
pub open spec fn digit_char(d: nat) -> char {
    if d == 0 {
        '0'
    } else if d == 1 {
        '1'
    } else if d == 2 {
        '2'
    } else if d == 3 {
        '3'
    } else if d == 4 {
        '4'
    } else if d == 5 {
        '5'
    } else if d == 6 {
        '6'
    } else if d == 7 {
        '7'
    } else if d == 8 {
        '8'
    } else {
        '9'
    }
}

/// The numeric value of one digit character; non-digits count as zero.
pub open spec fn digit_val(c: char) -> nat {
    if c == '1' {
        1
    } else if c == '2' {
        2
    } else if c == '3' {
        3
    } else if c == '4' {
        4
    } else if c == '5' {
        5
    } else if c == '6' {
        6
    } else if c == '7' {
        7
    } else if c == '8' {
        8
    } else if c == '9' {
        9
    } else {
        0
    }
}

/// The decimal digit sequence of a natural number, most significant first.
pub open spec fn spec_digits(n: nat) -> Seq<char>
    decreases n,
{
    if n < 10 {
        seq![digit_char(n)]
    } else {
        spec_digits(n / 10).push(digit_char(n % 10))
    }
}

/// The decimal text of an integer: a minus sign for negatives, then digits.
pub open spec fn spec_num_text(n: int) -> Seq<char> {
    if n < 0 {
        seq!['-'] + spec_digits((-n) as nat)
    } else {
        spec_digits(n as nat)
    }
}

/// The value denoted by a sequence of digit characters.
pub open spec fn digits_value(s: Seq<char>) -> nat
    decreases s.len(),
{
    if s.len() == 0 {
        0
    } else {
        digits_value(s.drop_last()) * 10 + digit_val(s.last())
    }
}

/// Writing a number as digits and reading the digits back is the identity,
/// the written digits really are digits, and there is at least one of them.
pub proof fn lemma_digits_roundtrip(n: nat)
    ensures
        digits_value(spec_digits(n)) == n,
        spec_digits(n).len() >= 1,
        forall|i: int|
            0 <= i < spec_digits(n).len() ==> is_digit(#[trigger] spec_digits(n)[i]),
    decreases n,
{
    if n < 10 {
        let s = seq![digit_char(n)];
        assert(spec_digits(n) =~= s);
        assert(s.drop_last() =~= Seq::<char>::empty());
        assert(digits_value(s.drop_last()) == 0);
        assert(digits_value(s) == digit_val(digit_char(n)));
        assert(digit_val(digit_char(n)) == n);
    } else {
        lemma_digits_roundtrip(n / 10);
        let prefix = spec_digits(n / 10);
        let whole = prefix.push(digit_char(n % 10));
        assert(whole.drop_last() =~= prefix);
        assert(digits_value(whole) == (n / 10) * 10 + n % 10);
        assert((n / 10) * 10 + n % 10 == n) by {
            vstd::arithmetic::div_mod::lemma_fundamental_div_mod(n as int, 10);
        }
        assert forall|i: int| 0 <= i < whole.len() implies is_digit(#[trigger] whole[i]) by {
            if i < prefix.len() {
                assert(whole[i] == prefix[i]);
            }
        }
    }
}

/// Appending a digit never shrinks the value a digit string denotes.
pub proof fn lemma_digits_value_extend(s: Seq<char>)
    requires
        s.len() >= 1,
    ensures
        digits_value(s) >= digits_value(s.drop_last()),
{
}

/// Relies on `String::push`: appends one character at the end of the string.
#[verifier::external_body]
fn push_char(s: &mut String, c: char)
    ensures
        final(s)@ == old(s)@.push(c),
{
    s.push(c);
}

/// Builds a `String` whose characters are exactly the given ones.
pub fn string_from_chars(chars: &Vec<char>) -> (r: String)
    ensures
        r@ == chars@,
{
    let mut s = String::new();
    let mut i: usize = 0;
    while i < chars.len()
        invariant
            i <= chars.len(),
            s@ == chars@.take(i as int),
        decreases chars.len() - i,
    {
        push_char(&mut s, chars[i]);
        proof {
            assert(chars@.take(i as int).push(chars@[i as int]) =~= chars@.take(i + 1));
        }
        i = i + 1;
    }
    proof {
        assert(chars@.take(chars@.len() as int) =~= chars@);
    }
    s
}

/// The character for one executable decimal digit.
fn digit_to_char(d: u64) -> (c: char)
    requires
        d < 10,
    ensures
        c == digit_char(d as nat),
{
    if d == 0 {
        '0'
    } else if d == 1 {
        '1'
    } else if d == 2 {
        '2'
    } else if d == 3 {
        '3'
    } else if d == 4 {
        '4'
    } else if d == 5 {
        '5'
    } else if d == 6 {
        '6'
    } else if d == 7 {
        '7'
    } else if d == 8 {
        '8'
    } else {
        '9'
    }
}

/// The decimal digit characters of a natural number.
fn digits_chars(m: u64) -> (r: Vec<char>)
    ensures
        r@ == spec_digits(m as nat),
{
    let mut out: Vec<char> = Vec::new();
    let mut x: u64 = m;
    while x >= 10
        invariant
            spec_digits(m as nat) =~= spec_digits(x as nat) + out@,
        decreases x,
    {
        let d = digit_to_char(x % 10);
        out.insert(0, d);
        proof {
            assert(spec_digits(x as nat) + out@.drop_first() =~= spec_digits(
                (x as nat) / 10,
            ).push(digit_char((x as nat) % 10)) + out@.drop_first());
            assert(spec_digits((x as nat) / 10).push(digit_char((x as nat) % 10))
                + out@.drop_first() =~= spec_digits((x as nat) / 10) + out@);
        }
        x = x / 10;
    }
    let d = digit_to_char(x);
    out.insert(0, d);
    proof {
        assert(spec_digits(x as nat) + out@.drop_first() =~= seq![digit_char(x as nat)]
            + out@.drop_first());
        assert(seq![digit_char(x as nat)] + out@.drop_first() =~= out@);
        assert(spec_digits(m as nat) =~= out@);
    }
    out
}

/// The decimal text of a 64-bit signed integer.
pub fn num_to_string(n: i64) -> (r: String)
    ensures
        r@ == spec_num_text(n as int),
{
    if n >= 0 {
        let digits = digits_chars(n as u64);
        string_from_chars(&digits)
    } else {
        let m: u64 = ((-(n + 1)) as u64) + 1;
        proof {
            assert(m as int == -(n as int));
        }
        let digits = digits_chars(m);
        let mut all: Vec<char> = Vec::new();
        all.push('-');
        let mut i: usize = 0;
        while i < digits.len()
            invariant
                i <= digits.len(),
                digits@ == spec_digits(m as nat),
                all@ =~= seq!['-'] + digits@.take(i as int),
            decreases digits.len() - i,
        {
            all.push(digits[i]);
            proof {
                assert(digits@.take(i as int).push(digits@[i as int]) =~= digits@.take(i + 1));
                assert((seq!['-'] + digits@.take(i as int)).push(digits@[i as int]) =~= seq!['-']
                    + digits@.take(i + 1));
            }
            i = i + 1;
        }
        proof {
            assert(digits@.take(digits@.len() as int) =~= digits@);
        }
        string_from_chars(&all)
    }
}

} // verus!
