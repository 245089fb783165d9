//! Small string-building helpers: appending one character, and rendering a
//! number in decimal.  The decimal rendering is injective, which lets the
//! room-service model mint distinct room identifiers from a counter.

use vstd::prelude::*;

verus! {

/// Relies on String::push: appends exactly the given character.
#[verifier::external_body]
pub fn push_char(s: &mut String, c: char)
    ensures
        final(s)@ == old(s)@.push(c),
{
    s.push(c);
}

/// The decimal digit character for a value below ten.
pub open spec fn spec_digit(n: int) -> char {
    if n == 0 {
        '0'
    } else if n == 1 {
        '1'
    } else if n == 2 {
        '2'
    } else if n == 3 {
        '3'
    } else if n == 4 {
        '4'
    } else if n == 5 {
        '5'
    } else if n == 6 {
        '6'
    } else if n == 7 {
        '7'
    } else if n == 8 {
        '8'
    } else {
        '9'
    }
}

/// The decimal rendering of a non-negative number, most significant digit
/// first.
pub open spec fn spec_decimal(n: int) -> Seq<char>
    decreases n,
{
    if n < 10 {
        seq![spec_digit(n)]
    } else {
        spec_decimal(n / 10).push(spec_digit(n % 10))
    }
}

pub proof fn lemma_decimal_len(n: int)
    requires
        0 <= n,
    ensures
        spec_decimal(n).len() >= 1,
        n < 10 <==> spec_decimal(n).len() == 1,
    decreases n,
{
    if n >= 10 {
        lemma_decimal_len(n / 10);
    }
}

/// Distinct numbers render as distinct digit strings.
pub proof fn lemma_decimal_injective(a: int, b: int)
    requires
        0 <= a,
        0 <= b,
        spec_decimal(a) == spec_decimal(b),
    ensures
        a == b,
    decreases a,
{
    lemma_decimal_len(a);
    lemma_decimal_len(b);
    if a < 10 && b < 10 {
        assert(spec_decimal(a) == seq![spec_digit(a)]);
        assert(spec_decimal(b) == seq![spec_digit(b)]);
        assert(seq![spec_digit(a)][0] == seq![spec_digit(b)][0]);
        assert(spec_digit(a) == spec_digit(b));
        if a != b {
            assert(false);
        }
    } else if a >= 10 && b >= 10 {
        assert(spec_decimal(a) == spec_decimal(a / 10).push(spec_digit(a % 10)));
        assert(spec_decimal(b) == spec_decimal(b / 10).push(spec_digit(b % 10)));
        assert(spec_decimal(a).last() == spec_digit(a % 10));
        assert(spec_decimal(b).last() == spec_digit(b % 10));
        assert(spec_digit(a % 10) == spec_digit(b % 10));
        if a % 10 != b % 10 {
            assert(false);
        }
        assert(spec_decimal(a / 10) =~= spec_decimal(a).drop_last());
        assert(spec_decimal(b / 10) =~= spec_decimal(b).drop_last());
        lemma_decimal_injective(a / 10, b / 10);
        assert(a == 10 * (a / 10) + a % 10);
        assert(b == 10 * (b / 10) + b % 10);
    } else {
        assert(false);
    }
}

fn digit_char(d: u32) -> (c: char)
    requires
        d < 10,
    ensures
        c == spec_digit(d as int),
{
    if d == 0 {
        '0'
    } else if d == 1 {
        '1'
    } else if d == 2 {
        '2'
    } else if d == 3 {
        '3'
    } else if d == 4 {
        '4'
    } else if d == 5 {
        '5'
    } else if d == 6 {
        '6'
    } else if d == 7 {
        '7'
    } else if d == 8 {
        '8'
    } else {
        '9'
    }
}

/// Render a number in decimal.
pub fn u32_to_decimal(n: u32) -> (s: String)
    ensures
        s@ == spec_decimal(n as int),
    decreases n,
{
    if n < 10 {
        let mut s = String::new();
        push_char(&mut s, digit_char(n));
        assert(s@ =~= spec_decimal(n as int));
        s
    } else {
        let mut s = u32_to_decimal(n / 10);
        push_char(&mut s, digit_char(n % 10));
        assert(s@ =~= spec_decimal(n as int));
        s
    }
}

} // verus!
