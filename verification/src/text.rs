//! Decimal numbers written as text, and the few operations on strings the
//! save formats need.

use vstd::prelude::*;

verus! {

broadcast use vstd::seq_lib::group_seq_properties;

/// The error `str::parse` gives for text that is not an integer of the type.
#[verifier::external_type_specification]
#[verifier::external_body]
pub struct ExParseIntError(std::num::ParseIntError);

/// `c` is one of the ASCII digits `0` to `9`.
pub open spec fn is_digit(c: char) -> bool {
    '0' <= c <= '9'
}

/// Every character of `s` is a digit.
pub open spec fn all_digits(s: Seq<char>) -> bool {
    forall|i: int| 0 <= i < s.len() ==> is_digit(#[trigger] s[i])
}

/// The value of a digit character.
pub open spec fn digit_value(c: char) -> nat {
    (c as int - '0' as int) as nat
}

/// The digit character of a value below ten.
pub open spec fn digit_char(v: nat) -> char {
    (v + '0' as int) as char
}

/// The number that a string of digits spells in base ten (0 for no digits).
pub open spec fn digits_value(s: Seq<char>) -> nat
    decreases s.len(),
{
    if s.len() == 0 {
        0
    } else {
        digits_value(s.drop_last()) * 10 + digit_value(s.last())
    }
}

/// `n` written in base ten, without leading zeros.
pub open spec fn decimal(n: nat) -> Seq<char>
    decreases n,
{
    if n < 10 {
        seq![digit_char(n)]
    } else {
        decimal(n / 10).push(digit_char(n % 10))
    }
}

/// What `str::parse` makes of `s` as an unsigned integer when no size limit
/// applies: an optional `+` followed by at least one digit, and nothing else.
pub open spec fn unsigned_text_value(s: Seq<char>) -> Option<nat> {
    let body = if s.len() > 0 && s[0] == '+' {
        s.drop_first()
    } else {
        s
    };
    if body.len() > 0 && all_digits(body) {
        Some(digits_value(body))
    } else {
        None
    }
}

pub proof fn lemma_decimal_digits(n: nat)
    ensures
        decimal(n).len() > 0,
        all_digits(decimal(n)),
        digits_value(decimal(n)) == n,
    decreases n,
{
    lemma_digit_char(n % 10);
    if n < 10 {
        assert(n % 10 == n);
        assert(decimal(n).drop_last() =~= Seq::<char>::empty());
        assert(digits_value(Seq::<char>::empty()) == 0);
        assert(digits_value(decimal(n)) == digits_value(decimal(n).drop_last()) * 10 + digit_value(decimal(n).last()));
    } else {
        lemma_digit_char(n % 10);
        lemma_decimal_digits(n / 10);
        let s = decimal(n);
        assert(s.drop_last() =~= decimal(n / 10));
        assert(digits_value(s) == digits_value(s.drop_last()) * 10 + digit_value(s.last()));
        assert((n / 10) * 10 + n % 10 == n);
        assert forall|i: int| 0 <= i < s.len() implies is_digit(#[trigger] s[i]) by {
            if i < s.len() - 1 {
                assert(s[i] == decimal(n / 10)[i]);
            }
        }
    }
}

pub proof fn lemma_digit_char(v: nat)
    requires
        v < 10,
    ensures
        digit_value(digit_char(v)) == v,
        is_digit(digit_char(v)),
{
    assert(digit_char(v) as int == v + 48);
}

/// Adds `c` at the end of `s` (`String::push`).
#[verifier::external_body]
pub(crate) fn push_char(s: &mut String, c: char)
    ensures
        final(s)@ == old(s)@.push(c),
{
    s.push(c)
}

/// The characters of `s`, in order.
pub(crate) fn str_chars(s: &str) -> (r: Vec<char>)
    ensures
        r@ == s@,
{
    broadcast use vstd::string::axiom_spec_iter;
    let mut out: Vec<char> = Vec::new();
    for c in it: s.chars()
        invariant
            out@ == it.seq().take(it.index() as int),
    {
        out.push(c);
    }
    assert(out@ =~= s@);
    out
}

/// `str::parse::<usize>`. As its documentation says, the text must be an
/// optional `+` followed by digits only, of a value that fits.
#[verifier::external_body]
pub(crate) fn parse_usize(s: &str) -> (r: Result<usize, std::num::ParseIntError>)
    ensures
        r is Ok <==> (unsigned_text_value(s@) matches Some(v) && v <= usize::MAX),
        r matches Ok(v) ==> unsigned_text_value(s@) == Some(v as nat),
{
    s.parse::<usize>()
}

/// `str::parse::<u64>`, with the same rules as `parse_usize`.
#[verifier::external_body]
pub(crate) fn parse_u64(s: &str) -> (r: Result<u64, std::num::ParseIntError>)
    ensures
        r is Ok <==> (unsigned_text_value(s@) matches Some(v) && v <= u64::MAX),
        r matches Ok(v) ==> unsigned_text_value(s@) == Some(v as nat),
{
    s.parse::<u64>()
}

/// `str::parse::<u32>`, with the same rules as `parse_usize`.
#[verifier::external_body]
pub(crate) fn parse_u32(s: &str) -> (r: Result<u32, std::num::ParseIntError>)
    ensures
        r is Ok <==> (unsigned_text_value(s@) matches Some(v) && v <= u32::MAX),
        r matches Ok(v) ==> unsigned_text_value(s@) == Some(v as nat),
{
    s.parse::<u32>()
}

/// Whether `c` is an ASCII digit.
pub fn char_is_digit(c: char) -> (r: bool)
    ensures
        r == is_digit(c),
{
    '0' <= c && c <= '9'
}

/// Appends `n` in base ten to `s`.
pub fn push_decimal(s: &mut String, n: u64)
    ensures
        final(s)@ == old(s)@ + decimal(n as nat),
{
    let mut rev: Vec<char> = Vec::new();
    let mut m: u64 = n;
    // the digits still to write, most significant first, then those in `rev` reversed
    while m >= 10
        invariant
            decimal(n as nat) == decimal(m as nat) + rev@.reverse(),
        decreases m,
    {
        let d = m % 10;
        let c = digit_to_char(d);
        proof {
            assert(decimal(m as nat) == decimal((m / 10) as nat).push(digit_char((m % 10) as nat)));
            assert(rev@.push(c).reverse() =~= seq![c] + rev@.reverse());
            assert(decimal(m as nat) + rev@.reverse() =~= decimal((m / 10) as nat) + rev@.push(c).reverse());
        }
        rev.push(c);
        m = m / 10;
    }
    let c = digit_to_char(m);
    proof {
        assert(rev@.push(c).reverse() =~= seq![c] + rev@.reverse());
        assert(decimal(n as nat) =~= rev@.push(c).reverse());
    }
    rev.push(c);
    let ghost full = rev@.reverse();
    let ghost base = s@;
    let mut k: usize = rev.len();
    while k > 0
        invariant
            k <= rev@.len(),
            full == rev@.reverse(),
            s@ == base + full.subrange(0, rev@.len() - k),
        decreases k,
    {
        k = k - 1;
        push_char(s, rev[k]);
        proof {
            assert(full[rev@.len() - 1 - k] == rev@[k as int]);
            assert(full.subrange(0, rev@.len() - k) =~= full.subrange(0, rev@.len() - 1 - k).push(rev@[k as int]));
        }
    }
    assert(full.subrange(0, rev@.len() as int) =~= full);
}

/// The digit character of `d`, which is below ten.
fn digit_to_char(d: u64) -> (r: char)
    requires
        d < 10,
    ensures
        r == digit_char(d as nat),
{
    match d {
        0 => '0',
        1 => '1',
        2 => '2',
        3 => '3',
        4 => '4',
        5 => '5',
        6 => '6',
        7 => '7',
        8 => '8',
        _ => '9',
    }
}


/// The text of an integer parse error, as its `Display` writes it
/// (`ParseIntError::to_string`). Nothing is stated of it: it depends on the
/// error's kind, which stays inside the error.
#[verifier::external_body]
pub(crate) fn parse_error_text(e: &std::num::ParseIntError) -> String {
    e.to_string()
}

/// The numbers of `v` in base ten, separated by a comma and a space.
pub open spec fn joined_decimals(v: Seq<usize>) -> Seq<char>
    decreases v.len(),
{
    if v.len() == 0 {
        Seq::empty()
    } else if v.len() == 1 {
        decimal(v[0] as nat)
    } else {
        joined_decimals(v.drop_last()) + seq![',', ' '] + decimal(v.last() as nat)
    }
}

/// The `Debug` form of a list of numbers: the numbers in base ten between
/// square brackets, separated by a comma and a space.
pub open spec fn list_debug_text(v: Seq<usize>) -> Seq<char> {
    seq!['['] + joined_decimals(v) + seq![']']
}

/// Writes the `Debug` form of a list of numbers.
pub(crate) fn list_debug(v: &Vec<usize>) -> (r: String)
    ensures
        r@ == list_debug_text(v@),
{
    let mut out = String::new();
    push_char(&mut out, '[');
    let mut i: usize = 0;
    while i < v.len()
        invariant
            i <= v@.len(),
            out@ == seq!['['] + joined_decimals(v@.take(i as int)),
        decreases v@.len() - i,
    {
        if i > 0 {
            push_char(&mut out, ',');
            push_char(&mut out, ' ');
        }
        push_decimal(&mut out, v[i] as u64);
        proof {
            let t = v@.take(i + 1);
            assert(t.drop_last() =~= v@.take(i as int));
            assert(t.last() == v@[i as int]);
            if i == 0 {
                assert(t.len() == 1);
            }
        }
        i = i + 1;
    }
    assert(v@.take(v@.len() as int) =~= v@);
    push_char(&mut out, ']');
    out
}

/// What the `Debug` form of a character reads (`format!("{:?}")` on a
/// `char`): the character quoted, with escapes.
pub uninterp spec fn char_debug_text(c: char) -> Seq<char>;

/// The `Debug` form of a character.
#[verifier::external_body]
pub(crate) fn char_debug(c: char) -> (r: String)
    ensures
        r@ == char_debug_text(c),
{
    format!("{c:?}")
}

} // verus!
