//! Spans of time, and the text form in which the time already spent on a
//! game is saved.

use vstd::prelude::*;
use crate::text::{decimal, push_char, push_decimal, str_chars, parse_u64, parse_u32, unsigned_text_value, lemma_decimal_digits, is_digit, parse_error_text};

verus! {

broadcast use vstd::seq_lib::group_seq_properties;

pub const NANOS_PER_SECOND: u32 = 1_000_000_000;

/// A span of time as whole seconds and the nanoseconds beyond them, as
/// `std::time::Duration` holds it.
#[derive(Copy, Clone, Debug, PartialEq, Eq, Structural)]
pub struct TimeSpan {
    pub secs: u64,
    pub nanos: u32,
}

impl TimeSpan {
    /// The span of `secs` seconds and `nanos` nanoseconds; nanoseconds of a
    /// whole second or more are carried into the seconds (as `Duration::new`
    /// does).
    pub fn new(secs: u64, nanos: u32) -> (r: Self)
        requires
            secs + nanos / 1_000_000_000 <= u64::MAX,
        ensures
            r.secs == secs + nanos / 1_000_000_000,
            r.nanos == nanos % 1_000_000_000,
    {
        TimeSpan { secs: secs + (nanos / NANOS_PER_SECOND) as u64, nanos: nanos % NANOS_PER_SECOND }
    }

    /// The empty span.
    pub open spec fn spec_zero() -> Self {
        TimeSpan { secs: 0, nanos: 0 }
    }

    /// The empty span.
    pub fn zero() -> (r: Self)
        ensures
            r == Self::spec_zero(),
    {
        TimeSpan { secs: 0, nanos: 0 }
    }
}

/// Why a saved span of time could not be read.
#[derive(Debug)]
pub enum DurationSerError {
    CantFindSeparator,
    EmptySeconds,
    EmptyNanos,
    ErrorParsingSeconds(std::num::ParseIntError),
    ErrorParsingNanos(std::num::ParseIntError),
}

impl DurationSerError {
    /// A sentence that says what is wrong; for a number that could not be
    /// read, the parse error's own text follows the part shown here.
    pub fn message(&self) -> (r: String)
        ensures
            *self matches DurationSerError::CantFindSeparator ==> r@ == "Unable to find separator '-'"@,
            *self matches DurationSerError::EmptySeconds ==> r@ == "Seconds part was empty"@,
            *self matches DurationSerError::EmptyNanos ==> r@ == "Sub-second nanoseconds part was empty"@,
            *self matches DurationSerError::ErrorParsingSeconds(_) ==> r@.len() >= "Error parsing seconds: "@.len()
                && r@.take("Error parsing seconds: "@.len() as int) == "Error parsing seconds: "@,
            *self matches DurationSerError::ErrorParsingNanos(_) ==> r@.len() >= "Error parsing sub-second nanoseconds: "@.len()
                && r@.take("Error parsing sub-second nanoseconds: "@.len() as int) == "Error parsing sub-second nanoseconds: "@,
    {
        match self {
            DurationSerError::CantFindSeparator => "Unable to find separator '-'".to_owned(),
            DurationSerError::EmptySeconds => "Seconds part was empty".to_owned(),
            DurationSerError::EmptyNanos => "Sub-second nanoseconds part was empty".to_owned(),
            DurationSerError::ErrorParsingSeconds(e) => {
                let mut r = "Error parsing seconds: ".to_owned();
                let t = parse_error_text(e);
                r.append(t.as_str());
                r
            },
            DurationSerError::ErrorParsingNanos(e) => {
                let mut r = "Error parsing sub-second nanoseconds: ".to_owned();
                let t = parse_error_text(e);
                r.append(t.as_str());
                r
            },
        }
    }

    /// The parse error behind this one, if a number could not be read.
    pub fn source(&self) -> (r: Option<&std::num::ParseIntError>)
        ensures
            r is Some <==> (*self matches DurationSerError::ErrorParsingSeconds(_)
                || *self matches DurationSerError::ErrorParsingNanos(_)),
            *self matches DurationSerError::ErrorParsingSeconds(e) ==> r == Some(&e),
            *self matches DurationSerError::ErrorParsingNanos(e) ==> r == Some(&e),
    {
        match self {
            DurationSerError::ErrorParsingSeconds(e) => Some(e),
            DurationSerError::ErrorParsingNanos(e) => Some(e),
            _ => None,
        }
    }
}

/// The character between the seconds and the nanoseconds.
pub open spec fn separator() -> char {
    '-'
}

/// The text form of a span: the seconds, `-`, and the nanoseconds, in base ten.
pub open spec fn extra_time_text(t: TimeSpan) -> Seq<char> {
    decimal(t.secs as nat) + seq![separator()] + decimal(t.nanos as nat)
}

/// Where `c` first occurs in `s`.
pub open spec fn first_index_of(s: Seq<char>, c: char) -> Option<int>
    decreases s.len(),
{
    if s.len() == 0 {
        None
    } else if s[0] == c {
        Some(0)
    } else {
        match first_index_of(s.drop_first(), c) {
            Some(k) => Some(k + 1),
            None => None,
        }
    }
}

/// What reading a span back from text gives.
pub enum ExtraTimeRead {
    Read { secs: u64, nanos: u32 },
    NoSeparator,
    NoSeconds,
    BadSeconds,
    NoNanos,
    BadNanos,
}

/// How `s` reads as a span: the text before the first `-` must be seconds
/// and the text after it nanoseconds, each as `str::parse` takes an unsigned
/// number of its size.
pub open spec fn read_extra_time(s: Seq<char>) -> ExtraTimeRead {
    match first_index_of(s, separator()) {
        None => ExtraTimeRead::NoSeparator,
        Some(k) => {
            let secs = s.take(k);
            let nanos = s.skip(k + 1);
            if secs.len() == 0 {
                ExtraTimeRead::NoSeconds
            } else if !(unsigned_text_value(secs) matches Some(v) && v <= u64::MAX) {
                ExtraTimeRead::BadSeconds
            } else if nanos.len() == 0 {
                ExtraTimeRead::NoNanos
            } else if !(unsigned_text_value(nanos) matches Some(v) && v <= u32::MAX) {
                ExtraTimeRead::BadNanos
            } else {
                ExtraTimeRead::Read {
                    secs: unsigned_text_value(secs)->Some_0 as u64,
                    nanos: unsigned_text_value(nanos)->Some_0 as u32,
                }
            }
        },
    }
}

/// A span that reads back from `s` does not overflow when its nanoseconds
/// are carried into its seconds.
pub open spec fn extra_time_fits(s: Seq<char>) -> bool {
    read_extra_time(s) matches ExtraTimeRead::Read { secs, nanos } ==> secs + nanos
        / 1_000_000_000 <= u64::MAX
}

/// The result of reading a span agrees with `read`.
pub open spec fn extra_time_result(r: Result<TimeSpan, DurationSerError>, read: ExtraTimeRead) -> bool {
    match read {
        ExtraTimeRead::Read { secs, nanos } => r matches Ok(t) && t.secs == secs + nanos
            / 1_000_000_000 && t.nanos == nanos % 1_000_000_000,
        ExtraTimeRead::NoSeparator => r matches Err(DurationSerError::CantFindSeparator),
        ExtraTimeRead::NoSeconds => r matches Err(DurationSerError::EmptySeconds),
        ExtraTimeRead::BadSeconds => r matches Err(DurationSerError::ErrorParsingSeconds(_)),
        ExtraTimeRead::NoNanos => r matches Err(DurationSerError::EmptyNanos),
        ExtraTimeRead::BadNanos => r matches Err(DurationSerError::ErrorParsingNanos(_)),
    }
}

/// Writes a span as its seconds, `-`, and its nanoseconds.
pub fn serialise_extra_time(extra_time: TimeSpan) -> (r: String)
    ensures
        r@ == extra_time_text(extra_time),
{
    let mut out = String::new();
    push_decimal(&mut out, extra_time.secs);
    push_char(&mut out, '-');
    push_decimal(&mut out, extra_time.nanos as u64);
    out
}

/// The characters `chars[from..to]` as a string.
fn substring(chars: &Vec<char>, from: usize, to: usize) -> (r: String)
    requires
        from <= to <= chars@.len(),
    ensures
        r@ == chars@.subrange(from as int, to as int),
{
    let mut out = String::new();
    let mut i = from;
    while i < to
        invariant
            from <= i <= to,
            to <= chars@.len(),
            out@ == chars@.subrange(from as int, i as int),
        decreases to - i,
    {
        push_char(&mut out, chars[i]);
        proof {
            assert(chars@.subrange(from as int, i + 1) =~= chars@.subrange(from as int, i as int).push(chars@[i as int]));
        }
        i = i + 1;
    }
    out
}

/// Where `c` first occurs in `chars`.
fn find_char(chars: &Vec<char>, c: char) -> (r: Option<usize>)
    ensures
        r matches Some(k) ==> first_index_of(chars@, c) == Some(k as int) && k < chars@.len(),
        r is None ==> first_index_of(chars@, c) is None,
{
    let mut i: usize = 0;
    while i < chars.len()
        invariant
            i <= chars@.len(),
            forall|j: int| 0 <= j < i ==> chars@[j] != c,
        decreases chars@.len() - i,
    {
        if chars[i] == c {
            proof {
                lemma_first_index_of(chars@, c, i as int);
            }
            return Some(i);
        }
        i = i + 1;
    }
    proof {
        lemma_first_index_of(chars@, c, chars@.len() as int);
    }
    None
}

/// `first_index_of` finds the first occurrence.
proof fn lemma_first_index_of(s: Seq<char>, c: char, k: int)
    requires
        0 <= k <= s.len(),
        forall|j: int| 0 <= j < k ==> s[j] != c,
    ensures
        k < s.len() && s[k] == c ==> first_index_of(s, c) == Some(k),
        k == s.len() ==> first_index_of(s, c) is None,
    decreases s.len(),
{
    if s.len() > 0 && k > 0 {
        lemma_first_index_of(s.drop_first(), c, k - 1);
    }
}

/// The seconds and nanoseconds that `sered` holds, before any carry; the
/// text before the first `-` holds the seconds and the text after it the
/// nanoseconds.
fn read_parts(sered: &str) -> (r: Result<(u64, u32), DurationSerError>)
    ensures
        match read_extra_time(sered@) {
            ExtraTimeRead::Read { secs, nanos } => r == Ok::<(u64, u32), DurationSerError>((secs, nanos)),
            ExtraTimeRead::NoSeparator => r matches Err(DurationSerError::CantFindSeparator),
            ExtraTimeRead::NoSeconds => r matches Err(DurationSerError::EmptySeconds),
            ExtraTimeRead::BadSeconds => r matches Err(DurationSerError::ErrorParsingSeconds(_)),
            ExtraTimeRead::NoNanos => r matches Err(DurationSerError::EmptyNanos),
            ExtraTimeRead::BadNanos => r matches Err(DurationSerError::ErrorParsingNanos(_)),
        },
{
    let chars = str_chars(sered);
    let sep_index = match find_char(&chars, '-') {
        Some(k) => k,
        None => return Err(DurationSerError::CantFindSeparator),
    };
    let secs = substring(&chars, 0, sep_index);
    let nanos = substring(&chars, sep_index + 1, chars.len());
    proof {
        assert(secs@ =~= sered@.take(sep_index as int));
        assert(nanos@ =~= sered@.skip(sep_index + 1));
    }
    if sep_index == 0 {
        return Err(DurationSerError::EmptySeconds);
    }
    let secs = match parse_u64(secs.as_str()) {
        Ok(v) => v,
        Err(e) => return Err(DurationSerError::ErrorParsingSeconds(e)),
    };
    if sep_index + 1 == chars.len() {
        return Err(DurationSerError::EmptyNanos);
    }
    let nanos = match parse_u32(nanos.as_str()) {
        Ok(v) => v,
        Err(e) => return Err(DurationSerError::ErrorParsingNanos(e)),
    };
    Ok((secs, nanos))
}

/// Reads a span written by `serialise_extra_time`; the text before the first
/// `-` holds the seconds and the text after it the nanoseconds.
pub fn deserialise_extra_time(sered: &str) -> (r: Result<TimeSpan, DurationSerError>)
    requires
        extra_time_fits(sered@),
    ensures
        extra_time_result(r, read_extra_time(sered@)),
{
    match read_parts(sered) {
        Ok((secs, nanos)) => Ok(TimeSpan::new(secs, nanos)),
        Err(e) => Err(e),
    }
}

/// Whether reading `sered` back stays clear of the overflow that
/// `deserialise_extra_time` rules out: whether `extra_time_fits` holds.
pub fn extra_time_fits_text(sered: &str) -> (r: bool)
    ensures
        r == extra_time_fits(sered@),
{
    match read_parts(sered) {
        Ok((secs, nanos)) => secs.checked_add((nanos / NANOS_PER_SECOND) as u64).is_some(),
        Err(_) => true,
    }
}

/// Reading back the text of a span gives the span again, for every span whose
/// nanoseconds are below a second (as those of a `Duration` are).
pub proof fn law_extra_time_round_trip(t: TimeSpan)
    requires
        t.nanos < 1_000_000_000,
    ensures
        read_extra_time(extra_time_text(t)) == (ExtraTimeRead::Read { secs: t.secs, nanos: t.nanos }),
        extra_time_fits(extra_time_text(t)),
{
    let a = decimal(t.secs as nat);
    let b = decimal(t.nanos as nat);
    let s = extra_time_text(t);
    lemma_decimal_digits(t.secs as nat);
    lemma_decimal_digits(t.nanos as nat);
    assert forall|j: int| 0 <= j < a.len() implies s[j] != separator() by {
        assert(s[j] == a[j]);
        assert(is_digit(a[j]));
    }
    lemma_first_index_of(s, separator(), a.len() as int);
    assert(s.take(a.len() as int) =~= a);
    assert(s.skip(a.len() as int + 1) =~= b);
    assert(a[0] != '+') by {
        assert(is_digit(a[0]));
    }
    assert(b[0] != '+') by {
        assert(is_digit(b[0]));
    }
}

} // verus!
