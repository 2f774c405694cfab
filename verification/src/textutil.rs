//! Low-level verified string building blocks shared by the codec, the
//! escaper and the document compiler: appending a single character to a
//! `String`, decimal rendering of small integers, and trailing-whitespace
//! trimming over a fixed whitespace set.

use vstd::prelude::*;
use vstd::string::StrSliceExecFns;
use vstd::string::StringExecFns;

verus! {

/// Relies on String::push: appends the given char to the end of the String.
#[verifier::external_body]
pub fn push_char(s: &mut String, c: char)
    ensures
        final(s)@ == old(s)@ + seq![c],
{
    s.push(c);
}

/// Append a `&str` onto a `String`; thin verified wrapper over
/// `String::append` so callers get a uniform vocabulary.
pub fn push_str(s: &mut String, t: &str)
    ensures
        final(s)@ == old(s)@ + t@,
{
    s.append(t);
}

/// The decimal digit character for a value below ten.
pub open spec fn digit_char(n: nat) -> char {
    if n == 0 {
        '0'
    } else if n == 1 {
        '1'
    } else if n == 2 {
        '2'
    } else if n == 3 {
        '3'
    } else if n == 4 {
        '4'
    } else if n == 5 {
        '5'
    } else if n == 6 {
        '6'
    } else if n == 7 {
        '7'
    } else if n == 8 {
        '8'
    } else {
        '9'
    }
}

/// Decimal rendering of a natural number, most significant digit first.
#[verifier::opaque]
pub open spec fn dec_of(n: nat) -> Seq<char>
    decreases n,
{
    if n < 10 {
        seq![digit_char(n)]
    } else {
        dec_of(n / 10) + seq![digit_char(n % 10)]
    }
}

fn digit_exec(n: u8) -> (c: char)
    requires
        n < 10,
    ensures
        c == digit_char(n as nat),
{
    match n {
        0 => '0',
        1 => '1',
        2 => '2',
        3 => '3',
        4 => '4',
        5 => '5',
        6 => '6',
        7 => '7',
        8 => '8',
        _ => '9',
    }
}

/// Append the decimal rendering of `n` onto `out`.
pub fn push_dec_u8(out: &mut String, n: u8)
    ensures
        final(out)@ == old(out)@ + dec_of(n as nat),
    decreases n,
{
    proof {
        reveal_with_fuel(dec_of, 2);
    }
    if n < 10 {
        let c = digit_exec(n);
        push_char(out, c);
    } else {
        push_dec_u8(out, n / 10);
        let c = digit_exec(n % 10);
        push_char(out, c);
        proof {
            assert(out@ =~= old(out)@ + dec_of(n as nat));
        }
    }
}

/// The decimal rendering of a `u8` as a fresh string.
pub fn u8_to_string(n: u8) -> (r: String)
    ensures
        r@ == dec_of(n as nat),
{
    let mut out = String::new();
    push_dec_u8(&mut out, n);
    proof {
        assert(out@ =~= dec_of(n as nat));
    }
    out
}

/// The text a `bool` renders as.
#[verifier::opaque]
pub open spec fn bool_text(b: bool) -> Seq<char> {
    if b {
        "true"@
    } else {
        "false"@
    }
}

/// Append "true" or "false" onto `out`.
pub fn push_bool(out: &mut String, b: bool)
    ensures
        final(out)@ == old(out)@ + bool_text(b),
{
    proof {
        reveal(bool_text);
    }
    if b {
        push_str(out, "true");
    } else {
        push_str(out, "false");
    }
}

/// The whitespace characters this library trims and blanks on.
pub open spec fn is_ws(c: char) -> bool {
    c == ' ' || c == '\t' || c == '\r' || c == '\n'
}

/// Length of `s` once trailing whitespace is dropped.
pub open spec fn trimmed_end_len(s: Seq<char>) -> nat
    decreases s.len(),
{
    if s.len() == 0 {
        0
    } else if is_ws(s[s.len() - 1]) {
        trimmed_end_len(s.drop_last())
    } else {
        s.len()
    }
}

/// `s` with trailing whitespace dropped.
pub open spec fn trim_end(s: Seq<char>) -> Seq<char> {
    s.take(trimmed_end_len(s) as int)
}

pub proof fn lemma_trimmed_end_len_le(s: Seq<char>)
    ensures
        trimmed_end_len(s) <= s.len(),
    decreases s.len(),
{
    if s.len() > 0 && is_ws(s[s.len() - 1]) {
        lemma_trimmed_end_len_le(s.drop_last());
    }
}

/// A whitespace-only tail preceded by a non-whitespace character (or
/// nothing) pins the trimmed length down.
pub proof fn lemma_trimmed_end_len_is(s: Seq<char>, m: int)
    requires
        0 <= m <= s.len(),
        forall|q: int| m <= q < s.len() ==> is_ws(s[q]),
        m > 0 ==> !is_ws(s[m - 1]),
    ensures
        trimmed_end_len(s) == m,
    decreases s.len(),
{
    if s.len() > 0 {
        if is_ws(s[s.len() - 1]) {
            lemma_trimmed_end_len_is(s.drop_last(), if m < s.len() {
                m
            } else {
                s.len() - 1
            });
        }
    }
}

/// A sequence that does not end in whitespace trims to itself.
pub proof fn lemma_trim_end_noop(s: Seq<char>)
    requires
        s.len() == 0 || !is_ws(s[s.len() - 1]),
    ensures
        trim_end(s) == s,
{
    assert(trim_end(s) =~= s);
}

} // verus!
