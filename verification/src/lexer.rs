//! Runs of bytes of one class, and the scanners that find them.

use vstd::prelude::*;
use vstd::slice::slice_subrange;

verus! {

/// `(`
pub const OPEN: u8 = 0x28;

/// `)`
pub const CLOSE: u8 = 0x29;

/// `+`
pub const PLUS: u8 = 0x2B;

/// `-`
pub const MINUS: u8 = 0x2D;

/// `*`
pub const STAR: u8 = 0x2A;

/// `/`
pub const SLASH: u8 = 0x2F;

/// `=`
pub const EQUALS: u8 = 0x3D;

/// `_`
pub const UNDERSCORE: u8 = 0x5F;

/// `t`
pub const LOWER_T: u8 = 0x74;

/// `f`
pub const LOWER_F: u8 = 0x66;

/// `n`
pub const LOWER_N: u8 = 0x6E;

/// `o`
pub const LOWER_O: u8 = 0x6F;

/// `d`
pub const LOWER_D: u8 = 0x64;

/// `e`
pub const LOWER_E: u8 = 0x65;

/// `i`
pub const LOWER_I: u8 = 0x69;

/// `0`
pub const DIGIT_0: u8 = 0x30;

/// `9`
pub const DIGIT_9: u8 = 0x39;

/// `A`
pub const UPPER_A: u8 = 0x41;

/// `Z`
pub const UPPER_Z: u8 = 0x5A;

/// `a`
pub const LOWER_A: u8 = 0x61;

/// `z`
pub const LOWER_Z: u8 = 0x7A;

/// A space.
pub const SPACE: u8 = 0x20;

/// A tab.
pub const TAB: u8 = 0x09;

/// A carriage return.
pub const CARRIAGE_RETURN: u8 = 0x0D;

/// A line feed.
pub const LINE_FEED: u8 = 0x0A;

/// The classes of bytes that the grammar tells apart.
pub ghost enum ByteClass {
    /// `0` to `9`.
    Digit,
    /// `A` to `Z` and `a` to `z`.
    Alpha,
    /// A digit or a letter.
    Alphanumeric,
    /// Space, tab, carriage return or line feed.
    Space,
    /// A digit, a letter or `_`: what a name is made of.
    Identifier,
}

/// Whether `b` is a decimal digit.
pub open spec fn is_digit(b: u8) -> bool {
    DIGIT_0 <= b <= DIGIT_9
}

/// Whether `b` is an ASCII letter.
pub open spec fn is_alpha(b: u8) -> bool {
    (UPPER_A <= b <= UPPER_Z) || (LOWER_A <= b <= LOWER_Z)
}

/// Whether `b` is whitespace.
pub open spec fn is_space(b: u8) -> bool {
    b == SPACE || b == TAB || b == CARRIAGE_RETURN || b == LINE_FEED
}

/// Whether `b` belongs to `class`.
pub open spec fn in_class(class: ByteClass, b: u8) -> bool {
    match class {
        ByteClass::Digit => is_digit(b),
        ByteClass::Alpha => is_alpha(b),
        ByteClass::Alphanumeric => is_alpha(b) || is_digit(b),
        ByteClass::Space => is_space(b),
        ByteClass::Identifier => is_alpha(b) || is_digit(b) || b == UNDERSCORE,
    }
}

/// The length of the longest run of bytes of `class` that starts at `pos`.
pub open spec fn run_len(class: ByteClass, s: Seq<u8>, pos: int) -> nat
    decreases s.len() - pos,
{
    if 0 <= pos < s.len() && in_class(class, s[pos]) {
        1 + run_len(class, s, pos + 1)
    } else {
        0
    }
}

/// The length of the run at the start of `s`, where there is one.
pub open spec fn leading_run(class: ByteClass, s: Seq<u8>) -> Option<usize> {
    if run_len(class, s, 0) > 0 {
        Some(run_len(class, s, 0) as usize)
    } else {
        None
    }
}

/// A run stays inside the input, holds bytes of its class only, and ends
/// at the end of the input or before a byte of another class.
pub proof fn lemma_run(class: ByteClass, s: Seq<u8>, pos: int)
    requires
        0 <= pos <= s.len(),
    ensures
        pos + run_len(class, s, pos) <= s.len(),
        forall|j: int| pos <= j < pos + run_len(class, s, pos) ==> in_class(class, #[trigger] s[j]),
        pos + run_len(class, s, pos) < s.len() ==> !in_class(
            class,
            s[pos + run_len(class, s, pos)],
        ),
    decreases s.len() - pos,
{
    if pos < s.len() && in_class(class, s[pos]) {
        lemma_run(class, s, pos + 1);
    }
}

/// A stretch of bytes of `class` that ends at the end of the input or
/// before a byte of another class is the run at its start.
pub proof fn lemma_run_is(class: ByteClass, s: Seq<u8>, pos: int, end: int)
    requires
        0 <= pos <= end <= s.len(),
        forall|j: int| pos <= j < end ==> in_class(class, #[trigger] s[j]),
        end < s.len() ==> !in_class(class, s[end]),
    ensures
        run_len(class, s, pos) == end - pos,
    decreases end - pos,
{
    if pos < end {
        lemma_run_is(class, s, pos + 1, end);
    }
}

/// The run at `pos` is the run at the start of the input from `pos` on.
pub proof fn lemma_run_of_rest(class: ByteClass, s: Seq<u8>, pos: int)
    requires
        0 <= pos <= s.len(),
    ensures
        run_len(class, s.subrange(pos, s.len() as int), 0) == run_len(class, s, pos),
{
    let rest = s.subrange(pos, s.len() as int);
    lemma_run(class, s, pos);
    let n = run_len(class, s, pos) as int;
    lemma_run_is(class, rest, 0, n);
}

/// `nom::character::complete::digit1` on a byte slice. It succeeds where
/// the input begins with a byte from `0` to `9`, and then takes the longest
/// run of such bytes; the result is the length of what it took.
#[verifier::external_body]
fn digit1(input: &[u8]) -> (taken: Option<usize>)
    ensures
        taken == leading_run(ByteClass::Digit, input@),
{
    match nom::character::complete::digit1::<&[u8], nom::error::Error<&[u8]>>(input) {
        Ok((_, run)) => Some(run.len()),
        Err(_) => None,
    }
}

/// `nom::character::complete::alpha1` on a byte slice. It succeeds where
/// the input begins with an ASCII letter, and then takes the longest run of
/// such bytes; the result is the length of what it took.
#[verifier::external_body]
fn alpha1(input: &[u8]) -> (taken: Option<usize>)
    ensures
        taken == leading_run(ByteClass::Alpha, input@),
{
    match nom::character::complete::alpha1::<&[u8], nom::error::Error<&[u8]>>(input) {
        Ok((_, run)) => Some(run.len()),
        Err(_) => None,
    }
}

/// `nom::character::complete::alphanumeric1` on a byte slice. It succeeds
/// where the input begins with an ASCII letter or digit, and then takes the
/// longest run of such bytes; the result is the length of what it took.
#[verifier::external_body]
fn alphanumeric1(input: &[u8]) -> (taken: Option<usize>)
    ensures
        taken == leading_run(ByteClass::Alphanumeric, input@),
{
    match nom::character::complete::alphanumeric1::<&[u8], nom::error::Error<&[u8]>>(input) {
        Ok((_, run)) => Some(run.len()),
        Err(_) => None,
    }
}

/// `nom::character::complete::multispace0` on a byte slice. It takes the
/// longest run of spaces, tabs, carriage returns and line feeds at the
/// start of the input, which may be empty, and never fails; the result is
/// the length of what it took.
#[verifier::external_body]
fn multispace0(input: &[u8]) -> (taken: Option<usize>)
    ensures
        taken == Some(run_len(ByteClass::Space, input@, 0) as usize),
{
    match nom::character::complete::multispace0::<&[u8], nom::error::Error<&[u8]>>(input) {
        Ok((_, run)) => Some(run.len()),
        Err(_) => None,
    }
}

/// The end of the run of digits at `pos`, where there is one.
pub fn digits_at(input: &[u8], pos: usize) -> (end: Option<usize>)
    requires
        pos <= input.len(),
    ensures
        end is Some <==> run_len(ByteClass::Digit, input@, pos as int) > 0,
        end matches Some(e) ==> e == pos + run_len(ByteClass::Digit, input@, pos as int) && e
            <= input.len(),
{
    proof {
        lemma_run_of_rest(ByteClass::Digit, input@, pos as int);
        lemma_run(ByteClass::Digit, input@, pos as int);
    }
    match digit1(slice_subrange(input, pos, input.len())) {
        Some(n) => Some(pos + n),
        None => None,
    }
}

/// The end of the run of letters at `pos`, where there is one.
pub fn letters_at(input: &[u8], pos: usize) -> (end: Option<usize>)
    requires
        pos <= input.len(),
    ensures
        end is Some <==> run_len(ByteClass::Alpha, input@, pos as int) > 0,
        end matches Some(e) ==> e == pos + run_len(ByteClass::Alpha, input@, pos as int) && e
            <= input.len(),
{
    proof {
        lemma_run_of_rest(ByteClass::Alpha, input@, pos as int);
        lemma_run(ByteClass::Alpha, input@, pos as int);
    }
    match alpha1(slice_subrange(input, pos, input.len())) {
        Some(n) => Some(pos + n),
        None => None,
    }
}

/// The end of the run of letters and digits at `pos`, where there is one.
pub fn alphanumerics_at(input: &[u8], pos: usize) -> (end: Option<usize>)
    requires
        pos <= input.len(),
    ensures
        end is Some <==> run_len(ByteClass::Alphanumeric, input@, pos as int) > 0,
        end matches Some(e) ==> e == pos + run_len(ByteClass::Alphanumeric, input@, pos as int)
            && e <= input.len(),
{
    proof {
        lemma_run_of_rest(ByteClass::Alphanumeric, input@, pos as int);
        lemma_run(ByteClass::Alphanumeric, input@, pos as int);
    }
    match alphanumeric1(slice_subrange(input, pos, input.len())) {
        Some(n) => Some(pos + n),
        None => None,
    }
}

/// The position after the whitespace at `pos`, which may be `pos` itself.
pub fn skip_space(input: &[u8], pos: usize) -> (end: usize)
    requires
        pos <= input.len(),
    ensures
        end == pos + run_len(ByteClass::Space, input@, pos as int),
        end <= input.len(),
{
    proof {
        lemma_run_of_rest(ByteClass::Space, input@, pos as int);
        lemma_run(ByteClass::Space, input@, pos as int);
    }
    match multispace0(slice_subrange(input, pos, input.len())) {
        Some(n) => pos + n,
        None => pos,
    }
}

/// Whether the byte at `pos` is `b`.
pub open spec fn at(s: Seq<u8>, pos: int, b: u8) -> bool {
    0 <= pos < s.len() && s[pos] == b
}

/// Whether the byte at `pos` is `b`; false at the end of the input.
pub fn byte_at(input: &[u8], pos: usize, b: u8) -> (yes: bool)
    ensures
        yes == at(input@, pos as int, b),
{
    pos < input.len() && input[pos] == b
}

} // verus!
