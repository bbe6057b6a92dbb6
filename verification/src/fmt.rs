//! Formatting helpers: radix conversion with optional left padding, decimal
//! display and debug rendering, and chunked joining of text.
//!
//! Each function is meant to be passed directly as a mapping function over a
//! sequence of values, e.g. `iter.map(binary)`, instead of an inline closure
//! around a lower-level formatter.

use vstd::prelude::*;
use vstd::arithmetic::div_mod::lemma_div_is_strictly_smaller;
use vstd::string::StringExecFns;

verus! {

/// The character for a single digit value, `'a'..'f'` or `'A'..'F'` above nine.
pub open spec fn digit_char(d: nat, upper: bool) -> char {
    if d == 0 {
        '0'
    } else if d == 1 {
        '1'
    } else if d == 2 {
        '2'
    } else if d == 3 {
        '3'
    } else if d == 4 {
        '4'
    } else if d == 5 {
        '5'
    } else if d == 6 {
        '6'
    } else if d == 7 {
        '7'
    } else if d == 8 {
        '8'
    } else if d == 9 {
        '9'
    } else if d == 10 {
        if upper { 'A' } else { 'a' }
    } else if d == 11 {
        if upper { 'B' } else { 'b' }
    } else if d == 12 {
        if upper { 'C' } else { 'c' }
    } else if d == 13 {
        if upper { 'D' } else { 'd' }
    } else if d == 14 {
        if upper { 'E' } else { 'e' }
    } else {
        if upper { 'F' } else { 'f' }
    }
}

/// The digits of `n` written in base `base`, most significant first, with no
/// radix prefix and no sign; zero is the single digit `'0'`.
pub open spec fn radix_digits(n: nat, base: nat, upper: bool) -> Seq<char>
    recommends
        2 <= base <= 16,
    decreases n,
    via radix_digits_decreases
{
    if n < base || base < 2 {
        seq![digit_char(n, upper)]
    } else {
        radix_digits(n / base, base, upper).push(digit_char(n % base, upper))
    }
}

#[via_fn]
proof fn radix_digits_decreases(n: nat, base: nat, upper: bool) {
    if !(n < base || base < 2) {
        lemma_div_is_strictly_smaller(n as int, base as int);
    }
}

/// `s` left-padded with `fill` characters up to `width`; text already at
/// least `width` characters long is returned unchanged, never truncated.
pub open spec fn pad_left(s: Seq<char>, width: nat, fill: char) -> Seq<char> {
    if s.len() >= width {
        s
    } else {
        Seq::new((width - s.len()) as nat, |i: int| fill) + s
    }
}

/// Relies on `String::push`: appends the given character to the end of the
/// string.
#[verifier::external_body]
fn push_char(s: &mut String, c: char)
    ensures
        final(s)@ == old(s)@.push(c),
{
    s.push(c);
}

/// Maps a digit value below sixteen to its character.
fn digit_to_char(d: u64, upper: bool) -> (c: char)
    requires
        d < 16,
    ensures
        c == digit_char(d as nat, upper),
{
    if d == 0 {
        '0'
    } else if d == 1 {
        '1'
    } else if d == 2 {
        '2'
    } else if d == 3 {
        '3'
    } else if d == 4 {
        '4'
    } else if d == 5 {
        '5'
    } else if d == 6 {
        '6'
    } else if d == 7 {
        '7'
    } else if d == 8 {
        '8'
    } else if d == 9 {
        '9'
    } else if d == 10 {
        if upper { 'A' } else { 'a' }
    } else if d == 11 {
        if upper { 'B' } else { 'b' }
    } else if d == 12 {
        if upper { 'C' } else { 'c' }
    } else if d == 13 {
        if upper { 'D' } else { 'd' }
    } else if d == 14 {
        if upper { 'E' } else { 'e' }
    } else {
        if upper { 'F' } else { 'f' }
    }
}

/// Appends the base-`base` digits of `n` to `s`, most significant first.
fn push_radix_digits(s: &mut String, n: u64, base: u64, upper: bool)
    requires
        2 <= base <= 16,
    ensures
        final(s)@ == old(s)@ + radix_digits(n as nat, base as nat, upper),
    decreases n,
{
    if n >= base {
        proof {
            lemma_div_is_strictly_smaller(n as int, base as int);
        }
        push_radix_digits(s, n / base, base, upper);
        let d = n % base;
        push_char(s, digit_to_char(d, upper));
        proof {
            assert(s@ =~= old(s)@ + radix_digits(n as nat, base as nat, upper));
        }
    } else {
        push_char(s, digit_to_char(n, upper));
        proof {
            assert(s@ =~= old(s)@ + radix_digits(n as nat, base as nat, upper));
        }
    }
}

/// Convert a number into its binary text, with no `0b` prefix and no padding.
///
/// Use `.map(binary)`. A negative value is shown as the two's-complement bit
/// pattern of its storage: pass the unsigned reinterpretation of its bits.
pub fn binary(b: u64) -> (r: String)
    ensures
        r@ == radix_digits(b as nat, 2, false),
{
    let mut r = String::new();
    push_radix_digits(&mut r, b, 2, false);
    proof {
        assert(r@ =~= radix_digits(b as nat, 2, false));
    }
    r
}

/// Convert a number into its octal text, with no `0o` prefix and no padding.
///
/// Use `.map(octal)`. A negative value is shown as the two's-complement bit
/// pattern of its storage: pass the unsigned reinterpretation of its bits.
pub fn octal(o: u64) -> (r: String)
    ensures
        r@ == radix_digits(o as nat, 8, false),
{
    let mut r = String::new();
    push_radix_digits(&mut r, o, 8, false);
    proof {
        assert(r@ =~= radix_digits(o as nat, 8, false));
    }
    r
}

/// Convert a number into its default human-readable decimal text.
///
/// Use `.map(to_string)`: self-documenting where an inline closure around a
/// lower-level formatter would not be.
pub fn to_string(t: u64) -> (r: String)
    ensures
        r@ == radix_digits(t as nat, 10, false),
{
    let mut r = String::new();
    push_radix_digits(&mut r, t, 10, false);
    proof {
        assert(r@ =~= radix_digits(t as nat, 10, false));
    }
    r
}

/// Renders `n` in base `base` and left-pads the digits with `fill` up to
/// `width` characters.
fn pad_radix(width: usize, n: u64, base: u64, upper: bool, fill: char) -> (r: String)
    requires
        2 <= base <= 16,
    ensures
        r@ == pad_left(radix_digits(n as nat, base as nat, upper), width as nat, fill),
{
    let mut digits = String::new();
    push_radix_digits(&mut digits, n, base, upper);
    proof {
        assert(digits@ =~= radix_digits(n as nat, base as nat, upper));
    }
    let len = digits.as_str().unicode_len();
    let mut r = String::new();
    let mut i: usize = len;
    while i < width
        invariant
            2 <= base <= 16,
            len <= i,
            len >= width ==> i == len,
            len < width ==> i <= width,
            len == radix_digits(n as nat, base as nat, upper).len(),
            digits@ == radix_digits(n as nat, base as nat, upper),
            r@ =~= Seq::new((i - len) as nat, |j: int| fill),
        decreases width - i,
    {
        push_char(&mut r, fill);
        i = i + 1;
    }
    r.append(digits.as_str());
    proof {
        assert(r@ =~= pad_left(radix_digits(n as nat, base as nat, upper), width as nat, fill));
    }
    r
}

/// Convert a number into binary text left-padded with `'0'` up to `width`
/// characters; text already that wide is returned unpadded, never truncated.
///
/// Use `.map(|b| binary_zero_pad(8, b))`, the self-documenting form of
/// zero-padded binary rendering.
pub fn binary_zero_pad(width: usize, b: u64) -> (r: String)
    ensures
        r@ == pad_left(radix_digits(b as nat, 2, false), width as nat, '0'),
{
    pad_radix(width, b, 2, false, '0')
}

/// Convert a number into binary text left-padded with spaces up to `width`
/// characters; text already that wide is returned unpadded, never truncated.
///
/// Use `.map(|b| binary_pad(3, b))`.
pub fn binary_pad(width: usize, b: u64) -> (r: String)
    ensures
        r@ == pad_left(radix_digits(b as nat, 2, false), width as nat, ' '),
{
    pad_radix(width, b, 2, false, ' ')
}

/// Convert a number into lower-case hexadecimal text left-padded with spaces
/// up to `width` characters, with no `0x` prefix and no truncation.
///
/// Use `.map(|h| lower_hex_pad(2, h))`.
pub fn lower_hex_pad(width: usize, h: u64) -> (r: String)
    ensures
        r@ == pad_left(radix_digits(h as nat, 16, false), width as nat, ' '),
{
    pad_radix(width, h, 16, false, ' ')
}

/// Convert a number into upper-case hexadecimal text left-padded with spaces
/// up to `width` characters, with no `0x` prefix and no truncation.
///
/// Use `.map(|h| upper_hex_pad(2, h))`.
pub fn upper_hex_pad(width: usize, h: u64) -> (r: String)
    ensures
        r@ == pad_left(radix_digits(h as nat, 16, true), width as nat, ' '),
{
    pad_radix(width, h, 16, true, ' ')
}

/// Convert a number into lower-case hexadecimal text left-padded with `'0'`
/// up to `width` characters, with no `0x` prefix and no truncation.
///
/// Use `.map(|h| lower_hex_zeropad(2, h))`.
pub fn lower_hex_zeropad(width: usize, h: u64) -> (r: String)
    ensures
        r@ == pad_left(radix_digits(h as nat, 16, false), width as nat, '0'),
{
    pad_radix(width, h, 16, false, '0')
}

/// Convert a number into upper-case hexadecimal text left-padded with `'0'`
/// up to `width` characters, with no `0x` prefix and no truncation.
///
/// Use `.map(|h| upper_hex_zeropad(2, h))`.
pub fn upper_hex_zeropad(width: usize, h: u64) -> (r: String)
    ensures
        r@ == pad_left(radix_digits(h as nat, 16, true), width as nat, '0'),
{
    pad_radix(width, h, 16, true, '0')
}

/// `text` regrouped into consecutive chunks of at most `chunk_size`
/// characters, with `sep` between adjacent chunks and nowhere else; the final
/// chunk may be shorter when the length is not a multiple of `chunk_size`.
pub open spec fn chunk_joined(text: Seq<char>, chunk_size: nat, sep: Seq<char>) -> Seq<char>
    recommends
        1 <= chunk_size,
    decreases text.len(),
{
    if text.len() <= chunk_size || chunk_size < 1 {
        text
    } else {
        text.take(chunk_size as int) + sep + chunk_joined(
            text.skip(chunk_size as int),
            chunk_size,
            sep,
        )
    }
}

/// Chunk a string into groups of `chunk_size` characters and join the groups
/// with `separator`.
///
/// Grouping counts characters (Unicode scalar values), never bytes, so a
/// multi-byte character is never split. The separator must be non-empty and
/// the chunk size positive: both are the caller's responsibility, not runtime
/// conditions this function reports.
pub fn chunk_join(text: &str, chunk_size: usize, separator: &str) -> (r: String)
    requires
        1 <= chunk_size,
        1 <= separator@.len(),
    ensures
        r@ == chunk_joined(text@, chunk_size as nat, separator@),
{
    let len = text.unicode_len();
    let mut r = String::new();
    if len == 0 {
        proof {
            assert(r@ =~= chunk_joined(text@, chunk_size as nat, separator@));
        }
        return r;
    }
    let mut i: usize = 0;
    proof {
        assert(text@.skip(0) =~= text@);
        assert(r@ + chunk_joined(text@, chunk_size as nat, separator@) =~= chunk_joined(
            text@,
            chunk_size as nat,
            separator@,
        ));
    }
    while len - i > chunk_size
        invariant
            1 <= chunk_size,
            1 <= separator@.len(),
            i < len,
            len == text@.len(),
            chunk_joined(text@, chunk_size as nat, separator@) == r@ + chunk_joined(
                text@.skip(i as int),
                chunk_size as nat,
                separator@,
            ),
        decreases len - i,
    {
        let end = i + chunk_size;
        r.append(text.substring_char(i, end));
        r.append(separator);
        proof {
            assert(text@.skip(i as int).take(chunk_size as int) =~= text@.subrange(
                i as int,
                end as int,
            ));
            assert(text@.skip(i as int).skip(chunk_size as int) =~= text@.skip(end as int));
            assert(chunk_joined(text@, chunk_size as nat, separator@) =~= r@ + chunk_joined(
                text@.skip(end as int),
                chunk_size as nat,
                separator@,
            ));
        }
        i = end;
    }
    r.append(text.substring_char(i, len));
    proof {
        assert(text@.subrange(i as int, len as int) =~= text@.skip(i as int));
        assert(r@ =~= chunk_joined(text@, chunk_size as nat, separator@));
    }
    r
}

/// A sample record with two fields, for structured debug rendering.
#[derive(Clone, Copy, Debug, PartialEq, Eq, Structural)]
pub struct Record {
    /// The record's identifier.
    pub id: u64,
    /// The record's payload value.
    pub value: u64,
}

/// The diagnostic text of an optional number: a `Some(..)` tag around its
/// decimal digits, or `None`.
pub open spec fn option_debug_text(d: Option<u64>) -> Seq<char> {
    match d {
        Some(n) => "Some("@ + radix_digits(n as nat, 10, false) + ")"@,
        None => "None"@,
    }
}

/// The pretty diagnostic text of a [`Record`]: one field per line, each
/// indented by four spaces and ended by a comma, with the closing brace on
/// its own line at the outer indentation.
pub open spec fn record_pretty_text(rec: Record) -> Seq<char> {
    "Record {\n    id: "@ + radix_digits(rec.id as nat, 10, false) + ",\n    value: "@
        + radix_digits(rec.value as nat, 10, false) + ",\n}"@
}

/// Convert an optional number into its diagnostic text, `Some(..)` or `None`.
///
/// Use `.map(debug)`: useful for rendering a sequence of `Option` values,
/// which have no default human-readable form.
pub fn debug(d: Option<u64>) -> (r: String)
    ensures
        r@ == option_debug_text(d),
{
    match d {
        Some(n) => {
            let mut r = String::from_str("Some(");
            push_radix_digits(&mut r, n, 10, false);
            r.append(")");
            r
        },
        None => String::from_str("None"),
    }
}

/// Convert a [`Record`] into its pretty-printed diagnostic text: multi-line,
/// fields indented by four spaces, a trailing comma after each field, and the
/// closing brace on its own line.
///
/// Use `.map(debug_pretty)`.
pub fn debug_pretty(d: Record) -> (r: String)
    ensures
        r@ == record_pretty_text(d),
{
    let mut r = String::from_str("Record {\n    id: ");
    push_radix_digits(&mut r, d.id, 10, false);
    r.append(",\n    value: ");
    push_radix_digits(&mut r, d.value, 10, false);
    r.append(",\n}");
    r
}

/// How many digits the natural (unpadded) binary rendering of `n` has.
pub open spec fn binary_length(n: nat) -> nat
    decreases n,
{
    if n < 2 {
        1
    } else {
        1 + binary_length(n / 2)
    }
}

/// The number a text denotes when read as a base-two numeral, most
/// significant digit first.
pub open spec fn binary_value(s: Seq<char>) -> nat
    decreases s.len(),
{
    if s.len() == 0 {
        0
    } else {
        binary_value(s.drop_last()) * 2 + (if s.last() == '1' {
            1nat
        } else {
            0
        })
    }
}

/// `s` with every leading space character removed.
pub open spec fn trim_leading_spaces(s: Seq<char>) -> Seq<char>
    decreases s.len(),
{
    if s.len() > 0 && s[0] == ' ' {
        trim_leading_spaces(s.skip(1))
    } else {
        s
    }
}

proof fn lemma_binary_digits_length(n: nat)
    ensures
        radix_digits(n, 2, false).len() == binary_length(n),
    decreases n,
{
    if n >= 2 {
        lemma_binary_digits_length(n / 2);
    }
}

proof fn lemma_binary_digits_value(n: nat)
    ensures
        binary_value(radix_digits(n, 2, false)) == n,
    decreases n,
{
    if n < 2 {
        assert(binary_value(Seq::<char>::empty()) == 0);
        assert(seq![digit_char(n, false)].drop_last() =~= Seq::<char>::empty());
        assert(seq![digit_char(n, false)].last() == digit_char(n, false));
    } else {
        lemma_binary_digits_value(n / 2);
        let s = radix_digits(n / 2, 2, false);
        let c = digit_char((n % 2) as nat, false);
        assert(s.push(c).drop_last() =~= s);
        assert(s.push(c).last() == c);
    }
}

proof fn lemma_binary_value_cons_zero(s: Seq<char>)
    ensures
        binary_value(seq!['0'] + s) == binary_value(s),
    decreases s.len(),
{
    if s.len() == 0 {
        assert(binary_value(Seq::<char>::empty()) == 0);
        assert(s =~= Seq::<char>::empty());
        assert(seq!['0'] + s =~= seq!['0']);
        assert(seq!['0'].drop_last() =~= Seq::<char>::empty());
        assert(seq!['0'].last() == '0');
    } else {
        let t = seq!['0'] + s;
        assert(t.drop_last() =~= seq!['0'] + s.drop_last());
        assert(t.last() == s.last());
        lemma_binary_value_cons_zero(s.drop_last());
    }
}

proof fn lemma_binary_value_zero_pad(m: nat, s: Seq<char>)
    ensures
        binary_value(Seq::new(m, |i: int| '0') + s) == binary_value(s),
    decreases m,
{
    if m == 0 {
        assert(Seq::new(0nat, |i: int| '0') + s =~= s);
    } else {
        let rest = Seq::new((m - 1) as nat, |i: int| '0') + s;
        assert(Seq::new(m, |i: int| '0') + s =~= seq!['0'] + rest);
        lemma_binary_value_zero_pad((m - 1) as nat, s);
        lemma_binary_value_cons_zero(rest);
    }
}

proof fn lemma_radix_digits_leading_digit(n: nat, base: nat, upper: bool)
    requires
        2 <= base <= 16,
    ensures
        radix_digits(n, base, upper).len() >= 1,
        radix_digits(n, base, upper)[0] != ' ',
    decreases n,
{
    if n >= base {
        lemma_div_is_strictly_smaller(n as int, base as int);
        lemma_radix_digits_leading_digit(n / base, base, upper);
    }
}

proof fn lemma_trim_space_pad(m: nat, s: Seq<char>)
    requires
        s.len() >= 1,
        s[0] != ' ',
    ensures
        trim_leading_spaces(Seq::new(m, |i: int| ' ') + s) == s,
    decreases m,
{
    if m == 0 {
        assert(Seq::new(0nat, |i: int| ' ') + s =~= s);
    } else {
        let t = Seq::new(m, |i: int| ' ') + s;
        assert(t[0] == ' ');
        assert(t.skip(1) =~= Seq::new((m - 1) as nat, |i: int| ' ') + s);
        lemma_trim_space_pad((m - 1) as nat, s);
    }
}

/// Zero-padded binary text is faithful: its length is `width` or the natural
/// binary length of `n`, whichever is larger, and read back as a base-two
/// numeral it denotes `n` again.
pub proof fn lemma_binary_zero_pad_faithful(width: nat, n: nat)
    ensures
        pad_left(radix_digits(n, 2, false), width, '0').len() == vstd::math::max(
            width as int,
            binary_length(n) as int,
        ),
        binary_value(pad_left(radix_digits(n, 2, false), width, '0')) == n,
{
    let s = radix_digits(n, 2, false);
    lemma_binary_digits_length(n);
    lemma_binary_digits_value(n);
    if s.len() < width {
        let m = (width - s.len()) as nat;
        assert(Seq::new(m, |i: int| '0') + s =~= pad_left(s, width, '0'));
        lemma_binary_value_zero_pad(m, s);
    }
}

/// Space-padded binary text carries no information in its padding: trimming
/// the leading spaces gives exactly the unpadded binary text.
pub proof fn lemma_binary_pad_trims_to_binary(width: nat, n: nat)
    ensures
        trim_leading_spaces(pad_left(radix_digits(n, 2, false), width, ' ')) == radix_digits(
            n,
            2,
            false,
        ),
{
    let s = radix_digits(n, 2, false);
    lemma_radix_digits_leading_digit(n, 2, false);
    if s.len() < width {
        let m = (width - s.len()) as nat;
        assert(Seq::new(m, |i: int| ' ') + s =~= pad_left(s, width, ' '));
        lemma_trim_space_pad(m, s);
    }
}

/// Every renderer here is deterministic: its contract fixes the output text
/// as a function of the input alone, so repeated calls on the same input give
/// the same text. No stronger round-trip law holds, since the output is text
/// rather than a value the renderers accept.
pub proof fn lemma_rendering_deterministic(
    r1: Seq<char>,
    r2: Seq<char>,
    n: nat,
    base: nat,
    upper: bool,
)
    requires
        r1 == radix_digits(n, base, upper),
        r2 == radix_digits(n, base, upper),
    ensures
        r1 == r2,
{
}

} // verus!
