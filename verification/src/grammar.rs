//! The mathematical model of the byte-literal grammar.
//!
//! Everything here is specification: values of digit strings, the longest
//! whitespace / digit runs, what each single-byte parser recognizes, and the
//! greedy sequence grammars built from them. The executable parsers promise
//! in their `ensures` to agree with these functions.

use vstd::prelude::*;

use crate::error::ErrorKind;

verus! {

/// Numeric value of a digit character: `0`-`9`, `a`-`f`, `A`-`F` give
/// 0 through 15; every other character gives the sentinel 16, which is no
/// valid digit in any radix up to 16.
pub open spec fn digit_val(c: char) -> nat {
    let u = c as u32;
    if 48 <= u && u <= 57 {
        (u - 48) as nat
    } else if 97 <= u && u <= 102 {
        (u - 87) as nat
    } else if 65 <= u && u <= 70 {
        (u - 55) as nat
    } else {
        16
    }
}

/// Whether `c` is a digit of base `radix`.
pub open spec fn is_digit(c: char, radix: nat) -> bool {
    digit_val(c) < radix
}

/// Whether every character of `s` is a digit of base `radix`.
pub open spec fn all_digits(s: Seq<char>, radix: nat) -> bool {
    forall|i: int| 0 <= i < s.len() ==> is_digit(#[trigger] s[i], radix)
}

/// Value of the digit string `s` read in base `radix`, most significant
/// digit first.
pub open spec fn digits_val(s: Seq<char>, radix: nat) -> nat
    decreases s.len(),
{
    if s.len() == 0 {
        0
    } else {
        digits_val(s.drop_last(), radix) * radix + digit_val(s.last())
    }
}

/// The separator characters the grammars treat as whitespace: space, tab,
/// carriage return and line feed.
pub open spec fn is_space(c: char) -> bool {
    c == ' ' || c == '\t' || c == '\r' || c == '\n'
}

/// Length of the longest whitespace prefix of `s`.
pub open spec fn space_run(s: Seq<char>) -> nat
    decreases s.len(),
{
    if s.len() > 0 && is_space(s[0]) {
        1 + space_run(s.skip(1))
    } else {
        0
    }
}

/// Length of the longest decimal-digit prefix of `s`.
pub open spec fn digit_run(s: Seq<char>) -> nat
    decreases s.len(),
{
    if s.len() > 0 && is_digit(s[0], 10) {
        1 + digit_run(s.skip(1))
    } else {
        0
    }
}

/// Two's-complement negation at byte width: a magnitude `m` maps to
/// `(256 - m) % 256`.
pub open spec fn twos_comp(m: u8) -> u8 {
    (((256 - m as int) % 256) as u8)
}

/// `space_run` is the length of the longest whitespace prefix: it is within
/// bounds, everything before it is whitespace, and the character at it (if
/// any) is not.
pub proof fn lemma_space_run(s: Seq<char>)
    ensures
        space_run(s) <= s.len(),
        forall|j: int| 0 <= j < space_run(s) ==> is_space(#[trigger] s[j]),
        space_run(s) < s.len() ==> !is_space(s[space_run(s) as int]),
    decreases s.len(),
{
    if s.len() > 0 && is_space(s[0]) {
        lemma_space_run(s.skip(1));
        assert forall|j: int| 0 <= j < space_run(s) implies is_space(#[trigger] s[j]) by {
            if j > 0 {
                assert(s.skip(1)[j - 1] == s[j]);
            }
        }
        if space_run(s) < s.len() {
            assert(s.skip(1)[space_run(s) - 1] == s[space_run(s) as int]);
        }
    }
}

/// `digit_run` is the length of the longest decimal-digit prefix, stated as
/// for `lemma_space_run`.
pub proof fn lemma_digit_run(s: Seq<char>)
    ensures
        digit_run(s) <= s.len(),
        forall|j: int| 0 <= j < digit_run(s) ==> is_digit(#[trigger] s[j], 10),
        digit_run(s) < s.len() ==> !is_digit(s[digit_run(s) as int], 10),
    decreases s.len(),
{
    if s.len() > 0 && is_digit(s[0], 10) {
        lemma_digit_run(s.skip(1));
        assert forall|j: int| 0 <= j < digit_run(s) implies is_digit(#[trigger] s[j], 10) by {
            if j > 0 {
                assert(s.skip(1)[j - 1] == s[j]);
            }
        }
        if digit_run(s) < s.len() {
            assert(s.skip(1)[digit_run(s) - 1] == s[digit_run(s) as int]);
        }
    }
}

/// `radix` to the power `e`.
pub open spec fn pow_nat(radix: nat, e: nat) -> nat
    decreases e,
{
    if e == 0 {
        1
    } else {
        radix * pow_nat(radix, (e - 1) as nat)
    }
}

/// A string of `n` digits of base `radix` has a value below `radix ^ n`.
pub proof fn lemma_digits_val_bound(s: Seq<char>, radix: nat)
    requires
        all_digits(s, radix),
    ensures
        digits_val(s, radix) < pow_nat(radix, s.len()),
    decreases s.len(),
{
    if s.len() == 0 {
    } else {
        let head = s.drop_last();
        assert(all_digits(head, radix));
        lemma_digits_val_bound(head, radix);
        assert(is_digit(s.last(), radix));
        let p = pow_nat(radix, head.len());
        assert(digits_val(head, radix) * radix + digit_val(s.last()) < p * radix) by (nonlinear_arith)
            requires
                digits_val(head, radix) < p,
                digit_val(s.last()) < radix,
        ;
        assert(pow_nat(radix, s.len()) == radix * p);
    }
}

/// Appending one digit multiplies the value by the radix and adds the digit:
/// how a left-to-right scan extends `digits_val`.
pub proof fn lemma_digits_val_step(s: Seq<char>, i: int, radix: nat)
    requires
        0 <= i < s.len(),
    ensures
        digits_val(s.take(i + 1), radix) == digits_val(s.take(i), radix) * radix + digit_val(s[i]),
{
    assert(s.take(i + 1).drop_last() =~= s.take(i));
    assert(s.take(i + 1).last() == s[i]);
}

/// What a single-byte parser recognizes at the head of `s`: the byte value
/// and the unconsumed remainder, or nothing.
pub type ByteParse = Option<(u8, Seq<char>)>;

/// How a parser fails: the error class, and the unconsumed input at the
/// point where the failing (sub-)parse began.
pub type ParseFailure = (ErrorKind, Seq<char>);

/// Exactly two hex digits, read as one byte.
pub open spec fn spec_hex_byte(s: Seq<char>) -> ByteParse {
    if s.len() >= 2 && all_digits(s.take(2), 16) {
        Some(((digits_val(s.take(2), 16) as u8), s.skip(2)))
    } else {
        None
    }
}

/// Failure class of `spec_hex_byte`: too short, or not two hex digits.
pub open spec fn spec_hex_byte_err(s: Seq<char>) -> ParseFailure {
    if s.len() < 2 {
        (ErrorKind::WrongLength, s)
    } else {
        (ErrorKind::InvalidDigit, s)
    }
}

/// The longest run of decimal digits (at least one), read as one byte; the
/// run's value must not exceed 255.
pub open spec fn spec_dec_byte(s: Seq<char>) -> ByteParse {
    let k = digit_run(s) as int;
    if k >= 1 && digits_val(s.take(k), 10) <= 255 {
        Some(((digits_val(s.take(k), 10) as u8), s.skip(k)))
    } else {
        None
    }
}

/// Failure class of `spec_dec_byte`: no digit at all, or a value over 255.
pub open spec fn spec_dec_byte_err(s: Seq<char>) -> ParseFailure {
    if digit_run(s) == 0 {
        (ErrorKind::InvalidDigit, s)
    } else {
        (ErrorKind::Overflow, s)
    }
}

/// Exactly eight binary digits, read as one byte. Eight bits never exceed
/// 255, so this parser has no overflow failure.
pub open spec fn spec_bin_byte(s: Seq<char>) -> ByteParse {
    if s.len() >= 8 && all_digits(s.take(8), 2) {
        Some(((digits_val(s.take(8), 2) as u8), s.skip(8)))
    } else {
        None
    }
}

/// Failure class of `spec_bin_byte`: too short, or not eight binary digits.
pub open spec fn spec_bin_byte_err(s: Seq<char>) -> ParseFailure {
    if s.len() < 8 {
        (ErrorKind::WrongLength, s)
    } else {
        (ErrorKind::InvalidDigit, s)
    }
}

/// Whether `s` starts with the two-character marker `c0 c1`.
pub open spec fn has_marker(s: Seq<char>, c0: char, c1: char) -> bool {
    s.len() >= 2 && s[0] == c0 && s[1] == c1
}

/// Failure of a two-character marker: input ended before the marker, or the
/// characters are not the marker.
pub open spec fn spec_marker_err(s: Seq<char>) -> ParseFailure {
    if s.len() < 2 {
        (ErrorKind::WrongLength, s)
    } else {
        (ErrorKind::InvalidDigit, s)
    }
}

/// A `0x` marker followed by two hex digits.
pub open spec fn spec_hex_0x_byte(s: Seq<char>) -> ByteParse {
    if has_marker(s, '0', 'x') {
        spec_hex_byte(s.skip(2))
    } else {
        None
    }
}

/// Failure class of `spec_hex_0x_byte`: a marker failure, or the hex pair's
/// own failure after the marker.
pub open spec fn spec_hex_0x_byte_err(s: Seq<char>) -> ParseFailure {
    if !has_marker(s, '0', 'x') {
        spec_marker_err(s)
    } else {
        spec_hex_byte_err(s.skip(2))
    }
}

/// A `\x` marker followed by two hex digits.
pub open spec fn spec_hex_esc_byte(s: Seq<char>) -> ByteParse {
    if has_marker(s, '\\', 'x') {
        spec_hex_byte(s.skip(2))
    } else {
        None
    }
}

/// Failure class of `spec_hex_esc_byte`.
pub open spec fn spec_hex_esc_byte_err(s: Seq<char>) -> ParseFailure {
    if !has_marker(s, '\\', 'x') {
        spec_marker_err(s)
    } else {
        spec_hex_byte_err(s.skip(2))
    }
}

/// A `0b` marker followed by eight binary digits.
pub open spec fn spec_bin_0b_byte(s: Seq<char>) -> ByteParse {
    if has_marker(s, '0', 'b') {
        spec_bin_byte(s.skip(2))
    } else {
        None
    }
}

/// Failure class of `spec_bin_0b_byte`.
pub open spec fn spec_bin_0b_byte_err(s: Seq<char>) -> ParseFailure {
    if !has_marker(s, '0', 'b') {
        spec_marker_err(s)
    } else {
        spec_bin_byte_err(s.skip(2))
    }
}

/// A `-` sign followed by a decimal byte, wrapped through two's complement.
pub open spec fn spec_dec_negative_byte(s: Seq<char>) -> ByteParse {
    if s.len() >= 1 && s[0] == '-' {
        match spec_dec_byte(s.skip(1)) {
            Some((v, rest)) => Some((twos_comp(v), rest)),
            None => None,
        }
    } else {
        None
    }
}

/// Failure class of `spec_dec_negative_byte`: no room for the sign, a
/// missing sign, or the magnitude's own failure after it.
pub open spec fn spec_dec_negative_byte_err(s: Seq<char>) -> ParseFailure {
    if s.len() == 0 {
        (ErrorKind::WrongLength, s)
    } else if s[0] != '-' {
        (ErrorKind::InvalidDigit, s)
    } else {
        spec_dec_byte_err(s.skip(1))
    }
}

/// A decimal byte, or a `-`-signed decimal byte: the unsigned reading is
/// tried first. On failure the signed branch, tried last, classifies it.
pub open spec fn spec_dec_signed_byte(s: Seq<char>) -> ByteParse {
    if spec_dec_byte(s) is Some {
        spec_dec_byte(s)
    } else {
        spec_dec_negative_byte(s)
    }
}

/// A `-` sign followed by a `0x`-prefixed hex byte, wrapped through two's
/// complement.
pub open spec fn spec_hex_negative_0x_byte(s: Seq<char>) -> ByteParse {
    if s.len() >= 1 && s[0] == '-' {
        match spec_hex_0x_byte(s.skip(1)) {
            Some((v, rest)) => Some((twos_comp(v), rest)),
            None => None,
        }
    } else {
        None
    }
}

/// Failure class of `spec_hex_negative_0x_byte`: no room for the sign, a
/// missing sign, or the prefixed magnitude's own failure after it.
pub open spec fn spec_hex_negative_0x_byte_err(s: Seq<char>) -> ParseFailure {
    if s.len() == 0 {
        (ErrorKind::WrongLength, s)
    } else if s[0] != '-' {
        (ErrorKind::InvalidDigit, s)
    } else {
        spec_hex_0x_byte_err(s.skip(1))
    }
}

/// A `0x`-prefixed hex byte with an optional leading `-`: the negated
/// reading is tried first. On failure the unsigned branch, tried last,
/// classifies it.
pub open spec fn spec_hex_signed_0x_byte(s: Seq<char>) -> ByteParse {
    if spec_hex_negative_0x_byte(s) is Some {
        spec_hex_negative_0x_byte(s)
    } else {
        spec_hex_0x_byte(s)
    }
}

/// The comma separator: optional whitespace, one comma, optional
/// whitespace. Yields the remainder after it.
pub open spec fn spec_comma_sep(s: Seq<char>) -> Option<Seq<char>> {
    let t = s.skip(space_run(s) as int);
    if t.len() >= 1 && t[0] == ',' {
        let u = t.skip(1);
        Some(u.skip(space_run(u) as int))
    } else {
        None
    }
}

/// Failure class of the comma separator: the input ended where the comma
/// was expected, or another character stands there.
pub open spec fn spec_comma_sep_err(s: Seq<char>) -> ParseFailure {
    let t = s.skip(space_run(s) as int);
    if t.len() == 0 {
        (ErrorKind::WrongLength, t)
    } else {
        (ErrorKind::InvalidDigit, t)
    }
}

/// The supported byte-sequence notations, in no particular order; the
/// dispatcher's priority is fixed by `spec_any_seq`.
#[derive(Clone, Copy, Debug, PartialEq, Eq, Structural)]
pub enum Notation {
    /// `0b`-prefixed binary bytes, comma-separated.
    Bin0b,
    /// `\x`-prefixed hex bytes, concatenated with no separator.
    HexEsc,
    /// `0x`-prefixed hex bytes, comma-separated.
    Hex0x,
    /// Optionally `-`-signed `0x`-prefixed hex bytes, comma-separated.
    HexSigned,
    /// Bare hex pairs, separated by zero-or-more whitespace.
    HexBare,
    /// Unsigned decimal bytes, comma-separated.
    Dec,
    /// Optionally `-`-signed decimal bytes, comma-separated.
    DecSigned,
}

/// The single-byte parser of a notation.
pub open spec fn spec_elem(n: Notation, s: Seq<char>) -> ByteParse {
    match n {
        Notation::Bin0b => spec_bin_0b_byte(s),
        Notation::HexEsc => spec_hex_esc_byte(s),
        Notation::Hex0x => spec_hex_0x_byte(s),
        Notation::HexSigned => spec_hex_signed_0x_byte(s),
        Notation::HexBare => spec_hex_byte(s),
        Notation::Dec => spec_dec_byte(s),
        Notation::DecSigned => spec_dec_signed_byte(s),
    }
}

/// The separator of a notation: the comma separator for the prefixed and
/// decimal notations, a possibly-empty whitespace run for bare hex, and
/// nothing at all between escaped-hex tokens.
pub open spec fn spec_sep(n: Notation, s: Seq<char>) -> Option<Seq<char>> {
    match n {
        Notation::HexEsc => Some(s),
        Notation::HexBare => Some(s.skip(space_run(s) as int)),
        _ => spec_comma_sep(s),
    }
}

/// The greedy tail of a sequence: as long as a separator followed by an
/// element parses (and consumes ground, which it always does), take the
/// element's byte; the first failure ends the sequence without consuming.
pub open spec fn spec_seq_tail(n: Notation, s: Seq<char>) -> (Seq<u8>, Seq<char>)
    decreases s.len(),
{
    match spec_sep(n, s) {
        None => (Seq::empty(), s),
        Some(s1) => match spec_elem(n, s1) {
            None => (Seq::empty(), s),
            Some((b, s2)) => if s2.len() < s.len() {
                let t = spec_seq_tail(n, s2);
                (seq![b] + t.0, t.1)
            } else {
                (Seq::empty(), s)
            },
        },
    }
}

/// A whole sequence: one element, then the greedy tail. Fails only when the
/// first element does.
pub open spec fn spec_seq(n: Notation, s: Seq<char>) -> Option<(Seq<u8>, Seq<char>)> {
    match spec_elem(n, s) {
        None => None,
        Some((b, s1)) => {
            let t = spec_seq_tail(n, s1);
            Some((seq![b] + t.0, t.1))
        },
    }
}

/// The auto-detecting dispatcher: the first notation of the fixed priority
/// order whose sequence parses. Notations with an explicit lexical marker
/// come first; the permissive decimal forms come last.
pub open spec fn spec_any_seq(s: Seq<char>) -> Option<(Seq<u8>, Seq<char>)> {
    if spec_seq(Notation::Bin0b, s) is Some {
        spec_seq(Notation::Bin0b, s)
    } else if spec_seq(Notation::HexEsc, s) is Some {
        spec_seq(Notation::HexEsc, s)
    } else if spec_seq(Notation::Hex0x, s) is Some {
        spec_seq(Notation::Hex0x, s)
    } else if spec_seq(Notation::HexSigned, s) is Some {
        spec_seq(Notation::HexSigned, s)
    } else if spec_seq(Notation::HexBare, s) is Some {
        spec_seq(Notation::HexBare, s)
    } else if spec_seq(Notation::Dec, s) is Some {
        spec_seq(Notation::Dec, s)
    } else {
        spec_seq(Notation::DecSigned, s)
    }
}

/// The canonical character of the digit value `d`: `0`-`9` below ten,
/// lower-case `a`-`f` above.
pub open spec fn digit_char(d: nat) -> char {
    if d < 10 {
        ((48 + d) as u8) as char
    } else {
        ((87 + d) as u8) as char
    }
}

/// The canonical fixed-width rendering of `v` in base `radix`: exactly
/// `width` digits, most significant first, zero-padded at the left.
pub open spec fn render_fixed(v: nat, width: nat, radix: nat) -> Seq<char>
    decreases width,
{
    if width == 0 {
        Seq::empty()
    } else {
        render_fixed(v / radix, (width - 1) as nat, radix).push(digit_char(v % radix))
    }
}

/// The canonical decimal rendering of `v`: no leading zeros, except that
/// zero itself is the single digit `0`.
pub open spec fn render_dec(v: nat) -> Seq<char>
    decreases v,
{
    if v < 10 {
        seq![digit_char(v)]
    } else {
        render_dec(v / 10).push(digit_char(v % 10))
    }
}

/// A successful element always consumes at least one character.
pub proof fn lemma_elem_consumes(n: Notation, s: Seq<char>)
    ensures
        spec_elem(n, s) matches Some(p) ==> p.1.len() < s.len(),
{
    lemma_digit_run(s);
    if s.len() >= 1 {
        lemma_digit_run(s.skip(1));
    }
    if s.len() >= 2 {
        lemma_digit_run(s.skip(2));
        if s.len() >= 3 {
            lemma_digit_run(s.skip(1).skip(2));
        }
    }
}

/// A successful separator never adds characters back.
pub proof fn lemma_sep_no_grow(n: Notation, s: Seq<char>)
    ensures
        spec_sep(n, s) matches Some(s1) ==> s1.len() <= s.len(),
{
    lemma_space_run(s);
    let t = s.skip(space_run(s) as int);
    lemma_space_run(t);
    if t.len() >= 1 {
        let u = t.skip(1);
        lemma_space_run(u);
    }
}

} // verus!
