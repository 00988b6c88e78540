//! Executable parsers for byte-sequence literals, verified against the
//! grammar model in `crate::grammar`.

use vstd::prelude::*;
use vstd::string::StrSliceExecFns;

use crate::error::{ErrorKind, ParseErr, ParseResult};
use crate::grammar::{
    all_digits, digit_run, digit_val, digits_val, is_digit, is_space, lemma_digit_run,
    lemma_digits_val_bound, lemma_digits_val_step, lemma_elem_consumes, lemma_sep_no_grow,
    lemma_space_run, pow_nat, space_run, spec_any_seq, spec_bin_0b_byte, spec_bin_0b_byte_err,
    spec_bin_byte, spec_bin_byte_err, spec_comma_sep, spec_comma_sep_err, spec_dec_byte,
    spec_dec_byte_err, spec_dec_negative_byte, spec_dec_negative_byte_err, spec_dec_signed_byte,
    spec_elem, spec_hex_0x_byte, spec_hex_0x_byte_err, spec_hex_byte, spec_hex_byte_err,
    spec_hex_esc_byte, spec_hex_esc_byte_err, spec_hex_negative_0x_byte,
    spec_hex_negative_0x_byte_err, spec_hex_signed_0x_byte, spec_sep, spec_seq, spec_seq_tail,
    twos_comp, Notation,
};

verus! {

/// Two's-complement negation of a byte: `m` maps to `(256 - m) % 256`.
pub fn twos(m: u8) -> (r: u8)
    ensures
        r == twos_comp(m),
{
    if m == 0 {
        0
    } else {
        255 - m + 1
    }
}

/// Numeric value of a digit character, 16 when it is no digit at all.
fn digit_value(c: char) -> (v: u8)
    ensures
        v as nat == digit_val(c),
{
    let u = c as u32;
    if 48 <= u && u <= 57 {
        (u - 48) as u8
    } else if 97 <= u && u <= 102 {
        (u - 87) as u8
    } else if 65 <= u && u <= 70 {
        (u - 55) as u8
    } else {
        16
    }
}

/// Reads the whole of `input` as a number in base `radix`.
///
/// Returns `InvalidDigit` if `input` is empty or holds any character that is
/// not a digit of the base, `Overflow` if the value exceeds 255, and the
/// value otherwise.
fn from_radix<'a>(input: &'a str, radix: u8) -> (r: Result<u8, ParseErr<'a>>)
    requires
        2 <= radix <= 16,
    ensures
        match r {
            Ok(v) => input@.len() > 0 && all_digits(input@, radix as nat) && digits_val(
                input@,
                radix as nat,
            ) == v as nat,
            Err(e) => e.at@ == input@ && (if input@.len() == 0 || !all_digits(
                input@,
                radix as nat,
            ) {
                e.kind == ErrorKind::InvalidDigit
            } else {
                e.kind == ErrorKind::Overflow && digits_val(input@, radix as nat) > 255
            }),
        },
{
    let n = input.unicode_len();
    if n == 0 {
        return Err(ParseErr { kind: ErrorKind::InvalidDigit, at: input });
    }
    let mut acc: u32 = 0;
    let mut i: usize = 0;
    while i < n
        invariant
            2 <= radix <= 16,
            0 <= i <= n,
            n == input@.len(),
            all_digits(input@.take(i as int), radix as nat),
            digits_val(input@.take(i as int), radix as nat) <= 255 ==> acc as nat == digits_val(
                input@.take(i as int),
                radix as nat,
            ),
            digits_val(input@.take(i as int), radix as nat) > 255 ==> 255 < acc <= 4800,
            acc <= 4800,
        decreases n - i,
    {
        let c = input.get_char(i);
        let d = digit_value(c);
        if d >= radix {
            assert(!is_digit(input@[i as int], radix as nat));
            return Err(ParseErr { kind: ErrorKind::InvalidDigit, at: input });
        }
        proof {
            lemma_digits_val_step(input@, i as int, radix as nat);
            assert(input@.take(i as int).push(input@[i as int]) =~= input@.take(i + 1));
        }
        let ghost old_val = digits_val(input@.take(i as int), radix as nat);
        let ghost new_val = digits_val(input@.take(i + 1), radix as nat);
        if acc <= 255 {
            proof {
                assert(acc * (radix as u32) <= 255 * 16) by (nonlinear_arith)
                    requires
                        acc <= 255,
                        radix <= 16,
                ;
            }
            acc = acc * (radix as u32) + (d as u32);
        } else {
            proof {
                assert(old_val > 255);
                assert(new_val == old_val * (radix as nat) + digit_val(input@[i as int]));
                assert(old_val * (radix as nat) >= old_val * 2) by (nonlinear_arith)
                    requires
                        radix >= 2,
                        old_val > 255,
                ;
            }
        }
        i = i + 1;
    }
    proof {
        assert(input@.take(n as int) =~= input@);
    }
    if acc > 255 {
        Err(ParseErr { kind: ErrorKind::Overflow, at: input })
    } else {
        Ok(acc as u8)
    }
}

/// Reads the whole of `input` as a base-16 number, as `from_radix` does.
pub fn from_hex<'a>(input: &'a str) -> (r: Result<u8, ParseErr<'a>>)
    ensures
        match r {
            Ok(v) => input@.len() > 0 && all_digits(input@, 16) && digits_val(input@, 16)
                == v as nat,
            Err(e) => e.at@ == input@ && (if input@.len() == 0 || !all_digits(input@, 16) {
                e.kind == ErrorKind::InvalidDigit
            } else {
                e.kind == ErrorKind::Overflow && digits_val(input@, 16) > 255
            }),
        },
{
    from_radix(input, 16)
}

/// Reads the whole of `input` as a base-2 number, as `from_radix` does.
pub fn from_bin<'a>(input: &'a str) -> (r: Result<u8, ParseErr<'a>>)
    ensures
        match r {
            Ok(v) => input@.len() > 0 && all_digits(input@, 2) && digits_val(input@, 2)
                == v as nat,
            Err(e) => e.at@ == input@ && (if input@.len() == 0 || !all_digits(input@, 2) {
                e.kind == ErrorKind::InvalidDigit
            } else {
                e.kind == ErrorKind::Overflow && digits_val(input@, 2) > 255
            }),
        },
{
    from_radix(input, 2)
}

/// The suffix of `s` that starts at character `k`.
fn rest_from<'a>(s: &'a str, k: usize) -> (r: &'a str)
    requires
        k <= s@.len(),
    ensures
        r@ == s@.skip(k as int),
{
    let r = s.substring_char(k, s.unicode_len());
    proof {
        assert(r@ =~= s@.skip(k as int));
    }
    r
}

/// Whether `c` is one of the separator whitespace characters.
fn space_char(c: char) -> (b: bool)
    ensures
        b == is_space(c),
{
    c == ' ' || c == '\t' || c == '\r' || c == '\n'
}

/// Length of the longest whitespace prefix of `s`.
fn space_run_len(s: &str) -> (k: usize)
    ensures
        k as nat == space_run(s@),
{
    let n = s.unicode_len();
    let mut i: usize = 0;
    loop
        invariant
            0 <= i <= n,
            n == s@.len(),
            forall|j: int| 0 <= j < i ==> is_space(#[trigger] s@[j]),
        ensures
            i <= n,
            forall|j: int| 0 <= j < i ==> is_space(#[trigger] s@[j]),
            i < n ==> !is_space(s@[i as int]),
        decreases n - i,
    {
        if i >= n {
            break ;
        }
        let c = s.get_char(i);
        if !space_char(c) {
            break ;
        }
        i = i + 1;
    }
    proof {
        lemma_space_run(s@);
    }
    i
}

/// Length of the longest decimal-digit prefix of `s`.
fn digit_run_len(s: &str) -> (k: usize)
    ensures
        k as nat == digit_run(s@),
{
    let n = s.unicode_len();
    let mut i: usize = 0;
    loop
        invariant
            0 <= i <= n,
            n == s@.len(),
            forall|j: int| 0 <= j < i ==> is_digit(#[trigger] s@[j], 10),
        ensures
            i <= n,
            forall|j: int| 0 <= j < i ==> is_digit(#[trigger] s@[j], 10),
            i < n ==> !is_digit(s@[i as int], 10),
        decreases n - i,
    {
        if i >= n {
            break ;
        }
        let c = s.get_char(i);
        if digit_value(c) >= 10 {
            break ;
        }
        i = i + 1;
    }
    proof {
        lemma_digit_run(s@);
    }
    i
}

/// Reads the whole of `input` as a base-10 number, as `from_radix` does.
pub fn from_dec<'a>(input: &'a str) -> (r: Result<u8, ParseErr<'a>>)
    ensures
        match r {
            Ok(v) => input@.len() > 0 && all_digits(input@, 10) && digits_val(input@, 10)
                == v as nat,
            Err(e) => e.at@ == input@ && (if input@.len() == 0 || !all_digits(input@, 10) {
                e.kind == ErrorKind::InvalidDigit
            } else {
                e.kind == ErrorKind::Overflow && digits_val(input@, 10) > 255
            }),
        },
{
    from_radix(input, 10)
}

/// Parses exactly two hex digits at the head of `input` as one byte.
pub fn hex_byte<'a>(input: &'a str) -> (r: ParseResult<'a, u8>)
    ensures
        match r {
            Ok((rest, v)) => spec_hex_byte(input@) == Some((v, rest@)),
            Err(e) => spec_hex_byte(input@) is None && (e.kind, e.at@) == spec_hex_byte_err(
                input@,
            ),
        },
{
    let n = input.unicode_len();
    if n < 2 {
        return Err(ParseErr { kind: ErrorKind::WrongLength, at: input });
    }
    let digits = input.substring_char(0, 2);
    proof {
        assert(digits@ =~= input@.take(2));
    }
    match from_hex(digits) {
        Ok(v) => {
            proof {
                lemma_digits_val_bound(input@.take(2), 16);
                reveal_with_fuel(pow_nat, 3);
            }
            Ok((rest_from(input, 2), v))
        },
        Err(_) => {
            proof {
                if all_digits(input@.take(2), 16) {
                    lemma_digits_val_bound(input@.take(2), 16);
                    reveal_with_fuel(pow_nat, 3);
                }
            }
            Err(ParseErr { kind: ErrorKind::InvalidDigit, at: input })
        },
    }
}

/// Parses the longest run of decimal digits at the head of `input` as one
/// byte; the run must be non-empty and its value at most 255.
pub fn dec_byte<'a>(input: &'a str) -> (r: ParseResult<'a, u8>)
    ensures
        match r {
            Ok((rest, v)) => spec_dec_byte(input@) == Some((v, rest@)),
            Err(e) => spec_dec_byte(input@) is None && (e.kind, e.at@) == spec_dec_byte_err(
                input@,
            ),
        },
{
    let k = digit_run_len(input);
    if k == 0 {
        return Err(ParseErr { kind: ErrorKind::InvalidDigit, at: input });
    }
    proof {
        lemma_digit_run(input@);
    }
    let digits = input.substring_char(0, k);
    proof {
        assert(digits@ =~= input@.take(k as int));
    }
    match from_dec(digits) {
        Ok(v) => Ok((rest_from(input, k), v)),
        Err(_) => Err(ParseErr { kind: ErrorKind::Overflow, at: input }),
    }
}

/// Parses exactly eight binary digits at the head of `input` as one byte.
pub fn bin_byte<'a>(input: &'a str) -> (r: ParseResult<'a, u8>)
    ensures
        match r {
            Ok((rest, v)) => spec_bin_byte(input@) == Some((v, rest@)),
            Err(e) => spec_bin_byte(input@) is None && (e.kind, e.at@) == spec_bin_byte_err(
                input@,
            ),
        },
{
    let n = input.unicode_len();
    if n < 8 {
        return Err(ParseErr { kind: ErrorKind::WrongLength, at: input });
    }
    let digits = input.substring_char(0, 8);
    proof {
        assert(digits@ =~= input@.take(8));
    }
    match from_bin(digits) {
        Ok(v) => {
            proof {
                lemma_digits_val_bound(input@.take(8), 2);
                reveal_with_fuel(pow_nat, 9);
            }
            Ok((rest_from(input, 8), v))
        },
        Err(_) => {
            proof {
                if all_digits(input@.take(8), 2) {
                    lemma_digits_val_bound(input@.take(8), 2);
                    reveal_with_fuel(pow_nat, 9);
                }
            }
            Err(ParseErr { kind: ErrorKind::InvalidDigit, at: input })
        },
    }
}

/// Consumes the two-character marker `c0 c1` at the head of `input`, or
/// reports why it is not there.
fn marker2<'a>(input: &'a str, c0: char, c1: char) -> (r: ParseResult<'a, ()>)
    ensures
        match r {
            Ok((rest, _)) => crate::grammar::has_marker(input@, c0, c1) && rest@ == input@.skip(2),
            Err(e) => !crate::grammar::has_marker(input@, c0, c1) && (e.kind, e.at@)
                == crate::grammar::spec_marker_err(input@),
        },
{
    let n = input.unicode_len();
    if n < 2 {
        return Err(ParseErr { kind: ErrorKind::WrongLength, at: input });
    }
    if input.get_char(0) != c0 || input.get_char(1) != c1 {
        return Err(ParseErr { kind: ErrorKind::InvalidDigit, at: input });
    }
    Ok((rest_from(input, 2), ()))
}

/// Parses a `0x` marker followed by two hex digits.
pub fn hex_0x_byte<'a>(input: &'a str) -> (r: ParseResult<'a, u8>)
    ensures
        match r {
            Ok((rest, v)) => spec_hex_0x_byte(input@) == Some((v, rest@)),
            Err(e) => spec_hex_0x_byte(input@) is None && (e.kind, e.at@) == spec_hex_0x_byte_err(
                input@,
            ),
        },
{
    match marker2(input, '0', 'x') {
        Ok((rest, _)) => hex_byte(rest),
        Err(e) => Err(e),
    }
}

/// Parses a `\x` marker followed by two hex digits.
pub fn hex_esc_byte<'a>(input: &'a str) -> (r: ParseResult<'a, u8>)
    ensures
        match r {
            Ok((rest, v)) => spec_hex_esc_byte(input@) == Some((v, rest@)),
            Err(e) => spec_hex_esc_byte(input@) is None && (e.kind, e.at@)
                == spec_hex_esc_byte_err(input@),
        },
{
    match marker2(input, '\\', 'x') {
        Ok((rest, _)) => hex_byte(rest),
        Err(e) => Err(e),
    }
}

/// Parses a `0b` marker followed by eight binary digits.
pub fn bin_0b_byte<'a>(input: &'a str) -> (r: ParseResult<'a, u8>)
    ensures
        match r {
            Ok((rest, v)) => spec_bin_0b_byte(input@) == Some((v, rest@)),
            Err(e) => spec_bin_0b_byte(input@) is None && (e.kind, e.at@) == spec_bin_0b_byte_err(
                input@,
            ),
        },
{
    match marker2(input, '0', 'b') {
        Ok((rest, _)) => bin_byte(rest),
        Err(e) => Err(e),
    }
}

/// Parses a `-` sign followed by a decimal byte, and wraps the magnitude
/// through two's complement.
pub fn dec_negative_byte<'a>(input: &'a str) -> (r: ParseResult<'a, u8>)
    ensures
        match r {
            Ok((rest, v)) => spec_dec_negative_byte(input@) == Some((v, rest@)),
            Err(e) => spec_dec_negative_byte(input@) is None && (e.kind, e.at@)
                == spec_dec_negative_byte_err(input@),
        },
{
    let n = input.unicode_len();
    if n == 0 {
        return Err(ParseErr { kind: ErrorKind::WrongLength, at: input });
    }
    if input.get_char(0) != '-' {
        return Err(ParseErr { kind: ErrorKind::InvalidDigit, at: input });
    }
    match dec_byte(rest_from(input, 1)) {
        Ok((rest, v)) => Ok((rest, twos(v))),
        Err(e) => Err(e),
    }
}

/// Parses a decimal byte with an optional leading `-`: the unsigned reading
/// is tried first, the signed one on its failure (and it classifies the
/// error when both fail).
pub fn dec_signed_byte<'a>(input: &'a str) -> (r: ParseResult<'a, u8>)
    ensures
        match r {
            Ok((rest, v)) => spec_dec_signed_byte(input@) == Some((v, rest@)),
            Err(e) => spec_dec_signed_byte(input@) is None && (e.kind, e.at@)
                == spec_dec_negative_byte_err(input@),
        },
{
    match dec_byte(input) {
        Ok(ok) => Ok(ok),
        Err(_) => dec_negative_byte(input),
    }
}

/// Parses a `-` sign followed by a `0x`-prefixed hex byte, and wraps the
/// magnitude through two's complement.
pub fn hex_negative_0x_byte<'a>(input: &'a str) -> (r: ParseResult<'a, u8>)
    ensures
        match r {
            Ok((rest, v)) => spec_hex_negative_0x_byte(input@) == Some((v, rest@)),
            Err(e) => spec_hex_negative_0x_byte(input@) is None && (e.kind, e.at@)
                == spec_hex_negative_0x_byte_err(input@),
        },
{
    let n = input.unicode_len();
    if n == 0 {
        return Err(ParseErr { kind: ErrorKind::WrongLength, at: input });
    }
    if input.get_char(0) != '-' {
        return Err(ParseErr { kind: ErrorKind::InvalidDigit, at: input });
    }
    match hex_0x_byte(rest_from(input, 1)) {
        Ok((rest, v)) => Ok((rest, twos(v))),
        Err(e) => Err(e),
    }
}

/// Parses a `0x`-prefixed hex byte with an optional leading `-`: the negated
/// reading is tried first, the plain one on its failure (and it classifies
/// the error when both fail).
pub fn hex_signed_0x_byte<'a>(input: &'a str) -> (r: ParseResult<'a, u8>)
    ensures
        match r {
            Ok((rest, v)) => spec_hex_signed_0x_byte(input@) == Some((v, rest@)),
            Err(e) => spec_hex_signed_0x_byte(input@) is None && (e.kind, e.at@)
                == spec_hex_0x_byte_err(input@),
        },
{
    match hex_negative_0x_byte(input) {
        Ok(ok) => Ok(ok),
        Err(_) => hex_0x_byte(input),
    }
}

/// Parses the comma separator: optional whitespace, one comma, optional
/// whitespace. Returns the three matched pieces alongside the remainder.
pub fn c_list_separator<'a>(input: &'a str) -> (r: ParseResult<'a, (&'a str, char, &'a str)>)
    ensures
        match r {
            Ok((rest, m)) => ({
                let a = space_run(input@) as int;
                let u = input@.skip(a + 1);
                &&& spec_comma_sep(input@) == Some(rest@)
                &&& m.0@ == input@.take(a)
                &&& m.1 == ','
                &&& m.2@ == u.take(space_run(u) as int)
            }),
            Err(e) => spec_comma_sep(input@) is None && (e.kind, e.at@) == spec_comma_sep_err(
                input@,
            ),
        },
{
    let a = space_run_len(input);
    proof {
        lemma_space_run(input@);
    }
    let n = input.unicode_len();
    if a == n {
        return Err(ParseErr { kind: ErrorKind::WrongLength, at: rest_from(input, a) });
    }
    if input.get_char(a) != ',' {
        return Err(ParseErr { kind: ErrorKind::InvalidDigit, at: rest_from(input, a) });
    }
    let ws1 = input.substring_char(0, a);
    let after = rest_from(input, a + 1);
    proof {
        assert(input@.skip(a as int).skip(1) =~= input@.skip(a + 1));
        lemma_space_run(after@);
        assert(ws1@ =~= input@.take(a as int));
    }
    let b = space_run_len(after);
    let ws2 = after.substring_char(0, b);
    let rest = rest_from(after, b);
    proof {
        assert(ws2@ =~= after@.take(b as int));
    }
    Ok((rest, (ws1, ',', ws2)))
}

/// The separator parser of a notation, as `spec_sep` fixes it: the escaped
/// notation needs none, bare hex takes any whitespace run, the rest take the
/// comma separator.
fn sep_parse<'a>(n: Notation, input: &'a str) -> (r: Option<&'a str>)
    ensures
        match r {
            Some(rest) => spec_sep(n, input@) == Some(rest@),
            None => spec_sep(n, input@) is None,
        },
{
    match n {
        Notation::HexEsc => Some(input),
        Notation::HexBare => {
            let a = space_run_len(input);
            proof {
                lemma_space_run(input@);
            }
            Some(rest_from(input, a))
        },
        _ => match c_list_separator(input) {
            Ok((rest, _)) => Some(rest),
            Err(_) => None,
        },
    }
}

/// The single-byte parser of a notation, as `spec_elem` fixes it.
fn elem_parse<'a>(n: Notation, input: &'a str) -> (r: ParseResult<'a, u8>)
    ensures
        match r {
            Ok((rest, v)) => spec_elem(n, input@) == Some((v, rest@)),
            Err(_) => spec_elem(n, input@) is None,
        },
{
    match n {
        Notation::Bin0b => bin_0b_byte(input),
        Notation::HexEsc => hex_esc_byte(input),
        Notation::Hex0x => hex_0x_byte(input),
        Notation::HexSigned => hex_signed_0x_byte(input),
        Notation::HexBare => hex_byte(input),
        Notation::Dec => dec_byte(input),
        Notation::DecSigned => dec_signed_byte(input),
    }
}

/// Parses a whole sequence of one notation: at least one element, then
/// greedily separator-plus-element as long as both parse. Fails with
/// `EmptySequence` exactly when no first element parses.
fn seq_of<'a>(n: Notation, input: &'a str) -> (r: ParseResult<'a, Vec<u8>>)
    ensures
        match r {
            Ok((rest, v)) => spec_seq(n, input@) == Some((v@, rest@)),
            Err(e) => spec_seq(n, input@) is None && e.kind == ErrorKind::EmptySequence && e.at@
                == input@,
        },
{
    match elem_parse(n, input) {
        Err(_) => Err(ParseErr { kind: ErrorKind::EmptySequence, at: input }),
        Ok((first_rest, b0)) => {
            let mut out: Vec<u8> = Vec::new();
            out.push(b0);
            let mut cur: &'a str = first_rest;
            proof {
                assert(out@ =~= seq![b0]);
            }
            loop
                invariant
                    spec_seq(n, input@) matches Some(p) && p.0 == out@ + spec_seq_tail(n, cur@).0
                        && p.1 == spec_seq_tail(n, cur@).1,
                ensures
                    spec_seq(n, input@) == Some((out@, cur@)),
                decreases cur@.len(),
            {
                let ghost pre = cur@;
                match sep_parse(n, cur) {
                    None => {
                        proof {
                            assert(spec_seq_tail(n, pre) == (Seq::<u8>::empty(), pre));
                            assert(out@ + Seq::<u8>::empty() =~= out@);
                        }
                        break ;
                    },
                    Some(s1) => {
                        match elem_parse(n, s1) {
                            Err(_) => {
                                proof {
                                    assert(spec_seq_tail(n, pre) == (Seq::<u8>::empty(), pre));
                                    assert(out@ + Seq::<u8>::empty() =~= out@);
                                }
                                break ;
                            },
                            Ok((rest, b)) => {
                                proof {
                                    lemma_sep_no_grow(n, pre);
                                    lemma_elem_consumes(n, s1@);
                                    assert(spec_seq_tail(n, pre) == (
                                        seq![b] + spec_seq_tail(n, rest@).0,
                                        spec_seq_tail(n, rest@).1,
                                    ));
                                    assert(out@ + (seq![b] + spec_seq_tail(n, rest@).0) =~= (out@
                                        + seq![b]) + spec_seq_tail(n, rest@).0);
                                    assert(out@.push(b) =~= out@ + seq![b]);
                                }
                                out.push(b);
                                cur = rest;
                            },
                        }
                    },
                }
            }
            Ok((cur, out))
        },
    }
}

/// Parses a comma-separated sequence of `0x`-prefixed hex bytes.
pub fn hex_0x_seq<'a>(input: &'a str) -> (r: ParseResult<'a, Vec<u8>>)
    ensures
        match r {
            Ok((rest, v)) => spec_seq(Notation::Hex0x, input@) == Some((v@, rest@)),
            Err(e) => spec_seq(Notation::Hex0x, input@) is None && e.kind
                == ErrorKind::EmptySequence && e.at@ == input@,
        },
{
    seq_of(Notation::Hex0x, input)
}

/// Parses a comma-separated sequence of `0b`-prefixed binary bytes.
pub fn bin_0b_seq<'a>(input: &'a str) -> (r: ParseResult<'a, Vec<u8>>)
    ensures
        match r {
            Ok((rest, v)) => spec_seq(Notation::Bin0b, input@) == Some((v@, rest@)),
            Err(e) => spec_seq(Notation::Bin0b, input@) is None && e.kind
                == ErrorKind::EmptySequence && e.at@ == input@,
        },
{
    seq_of(Notation::Bin0b, input)
}

/// Parses a sequence of `\x`-prefixed hex bytes, concatenated with no
/// separator between them.
pub fn hex_esc_seq<'a>(input: &'a str) -> (r: ParseResult<'a, Vec<u8>>)
    ensures
        match r {
            Ok((rest, v)) => spec_seq(Notation::HexEsc, input@) == Some((v@, rest@)),
            Err(e) => spec_seq(Notation::HexEsc, input@) is None && e.kind
                == ErrorKind::EmptySequence && e.at@ == input@,
        },
{
    seq_of(Notation::HexEsc, input)
}

/// Parses a sequence of bare hex pairs, separated by zero-or-more
/// whitespace characters.
pub fn hex_seq<'a>(input: &'a str) -> (r: ParseResult<'a, Vec<u8>>)
    ensures
        match r {
            Ok((rest, v)) => spec_seq(Notation::HexBare, input@) == Some((v@, rest@)),
            Err(e) => spec_seq(Notation::HexBare, input@) is None && e.kind
                == ErrorKind::EmptySequence && e.at@ == input@,
        },
{
    seq_of(Notation::HexBare, input)
}

/// Parses a comma-separated sequence of optionally `-`-signed
/// `0x`-prefixed hex bytes.
pub fn hex_signed_seq<'a>(input: &'a str) -> (r: ParseResult<'a, Vec<u8>>)
    ensures
        match r {
            Ok((rest, v)) => spec_seq(Notation::HexSigned, input@) == Some((v@, rest@)),
            Err(e) => spec_seq(Notation::HexSigned, input@) is None && e.kind
                == ErrorKind::EmptySequence && e.at@ == input@,
        },
{
    seq_of(Notation::HexSigned, input)
}

/// Parses a comma-separated sequence of unsigned decimal bytes.
pub fn dec_seq<'a>(input: &'a str) -> (r: ParseResult<'a, Vec<u8>>)
    ensures
        match r {
            Ok((rest, v)) => spec_seq(Notation::Dec, input@) == Some((v@, rest@)),
            Err(e) => spec_seq(Notation::Dec, input@) is None && e.kind == ErrorKind::EmptySequence
                && e.at@ == input@,
        },
{
    seq_of(Notation::Dec, input)
}

/// Parses a comma-separated sequence of optionally `-`-signed decimal
/// bytes.
pub fn dec_signed_seq<'a>(input: &'a str) -> (r: ParseResult<'a, Vec<u8>>)
    ensures
        match r {
            Ok((rest, v)) => spec_seq(Notation::DecSigned, input@) == Some((v@, rest@)),
            Err(e) => spec_seq(Notation::DecSigned, input@) is None && e.kind
                == ErrorKind::EmptySequence && e.at@ == input@,
        },
{
    seq_of(Notation::DecSigned, input)
}

/// The auto-detecting dispatcher: tries every sequence notation in the fixed
/// priority order of `spec_any_seq`, rewinding to the start of the input
/// between attempts, and returns the first successful parse. Fails with
/// `NoAlternativeMatched` exactly when every notation fails.
pub fn any_seq<'a>(input: &'a str) -> (r: ParseResult<'a, Vec<u8>>)
    ensures
        match r {
            Ok((rest, v)) => spec_any_seq(input@) == Some((v@, rest@)),
            Err(e) => spec_any_seq(input@) is None && e.kind == ErrorKind::NoAlternativeMatched
                && e.at@ == input@,
        },
{
    match seq_of(Notation::Bin0b, input) {
        Ok(ok) => { return Ok(ok) },
        Err(_) => {},
    }
    match seq_of(Notation::HexEsc, input) {
        Ok(ok) => { return Ok(ok) },
        Err(_) => {},
    }
    match seq_of(Notation::Hex0x, input) {
        Ok(ok) => { return Ok(ok) },
        Err(_) => {},
    }
    match seq_of(Notation::HexSigned, input) {
        Ok(ok) => { return Ok(ok) },
        Err(_) => {},
    }
    match seq_of(Notation::HexBare, input) {
        Ok(ok) => { return Ok(ok) },
        Err(_) => {},
    }
    match seq_of(Notation::Dec, input) {
        Ok(ok) => { return Ok(ok) },
        Err(_) => {},
    }
    match seq_of(Notation::DecSigned, input) {
        Ok(ok) => { return Ok(ok) },
        Err(_) => Err(ParseErr { kind: ErrorKind::NoAlternativeMatched, at: input }),
    }
}

} // verus!
