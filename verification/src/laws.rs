//! Laws of the grammar, stated and proved once for all inputs: the
//! two's-complement involution, the round trips from a byte value through
//! its canonical rendering back to the value, and the failure of every
//! sequence grammar where no first element parses.

use vstd::prelude::*;

use vstd::arithmetic::div_mod::{lemma_fundamental_div_mod, lemma_mod_breakdown};

use crate::grammar::{
    all_digits, digit_char, digit_run, digit_val, digits_val, is_digit, pow_nat, render_dec,
    render_fixed, spec_any_seq, spec_bin_byte, spec_dec_byte, spec_elem, spec_hex_byte, spec_seq,
    twos_comp, Notation,
};

verus! {

/// Two's-complement negation is an involution: negating any byte value twice
/// returns the original value.
pub proof fn lemma_twos_comp_involution(m: u8)
    ensures
        twos_comp(twos_comp(m)) == m,
{
}

/// `digit_char` and `digit_val` are inverse on the digit values 0 to 15.
pub proof fn lemma_digit_char_val(d: nat)
    requires
        d < 16,
    ensures
        digit_val(digit_char(d)) == d,
{
}

/// `pow_nat` of a positive base is positive.
pub proof fn lemma_pow_nat_pos(radix: nat, e: nat)
    requires
        radix >= 1,
    ensures
        pow_nat(radix, e) >= 1,
    decreases e,
{
    if e > 0 {
        lemma_pow_nat_pos(radix, (e - 1) as nat);
        assert(radix * pow_nat(radix, (e - 1) as nat) >= 1) by (nonlinear_arith)
            requires
                radix >= 1,
                pow_nat(radix, (e - 1) as nat) >= 1,
        ;
    }
}

/// The fixed-width rendering has the asked width, holds digits of the base
/// only, and reads back as the value modulo `radix ^ width`.
pub proof fn lemma_render_fixed(v: nat, width: nat, radix: nat)
    requires
        2 <= radix <= 16,
    ensures
        render_fixed(v, width, radix).len() == width,
        all_digits(render_fixed(v, width, radix), radix),
        digits_val(render_fixed(v, width, radix), radix) == v % pow_nat(radix, width),
    decreases width,
{
    if width == 0 {
        assert(v % 1 == 0);
    } else {
        let w1 = (width - 1) as nat;
        let head = render_fixed(v / radix, w1, radix);
        lemma_render_fixed(v / radix, w1, radix);
        lemma_digit_char_val(v % radix);
        let s = head.push(digit_char(v % radix));
        assert(s.drop_last() =~= head);
        assert(s.last() == digit_char(v % radix));
        assert forall|i: int| 0 <= i < s.len() implies is_digit(#[trigger] s[i], radix) by {
            if i < head.len() {
                assert(s[i] == head[i]);
            }
        }
        lemma_pow_nat_pos(radix, w1);
        let p = pow_nat(radix, w1);
        lemma_mod_breakdown(v as int, radix as int, p as int);
        assert(pow_nat(radix, width) == radix * p);
        assert(digits_val(s, radix) == digits_val(s.drop_last(), radix) * radix + digit_val(
            s.last(),
        ));
        assert(digits_val(s, radix) == ((v / radix) % p) * radix + v % radix);
        assert(v % (radix * p) == radix * ((v / radix) % p) + v % radix);
        assert(digits_val(s, radix) == v % pow_nat(radix, width));
    }
}

/// The canonical decimal rendering is non-empty, holds decimal digits only,
/// and reads back as exactly the value.
pub proof fn lemma_render_dec(v: nat)
    ensures
        render_dec(v).len() >= 1,
        all_digits(render_dec(v), 10),
        digits_val(render_dec(v), 10) == v,
    decreases v,
{
    if v < 10 {
        let s = render_dec(v);
        lemma_digit_char_val(v);
        assert(s.drop_last() =~= Seq::<char>::empty());
        assert(s.last() == digit_char(v));
        assert(digits_val(s, 10) == digits_val(s.drop_last(), 10) * 10 + digit_val(s.last()));
        assert(digits_val(s, 10) == v);
    } else {
        let head = render_dec(v / 10);
        lemma_render_dec(v / 10);
        lemma_digit_char_val(v % 10);
        let s = head.push(digit_char(v % 10));
        assert(s.drop_last() =~= head);
        assert(s.last() == digit_char(v % 10));
        assert forall|i: int| 0 <= i < s.len() implies is_digit(#[trigger] s[i], 10) by {
            if i < head.len() {
                assert(s[i] == head[i]);
            }
        }
        lemma_fundamental_div_mod(v as int, 10);
    }
}

/// On a string of decimal digits only, the digit run is the whole string.
pub proof fn lemma_digit_run_all(s: Seq<char>)
    requires
        all_digits(s, 10),
    ensures
        digit_run(s) == s.len(),
    decreases s.len(),
{
    if s.len() > 0 {
        let t = s.skip(1);
        assert forall|i: int| 0 <= i < t.len() implies is_digit(#[trigger] t[i], 10) by {
            assert(t[i] == s[i + 1]);
        }
        lemma_digit_run_all(t);
    }
}

/// Round trip through hex: decoding the canonical two-digit hex rendering of
/// any byte value returns that value, with nothing left over.
pub proof fn lemma_hex_byte_round_trip(b: u8)
    ensures
        spec_hex_byte(render_fixed(b as nat, 2, 16)) == Some((b, Seq::<char>::empty())),
{
    let s = render_fixed(b as nat, 2, 16);
    lemma_render_fixed(b as nat, 2, 16);
    assert(pow_nat(16, 2) == 256) by {
        reveal_with_fuel(pow_nat, 3);
    }
    assert(digits_val(s, 16) == (b as nat) % pow_nat(16, 2));
    assert((b as nat) % 256 == b as nat);
    assert(digits_val(s, 16) == b as nat);
    assert(s.take(2) =~= s);
    assert(s.skip(2) =~= Seq::<char>::empty());
}

/// Round trip through binary: decoding the canonical eight-digit binary
/// rendering of any byte value returns that value, with nothing left over.
pub proof fn lemma_bin_byte_round_trip(b: u8)
    ensures
        spec_bin_byte(render_fixed(b as nat, 8, 2)) == Some((b, Seq::<char>::empty())),
{
    let s = render_fixed(b as nat, 8, 2);
    lemma_render_fixed(b as nat, 8, 2);
    assert(pow_nat(2, 8) == 256) by {
        reveal_with_fuel(pow_nat, 9);
    }
    assert(digits_val(s, 2) == (b as nat) % pow_nat(2, 8));
    assert((b as nat) % 256 == b as nat);
    assert(digits_val(s, 2) == b as nat);
    assert(s.take(8) =~= s);
    assert(s.skip(8) =~= Seq::<char>::empty());
}

/// Round trip through decimal: decoding the canonical decimal rendering of
/// any byte value returns that value, with nothing left over.
pub proof fn lemma_dec_byte_round_trip(b: u8)
    ensures
        spec_dec_byte(render_dec(b as nat)) == Some((b, Seq::<char>::empty())),
{
    let s = render_dec(b as nat);
    lemma_render_dec(b as nat);
    lemma_digit_run_all(s);
    let k = digit_run(s) as int;
    assert(s.take(k) =~= s);
    assert(s.skip(k) =~= Seq::<char>::empty());
}

/// A sequence grammar fails exactly where its first element does: there is
/// no other way for a sequence to fail.
pub proof fn lemma_seq_fails_iff_no_first_element(n: Notation, s: Seq<char>)
    ensures
        spec_seq(n, s) is None <==> spec_elem(n, s) is None,
{
}

/// Every sequence grammar fails on empty input.
pub proof fn lemma_seq_fails_on_empty(n: Notation)
    ensures
        spec_seq(n, Seq::<char>::empty()) is None,
{
}

/// A successfully parsed sequence is never empty: every sequence grammar
/// requires at least one element.
pub proof fn lemma_seq_nonempty(n: Notation, s: Seq<char>)
    ensures
        spec_seq(n, s) matches Some(p) ==> p.0.len() >= 1,
{
}

/// The dispatcher respects its priority order: the result is that of the
/// first notation in the fixed order whose sequence parses.
pub proof fn lemma_any_seq_priority(s: Seq<char>)
    ensures
        spec_seq(Notation::Bin0b, s) is Some ==> spec_any_seq(s) == spec_seq(Notation::Bin0b, s),
        spec_seq(Notation::Bin0b, s) is None && spec_seq(Notation::HexEsc, s) is Some
            ==> spec_any_seq(s) == spec_seq(Notation::HexEsc, s),
        spec_seq(Notation::Bin0b, s) is None && spec_seq(Notation::HexEsc, s) is None && spec_seq(
            Notation::Hex0x,
            s,
        ) is Some ==> spec_any_seq(s) == spec_seq(Notation::Hex0x, s),
        spec_seq(Notation::Bin0b, s) is None && spec_seq(Notation::HexEsc, s) is None && spec_seq(
            Notation::Hex0x,
            s,
        ) is None && spec_seq(Notation::HexSigned, s) is Some ==> spec_any_seq(s) == spec_seq(
            Notation::HexSigned,
            s,
        ),
        spec_seq(Notation::Bin0b, s) is None && spec_seq(Notation::HexEsc, s) is None && spec_seq(
            Notation::Hex0x,
            s,
        ) is None && spec_seq(Notation::HexSigned, s) is None && spec_seq(
            Notation::HexBare,
            s,
        ) is Some ==> spec_any_seq(s) == spec_seq(Notation::HexBare, s),
        spec_seq(Notation::Bin0b, s) is None && spec_seq(Notation::HexEsc, s) is None && spec_seq(
            Notation::Hex0x,
            s,
        ) is None && spec_seq(Notation::HexSigned, s) is None && spec_seq(
            Notation::HexBare,
            s,
        ) is None && spec_seq(Notation::Dec, s) is Some ==> spec_any_seq(s) == spec_seq(
            Notation::Dec,
            s,
        ),
        spec_seq(Notation::Bin0b, s) is None && spec_seq(Notation::HexEsc, s) is None && spec_seq(
            Notation::Hex0x,
            s,
        ) is None && spec_seq(Notation::HexSigned, s) is None && spec_seq(
            Notation::HexBare,
            s,
        ) is None && spec_seq(Notation::Dec, s) is None ==> spec_any_seq(s) == spec_seq(
            Notation::DecSigned,
            s,
        ),
{
}

/// The dispatcher fails exactly when every notation fails.
pub proof fn lemma_any_seq_none_iff_all_none(s: Seq<char>)
    ensures
        spec_any_seq(s) is None <==> (forall|n: Notation| (#[trigger] spec_seq(n, s)) is None),
{
    if spec_any_seq(s) is None {
        assert forall|n: Notation| (#[trigger] spec_seq(n, s)) is None by {
            match n {
                Notation::Bin0b => {},
                Notation::HexEsc => {},
                Notation::Hex0x => {},
                Notation::HexSigned => {},
                Notation::HexBare => {},
                Notation::Dec => {},
                Notation::DecSigned => {},
            }
        }
    }
}

} // verus!
