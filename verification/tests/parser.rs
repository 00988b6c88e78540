use bytelit::error::{ErrorKind, ParseErr};
use bytelit::parser::{
    any_seq, bin_0b_byte, bin_0b_seq, bin_byte, c_list_separator, dec_byte, dec_negative_byte,
    dec_seq, dec_signed_byte, dec_signed_seq, from_bin, from_dec, from_hex, hex_0x_byte,
    hex_0x_seq, hex_byte, hex_esc_byte, hex_esc_seq, hex_negative_0x_byte, hex_seq,
    hex_signed_0x_byte, hex_signed_seq, twos,
};

#[test]
fn parser_tests() {
    assert_eq!(hex_0x_byte("0xab"), Ok(("", 0xab)));
    assert_eq!(hex_esc_byte("\\xcd"), Ok(("", 0xcd)));
    assert_eq!(
        hex_0x_seq("0xde,0xad,0xbe,0xef"),
        Ok(("", vec![0xdeu8, 0xadu8, 0xbeu8, 0xefu8]))
    );
    assert_eq!(
        hex_0x_seq("0xde, 0xad ,0xbe , \n0xef"),
        Ok(("", vec![0xdeu8, 0xadu8, 0xbeu8, 0xefu8]))
    );
    assert_eq!(
        hex_esc_seq("\\xde\\xad\\xbe\\xef"),
        Ok(("", vec![0xdeu8, 0xadu8, 0xbeu8, 0xefu8]))
    );
    assert_eq!(
        hex_seq("dead  be ef "),
        Ok((" ", vec![0xdeu8, 0xadu8, 0xbeu8, 0xefu8]))
    );
    assert_eq!(
        bin_0b_seq("0b10101010 , 0b10111011,\r\n0b10101010 ,0b10111011"),
        Ok(("", vec![0xaau8, 0xbbu8, 0xaau8, 0xbbu8]))
    );
    assert_eq!(
        hex_signed_seq("-0x01,0x80,-0x03,-0x80"),
        Ok(("", vec![0xffu8, 0x80u8, 0xfdu8, 0x80u8]))
    );
    assert_eq!(
        dec_seq("1,15,255,0"),
        Ok(("", vec![0x01u8, 0x0fu8, 0xffu8, 0x00u8]))
    );
    assert_eq!(
        dec_signed_seq("-1,1,-127,128"),
        Ok(("", vec![0xffu8, 0x01u8, 0x81u8, 0x80u8]))
    );
}

#[test]
fn parser_selector_tests() {
    assert_eq!(
        any_seq("0xde,0xad,0xbe,0xef"),
        Ok(("", vec![0xdeu8, 0xadu8, 0xbeu8, 0xefu8]))
    );
    assert_eq!(
        any_seq("0xde, 0xad ,0xbe , \n0xef"),
        Ok(("", vec![0xdeu8, 0xadu8, 0xbeu8, 0xefu8]))
    );
    assert_eq!(
        any_seq("\\xde\\xad\\xbe\\xef"),
        Ok(("", vec![0xdeu8, 0xadu8, 0xbeu8, 0xefu8]))
    );
    assert_eq!(
        any_seq("dead  be ef "),
        Ok((" ", vec![0xdeu8, 0xadu8, 0xbeu8, 0xefu8]))
    );
    assert_eq!(
        any_seq("0b10101010 , 0b10111011,\r\n0b10101010 ,0b10111011"),
        Ok(("", vec![0xaau8, 0xbbu8, 0xaau8, 0xbbu8]))
    );
    assert_eq!(
        any_seq("-0x01,0x80,-0x03,-0x80"),
        Ok(("", vec![0xffu8, 0x80u8, 0xfdu8, 0x80u8]))
    );
    assert_eq!(
        any_seq("1,15,255,0"),
        Ok(("", vec![0x01u8, 0x0fu8, 0xffu8, 0x00u8]))
    );
    assert_eq!(
        any_seq("-1,1,-127,128"),
        Ok(("", vec![0xffu8, 0x01u8, 0x81u8, 0x80u8]))
    );
}

#[test]
fn round_trip_all_byte_values() {
    for b in 0..=255u8 {
        let hex = format!("{:02x}", b);
        assert_eq!(hex_byte(&hex), Ok(("", b)));
        assert_eq!(from_hex(&hex), Ok(b));
        let bin = format!("{:08b}", b);
        assert_eq!(bin_byte(&bin), Ok(("", b)));
        assert_eq!(from_bin(&bin), Ok(b));
        let dec = format!("{}", b);
        assert_eq!(dec_byte(&dec), Ok(("", b)));
        assert_eq!(from_dec(&dec), Ok(b));
    }
}

#[test]
fn round_trip_upper_case_hex() {
    for b in 0..=255u8 {
        let hex = format!("{:02X}", b);
        assert_eq!(hex_byte(&hex), Ok(("", b)));
    }
}

#[test]
fn twos_complement_involution_all_byte_values() {
    for b in 0..=255u8 {
        assert_eq!(twos(twos(b)), b);
    }
}

#[test]
fn twos_complement_values() {
    assert_eq!(twos(0), 0);
    assert_eq!(twos(1), 255);
    assert_eq!(twos(3), 253);
    assert_eq!(twos(127), 129);
    assert_eq!(twos(128), 128);
    assert_eq!(twos(255), 1);
}

#[test]
fn selector_agrees_with_notation_builders() {
    let inputs = [
        "0b10101010 , 0b10111011,\r\n0b10101010 ,0b10111011",
        "\\xde\\xad\\xbe\\xef",
        "0xde,0xad,0xbe,0xef",
        "-0x01,0x80,-0x03,-0x80",
        "dead  be ef ",
        "1,15,255,0",
        "-1,1,-127,128",
    ];
    assert_eq!(any_seq(inputs[0]), bin_0b_seq(inputs[0]));
    assert_eq!(any_seq(inputs[1]), hex_esc_seq(inputs[1]));
    assert_eq!(any_seq(inputs[2]), hex_0x_seq(inputs[2]));
    assert_eq!(any_seq(inputs[3]), hex_signed_seq(inputs[3]));
    assert_eq!(any_seq(inputs[4]), hex_seq(inputs[4]));
    assert_eq!(any_seq(inputs[5]), dec_seq(inputs[5]));
    assert_eq!(any_seq(inputs[6]), dec_signed_seq(inputs[6]));
}

#[test]
fn selector_priority_on_ambiguous_digits() {
    // A two-digit run is claimed by the bare-hex notation, which outranks
    // decimal in the priority order.
    assert_eq!(any_seq("12"), Ok(("", vec![0x12u8])));
    // A single digit cannot be a bare hex pair, so decimal gets it.
    assert_eq!(any_seq("1"), Ok(("", vec![1u8])));
    // An eight-digit binary-looking run without the 0b marker is bare hex.
    assert_eq!(any_seq("10101010"), Ok(("", vec![0x10u8, 0x10u8, 0x10u8, 0x10u8])));
}

#[test]
fn every_builder_fails_empty_with_empty_sequence() {
    let empty_err = |r: Result<(&str, Vec<u8>), ParseErr>| match r {
        Err(e) => e.kind == ErrorKind::EmptySequence && e.at == "",
        Ok(_) => false,
    };
    assert!(empty_err(hex_0x_seq("")));
    assert!(empty_err(hex_esc_seq("")));
    assert!(empty_err(hex_seq("")));
    assert!(empty_err(hex_signed_seq("")));
    assert!(empty_err(bin_0b_seq("")));
    assert!(empty_err(dec_seq("")));
    assert!(empty_err(dec_signed_seq("")));
}

#[test]
fn every_builder_fails_on_bad_first_token() {
    let input = "zz,zz";
    let no_first = |r: Result<(&str, Vec<u8>), ParseErr>| match r {
        Err(e) => e.kind == ErrorKind::EmptySequence && e.at == input,
        Ok(_) => false,
    };
    assert!(no_first(hex_0x_seq(input)));
    assert!(no_first(hex_esc_seq(input)));
    assert!(no_first(hex_seq(input)));
    assert!(no_first(hex_signed_seq(input)));
    assert!(no_first(bin_0b_seq(input)));
    assert!(no_first(dec_seq(input)));
    assert!(no_first(dec_signed_seq(input)));
}

#[test]
fn selector_fails_with_no_alternative_matched() {
    match any_seq("zz,zz") {
        Err(e) => {
            assert_eq!(e.kind, ErrorKind::NoAlternativeMatched);
            assert_eq!(e.at, "zz,zz");
        }
        Ok(_) => panic!("dispatcher accepted an input no notation accepts"),
    }
}

#[test]
fn invalid_digit_errors() {
    assert_eq!(
        hex_byte("zz"),
        Err(ParseErr {
            kind: ErrorKind::InvalidDigit,
            at: "zz"
        })
    );
    assert_eq!(
        bin_byte("10101012"),
        Err(ParseErr {
            kind: ErrorKind::InvalidDigit,
            at: "10101012"
        })
    );
    assert_eq!(
        dec_byte("x1"),
        Err(ParseErr {
            kind: ErrorKind::InvalidDigit,
            at: "x1"
        })
    );
    assert_eq!(
        from_hex("a b"),
        Err(ParseErr {
            kind: ErrorKind::InvalidDigit,
            at: "a b"
        })
    );
    assert_eq!(
        from_hex(""),
        Err(ParseErr {
            kind: ErrorKind::InvalidDigit,
            at: ""
        })
    );
    // The marker is present but the digits after it are bad; the error
    // points at the unconsumed input where the digits were expected.
    assert_eq!(
        hex_0x_byte("0xzz"),
        Err(ParseErr {
            kind: ErrorKind::InvalidDigit,
            at: "zz"
        })
    );
}

#[test]
fn wrong_length_errors() {
    assert_eq!(
        hex_byte("a"),
        Err(ParseErr {
            kind: ErrorKind::WrongLength,
            at: "a"
        })
    );
    assert_eq!(
        bin_byte("1010101"),
        Err(ParseErr {
            kind: ErrorKind::WrongLength,
            at: "1010101"
        })
    );
    assert_eq!(
        hex_0x_byte("0"),
        Err(ParseErr {
            kind: ErrorKind::WrongLength,
            at: "0"
        })
    );
    assert_eq!(
        dec_negative_byte(""),
        Err(ParseErr {
            kind: ErrorKind::WrongLength,
            at: ""
        })
    );
}

#[test]
fn overflow_errors() {
    assert_eq!(
        dec_byte("256"),
        Err(ParseErr {
            kind: ErrorKind::Overflow,
            at: "256"
        })
    );
    assert_eq!(
        from_dec("999"),
        Err(ParseErr {
            kind: ErrorKind::Overflow,
            at: "999"
        })
    );
    assert_eq!(
        from_hex("100"),
        Err(ParseErr {
            kind: ErrorKind::Overflow,
            at: "100"
        })
    );
    // A decimal run is consumed greedily, so a too-long run overflows
    // rather than stopping at 255.
    assert_eq!(
        dec_seq("1,256"),
        Ok((",256", vec![1u8]))
    );
}

#[test]
fn signed_byte_values() {
    assert_eq!(dec_signed_byte("-1"), Ok(("", 0xff)));
    assert_eq!(dec_signed_byte("128"), Ok(("", 0x80)));
    assert_eq!(dec_negative_byte("-200"), Ok(("", 56)));
    assert_eq!(hex_signed_0x_byte("-0x01"), Ok(("", 0xff)));
    assert_eq!(hex_signed_0x_byte("0x80"), Ok(("", 0x80)));
    assert_eq!(hex_negative_0x_byte("-0x80"), Ok(("", 0x80)));
}

#[test]
fn comma_separator_pieces() {
    assert_eq!(c_list_separator(" , x"), Ok(("x", (" ", ',', " "))));
    assert_eq!(c_list_separator(",y"), Ok(("y", ("", ',', ""))));
    assert_eq!(
        c_list_separator("  \r\n"),
        Err(ParseErr {
            kind: ErrorKind::WrongLength,
            at: ""
        })
    );
    assert_eq!(
        c_list_separator(" x"),
        Err(ParseErr {
            kind: ErrorKind::InvalidDigit,
            at: "x"
        })
    );
}

#[test]
fn greedy_tail_stops_without_consuming() {
    // After the last full element the separator may match, but with no
    // element after it the sequence ends before the separator.
    assert_eq!(hex_0x_seq("0xab, "), Ok((", ", vec![0xabu8])));
    assert_eq!(dec_seq("7,"), Ok((",", vec![7u8])));
    assert_eq!(hex_esc_seq("\\xab\\x"), Ok(("\\x", vec![0xabu8])));
}
