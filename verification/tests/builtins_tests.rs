use hyper::builtins::{
    divmod_i64, format_radix, hyper_rt_builtin_bin, hyper_rt_builtin_chr, hyper_rt_builtin_hex,
    hyper_rt_builtin_oct, hyper_rt_builtin_ord, hyper_rt_floor_div_i64, hyper_rt_pow_i64,
    PayloadKind,
};

#[test]
fn radix_forms_of_small_integers() {
    assert_eq!(hyper_rt_builtin_bin(5, PayloadKind::I64, 1).unwrap(), "0b101");
    assert_eq!(hyper_rt_builtin_oct(8, PayloadKind::I64, 1).unwrap(), "0o10");
    assert_eq!(hyper_rt_builtin_hex(255, PayloadKind::I64, 1).unwrap(), "0xff");
    assert_eq!(hyper_rt_builtin_hex(0, PayloadKind::I64, 1).unwrap(), "0x0");
    assert_eq!(hyper_rt_builtin_bin(1, PayloadKind::Bool, 1).unwrap(), "0b1");
}

#[test]
fn radix_forms_of_negative_integers() {
    assert_eq!(hyper_rt_builtin_bin(-5, PayloadKind::I64, 1).unwrap(), "-0b101");
    assert_eq!(hyper_rt_builtin_hex(-255, PayloadKind::I64, 1).unwrap(), "-0xff");
    assert_eq!(
        hyper_rt_builtin_hex(i64::MIN, PayloadKind::I64, 1).unwrap(),
        "-0x8000000000000000"
    );
}

#[test]
fn unsigned_payloads_use_all_bits() {
    assert_eq!(
        hyper_rt_builtin_hex(-1, PayloadKind::U64, 1).unwrap(),
        "0xffffffffffffffff"
    );
    assert_eq!(
        hyper_rt_builtin_oct(-1, PayloadKind::U64, 1).unwrap(),
        "0o1777777777777777777777"
    );
}

#[test]
fn radix_of_a_non_integer_is_an_error() {
    assert_eq!(
        hyper_rt_builtin_hex(0, PayloadKind::Str, 4).unwrap_err(),
        "RuntimeError: line 4: hex() expected an integer"
    );
    assert_eq!(
        format_radix(3, PayloadKind::F64, 2, "bin", "0b", 2).unwrap_err(),
        "RuntimeError: line 2: bin() expected an integer"
    );
}

#[test]
fn integer_powers_wrap() {
    assert_eq!(hyper_rt_pow_i64(2, 10), 1024);
    assert_eq!(hyper_rt_pow_i64(-3, 3), -27);
    assert_eq!(hyper_rt_pow_i64(7, 0), 1);
    assert_eq!(hyper_rt_pow_i64(5, -1), 0);
    assert_eq!(hyper_rt_pow_i64(2, 63), i64::MIN);
    assert_eq!(hyper_rt_pow_i64(2, 64), 0);
    assert_eq!(hyper_rt_pow_i64(3, 41), 3i64.wrapping_pow(41));
}

#[test]
fn floor_division_rounds_down() {
    assert_eq!(hyper_rt_floor_div_i64(7, 2), 3);
    assert_eq!(hyper_rt_floor_div_i64(-7, 2), -4);
    assert_eq!(hyper_rt_floor_div_i64(7, -2), -4);
    assert_eq!(hyper_rt_floor_div_i64(-7, -2), 3);
    assert_eq!(hyper_rt_floor_div_i64(6, -2), -3);
}

#[test]
fn divmod_on_integers() {
    assert_eq!(divmod_i64(17, 5, 1).unwrap(), (3, 2));
    assert_eq!(divmod_i64(-17, 5, 1).unwrap(), (-4, 3));
    assert_eq!(divmod_i64(17, -5, 1).unwrap(), (-4, -3));
    assert_eq!(divmod_i64(-17, -5, 1).unwrap(), (3, -2));
    assert_eq!(divmod_i64(i64::MIN, 3, 1).unwrap(), (-3074457345618258603, 1));
    assert_eq!(
        divmod_i64(1, 0, 9).unwrap_err(),
        "RuntimeError: line 9: division by zero"
    );
}

#[test]
fn chr_builds_one_character() {
    assert_eq!(hyper_rt_builtin_chr(65, PayloadKind::I64, 1).unwrap(), "A");
    assert_eq!(hyper_rt_builtin_chr(0x1F600, PayloadKind::I64, 1).unwrap(), "😀");
    assert_eq!(
        hyper_rt_builtin_chr(0x110000, PayloadKind::I64, 3).unwrap_err(),
        "RuntimeError: line 3: chr() arg not in range(0x110000)"
    );
    assert_eq!(
        hyper_rt_builtin_chr(-1, PayloadKind::I64, 3).unwrap_err(),
        "RuntimeError: line 3: chr() arg not in range(0x110000)"
    );
    assert_eq!(
        hyper_rt_builtin_chr(0xD800, PayloadKind::I64, 3).unwrap_err(),
        "RuntimeError: line 3: chr() arg is a surrogate"
    );
    assert_eq!(
        hyper_rt_builtin_chr(65, PayloadKind::Bool, 3).unwrap_err(),
        "RuntimeError: line 3: chr() expected an integer"
    );
}

#[test]
fn ord_reads_one_character() {
    assert_eq!(hyper_rt_builtin_ord(PayloadKind::Str, "a", 1).unwrap(), 97);
    assert_eq!(hyper_rt_builtin_ord(PayloadKind::Str, "é", 1).unwrap(), 233);
    assert_eq!(
        hyper_rt_builtin_ord(PayloadKind::Str, "ab", 5).unwrap_err(),
        "RuntimeError: line 5: ord() expected a character string of length 1"
    );
    assert_eq!(
        hyper_rt_builtin_ord(PayloadKind::Str, "", 5).unwrap_err(),
        "RuntimeError: line 5: ord() expected a character string of length 1"
    );
    assert_eq!(
        hyper_rt_builtin_ord(PayloadKind::I64, "a", 5).unwrap_err(),
        "RuntimeError: line 5: ord() expected a string"
    );
}

#[test]
fn ord_undoes_chr() {
    for code in [0i64, 65, 233, 0xD7FF, 0xE000, 0x1F600, 0x10FFFF] {
        let text = hyper_rt_builtin_chr(code, PayloadKind::I64, 1).unwrap();
        assert_eq!(hyper_rt_builtin_ord(PayloadKind::Str, &text, 1).unwrap(), code);
    }
}

#[test]
fn divmod_recombines() {
    for (a, b) in [(17i64, 5i64), (-17, 5), (17, -5), (-17, -5), (i64::MAX, 7), (i64::MIN, 2)] {
        let (q, r) = divmod_i64(a, b, 1).unwrap();
        assert_eq!(q.wrapping_mul(b).wrapping_add(r), a);
        if b > 0 {
            assert!(0 <= r && r < b);
        } else {
            assert!(b < r && r <= 0);
        }
    }
}

#[test]
fn json_indent_argument() {
    assert_eq!(hyper::builtins::indent_arg(4, PayloadKind::I64), 4);
    assert_eq!(hyper::builtins::indent_arg(-2, PayloadKind::I64), 0);
    assert_eq!(hyper::builtins::indent_arg(4, PayloadKind::NoneValue), 0);
    assert!(PayloadKind::F64.is_numeric());
    assert!(PayloadKind::Bool.is_numeric());
    assert!(!PayloadKind::Str.is_numeric());
}
