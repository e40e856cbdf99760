use hyper::strings::{
    call_string_method, capitalize, char_find, char_rfind, count_sub, is_lower, is_title, is_upper,
    pad_center, pad_left, pad_right, rsplit_sep, split_sep, split_whitespace, swapcase, title_case,
    zfill, StrArg, StrValue,
};

fn call(s: &str, method: &str, args: Vec<StrArg>) -> Result<StrValue, String> {
    call_string_method(s, method, &args, 3)
}

fn text(v: Result<StrValue, String>) -> String {
    match v {
        Ok(StrValue::Str(s)) => s,
        other => panic!("expected a string, got {:?}", other),
    }
}

fn list(v: Vec<&str>) -> Vec<String> {
    v.into_iter().map(|s| s.to_string()).collect()
}

#[test]
fn split_and_join_give_the_text_back() {
    for (s, d) in [("a,b,,c", ","), ("aaa", "aa"), ("", ","), ("xyz", ""), ("a--b--", "--")] {
        let parts = split_sep(s, d);
        assert_eq!(parts.join(d), s);
        let rparts = rsplit_sep(s, d);
        assert_eq!(rparts.join(d), s);
    }
}

#[test]
fn split_cuts_from_the_left_and_rsplit_from_the_right() {
    assert_eq!(split_sep("aaa", "aa"), list(vec!["", "a"]));
    assert_eq!(rsplit_sep("aaa", "aa"), list(vec!["a", ""]));
    assert_eq!(split_sep("abc", ""), list(vec!["", "a", "b", "c", ""]));
    assert_eq!(rsplit_sep("a,b", ","), list(vec!["a", "b"]));
    assert_eq!(split_whitespace("  one two\tthree \n"), list(vec!["one", "two", "three"]));
}

#[test]
fn find_counts_characters_not_bytes() {
    assert_eq!(char_find("héllo", "l"), 2);
    assert_eq!(char_rfind("héllo", "l"), 3);
    assert_eq!(char_find("abc", "z"), -1);
    assert_eq!(char_find("abc", ""), 0);
    assert_eq!(char_rfind("abc", ""), 3);
    assert_eq!(count_sub("aaaa", "aa"), 2);
    assert_eq!(count_sub("abc", ""), 4);
}

#[test]
fn padding_reaches_the_width() {
    assert_eq!(pad_center("ab", 7, '*'), "***ab**");
    assert_eq!(pad_center("ab", 5, '*'), "**ab*");
    assert_eq!(pad_center("abc", 6, '*'), "*abc**");
    assert_eq!(pad_left("ab", 4, ' '), "  ab");
    assert_eq!(pad_right("ab", 4, '.'), "ab..");
    assert_eq!(pad_center("abcdef", 3, '*'), "abcdef");
    assert_eq!(zfill("-42", 6), "-00042");
    assert_eq!(zfill("7", 3), "007");
    assert_eq!(zfill("+x", 1), "+x");
}

#[test]
fn case_methods_follow_unicode_mappings() {
    assert_eq!(capitalize("hELLO wORLD"), "Hello world");
    assert_eq!(capitalize("ßx"), "SSx");
    assert_eq!(title_case("hello-wORLD foo"), "Hello-World Foo");
    assert_eq!(swapcase("AbC1"), "aBc1");
    assert!(is_title("Hello World"));
    assert!(!is_title("Hello world"));
    assert!(!is_title("123"));
    assert!(is_lower("abc1"));
    assert!(!is_lower("aBc"));
    assert!(is_upper("ABC1"));
    assert!(!is_upper("123"));
}

#[test]
fn string_methods_dispatch_by_name() {
    assert_eq!(text(call("  hi  ", "strip", vec![])), "hi");
    assert_eq!(text(call("  hi  ", "lstrip", vec![])), "hi  ");
    assert_eq!(text(call("  hi  ", "rstrip", vec![])), "  hi");
    assert_eq!(text(call("Hello", "upper", vec![])), "HELLO");
    assert_eq!(text(call("Hello", "lower", vec![])), "hello");
    assert_eq!(
        text(call("-", "join", vec![StrArg::List(list(vec!["a", "b", "c"]))])),
        "a-b-c"
    );
    assert_eq!(call("héllo", "len", vec![]), Ok(StrValue::Int(5)));
    assert_eq!(
        call("hello", "startswith", vec![StrArg::Str("he".to_string())]),
        Ok(StrValue::Bool(true))
    );
    assert_eq!(
        call("hello", "endswith", vec![StrArg::Str("lo".to_string())]),
        Ok(StrValue::Bool(true))
    );
    assert_eq!(
        call("a b", "split", vec![]),
        Ok(StrValue::List(list(vec!["a", "b"])))
    );
    assert_eq!(
        text(call("aXbX", "replace", vec![StrArg::Str("X".to_string()), StrArg::Str("yy".to_string())])),
        "ayybyy"
    );
    assert_eq!(
        text(call("ab", "replace", vec![StrArg::Str("".to_string()), StrArg::Str("-".to_string())])),
        "-a-b-"
    );
    assert_eq!(call("abcabc", "rindex", vec![StrArg::Str("b".to_string())]), Ok(StrValue::Int(4)));
    assert_eq!(call("123", "isdigit", vec![]), Ok(StrValue::Bool(true)));
    assert_eq!(call("", "isdigit", vec![]), Ok(StrValue::Bool(false)));
    assert_eq!(call("héllo", "isalpha", vec![]), Ok(StrValue::Bool(true)));
    assert_eq!(call("a1", "isalnum", vec![]), Ok(StrValue::Bool(true)));
    assert_eq!(call(" \t", "isspace", vec![]), Ok(StrValue::Bool(true)));
    assert_eq!(call("é", "isascii", vec![]), Ok(StrValue::Bool(false)));
    assert_eq!(text(call("ab", "center", vec![StrArg::Int(6), StrArg::Str("-".to_string())])), "--ab--");
    assert_eq!(text(call("ab", "ljust", vec![StrArg::Int(-3)])), "ab");
    assert_eq!(text(call("ab", "rjust", vec![StrArg::Int(3)])), " ab");
    assert_eq!(text(call("-5", "zfill", vec![StrArg::Int(4)])), "-005");
    assert_eq!(text(call("prefix.rs", "removeprefix", vec![StrArg::Str("pre".to_string())])), "fix.rs");
    assert_eq!(text(call("main.rs", "removesuffix", vec![StrArg::Str(".rs".to_string())])), "main");
    assert_eq!(
        call("k=v=w", "partition", vec![StrArg::Str("=".to_string())]),
        Ok(StrValue::List(list(vec!["k", "=", "v=w"])))
    );
    assert_eq!(
        call("k=v=w", "rpartition", vec![StrArg::Str("=".to_string())]),
        Ok(StrValue::List(list(vec!["k=v", "=", "w"])))
    );
    assert_eq!(
        call("kv", "rpartition", vec![StrArg::Str("=".to_string())]),
        Ok(StrValue::List(list(vec!["", "", "kv"])))
    );
}

#[test]
fn string_method_errors_name_the_problem() {
    assert_eq!(
        call("x", "strip", vec![StrArg::Int(1)]).unwrap_err(),
        "RuntimeError: line 3: strip expects 0 argument(s) but got 1"
    );
    assert_eq!(
        call("x", "center", vec![]).unwrap_err(),
        "RuntimeError: line 3: center expects 1-2 argument(s) but got 0"
    );
    assert_eq!(
        call("x", "find", vec![StrArg::Int(1)]).unwrap_err(),
        "RuntimeError: line 3: 'find' expects a string argument"
    );
    assert_eq!(
        call("x", "zfill", vec![StrArg::Str("1".to_string())]).unwrap_err(),
        "RuntimeError: line 3: 'zfill' expects an integer argument"
    );
    assert_eq!(
        call("x", "center", vec![StrArg::Int(3), StrArg::Str("ab".to_string())]).unwrap_err(),
        "RuntimeError: line 3: 'center' fill character must be a single character"
    );
    assert_eq!(
        call("x", "join", vec![StrArg::Other]).unwrap_err(),
        "RuntimeError: line 3: 'join' expects a list argument"
    );
    assert_eq!(
        call("x", "index", vec![StrArg::Str("y".to_string())]).unwrap_err(),
        "RuntimeError: line 3: substring not found"
    );
    assert_eq!(
        call("x", "frobnicate", vec![]).unwrap_err(),
        "RuntimeError: line 3: string has no method 'frobnicate'"
    );
}
