use frawk::convert::{
    escape_csv, escape_tsv, float_prefix, hex_str_to_int, int_to_str, str_to_int,
};
use frawk::str_impl::Str;

fn s(text: &str) -> Str {
    Str::from_vec(text.as_bytes().to_vec())
}

fn txt(v: &Str) -> String {
    String::from_utf8(v.bytes().clone()).unwrap()
}

#[test]
fn str_len_and_concat() {
    let a = s("foo");
    let b = s("bar");
    assert_eq!(a.len(), 3);
    assert_eq!(txt(&Str::concat(&a, &b)), "foobar");
    assert_eq!(txt(&Str::concat(&s(""), &b)), "bar");
    assert_eq!(a.len_int(), 3);
}

#[test]
fn concat_substr_round_trip() {
    let a = s("hello");
    let b = s(" world");
    let joined = Str::concat(&a, &b);
    let first = joined.substr(1, a.len_int());
    assert!(first.eq_str(&a));
}

#[test]
fn substr_clamps_and_empties() {
    let h = s("hello");
    assert_eq!(txt(&h.substr(1, 5)), "hello");
    assert_eq!(txt(&h.substr(0, 99)), "hello");
    assert_eq!(txt(&h.substr(2, 4)), "ell");
    assert_eq!(txt(&h.substr(-3, 2)), "he");
    assert_eq!(txt(&h.substr(3, 2)), "");
    assert_eq!(txt(&h.substr(6, 9)), "");
    assert_eq!(txt(&h.substr(5, 5)), "o");
    assert_eq!(txt(&s("").substr(1, 1)), "");
}

#[test]
fn substr_index_first_occurrence() {
    assert_eq!(s("banana").index_of(&s("na")), 3);
    assert_eq!(s("banana").index_of(&s("a")), 2);
    assert_eq!(s("banana").index_of(&s("xyz")), 0);
    assert_eq!(s("banana").index_of(&s("")), 1);
    assert_eq!(s("").index_of(&s("a")), 0);
    assert_eq!(s("aaa").index_of(&s("aaa")), 1);
}

#[test]
fn lexicographic_compare() {
    assert!(s("abc").cmp_str(&s("abd")) < 0);
    assert!(s("abc").cmp_str(&s("abc")) == 0);
    assert!(s("abd").cmp_str(&s("abc")) > 0);
    assert!(s("ab").cmp_str(&s("abc")) < 0);
    assert!(s("b").cmp_str(&s("abc")) > 0);
    assert!(s("").cmp_str(&s("")) == 0);
}

#[test]
fn int_text_round_trip() {
    for &n in &[0i64, 1, -1, 42, -42, 9_007_199_254_740_993, i64::MAX, i64::MIN] {
        let t = int_to_str(n);
        assert_eq!(str_to_int(&t), n);
    }
    assert_eq!(txt(&int_to_str(0)), "0");
    assert_eq!(txt(&int_to_str(-123)), "-123");
    assert_eq!(txt(&int_to_str(i64::MIN)), "-9223372036854775808");
}

#[test]
fn str_to_int_prefix_rules() {
    assert_eq!(str_to_int(&s("42x")), 42);
    assert_eq!(str_to_int(&s("-7")), -7);
    assert_eq!(str_to_int(&s("+5")), 5);
    assert_eq!(str_to_int(&s("")), 0);
    assert_eq!(str_to_int(&s("abc")), 0);
    assert_eq!(str_to_int(&s("  12")), 0);
    assert_eq!(str_to_int(&s("0099")), 99);
}

#[test]
fn hex_parse() {
    assert_eq!(hex_str_to_int(&s("0x1A")), 26);
    assert_eq!(hex_str_to_int(&s("0XFF")), 255);
    assert_eq!(hex_str_to_int(&s("ff")), 255);
    assert_eq!(hex_str_to_int(&s("-0xff")), -255);
    assert_eq!(hex_str_to_int(&s("0x")), 0);
    assert_eq!(hex_str_to_int(&s("zz")), 0);
}

#[test]
fn csv_escaping() {
    assert_eq!(txt(&escape_csv(&s("plain"))), "plain");
    assert_eq!(txt(&escape_csv(&s("a,b"))), "\"a,b\"");
    assert_eq!(txt(&escape_csv(&s("say \"hi\""))), "\"say \"\"hi\"\"\"");
    assert_eq!(txt(&escape_csv(&s("line\nbreak"))), "\"line\nbreak\"");
}

#[test]
fn tsv_escaping() {
    assert_eq!(txt(&escape_tsv(&s("plain"))), "plain");
    assert_eq!(txt(&escape_tsv(&s("a\tb"))), "a\\tb");
    assert_eq!(txt(&escape_tsv(&s("a\nb"))), "a\\nb");
    assert_eq!(txt(&escape_tsv(&s("a\\b"))), "a\\\\b");
}

#[test]
fn float_prefix_scanning() {
    assert_eq!(float_prefix(&s("3.14xyz")), 4);
    assert_eq!(float_prefix(&s("-2e3")), 4);
    assert_eq!(float_prefix(&s("+.5")), 3);
    assert_eq!(float_prefix(&s("1.")), 2);
    assert_eq!(float_prefix(&s("1e+")), 1);
    assert_eq!(float_prefix(&s("1e+2")), 4);
    assert_eq!(float_prefix(&s("abc")), 0);
    assert_eq!(float_prefix(&s(".")), 0);
    assert_eq!(float_prefix(&s("")), 0);
}
