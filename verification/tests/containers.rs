use frawk::error::VmError;
use frawk::line::{split_text, JoinEscape, LineEngine};
use frawk::map_impl::{IntMap, StrMap};
use frawk::regex_cache::{Pattern, RegexCache};
use frawk::str_impl::Str;

fn s(text: &str) -> Str {
    Str::from_vec(text.as_bytes().to_vec())
}

fn txt(v: &Str) -> String {
    String::from_utf8(v.bytes().clone()).unwrap()
}

#[test]
fn int_map_insertion_order() {
    let mut m: IntMap<i64> = IntMap::new();
    m.insert(5, 50);
    m.insert(1, 10);
    m.insert(3, 30);
    m.insert(5, 55);
    assert_eq!(m.len(), 3);
    assert_eq!(m.get_ref(5), Some(&55));
    assert_eq!(m.get_ref(1), Some(&10));
    assert_eq!(m.get_ref(2), None);
    let mut it = m.to_iter();
    let mut keys: Vec<i64> = Vec::new();
    while it.has_next() {
        keys.push(it.get_next());
    }
    assert_eq!(keys, vec![5, 1, 3]);
}

#[test]
fn int_map_delete_keeps_order() {
    let mut m: IntMap<i64> = IntMap::new();
    m.insert(1, 1);
    m.insert(2, 2);
    m.insert(3, 3);
    m.delete(2);
    assert_eq!(m.len(), 2);
    assert!(!m.contains(2));
    let mut it = m.to_iter();
    let mut keys: Vec<i64> = Vec::new();
    while it.has_next() {
        keys.push(it.get_next());
    }
    assert_eq!(keys, vec![1, 3]);
}

#[test]
fn snapshot_survives_mutation() {
    let mut m: IntMap<i64> = IntMap::new();
    m.insert(10, 1);
    m.insert(20, 2);
    m.insert(30, 3);
    let mut it = m.to_iter();
    m.delete(20);
    m.insert(40, 4);
    m.insert(10, 9);
    let mut keys: Vec<i64> = Vec::new();
    while it.has_next() {
        keys.push(it.get_next());
    }
    assert_eq!(keys, vec![10, 20, 30]);
    assert!(!it.has_next());
}

#[test]
fn str_map_basics() {
    let mut m: StrMap<i64> = StrMap::new();
    m.insert(s("one"), 1);
    m.insert(s("two"), 2);
    m.insert(s("one"), 11);
    assert_eq!(m.len(), 2);
    assert_eq!(m.get_ref(&s("one")), Some(&11));
    assert_eq!(m.get_ref(&s("three")), None);
    m.delete(&s("one"));
    assert_eq!(m.len(), 1);
    let mut it = m.to_iter();
    assert!(it.has_next());
    assert_eq!(txt(&it.get_next()), "two");
    assert!(!it.has_next());
}

#[test]
fn pattern_compile_and_match() {
    assert!(Pattern::compile(&s("a+b")).is_some());
    assert!(Pattern::compile(&s("(")).is_none());
    let p = Pattern::compile(&s("an")).unwrap();
    assert!(p.is_match(&s("banana")));
    assert!(!p.is_match(&s("xyz")));
    assert_eq!(p.match_loc(&s("banana")), (2, 2));
    assert_eq!(p.match_loc(&s("xyz")), (0, -1));
}

#[test]
fn is_match_iff_match_loc_nonzero() {
    let mut rc = RegexCache::new();
    for hay in &["banana", "xyz", "", "nan"] {
        let m = rc.is_match(&s("na+"), &s(hay)).unwrap();
        let loc = rc.match_loc(&s("na+"), &s(hay)).unwrap();
        assert_eq!(m, loc.0 != 0);
    }
}

#[test]
fn regex_cache_reports_bad_pattern() {
    let mut rc = RegexCache::new();
    assert_eq!(rc.is_match(&s("["), &s("x")), Err(VmError::RegexSyntax));
}

#[test]
fn substitute_first_and_all() {
    let mut rc = RegexCache::new();
    let (out, n) = rc.subst_first(&s("a"), &s("bb"), &s("banana")).unwrap();
    assert_eq!(txt(&out), "bbbnana");
    assert_eq!(n, 1);
    let (out, n) = rc.subst_all(&s("a"), &s("bb"), &s("banana")).unwrap();
    assert_eq!(txt(&out), "bbbnbbnbb");
    assert_eq!(n, 3);
    let (out, n) = rc.subst_all(&s("z"), &s("q"), &s("banana")).unwrap();
    assert_eq!(txt(&out), "banana");
    assert_eq!(n, 0);
}

#[test]
fn ampersand_expansion() {
    let mut rc = RegexCache::new();
    let (out, _) = rc.subst_all(&s("an"), &s("[&]"), &s("banana")).unwrap();
    assert_eq!(txt(&out), "b[an][an]a");
    let (out, _) = rc.subst_first(&s("an"), &s("\\&"), &s("banana")).unwrap();
    assert_eq!(txt(&out), "b&ana");
}

#[test]
fn split_pieces_by_regex() {
    let mut rc = RegexCache::new();
    let pieces = rc.split_pieces(&s(":+"), &s("p::q:r")).unwrap();
    let texts: Vec<String> = pieces.iter().map(|p| txt(p)).collect();
    assert_eq!(texts, vec!["p", "q", "r"]);
}

#[test]
fn split_text_separator_rules() {
    let mut rc = RegexCache::new();
    let blank = split_text(&s("  a  b\tc "), &s(" "), &mut rc).unwrap();
    let texts: Vec<String> = blank.iter().map(|p| txt(p)).collect();
    assert_eq!(texts, vec!["a", "b", "c"]);

    let lit = split_text(&s("a,,b,"), &s(","), &mut rc).unwrap();
    let texts: Vec<String> = lit.iter().map(|p| txt(p)).collect();
    assert_eq!(texts, vec!["a", "", "b", ""]);

    let empty = split_text(&s(""), &s(","), &mut rc).unwrap();
    assert_eq!(empty.len(), 0);
}

#[test]
fn line_engine_fields() {
    let mut le = LineEngine::new();
    let mut rc = RegexCache::new();
    le.set_record(s("a,b,c"));
    let fs = s(",");
    assert_eq!(le.nf(&fs, &mut rc).unwrap(), 3);
    assert_eq!(txt(&le.get_col(0, &fs, &mut rc).unwrap()), "a,b,c");
    assert_eq!(txt(&le.get_col(2, &fs, &mut rc).unwrap()), "b");
    assert_eq!(txt(&le.get_col(9, &fs, &mut rc).unwrap()), "");
    assert!(matches!(le.get_col(-1, &fs, &mut rc), Err(VmError::NegativeField)));
}

#[test]
fn line_engine_set_col_rebuilds() {
    let mut le = LineEngine::new();
    let mut rc = RegexCache::new();
    le.set_record(s("a,b,c"));
    let fs = s(",");
    let ofs = s("-");
    le.set_col(2, &s("X"), &ofs, &fs, &mut rc).unwrap();
    assert_eq!(txt(&le.get_col(0, &fs, &mut rc).unwrap()), "a-X-c");
    le.set_col(5, &s("Y"), &ofs, &fs, &mut rc).unwrap();
    assert_eq!(txt(&le.get_col(0, &fs, &mut rc).unwrap()), "a-X-c--Y");
}

#[test]
fn join_columns_round_trip() {
    let mut le = LineEngine::new();
    let mut rc = RegexCache::new();
    le.set_record(s("p:q:r"));
    let fs = s(":");
    let nf = le.nf(&fs, &mut rc).unwrap();
    let joined = le.join_cols(1, nf, &fs, JoinEscape::Plain, &fs, &mut rc).unwrap();
    assert_eq!(txt(&joined), "p:q:r");
}

#[test]
fn join_columns_csv() {
    let mut le = LineEngine::new();
    let mut rc = RegexCache::new();
    le.set_record(s("x|say \"hi\"|z"));
    let fs = s("|");
    let comma = s(",");
    let joined = le.join_cols(1, 3, &comma, JoinEscape::Csv, &fs, &mut rc).unwrap();
    assert_eq!(txt(&joined), "x,\"say \"\"hi\"\"\",z");
}
