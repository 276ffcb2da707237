use fapt::rfc822::{scan, Line};
use fapt::sections::split_sections;

fn line(key: &str, values: &[&str]) -> Line {
    (
        key.to_string(),
        values.iter().map(|v| v.to_string()).collect(),
    )
}

#[test]
fn rfc822_single_line_header() {
    assert_eq!(
        vec![line("Foo", &["bar"])],
        scan("Foo: bar\n").collect_lines().unwrap()
    );
}

#[test]
fn rfc822_multi_line_header() {
    assert_eq!(
        vec![line("Foo", &["bar", "baz"])],
        scan("Foo:\n bar\n baz\n").collect_lines().unwrap()
    );
}

#[test]
fn rfc822_multi_line_joined() {
    assert_eq!(
        vec![line("Foo", &["bar", "baz", "quux"])],
        scan("Foo: bar\n baz\n quux\n").collect_lines().unwrap()
    );
}

#[test]
fn rfc822_walkies() {
    let parts = split_sections(b"foo\nbar\n\nbaz\n".to_vec());
    assert_eq!(vec![b"foo\nbar\n".to_vec(), b"baz\n".to_vec()], parts);
}

#[test]
fn remove_one_line_of_optional_fields() {
    let mut m = fapt::rfc822::map("A: x\nB:\n y\n z\n").unwrap();
    let a: Option<String> = m.remove_one_line("A").unwrap().map(|v| v.into_iter().collect());
    assert_eq!(Some("x".to_string()), a);
    assert!(!m.contains_key("A"));
    assert_eq!(None, m.remove_one_line("A").unwrap());
    assert_eq!(Err(fapt::error::Error::NotOneLine), m.remove_one_line("B").map(|_| ()));
    assert!(!m.contains_key("B"));
}

#[test]
fn csv_words_of_a_field() {
    let mut m = fapt::rfc822::map("Binary: a, b,\n c\nOther: x\n").unwrap();
    let words: Vec<String> = m
        .take_csv("Binary")
        .unwrap()
        .into_iter()
        .map(|w| w.into_iter().collect())
        .collect();
    assert_eq!(vec!["a", "b", "c"], words);
    assert!(!m.contains_key("Binary"));
    assert_eq!(Err(fapt::error::Error::MissingField), m.take_csv("Binary").map(|_| ()));
}

#[test]
fn lines_read_one_at_a_time() {
    let mut it = scan("Foo: bar\nBaz:\n a\n b\n");
    let first: Line = it.next_line().unwrap().unwrap();
    assert_eq!(("Foo".to_string(), vec!["bar".to_string()]), first);
    let second: Line = it.next_line().unwrap().unwrap();
    assert_eq!(("Baz".to_string(), vec!["a".to_string(), "b".to_string()]), second);
    assert!(it.next_line().is_none());
}

#[test]
fn fields_given_back_once_each() {
    let m = fapt::rfc822::map("A: 1\nB: 2\nA: 3\n").unwrap();
    let fields = m.into_fields();
    assert_eq!(2, fields.len());
    let a = fields.iter().find(|f| f.key == vec!['A']).unwrap();
    assert_eq!(vec![vec!['3']], a.values);
}
