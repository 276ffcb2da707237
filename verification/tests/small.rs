use fapt::deps::{Constraint, ConstraintOperator};
use fapt::ident;
use fapt::ident::{process_escapes, Identity};
use fapt::sources_list;
use fapt::sources_list::Entry;
use fapt::classic_sources_list;
use fapt::error::Error;

#[test]
fn version() {
    let cons = Constraint::new(ConstraintOperator::Gt, "1.0");
    assert!(cons.satisfied_by("2.0"));
    assert!(!cons.satisfied_by("1.0"));
}

#[test]
fn constraint_version() {
    let cons = Constraint::new(ConstraintOperator::Gt, "1.0");
    assert!(cons.satisfied_by("2.0"));
    assert!(!cons.satisfied_by("1.0"));
}

#[test]
fn backslash() {
    assert_eq!("foo", &process_escapes("foo").unwrap());
    assert_eq!("fo'o", &process_escapes("fo\\'o").unwrap());
    assert_eq!("fo'", &process_escapes("fo\\'").unwrap());
    assert!(process_escapes("fo\\").is_err());
    assert!(process_escapes("fo\\a").is_err());

    assert_eq!("a", &process_escapes("\\x61").unwrap());
}

#[test]
fn read() {
    assert_eq!(
        vec![
            Identity {
                name: "foo".to_string(),
                email: "bar".to_string(),
            },
            Identity {
                name: "baz".to_string(),
                email: "quux".to_string(),
            },
        ],
        ident::read("foo <bar>, baz <quux>").unwrap()
    );
}

#[test]
fn lazy() {
    assert!(ident::read("just@email.com").is_err());
}

#[test]
fn trailing() {
    assert_eq!(1, ident::read("foo <bar>,").unwrap().len())
}

fn entry(src: bool, arch: Option<&str>) -> Entry {
    Entry {
        src,
        arch: arch.map(|a| a.to_string()),
        url: "http://foo/".to_string(),
        suite_codename: "bar".to_string(),
        components: vec!["baz".to_string(), "quux".to_string()],
        untrusted: false,
    }
}

#[test]
fn sources_list_simple() {
    assert_eq!(
        vec![entry(false, None), entry(true, None)],
        sources_list::read(
            r"
deb     http://foo  bar  baz quux
deb-src http://foo  bar  baz quux
",
        )
        .unwrap()
    );
}

#[test]
fn classic_sources_list_simple() {
    assert_eq!(
        vec![
            classic_sources_list::Entry {
                src: false,
                url: "http://foo/".to_string(),
                suite_codename: "bar".to_string(),
                components: vec!["baz".to_string(), "quux".to_string()],
            },
            classic_sources_list::Entry {
                src: true,
                url: "http://foo/".to_string(),
                suite_codename: "bar".to_string(),
                components: vec!["baz".to_string(), "quux".to_string()],
            },
        ],
        classic_sources_list::read(
            r"
deb     http://foo  bar  baz quux
deb-src http://foo  bar  baz quux
",
        )
        .unwrap()
    );
}

#[test]
fn classic_sources_list_is_strict() {
    use_classic("deb	http://foo/	sid	main # comment", Ok(1));
    use_classic("   # only a comment", Ok(0));
    use_classic("debs http://foo/ sid main", Err(Error::MalformedSourcesLine));
    use_classic("deb http://foo/ sid", Err(Error::MalformedSourcesLine));
    use_classic("deb http://foo/ stretch/updates main", Err(Error::MalformedSourcesLine));
    use_classic("rpm http://foo/ sid main", Err(Error::MalformedSourcesLine));
    use_classic("deb http://foo/ sid main contrib!", Err(Error::TrailingData));
    use_classic("deb http://foo/ sid main !x", Err(Error::TrailingData));
    use_classic("deb http://foo/ sid main\nnonsense", Err(Error::MalformedSourcesLine));
    assert_eq!(
        Err(Error::MalformedSourcesLine),
        classic_sources_list::read("deb http://a/ sid main\nbad line\ndeb http://b/ sid x!")
    );
}

fn use_classic(text: &str, expected: Result<usize, Error>) {
    assert_eq!(
        expected,
        classic_sources_list::read(text).map(|v| v.len()),
        "{:?}",
        text
    );
}

#[test]
fn arch() {
    assert_eq!(
        vec![entry(false, Some("amd64"))],
        sources_list::read(
            r"
deb [arch=amd64] http://foo  bar  baz quux
",
        )
        .unwrap()
    );
}

#[test]
fn names_without_escapes_read_as_they_are() {
    for name in ["Jörg Müller", "李小龍", "plain", "", "emoji 🦀 name"] {
        assert_eq!(name, &process_escapes(name).unwrap());
    }
}

#[test]
fn release_url_form() {
    let es = sources_list::release_url_entries("http://deb.debian.org/debian#sid,main,contrib,non-free")
        .unwrap();
    let expect = |src: bool| Entry {
        src,
        url: "http://deb.debian.org/debian".to_string(),
        suite_codename: "sid".to_string(),
        components: vec!["main".to_string(), "contrib".to_string(), "non-free".to_string()],
        arch: Some("amd64".to_string()),
        untrusted: false,
    };
    assert_eq!(vec![expect(false), expect(true)], es);
    assert_eq!(
        Err(Error::NoComponents),
        sources_list::release_url_entries("http://x/#sid")
    );
    assert_eq!(
        Err(Error::MissingSuite),
        sources_list::release_url_entries("http://x/")
    );
    let odd = sources_list::release_url_entries("http://x/#sid,,").unwrap();
    assert_eq!(vec!["".to_string(), "".to_string()], odd[0].components);
}

#[test]
fn versions_that_can_be_compared() {
    assert!(fapt::deps::is_comparable_version("1.0~ä"));
    assert!(fapt::deps::is_comparable_version("2:1.0-3"));
    assert!(!fapt::deps::is_comparable_version("ä1.0"));
    assert!(!fapt::deps::is_comparable_version("1.ä0"));
    let c = Constraint::new(ConstraintOperator::Lt, "1.0");
    assert!(c.satisfied_by("1.0~ä"));
    assert!(!Constraint::new(ConstraintOperator::Gt, "1.0").satisfied_by("1.0~ä"));
}
