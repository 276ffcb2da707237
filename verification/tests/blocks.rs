use fapt::blocks::{NamedBlock, StringSection};
use fapt::error::Error;
use fapt::lists::sections_in_reader;
use fapt::ninja::{ninja_binary, ninja_source, subdir};
use fapt::package::{Package, PackageType, Priority};
use fapt::rfc822;
use fapt::rfc822::{mandatory_single_line, mandatory_whitespace_list, scan};
use fapt::sections::ByteSections;

#[test]
fn named_block_reads_package() {
    let b = NamedBlock {
        locality: "test".to_string(),
        inner: "Package: foo\nVersion: 1\nArchitecture: all\nSection: misc\nMaintainer: A <a@b>\nDescription: d\n".to_string(),
    };
    assert_eq!(6, b.as_map().unwrap().field_list().len());
    let p = b.as_pkg().unwrap();
    assert_eq!("foo", p.name);
    assert_eq!(Priority::Unknown, p.priority);
    assert!(p.unparsed.is_empty());
    assert!(b.into_string().starts_with("Package: foo"));
}

#[test]
fn package_missing_fields() {
    let mut m = rfc822::map("Version: 1\n").unwrap();
    assert_eq!(Err(Error::MissingField), Package::parse(&mut m).map(|_| ()));
    let mut m = rfc822::map("Package: a\nVersion: 1\nArchitecture: nope\nSection: s\nMaintainer: A <a>\nDescription: d\n").unwrap();
    assert_eq!(Err(Error::UnknownArch), Package::parse(&mut m).map(|_| ()));
    let mut m = rfc822::map("Package: a\nVersion: 1\nArchitecture: all\nSection: s\nMaintainer: A <a>\nDescription: d\nPriority: weird\n").unwrap();
    assert_eq!(Err(Error::UnknownPriority), Package::parse(&mut m).map(|_| ()));
    let mut m = rfc822::map("Package: a\nVersion: 1\nArchitecture: all\nSection: s\nMaintainer: A <a>\nDescription: d\nEssential: maybe\n").unwrap();
    assert_eq!(Err(Error::BadYesNo), Package::parse(&mut m).map(|_| ()));
}

#[test]
fn binary_leftovers_kept() {
    let mut m = rfc822::map("Package: a\nVersion: 1\nArchitecture: amd64 all amd64\nSection: s\nMaintainer: A <a>\nDescription: d\n more\nTag: x\nSize: 3\n").unwrap();
    let p = Package::parse(&mut m).unwrap();
    // no Filename, so Size stays unparsed along with Tag
    assert_eq!(2, p.unparsed.field_list().len());
    assert_eq!(2, p.arches.len());
    match p.style {
        PackageType::Binary(b) => {
            assert_eq!("d\nmore", b.description);
            assert!(b.file.is_none());
        }
        _ => panic!("binary expected"),
    }
}

#[test]
fn binary_with_file() {
    let mut m = rfc822::map("Package: a\nVersion: 1\nArchitecture: all\nSection: s\nMaintainer: A <a>\nDescription: d\nFilename: pool/a.deb\nSize: 42\nSHA1: x\nSHA256: y\nInstalled-Size: 7\nEssential: yes\n").unwrap();
    let p = Package::parse(&mut m).unwrap();
    let b = p.as_bin().unwrap();
    let f = b.file.as_ref().unwrap();
    assert_eq!(42, f.size);
    assert_eq!("", f.md5);
    assert_eq!(7, b.installed_size);
    assert!(b.essential);
    assert!(p.as_src().is_none());
    assert!(p.bin().is_some());
}

#[test]
fn stanza_reads_fields_in_order() {
    let text = "Package: foo\nVersion: 1\nPriority: optional\nArchitecture: amd64\nMaintainer: not an identity\nDepends: a\nDepends: b\nDescription: one\n two\nX-Other: y\n";
    let p = Package::parse_bin(scan(text)).unwrap();
    assert_eq!("foo", p.name);
    assert_eq!(Priority::Optional, p.priority);
    assert!(p.maintainer.is_empty());
    let b = p.as_bin().unwrap();
    assert_eq!(2, b.depends.len());
    assert_eq!("one two", b.description);
    assert_eq!(1, p.unparsed.field_list().len());
    assert_eq!(
        Err(Error::MissingField),
        Package::parse_bin(scan("Package: foo\n")).map(|_| ())
    );
    assert_eq!(
        Err(Error::ExpectedKey),
        Package::parse_bin(scan("Package: foo\nnonsense\n")).map(|_| ())
    );
}

#[test]
fn string_section_views() {
    let s = StringSection { inner: rfc822::map("A: x\nB:\n y\n z\n").unwrap() };
    assert_eq!(Some("x".to_string()), s.get_if_one_line("A"));
    assert_eq!(None, s.get_if_one_line("B"));
    assert_eq!(None, s.get_if_one_line("C"));
    let j = s.joined_lines();
    assert_eq!(
        vec![("A".to_string(), "x".to_string()), ("B".to_string(), "y\nz".to_string())],
        j
    );
}

#[test]
fn mandatory_fields() {
    let m = rfc822::map("A: x y\n z\n").unwrap();
    assert_eq!("x y z", mandatory_single_line(&m, "A").unwrap());
    assert_eq!(vec!["x", "y", "z"], mandatory_whitespace_list(&m, "A").unwrap());
    assert_eq!(Err(Error::MissingField), mandatory_single_line(&m, "B"));
}

#[test]
fn later_field_wins() {
    let m = rfc822::map("A: 1\nA: 2\n").unwrap();
    assert_eq!(1, m.field_list().len());
    assert_eq!(Some("2".to_string()), StringSection { inner: m }.get_if_one_line("A"));
    assert_eq!(Some(vec!["1".chars().collect::<Vec<char>>()]), scan("A: 1\nA: 2\n").find_key("A").unwrap());
}

#[test]
fn string_sections_decode() {
    let mut s = sections_in_reader(b"A: 1\n\nB: \xff\n".to_vec(), "x".to_string());
    assert!(s.inner.next_ok());
    assert_eq!("A: 1\n", s.next_string().unwrap().unwrap());
    assert!(s.inner.next_ok());
    assert_eq!(Error::InvalidUtf8, s.next_string().unwrap().err().unwrap());
    assert!(s.inner.next_ok());
    assert!(s.next_string().is_none());
    let mut b = ByteSections::new(b"a\n\n".to_vec(), "y".to_string());
    assert_eq!(b"a\n".to_vec(), b.next_section().unwrap());
}

#[test]
fn ninja_rules() {
    assert_eq!("libf", subdir("libfoo"));
    assert_eq!("b", subdir("bar"));
    let src = rfc822::map("Package: foo\nVersion: 1:2.0\nDirectory: pool/main/f/foo\nFiles:\n aa 10 foo_2.0.dsc\n bb 20 foo_2.0.tar.gz\n").unwrap();
    assert_eq!(
        "build $dest/f/foo_1$:2.0$suffix: process-source | $script\n  description = PS foo 1$:2.0\n  pkg = foo\n  version = 1$:2.0\n  url = $mirror/pool/main/f/foo/foo_2.0.dsc\n  prefix = f/foo_1$:2.0\n  size = 30\n",
        ninja_source(&src).unwrap()
    );
    let bin = rfc822::map("Package: libbar1\nSource: libbar (1.0)\nArchitecture: amd64\nVersion: 1.0\nFilename: pool/b.deb\nSize: 209715200\n").unwrap();
    assert_eq!(
        "build $dest/libb/libbar/libbar1_1.0_amd64$suffix: process-binary | $script\n  description = PB libbar libbar1 1.0 amd64\n  source = libbar\n  pkg = libbar1\n  version = 1.0\n  arch = amd64\n  url = $mirror/pool/b.deb\n  prefix = libb/libbar/libbar1_1.0_amd64\n  pool = big\n",
        ninja_binary(&bin).unwrap()
    );
    let nodsc = rfc822::map("Package: foo\nVersion: 1\nDirectory: d\nFiles:\n aa 10 foo.tar\n").unwrap();
    assert_eq!(Err(Error::MissingDsc), ninja_source(&nodsc));
}

#[test]
fn stanza_architectures_are_flag_names() {
    let ok = "Package: foo\nVersion: 1\nPriority: optional\nArchitecture: amd64 i386 amd64\nDescription: d\n";
    let p = Package::parse_bin(scan(ok)).unwrap();
    assert_eq!(2, p.arches.len());
    let all = "Package: foo\nVersion: 1\nPriority: optional\nArchitecture: all\nDescription: d\n";
    assert_eq!(1, Package::parse_bin(scan(all)).unwrap().arches.len());
    for name in ["mips64", "linux-any", "kfreebsd-amd64", "sparc"] {
        let text = format!(
            "Package: foo\nVersion: 1\nPriority: optional\nArchitecture: {}\nDescription: d\n",
            name
        );
        assert_eq!(
            Err(Error::UnknownArch),
            Package::parse_bin(scan(&text)).map(|_| ())
        );
    }
}

#[test]
fn rule_follows_the_kind_of_paragraph() {
    let src = rfc822::map(
        "Package: foo\nVersion: 1:2\nDirectory: pool/f/foo\nFiles:\n abc 10 foo_2.dsc\n def 20 foo_2.tar.gz\n",
    )
    .unwrap();
    assert!(fapt::ninja::rule_checkable(&src));
    assert_eq!(ninja_source(&src), fapt::ninja::ninja_rule(&src));
    assert!(fapt::ninja::ninja_rule(&src).unwrap().contains("  size = 30\n"));
    let bin = rfc822::map(
        "Package: foo-bin\nSource: foo (1)\nArchitecture: amd64\nVersion: 2\nFilename: pool/f/foo-bin.deb\nSize: 5\n",
    )
    .unwrap();
    assert!(fapt::ninja::rule_checkable(&bin));
    assert_eq!(ninja_binary(&bin), fapt::ninja::ninja_rule(&bin));
    let short_lib = rfc822::map(
        "Package: x\nSource: lib\nArchitecture: a\nVersion: 1\nFilename: f\nSize: 1\n",
    )
    .unwrap();
    assert!(!fapt::ninja::rule_checkable(&short_lib));
    let bad_size = rfc822::map(
        "Package: x\nSource: lib\nArchitecture: a\nVersion: 1\nFilename: f\nSize: big\n",
    )
    .unwrap();
    assert!(fapt::ninja::rule_checkable(&bad_size));
    assert_eq!(Err(Error::BadNumber), fapt::ninja::ninja_rule(&bad_size));
}
