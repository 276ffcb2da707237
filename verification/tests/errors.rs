use fapt::checksums::parse_checksums;
use fapt::deps::{package_name, read};
use fapt::error::Error;
use fapt::ident;
use fapt::ident::process_escapes;
use fapt::ninja::{ninja_source, source_rule_checkable};
use fapt::package::{parse_format, take_files, take_package_list};
use fapt::rfc822;
use fapt::sources_list;

fn chars(s: &str) -> Vec<char> {
    s.chars().collect()
}

#[test]
fn bad_dependency_and_trailing_data() {
    assert_eq!(Some(Error::BadDependency), package_name("").err());
    assert_eq!(Some(Error::BadDependency), package_name("(foo)").err());
    assert_eq!(Some(Error::TrailingData), read("foo (>= 1.0").err());
    assert_eq!(Some(Error::TrailingData), read("foo )").err());
}

#[test]
fn bad_identity_and_escape() {
    assert_eq!(Some(Error::BadIdentity), ident::read("foo <bar").err());
    assert_eq!(Some(Error::BadEscape), process_escapes("fo\\a").err());
    assert_eq!(Some(Error::BadEscape), process_escapes("\\x6").err());
}

#[test]
fn unknown_format() {
    assert_eq!(Some(Error::UnknownFormat), parse_format("3.0 (bogus)").err());
    assert_eq!(Some(Error::UnknownFormat), parse_format("").err());
}

#[test]
fn bad_checksum_lines() {
    assert_eq!(
        Some(Error::BadChecksumLine),
        parse_checksums(&[chars("abc 12")]).err()
    );
    assert_eq!(
        Some(Error::BadChecksumLine),
        parse_checksums(&[chars("abc 12 name extra")]).err()
    );
    assert_eq!(
        Some(Error::BadNumber),
        parse_checksums(&[chars("abc twelve name")]).err()
    );
    assert!(parse_checksums(&[chars("abc 12 name")]).is_ok());
}

#[test]
fn short_package_list_line() {
    let mut m = rfc822::map("Binary: foo\nPackage-List:\n foo deb admin\n").unwrap();
    assert_eq!(
        Some(Error::ShortPackageListLine),
        take_package_list(&mut m).err()
    );
}

#[test]
fn orphan_checksum() {
    let mut m = rfc822::map(
        "Files:\n d41d8cd98f00b204e9800998ecf8427e 0 foo.dsc\nChecksums-Sha256:\n e3b0c44298fc1c149afbf4c8996fb92427ae41e4649b934ca495991b7852b855 0 other.dsc\n",
    )
    .unwrap();
    assert_eq!(Some(Error::OrphanChecksum), take_files(&mut m).err());
}

#[test]
fn sources_list_line_errors() {
    assert_eq!(
        Some(Error::IncompleteSourcesLine),
        sources_list::read("deb http://foo/\n").err()
    );
    assert_eq!(
        Some(Error::IncompleteSourcesLine),
        sources_list::read("deb [arch=amd64] http://foo/\n").err()
    );
    assert_eq!(
        Some(Error::UnsupportedSourceType),
        sources_list::read("rpm http://foo/ bar baz\n").err()
    );
    assert_eq!(Ok(vec![]), sources_list::read("# nothing here\n\n"));
}

#[test]
fn dsc_line_without_a_name() {
    let m = rfc822::map(
        "Package: foo\nVersion: 1\nDirectory: pool/f/foo\nFiles:\n abc foo.dsc\n",
    )
    .unwrap();
    assert!(source_rule_checkable(&m));
    assert_eq!(Some(Error::BadFilesLine), ninja_source(&m).err());
}

#[test]
fn source_rule_needs_no_sizes_before_the_dsc_is_found() {
    let m = rfc822::map("Package: foo\nVersion: 1\nFiles:\n abc foo.dsc\n").unwrap();
    assert!(source_rule_checkable(&m));
    assert_eq!(Some(Error::MissingField), ninja_source(&m).err());
    let m = rfc822::map("Package: foo\nVersion: 1\nDirectory: d\nFiles:\n x y z\n").unwrap();
    assert!(source_rule_checkable(&m));
    assert_eq!(Some(Error::MissingDsc), ninja_source(&m).err());
}
