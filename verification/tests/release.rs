use sha2::Digest;
use std::io::Write;
use chrono::Datelike;
use chrono::Timelike;
use fapt::checksum::{parse_md5, parse_sha256, Hashes};
use fapt::error::Error;
use fapt::lists::{
    extract_downloads, find_file, selected_listings, Compression, DownloadableListing, Listing,
};
use fapt::release::{parse_date, parse_release, Release, RequestedReleases};
use fapt::sources_list;

const RELEASE: &str = "Origin: Debian
Label: Debian
Suite: unstable
Codename: sid
Changelogs: https://metadata.ftp-master.debian.org/changelogs/@CHANGEPATH@_changelog
Date: Wed, 06 Feb 2019 14:29:43 UTC
Valid-Until: Wed, 13 Feb 2019 14:29:43 UTC
Acquire-By-Hash: yes
Architectures: amd64 arm64 i386
Components: main contrib non-free
Description: Debian x.y Unstable - Not Released
MD5Sum:
 d41d8cd98f00b204e9800998ecf8427e 0 main/binary-amd64/Packages
SHA256:
 e3b0c44298fc1c149afbf4c8996fb92427ae41e4649b934ca495991b7852b855 0 main/binary-amd64/Packages
 5df6e0e2761359d30a8275058e299fcc0381534545f55cf43e41983f5d4c9456 20 main/binary-amd64/Packages.gz
 1111111111111111111111111111111111111111111111111111111111111111 10 main/source/Sources
";

#[test]
fn date_parsing_seriously_it_is_2019() {
    let d = chrono::DateTime::from_timestamp(parse_date("Wed, 06 Feb 2019 14:29:43 UTC").unwrap(), 0)
        .unwrap();
    assert_eq!(
        (2019, 2, 6, 14, 29, 43),
        (d.year(), d.month(), d.day(), d.hour(), d.minute(), d.second()),
    );

    let d = chrono::DateTime::from_timestamp(parse_date("Wed, 13 Feb 2019  6:51:09 UTC").unwrap(), 0)
        .unwrap();
    assert_eq!(
        (2019, 2, 13, 6, 51, 9),
        (d.year(), d.month(), d.day(), d.hour(), d.minute(), d.second()),
    );
}

#[test]
fn bad_date() {
    assert_eq!(Err(Error::BadDate), parse_date("06 Foo 2019 14:29:43 UTC"));
}

#[test]
fn release_file_fields() {
    let f = parse_release(RELEASE).unwrap();
    assert_eq!("Debian", f.origin);
    assert_eq!(Some("sid".to_string()), f.codename);
    assert_eq!(parse_date("Wed, 06 Feb 2019 14:29:43 UTC").unwrap(), f.date);
    assert!(f.acquire_by_hash);
    assert_eq!(vec!["amd64", "arm64", "i386"], f.arches);
    assert_eq!(3, f.contents.len());
    assert_eq!("main/binary-amd64/Packages", f.contents[0].name);
    assert_eq!(
        parse_md5("d41d8cd98f00b204e9800998ecf8427e").unwrap(),
        f.contents[0].hashes.md5
    );
    // no md5 listed: zeros
    assert_eq!([0u8; 16], f.contents[1].hashes.md5);
    assert_eq!(20, f.contents[1].len);
}

#[test]
fn release_needs_sha256() {
    let text = "Origin: a\nLabel: b\nDate: Wed, 06 Feb 2019 14:29:43 UTC\nArchitectures: amd64\nComponents: main\n";
    assert_eq!(Err(Error::MissingSha256), parse_release(text).map(|_| ()));
    let text = "Label: b\n";
    assert_eq!(Err(Error::MissingField), parse_release(text).map(|_| ()));
}

fn release(lines: &str) -> Release {
    let entries = sources_list::read(lines).unwrap();
    let reqs =
        RequestedReleases::from_sources_lists(&entries, &["amd64".to_string(), "armel".to_string()])
            .unwrap();
    assert_eq!(1, reqs.releases.len());
    let (req, sources_entries) = reqs.releases.into_iter().next().unwrap();
    Release { req, sources_entries, file: parse_release(RELEASE).unwrap() }
}

#[test]
fn requested_release_names() {
    let r = release("deb http://deb.debian.org/debian sid main\n");
    assert_eq!("http://deb.debian.org/debian/dists/sid/", r.req.dists().unwrap());
    assert_eq!("http__deb.debian.org_80_debian__sid", r.req.filesystem_safe());
    assert_eq!("http__deb.debian.org_80_debian__sid_InRelease", r.req.download_name());
}

#[test]
fn grouping_entries() {
    let entries = sources_list::read(
        "deb http://a/ sid main\ndeb-src http://a/ sid main\ndeb http://b/ sid main\n",
    )
    .unwrap();
    let reqs = RequestedReleases::from_sources_lists(&entries, &["amd64".to_string()]).unwrap();
    assert_eq!(2, reqs.releases.len());
    assert_eq!(2, reqs.releases[0].1.len());
    assert_eq!("http://b/", reqs.releases[1].0.mirror.text);
}

#[test]
fn grouping_rejects_bad_urls() {
    let mut entries = sources_list::read("deb http://a/ sid main\n").unwrap();
    entries[0].url = "http://a".to_string();
    assert!(RequestedReleases::from_sources_lists(&entries, &[]).is_err());
    entries[0].url = "not a url/".to_string();
    assert_eq!(
        Error::BadUrl,
        RequestedReleases::from_sources_lists(&entries, &[]).err().unwrap()
    );
}

#[test]
fn listings_selected() {
    let r = release("deb http://deb.debian.org/debian sid main contrib\ndeb-src http://deb.debian.org/debian sid main\n");
    let ls = selected_listings(&r);
    // armel is requested but not in the release
    assert_eq!(3, ls.len());
    assert_eq!(
        Listing {
            component: "contrib".to_string(),
            arch: Some("amd64".to_string()),
            directory: "binary".to_string(),
            name: "Packages".to_string()
        },
        ls[1]
    );
    assert_eq!(None, ls[2].arch);
    assert_eq!("Sources", ls[2].name);
}

#[test]
fn file_found_by_hash() {
    let r = release("deb http://deb.debian.org/debian sid main\n");
    let ls = selected_listings(&r);
    let d: DownloadableListing = find_file(
        "http://deb.debian.org/debian/dists/sid/",
        &r.file.contents,
        r.file.acquire_by_hash,
        &ls[0],
    )
    .unwrap();
    assert_eq!(Compression::Gz, d.codec);
    assert_eq!(
        "http://deb.debian.org/debian/dists/sid/main/binary-amd64/by-hash/SHA256/5df6e0e2761359d30a8275058e299fcc0381534545f55cf43e41983f5d4c9456",
        d.url
    );
    assert_eq!(
        "e3b0c44298fc1c149afbf4c8996fb92427ae41e4649b934ca495991b7852b855",
        d.local_name()
    );
    let plain = find_file("http://x/dists/sid/", &r.file.contents, false, &ls[0]).unwrap();
    assert_eq!("http://x/dists/sid/main/binary-amd64/Packages.gz", plain.url);
    assert_eq!(".gz", plain.codec.suffix());
    assert_eq!("", Compression::Uncompressed.suffix());
    let downloads = extract_downloads(&[r]).unwrap();
    assert_eq!(1, downloads.len());
}

#[test]
fn file_not_found() {
    let r = release("deb http://deb.debian.org/debian sid contrib\n");
    let ls = selected_listings(&r);
    assert_eq!(
        Error::ListingNotFound,
        find_file("http://x/", &r.file.contents, false, &ls[0]).err().unwrap()
    );
    assert!(extract_downloads(&[r]).is_err());
}

#[test]
fn hashes_described() {
    let h = Hashes {
        md5: parse_md5("d41d8cd98f00b204e9800998ecf8427e").unwrap(),
        sha256: parse_sha256("e3b0c44298fc1c149afbf4c8996fb92427ae41e4649b934ca495991b7852b855").unwrap(),
    };
    assert_eq!(
        "md5:d41d8cd98f00b204e9800998ecf8427e sha256:e3b0c44298fc1c149afbf4c8996fb92427ae41e4649b934ca495991b7852b855",
        h.describe()
    );
    assert!(fapt::checksum::validate(b"", h).is_ok());
    assert_eq!(Err(Error::ChecksumMismatch), fapt::checksum::validate(b"x", h));
    assert_eq!(Err(Error::BadChecksum), parse_md5("abc").map(|_| ()));
    assert_eq!(Err(Error::BadChecksum), parse_md5("e3b0c44298fc1c149afbf4c8996fb92427ae41e4649b934ca495991b7852b855").map(|_| ()));
}

#[test]
fn hashes_shown_as_debug_shows_them() {
    let mut md5 = [0u8; 16];
    md5[0] = 255;
    md5[15] = 7;
    let mut sha256 = [1u8; 32];
    sha256[3] = 42;
    let h = Hashes { md5, sha256 };
    let shown: String = h.debug_text().into_iter().collect();
    assert_eq!(format!("{:?}", h), shown);
    assert!(shown.starts_with("Hashes { md5: [255, 0, 0,"));
}

#[test]
fn release_content_described() {
    let c = fapt::release::ReleaseContent {
        len: 1234,
        name: "main/binary-amd64/Packages \"x\"".to_string(),
        hashes: Hashes { md5: [3u8; 16], sha256: [4u8; 32] },
    };
    let expected = format!("RC {{ {:?} ({}) {:?} }}", c.name, c.len, c.hashes);
    assert_eq!(expected, c.describe());
    assert!(c.describe().starts_with("RC { \"main/binary-amd64/Packages \\\"x\\\"\" (1234) Hashes { md5: [3, "));
}

#[test]
fn readme_data_model_listings() {
    let r = release(
        "deb     https://deb.debian.org/debian sid main contrib\ndeb-src https://deb.debian.org/debian sid main contrib\n",
    );
    let paths: Vec<String> = selected_listings(&r)
        .into_iter()
        .map(|l| match l.arch {
            Some(a) => format!("{}/{}-{}/{}", l.component, l.directory, a, l.name),
            None => format!("{}/{}/{}", l.component, l.directory, l.name),
        })
        .collect();
    assert_eq!(
        vec![
            "main/binary-amd64/Packages",
            "contrib/binary-amd64/Packages",
            "main/source/Sources",
            "contrib/source/Sources",
        ],
        paths
    );
}

#[test]
fn grouping_keeps_releases_apart() {
    let entries = sources_list::read(
        "deb http://a/ sid main\ndeb-src http://a/ sid main\ndeb http://b/ sid main\ndeb http://a/ sid contrib\ndeb http://a/ buster main\n",
    )
    .unwrap();
    let reqs = RequestedReleases::from_sources_lists(&entries, &["amd64".to_string()]).unwrap();
    assert_eq!(3, reqs.releases.len());
    let total: usize = reqs.releases.iter().map(|(_, es)| es.len()).sum();
    assert_eq!(entries.len(), total);
    for (req, es) in &reqs.releases {
        for e in es {
            assert_eq!(req.mirror.text, e.url);
            assert_eq!(req.codename, e.suite_codename);
        }
    }
    assert_eq!(3, reqs.releases[0].1.len());
}

#[test]
fn gzip_listings_decompressed_and_checked() {
    let content = b"Package: foo\nVersion: 1\n".to_vec();
    let mut enc = flate2::write::GzEncoder::new(Vec::new(), flate2::Compression::default());
    enc.write_all(&content).unwrap();
    let gz = enc.finish().unwrap();
    let sha256: [u8; 32] = sha2::Sha256::digest(&content).into();
    let good = Hashes { md5: [0u8; 16], sha256 };
    assert_eq!(Ok(content.clone()), fapt::checksum::decompress_checked(&gz, good));
    let bad = Hashes { md5: [0u8; 16], sha256: [0u8; 32] };
    assert_eq!(Err(Error::ChecksumMismatch), fapt::checksum::decompress_checked(&gz, bad));
    assert_eq!(Err(Error::BadGzip), fapt::checksum::decompress_checked(b"plain text", good));
}
