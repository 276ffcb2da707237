//! Releases: which release files a sources list asks for, and what a release
//! file (`InRelease`, `Release`) says.

use vstd::prelude::*;

use crate::checksum::{append_chars, checksum_spec, parse_md5, parse_sha256, Hashes};
use crate::checksums::{lookup, take_checksums, checksums_spec, Checksums, ChecksumsSpec, FileKey};
use crate::error::Error;
use crate::rfc822::{
    fields, fields_map, flat_words, one_line_opt_spec, one_line_req_spec, scan, FieldMap,
    FieldsSpec,
};
use crate::sources_list::{entry_specs, Entry, EntrySpec};
use crate::package::{take_opt_line, take_opt_string, take_req_string};
use crate::text::{chars_of, concat2, decimal, decimal_chars, ends_with_char, join, string_of, texts};

verus! {

// ---------------------------------------------------------------------------
// Dates.

/// The time (seconds since the epoch) that `mailparse::dateparse` reads
/// from a mail-style date.
pub uninterp spec fn date_parsed(s: Seq<char>) -> Option<i64>;

/// `mailparse::dateparse`: the epoch seconds of a date such as
/// `Wed, 06 Feb 2019 14:29:43 UTC`. Its result depends on the text alone;
/// what it accepts is not restated here.
#[verifier::external_body]
fn dateparse(date: &str) -> (r: Option<i64>)
    ensures
        r == date_parsed(date@),
{
    mailparse::dateparse(date).ok()
}

/// Read a date, as seconds since the epoch.
pub fn parse_date(date: &str) -> (r: Result<i64, Error>)
    ensures
        match r {
            Ok(t) => date_parsed(date@) == Some(t),
            Err(e) => date_parsed(date@) is None && e == Error::BadDate,
        },
{
    match dateparse(date) {
        Some(t) => Ok(t),
        None => Err(Error::BadDate),
    }
}

// ---------------------------------------------------------------------------
// URLs.

/// The parts of a URL that the library reads.
#[derive(Clone, Debug, PartialEq, Eq)]
pub struct UrlParts {
    /// The URL as written out again.
    pub text: String,
    pub scheme: String,
    pub username: String,
    pub host: Option<String>,
    /// The port, or the scheme's default.
    pub port: Option<u16>,
    /// The path segments, for a URL that has them.
    pub segments: Option<Vec<String>>,
}

/// The model of `UrlParts`.
pub type UrlPartsSpec = (
    Seq<char>,
    Seq<char>,
    Seq<char>,
    Option<Seq<char>>,
    Option<u16>,
    Option<Seq<Seq<char>>>,
);

pub open spec fn strings_spec(v: Seq<String>) -> Seq<Seq<char>> {
    Seq::new(v.len(), |i: int| v[i]@)
}

impl UrlParts {
    pub open spec fn spec(&self) -> UrlPartsSpec {
        (
            self.text@,
            self.scheme@,
            self.username@,
            match self.host {
                Some(h) => Some(h@),
                None => None,
            },
            self.port,
            match self.segments {
                Some(s) => Some(strings_spec(s@)),
                None => None,
            },
        )
    }
}

/// What `url::Url::parse` makes of a text: its serialization and parts.
pub uninterp spec fn url_parsed(s: Seq<char>) -> Option<UrlPartsSpec>;

/// What `url::Url::join` makes of a relative reference against a base given
/// as text (parsed with `url::Url::parse`): the serialization of the result.
pub uninterp spec fn url_joined(base: Seq<char>, rel: Seq<char>) -> Option<Seq<char>>;

/// `url::Url::parse`, with the parts read out by `as_str`, `scheme`,
/// `username`, `host_str`, `port_or_known_default` and `path_segments`.
/// The result depends on the text alone; the URL grammar is not restated.
#[verifier::external_body]
fn parse_url(s: &str) -> (r: Option<UrlParts>)
    ensures
        match r {
            Some(u) => url_parsed(s@) == Some(u.spec()),
            None => url_parsed(s@) is None,
        },
{
    reqwest::Url::parse(s).ok().map(|u| UrlParts {
        text: u.as_str().to_string(),
        scheme: u.scheme().to_string(),
        username: u.username().to_string(),
        host: u.host_str().map(|h| h.to_string()),
        port: u.port_or_known_default(),
        segments: u.path_segments().map(|p| p.map(|x| x.to_string()).collect()),
    })
}

/// `url::Url::join` on a base given as text (parsed with `url::Url::parse`).
/// The result depends on the two texts alone; the resolution rules are not
/// restated.
#[verifier::external_body]
fn join_url(base: &str, rel: &str) -> (r: Option<String>)
    ensures
        match r {
            Some(u) => url_joined(base@, rel@) == Some(u@),
            None => url_joined(base@, rel@) is None,
        },
{
    reqwest::Url::parse(base).ok()?.join(rel).ok().map(|u| u.as_str().to_string())
}

/// Resolve a relative reference against a base URL.
pub fn join_urls(base: &str, rel: &str) -> (r: Result<String, Error>)
    ensures
        match r {
            Ok(u) => url_joined(base@, rel@) == Some(u@),
            Err(e) => url_joined(base@, rel@) is None && e == Error::BadUrl,
        },
{
    match join_url(base, rel) {
        Some(u) => Ok(u),
        None => Err(Error::BadUrl),
    }
}

// ---------------------------------------------------------------------------
// Requested releases.

/// A release a sources list asks for: a mirror and a codename (or suite,
/// e.g. `unstable` for `sid`), with the architectures wanted.
#[derive(Clone, Debug, PartialEq, Eq)]
pub struct RequestedRelease {
    pub mirror: UrlParts,
    pub codename: String,
    pub arches: Vec<String>,
    pub untrusted: bool,
}

/// The model of a `RequestedRelease`.
#[verifier::ext_equal]
pub struct RequestedSpec {
    pub mirror: UrlPartsSpec,
    pub codename: Seq<char>,
    pub arches: Seq<Seq<char>>,
    pub untrusted: bool,
}

impl RequestedRelease {
    pub open spec fn spec(&self) -> RequestedSpec {
        RequestedSpec {
            mirror: self.mirror.spec(),
            codename: self.codename@,
            arches: strings_spec(self.arches@),
            untrusted: self.untrusted,
        }
    }
}

/// The `dists/<codename>/` directory of a release.
pub open spec fn dists_spec(mirror: Seq<char>, codename: Seq<char>) -> Result<Seq<char>, Error> {
    match url_joined(mirror, "dists/"@) {
        None => Err(Error::BadUrl),
        Some(d) => match url_joined(d, codename + "/"@) {
            None => Err(Error::BadUrl),
            Some(u) => Ok(u),
        },
    }
}

/// The name under which a release's files are kept: scheme, user, host,
/// port, path segments (joined with `_`) and codename, joined with `_`.
pub open spec fn filesystem_safe_spec(r: RequestedSpec) -> Seq<char> {
    let (_, scheme, user, host, port, segments) = r.mirror;
    let host = match host {
        Some(h) => h,
        None => Seq::empty(),
    };
    let port = match port {
        Some(p) => p,
        None => 0,
    };
    let path = match segments {
        Some(s) => join(s, "_"@),
        None => Seq::empty(),
    };
    join(seq![scheme, user, host, decimal(port as nat), path, r.codename], "_"@)
}

impl RequestedRelease {
    /// The release's `dists/<codename>/` URL.
    pub fn dists(&self) -> (r: Result<String, Error>)
        ensures
            match r {
                Ok(u) => dists_spec(self.mirror.text@, self.codename@) == Ok::<Seq<char>, Error>(u@),
                Err(e) => dists_spec(self.mirror.text@, self.codename@) == Err::<Seq<char>, Error>(e),
            },
    {
        let d = join_urls(self.mirror.text.as_str(), "dists/")?;
        let rel = concat2(self.codename.as_str(), "/");
        join_urls(d.as_str(), rel.as_str())
    }

    /// A name for the release's files that is safe on a file system.
    pub fn filesystem_safe(&self) -> (r: String)
        ensures
            r@ == filesystem_safe_spec(self.spec()),
    {
        let path = match &self.mirror.segments {
            Some(s) => {
                let sep = chars_of("_");
                let cs = strings_chars(s);
                let j = crate::text::join_chars(cs.as_slice(), sep.as_slice());
                string_of(j.as_slice())
            },
            None => String::new(),
        };
        let host = match &self.mirror.host {
            Some(h) => h.clone(),
            None => String::new(),
        };
        let port: u64 = match self.mirror.port {
            Some(p) => p as u64,
            None => 0,
        };
        let port_text = string_of(decimal_chars(port).as_slice());
        let parts: Vec<Vec<char>> = vec![
            chars_of(self.mirror.scheme.as_str()),
            chars_of(self.mirror.username.as_str()),
            chars_of(host.as_str()),
            chars_of(port_text.as_str()),
            chars_of(path.as_str()),
            chars_of(self.codename.as_str()),
        ];
        let sep = chars_of("_");
        let j = crate::text::join_chars(parts.as_slice(), sep.as_slice());
        assert(sep@ == "_"@);
        assert(port_text@ == decimal(port as nat));
        assert(host@ == match self.mirror.host {
            Some(h) => h@,
            None => Seq::<char>::empty(),
        });
        assert(path@ == match self.mirror.segments {
            Some(s) => join(strings_spec(s@), "_"@),
            None => Seq::<char>::empty(),
        });
        proof {
            let want = seq![
                self.mirror.scheme@,
                self.mirror.username@,
                host@,
                decimal(port as nat),
                path@,
                self.codename@
            ];
            assert(texts(parts@) =~= want);
            let sp = self.spec();
            assert(sp.mirror.1 == self.mirror.scheme@);
            assert(sp.mirror.2 == self.mirror.username@);
            assert(filesystem_safe_spec(sp) == join(want, "_"@));
        }
        string_of(j.as_slice())
    }

    /// The file name under which the release file is downloaded.
    pub fn download_name(&self) -> (r: String)
        ensures
            r@ == filesystem_safe_spec(self.spec()) + "_InRelease"@,
    {
        let a = self.filesystem_safe();
        let mut cs = chars_of(a.as_str());
        let b = chars_of("_InRelease");
        crate::checksum::append_chars(&mut cs, &b);
        string_of(cs.as_slice())
    }

    /// The file name under which the verified release file is kept.
    pub fn verified_name(&self) -> (r: String)
        ensures
            r@ == filesystem_safe_spec(self.spec()) + "_Verified"@,
    {
        let a = self.filesystem_safe();
        let mut cs = chars_of(a.as_str());
        let b = chars_of("_Verified");
        crate::checksum::append_chars(&mut cs, &b);
        string_of(cs.as_slice())
    }
}

fn strings_chars(v: &Vec<String>) -> (r: Vec<Vec<char>>)
    ensures
        texts(r@) == strings_spec(v@),
{
    let mut out: Vec<Vec<char>> = Vec::new();
    let mut k: usize = 0;
    while k < v.len()
        invariant
            k <= v@.len(),
            texts(out@) == strings_spec(v@).take(k as int),
        decreases v@.len() - k,
    {
        let ghost before = texts(out@);
        out.push(chars_of(v[k].as_str()));
        assert(texts(out@) =~= before.push(v@[k as int]@));
        assert(strings_spec(v@).take(k + 1) =~= strings_spec(v@).take(k as int).push(v@[k as int]@));
        k = k + 1;
    }
    assert(strings_spec(v@).take(v@.len() as int) =~= strings_spec(v@));
    out
}

// ---------------------------------------------------------------------------
// Grouping a sources list by release.

/// Two requests for the same release: same mirror (as written out again),
/// codename, architectures and trust.
pub open spec fn same_request(a: RequestedSpec, b: RequestedSpec) -> bool {
    a.mirror.0 == b.mirror.0 && a.codename == b.codename && a.arches == b.arches && a.untrusted
        == b.untrusted
}

/// The release an entry asks for: its URL must end with `/` and parse.
pub open spec fn request_of(e: EntrySpec, arches: Seq<Seq<char>>) -> Result<RequestedSpec, Error> {
    if !(e.url.len() > 0 && e.url.last() == '/') {
        Err(Error::BadUrl)
    } else {
        match url_parsed(e.url) {
            None => Err(Error::BadUrl),
            Some(u) => Ok(
                RequestedSpec {
                    mirror: u,
                    codename: e.suite_codename,
                    arches,
                    untrusted: e.untrusted,
                },
            ),
        }
    }
}

/// A release with the entries that ask for it.
pub type GroupSpec = (RequestedSpec, Seq<EntrySpec>);

/// Index of the group of the release `r`, or -1.
pub open spec fn group_index(gs: Seq<GroupSpec>, r: RequestedSpec) -> int
    decreases gs.len(),
{
    if gs.len() == 0 {
        -1
    } else if same_request(gs.last().0, r) {
        gs.len() - 1
    } else {
        group_index(gs.drop_last(), r)
    }
}

/// The groups with one more entry, for the release `r`.
pub open spec fn add_to_groups(gs: Seq<GroupSpec>, r: RequestedSpec, e: EntrySpec) -> Seq<GroupSpec> {
    let i = group_index(gs, r);
    if i >= 0 {
        gs.update(i, (gs[i].0, gs[i].1.push(e)))
    } else {
        gs.push((r, seq![e]))
    }
}

/// The releases a sources list asks for, each with its entries, in the
/// order each release is first asked for.
pub open spec fn groups_spec(entries: Seq<EntrySpec>, arches: Seq<Seq<char>>) -> Result<Seq<GroupSpec>, Error>
    decreases entries.len(),
{
    if entries.len() == 0 {
        Ok(Seq::empty())
    } else {
        match groups_spec(entries.drop_last(), arches) {
            Err(e) => Err(e),
            Ok(gs) => match request_of(entries.last(), arches) {
                Err(e) => Err(e),
                Ok(r) => Ok(add_to_groups(gs, r, entries.last())),
            },
        }
    }
}

proof fn lemma_group_index(gs: Seq<GroupSpec>, r: RequestedSpec)
    ensures
        -1 <= group_index(gs, r) < gs.len(),
        group_index(gs, r) >= 0 ==> same_request(gs[group_index(gs, r)].0, r),
        group_index(gs, r) == -1 ==> forall|k: int| 0 <= k < gs.len() ==> !same_request(#[trigger] gs[k].0, r),
    decreases gs.len(),
{
    if gs.len() > 0 {
        lemma_group_index(gs.drop_last(), r);
        if !same_request(gs.last().0, r) {
            assert forall|k: int| 0 <= k < gs.len() && group_index(gs, r) == -1 implies !same_request(#[trigger] gs[k].0, r) by {
                if k < gs.len() - 1 {
                    assert(gs[k] == gs.drop_last()[k]);
                }
            }
        }
    }
}

/// Grouping keeps the releases apart and every entry with its release: no
/// two groups are for the same release, each entry sits in the group of the
/// release it asks for, and every entry of the list is in some group.
pub proof fn law_grouping_by_release(es: Seq<EntrySpec>, ar: Seq<Seq<char>>)
    ensures
        groups_spec(es, ar) matches Ok(gs) ==> {
            &&& forall|i: int, j: int| 0 <= i < j < gs.len() ==> !same_request(#[trigger] gs[i].0, #[trigger] gs[j].0)
            &&& forall|i: int, j: int| 0 <= i < gs.len() && 0 <= j < gs[i].1.len() ==>
                (request_of(#[trigger] gs[i].1[j], ar) matches Ok(r) && same_request(gs[i].0, r))
            &&& forall|k: int| 0 <= k < es.len() ==> exists|i: int, j: int|
                0 <= i < gs.len() && 0 <= j < gs[i].1.len() && #[trigger] gs[i].1[j] == #[trigger] es[k]
        },
    decreases es.len(),
{
    if es.len() > 0 {
        let p = es.drop_last();
        law_grouping_by_release(p, ar);
        match groups_spec(p, ar) {
            Err(_) => {},
            Ok(gs) => match request_of(es.last(), ar) {
                Err(_) => {},
                Ok(r) => {
                    let e = es.last();
                    let g2 = add_to_groups(gs, r, e);
                    lemma_group_index(gs, r);
                    let gi = group_index(gs, r);
                    assert(groups_spec(es, ar) == Ok::<Seq<GroupSpec>, Error>(g2));
                    if gi >= 0 {
                        assert forall|i: int, j: int| 0 <= i < j < g2.len() implies !same_request(#[trigger] g2[i].0, #[trigger] g2[j].0) by {
                            assert(g2[i].0 == gs[i].0 && g2[j].0 == gs[j].0);
                        }
                        assert forall|i: int, j: int| 0 <= i < g2.len() && 0 <= j < g2[i].1.len() implies
                            (request_of(#[trigger] g2[i].1[j], ar) matches Ok(r2) && same_request(g2[i].0, r2)) by {
                            if i != gi || j < gs[i].1.len() {
                                assert(g2[i].1[j] == gs[i].1[j]);
                            }
                        }
                        assert forall|k: int| 0 <= k < es.len() implies exists|i: int, j: int|
                            0 <= i < g2.len() && 0 <= j < g2[i].1.len() && #[trigger] g2[i].1[j] == #[trigger] es[k] by {
                            if k < p.len() {
                                assert(es[k] == p[k]);
                                let (i, j) = choose|i: int, j: int|
                                    0 <= i < gs.len() && 0 <= j < gs[i].1.len() && #[trigger] gs[i].1[j] == #[trigger] p[k];
                                assert(g2[i].1[j] == gs[i].1[j]);
                            } else {
                                assert(g2[gi].1[gs[gi].1.len() as int] == e);
                            }
                        }
                    } else {
                        assert forall|i: int, j: int| 0 <= i < j < g2.len() implies !same_request(#[trigger] g2[i].0, #[trigger] g2[j].0) by {
                            if j == gs.len() {
                                assert(g2[j].0 == r);
                                assert(g2[i].0 == gs[i].0);
                            } else {
                                assert(g2[i].0 == gs[i].0 && g2[j].0 == gs[j].0);
                            }
                        }
                        assert forall|i: int, j: int| 0 <= i < g2.len() && 0 <= j < g2[i].1.len() implies
                            (request_of(#[trigger] g2[i].1[j], ar) matches Ok(r2) && same_request(g2[i].0, r2)) by {
                            if i < gs.len() {
                                assert(g2[i] == gs[i]);
                            } else {
                                assert(g2[i].1[j] == e);
                            }
                        }
                        assert forall|k: int| 0 <= k < es.len() implies exists|i: int, j: int|
                            0 <= i < g2.len() && 0 <= j < g2[i].1.len() && #[trigger] g2[i].1[j] == #[trigger] es[k] by {
                            if k < p.len() {
                                assert(es[k] == p[k]);
                                let (i, j) = choose|i: int, j: int|
                                    0 <= i < gs.len() && 0 <= j < gs[i].1.len() && #[trigger] gs[i].1[j] == #[trigger] p[k];
                                assert(g2[i] == gs[i]);
                            } else {
                                assert(g2[gs.len() as int].1[0] == e);
                            }
                        }
                    }
                },
            },
        }
    }
}

/// Grouping entries whose urls end with `/` (as every entry read from a
/// sources list has) fails only on a url that does not parse, and then with
/// `BadUrl`.
pub proof fn law_grouping_fails_only_on_bad_urls(es: Seq<EntrySpec>, ar: Seq<Seq<char>>)
    requires
        forall|k: int| 0 <= k < es.len() ==> (#[trigger] es[k]).url.len() > 0 && es[k].url.last() == '/',
    ensures
        groups_spec(es, ar) is Err ==> groups_spec(es, ar) == Err::<Seq<GroupSpec>, Error>(Error::BadUrl)
            && exists|k: int| 0 <= k < es.len() && url_parsed(#[trigger] es[k].url) is None,
    decreases es.len(),
{
    if es.len() > 0 {
        let p = es.drop_last();
        assert forall|k: int| 0 <= k < p.len() implies (#[trigger] p[k]).url.len() > 0 && p[k].url.last() == '/' by {
            assert(p[k] == es[k]);
        }
        law_grouping_fails_only_on_bad_urls(p, ar);
        if groups_spec(p, ar) is Err {
            let k = choose|k: int| 0 <= k < p.len() && url_parsed(#[trigger] p[k].url) is None;
            assert(es[k] == p[k]);
        } else if groups_spec(es, ar) is Err {
            let l = es.len() - 1;
            assert(es.last() == es[l]);
            assert(url_parsed(es[l].url) is None);
        }
    }
}

/// The releases a sources list asks for.
#[derive(Clone, Debug)]
pub struct RequestedReleases {
    pub releases: Vec<(RequestedRelease, Vec<Entry>)>,
}

impl RequestedReleases {
    pub open spec fn spec(&self) -> Seq<GroupSpec> {
        Seq::new(self.releases@.len(), |i: int| (self.releases@[i].0.spec(), entry_specs(self.releases@[i].1@)))
    }
}

fn copy_strings(v: &Vec<String>) -> (r: Vec<String>)
    ensures
        r@ == v@,
{
    let mut out: Vec<String> = Vec::new();
    let mut k: usize = 0;
    while k < v.len()
        invariant
            k <= v@.len(),
            out@ == v@.take(k as int),
        decreases v@.len() - k,
    {
        out.push(v[k].clone());
        assert(out@ =~= v@.take(k + 1));
        k = k + 1;
    }
    assert(v@.take(v@.len() as int) =~= v@);
    out
}

fn copy_entry(e: &Entry) -> (r: Entry)
    ensures
        r.spec() == e.spec(),
{
    let arch = match &e.arch {
        Some(a) => Some(a.clone()),
        None => None,
    };
    let r = Entry {
        src: e.src,
        url: e.url.clone(),
        suite_codename: e.suite_codename.clone(),
        components: copy_strings(&e.components),
        arch,
        untrusted: e.untrusted,
    };
    assert(r.spec().components =~= e.spec().components);
    r
}

fn strings_equal(a: &Vec<String>, b: &Vec<String>) -> (r: bool)
    ensures
        r == (strings_spec(a@) == strings_spec(b@)),
{
    if a.len() != b.len() {
        assert(strings_spec(a@).len() != strings_spec(b@).len());
        return false;
    }
    let mut k: usize = 0;
    while k < a.len()
        invariant
            k <= a@.len(),
            a@.len() == b@.len(),
            forall|m: int| 0 <= m < k ==> a@[m]@ == b@[m]@,
        decreases a@.len() - k,
    {
        if a[k] != b[k] {
            assert(strings_spec(a@)[k as int] != strings_spec(b@)[k as int]);
            return false;
        }
        k = k + 1;
    }
    assert(strings_spec(a@) =~= strings_spec(b@));
    true
}

fn same_request_of(a: &RequestedRelease, b: &RequestedRelease) -> (r: bool)
    ensures
        r == same_request(a.spec(), b.spec()),
{
    a.mirror.text == b.mirror.text && a.codename == b.codename && strings_equal(&a.arches, &b.arches)
        && a.untrusted == b.untrusted
}

impl RequestedReleases {
    /// The releases a sources list asks for (each entry's URL must end with
    /// `/`), each with the entries that ask for it.
    pub fn from_sources_lists(sources_list: &[Entry], arches: &[String]) -> (r: Result<RequestedReleases, Error>)
        ensures
            match (r, groups_spec(entry_specs(sources_list@), strings_spec(arches@))) {
                (Ok(rs), Ok(gs)) => rs.spec() == gs,
                (Err(e), Err(se)) => e == se,
                _ => false,
            },
    {
        let ghost es = entry_specs(sources_list@);
        let ghost ar = strings_spec(arches@);
        let mut ret = RequestedReleases { releases: Vec::new() };
        assert(ret.spec() =~= Seq::<GroupSpec>::empty());
        assert(es.take(0) =~= Seq::<EntrySpec>::empty());
        let mut k: usize = 0;
        while k < sources_list.len()
            invariant
                k <= sources_list@.len(),
                es == entry_specs(sources_list@),
                ar == strings_spec(arches@),
                groups_spec(es.take(k as int), ar) == Ok::<Seq<GroupSpec>, Error>(ret.spec()),
            decreases sources_list@.len() - k,
        {
            let entry = &sources_list[k];
            let ghost t = es.take(k + 1);
            assert(t.drop_last() =~= es.take(k as int));
            assert(t.last() == entry.spec());
            let url_chars = chars_of(entry.url.as_str());
            if !ends_with_char(url_chars.as_slice(), '/') {
                proof {
                    lemma_groups_error_persists(es, ar, k as int + 1, Error::BadUrl);
                    assert(es.take(es.len() as int) =~= es);
                }
                return Err(Error::BadUrl);
            }
            let mirror = match parse_url(entry.url.as_str()) {
                Some(u) => u,
                None => {
                    proof {
                        lemma_groups_error_persists(es, ar, k as int + 1, Error::BadUrl);
                        assert(es.take(es.len() as int) =~= es);
                    }
                    return Err(Error::BadUrl);
                },
            };
            let req = RequestedRelease {
                mirror,
                codename: entry.suite_codename.clone(),
                arches: copy_strings_slice(arches),
                untrusted: entry.untrusted,
            };
            assert(req.spec().arches =~= ar);
            let ghost gs = ret.spec();
            let ghost rs = req.spec();
            let found = find_group(&ret, &req);
            let e = copy_entry(entry);
            match found {
                Some(i) => {
                    assert(group_index(gs, rs) == i);
                    let (r0, mut v) = ret.releases.remove(i);
                    let ghost v0 = entry_specs(v@);
                    v.push(e);
                    assert(entry_specs(v@) =~= v0.push(entry.spec()));
                    ret.releases.insert(i, (r0, v));
                    assert(ret.spec() =~= add_to_groups(gs, rs, entry.spec()));
                },
                None => {
                    let mut v: Vec<Entry> = Vec::new();
                    v.push(e);
                    assert(entry_specs(v@) =~= seq![entry.spec()]);
                    ret.releases.push((req, v));
                    assert(ret.spec() =~= add_to_groups(gs, rs, entry.spec()));
                },
            }
            k = k + 1;
        }
        assert(es.take(es.len() as int) =~= es);
        Ok(ret)
    }
}

fn copy_strings_slice(v: &[String]) -> (r: Vec<String>)
    ensures
        r@ == v@,
{
    let mut out: Vec<String> = Vec::new();
    let mut k: usize = 0;
    while k < v.len()
        invariant
            k <= v@.len(),
            out@ == v@.take(k as int),
        decreases v@.len() - k,
    {
        out.push(v[k].clone());
        assert(out@ =~= v@.take(k + 1));
        k = k + 1;
    }
    assert(v@.take(v@.len() as int) =~= v@);
    out
}

/// Once some entries fail, so do all of them.
proof fn lemma_groups_error_persists(es: Seq<EntrySpec>, ar: Seq<Seq<char>>, k: int, e: Error)
    requires
        0 < k <= es.len(),
        groups_spec(es.take(k), ar) == Err::<Seq<GroupSpec>, Error>(e),
    ensures
        groups_spec(es.take(es.len() as int), ar) == Err::<Seq<GroupSpec>, Error>(e),
    decreases es.len() - k,
{
    if k < es.len() {
        let t = es.take(k + 1);
        assert(t.drop_last() =~= es.take(k));
        lemma_groups_error_persists(es, ar, k + 1, e);
    }
}

fn find_group(rs: &RequestedReleases, req: &RequestedRelease) -> (r: Option<usize>)
    ensures
        match r {
            Some(i) => group_index(rs.spec(), req.spec()) == i && i < rs.releases@.len(),
            None => group_index(rs.spec(), req.spec()) == -1,
        },
{
    let ghost gs = rs.spec();
    let mut j = rs.releases.len();
    assert(gs.take(j as int) =~= gs);
    while j > 0
        invariant
            j <= rs.releases@.len(),
            gs == rs.spec(),
            group_index(gs, req.spec()) == group_index(gs.take(j as int), req.spec()),
        decreases j,
    {
        assert(gs.take(j as int).drop_last() =~= gs.take(j - 1));
        if same_request_of(&rs.releases[j - 1].0, req) {
            return Some(j - 1);
        }
        j = j - 1;
    }
    None
}

// ---------------------------------------------------------------------------
// Release files.

/// A file a release lists, with its size and checksums.
#[derive(Clone, Debug)]
pub struct ReleaseContent {
    pub len: u64,
    pub name: String,
    pub hashes: Hashes,
}

/// The model of a `ReleaseContent`: size, name, md5 and sha256 bytes.
pub type ContentSpec = (u64, Seq<char>, Seq<u8>, Seq<u8>);

impl ReleaseContent {
    pub open spec fn spec(&self) -> ContentSpec {
        (self.len, self.name@, self.hashes.md5@, self.hashes.sha256@)
    }
}

/// What `{:?}` shows of a string: std's quoted and escaped form.
pub uninterp spec fn debug_quoted(s: Seq<char>) -> Seq<char>;

/// `<str as Debug>::fmt`, through `format!("{:?}")`: the string in double
/// quotes with its special characters escaped. Its result is named by
/// `debug_quoted`; the escaping rules themselves are not restated.
#[verifier::external_body]
fn debug_str(s: &str) -> (r: String)
    ensures
        r@ == debug_quoted(s@),
{
    format!("{:?}", s)
}

impl ReleaseContent {
    /// `RC { "<name>" (<len>) Hashes { .. } }`: the name quoted as `{:?}`
    /// quotes it, the size in decimal, then the hashes as `{:?}` shows them.
    pub open spec fn describe_spec(&self) -> Seq<char> {
        "RC { "@ + debug_quoted(self.name@) + " ("@ + decimal(self.len as nat) + ") "@
            + self.hashes.debug_spec() + " }"@
    }

    /// The file shown for a person to read.
    pub fn describe(&self) -> (r: String)
        ensures
            r@ == self.describe_spec(),
    {
        let mut out = chars_of("RC { ");
        let q = chars_of(debug_str(self.name.as_str()).as_str());
        append_chars(&mut out, &q);
        let a = chars_of(" (");
        append_chars(&mut out, &a);
        let n = decimal_chars(self.len);
        append_chars(&mut out, &n);
        let b = chars_of(") ");
        append_chars(&mut out, &b);
        let h = self.hashes.debug_text();
        append_chars(&mut out, &h);
        let c = chars_of(" }");
        append_chars(&mut out, &c);
        string_of(out.as_slice())
    }
}

pub open spec fn content_specs(v: Seq<ReleaseContent>) -> Seq<ContentSpec> {
    Seq::new(v.len(), |i: int| v[i].spec())
}

/// Sixteen zero bytes: the md5 of a file whose md5 is not listed.
pub open spec fn no_md5() -> Seq<u8> {
    Seq::new(16, |i: int| 0u8)
}

/// One file of the sha256 list, with its md5 if the md5 list has it.
pub open spec fn content_of(sha: (FileKey, Seq<char>), md5s: Option<ChecksumsSpec>) -> Result<ContentSpec, Error> {
    let md5 = match md5s {
        Some(ms) => match lookup(ms, sha.0) {
            Some(h) => checksum_spec(h, 16),
            None => Ok(no_md5()),
        },
        None => Ok(no_md5()),
    };
    match md5 {
        Err(e) => Err(e),
        Ok(m) => match checksum_spec(sha.1, 32) {
            Err(e) => Err(e),
            Ok(h) => Ok((sha.0.1, sha.0.0, m, h)),
        },
    }
}

/// The files `i..` of the sha256 list.
pub open spec fn contents_from(shas: ChecksumsSpec, md5s: Option<ChecksumsSpec>, i: int) -> Result<Seq<ContentSpec>, Error>
    decreases shas.len() - i,
{
    if 0 <= i < shas.len() {
        match content_of(shas[i], md5s) {
            Err(e) => Err(e),
            Ok(c) => match contents_from(shas, md5s, i + 1) {
                Err(e) => Err(e),
                Ok(rest) => Ok(seq![c] + rest),
            },
        }
    } else {
        Ok(Seq::empty())
    }
}

/// The files of a release: `SHA256:` is required, `MD5Sum:` optional; both
/// are taken out.
pub open spec fn contents_spec(m: FieldsSpec) -> Result<(Seq<ContentSpec>, FieldsSpec), Error> {
    let m1 = m.remove("MD5Sum"@);
    let md5s = match m.get("MD5Sum"@) {
        None => Ok(None),
        Some(ls) => match checksums_spec(ls) {
            Ok(c) => Ok(Some(c)),
            Err(e) => Err(e),
        },
    };
    match md5s {
        Err(e) => Err(e),
        Ok(md5s) => match m1.get("SHA256"@) {
            None => Err(Error::MissingSha256),
            Some(ls) => match checksums_spec(ls) {
                Err(e) => Err(e),
                Ok(shas) => match contents_from(shas, md5s, 0) {
                    Err(e) => Err(e),
                    Ok(cs) => Ok((cs, m1.remove("SHA256"@))),
                },
            },
        },
    }
}

pub open spec fn opt_checksums(c: Option<Checksums>) -> Option<ChecksumsSpec> {
    match c {
        Some(c) => Some(c.spec()),
        None => None,
    }
}

/// The files of a release, taken out of its fields.
pub fn load_contents(data: &mut FieldMap) -> (r: Result<Vec<ReleaseContent>, Error>)
    requires
        old(data).wf(),
    ensures
        final(data).wf(),
        match (r, contents_spec(old(data).map())) {
            (Ok(v), Ok((cs, m))) => content_specs(v@) == cs && final(data).map() == m,
            (Err(e), Err(se)) => e == se,
            _ => false,
        },
{
    let ghost m0 = data.map();
    let md5s = take_checksums(data, "MD5Sum")?;
    let sha256s = match take_checksums(data, "SHA256")? {
        Some(c) => c,
        None => {
            return Err(Error::MissingSha256);
        },
    };
    let ghost md = opt_checksums(md5s);
    let ghost sh = sha256s.spec();
    let mut ret: Vec<ReleaseContent> = Vec::new();
    let mut i: usize = 0;
    assert(contents_from(sh, md, 0) == match contents_from(sh, md, 0) {
        Ok(rest) => Ok(content_specs(ret@) + rest),
        Err(e) => Err::<Seq<ContentSpec>, Error>(e),
    }) by {
        match contents_from(sh, md, 0) {
            Ok(rest) => {
                assert(content_specs(ret@) + rest =~= rest);
            },
            Err(_) => {},
        }
    }
    while i < sha256s.entries.len()
        invariant
            i <= sha256s.entries@.len(),
            data.wf(),
            m0 == old(data).map(),
            sh == sha256s.spec(),
            md == opt_checksums(md5s),
            contents_spec(m0) == match contents_from(sh, md, 0) {
                Err(e) => Err(e),
                Ok(cs) => Ok((cs, data.map())),
            },
            contents_from(sh, md, 0) == match contents_from(sh, md, i as int) {
                Ok(rest) => Ok(content_specs(ret@) + rest),
                Err(e) => Err::<Seq<ContentSpec>, Error>(e),
            },
        decreases sha256s.entries@.len() - i,
    {
        let e = &sha256s.entries[i];
        assert(e.spec() == sh[i as int]);
        let mut md5 = [0u8; 16];
        match &md5s {
            Some(ms) => match ms.get(e.name.as_slice(), e.size) {
                Some(h) => {
                    let t = string_of(h.as_slice());
                    md5 = parse_md5(t.as_str())?;
                },
                None => {
                    assert(md5@ =~= no_md5());
                },
            },
            None => {
                assert(md5@ =~= no_md5());
            },
        }
        let t = string_of(e.hash.as_slice());
        let sha256 = parse_sha256(t.as_str())?;
        let c = ReleaseContent { len: e.size, name: string_of(e.name.as_slice()), hashes: Hashes { md5, sha256 } };
        assert(content_of(sh[i as int], md) == Ok::<ContentSpec, Error>(c.spec()));
        let ghost before = content_specs(ret@);
        ret.push(c);
        proof {
            assert(content_specs(ret@) =~= before.push(c.spec()));
            match contents_from(sh, md, i + 1) {
                Ok(rest) => {
                    assert(before + (seq![c.spec()] + rest) =~= content_specs(ret@) + rest);
                },
                Err(_) => {},
            }
        }
        i = i + 1;
    }
    assert(content_specs(ret@) + Seq::<ContentSpec>::empty() =~= content_specs(ret@));
    Ok(ret)
}

/// What a release file says.
#[derive(Clone, Debug)]
pub struct ReleaseFile {
    pub origin: String,
    pub label: String,
    pub suite: Option<String>,
    pub codename: Option<String>,
    pub changelogs: Option<String>,
    /// Seconds since the epoch.
    pub date: i64,
    pub valid_until: Option<i64>,
    pub acquire_by_hash: bool,
    pub arches: Vec<String>,
    pub components: Vec<String>,
    pub description: Option<String>,
    pub contents: Vec<ReleaseContent>,
}

/// The model of a `ReleaseFile`.
pub struct ReleaseSpec {
    pub origin: Seq<char>,
    pub label: Seq<char>,
    pub suite: Option<Seq<char>>,
    pub codename: Option<Seq<char>>,
    pub changelogs: Option<Seq<char>>,
    pub date: i64,
    pub valid_until: Option<i64>,
    pub acquire_by_hash: bool,
    pub arches: Seq<Seq<char>>,
    pub components: Seq<Seq<char>>,
    pub description: Option<Seq<char>>,
    pub contents: Seq<ContentSpec>,
}

pub open spec fn opt_text(s: Option<String>) -> Option<Seq<char>> {
    match s {
        Some(x) => Some(x@),
        None => None,
    }
}

impl ReleaseFile {
    pub open spec fn spec(&self) -> ReleaseSpec {
        ReleaseSpec {
            origin: self.origin@,
            label: self.label@,
            suite: opt_text(self.suite),
            codename: opt_text(self.codename),
            changelogs: opt_text(self.changelogs),
            date: self.date,
            valid_until: self.valid_until,
            acquire_by_hash: self.acquire_by_hash,
            arches: strings_spec(self.arches@),
            components: strings_spec(self.components@),
            description: opt_text(self.description),
            contents: content_specs(self.contents@),
        }
    }
}

/// A date field read.
pub open spec fn date_of(v: Result<Seq<char>, Error>) -> Result<i64, Error> {
    match v {
        Err(e) => Err(e),
        Ok(l) => match date_parsed(l) {
            Some(t) => Ok(t),
            None => Err(Error::BadDate),
        },
    }
}

/// The words of a required field.
pub open spec fn words_req(v: Option<Seq<Seq<char>>>) -> Result<Seq<Seq<char>>, Error> {
    match v {
        Some(ls) => Ok(flat_words(ls)),
        None => Err(Error::MissingField),
    }
}

/// What a release file's fields say: `Origin:`, `Label:` and `Date:` are
/// required single lines; `Architectures:` and `Components:` are required
/// word lists; `Acquire-By-Hash:` is on only when it is `yes`.
pub open spec fn release_spec(m: FieldsSpec) -> Result<ReleaseSpec, Error> {
    let m1 = m.remove("Origin"@);
    let m2 = m1.remove("Label"@);
    let m3 = m2.remove("Suite"@);
    let m4 = m3.remove("Codename"@);
    let m5 = m4.remove("Changelogs"@);
    let m6 = m5.remove("Date"@);
    match one_line_req_spec(m.get("Origin"@)) {
        Err(e) => Err(e),
        Ok(origin) => match one_line_req_spec(m1.get("Label"@)) {
            Err(e) => Err(e),
            Ok(label) => match one_line_opt_spec(m2.get("Suite"@)) {
                Err(e) => Err(e),
                Ok(suite) => match one_line_opt_spec(m3.get("Codename"@)) {
                    Err(e) => Err(e),
                    Ok(codename) => match one_line_opt_spec(m4.get("Changelogs"@)) {
                        Err(e) => Err(e),
                        Ok(changelogs) => match date_of(one_line_req_spec(m5.get("Date"@))) {
                            Err(e) => Err(e),
                            Ok(date) => release_tail_spec(m6, origin, label, suite, codename, changelogs, date),
                        },
                    },
                },
            },
        },
    }
}

/// The fields of a release file after `Date:`.
pub open spec fn release_tail_spec(
    m6: FieldsSpec,
    origin: Seq<char>,
    label: Seq<char>,
    suite: Option<Seq<char>>,
    codename: Option<Seq<char>>,
    changelogs: Option<Seq<char>>,
    date: i64,
) -> Result<ReleaseSpec, Error> {
    let m7 = m6.remove("Valid-Until"@);
    let m8 = m7.remove("Acquire-By-Hash"@);
    let m9 = m8.remove("Architectures"@);
    let m10 = m9.remove("Components"@);
    let m11 = m10.remove("Description"@);
    let valid_until = match one_line_opt_spec(m6.get("Valid-Until"@)) {
        Err(e) => Err(e),
        Ok(None) => Ok(None),
        Ok(Some(l)) => match date_parsed(l) {
            Some(t) => Ok(Some(t)),
            None => Err(Error::BadDate),
        },
    };
    match valid_until {
        Err(e) => Err(e),
        Ok(valid_until) => match one_line_opt_spec(m7.get("Acquire-By-Hash"@)) {
            Err(e) => Err(e),
            Ok(abh) => match words_req(m8.get("Architectures"@)) {
                Err(e) => Err(e),
                Ok(arches) => match words_req(m9.get("Components"@)) {
                    Err(e) => Err(e),
                    Ok(components) => match one_line_opt_spec(m10.get("Description"@)) {
                        Err(e) => Err(e),
                        Ok(description) => match contents_spec(m11) {
                            Err(e) => Err(e),
                            Ok((contents, _)) => Ok(
                                ReleaseSpec {
                                    origin,
                                    label,
                                    suite,
                                    codename,
                                    changelogs,
                                    date,
                                    valid_until,
                                    acquire_by_hash: abh == Some("yes"@),
                                    arches,
                                    components,
                                    description,
                                    contents,
                                },
                            ),
                        },
                    },
                },
            },
        },
    }
}

/// What a release file's text says.
pub open spec fn parse_release_spec(text: Seq<char>) -> Result<ReleaseSpec, Error> {
    match fields(text) {
        Err(e) => Err(e),
        Ok(fs) => release_spec(fields_map(fs)),
    }
}

/// Each field of a release read is the field of the same name in the
/// paragraph: origin, label and date from `Origin:`, `Label:` and `Date:`;
/// suite, codename, changelogs and description from `Suite:`, `Codename:`,
/// `Changelogs:` and `Description:` when present; architectures and
/// components from the words of `Architectures:` and `Components:`; and
/// by-hash downloads on exactly when `Acquire-By-Hash:` is `yes`.
pub proof fn law_release_fields(text: Seq<char>)
    requires
        parse_release_spec(text) is Ok,
    ensures
        fields(text) is Ok,
        ({
            let m = fields_map(fields(text)->Ok_0);
            let f = parse_release_spec(text)->Ok_0;
            &&& one_line_req_spec(m.get("Origin"@)) == Ok::<Seq<char>, Error>(f.origin)
            &&& one_line_req_spec(m.get("Label"@)) == Ok::<Seq<char>, Error>(f.label)
            &&& one_line_opt_spec(m.get("Suite"@)) == Ok::<Option<Seq<char>>, Error>(f.suite)
            &&& one_line_opt_spec(m.get("Codename"@)) == Ok::<Option<Seq<char>>, Error>(f.codename)
            &&& one_line_opt_spec(m.get("Changelogs"@)) == Ok::<Option<Seq<char>>, Error>(f.changelogs)
            &&& date_of(one_line_req_spec(m.get("Date"@))) == Ok::<i64, Error>(f.date)
            &&& words_req(m.get("Architectures"@)) == Ok::<Seq<Seq<char>>, Error>(f.arches)
            &&& words_req(m.get("Components"@)) == Ok::<Seq<Seq<char>>, Error>(f.components)
            &&& one_line_opt_spec(m.get("Description"@)) == Ok::<Option<Seq<char>>, Error>(f.description)
            &&& f.acquire_by_hash == (one_line_opt_spec(m.get("Acquire-By-Hash"@)) == Ok::<
                Option<Seq<char>>,
                Error,
            >(Some("yes"@)))
        }),
{
    reveal_strlit("Origin");
    reveal_strlit("Label");
    reveal_strlit("Suite");
    reveal_strlit("Codename");
    reveal_strlit("Changelogs");
    reveal_strlit("Date");
    reveal_strlit("Valid-Until");
    reveal_strlit("Acquire-By-Hash");
    reveal_strlit("Architectures");
    reveal_strlit("Components");
    reveal_strlit("Description");
    let m = fields_map(fields(text)->Ok_0);
    let keys = seq!["Origin"@, "Label"@, "Suite"@, "Codename"@, "Changelogs"@, "Date"@, "Valid-Until"@,
        "Acquire-By-Hash"@, "Architectures"@, "Components"@, "Description"@];
    assert forall|a: int, b: int| 0 <= a < b < keys.len() implies #[trigger] keys[a] != #[trigger] keys[b] by {
        if keys[a].len() == keys[b].len() {
            assert(keys[a][0] != keys[b][0] || keys[a][1] != keys[b][1]);
        }
    }
    let m1 = m.remove("Origin"@);
    let m2 = m1.remove("Label"@);
    let m3 = m2.remove("Suite"@);
    let m4 = m3.remove("Codename"@);
    let m5 = m4.remove("Changelogs"@);
    let m6 = m5.remove("Date"@);
    let m7 = m6.remove("Valid-Until"@);
    let m8 = m7.remove("Acquire-By-Hash"@);
    let m9 = m8.remove("Architectures"@);
    let m10 = m9.remove("Components"@);
    assert(keys[0] != keys[1]);
    assert(m1.get("Label"@) == m.get("Label"@));
    assert(keys[0] != keys[2] && keys[1] != keys[2]);
    assert(m2.get("Suite"@) == m.get("Suite"@));
    assert(keys[0] != keys[3] && keys[1] != keys[3] && keys[2] != keys[3]);
    assert(m3.get("Codename"@) == m.get("Codename"@));
    assert(keys[0] != keys[4] && keys[1] != keys[4] && keys[2] != keys[4] && keys[3] != keys[4]);
    assert(m4.get("Changelogs"@) == m.get("Changelogs"@));
    assert(keys[0] != keys[5] && keys[1] != keys[5] && keys[2] != keys[5] && keys[3] != keys[5] && keys[4] != keys[5]);
    assert(m5.get("Date"@) == m.get("Date"@));
    assert(forall|a: int| 0 <= a < 6 ==> #[trigger] keys[a] != keys[6]);
    assert(m6.get("Valid-Until"@) == m.get("Valid-Until"@));
    assert(forall|a: int| 0 <= a < 7 ==> #[trigger] keys[a] != keys[7]);
    assert(m7.get("Acquire-By-Hash"@) == m.get("Acquire-By-Hash"@));
    assert(forall|a: int| 0 <= a < 8 ==> #[trigger] keys[a] != keys[8]);
    assert(m8.get("Architectures"@) == m.get("Architectures"@));
    assert(forall|a: int| 0 <= a < 9 ==> #[trigger] keys[a] != keys[9]);
    assert(m9.get("Components"@) == m.get("Components"@));
    assert(forall|a: int| 0 <= a < 10 ==> #[trigger] keys[a] != keys[10]);
    assert(m10.get("Description"@) == m.get("Description"@));
}

fn take_words(map: &mut FieldMap, key: &str) -> (r: Result<Vec<String>, Error>)
    requires
        old(map).wf(),
    ensures
        final(map).wf(),
        final(map).map() == old(map).map().remove(key@),
        match r {
            Ok(v) => words_req(old(map).map().get(key@)) == Ok::<Seq<Seq<char>>, Error>(strings_spec(v@)),
            Err(e) => words_req(old(map).map().get(key@)) == Err::<Seq<Seq<char>>, Error>(e),
        },
{
    let v = map.remove_value(key);
    let ws = v.split_whitespace()?;
    assert(strings_spec(ws@) =~= Seq::new(ws@.len(), |i: int| ws@[i]@));
    Ok(ws)
}

fn take_date(map: &mut FieldMap, key: &str) -> (r: Result<i64, Error>)
    requires
        old(map).wf(),
    ensures
        final(map).wf(),
        final(map).map() == old(map).map().remove(key@),
        r == date_of(one_line_req_spec(old(map).map().get(key@))),
{
    let l = take_req_string(map, key)?;
    parse_date(l.as_str())
}

fn take_opt_date(map: &mut FieldMap, key: &str) -> (r: Result<Option<i64>, Error>)
    requires
        old(map).wf(),
    ensures
        final(map).wf(),
        final(map).map() == old(map).map().remove(key@),
        r == match one_line_opt_spec(old(map).map().get(key@)) {
            Err(e) => Err(e),
            Ok(None) => Ok(None),
            Ok(Some(l)) => match date_parsed(l) {
                Some(t) => Ok(Some(t)),
                None => Err(Error::BadDate),
            },
        },
{
    match take_opt_string(map, key)? {
        None => Ok(None),
        Some(l) => {
            let t = parse_date(l.as_str())?;
            Ok(Some(t))
        },
    }
}

/// Read a release file.
pub fn parse_release(release: &str) -> (r: Result<ReleaseFile, Error>)
    ensures
        match (r, parse_release_spec(release@)) {
            (Ok(f), Ok(sf)) => f.spec() == sf,
            (Err(e), Err(se)) => e == se,
            _ => false,
        },
{
    let mut data = scan(release).collect_to_map()?;
    let origin = take_req_string(&mut data, "Origin")?;
    let label = take_req_string(&mut data, "Label")?;
    let suite = take_opt_string(&mut data, "Suite")?;
    let codename = take_opt_string(&mut data, "Codename")?;
    let changelogs = take_opt_string(&mut data, "Changelogs")?;
    let date = take_date(&mut data, "Date")?;
    let valid_until = take_opt_date(&mut data, "Valid-Until")?;
    let acquire_by_hash = match take_opt_line(&mut data, "Acquire-By-Hash")? {
        Some(l) => crate::text::chars_eq_str(l.as_slice(), "yes"),
        None => false,
    };
    let arches = take_words(&mut data, "Architectures")?;
    let components = take_words(&mut data, "Components")?;
    let description = take_opt_string(&mut data, "Description")?;
    let contents = load_contents(&mut data)?;
    Ok(
        ReleaseFile {
            origin,
            label,
            suite,
            codename,
            changelogs,
            date,
            valid_until,
            acquire_by_hash,
            arches,
            components,
            description,
            contents,
        },
    )
}

/// A release as asked for, with the sources list entries that ask for it and
/// what its release file says.
#[derive(Clone, Debug)]
pub struct Release {
    pub req: RequestedRelease,
    pub sources_entries: Vec<Entry>,
    pub file: ReleaseFile,
}

} // verus!
