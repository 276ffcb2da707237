//! Package listings: which `Packages` and `Sources` files a release offers
//! for the entries that asked for it, and where to download them from.

use vstd::prelude::*;

use crate::checksum::{hex_encode, hex_text, Hashes};
use crate::error::Error;
use crate::release::{
    dists_spec, strings_spec, url_joined, join_urls, ContentSpec, Release, ReleaseContent,
    RequestedSpec,
};
use crate::sections::{ByteSections, StringSections};
use crate::sources_list::EntrySpec;
use crate::text::{chars_of, concat2, str_eq, string_of};

verus! {

/// How a listing file is compressed.
#[derive(Clone, Copy, Debug, PartialEq, Eq, Structural)]
pub enum Compression {
    Uncompressed,
    Gz,
}

impl Compression {
    /// The file name suffix of the compression.
    pub fn suffix(&self) -> (r: &'static str)
        ensures
            r@ == match self {
                Compression::Uncompressed => ""@,
                Compression::Gz => ".gz"@,
            },
    {
        match *self {
            Compression::Uncompressed => "",
            Compression::Gz => ".gz",
        }
    }
}

/// A listing file as found in a release: where to get it, how it is
/// compressed, and the checksums before and after decompressing.
#[derive(Clone, Debug)]
pub struct DownloadableListing {
    pub url: String,
    pub codec: Compression,
    pub compressed_hashes: Hashes,
    pub decompressed_hashes: Hashes,
}

/// The model of a `DownloadableListing`.
pub type DownloadSpec = (Seq<char>, Compression, Hashes, Hashes);

impl DownloadableListing {
    pub open spec fn spec(&self) -> DownloadSpec {
        (self.url@, self.codec, self.compressed_hashes, self.decompressed_hashes)
    }

    /// The name the listing is stored under: its decompressed sha256, in hex.
    pub fn local_name(&self) -> (r: String)
        ensures
            r@ == hex_text(self.decompressed_hashes.sha256@),
    {
        hex_encode(&self.decompressed_hashes.sha256)
    }
}

pub open spec fn download_specs(v: Seq<DownloadableListing>) -> Seq<DownloadSpec> {
    Seq::new(v.len(), |i: int| v[i].spec())
}

/// A listing: e.g. the `Packages` of `contrib` for `amd64` lives under
/// `contrib/binary-amd64/Packages`.
#[derive(Clone, Debug, PartialEq, Eq)]
pub struct Listing {
    pub component: String,
    pub arch: Option<String>,
    pub directory: String,
    pub name: String,
}

/// The model of a `Listing`.
#[verifier::ext_equal]
pub struct ListingSpec {
    pub component: Seq<char>,
    pub arch: Option<Seq<char>>,
    pub directory: Seq<char>,
    pub name: Seq<char>,
}

impl Listing {
    pub open spec fn spec(&self) -> ListingSpec {
        ListingSpec {
            component: self.component@,
            arch: match self.arch {
                Some(a) => Some(a@),
                None => None,
            },
            directory: self.directory@,
            name: self.name@,
        }
    }
}

pub open spec fn listing_specs(v: Seq<Listing>) -> Seq<ListingSpec> {
    Seq::new(v.len(), |i: int| v[i].spec())
}

// ---------------------------------------------------------------------------
// Which listings a release offers its entries.

/// The binary listings of one component: one per requested architecture
/// that the release has and the entry (if it names one) asks for.
pub open spec fn arch_listings(
    component: Seq<char>,
    entry_arch: Option<Seq<char>>,
    req_arches: Seq<Seq<char>>,
    file_arches: Seq<Seq<char>>,
) -> Seq<ListingSpec>
    decreases req_arches.len(),
{
    if req_arches.len() == 0 {
        Seq::empty()
    } else {
        let rest = arch_listings(component, entry_arch, req_arches.drop_last(), file_arches);
        let a = req_arches.last();
        if file_arches.contains(a) && (entry_arch is None || entry_arch == Some(a)) {
            rest.push(
                ListingSpec {
                    component,
                    arch: Some(a),
                    directory: "binary"@,
                    name: "Packages"@,
                },
            )
        } else {
            rest
        }
    }
}

/// The listings of the components of an entry: a source entry has one
/// `Sources` listing per component, a binary entry its binary listings.
pub open spec fn component_listings(
    e: EntrySpec,
    components: Seq<Seq<char>>,
    req_arches: Seq<Seq<char>>,
    file_arches: Seq<Seq<char>>,
) -> Seq<ListingSpec>
    decreases components.len(),
{
    if components.len() == 0 {
        Seq::empty()
    } else {
        let rest = component_listings(e, components.drop_last(), req_arches, file_arches);
        let c = components.last();
        if e.src {
            rest.push(ListingSpec { component: c, arch: None, directory: "source"@, name: "Sources"@ })
        } else {
            rest + arch_listings(c, e.arch, req_arches, file_arches)
        }
    }
}

/// The listings of some entries, in order.
pub open spec fn selected_spec(es: Seq<EntrySpec>, req_arches: Seq<Seq<char>>, file_arches: Seq<Seq<char>>) -> Seq<ListingSpec>
    decreases es.len(),
{
    if es.len() == 0 {
        Seq::empty()
    } else {
        selected_spec(es.drop_last(), req_arches, file_arches) + component_listings(
            es.last(),
            es.last().components,
            req_arches,
            file_arches,
        )
    }
}

/// The listings a release offers the entries that asked for it.
pub open spec fn release_listings(r: Release) -> Seq<ListingSpec> {
    selected_spec(
        crate::sources_list::entry_specs(r.sources_entries@),
        strings_spec(r.req.arches@),
        strings_spec(r.file.arches@),
    )
}

/// A listing is a `Sources` listing without architecture, or a `Packages`
/// listing for an architecture both requested and in the release.
pub open spec fn listing_fits(l: ListingSpec, req_arches: Seq<Seq<char>>, file_arches: Seq<Seq<char>>) -> bool {
    ||| (l.arch is None && l.directory == "source"@ && l.name == "Sources"@)
    ||| (l.arch matches Some(a) && req_arches.contains(a) && file_arches.contains(a)
        && l.directory == "binary"@ && l.name == "Packages"@)
}

proof fn lemma_arch_listings_fit(c: Seq<char>, ea: Option<Seq<char>>, ras: Seq<Seq<char>>, fas: Seq<Seq<char>>, all: Seq<Seq<char>>)
    requires
        forall|x: Seq<char>| ras.contains(x) ==> all.contains(x),
    ensures
        forall|k: int| 0 <= k < arch_listings(c, ea, ras, fas).len() ==> listing_fits(#[trigger] arch_listings(c, ea, ras, fas)[k], all, fas),
    decreases ras.len(),
{
    if ras.len() > 0 {
        let p = ras.drop_last();
        assert forall|x: Seq<char>| p.contains(x) implies all.contains(x) by {
            let i = choose|i: int| 0 <= i < p.len() && p[i] == x;
            assert(ras[i] == x);
        }
        lemma_arch_listings_fit(c, ea, p, fas, all);
        assert(ras.contains(ras.last())) by {
            assert(ras[ras.len() - 1] == ras.last());
        }
        let rest = arch_listings(c, ea, p, fas);
        let r = arch_listings(c, ea, ras, fas);
        assert forall|k: int| 0 <= k < r.len() implies listing_fits(#[trigger] r[k], all, fas) by {
            if k < rest.len() {
                assert(r[k] == rest[k]);
            }
        }
    }
}

proof fn lemma_component_listings_fit(e: EntrySpec, cs: Seq<Seq<char>>, ras: Seq<Seq<char>>, fas: Seq<Seq<char>>)
    ensures
        forall|k: int| 0 <= k < component_listings(e, cs, ras, fas).len() ==> listing_fits(#[trigger] component_listings(e, cs, ras, fas)[k], ras, fas),
    decreases cs.len(),
{
    if cs.len() > 0 {
        lemma_component_listings_fit(e, cs.drop_last(), ras, fas);
        lemma_arch_listings_fit(cs.last(), e.arch, ras, fas, ras);
        let rest = component_listings(e, cs.drop_last(), ras, fas);
        let all = component_listings(e, cs, ras, fas);
        if !e.src {
            let more = arch_listings(cs.last(), e.arch, ras, fas);
            assert forall|k: int| 0 <= k < all.len() implies listing_fits(#[trigger] all[k], ras, fas) by {
                if k < rest.len() {
                    assert(all[k] == rest[k]);
                } else {
                    assert(all[k] == more[k - rest.len()]);
                }
            }
        } else {
            assert forall|k: int| 0 <= k < all.len() implies listing_fits(#[trigger] all[k], ras, fas) by {
                if k < rest.len() {
                    assert(all[k] == rest[k]);
                }
            }
        }
    }
}

/// Every listing offered is a `Sources` listing without architecture, or a
/// `Packages` listing for an architecture that is both requested and in
/// the release.
pub proof fn law_listings_fit(es: Seq<EntrySpec>, req_arches: Seq<Seq<char>>, file_arches: Seq<Seq<char>>)
    ensures
        forall|k: int|
            0 <= k < selected_spec(es, req_arches, file_arches).len() ==> listing_fits(
                #[trigger] selected_spec(es, req_arches, file_arches)[k],
                req_arches,
                file_arches,
            ),
    decreases es.len(),
{
    if es.len() > 0 {
        law_listings_fit(es.drop_last(), req_arches, file_arches);
        lemma_component_listings_fit(es.last(), es.last().components, req_arches, file_arches);
        let rest = selected_spec(es.drop_last(), req_arches, file_arches);
        let more = component_listings(es.last(), es.last().components, req_arches, file_arches);
        let all = selected_spec(es, req_arches, file_arches);
        assert forall|k: int| 0 <= k < all.len() implies listing_fits(#[trigger] all[k], req_arches, file_arches) by {
            if k < rest.len() {
                assert(all[k] == rest[k]);
            } else {
                assert(all[k] == more[k - rest.len()]);
            }
        }
    }
}

fn contains_string(v: &Vec<String>, s: &String) -> (r: bool)
    ensures
        r == strings_spec(v@).contains(s@),
{
    let mut k: usize = 0;
    while k < v.len()
        invariant
            k <= v@.len(),
            forall|m: int| 0 <= m < k ==> v@[m]@ != s@,
        decreases v@.len() - k,
    {
        if v[k] == *s {
            assert(strings_spec(v@)[k as int] == s@);
            return true;
        }
        k = k + 1;
    }
    assert forall|m: int| 0 <= m < strings_spec(v@).len() implies strings_spec(v@)[m] != s@ by {
        assert(strings_spec(v@)[m] == v@[m]@);
    }
    false
}

/// The listings a release offers the entries that asked for it: for each
/// entry and component, the `Sources` listing of a source entry, or a
/// `Packages` listing for each requested architecture that the release has
/// (and the entry, if it names one, asks for).
pub fn selected_listings(release: &Release) -> (r: Vec<Listing>)
    ensures
        listing_specs(r@) == release_listings(*release),
{
    let ghost es = crate::sources_list::entry_specs(release.sources_entries@);
    let ghost ras = strings_spec(release.req.arches@);
    let ghost fas = strings_spec(release.file.arches@);
    let mut ret: Vec<Listing> = Vec::new();
    let mut i: usize = 0;
    assert(es.take(0) =~= Seq::<EntrySpec>::empty());
    assert(listing_specs(ret@) =~= Seq::<ListingSpec>::empty());
    while i < release.sources_entries.len()
        invariant
            i <= release.sources_entries@.len(),
            es == crate::sources_list::entry_specs(release.sources_entries@),
            ras == strings_spec(release.req.arches@),
            fas == strings_spec(release.file.arches@),
            listing_specs(ret@) == selected_spec(es.take(i as int), ras, fas),
        decreases release.sources_entries@.len() - i,
    {
        let entry = &release.sources_entries[i];
        let ghost e = entry.spec();
        let ghost base = listing_specs(ret@);
        let ghost cs = e.components;
        assert(es.take(i + 1).drop_last() =~= es.take(i as int));
        assert(es.take(i + 1).last() == e);
        let mut k: usize = 0;
        assert(cs.take(0) =~= Seq::<Seq<char>>::empty());
        assert(base + Seq::<ListingSpec>::empty() =~= base);
        while k < entry.components.len()
            invariant
                k <= entry.components@.len(),
                e == entry.spec(),
                cs == e.components,
                ras == strings_spec(release.req.arches@),
                fas == strings_spec(release.file.arches@),
                listing_specs(ret@) == base + component_listings(e, cs.take(k as int), ras, fas),
            decreases entry.components@.len() - k,
        {
            let component = &entry.components[k];
            assert(cs[k as int] == component@);
            assert(cs.take(k + 1).drop_last() =~= cs.take(k as int));
            assert(cs.take(k + 1).last() == component@);
            let ghost before = listing_specs(ret@);
            if entry.src {
                let l = Listing {
                    component: component.clone(),
                    arch: None,
                    directory: "source".to_string(),
                    name: "Sources".to_string(),
                };
                ret.push(l);
                assert(listing_specs(ret@) =~= before.push(l.spec()));
            } else {
                let mut j: usize = 0;
                let ghost mid = listing_specs(ret@);
                assert(ras.take(0) =~= Seq::<Seq<char>>::empty());
                assert(mid + Seq::<ListingSpec>::empty() =~= mid);
                while j < release.req.arches.len()
                    invariant
                        j <= release.req.arches@.len(),
                        e == entry.spec(),
                        !e.src,
                        ras == strings_spec(release.req.arches@),
                        fas == strings_spec(release.file.arches@),
                        component@ == cs[k as int],
                        listing_specs(ret@) == mid + arch_listings(component@, e.arch, ras.take(j as int), fas),
                    decreases release.req.arches@.len() - j,
                {
                    let arch = &release.req.arches[j];
                    assert(ras[j as int] == arch@);
                    assert(ras.take(j + 1).drop_last() =~= ras.take(j as int));
                    assert(ras.take(j + 1).last() == arch@);
                    let ghost before2 = listing_specs(ret@);
                    let wanted = match &entry.arch {
                        Some(entry_arch) => *arch == *entry_arch,
                        None => true,
                    };
                    if contains_string(&release.file.arches, arch) && wanted {
                        let l = Listing {
                            component: component.clone(),
                            arch: Some(arch.clone()),
                            directory: "binary".to_string(),
                            name: "Packages".to_string(),
                        };
                        ret.push(l);
                        assert(listing_specs(ret@) =~= before2.push(l.spec()));
                    }
                    j = j + 1;
                }
                assert(ras.take(release.req.arches@.len() as int) =~= ras);
            }
            proof {
                if !e.src {
                    assert(base + component_listings(e, cs.take(k + 1), ras, fas) =~= before + arch_listings(cs[k as int], e.arch, ras, fas));
                }
            }
            k = k + 1;
        }
        assert(cs.take(entry.components@.len() as int) =~= cs);
        i = i + 1;
    }
    assert(es.take(release.sources_entries@.len() as int) =~= es);
    ret
}

// ---------------------------------------------------------------------------
// Where a listing is found.

/// The directory of a listing: e.g. `binary-amd64`, or `source`.
pub open spec fn listing_dir(l: ListingSpec) -> Seq<char> {
    match l.arch {
        Some(a) => l.directory + "-"@ + a,
        None => l.directory,
    }
}

/// The path of a listing within the release: `<component>/<dir>/<name>`.
pub open spec fn listing_base(l: ListingSpec) -> Seq<char> {
    l.component + "/"@ + listing_dir(l) + "/"@ + l.name
}

/// The checksums of the last file of a release with the given name.
pub open spec fn last_named(cs: Seq<ReleaseContent>, name: Seq<char>) -> Option<Hashes>
    decreases cs.len(),
{
    if cs.len() == 0 {
        None
    } else if cs.last().name@ == name {
        Some(cs.last().hashes)
    } else {
        last_named(cs.drop_last(), name)
    }
}

/// Where a listing is found: the uncompressed file must be listed; the
/// gzip one is used when listed too. With acquire-by-hash the path names
/// the sha256 of what is downloaded.
pub open spec fn find_spec(base_url: Seq<char>, contents: Seq<ReleaseContent>, acquire_by_hash: bool, l: ListingSpec) -> Result<DownloadSpec, Error> {
    let base = listing_base(l);
    let gz_name = base + ".gz"@;
    match last_named(contents, base) {
        None => Err(Error::ListingNotFound),
        Some(raw) => {
            let gz = last_named(contents, gz_name);
            let compressed = match gz {
                Some(h) => h,
                None => raw,
            };
            let path = if acquire_by_hash {
                l.component + "/"@ + listing_dir(l) + "/by-hash/SHA256/"@ + hex_text(compressed.sha256@)
            } else if gz is Some {
                gz_name
            } else {
                base
            };
            match url_joined(base_url, path) {
                None => Err(Error::BadUrl),
                Some(u) => Ok(
                    (
                        u,
                        if gz is Some {
                            Compression::Gz
                        } else {
                            Compression::Uncompressed
                        },
                        compressed,
                        raw,
                    ),
                ),
            }
        },
    }
}

fn last_named_of(contents: &[ReleaseContent], name: &String) -> (r: Option<Hashes>)
    ensures
        r == last_named(contents@, name@),
{
    let mut k = contents.len();
    assert(contents@.take(k as int) =~= contents@);
    while k > 0
        invariant
            k <= contents@.len(),
            last_named(contents@, name@) == last_named(contents@.take(k as int), name@),
        decreases k,
    {
        assert(contents@.take(k as int).drop_last() =~= contents@.take(k - 1));
        if contents[k - 1].name == *name {
            return Some(contents[k - 1].hashes);
        }
        k = k - 1;
    }
    None
}

/// Where a listing is found in a release whose `dists/<codename>/` URL is
/// `base_url`.
pub fn find_file(base_url: &str, contents: &[ReleaseContent], acquire_by_hash: bool, listing: &Listing) -> (r: Result<DownloadableListing, Error>)
    ensures
        match (r, find_spec(base_url@, contents@, acquire_by_hash, listing.spec())) {
            (Ok(d), Ok(sd)) => d.spec() == sd,
            (Err(e), Err(se)) => e == se,
            _ => false,
        },
{
    let ghost l = listing.spec();
    let directory = match &listing.arch {
        Some(arch) => {
            let a = concat2(listing.directory.as_str(), "-");
            concat2(a.as_str(), arch.as_str())
        },
        None => listing.directory.clone(),
    };
    assert(directory@ == listing_dir(l));
    let prefix = concat2(listing.component.as_str(), "/");
    let prefix = concat2(prefix.as_str(), directory.as_str());
    let base = concat2(prefix.as_str(), "/");
    let base = concat2(base.as_str(), listing.name.as_str());
    assert(base@ == listing_base(l));
    let gz_name = concat2(base.as_str(), Compression::Gz.suffix());
    let raw = match last_named_of(contents, &base) {
        Some(h) => h,
        None => {
            return Err(Error::ListingNotFound);
        },
    };
    let gz = last_named_of(contents, &gz_name);
    let compressed = match gz {
        Some(h) => h,
        None => raw,
    };
    let path = if acquire_by_hash {
        let p = concat2(prefix.as_str(), "/by-hash/SHA256/");
        let hex = hex_encode(&compressed.sha256);
        concat2(p.as_str(), hex.as_str())
    } else if gz.is_some() {
        gz_name
    } else {
        base
    };
    let url = join_urls(base_url, path.as_str())?;
    let codec = if gz.is_some() {
        Compression::Gz
    } else {
        Compression::Uncompressed
    };
    Ok(DownloadableListing { url, codec, compressed_hashes: compressed, decompressed_hashes: raw })
}

/// Where a listing of a release is found.
pub open spec fn find_easy_spec(r: Release, l: ListingSpec) -> Result<DownloadSpec, Error> {
    match dists_spec(r.req.mirror.text@, r.req.codename@) {
        Err(e) => Err(e),
        Ok(d) => find_spec(d, r.file.contents@, r.file.acquire_by_hash, l),
    }
}

/// Where a listing of a release is found.
pub fn find_file_easy(release: &Release, listing: &Listing) -> (r: Result<DownloadableListing, Error>)
    ensures
        match (r, find_easy_spec(*release, listing.spec())) {
            (Ok(d), Ok(sd)) => d.spec() == sd,
            (Err(e), Err(se)) => e == se,
            _ => false,
        },
{
    let d = release.req.dists()?;
    find_file(d.as_str(), release.file.contents.as_slice(), release.file.acquire_by_hash, listing)
}

/// The downloads of some listings of a release, in order.
pub open spec fn listing_downloads(r: Release, ls: Seq<ListingSpec>) -> Result<Seq<DownloadSpec>, Error>
    decreases ls.len(),
{
    if ls.len() == 0 {
        Ok(Seq::empty())
    } else {
        match listing_downloads(r, ls.drop_last()) {
            Err(e) => Err(e),
            Ok(acc) => match find_easy_spec(r, ls.last()) {
                Err(e) => Err(e),
                Ok(d) => Ok(acc.push(d)),
            },
        }
    }
}

/// The downloads of the listings of some releases, in order.
pub open spec fn downloads_spec(rs: Seq<Release>) -> Result<Seq<DownloadSpec>, Error>
    decreases rs.len(),
{
    if rs.len() == 0 {
        Ok(Seq::empty())
    } else {
        match downloads_spec(rs.drop_last()) {
            Err(e) => Err(e),
            Ok(acc) => match listing_downloads(rs.last(), release_listings(rs.last())) {
                Err(e) => Err(e),
                Ok(d) => Ok(acc + d),
            },
        }
    }
}

/// Once some listings fail, so do all of them.
proof fn lemma_listing_downloads_error(r: Release, ls: Seq<ListingSpec>, k: int, e: Error)
    requires
        0 < k <= ls.len(),
        listing_downloads(r, ls.take(k)) == Err::<Seq<DownloadSpec>, Error>(e),
    ensures
        listing_downloads(r, ls) == Err::<Seq<DownloadSpec>, Error>(e),
    decreases ls.len() - k,
{
    if k < ls.len() {
        assert(ls.take(k + 1).drop_last() =~= ls.take(k));
        lemma_listing_downloads_error(r, ls, k + 1, e);
    } else {
        assert(ls.take(k) =~= ls);
    }
}

/// Once some releases fail, so do all of them.
proof fn lemma_downloads_error(rs: Seq<Release>, k: int, e: Error)
    requires
        0 < k <= rs.len(),
        downloads_spec(rs.take(k)) == Err::<Seq<DownloadSpec>, Error>(e),
    ensures
        downloads_spec(rs) == Err::<Seq<DownloadSpec>, Error>(e),
    decreases rs.len() - k,
{
    if k < rs.len() {
        assert(rs.take(k + 1).drop_last() =~= rs.take(k));
        lemma_downloads_error(rs, k + 1, e);
    } else {
        assert(rs.take(k) =~= rs);
    }
}

/// The downloads of every listing the releases offer, release by release.
pub fn extract_downloads(releases: &[Release]) -> (r: Result<Vec<DownloadableListing>, Error>)
    ensures
        match (r, downloads_spec(releases@)) {
            (Ok(v), Ok(s)) => download_specs(v@) == s,
            (Err(e), Err(se)) => e == se,
            _ => false,
        },
{
    let mut out: Vec<DownloadableListing> = Vec::new();
    let mut i: usize = 0;
    assert(releases@.take(0) =~= Seq::<Release>::empty());
    assert(download_specs(out@) =~= Seq::<DownloadSpec>::empty());
    while i < releases.len()
        invariant
            i <= releases@.len(),
            downloads_spec(releases@.take(i as int)) == Ok::<Seq<DownloadSpec>, Error>(download_specs(out@)),
        decreases releases@.len() - i,
    {
        let rel = &releases[i];
        let listings = selected_listings(rel);
        let ghost ls = listing_specs(listings@);
        let ghost base = download_specs(out@);
        assert(releases@.take(i + 1).drop_last() =~= releases@.take(i as int));
        assert(releases@.take(i + 1).last() == *rel);
        let mut k: usize = 0;
        assert(ls.take(0) =~= Seq::<ListingSpec>::empty());
        assert(base + Seq::<DownloadSpec>::empty() =~= base);
        assert(download_specs(out@).subrange(base.len() as int, download_specs(out@).len() as int) =~= Seq::<DownloadSpec>::empty());
        assert(download_specs(out@).subrange(0, base.len() as int) =~= base);
        while k < listings.len()
            invariant
                k <= listings@.len(),
                ls == listing_specs(listings@),
                ls == release_listings(*rel),
                i < releases@.len(),
                *rel == releases@[i as int],
                releases@.take(i + 1).last() == *rel,
                releases@.take(i + 1).drop_last() == releases@.take(i as int),
                downloads_spec(releases@.take(i as int)) == Ok::<Seq<DownloadSpec>, Error>(base),
                listing_downloads(*rel, ls.take(k as int)) == Ok::<Seq<DownloadSpec>, Error>(download_specs(out@).subrange(base.len() as int, download_specs(out@).len() as int)),
                download_specs(out@).subrange(0, base.len() as int) == base,
                base.len() <= out@.len(),
            decreases listings@.len() - k,
        {
            assert(ls.take(k + 1).drop_last() =~= ls.take(k as int));
            assert(ls.take(k + 1).last() == listings@[k as int].spec());
            let d = match find_file_easy(rel, &listings[k]) {
                Ok(d) => d,
                Err(e) => {
                    proof {
                        lemma_listing_downloads_error(*rel, ls, k + 1, e);
                        lemma_downloads_error(releases@, i + 1, e);
                    }
                    return Err(e);
                },
            };
            let ghost before = download_specs(out@);
            out.push(d);
            proof {
                assert(download_specs(out@) =~= before.push(d.spec()));
                assert(download_specs(out@).subrange(base.len() as int, download_specs(out@).len() as int)
                    =~= before.subrange(base.len() as int, before.len() as int).push(d.spec()));
                assert(download_specs(out@).subrange(0, base.len() as int) =~= before.subrange(0, base.len() as int));
            }
            k = k + 1;
        }
        proof {
            assert(ls.take(listings@.len() as int) =~= ls);
            assert(download_specs(out@) =~= base + download_specs(out@).subrange(base.len() as int, download_specs(out@).len() as int));
        }
        i = i + 1;
    }
    assert(releases@.take(releases@.len() as int) =~= releases@);
    Ok(out)
}

/// The paragraphs of a listing's bytes, as text; `name` names the listing
/// in reports.
pub fn sections_in_reader(input: Vec<u8>, name: String) -> (r: StringSections)
    ensures
        r.inner.data() == input@,
        r.inner.pos() == 0,
        r.inner.label() == name@,
{
    ByteSections::new(input, name).into_string_sections()
}

} // verus!
