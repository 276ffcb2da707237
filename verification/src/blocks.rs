//! Paragraphs as handed out by listings: named blocks of text, and maps of
//! their fields.

use vstd::prelude::*;

use crate::error::Error;
use crate::lists::Listing;
use crate::package::{parse_spec, Package, PackageSpec};
use crate::release::Release;
use crate::rfc822::{fields, fields_map, scan, FieldMap, FieldsSpec};
use crate::text::{chars_of, join, join_chars, string_of, texts};

verus! {

/// A listing that has been downloaded, and the release it came from.
#[derive(Clone, Debug)]
pub struct DownloadedList {
    pub release: Release,
    pub listing: Listing,
}

/// A paragraph of a listing, with the listing's name (for reports).
#[derive(Clone, Debug)]
pub struct NamedBlock {
    pub locality: String,
    pub inner: String,
}

impl NamedBlock {
    /// The paragraph's fields by key.
    pub fn as_map(&self) -> (r: Result<FieldMap, Error>)
        ensures
            match (r, fields(self.inner@)) {
                (Ok(m), Ok(fs)) => m.wf() && m.map() == fields_map(fs),
                (Err(e), Err(se)) => e == se,
                _ => false,
            },
    {
        scan(self.inner.as_str()).collect_to_map()
    }

    /// The paragraph read as a package.
    pub fn as_pkg(&self) -> (r: Result<Package, Error>)
        ensures
            match fields(self.inner@) {
                Err(e) => r == Err::<Package, Error>(e),
                Ok(fs) => match (r, parse_spec(fields_map(fs))) {
                    (Ok(p), Ok(sp)) => p.spec() == sp,
                    (Err(e), Err(se)) => e == se,
                    _ => false,
                },
            },
    {
        let mut m = self.as_map()?;
        Package::parse(&mut m)
    }

    /// The paragraph's text.
    pub fn into_string(self) -> (r: String)
        ensures
            r == self.inner,
    {
        self.inner
    }
}

/// The fields of a paragraph, as text.
#[derive(Clone, Debug, PartialEq, Eq)]
pub struct StringSection {
    pub inner: FieldMap,
}

/// Keys with the lines of their fields joined with newlines.
pub open spec fn joined_map(m: FieldsSpec) -> Map<Seq<char>, Seq<char>> {
    Map::new(|k: Seq<char>| m.contains_key(k), |k: Seq<char>| join(m[k], seq!['\n']))
}

/// The model of a list of distinct keys with texts.
pub open spec fn pairs_map(v: Seq<(String, String)>) -> Map<Seq<char>, Seq<char>> {
    Map::new(
        |k: Seq<char>| exists|i: int| 0 <= i < v.len() && #[trigger] v[i].0@ == k,
        |k: Seq<char>| v[choose|i: int| 0 <= i < v.len() && #[trigger] v[i].0@ == k].1@,
    )
}

/// A field of one line reads the same whole and joined.
pub proof fn law_one_line_fields_agree(m: FieldsSpec, k: Seq<char>)
    requires
        m.contains_key(k),
        m[k].len() == 1,
    ensures
        joined_map(m).contains_key(k),
        joined_map(m)[k] == m[k][0],
{
}

impl StringSection {
    /// Each field with its lines joined with newlines (each key once).
    pub fn joined_lines(&self) -> (r: Vec<(String, String)>)
        requires
            self.inner.wf(),
        ensures
            forall|i: int, j: int| 0 <= i < j < r@.len() ==> #[trigger] r@[i].0@ != #[trigger] r@[j].0@,
            pairs_map(r@) == joined_map(self.inner.map()),
    {
        let fs = self.inner.field_list();
        let ghost m = self.inner.map();
        let nl: Vec<char> = vec!['\n'];
        assert(nl@ =~= seq!['\n']);
        let mut out: Vec<(String, String)> = Vec::new();
        let mut k: usize = 0;
        while k < fs.len()
            invariant
                k <= fs@.len(),
                m == self.inner.map(),
                nl@ == seq!['\n'],
                out@.len() == k,
                forall|i: int| 0 <= i < k ==> (#[trigger] out@[i]).0@ == fs@[i].key@ && out@[i].1@ == join(fs@[i].spec().1, seq!['\n']),
                forall|i: int|
                    0 <= i < fs@.len() ==> m.contains_key(#[trigger] fs@[i].key@)
                        && m[fs@[i].key@] == fs@[i].spec().1,
            decreases fs@.len() - k,
        {
            let f = &fs[k];
            let key = string_of(f.key.as_slice());
            let j = join_chars(f.values.as_slice(), nl.as_slice());
            out.push((key, string_of(j.as_slice())));
            k = k + 1;
        }
        proof {
            assert forall|i: int, j: int| 0 <= i < j < out@.len() implies #[trigger] out@[i].0@ != #[trigger] out@[j].0@ by {
                assert(fs@[i].key@ != fs@[j].key@);
            }
            let pm = pairs_map(out@);
            let jm = joined_map(m);
            assert forall|key: Seq<char>| pm.contains_key(key) == jm.contains_key(key) by {
                if jm.contains_key(key) {
                    let i = choose|i: int| 0 <= i < fs@.len() && #[trigger] fs@[i].key@ == key;
                    assert(out@[i].0@ == key);
                }
                if pm.contains_key(key) {
                    let i = choose|i: int| 0 <= i < out@.len() && #[trigger] out@[i].0@ == key;
                    assert(fs@[i].key@ == key);
                }
            }
            assert forall|key: Seq<char>| #[trigger] pm.contains_key(key) implies pm[key] == jm[key] by {
                let i = choose|i: int| 0 <= i < out@.len() && #[trigger] out@[i].0@ == key;
                assert(fs@[i].key@ == key);
            }
            assert(pm =~= jm);
        }
        out
    }

    /// The field `key`, if it is a single line.
    pub fn get_if_one_line(&self, key: &str) -> (r: Option<String>)
        requires
            self.inner.wf(),
        ensures
            match self.inner.map().get(key@) {
                Some(ls) => if ls.len() == 1 {
                    r matches Some(l) && l@ == ls[0]
                } else {
                    r is None
                },
                None => r is None,
            },
    {
        match self.inner.get(key) {
            Some(list) => {
                if list.len() == 1 {
                    Some(string_of(list[0].as_slice()))
                } else {
                    None
                }
            },
            None => None,
        }
    }
}

} // verus!
