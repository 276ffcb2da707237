//! Entries of a classic sources list (e.g. `/etc/apt/sources.list`).
//!
//! A line, up to any `#` and trimmed, is blank, or holds whitespace-separated
//! words: a type (`deb`, `deb-src` or `debs` for both), optionally an option
//! word `[arch=...]`, a url, a suite and the components.

use vstd::prelude::*;

use crate::error::Error;
use crate::rfc822::to_strings;
use crate::text::{
    chars_eq_str, chars_of, ends_with_char, find_char_from, find_from, lemma_find_bounds, lines,
    slice_chars, split_lines, split_ws, string_of, texts, trim, trim_chars, words,
};

verus! {

/// A sources list entry.
#[derive(Debug, PartialEq, Eq, Clone)]
pub struct Entry {
    pub src: bool,
    pub url: String,
    pub suite_codename: String,
    pub components: Vec<String>,
    pub arch: Option<String>,
    pub untrusted: bool,
}

/// The model of an entry.
#[verifier::ext_equal]
pub struct EntrySpec {
    pub src: bool,
    pub url: Seq<char>,
    pub suite_codename: Seq<char>,
    pub components: Seq<Seq<char>>,
    pub arch: Option<Seq<char>>,
    pub untrusted: bool,
}

impl Entry {
    pub open spec fn spec(&self) -> EntrySpec {
        EntrySpec {
            src: self.src,
            url: self.url@,
            suite_codename: self.suite_codename@,
            components: Seq::new(self.components@.len(), |i: int| self.components@[i]@),
            arch: match self.arch {
                Some(a) => Some(a@),
                None => None,
            },
            untrusted: self.untrusted,
        }
    }
}

pub open spec fn entry_specs(v: Seq<Entry>) -> Seq<EntrySpec> {
    Seq::new(v.len(), |i: int| v[i].spec())
}

/// The meaningful part of a line: before any `#`, trimmed.
pub open spec fn content(line: Seq<char>) -> Seq<char> {
    trim(line.subrange(0, find_from(line, '#', 0)))
}

/// The text between the brackets of an option word.
pub open spec fn opt_inner(w: Seq<char>) -> Seq<char> {
    w.subrange(1, w.len() - 1)
}

/// An option word that is understood: `[arch=X]` with no further `=`.
pub open spec fn opts_ok(w: Seq<char>) -> bool {
    let inner = opt_inner(w);
    let e = find_from(inner, '=', 0);
    &&& w.len() >= 2
    &&& w[0] == '['
    &&& w.last() == ']'
    &&& e < inner.len()
    &&& find_from(inner, '=', e + 1) == inner.len()
    &&& inner.subrange(0, e) == "arch"@
}

/// The architecture an option word names.
pub open spec fn opts_arch(w: Seq<char>) -> Seq<char> {
    let inner = opt_inner(w);
    inner.subrange(find_from(inner, '=', 0) + 1, inner.len() as int)
}

/// Whether the line's second word is an option word.
pub open spec fn has_opts(ws: Seq<Seq<char>>) -> bool {
    ws.len() >= 2 && ws[1].len() > 0 && ws[1][0] == '['
}

/// Whether the line's option word, if any, is understood: a single
/// `[arch=...]`. A line with another option word is not read.
pub open spec fn line_ok(line: Seq<char>) -> bool {
    let ws = words(content(line));
    has_opts(ws) ==> opts_ok(ws[1])
}

/// A url with a `/` at its end.
pub open spec fn slashed(url: Seq<char>) -> Seq<char> {
    if url.len() > 0 && url.last() == '/' {
        url
    } else {
        url.push('/')
    }
}

/// The entries one line stands for.
pub open spec fn line_entries(line: Seq<char>) -> Result<Seq<EntrySpec>, Error> {
    let ws = words(content(line));
    let base: int = if has_opts(ws) {
        2
    } else {
        1
    };
    if ws.len() == 0 {
        Ok(Seq::empty())
    } else if ws.len() < base + 2 {
        Err(Error::IncompleteSourcesLine)
    } else {
        let arch = if has_opts(ws) {
            Some(opts_arch(ws[1]))
        } else {
            None
        };
        let mk = |src: bool|
            EntrySpec {
                src,
                url: slashed(ws[base]),
                suite_codename: ws[base + 1],
                components: ws.subrange(base + 2, ws.len() as int),
                arch,
                untrusted: false,
            };
        if ws[0] == "deb"@ {
            Ok(seq![mk(false)])
        } else if ws[0] == "deb-src"@ {
            Ok(seq![mk(true)])
        } else if ws[0] == "debs"@ {
            Ok(seq![mk(false), mk(true)])
        } else {
            Err(Error::UnsupportedSourceType)
        }
    }
}

/// The entries of lines `i..`, or the first error.
pub open spec fn entries_from(ls: Seq<Seq<char>>, i: int) -> Result<Seq<EntrySpec>, Error>
    decreases ls.len() - i,
{
    if 0 <= i < ls.len() {
        match line_entries(ls[i]) {
            Ok(es) => match entries_from(ls, i + 1) {
                Ok(rest) => Ok(es + rest),
                Err(e) => Err(e),
            },
            Err(e) => Err(e),
        }
    } else {
        Ok(Seq::empty())
    }
}

/// Every entry read from a sources list has a url ending with `/`.
pub proof fn law_read_urls_end_with_slash(ls: Seq<Seq<char>>, i: int)
    requires
        entries_from(ls, i) is Ok,
    ensures
        forall|k: int|
            0 <= k < entries_from(ls, i)->Ok_0.len() ==> (#[trigger] entries_from(ls, i)->Ok_0[k]).url.len() > 0
                && entries_from(ls, i)->Ok_0[k].url.last() == '/',
    decreases ls.len() - i,
{
    if 0 <= i < ls.len() {
        law_read_urls_end_with_slash(ls, i + 1);
        let es1 = line_entries(ls[i])->Ok_0;
        let rest = entries_from(ls, i + 1)->Ok_0;
        let all = entries_from(ls, i)->Ok_0;
        assert(all == es1 + rest);
        assert forall|k: int| 0 <= k < all.len() implies (#[trigger] all[k]).url.len() > 0 && all[k].url.last() == '/' by {
            if k < es1.len() {
                let u = es1[k].url;
                assert(u.len() > 0 && u.last() == '/');
            } else {
                assert(all[k] == rest[k - es1.len()]);
            }
        }
    }
}

/// Whether each line's option word, if any, is understood.
pub open spec fn text_ok(from: Seq<char>) -> bool {
    forall|i: int| 0 <= i < lines(from).len() ==> #[trigger] line_ok(lines(from)[i])
}

fn parse_opts(w: &[char]) -> (r: Vec<char>)
    requires
        opts_ok(w@),
    ensures
        r@ == opts_arch(w@),
{
    let inner = slice_chars(w, 1, w.len() - 1);
    let e = find_char_from(inner.as_slice(), '=', 0);
    proof {
        lemma_find_bounds(inner@, '=', 0);
    }
    slice_chars(inner.as_slice(), e + 1, inner.len())
}

fn opts_understood(w: &[char]) -> (r: bool)
    ensures
        r == opts_ok(w@),
{
    if w.len() < 2 || w[0] != '[' || w[w.len() - 1] != ']' {
        return false;
    }
    let inner = slice_chars(w, 1, w.len() - 1);
    assert(inner@ == opt_inner(w@));
    let e = find_char_from(inner.as_slice(), '=', 0);
    proof {
        lemma_find_bounds(inner@, '=', 0);
    }
    if e >= inner.len() {
        return false;
    }
    let e2 = find_char_from(inner.as_slice(), '=', e + 1);
    let key = slice_chars(inner.as_slice(), 0, e);
    e2 == inner.len() && chars_eq_str(key.as_slice(), "arch")
}

fn line_understood(line: &[char]) -> (r: bool)
    ensures
        r == line_ok(line@),
{
    let h = find_char_from(line, '#', 0);
    proof {
        lemma_find_bounds(line@, '#', 0);
    }
    let before = slice_chars(line, 0, h);
    let c = trim_chars(before.as_slice());
    let ws = split_ws(c.as_slice());
    let ghost sw = texts(ws@);
    assert(sw == words(content(line@)));
    let opts = ws.len() >= 2 && ws[1].len() > 0 && ws[1][0] == '[';
    assert(opts == has_opts(sw));
    if opts {
        assert(sw[1] == ws@[1]@);
        opts_understood(ws[1].as_slice())
    } else {
        true
    }
}

/// Whether every line's option word, if any, is understood (`read` may only
/// be given such text).
pub fn lines_understood(from: &str) -> (r: bool)
    ensures
        r == text_ok(from@),
{
    let cs = chars_of(from);
    let ls = split_lines(cs.as_slice());
    let mut i: usize = 0;
    while i < ls.len()
        invariant
            i <= ls@.len(),
            texts(ls@) == lines(from@),
            forall|k: int| 0 <= k < i ==> #[trigger] line_ok(lines(from@)[k]),
        decreases ls@.len() - i,
    {
        assert(lines(from@)[i as int] == ls@[i as int]@);
        if !line_understood(ls[i].as_slice()) {
            return false;
        }
        i = i + 1;
    }
    true
}

fn read_single_line(line: &[char]) -> (r: Result<Vec<Entry>, Error>)
    requires
        line_ok(line@),
    ensures
        match r {
            Ok(v) => line_entries(line@) == Ok::<Seq<EntrySpec>, Error>(entry_specs(v@)),
            Err(e) => line_entries(line@) == Err::<Seq<EntrySpec>, Error>(e),
        },
{
    let h = find_char_from(line, '#', 0);
    proof {
        lemma_find_bounds(line@, '#', 0);
    }
    let before = slice_chars(line, 0, h);
    let c = trim_chars(before.as_slice());
    let ws = split_ws(c.as_slice());
    let ghost sw = texts(ws@);
    assert(sw == words(content(line@)));
    if ws.len() == 0 {
        let v: Vec<Entry> = Vec::new();
        assert(entry_specs(v@) =~= Seq::<EntrySpec>::empty());
        return Ok(v);
    }
    let opts = ws.len() >= 2 && ws[1].len() > 0 && ws[1][0] == '[';
    assert(opts == has_opts(sw));
    let base: usize = if opts {
        2
    } else {
        1
    };
    if ws.len() < base + 2 {
        return Err(Error::IncompleteSourcesLine);
    }
    let kind = &ws[0];
    let srcs: Vec<bool> = if chars_eq_str(kind.as_slice(), "deb") {
        vec![false]
    } else if chars_eq_str(kind.as_slice(), "deb-src") {
        vec![true]
    } else if chars_eq_str(kind.as_slice(), "debs") {
        vec![false, true]
    } else {
        return Err(Error::UnsupportedSourceType);
    };
    let arch: Option<Vec<char>> = if opts {
        Some(parse_opts(ws[1].as_slice()))
    } else {
        None
    };
    let u = &ws[base];
    let url = if ends_with_char(u.as_slice(), '/') {
        string_of(u.as_slice())
    } else {
        let mut uc = slice_chars(u.as_slice(), 0, u.len());
        uc.push('/');
        proof {
            assert(uc@ =~= u@.push('/'));
        }
        string_of(uc.as_slice())
    };
    assert(url@ == slashed(sw[base as int]));
    let mut ret: Vec<Entry> = Vec::new();
    let mut k: usize = 0;
    while k < srcs.len()
        invariant
            k <= srcs@.len(),
            ret@.len() == k,
            base <= 2,
            base + 2 <= ws@.len(),
            sw == texts(ws@),
            url@ == slashed(sw[base as int]),
            forall|m: int|
                0 <= m < k ==> #[trigger] ret@[m].spec() == (EntrySpec {
                    src: srcs@[m],
                    url: slashed(sw[base as int]),
                    suite_codename: sw[base + 1],
                    components: sw.subrange(base + 2, sw.len() as int),
                    arch: match arch {
                        Some(a) => Some(a@),
                        None => None,
                    },
                    untrusted: false,
                }),
        decreases srcs@.len() - k,
    {
        let suite = string_of(ws[base + 1].as_slice());
        let mut comps: Vec<String> = Vec::new();
        let mut m: usize = base + 2;
        while m < ws.len()
            invariant
                base + 2 <= m <= ws@.len(),
                comps@.len() == m - base - 2,
                forall|q: int| 0 <= q < comps@.len() ==> #[trigger] comps@[q]@ == ws@[base + 2 + q]@,
            decreases ws@.len() - m,
        {
            comps.push(string_of(ws[m].as_slice()));
            m = m + 1;
        }
        let a = match &arch {
            Some(x) => Some(string_of(x.as_slice())),
            None => None,
        };
        let e = Entry {
            src: srcs[k],
            url: url.clone(),
            suite_codename: suite,
            components: comps,
            arch: a,
            untrusted: false,
        };
        assert(e.spec().components =~= sw.subrange(base + 2, sw.len() as int));
        assert(e.spec() =~= (EntrySpec {
            src: srcs@[k as int],
            url: slashed(sw[base as int]),
            suite_codename: sw[base + 1],
            components: sw.subrange(base + 2, sw.len() as int),
            arch: match arch {
                Some(a) => Some(a@),
                None => None,
            },
            untrusted: false,
        }));
        ret.push(e);
        k = k + 1;
    }
    assert(entry_specs(ret@) =~= line_entries(line@)->Ok_0);
    Ok(ret)
}

/// Read the entries of some sources list lines.
pub fn read(from: &str) -> (r: Result<Vec<Entry>, Error>)
    requires
        text_ok(from@),
    ensures
        match r {
            Ok(v) => entries_from(lines(from@), 0) == Ok::<Seq<EntrySpec>, Error>(entry_specs(v@)),
            Err(e) => entries_from(lines(from@), 0) == Err::<Seq<EntrySpec>, Error>(e),
        },
{
    let cs = chars_of(from);
    let ls = split_lines(cs.as_slice());
    let ghost tl = texts(ls@);
    let mut out: Vec<Entry> = Vec::new();
    let mut i: usize = 0;
    while i < ls.len()
        invariant
            i <= ls@.len(),
            tl == texts(ls@),
            tl == lines(from@),
            text_ok(from@),
            entries_from(tl, 0) == match entries_from(tl, i as int) {
                Ok(rest) => Ok(entry_specs(out@) + rest),
                Err(e) => Err(e),
            },
        decreases ls@.len() - i,
    {
        assert(line_ok(tl[i as int]));
        let es = read_single_line(ls[i].as_slice())?;
        let ghost before = entry_specs(out@);
        let ghost added = entry_specs(es@);
        let mut k: usize = 0;
        let mut es = es;
        while es.len() > 0
            invariant
                entry_specs(out@) + entry_specs(es@) == before + added,
            decreases es@.len(),
        {
            let ghost pre = entry_specs(es@);
            let e = es.remove(0);
            let ghost o = entry_specs(out@);
            out.push(e);
            assert(entry_specs(out@) =~= o.push(e.spec()));
            assert(pre =~= seq![e.spec()] + entry_specs(es@));
            assert(entry_specs(out@) + entry_specs(es@) =~= o + pre);
        }
        assert(entry_specs(out@) =~= before + added);
        proof {
            match entries_from(tl, i + 1) {
                Ok(rest) => {
                    assert(before + (added + rest) =~= (before + added) + rest);
                },
                Err(_) => {},
            }
        }
        i = i + 1;
    }
    assert(entry_specs(out@) + Seq::<EntrySpec>::empty() =~= entry_specs(out@));
    Ok(out)
}

/// The pieces of `s` from `i` on, split at each `c` (as `str::split` gives
/// them: one more piece than there are separators).
pub open spec fn split_on_from(s: Seq<char>, c: char, i: int) -> Seq<Seq<char>>
    decreases s.len() - i,
{
    let j = find_from(s, c, i);
    if 0 <= i <= j < s.len() {
        seq![s.subrange(i, j)] + split_on_from(s, c, j + 1)
    } else {
        seq![s.subrange(i, s.len() as int)]
    }
}

fn split_on(s: &[char], c: char) -> (r: Vec<Vec<char>>)
    ensures
        texts(r@) == split_on_from(s@, c, 0),
{
    let mut out: Vec<Vec<char>> = Vec::new();
    let mut i: usize = 0;
    loop
        invariant
            i <= s@.len(),
            split_on_from(s@, c, 0) == texts(out@) + split_on_from(s@, c, i as int),
        decreases s@.len() - i,
    {
        let j = find_char_from(s, c, i);
        proof {
            lemma_find_bounds(s@, c, i as int);
        }
        let ghost before = texts(out@);
        let piece = slice_chars(s, i, j);
        out.push(piece);
        assert(texts(out@) =~= before.push(s@.subrange(i as int, j as int)));
        if j < s.len() {
            assert(split_on_from(s@, c, i as int) =~= seq![s@.subrange(i as int, j as int)] + split_on_from(s@, c, j + 1));
            assert(before + split_on_from(s@, c, i as int) =~= texts(out@) + split_on_from(s@, c, j + 1));
            i = j + 1;
        } else {
            assert(split_on_from(s@, c, 0) =~= texts(out@));
            return out;
        }
    }
}

/// The entries a url-form release names, such as
/// `http://deb.debian.org/debian#sid,main,contrib`: the url up to the `#`,
/// then the suite and at least one component, comma-separated; a binary and
/// a source entry, for `amd64`. `MissingSuite` without a `#`,
/// `NoComponents` without a component.
pub open spec fn release_url_spec(s: Seq<char>) -> Result<Seq<EntrySpec>, Error> {
    let h = find_from(s, '#', 0);
    if h >= s.len() {
        Err(Error::MissingSuite)
    } else {
        let parts = split_on_from(s.subrange(h + 1, s.len() as int), ',', 0);
        if parts.len() <= 1 {
            Err(Error::NoComponents)
        } else {
            let mk = |src: bool|
                EntrySpec {
                    src,
                    url: s.subrange(0, h),
                    suite_codename: parts[0],
                    components: parts.subrange(1, parts.len() as int),
                    arch: Some("amd64"@),
                    untrusted: false,
                };
            Ok(seq![mk(false), mk(true)])
        }
    }
}

/// The binary and source entries of a url-form release
/// (`url#suite,component,...`).
pub fn release_url_entries(url: &str) -> (r: Result<Vec<Entry>, Error>)
    ensures
        match r {
            Ok(v) => release_url_spec(url@) == Ok::<Seq<EntrySpec>, Error>(entry_specs(v@)),
            Err(e) => release_url_spec(url@) == Err::<Seq<EntrySpec>, Error>(e),
        },
{
    let cs = chars_of(url);
    let h = find_char_from(cs.as_slice(), '#', 0);
    proof {
        lemma_find_bounds(cs@, '#', 0);
    }
    if h >= cs.len() {
        return Err(Error::MissingSuite);
    }
    let extras = slice_chars(cs.as_slice(), h + 1, cs.len());
    let parts = split_on(extras.as_slice(), ',');
    let ghost ps = texts(parts@);
    if parts.len() <= 1 {
        return Err(Error::NoComponents);
    }
    let amd64 = chars_of("amd64");
    let mut out: Vec<Entry> = Vec::new();
    let mut k: usize = 0;
    while k < 2
        invariant
            k <= 2,
            out@.len() == k,
            cs@ == url@,
            h < cs@.len(),
            ps == texts(parts@),
            ps.len() > 1,
            amd64@ == "amd64"@,
            forall|m: int| 0 <= m < k ==> #[trigger] out@[m].spec() == (EntrySpec {
                src: m == 1,
                url: url@.subrange(0, h as int),
                suite_codename: ps[0],
                components: ps.subrange(1, ps.len() as int),
                arch: Some("amd64"@),
                untrusted: false,
            }),
        decreases 2 - k,
    {
        let mut comps: Vec<String> = Vec::new();
        let mut m: usize = 1;
        while m < parts.len()
            invariant
                1 <= m <= parts@.len(),
                comps@.len() == m - 1,
                forall|q: int| 0 <= q < comps@.len() ==> #[trigger] comps@[q]@ == parts@[q + 1]@,
            decreases parts@.len() - m,
        {
            comps.push(string_of(parts[m].as_slice()));
            m = m + 1;
        }
        let e = Entry {
            src: k == 1,
            url: string_of(slice_chars(cs.as_slice(), 0, h).as_slice()),
            suite_codename: string_of(parts[0].as_slice()),
            components: comps,
            arch: Some(string_of(amd64.as_slice())),
            untrusted: false,
        };
        assert(e.spec().components =~= ps.subrange(1, ps.len() as int));
        out.push(e);
        k = k + 1;
    }
    assert(entry_specs(out@) =~= release_url_spec(url@)->Ok_0);
    Ok(out)
}

} // verus!
