//! Entries of a sources list in its older, stricter form: a line, up to any
//! `#` and trimmed, is blank or reads `deb` or `deb-src`, blanks (spaces or
//! tabs), a url, blanks, a suite, then one or more components, each after
//! blanks. The suite and the components are made of alphanumeric characters
//! and `-`.

use vstd::prelude::*;

use crate::error::Error;
use crate::sources_list::{content, slashed};
use crate::text::{
    chars_of, ends_with_char, find_char_from, is_alphanumeric, lemma_find_bounds, lines,
    slice_chars, split_lines, starts_with, string_of, texts, trim_chars, unicode_alphanumeric,
    is_ascii_alnum, is_ws, find_from, skip_ws_from, trim_end_from, trim,
};

verus! {

/// A sources list entry of the older form.
#[derive(Debug, PartialEq, Eq, Clone)]
pub struct Entry {
    pub src: bool,
    pub url: String,
    pub suite_codename: String,
    pub components: Vec<String>,
}

/// The model of an entry: whether it is for sources, url, suite, components.
pub type EntrySpec = (bool, Seq<char>, Seq<char>, Seq<Seq<char>>);

impl Entry {
    pub open spec fn spec(&self) -> EntrySpec {
        (
            self.src,
            self.url@,
            self.suite_codename@,
            Seq::new(self.components@.len(), |i: int| self.components@[i]@),
        )
    }
}

pub open spec fn entry_specs(v: Seq<Entry>) -> Seq<EntrySpec> {
    Seq::new(v.len(), |i: int| v[i].spec())
}

/// A space or a tab.
pub open spec fn is_blank(c: char) -> bool {
    c == ' ' || c == '\t'
}

/// A character of a suite or component name: alphanumeric (for ASCII, a
/// letter or a digit) or `-`.
pub open spec fn is_name_char(c: char) -> bool {
    if (c as u32) < 0x80 {
        is_ascii_alnum(c) || c == '-'
    } else {
        unicode_alphanumeric(c)
    }
}

/// The end of the blanks from `i`.
pub open spec fn blanks_end(s: Seq<char>, i: int) -> int
    decreases s.len() - i,
{
    if 0 <= i < s.len() && is_blank(s[i]) {
        blanks_end(s, i + 1)
    } else {
        i
    }
}

/// The end of the url from `i`: up to the next blank.
pub open spec fn url_end(s: Seq<char>, i: int) -> int
    decreases s.len() - i,
{
    if 0 <= i < s.len() && !is_blank(s[i]) {
        url_end(s, i + 1)
    } else {
        i
    }
}

/// The end of the name from `i`.
pub open spec fn name_end(s: Seq<char>, i: int) -> int
    decreases s.len() - i,
{
    if 0 <= i < s.len() && is_name_char(s[i]) {
        name_end(s, i + 1)
    } else {
        i
    }
}

/// The components from `i`, each after blanks, and where they stop.
pub open spec fn components_from(s: Seq<char>, i: int) -> (Seq<Seq<char>>, int)
    decreases s.len() - i,
{
    let a = blanks_end(s, i);
    let w = name_end(s, a);
    if 0 <= i < a < w <= s.len() {
        let (rest, e) = components_from(s, w);
        (seq![s.subrange(a, w)] + rest, e)
    } else {
        (Seq::empty(), i)
    }
}

/// The entry of one line: none for a blank line; `MalformedSourcesLine` for
/// a line that does not have the form, `TrailingData` for one that has it
/// and then more.
pub open spec fn line_entry(line: Seq<char>) -> Result<Option<EntrySpec>, Error> {
    let t = content(line);
    if t.len() == 0 {
        Ok(None)
    } else if !(t.len() >= 3 && t.subrange(0, 3) == "deb"@) {
        Err(Error::MalformedSourcesLine)
    } else {
        let src = t.len() >= 7 && t.subrange(0, 7) == "deb-src"@;
        let p0: int = if src {
            7
        } else {
            3
        };
        let p1 = blanks_end(t, p0);
        let u = url_end(t, p1);
        let p2 = blanks_end(t, u);
        let w = name_end(t, p2);
        let (cs, e) = components_from(t, w);
        if !(p0 < p1 < u < p2 < w) || cs.len() == 0 {
            Err(Error::MalformedSourcesLine)
        } else if e < t.len() {
            Err(Error::TrailingData)
        } else {
            Ok(Some((src, slashed(t.subrange(p1, u)), t.subrange(p2, w), cs)))
        }
    }
}

/// The entries of the lines from `i` on, or the first line's error.
pub open spec fn entries_from(ls: Seq<Seq<char>>, i: int) -> Result<Seq<EntrySpec>, Error>
    decreases ls.len() - i,
{
    if 0 <= i < ls.len() {
        match line_entry(ls[i]) {
            Err(e) => Err(e),
            Ok(o) => match entries_from(ls, i + 1) {
                Err(e) => Err(e),
                Ok(rest) => Ok(
                    match o {
                        Some(x) => seq![x] + rest,
                        None => rest,
                    },
                ),
            },
        }
    } else {
        Ok(Seq::empty())
    }
}

/// Every entry read has a url ending with `/`, a suite, and at least one
/// component.
pub proof fn law_entries_complete(ls: Seq<Seq<char>>, i: int)
    requires
        entries_from(ls, i) is Ok,
    ensures
        forall|k: int| 0 <= k < entries_from(ls, i)->Ok_0.len() ==> {
            let en = #[trigger] entries_from(ls, i)->Ok_0[k];
            &&& en.1.len() > 0 && en.1.last() == '/'
            &&& en.2.len() > 0
            &&& en.3.len() > 0
        },
    decreases ls.len() - i,
{
    if 0 <= i < ls.len() {
        law_entries_complete(ls, i + 1);
        let rest = entries_from(ls, i + 1)->Ok_0;
        let all = entries_from(ls, i)->Ok_0;
        match line_entry(ls[i]) {
            Ok(Some(x)) => {
                assert(all == seq![x] + rest);
                assert forall|k: int| 0 <= k < all.len() implies {
                    let en = #[trigger] all[k];
                    &&& en.1.len() > 0 && en.1.last() == '/'
                    &&& en.2.len() > 0
                    &&& en.3.len() > 0
                } by {
                    if k > 0 {
                        assert(all[k] == rest[k - 1]);
                    }
                }
            },
            _ => {},
        }
    }
}

/// A suite or component name that reads back whole: ASCII letters, digits
/// and `-`, at least one.
pub open spec fn plain_name(w: Seq<char>) -> bool {
    w.len() > 0 && forall|k: int| 0 <= k < w.len() ==> (#[trigger] is_ascii_alnum(w[k]) || w[k] == '-')
}

/// A url that reads back whole: no blank and no `#`, at least one character.
pub open spec fn plain_url(u: Seq<char>) -> bool {
    u.len() > 0 && forall|k: int| 0 <= k < u.len() ==> !is_blank(#[trigger] u[k]) && u[k] != '#'
}

/// The components, each after a space.
pub open spec fn spaced(cs: Seq<Seq<char>>) -> Seq<char>
    decreases cs.len(),
{
    if cs.len() == 0 {
        Seq::empty()
    } else {
        " "@ + cs[0] + spaced(cs.drop_first())
    }
}

/// The line that writes out an entry: `deb` (or `deb-src`), the url, the
/// suite and the components, separated by single spaces.
pub open spec fn entry_line(src: bool, url: Seq<char>, suite: Seq<char>, cs: Seq<Seq<char>>) -> Seq<char> {
    (if src { "deb-src"@ } else { "deb"@ }) + " "@ + url + " "@ + suite + spaced(cs)
}

proof fn lemma_blanks_end(s: Seq<char>, i: int, j: int)
    requires
        0 <= i <= j <= s.len(),
        forall|k: int| i <= k < j ==> is_blank(#[trigger] s[k]),
        j < s.len() ==> !is_blank(s[j]),
    ensures
        blanks_end(s, i) == j,
    decreases j - i,
{
    if i < j {
        lemma_blanks_end(s, i + 1, j);
    }
}

proof fn lemma_url_end(s: Seq<char>, i: int, j: int)
    requires
        0 <= i <= j <= s.len(),
        forall|k: int| i <= k < j ==> !is_blank(#[trigger] s[k]),
        j < s.len() ==> is_blank(s[j]),
    ensures
        url_end(s, i) == j,
    decreases j - i,
{
    if i < j {
        lemma_url_end(s, i + 1, j);
    }
}

proof fn lemma_name_end(s: Seq<char>, i: int, j: int)
    requires
        0 <= i <= j <= s.len(),
        forall|k: int| i <= k < j ==> is_name_char(#[trigger] s[k]),
        j < s.len() ==> !is_name_char(s[j]),
    ensures
        name_end(s, i) == j,
    decreases j - i,
{
    if i < j {
        lemma_name_end(s, i + 1, j);
    }
}

proof fn lemma_find_absent(s: Seq<char>, c: char, i: int)
    requires
        0 <= i <= s.len(),
        forall|k: int| i <= k < s.len() ==> #[trigger] s[k] != c,
    ensures
        find_from(s, c, i) == s.len(),
    decreases s.len() - i,
{
    if i < s.len() {
        lemma_find_absent(s, c, i + 1);
    }
}

proof fn lemma_spaced_chars(cs: Seq<Seq<char>>)
    requires
        forall|q: int| 0 <= q < cs.len() ==> plain_name(#[trigger] cs[q]),
    ensures
        forall|k: int| 0 <= k < spaced(cs).len() ==> (#[trigger] spaced(cs)[k] == ' ' || is_ascii_alnum(spaced(cs)[k]) || spaced(cs)[k] == '-'),
        cs.len() > 0 ==> spaced(cs).len() > 0 && spaced(cs).last() != ' ',
    decreases cs.len(),
{
    if cs.len() > 0 {
        let rest = cs.drop_first();
        assert forall|q: int| 0 <= q < rest.len() implies plain_name(#[trigger] rest[q]) by {
            assert(rest[q] == cs[q + 1]);
        }
        lemma_spaced_chars(rest);
        reveal_strlit(" ");
        let t = " "@ + cs[0];
        assert(plain_name(cs[0]));
        assert forall|k: int| 0 <= k < spaced(cs).len() implies (#[trigger] spaced(cs)[k] == ' ' || is_ascii_alnum(spaced(cs)[k]) || spaced(cs)[k] == '-') by {
            assert(spaced(cs) == t + spaced(rest));
            if k == 0 {
            } else if k < t.len() {
                assert(spaced(cs)[k] == cs[0][k - 1]);
            } else {
                assert(spaced(cs)[k] == spaced(rest)[k - t.len()]);
            }
        }
        if rest.len() > 0 {
            assert(spaced(cs).last() == spaced(rest).last());
        } else {
            assert(spaced(rest).len() == 0);
            assert(spaced(cs).last() == cs[0].last());
            assert(is_ascii_alnum(cs[0][cs[0].len() - 1]) || cs[0][cs[0].len() - 1] == '-');
        }
    }
}

proof fn lemma_components_spaced(s: Seq<char>, i: int, cs: Seq<Seq<char>>)
    requires
        0 <= i <= s.len(),
        s.subrange(i, s.len() as int) == spaced(cs),
        forall|q: int| 0 <= q < cs.len() ==> plain_name(#[trigger] cs[q]),
    ensures
        components_from(s, i) == (cs, s.len() as int),
    decreases cs.len(),
{
    reveal_strlit(" ");
    if cs.len() == 0 {
        assert(s.subrange(i, s.len() as int).len() == 0);
        lemma_blanks_end(s, i, i);
    } else {
        let rest = cs.drop_first();
        let c0 = cs[0];
        assert(spaced(cs) == " "@ + c0 + spaced(rest));
        let a = i + 1;
        let w = i + 1 + c0.len();
        assert(s[i] == spaced(cs)[0]);
        assert(plain_name(c0));
        assert forall|k: int| a <= k < w implies #[trigger] s[k] == c0[k - a] by {
            assert(s[k] == s.subrange(i, s.len() as int)[k - i]);
            assert(spaced(cs)[k - i] == c0[k - a]);
        }
        assert(!is_blank(s[a])) by {
            assert(s[a] == c0[a - a]);
            assert(is_ascii_alnum(c0[0]) || c0[0] == '-');
        }
        lemma_blanks_end(s, i, a);
        assert forall|k: int| a <= k < w implies is_name_char(#[trigger] s[k]) by {
            assert(s[k] == c0[k - a]);
            assert(is_ascii_alnum(c0[k - a]) || c0[k - a] == '-');
        }
        assert forall|q: int| 0 <= q < rest.len() implies plain_name(#[trigger] rest[q]) by {
            assert(rest[q] == cs[q + 1]);
        }
        assert(s.subrange(w, s.len() as int) =~= spaced(rest)) by {
            assert forall|k: int| 0 <= k < s.len() - w implies s.subrange(w, s.len() as int)[k] == spaced(rest)[k] by {
                assert(s[w + k] == s.subrange(i, s.len() as int)[w + k - i]);
                assert(spaced(cs)[w + k - i] == spaced(rest)[k]);
            }
        }
        if w < s.len() {
            assert(s[w] == spaced(rest)[0]);
            assert(rest.len() > 0);
            assert(spaced(rest) == " "@ + rest[0] + spaced(rest.drop_first()));
            assert(s[w] == ' ');
        }
        lemma_name_end(s, a, w);
        lemma_components_spaced(s, w, rest);
        assert(s.subrange(a, w) =~= c0);
        assert(seq![c0] + rest =~= cs);
    }
}

/// A line that writes out an entry, with a url of no blanks and no `#` and
/// a suite and components of ASCII letters, digits and `-`, reads back as
/// exactly that entry (its url ending in `/`).
pub proof fn law_entry_line_round_trip(src: bool, url: Seq<char>, suite: Seq<char>, cs: Seq<Seq<char>>)
    requires
        plain_url(url),
        plain_name(suite),
        cs.len() > 0,
        forall|q: int| 0 <= q < cs.len() ==> plain_name(#[trigger] cs[q]),
    ensures
        line_entry(entry_line(src, url, suite, cs)) == Ok::<Option<EntrySpec>, Error>(
            Some((src, slashed(url), suite, cs)),
        ),
{
    reveal_strlit("deb");
    reveal_strlit("deb-src");
    reveal_strlit(" ");
    let pre: Seq<char> = if src { "deb-src"@ } else { "deb"@ };
    let l = entry_line(src, url, suite, cs);
    let p0 = pre.len() as int;
    let p1 = p0 + 1;
    let u = p1 + url.len();
    let p2 = u + 1;
    let w = p2 + suite.len();
    lemma_spaced_chars(cs);
    let sp = spaced(cs);
    assert(l == pre + " "@ + url + " "@ + suite + sp);
    assert(l.len() == w + sp.len());
    assert forall|k: int| p1 <= k < u implies #[trigger] l[k] == url[k - p1] by {}
    assert forall|k: int| p2 <= k < w implies #[trigger] l[k] == suite[k - p2] by {}
    assert forall|k: int| w <= k < l.len() implies #[trigger] l[k] == sp[k - w] by {}
    assert forall|k: int| 0 <= k < p0 implies #[trigger] l[k] == pre[k] by {}
    assert(l[p0] == ' ' && l[u] == ' ');
    // no comment in the line, and nothing to trim
    assert forall|k: int| 0 <= k < l.len() implies #[trigger] l[k] != '#' by {
        if k < p0 {
        } else if p1 <= k < u {
            assert(url[k - p1] != '#');
        } else if p2 <= k < w {
            assert(is_ascii_alnum(suite[k - p2]) || suite[k - p2] == '-');
        } else if w <= k {
            assert(sp[k - w] == ' ' || is_ascii_alnum(sp[k - w]) || sp[k - w] == '-');
        }
    }
    lemma_find_absent(l, '#', 0);
    assert(l.subrange(0, l.len() as int) =~= l);
    assert(!is_ws(l[0]));
    assert(l[l.len() - 1] == sp.last());
    assert(!is_ws(l[l.len() - 1])) by {
        assert(sp[sp.len() - 1] == ' ' || is_ascii_alnum(sp[sp.len() - 1]) || sp[sp.len() - 1] == '-');
    }
    assert(skip_ws_from(l, 0) == 0);
    assert(trim_end_from(l, l.len() as int) == l.len());
    assert(trim(l) =~= l);
    assert(content(l) == l);
    // the type word
    assert(l.subrange(0, 3) =~= "deb"@);
    if src {
        assert(l.subrange(0, 7) =~= "deb-src"@);
    } else {
        assert(l[3] == ' ');
        assert(l.subrange(0, 7) != "deb-src"@) by {
            if l.len() >= 7 {
                assert(l.subrange(0, 7)[3] == ' ');
            }
        }
    }
    // the url, the suite, the components
    lemma_blanks_end(l, p0, p1);
    assert forall|k: int| p1 <= k < u implies !is_blank(#[trigger] l[k]) by {
        assert(l[k] == url[k - p1]);
    }
    lemma_url_end(l, p1, u);
    assert(!is_blank(l[p2])) by {
        assert(l[p2] == suite[0]);
        assert(is_ascii_alnum(suite[0]) || suite[0] == '-');
    }
    lemma_blanks_end(l, u, p2);
    assert forall|k: int| p2 <= k < w implies is_name_char(#[trigger] l[k]) by {
        assert(l[k] == suite[k - p2]);
        assert(is_ascii_alnum(suite[k - p2]) || suite[k - p2] == '-');
    }
    assert(l[w] == ' ') by {
        assert(sp == " "@ + cs[0] + spaced(cs.drop_first()));
        assert(l[w] == sp[0]);
    }
    lemma_name_end(l, p2, w);
    assert(l.subrange(w, l.len() as int) =~= sp);
    lemma_components_spaced(l, w, cs);
    assert(l.subrange(p1, u) =~= url);
    assert(l.subrange(p2, w) =~= suite);
}

fn blanks_end_of(s: &[char], i: usize) -> (r: usize)
    requires
        i <= s@.len(),
    ensures
        r == blanks_end(s@, i as int),
        i <= r <= s@.len(),
{
    let mut j = i;
    while j < s.len() && (s[j] == ' ' || s[j] == '\t')
        invariant
            i <= j <= s@.len(),
            blanks_end(s@, j as int) == blanks_end(s@, i as int),
        decreases s@.len() - j,
    {
        j = j + 1;
    }
    j
}

fn url_end_of(s: &[char], i: usize) -> (r: usize)
    requires
        i <= s@.len(),
    ensures
        r == url_end(s@, i as int),
        i <= r <= s@.len(),
{
    let mut j = i;
    while j < s.len() && !(s[j] == ' ' || s[j] == '\t')
        invariant
            i <= j <= s@.len(),
            url_end(s@, j as int) == url_end(s@, i as int),
        decreases s@.len() - j,
    {
        j = j + 1;
    }
    j
}

fn name_end_of(s: &[char], i: usize) -> (r: usize)
    requires
        i <= s@.len(),
    ensures
        r == name_end(s@, i as int),
        i <= r <= s@.len(),
{
    let mut j = i;
    while j < s.len() && (is_alphanumeric(s[j]) || s[j] == '-')
        invariant
            i <= j <= s@.len(),
            name_end(s@, j as int) == name_end(s@, i as int),
        decreases s@.len() - j,
    {
        j = j + 1;
    }
    j
}

fn components_of(s: &[char], i: usize) -> (r: (Vec<Vec<char>>, usize))
    requires
        i <= s@.len(),
    ensures
        texts(r.0@) == components_from(s@, i as int).0,
        r.1 as int == components_from(s@, i as int).1,
        r.1 <= s@.len(),
    decreases s@.len() - i,
{
    let a = blanks_end_of(s, i);
    let w = name_end_of(s, a);
    if i < a && a < w {
        let (rest, e) = components_of(s, w);
        let mut rest = rest;
        let mut out: Vec<Vec<char>> = Vec::new();
        out.push(slice_chars(s, a, w));
        let ghost first = out@;
        let ghost tail = rest@;
        out.append(&mut rest);
        assert(texts(out@) =~= seq![s@.subrange(a as int, w as int)] + texts(tail)) by {
            assert(out@ == first + tail);
        }
        (out, e)
    } else {
        let out: Vec<Vec<char>> = Vec::new();
        assert(texts(out@) =~= Seq::<Seq<char>>::empty());
        (out, i)
    }
}

fn line_entry_of(line: &[char]) -> (r: Result<Option<Entry>, Error>)
    ensures
        match r {
            Ok(Some(en)) => line_entry(line@) == Ok::<Option<EntrySpec>, Error>(Some(en.spec())),
            Ok(None) => line_entry(line@) == Ok::<Option<EntrySpec>, Error>(None),
            Err(e) => line_entry(line@) == Err::<Option<EntrySpec>, Error>(e),
        },
{
    let h = find_char_from(line, '#', 0);
    proof {
        lemma_find_bounds(line@, '#', 0);
    }
    let before = slice_chars(line, 0, h);
    let t = trim_chars(before.as_slice());
    assert(t@ == content(line@));
    if t.len() == 0 {
        return Ok(None);
    }
    let deb = chars_of("deb");
    let deb_src = chars_of("deb-src");
    proof {
        reveal_strlit("deb");
        reveal_strlit("deb-src");
    }
    if !starts_with(t.as_slice(), deb.as_slice()) {
        return Err(Error::MalformedSourcesLine);
    }
    let src = starts_with(t.as_slice(), deb_src.as_slice());
    let p0: usize = if src {
        7
    } else {
        3
    };
    let p1 = blanks_end_of(t.as_slice(), p0);
    let u = url_end_of(t.as_slice(), p1);
    let p2 = blanks_end_of(t.as_slice(), u);
    let w = name_end_of(t.as_slice(), p2);
    let (cs, e) = components_of(t.as_slice(), w);
    if !(p0 < p1 && p1 < u && u < p2 && p2 < w) || cs.len() == 0 {
        return Err(Error::MalformedSourcesLine);
    }
    if e < t.len() {
        return Err(Error::TrailingData);
    }
    let raw = slice_chars(t.as_slice(), p1, u);
    let url = if ends_with_char(raw.as_slice(), '/') {
        string_of(raw.as_slice())
    } else {
        let mut uc = raw;
        uc.push('/');
        string_of(uc.as_slice())
    };
    let suite = string_of(slice_chars(t.as_slice(), p2, w).as_slice());
    let mut components: Vec<String> = Vec::new();
    let mut k: usize = 0;
    while k < cs.len()
        invariant
            k <= cs@.len(),
            components@.len() == k,
            forall|q: int| 0 <= q < k ==> #[trigger] components@[q]@ == cs@[q]@,
        decreases cs@.len() - k,
    {
        components.push(string_of(cs[k].as_slice()));
        k = k + 1;
    }
    let en = Entry { src, url, suite_codename: suite, components };
    assert(en.spec().3 =~= texts(cs@));
    Ok(Some(en))
}

/// Read the entries of some sources list lines of the older form.
pub fn read(from: &str) -> (r: Result<Vec<Entry>, Error>)
    ensures
        match r {
            Ok(v) => entries_from(lines(from@), 0) == Ok::<Seq<EntrySpec>, Error>(entry_specs(v@)),
            Err(e) => entries_from(lines(from@), 0) == Err::<Seq<EntrySpec>, Error>(e),
        },
{
    let cs = chars_of(from);
    let ls = split_lines(cs.as_slice());
    let ghost tl = texts(ls@);
    let mut out: Vec<Entry> = Vec::new();
    let mut i: usize = 0;
    while i < ls.len()
        invariant
            i <= ls@.len(),
            tl == texts(ls@),
            tl == lines(from@),
            entries_from(tl, 0) == match entries_from(tl, i as int) {
                Ok(rest) => Ok(entry_specs(out@) + rest),
                Err(e) => Err(e),
            },
        decreases ls@.len() - i,
    {
        assert(tl[i as int] == ls@[i as int]@);
        let o = line_entry_of(ls[i].as_slice())?;
        let ghost before = entry_specs(out@);
        match o {
            Some(en) => {
                out.push(en);
                assert(entry_specs(out@) =~= before.push(en.spec()));
                proof {
                    match entries_from(tl, i + 1) {
                        Ok(rest) => {
                            assert(before + (seq![en.spec()] + rest) =~= entry_specs(out@) + rest);
                        },
                        Err(_) => {},
                    }
                }
            },
            None => {},
        }
        i = i + 1;
    }
    assert(entry_specs(out@) + Seq::<EntrySpec>::empty() =~= entry_specs(out@));
    Ok(out)
}

} // verus!
