//! Paragraphs of `Key: value` fields, as found in `Packages`, `Sources`,
//! `Release` and `dpkg/status` files.
//!
//! A field starts on a line holding a colon: the text before the first colon
//! is the key, the trimmed rest (when not empty) is the first value line.
//! Each following line that starts with a space continues the field, trimmed.

use vstd::prelude::*;

use crate::error::Error;
use crate::text::{
    chars_eq, join, join_chars, split_ws, words, chars_of, find_char_from, find_from, lemma_find_bounds, lines, slice_chars, split_lines,
    starts_with_char, string_of, texts, trim, trim_chars,
};

verus! {

/// A field: its key and its value lines.
pub type Line = (String, Vec<String>);

/// The model of a field: key and value lines.
pub type FieldSpec = (Seq<char>, Seq<Seq<char>>);

/// The model of a paragraph: its fields by key.
pub type FieldsSpec = Map<Seq<char>, Seq<Seq<char>>>;

/// Number of continuation lines (those starting with a space) from index `i` on.
pub open spec fn cont_count(lines: Seq<Seq<char>>, i: int) -> nat
    decreases lines.len() - i,
{
    if 0 <= i < lines.len() && lines[i].len() > 0 && lines[i][0] == ' ' {
        1 + cont_count(lines, i + 1)
    } else {
        0
    }
}

/// Index of the first colon in a line (or its length).
pub open spec fn colon_of(l: Seq<char>) -> int {
    find_from(l, ':', 0)
}

/// The first value line of a field line, if the text after the colon is not blank.
pub open spec fn head_values(l: Seq<char>) -> Seq<Seq<char>> {
    let first = trim(l.subrange(colon_of(l) + 1, l.len() as int));
    if first.len() == 0 {
        Seq::empty()
    } else {
        seq![first]
    }
}

/// The field that starts at line `i`.
pub open spec fn field_at(lines: Seq<Seq<char>>, i: int) -> Result<FieldSpec, Error> {
    let l = lines[i];
    if colon_of(l) >= l.len() {
        Err(Error::ExpectedKey)
    } else {
        Ok(
            (
                l.subrange(0, colon_of(l)),
                head_values(l) + Seq::new(
                    cont_count(lines, i + 1),
                    |k: int| trim(lines[i + 1 + k]),
                ),
            ),
        )
    }
}

/// Index of the line after the field that starts at line `i`.
pub open spec fn field_end(lines: Seq<Seq<char>>, i: int) -> int {
    if colon_of(lines[i]) >= lines[i].len() {
        i + 1
    } else {
        i + 1 + cont_count(lines, i + 1)
    }
}

/// All fields from line `i` on, or the first error.
pub open spec fn fields_from(lines: Seq<Seq<char>>, i: int) -> Result<Seq<FieldSpec>, Error>
    decreases lines.len() - i,
{
    if 0 <= i < lines.len() {
        match field_at(lines, i) {
            Err(e) => Err(e),
            Ok(f) => {
                if i < field_end(lines, i) <= lines.len() {
                    match fields_from(lines, field_end(lines, i)) {
                        Ok(rest) => Ok(seq![f] + rest),
                        Err(e) => Err(e),
                    }
                } else {
                    Err(Error::ExpectedKey)
                }
            },
        }
    } else {
        Ok(Seq::empty())
    }
}

/// The fields of a paragraph.
pub open spec fn fields(block: Seq<char>) -> Result<Seq<FieldSpec>, Error> {
    fields_from(lines(block), 0)
}

/// The value lines of the first field named `key` from line `i` on,
/// stopping at the first line that is not a field.
pub open spec fn find_key_from(lines: Seq<Seq<char>>, i: int, key: Seq<char>) -> Result<
    Option<Seq<Seq<char>>>,
    Error,
>
    decreases lines.len() - i,
{
    if 0 <= i < lines.len() {
        match field_at(lines, i) {
            Err(e) => Err(e),
            Ok(f) => {
                if f.0 == key {
                    Ok(Some(f.1))
                } else if i < field_end(lines, i) <= lines.len() {
                    find_key_from(lines, field_end(lines, i), key)
                } else {
                    Err(Error::ExpectedKey)
                }
            },
        }
    } else {
        Ok(None)
    }
}

/// Fields gathered into a map; a later field replaces an earlier one with the same key.
pub open spec fn fields_map(fs: Seq<FieldSpec>) -> Map<Seq<char>, Seq<Seq<char>>>
    decreases fs.len(),
{
    if fs.len() == 0 {
        Map::empty()
    } else {
        fields_map(fs.drop_last()).insert(fs.last().0, fs.last().1)
    }
}

/// Gathering fields by key keeps, for each key, the value of its last
/// field, and has no other keys.
pub proof fn law_last_field_wins(fs: Seq<FieldSpec>, k: Seq<char>)
    ensures
        fields_map(fs).contains_key(k) <==> exists|i: int| 0 <= i < fs.len() && #[trigger] fs[i].0 == k,
        forall|i: int|
            0 <= i < fs.len() && #[trigger] fs[i].0 == k && (forall|j: int| i < j < fs.len() ==> fs[j].0 != k)
                ==> fields_map(fs)[k] == fs[i].1,
    decreases fs.len(),
{
    if fs.len() > 0 {
        let p = fs.drop_last();
        law_last_field_wins(p, k);
        assert forall|i: int|
            0 <= i < fs.len() && #[trigger] fs[i].0 == k && (forall|j: int| i < j < fs.len() ==> fs[j].0 != k)
                implies fields_map(fs)[k] == fs[i].1 by {
            if i < fs.len() - 1 {
                assert(fs[fs.len() - 1].0 != k);
                assert(p[i] == fs[i]);
                assert forall|j: int| i < j < p.len() implies p[j].0 != k by {
                    assert(p[j] == fs[j]);
                }
            }
        }
        if exists|i: int| 0 <= i < fs.len() && #[trigger] fs[i].0 == k {
            let i = choose|i: int| 0 <= i < fs.len() && #[trigger] fs[i].0 == k;
            if i < fs.len() - 1 {
                assert(p[i].0 == k);
            }
        }
        if exists|i: int| 0 <= i < p.len() && #[trigger] p[i].0 == k {
            let i = choose|i: int| 0 <= i < p.len() && #[trigger] p[i].0 == k;
            assert(fs[i].0 == k);
        }
    }
}

proof fn lemma_cont_count_bound(lines: Seq<Seq<char>>, i: int)
    requires
        0 <= i <= lines.len(),
    ensures
        i + cont_count(lines, i) <= lines.len(),
        forall|k: int|
            i <= k < i + cont_count(lines, i) ==> #[trigger] lines[k].len() > 0 && lines[k][0]
                == ' ',
        i + cont_count(lines, i) < lines.len() ==> !(lines[i + cont_count(lines, i)].len() > 0
            && lines[i + cont_count(lines, i)][0] == ' '),
    decreases lines.len() - i,
{
    if i < lines.len() && lines[i].len() > 0 && lines[i][0] == ' ' {
        lemma_cont_count_bound(lines, i + 1);
    }
}

/// `r` with `pre` put in front of its fields.
pub open spec fn prefixed(pre: Seq<FieldSpec>, r: Result<Seq<FieldSpec>, Error>) -> Result<
    Seq<FieldSpec>,
    Error,
> {
    match r {
        Ok(h) => Ok(pre + h),
        Err(e) => Err(e),
    }
}

/// The model of a field given as strings.
pub open spec fn line_spec(l: Line) -> FieldSpec {
    (l.0@, Seq::new(l.1@.len(), |k: int| l.1@[k]@))
}

pub open spec fn line_specs(v: Seq<Line>) -> Seq<FieldSpec> {
    Seq::new(v.len(), |k: int| line_spec(v[k]))
}

pub open spec fn field_specs(v: Seq<Field>) -> Seq<FieldSpec> {
    Seq::new(v.len(), |k: int| v[k].spec())
}

/// A field of a paragraph in the form the parsers work on.
#[derive(Clone, Debug, PartialEq, Eq)]
pub struct Field {
    pub key: Vec<char>,
    pub values: Vec<Vec<char>>,
}

impl Field {
    pub open spec fn spec(&self) -> FieldSpec {
        (self.key@, texts(self.values@))
    }

    /// The field as strings.
    pub fn to_line(&self) -> (r: Line)
        ensures
            r.0@ == self.key@,
            r.1@.len() == self.values@.len(),
            forall|k: int| 0 <= k < r.1@.len() ==> #[trigger] r.1@[k]@ == self.values@[k]@,
    {
        let key = string_of(self.key.as_slice());
        let mut vals: Vec<String> = Vec::new();
        let mut k: usize = 0;
        while k < self.values.len()
            invariant
                k <= self.values@.len(),
                vals@.len() == k,
                forall|m: int| 0 <= m < k ==> #[trigger] vals@[m]@ == self.values@[m]@,
            decreases self.values@.len() - k,
        {
            vals.push(string_of(self.values[k].as_slice()));
            k = k + 1;
        }
        (key, vals)
    }
}

/// The fields of a paragraph, read one after another.
pub struct Scanner {
    lines: Vec<Vec<char>>,
    pos: usize,
}

/// Start reading the fields of the paragraph `block`.
pub fn scan(block: &str) -> (r: Scanner)
    ensures
        texts(r.lines()) == lines(block@),
        r.pos() == 0,
{
    let cs = chars_of(block);
    let ls = split_lines(cs.as_slice());
    Scanner { lines: ls, pos: 0 }
}

impl Scanner {
    pub closed spec fn lines(&self) -> Seq<Vec<char>> {
        self.lines@
    }

    pub closed spec fn pos(&self) -> int {
        self.pos as int
    }

    /// The lines not yet read, and all of them.
    pub open spec fn text(&self) -> Seq<Seq<char>> {
        texts(self.lines())
    }

    /// The next field, or the error for a line that is not one; `None` at the end.
    /// After an error, reading goes on with the following line.
    pub fn next_field(&mut self) -> (r: Option<Result<Field, Error>>)
        ensures
            final(self).lines() == old(self).lines(),
            old(self).pos() >= old(self).text().len() ==> r is None && final(self).pos() == old(
                self,
            ).pos(),
            0 <= old(self).pos() < old(self).text().len() ==> {
                &&& r is Some
                &&& final(self).pos() == field_end(old(self).text(), old(self).pos())
                &&& match (r->0, field_at(old(self).text(), old(self).pos())) {
                    (Ok(f), Ok(g)) => f.spec() == g,
                    (Err(e), Err(g)) => e == g,
                    _ => false,
                }
            },
            old(self).pos() <= old(self).text().len() ==> final(self).pos() <= old(self).text().len(),
            old(self).pos() < old(self).text().len() ==> final(self).pos() > old(self).pos(),
    {
        let ghost t = self.text();
        if self.pos >= self.lines.len() {
            return None;
        }
        let i = self.pos;
        let l = &self.lines[i];
        let c = find_char_from(l.as_slice(), ':', 0);
        proof {
            assert(t[i as int] == l@);
            lemma_find_bounds(l@, ':', 0);
        }
        if c >= l.len() {
            self.pos = i + 1;
            return Some(Err(Error::ExpectedKey));
        }
        let key = slice_chars(l.as_slice(), 0, c);
        let rest = slice_chars(l.as_slice(), c + 1, l.len());
        let first = trim_chars(rest.as_slice());
        let mut values: Vec<Vec<char>> = Vec::new();
        if first.len() > 0 {
            values.push(first);
        }
        let ghost head = values@;
        assert(texts(values@) == head_values(t[i as int]));
        let mut j = i + 1;
        proof {
            lemma_cont_count_bound(t, i + 1);
        }
        while j < self.lines.len() && starts_with_char(self.lines[j].as_slice(), ' ')
            invariant
                i + 1 <= j <= self.lines@.len(),
                t == texts(self.lines@),
                i < t.len(),
                j <= i + 1 + cont_count(t, i + 1),
                i + 1 + cont_count(t, i + 1) <= t.len(),
                forall|k: int|
                    i + 1 <= k < i + 1 + cont_count(t, i + 1) ==> #[trigger] t[k].len() > 0
                        && t[k][0] == ' ',
                i + 1 + cont_count(t, i + 1) < t.len() ==> !(t[i + 1 + cont_count(t, i + 1)].len()
                    > 0 && t[i + 1 + cont_count(t, i + 1)][0] == ' '),
                texts(values@) == head_values(t[i as int]) + Seq::new(
                    (j - i - 1) as nat,
                    |k: int| trim(t[i + 1 + k]),
                ),
            decreases self.lines@.len() - j,
        {
            proof {
                assert(t[j as int] == self.lines@[j as int]@);
            }
            let v = trim_chars(self.lines[j].as_slice());
            let ghost before = texts(values@);
            values.push(v);
            proof {
                assert(texts(values@) =~= before.push(v@));
                assert(texts(values@) =~= head_values(t[i as int]) + Seq::new(
                    (j + 1 - i - 1) as nat,
                    |k: int| trim(t[i + 1 + k]),
                ));
            }
            j = j + 1;
        }
        proof {
            if j < t.len() {
                assert(t[j as int] == self.lines@[j as int]@);
            }
            assert(j == i + 1 + cont_count(t, i + 1));
        }
        self.pos = j;
        Some(Ok(Field { key, values }))
    }

    /// The next field as strings.
    pub fn next_line(&mut self) -> (r: Option<Result<Line, Error>>)
        ensures
            final(self).lines() == old(self).lines(),
            old(self).pos() >= old(self).text().len() ==> r is None,
            0 <= old(self).pos() < old(self).text().len() ==> {
                &&& final(self).pos() == field_end(old(self).text(), old(self).pos())
                &&& match r {
                    Some(Ok(l)) => field_at(old(self).text(), old(self).pos()) == Ok::<
                        FieldSpec,
                        Error,
                    >(line_spec(l)),
                    Some(Err(e)) => field_at(old(self).text(), old(self).pos()) == Err::<
                        FieldSpec,
                        Error,
                    >(e),
                    None => false,
                }
            },
    {
        match self.next_field() {
            None => None,
            Some(Err(e)) => Some(Err(e)),
            Some(Ok(f)) => {
                let l = f.to_line();
                assert(line_spec(l) =~= f.spec());
                Some(Ok(l))
            },
        }
    }

    /// All remaining fields, or the first error.
    pub fn collect_fields(self) -> (r: Result<Vec<Field>, Error>)
        requires
            0 <= self.pos() <= self.text().len(),
        ensures
            match r {
                Ok(v) => fields_from(self.text(), self.pos()) == Ok::<Seq<FieldSpec>, Error>(
                    field_specs(v@),
                ),
                Err(e) => fields_from(self.text(), self.pos()) == Err::<Seq<FieldSpec>, Error>(e),
            },
    {
        let mut s = self;
        let ghost t = s.text();
        let ghost p0 = s.pos();
        let mut out: Vec<Field> = Vec::new();
        assert(prefixed(field_specs(out@), fields_from(t, p0)) =~= fields_from(t, p0));
        loop
            invariant
                s.text() == t,
                t == self.text(),
                p0 == self.pos(),
                0 <= s.pos() <= t.len(),
                fields_from(t, p0) == prefixed(field_specs(out@), fields_from(t, s.pos())),
            ensures
                fields_from(t, p0) == Ok::<Seq<FieldSpec>, Error>(field_specs(out@)),
            decreases t.len() - s.pos(),
        {
            let ghost p = s.pos();
            let ghost before = field_specs(out@);
            match s.next_field() {
                None => {
                    assert(fields_from(t, p) == Ok::<Seq<FieldSpec>, Error>(Seq::empty()));
                    assert(before + Seq::<FieldSpec>::empty() =~= before);
                    break ;
                },
                Some(Err(e)) => {
                    assert(field_at(t, p) == Err::<FieldSpec, Error>(e));
                    assert(fields_from(t, p) == Err::<Seq<FieldSpec>, Error>(e));
                    assert(fields_from(t, p0) == Err::<Seq<FieldSpec>, Error>(e));
                    return Err(e);
                },
                Some(Ok(f)) => {
                    out.push(f);
                    proof {
                        lemma_cont_count_bound(t, p + 1);
                        assert(field_at(t, p) == Ok::<FieldSpec, Error>(f.spec()));
                        assert(field_specs(out@) =~= before.push(f.spec()));
                        match fields_from(t, s.pos()) {
                            Ok(rest) => {
                                assert(before + (seq![f.spec()] + rest) =~= before.push(f.spec())
                                    + rest);
                            },
                            Err(_) => {},
                        }
                    }
                },
            }
        }
        Ok(out)
    }

    /// All remaining fields as strings, or the first error.
    pub fn collect_lines(self) -> (r: Result<Vec<Line>, Error>)
        requires
            0 <= self.pos() <= self.text().len(),
        ensures
            match r {
                Ok(v) => fields_from(self.text(), self.pos()) == Ok::<Seq<FieldSpec>, Error>(
                    line_specs(v@),
                ),
                Err(e) => fields_from(self.text(), self.pos()) == Err::<Seq<FieldSpec>, Error>(e),
            },
    {
        let fs = self.collect_fields()?;
        let mut out: Vec<Line> = Vec::new();
        let mut k: usize = 0;
        while k < fs.len()
            invariant
                k <= fs@.len(),
                line_specs(out@) == field_specs(fs@).take(k as int),
            decreases fs@.len() - k,
        {
            let l = fs[k].to_line();
            let ghost before = line_specs(out@);
            out.push(l);
            proof {
                assert(line_spec(l) =~= fs@[k as int].spec());
                assert(line_specs(out@) =~= before.push(line_spec(l)));
                assert(field_specs(fs@).take(k + 1) =~= field_specs(fs@).take(k as int).push(
                    fs@[k as int].spec(),
                ));
            }
            k = k + 1;
        }
        assert(field_specs(fs@).take(fs@.len() as int) =~= field_specs(fs@));
        Ok(out)
    }
}


/// The fields of a paragraph by key (keys are distinct).
#[derive(Clone, Debug, PartialEq, Eq)]
pub struct FieldMap {
    entries: Vec<Field>,
}

impl FieldMap {
    /// Keys are distinct.
    pub closed spec fn wf(&self) -> bool {
        forall|i: int, j: int|
            0 <= i < self.entries@.len() && 0 <= j < self.entries@.len() && i != j
                ==> #[trigger] self.entries@[i].key@ != #[trigger] self.entries@[j].key@
    }

    pub closed spec fn has(&self, k: Seq<char>) -> bool {
        exists|i: int| 0 <= i < self.entries@.len() && #[trigger] self.entries@[i].key@ == k
    }

    pub closed spec fn index_of(&self, k: Seq<char>) -> int {
        choose|i: int| 0 <= i < self.entries@.len() && #[trigger] self.entries@[i].key@ == k
    }

    /// The fields as a map from key to value lines.
    pub closed spec fn map(&self) -> Map<Seq<char>, Seq<Seq<char>>> {
        Map::new(|k: Seq<char>| self.has(k), |k: Seq<char>| self.entries@[self.index_of(k)].spec().1)
    }

    proof fn lemma_at(&self, i: int)
        requires
            self.wf(),
            0 <= i < self.entries@.len(),
        ensures
            self.map().contains_key(self.entries@[i].key@),
            self.map()[self.entries@[i].key@] == self.entries@[i].spec().1,
    {
        let k = self.entries@[i].key@;
        assert(self.has(k));
        let j = self.index_of(k);
        assert(self.entries@[j].key@ == k);
    }

    /// An empty map.
    pub fn new() -> (r: FieldMap)
        ensures
            r.wf(),
            r.map() == Map::<Seq<char>, Seq<Seq<char>>>::empty(),
    {
        let r = FieldMap { entries: Vec::new() };
        assert(r.map() =~= Map::<Seq<char>, Seq<Seq<char>>>::empty());
        r
    }

    fn find(&self, key: &[char]) -> (r: Option<usize>)
        requires
            self.wf(),
        ensures
            r is None <==> !self.map().contains_key(key@),
            r matches Some(i) ==> i < self.entries@.len() && self.entries@[i as int].key@ == key@,
    {
        let mut k: usize = 0;
        while k < self.entries.len()
            invariant
                k <= self.entries@.len(),
                forall|m: int| 0 <= m < k ==> #[trigger] self.entries@[m].key@ != key@,
            decreases self.entries@.len() - k,
        {
            if chars_eq(self.entries[k].key.as_slice(), key) {
                return Some(k);
            }
            k = k + 1;
        }
        assert(!self.has(key@));
        None
    }

    /// Whether a field named `key` is present.
    pub fn contains_key(&self, key: &str) -> (r: bool)
        requires
            self.wf(),
        ensures
            r == self.map().contains_key(key@),
    {
        let kc = chars_of(key);
        self.find(kc.as_slice()).is_some()
    }

    /// The value lines of the field named `key`.
    pub fn get(&self, key: &str) -> (r: Option<&Vec<Vec<char>>>)
        requires
            self.wf(),
        ensures
            r is Some <==> self.map().contains_key(key@),
            r matches Some(v) ==> texts(v@) == self.map()[key@],
    {
        let kc = chars_of(key);
        match self.find(kc.as_slice()) {
            None => None,
            Some(i) => {
                proof {
                    self.lemma_at(i as int);
                }
                Some(&self.entries[i].values)
            },
        }
    }

    /// Set the field `key` to `values`, replacing any field of that name.
    pub fn insert(&mut self, key: Vec<char>, values: Vec<Vec<char>>)
        requires
            old(self).wf(),
        ensures
            final(self).wf(),
            final(self).map() == old(self).map().insert(key@, texts(values@)),
    {
        let ghost old_map = self.map();
        let ghost kv = key@;
        let ghost vv = texts(values@);
        match self.find(key.as_slice()) {
            Some(i) => {
                self.entries.set(i, Field { key, values });
                assert(self.wf());
                assert forall|k: Seq<char>|
                    #![trigger self.map().contains_key(k)]
                    self.map().contains_key(k) == old_map.insert(kv, vv).contains_key(k) by {
                    if old_map.contains_key(k) {
                        let j = choose|j: int|
                            0 <= j < self.entries@.len() && #[trigger] old(self).entries@[j].key@
                                == k;
                        assert(self.entries@[j].key@ == k);
                    }
                    if self.has(k) {
                        let j = self.index_of(k);
                        if j != i {
                            assert(old(self).entries@[j].key@ == k);
                        }
                    }
                }
                assert forall|k: Seq<char>| #[trigger]
                    self.map().contains_key(k) implies self.map()[k] == old_map.insert(
                    kv,
                    vv,
                )[k] by {
                    let j = self.index_of(k);
                    self.lemma_at(j);
                    if j != i as int {
                        old(self).lemma_at(j);
                    }
                }
                assert(self.map() =~= old_map.insert(kv, vv));
            },
            None => {
                let ghost n = self.entries@.len();
                self.entries.push(Field { key, values });
                assert(self.wf());
                assert forall|k: Seq<char>|
                    #![trigger self.map().contains_key(k)]
                    self.map().contains_key(k) == old_map.insert(kv, vv).contains_key(k) by {
                    if old_map.contains_key(k) && k != kv {
                        let j = choose|j: int|
                            0 <= j < old(self).entries@.len() && #[trigger] old(
                                self,
                            ).entries@[j].key@ == k;
                        assert(self.entries@[j].key@ == k);
                    }
                    if k == kv {
                        assert(self.entries@[n as int].key@ == k);
                    }
                    if self.has(k) && k != kv {
                        let j = self.index_of(k);
                        assert(old(self).entries@[j].key@ == k);
                    }
                }
                assert forall|k: Seq<char>| #[trigger]
                    self.map().contains_key(k) implies self.map()[k] == old_map.insert(
                    kv,
                    vv,
                )[k] by {
                    let j = self.index_of(k);
                    self.lemma_at(j);
                    if j != n {
                        old(self).lemma_at(j);
                    }
                }
                assert(self.map() =~= old_map.insert(kv, vv));
            },
        }
    }

    /// Take the field named `key` out of the map.
    pub fn remove(&mut self, key: &str) -> (r: Option<Vec<Vec<char>>>)
        requires
            old(self).wf(),
        ensures
            final(self).wf(),
            final(self).map() == old(self).map().remove(key@),
            r is Some <==> old(self).map().contains_key(key@),
            r matches Some(v) ==> texts(v@) == old(self).map()[key@],
    {
        let kc = chars_of(key);
        let ghost old_map = self.map();
        match self.find(kc.as_slice()) {
            None => {
                assert(self.map() =~= old_map.remove(key@));
                None
            },
            Some(i) => {
                proof {
                    self.lemma_at(i as int);
                }
                let f = self.entries.remove(i);
                assert(self.wf()) by {
                    assert forall|a: int, b: int|
                        0 <= a < self.entries@.len() && 0 <= b < self.entries@.len() && a != b
                            implies #[trigger] self.entries@[a].key@
                        != #[trigger] self.entries@[b].key@ by {
                        let a2 = if a < i { a } else { a + 1 };
                        let b2 = if b < i { b } else { b + 1 };
                        assert(self.entries@[a] == old(self).entries@[a2]);
                        assert(self.entries@[b] == old(self).entries@[b2]);
                    }
                }
                assert forall|k: Seq<char>|
                    #![trigger self.map().contains_key(k)]
                    self.map().contains_key(k) == old_map.remove(key@).contains_key(k) by {
                    if old_map.contains_key(k) && k != key@ {
                        let j = choose|j: int|
                            0 <= j < old(self).entries@.len() && #[trigger] old(
                                self,
                            ).entries@[j].key@ == k;
                        assert(j != i);
                        let j2 = if j < i { j } else { j - 1 };
                        assert(self.entries@[j2] == old(self).entries@[j]);
                    }
                    if self.has(k) {
                        let j = self.index_of(k);
                        let j2 = if j < i { j } else { j + 1 };
                        assert(self.entries@[j] == old(self).entries@[j2]);
                    }
                }
                assert forall|k: Seq<char>| #[trigger]
                    self.map().contains_key(k) implies self.map()[k] == old_map.remove(
                    key@,
                )[k] by {
                    let j = self.index_of(k);
                    self.lemma_at(j);
                    let j2 = if j < i { j } else { j + 1 };
                    assert(self.entries@[j] == old(self).entries@[j2]);
                    old(self).lemma_at(j2);
                }
                assert(self.map() =~= old_map.remove(key@));
                Some(f.values)
            },
        }
    }

    /// Whether no field is present.
    pub fn is_empty(&self) -> (r: bool)
        requires
            self.wf(),
        ensures
            r == (self.map().dom() == Set::<Seq<char>>::empty()),
    {
        if self.entries.len() == 0 {
            assert(self.map().dom() =~= Set::<Seq<char>>::empty());
            true
        } else {
            proof {
                self.lemma_at(0);
            }
            assert(self.map().dom().contains(self.entries@[0].key@));
            false
        }
    }

    /// The fields, in the order they were first set.
    pub fn field_list(&self) -> (r: &Vec<Field>)
        requires
            self.wf(),
        ensures
            forall|i: int|
                0 <= i < r@.len() ==> self.map().contains_key(#[trigger] r@[i].key@)
                    && self.map()[r@[i].key@] == r@[i].spec().1,
            forall|k: Seq<char>|
                #[trigger] self.map().contains_key(k) ==> exists|i: int|
                    0 <= i < r@.len() && #[trigger] r@[i].key@ == k,
            forall|i: int, j: int|
                0 <= i < r@.len() && 0 <= j < r@.len() && i != j ==> #[trigger] r@[i].key@
                    != #[trigger] r@[j].key@,
    {
        assert forall|i: int| 0 <= i < self.entries@.len() implies self.map().contains_key(
            #[trigger] self.entries@[i].key@,
        ) && self.map()[self.entries@[i].key@] == self.entries@[i].spec().1 by {
            self.lemma_at(i);
        }
        &self.entries
    }

    /// A copy of the map.
    pub fn copy(&self) -> (r: FieldMap)
        requires
            self.wf(),
        ensures
            r.wf(),
            r.map() == self.map(),
    {
        let mut entries: Vec<Field> = Vec::new();
        let mut k: usize = 0;
        while k < self.entries.len()
            invariant
                k <= self.entries@.len(),
                entries@.len() == k,
                forall|i: int| 0 <= i < k ==> (#[trigger] entries@[i]).spec() == self.entries@[i].spec(),
            decreases self.entries@.len() - k,
        {
            let f = &self.entries[k];
            let key = slice_chars(f.key.as_slice(), 0, f.key.len());
            assert(f.key@.subrange(0, f.key@.len() as int) =~= f.key@);
            let values = copy_texts(&f.values);
            entries.push(Field { key, values });
            k = k + 1;
        }
        let r = FieldMap { entries };
        assert forall|i: int, j: int|
            0 <= i < r.entries@.len() && 0 <= j < r.entries@.len() && i != j
                implies #[trigger] r.entries@[i].key@ != #[trigger] r.entries@[j].key@ by {
            assert(r.entries@[i].spec() == self.entries@[i].spec());
            assert(r.entries@[j].spec() == self.entries@[j].spec());
        }
        assert forall|key: Seq<char>| r.map().contains_key(key) == self.map().contains_key(key)
            by {
            if r.has(key) {
                let i = r.index_of(key);
                assert(r.entries@[i].spec() == self.entries@[i].spec());
                assert(self.entries@[i].key@ == key);
            }
            if self.has(key) {
                let i = self.index_of(key);
                assert(r.entries@[i].spec() == self.entries@[i].spec());
                assert(r.entries@[i].key@ == key);
            }
        }
        assert forall|key: Seq<char>| #[trigger] r.map().contains_key(key) implies r.map()[key]
            == self.map()[key] by {
            let i = r.index_of(key);
            assert(r.entries@[i].spec() == self.entries@[i].spec());
            r.lemma_at(i);
            self.lemma_at(i);
        }
        assert(r.map() =~= self.map());
        r
    }

    /// The fields, in the order they were first set.
    pub fn into_fields(self) -> (r: Vec<Field>)
        requires
            self.wf(),
        ensures
            forall|i: int|
                0 <= i < r@.len() ==> self.map().contains_key(#[trigger] r@[i].key@)
                    && self.map()[r@[i].key@] == r@[i].spec().1,
            forall|k: Seq<char>|
                #[trigger] self.map().contains_key(k) ==> exists|i: int|
                    0 <= i < r@.len() && #[trigger] r@[i].key@ == k,
            forall|i: int, j: int|
                0 <= i < r@.len() && 0 <= j < r@.len() && i != j ==> #[trigger] r@[i].key@
                    != #[trigger] r@[j].key@,
    {
        assert forall|i: int| 0 <= i < self.entries@.len() implies self.map().contains_key(
            #[trigger] self.entries@[i].key@,
        ) && self.map()[self.entries@[i].key@] == self.entries@[i].spec().1 by {
            self.lemma_at(i);
        }
        self.entries
    }
}

impl Scanner {
    /// All remaining fields gathered by key; a later field replaces an earlier one.
    pub fn collect_to_map(self) -> (r: Result<FieldMap, Error>)
        requires
            0 <= self.pos() <= self.text().len(),
        ensures
            match r {
                Ok(m) => m.wf() && (fields_from(self.text(), self.pos()) matches Ok(fs)
                    && m.map() == fields_map(fs)),
                Err(e) => fields_from(self.text(), self.pos()) == Err::<Seq<FieldSpec>, Error>(e),
            },
    {
        let fs = self.collect_fields()?;
        let ghost specs = field_specs(fs@);
        let mut m = FieldMap::new();
        let mut rest = fs;
        let ghost mut done: Seq<FieldSpec> = Seq::empty();
        assert(done + field_specs(rest@) =~= specs);
        while rest.len() > 0
            invariant
                m.wf(),
                done + field_specs(rest@) =~= specs,
                m.map() == fields_map(done),
            decreases rest@.len(),
        {
            let ghost before = done;
            let ghost rest_before = field_specs(rest@);
            let f = rest.remove(0);
            let ghost fspec = f.spec();
            let Field { key, values } = f;
            m.insert(key, values);
            proof {
                done = before.push(fspec);
                assert(done.drop_last() =~= before);
                assert(rest_before =~= seq![fspec] + field_specs(rest@));
                assert(done + field_specs(rest@) =~= before + rest_before);
            }
        }
        assert(done =~= specs);
        Ok(m)
    }

    /// The value lines of the first field named `key`, stopping at the first
    /// line that is not a field.
    pub fn find_key(self, key: &str) -> (r: Result<Option<Vec<Vec<char>>>, Error>)
        requires
            0 <= self.pos() <= self.text().len(),
        ensures
            match r {
                Ok(Some(v)) => find_key_from(self.text(), self.pos(), key@) == Ok::<
                    Option<Seq<Seq<char>>>,
                    Error,
                >(Some(texts(v@))),
                Ok(None) => find_key_from(self.text(), self.pos(), key@) == Ok::<
                    Option<Seq<Seq<char>>>,
                    Error,
                >(None),
                Err(e) => find_key_from(self.text(), self.pos(), key@) == Err::<
                    Option<Seq<Seq<char>>>,
                    Error,
                >(e),
            },
    {
        let kc = chars_of(key);
        let mut s = self;
        let ghost t = s.text();
        let ghost p0 = s.pos();
        loop
            invariant
                s.text() == t,
                t == self.text(),
                p0 == self.pos(),
                kc@ == key@,
                0 <= s.pos() <= t.len(),
                find_key_from(t, p0, key@) == find_key_from(t, s.pos(), key@),
            decreases t.len() - s.pos(),
        {
            let ghost p = s.pos();
            match s.next_field() {
                None => {
                    return Ok(None);
                },
                Some(Err(e)) => {
                    assert(field_at(t, p) == Err::<FieldSpec, Error>(e));
                    return Err(e);
                },
                Some(Ok(f)) => {
                    proof {
                        lemma_cont_count_bound(t, p + 1);
                    }
                    assert(field_at(t, p) == Ok::<FieldSpec, Error>(f.spec()));
                    if chars_eq(f.key.as_slice(), kc.as_slice()) {
                        return Ok(Some(f.values));
                    }
                },
            }
        }
    }
}

/// The single line of a field, or `NotOneLine`.
pub fn one_line(lines: &[Vec<char>]) -> (r: Result<Vec<char>, Error>)
    ensures
        lines@.len() == 1 <==> r is Ok,
        r matches Ok(l) ==> l@ == lines@[0]@,
        r matches Err(e) ==> e == Error::NotOneLine,
{
    if lines.len() != 1 {
        return Err(Error::NotOneLine);
    }
    Ok(lines[0].clone())
}

/// The lines of a field joined with spaces.
pub fn joined(lines: &[Vec<char>]) -> (r: Vec<char>)
    ensures
        r@ == join(texts(lines@), seq![' ']),
{
    let sep: Vec<char> = vec![' '];
    assert(sep@ =~= seq![' ']);
    let r = join_chars(lines, sep.as_slice());
    r
}

/// The fields of a paragraph gathered by key.
pub fn map(block: &str) -> (r: Result<FieldMap, Error>)
    ensures
        match r {
            Ok(m) => m.wf() && (fields(block@) matches Ok(fs) && m.map() == fields_map(fs)),
            Err(e) => fields(block@) == Err::<Seq<FieldSpec>, Error>(e),
        },
{
    scan(block).collect_to_map()
}

/// The lines of a required field joined with spaces.
pub fn mandatory_single_line(data: &FieldMap, key: &str) -> (r: Result<String, Error>)
    requires
        data.wf(),
    ensures
        data.map().contains_key(key@) <==> r is Ok,
        r matches Ok(s) ==> s@ == join(data.map()[key@], seq![' ']),
        r matches Err(e) ==> e == Error::MissingField,
{
    match data.get(key) {
        None => Err(Error::MissingField),
        Some(v) => {
            let j = joined(v.as_slice());
            Ok(string_of(j.as_slice()))
        },
    }
}

/// The whitespace-separated words of a required field.
pub fn mandatory_whitespace_list(data: &FieldMap, key: &str) -> (r: Result<Vec<String>, Error>)
    requires
        data.wf(),
    ensures
        data.map().contains_key(key@) <==> r is Ok,
        r matches Ok(ws) ==> ws@.len() == words(join(data.map()[key@], seq![' '])).len()
            && forall|i: int|
            0 <= i < ws@.len() ==> #[trigger] ws@[i]@ == words(join(data.map()[key@], seq![' ']))[i],
        r matches Err(e) ==> e == Error::MissingField,
{
    match data.get(key) {
        None => Err(Error::MissingField),
        Some(v) => {
            let j = joined(v.as_slice());
            let ws = split_ws(j.as_slice());
            let mut out: Vec<String> = Vec::new();
            let mut k: usize = 0;
            while k < ws.len()
                invariant
                    k <= ws@.len(),
                    out@.len() == k,
                    forall|i: int| 0 <= i < k ==> #[trigger] out@[i]@ == ws@[i]@,
                decreases ws@.len() - k,
            {
                out.push(string_of(ws[k].as_slice()));
                k = k + 1;
            }
            proof {
                assert forall|i: int| 0 <= i < out@.len() implies #[trigger] out@[i]@ == words(
                    j@,
                )[i] by {
                    assert(texts(ws@)[i] == ws@[i]@);
                }
            }
            Ok(out)
        },
    }
}


/// The single line of a field.
pub open spec fn one_line_spec(lines: Seq<Seq<char>>) -> Result<Seq<char>, Error> {
    if lines.len() == 1 {
        Ok(lines[0])
    } else {
        Err(Error::NotOneLine)
    }
}

/// A required field's lines.
pub open spec fn required_spec(v: Option<Seq<Seq<char>>>) -> Result<Seq<Seq<char>>, Error> {
    match v {
        Some(lines) => Ok(lines),
        None => Err(Error::MissingField),
    }
}

/// The single line of a required field.
pub open spec fn one_line_req_spec(v: Option<Seq<Seq<char>>>) -> Result<Seq<char>, Error> {
    match v {
        Some(lines) => one_line_spec(lines),
        None => Err(Error::MissingField),
    }
}

/// The single line of an optional field.
pub open spec fn one_line_opt_spec(v: Option<Seq<Seq<char>>>) -> Result<Option<Seq<char>>, Error> {
    match v {
        Some(lines) => if lines.len() == 1 {
            Ok(Some(lines[0]))
        } else {
            Err(Error::NotOneLine)
        },
        None => Ok(None),
    }
}

/// The whitespace-separated words of all lines, in order.
pub open spec fn flat_words(lines: Seq<Seq<char>>) -> Seq<Seq<char>>
    decreases lines.len(),
{
    if lines.len() == 0 {
        Seq::empty()
    } else {
        flat_words(lines.drop_last()) + words(lines.last())
    }
}

/// A word without its trailing commas.
pub open spec fn trim_commas(w: Seq<char>) -> Seq<char>
    decreases w.len(),
{
    if w.len() > 0 && w.last() == ',' {
        trim_commas(w.drop_last())
    } else {
        w
    }
}

/// The words of all lines with trailing commas dropped.
pub open spec fn csv_words(lines: Seq<Seq<char>>) -> Seq<Seq<char>> {
    Seq::new(flat_words(lines).len(), |i: int| trim_commas(flat_words(lines)[i]))
}

/// A copy of some texts.
pub fn copy_texts(v: &Vec<Vec<char>>) -> (r: Vec<Vec<char>>)
    ensures
        texts(r@) == texts(v@),
{
    let mut r: Vec<Vec<char>> = Vec::new();
    let mut k: usize = 0;
    while k < v.len()
        invariant
            k <= v@.len(),
            texts(r@) == texts(v@).take(k as int),
        decreases v@.len() - k,
    {
        let c = slice_chars(v[k].as_slice(), 0, v[k].len());
        let ghost before = texts(r@);
        r.push(c);
        assert(v@[k as int]@.subrange(0, v@[k as int]@.len() as int) =~= v@[k as int]@);
        assert(texts(r@) =~= before.push(c@));
        assert(texts(v@).take(k + 1) =~= texts(v@).take(k as int).push(v@[k as int]@));
        k = k + 1;
    }
    assert(texts(v@).take(v@.len() as int) =~= texts(v@));
    r
}

/// All whitespace-separated words of some lines.
pub fn flatten_words(lines: &[Vec<char>]) -> (r: Vec<Vec<char>>)
    ensures
        texts(r@) == flat_words(texts(lines@)),
{
    let mut r: Vec<Vec<char>> = Vec::new();
    let mut k: usize = 0;
    while k < lines.len()
        invariant
            k <= lines@.len(),
            texts(r@) == flat_words(texts(lines@).take(k as int)),
        decreases lines@.len() - k,
    {
        let ws = split_ws(lines[k].as_slice());
        let mut m: usize = 0;
        let ghost r0 = texts(r@);
        while m < ws.len()
            invariant
                m <= ws@.len(),
                texts(r@) == r0 + texts(ws@).take(m as int),
            decreases ws@.len() - m,
        {
            let ghost before = texts(r@);
            let w = slice_chars(ws[m].as_slice(), 0, ws[m].len());
            r.push(w);
            assert(ws@[m as int]@.subrange(0, ws@[m as int]@.len() as int) =~= ws@[m as int]@);
            assert(texts(r@) =~= before.push(w@));
            assert(texts(ws@).take(m + 1) =~= texts(ws@).take(m as int).push(ws@[m as int]@));
            m = m + 1;
        }
        proof {
            let t = texts(lines@).take(k + 1);
            assert(t.drop_last() =~= texts(lines@).take(k as int));
            assert(t.last() == lines@[k as int]@);
            assert(texts(ws@).take(ws@.len() as int) =~= texts(ws@));
        }
        k = k + 1;
    }
    assert(texts(lines@).take(lines@.len() as int) =~= texts(lines@));
    r
}

/// A word without its trailing commas.
pub fn trim_end_commas(w: &[char]) -> (r: Vec<char>)
    ensures
        r@ == trim_commas(w@),
{
    let mut e = w.len();
    assert(w@.subrange(0, e as int) =~= w@);
    while e > 0 && w[e - 1] == ','
        invariant
            e <= w@.len(),
            trim_commas(w@) == trim_commas(w@.subrange(0, e as int)),
        decreases e,
    {
        assert(w@.subrange(0, e as int).drop_last() =~= w@.subrange(0, e - 1));
        e = e - 1;
    }
    assert(w@.subrange(0, e as int).len() == 0 || w@.subrange(0, e as int).last() != ',');
    slice_chars(w, 0, e)
}

/// A field looked up (or taken) by key.
pub struct Value {
    pub key: String,
    pub val: Option<Vec<Vec<char>>>,
}

impl Value {
    /// The value lines, if the field was present.
    pub open spec fn lines(&self) -> Option<Seq<Seq<char>>> {
        match self.val {
            Some(v) => Some(texts(v@)),
            None => None,
        }
    }

    /// The lines of a required field.
    pub fn required(&self) -> (r: Result<&Vec<Vec<char>>, Error>)
        ensures
            match r {
                Ok(v) => required_spec(self.lines()) == Ok::<Seq<Seq<char>>, Error>(texts(v@)),
                Err(e) => required_spec(self.lines()) == Err::<Seq<Seq<char>>, Error>(e),
            },
    {
        match &self.val {
            Some(v) => Ok(v),
            None => Err(Error::MissingField),
        }
    }

    /// The single line of a required field.
    pub fn one_line_req(&self) -> (r: Result<Vec<char>, Error>)
        ensures
            match r {
                Ok(l) => one_line_req_spec(self.lines()) == Ok::<Seq<char>, Error>(l@),
                Err(e) => one_line_req_spec(self.lines()) == Err::<Seq<char>, Error>(e),
            },
    {
        let v = self.required()?;
        one_line(v.as_slice())
    }

    /// The single line of an optional field.
    pub fn one_line(&self) -> (r: Result<Option<Vec<char>>, Error>)
        ensures
            match r {
                Ok(Some(l)) => one_line_opt_spec(self.lines()) == Ok::<Option<Seq<char>>, Error>(
                    Some(l@),
                ),
                Ok(None) => one_line_opt_spec(self.lines()) == Ok::<Option<Seq<char>>, Error>(
                    None,
                ),
                Err(e) => one_line_opt_spec(self.lines()) == Err::<Option<Seq<char>>, Error>(e),
            },
    {
        match &self.val {
            None => Ok(None),
            Some(v) => {
                let l = one_line(v.as_slice())?;
                Ok(Some(l))
            },
        }
    }

    /// The single line of an optional field, as a string.
    pub fn one_line_owned(&self) -> (r: Result<Option<String>, Error>)
        ensures
            match r {
                Ok(Some(l)) => one_line_opt_spec(self.lines()) == Ok::<Option<Seq<char>>, Error>(
                    Some(l@),
                ),
                Ok(None) => one_line_opt_spec(self.lines()) == Ok::<Option<Seq<char>>, Error>(
                    None,
                ),
                Err(e) => one_line_opt_spec(self.lines()) == Err::<Option<Seq<char>>, Error>(e),
            },
    {
        match self.one_line()? {
            None => Ok(None),
            Some(l) => Ok(Some(string_of(l.as_slice()))),
        }
    }

    /// The lines of a required field joined with newlines.
    pub fn joined_lines_req(&self) -> (r: Result<String, Error>)
        ensures
            match r {
                Ok(s) => self.lines() matches Some(ls) && s@ == join(ls, seq!['\n']),
                Err(e) => self.lines() is None && e == Error::MissingField,
            },
    {
        let v = self.required()?;
        let sep: Vec<char> = vec!['\n'];
        assert(sep@ =~= seq!['\n']);
        let j = join_chars(v.as_slice(), sep.as_slice());
        Ok(string_of(j.as_slice()))
    }

    /// The whitespace-separated words of all lines of a required field.
    pub fn split_whitespace(&self) -> (r: Result<Vec<String>, Error>)
        ensures
            match r {
                Ok(ws) => self.lines() matches Some(ls) && Seq::new(ws@.len(), |i: int| ws@[i]@)
                    == flat_words(ls),
                Err(e) => self.lines() is None && e == Error::MissingField,
            },
    {
        let v = self.required()?;
        let ws = flatten_words(v.as_slice());
        Ok(to_strings(&ws))
    }
}

/// Texts as strings.
pub fn to_strings(v: &Vec<Vec<char>>) -> (r: Vec<String>)
    ensures
        Seq::new(r@.len(), |i: int| r@[i]@) == texts(v@),
{
    let mut out: Vec<String> = Vec::new();
    let mut k: usize = 0;
    while k < v.len()
        invariant
            k <= v@.len(),
            out@.len() == k,
            forall|i: int| 0 <= i < k ==> #[trigger] out@[i]@ == v@[i]@,
        decreases v@.len() - k,
    {
        out.push(string_of(v[k].as_slice()));
        k = k + 1;
    }
    assert(Seq::new(out@.len(), |i: int| out@[i]@) =~= texts(v@));
    out
}

impl FieldMap {
    /// The field `key`, looked up.
    pub fn get_value(&self, key: &str) -> (r: Value)
        requires
            self.wf(),
        ensures
            r.key@ == key@,
            r.lines() == (if self.map().contains_key(key@) {
                Some(self.map()[key@])
            } else {
                None
            }),
    {
        let val = match self.get(key) {
            Some(v) => Some(copy_texts(v)),
            None => None,
        };
        Value { key: key.to_string(), val }
    }

    /// The field `key`, taken out of the map.
    pub fn remove_value(&mut self, key: &str) -> (r: Value)
        requires
            old(self).wf(),
        ensures
            final(self).wf(),
            final(self).map() == old(self).map().remove(key@),
            r.key@ == key@,
            r.lines() == (if old(self).map().contains_key(key@) {
                Some(old(self).map()[key@])
            } else {
                None
            }),
    {
        let val = self.remove(key);
        Value { key: key.to_string(), val }
    }

    /// The lines of the required field `key`, taken out of the map.
    pub fn take_err(&mut self, key: &str) -> (r: Result<Vec<Vec<char>>, Error>)
        requires
            old(self).wf(),
        ensures
            final(self).wf(),
            final(self).map() == old(self).map().remove(key@),
            old(self).map().contains_key(key@) <==> r is Ok,
            r matches Ok(v) ==> texts(v@) == old(self).map()[key@],
            r matches Err(e) ==> e == Error::MissingField,
    {
        match self.remove(key) {
            Some(v) => Ok(v),
            None => Err(Error::MissingField),
        }
    }

    /// The single line of the required field `key`, taken out of the map.
    pub fn take_one_line(&mut self, key: &str) -> (r: Result<Vec<char>, Error>)
        requires
            old(self).wf(),
        ensures
            final(self).wf(),
            final(self).map() == old(self).map().remove(key@),
            match r {
                Ok(l) => one_line_req_spec(old(self).map().get(key@)) == Ok::<Seq<char>, Error>(
                    l@,
                ),
                Err(e) => one_line_req_spec(old(self).map().get(key@)) == Err::<Seq<char>, Error>(
                    e,
                ),
            },
    {
        let v = self.take_err(key)?;
        one_line(v.as_slice())
    }

    /// The single line of the optional field `key`, taken out of the map:
    /// `None` when it is absent, an error when it is not one line.
    pub fn remove_one_line(&mut self, key: &str) -> (r: Result<Option<Vec<char>>, Error>)
        requires
            old(self).wf(),
        ensures
            final(self).wf(),
            final(self).map() == old(self).map().remove(key@),
            match r {
                Ok(Some(l)) => one_line_opt_spec(old(self).map().get(key@)) == Ok::<
                    Option<Seq<char>>,
                    Error,
                >(Some(l@)),
                Ok(None) => one_line_opt_spec(old(self).map().get(key@)) == Ok::<
                    Option<Seq<char>>,
                    Error,
                >(None),
                Err(e) => one_line_opt_spec(old(self).map().get(key@)) == Err::<
                    Option<Seq<char>>,
                    Error,
                >(e),
            },
    {
        let v = self.remove_value(key);
        v.one_line()
    }

    /// The comma-and-whitespace separated words of the required field `key`,
    /// taken out of the map.
    pub fn take_csv(&mut self, key: &str) -> (r: Result<Vec<Vec<char>>, Error>)
        requires
            old(self).wf(),
        ensures
            final(self).wf(),
            final(self).map() == old(self).map().remove(key@),
            old(self).map().contains_key(key@) <==> r is Ok,
            r matches Ok(v) ==> texts(v@) == csv_words(old(self).map()[key@]),
            r matches Err(e) ==> e == Error::MissingField,
    {
        let v = self.take_err(key)?;
        let ws = flatten_words(v.as_slice());
        let mut out: Vec<Vec<char>> = Vec::new();
        let mut k: usize = 0;
        while k < ws.len()
            invariant
                k <= ws@.len(),
                out@.len() == k,
                forall|i: int| 0 <= i < k ==> #[trigger] out@[i]@ == trim_commas(ws@[i]@),
            decreases ws@.len() - k,
        {
            out.push(trim_end_commas(ws[k].as_slice()));
            k = k + 1;
        }
        proof {
            assert(texts(out@) =~= csv_words(texts(v@))) by {
                assert forall|i: int| 0 <= i < out@.len() implies texts(out@)[i] == csv_words(
                    texts(v@),
                )[i] by {
                    assert(texts(ws@)[i] == ws@[i]@);
                }
            }
        }
        Ok(out)
    }
}

} // verus!
