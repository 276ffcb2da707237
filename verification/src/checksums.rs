//! Checksum lists, e.g. the `Files:` or `SHA256:` field:
//! lines of `<hash> <size> <name>`.

use vstd::prelude::*;

use crate::error::Error;
use crate::rfc822::{FieldMap, one_line_spec};
use crate::text::{chars_eq, parse_u64, split_ws, texts, u64_text, words};

verus! {

/// A file's name and size, which identify it in a checksum list.
pub type FileKey = (Seq<char>, u64);

/// The model of a checksum list: distinct keys with their hashes, in the order
/// each key first appeared.
pub type ChecksumsSpec = Seq<(FileKey, Seq<char>)>;

/// Index of the entry with key `k`, or -1.
pub open spec fn key_index(acc: ChecksumsSpec, k: FileKey) -> int
    decreases acc.len(),
{
    if acc.len() == 0 {
        -1
    } else if acc.last().0 == k {
        acc.len() - 1
    } else {
        key_index(acc.drop_last(), k)
    }
}

pub proof fn lemma_key_index(acc: ChecksumsSpec, k: FileKey)
    ensures
        -1 <= key_index(acc, k) < acc.len(),
        key_index(acc, k) >= 0 ==> acc[key_index(acc, k)].0 == k,
    decreases acc.len(),
{
    if acc.len() > 0 && acc.last().0 != k {
        lemma_key_index(acc.drop_last(), k);
    }
}

/// No key occurs twice.
pub open spec fn keys_distinct(acc: ChecksumsSpec) -> bool {
    forall|a: int, b: int|
        0 <= a < acc.len() && 0 <= b < acc.len() && a != b ==> #[trigger] acc[a].0 != #[trigger] acc[b].0
}

/// The hash recorded for `k`, if any.
pub open spec fn lookup(acc: ChecksumsSpec, k: FileKey) -> Option<Seq<char>> {
    let i = key_index(acc, k);
    if i >= 0 {
        Some(acc[i].1)
    } else {
        None
    }
}

/// `key_index` finds every key that occurs, and nothing else.
pub proof fn lemma_key_index_found(acc: ChecksumsSpec, k: FileKey, j: int)
    requires
        0 <= j < acc.len(),
        acc[j].0 == k,
    ensures
        key_index(acc, k) >= j,
    decreases acc.len(),
{
    if acc.last().0 != k {
        lemma_key_index_found(acc.drop_last(), k, j);
    }
}

/// With distinct keys, `key_index` is the position of the key.
pub proof fn lemma_key_index_unique(acc: ChecksumsSpec, k: FileKey, j: int)
    requires
        keys_distinct(acc),
        0 <= j < acc.len(),
        acc[j].0 == k,
    ensures
        key_index(acc, k) == j,
{
    lemma_key_index(acc, k);
    lemma_key_index_found(acc, k, j);
}

/// `upsert` keeps the keys distinct.
pub proof fn lemma_upsert_distinct(acc: ChecksumsSpec, k: FileKey, v: Seq<char>)
    requires
        keys_distinct(acc),
    ensures
        keys_distinct(upsert(acc, k, v)),
{
    lemma_key_index(acc, k);
    let r = upsert(acc, k, v);
    if key_index(acc, k) < 0 {
        assert forall|a: int, b: int|
            0 <= a < r.len() && 0 <= b < r.len() && a != b implies #[trigger] r[a].0
            != #[trigger] r[b].0 by {
            if a == acc.len() as int && r[b].0 == k {
                lemma_key_index_found(acc, k, b);
            }
            if b == acc.len() as int && r[a].0 == k {
                lemma_key_index_found(acc, k, a);
            }
        }
    } else {
        assert forall|a: int, b: int|
            0 <= a < r.len() && 0 <= b < r.len() && a != b implies #[trigger] r[a].0
            != #[trigger] r[b].0 by {
            assert(acc[a].0 != acc[b].0);
        }
    }
}

/// Checksum lists read from lines have distinct keys.
pub proof fn lemma_checksums_distinct(lines: Seq<Seq<char>>)
    requires
        checksums_spec(lines) is Ok,
    ensures
        keys_distinct(checksums_spec(lines)->Ok_0),
    decreases lines.len(),
{
    if lines.len() > 0 {
        lemma_checksums_distinct(lines.drop_last());
        let acc = checksums_spec(lines.drop_last())->Ok_0;
        let (k, v) = checksum_line(lines.last())->Ok_0;
        lemma_upsert_distinct(acc, k, v);
    }
}

/// Taking out one key of a list with distinct keys leaves the others as they were.
pub proof fn lemma_remove_key_distinct(acc: ChecksumsSpec, k: FileKey)
    requires
        keys_distinct(acc),
    ensures
        keys_distinct(remove_key(acc, k)),
        lookup(remove_key(acc, k), k) is None,
        forall|k2: FileKey| k2 != k ==> #[trigger] lookup(remove_key(acc, k), k2) == lookup(acc, k2),
{
    lemma_key_index(acc, k);
    let i = key_index(acc, k);
    let r = remove_key(acc, k);
    if i < 0 {
        assert forall|k2: FileKey| k2 != k implies #[trigger] lookup(r, k2) == lookup(acc, k2) by {}
    } else {
        assert(r =~= acc.remove(i));
        assert forall|a: int, b: int|
            0 <= a < r.len() && 0 <= b < r.len() && a != b implies #[trigger] r[a].0
            != #[trigger] r[b].0 by {
            let a1 = if a < i { a } else { a + 1 };
            let b1 = if b < i { b } else { b + 1 };
            assert(r[a] == acc[a1] && r[b] == acc[b1]);
            assert(acc[a1].0 != acc[b1].0);
        }
        lemma_key_index(r, k);
        if key_index(r, k) >= 0 {
            let j = key_index(r, k);
            let j1 = if j < i { j } else { j + 1 };
            assert(r[j] == acc[j1]);
            assert(acc[j1].0 != acc[i].0);
        }
        assert forall|k2: FileKey| k2 != k implies #[trigger] lookup(r, k2) == lookup(acc, k2) by {
            lemma_key_index(acc, k2);
            lemma_key_index(r, k2);
            if key_index(acc, k2) >= 0 {
                let j = key_index(acc, k2);
                assert(j != i);
                let j2 = if j < i { j } else { j - 1 };
                assert(r[j2] == acc[j]);
                lemma_key_index_unique(r, k2, j2);
            } else if key_index(r, k2) >= 0 {
                let j = key_index(r, k2);
                let j1 = if j < i { j } else { j + 1 };
                assert(r[j] == acc[j1]);
                lemma_key_index_found(acc, k2, j1);
            }
        }
    }
}

/// `acc` with `k` set to `v`: in place if present, else at the end.
pub open spec fn upsert(acc: ChecksumsSpec, k: FileKey, v: Seq<char>) -> ChecksumsSpec {
    let i = key_index(acc, k);
    if i >= 0 {
        acc.update(i, (k, v))
    } else {
        acc.push((k, v))
    }
}

/// `acc` without the entry for `k`.
pub open spec fn remove_key(acc: ChecksumsSpec, k: FileKey) -> ChecksumsSpec {
    let i = key_index(acc, k);
    if i >= 0 {
        acc.remove(i)
    } else {
        acc
    }
}

/// One checksum line: exactly three words, the middle one a size.
pub open spec fn checksum_line(l: Seq<char>) -> Result<(FileKey, Seq<char>), Error> {
    let ws = words(l);
    if ws.len() != 3 {
        Err(Error::BadChecksumLine)
    } else {
        match u64_text(ws[1]) {
            Some(n) => Ok(((ws[2], n), ws[0])),
            None => Err(Error::BadNumber),
        }
    }
}

/// The checksums of some lines, a later line for a key replacing an earlier one.
pub open spec fn checksums_spec(lines: Seq<Seq<char>>) -> Result<ChecksumsSpec, Error>
    decreases lines.len(),
{
    if lines.len() == 0 {
        Ok(Seq::empty())
    } else {
        match checksums_spec(lines.drop_last()) {
            Ok(acc) => match checksum_line(lines.last()) {
                Ok((k, v)) => Ok(upsert(acc, k, v)),
                Err(e) => Err(e),
            },
            Err(e) => Err(e),
        }
    }
}

/// A checksum entry.
pub struct ChecksumEntry {
    pub name: Vec<char>,
    pub size: u64,
    pub hash: Vec<char>,
}

impl ChecksumEntry {
    pub open spec fn spec(&self) -> (FileKey, Seq<char>) {
        ((self.name@, self.size), self.hash@)
    }
}

/// A checksum list.
pub struct Checksums {
    pub entries: Vec<ChecksumEntry>,
}

impl Checksums {
    pub open spec fn spec(&self) -> ChecksumsSpec {
        Seq::new(self.entries@.len(), |i: int| self.entries@[i].spec())
    }

    fn index_of(&self, name: &[char], size: u64) -> (r: Option<usize>)
        ensures
            match r {
                Some(i) => key_index(self.spec(), (name@, size)) == i,
                None => key_index(self.spec(), (name@, size)) == -1,
            },
    {
        let mut k = self.entries.len();
        assert(self.spec().take(k as int) =~= self.spec());
        while k > 0
            invariant
                k <= self.entries@.len(),
                key_index(self.spec(), (name@, size)) == key_index(
                    self.spec().take(k as int),
                    (name@, size),
                ),
            decreases k,
        {
            let e = &self.entries[k - 1];
            let ghost t = self.spec().take(k as int);
            assert(t.drop_last() =~= self.spec().take(k - 1));
            if e.size == size && chars_eq(e.name.as_slice(), name) {
                return Some(k - 1);
            }
            k = k - 1;
        }
        assert(self.spec().take(0) =~= Seq::<(FileKey, Seq<char>)>::empty());
        assert(self.spec().take(self.spec().len() as int) =~= self.spec());
        None
    }

    /// The hash of the file `name` of `size`, if listed.
    pub fn get(&self, name: &[char], size: u64) -> (r: Option<&Vec<char>>)
        ensures
            match r {
                Some(h) => lookup(self.spec(), (name@, size)) == Some(h@),
                None => lookup(self.spec(), (name@, size)) is None,
            },
    {
        proof {
            lemma_key_index(self.spec(), (name@, size));
        }
        match self.index_of(name, size) {
            Some(i) => Some(&self.entries[i].hash),
            None => None,
        }
    }

    /// Set the hash of the file `name` of `size`.
    pub fn upsert(&mut self, e: ChecksumEntry)
        ensures
            final(self).spec() == upsert(old(self).spec(), e.spec().0, e.spec().1),
    {
        proof {
            assert(self.spec().take(self.spec().len() as int) =~= self.spec());
        }
        let ghost es = e.spec();
        proof {
            lemma_key_index(self.spec(), es.0);
        }
        match self.index_of(e.name.as_slice(), e.size) {
            Some(i) => {
                self.entries.set(i, e);
                assert(self.spec() =~= upsert(old(self).spec(), es.0, es.1));
            },
            None => {
                self.entries.push(e);
                assert(self.spec() =~= upsert(old(self).spec(), es.0, es.1));
            },
        }
    }

    /// Take out the hash of the file `name` of `size`.
    pub fn remove(&mut self, name: &[char], size: u64) -> (r: Option<Vec<char>>)
        ensures
            final(self).spec() == remove_key(old(self).spec(), (name@, size)),
            key_index(old(self).spec(), (name@, size)) >= 0 <==> r is Some,
            r matches Some(h) ==> h@ == old(self).spec()[key_index(
                old(self).spec(),
                (name@, size),
            )].1,
    {
        proof {
            lemma_key_index(self.spec(), (name@, size));
        }
        match self.index_of(name, size) {
            Some(i) => {
                let e = self.entries.remove(i);
                assert(self.spec() =~= old(self).spec().remove(i as int));
                Some(e.hash)
            },
            None => None,
        }
    }
}

fn checksum_line_of(l: &[char]) -> (r: Result<ChecksumEntry, Error>)
    ensures
        match r {
            Ok(e) => checksum_line(l@) == Ok::<(FileKey, Seq<char>), Error>(e.spec()),
            Err(e) => checksum_line(l@) == Err::<(FileKey, Seq<char>), Error>(e),
        },
{
    let mut ws = split_ws(l);
    if ws.len() != 3 {
        return Err(Error::BadChecksumLine);
    }
    let ghost w = texts(ws@);
    assert(w[1] == ws@[1]@);
    let size = parse_u64(ws[1].as_slice())?;
    let name = ws.pop().unwrap();
    let _ = ws.pop();
    let hash = ws.pop().unwrap();
    assert(name@ == w[2] && hash@ == w[0]);
    Ok(ChecksumEntry { name, size, hash })
}

/// Read the checksums of some lines.
pub fn parse_checksums(lines: &[Vec<char>]) -> (r: Result<Checksums, Error>)
    ensures
        match r {
            Ok(c) => checksums_spec(texts(lines@)) == Ok::<ChecksumsSpec, Error>(c.spec()),
            Err(e) => checksums_spec(texts(lines@)) == Err::<ChecksumsSpec, Error>(e),
        },
{
    let mut ret = Checksums { entries: Vec::new() };
    let mut k: usize = 0;
    assert(texts(lines@).take(0) =~= Seq::<Seq<char>>::empty());
    assert(ret.spec() =~= Seq::<(FileKey, Seq<char>)>::empty());
    while k < lines.len()
        invariant
            k <= lines@.len(),
            checksums_spec(texts(lines@).take(k as int)) == Ok::<ChecksumsSpec, Error>(ret.spec()),
        decreases lines@.len() - k,
    {
        let ghost t = texts(lines@).take(k + 1);
        assert(t.drop_last() =~= texts(lines@).take(k as int));
        assert(t.last() == lines@[k as int]@);
        match checksum_line_of(lines[k].as_slice()) {
            Ok(e) => {
                ret.upsert(e);
            },
            Err(e) => {
                proof {
                    lemma_checksums_error_persists(texts(lines@), k as int + 1, e);
                    assert(texts(lines@).take(lines@.len() as int) =~= texts(lines@));
                }
                return Err(e);
            },
        }
        k = k + 1;
    }
    assert(texts(lines@).take(lines@.len() as int) =~= texts(lines@));
    Ok(ret)
}

/// Once a prefix of the lines fails, so do all the lines.
proof fn lemma_checksums_error_persists(lines: Seq<Seq<char>>, k: int, e: Error)
    requires
        0 < k <= lines.len(),
        checksums_spec(lines.take(k)) == Err::<ChecksumsSpec, Error>(e),
    ensures
        checksums_spec(lines.take(lines.len() as int)) == Err::<ChecksumsSpec, Error>(e),
    decreases lines.len() - k,
{
    if k < lines.len() {
        let t = lines.take(k + 1);
        assert(t.drop_last() =~= lines.take(k));
        lemma_checksums_error_persists(lines, k + 1, e);
    }
}

/// The checksums of a field, taken out of the map; `None` if it is absent.
pub fn take_checksums(data: &mut FieldMap, key: &str) -> (r: Result<Option<Checksums>, Error>)
    requires
        old(data).wf(),
    ensures
        final(data).wf(),
        final(data).map() == old(data).map().remove(key@),
        match r {
            Ok(Some(c)) => old(data).map().contains_key(key@) && checksums_spec(
                old(data).map()[key@],
            ) == Ok::<ChecksumsSpec, Error>(c.spec()),
            Ok(None) => !old(data).map().contains_key(key@),
            Err(e) => old(data).map().contains_key(key@) && checksums_spec(old(data).map()[key@])
                == Err::<ChecksumsSpec, Error>(e),
        },
{
    match data.remove(key) {
        Some(s) => {
            let c = parse_checksums(s.as_slice())?;
            Ok(Some(c))
        },
        None => Ok(None),
    }
}

} // verus!
