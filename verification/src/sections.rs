//! Splitting a listing into paragraphs: runs of lines ended by a blank line.
//!
//! Each step reads whole lines (up to and including `\n`, or to the end) until
//! it reads a line of at most one byte; the paragraph is what was read, less
//! the final newline of the blank line that ended it.

use vstd::prelude::*;

use crate::error::Error;
use crate::text::utf8_string;

verus! {

/// Index of the first `\n` at or after `p` (or the length).
pub open spec fn newline_from(d: Seq<u8>, p: int) -> int
    decreases d.len() - p,
{
    if 0 <= p < d.len() && d[p] != 0x0Au8 {
        newline_from(d, p + 1)
    } else {
        p
    }
}

/// The end of the line that starts at `p`, its newline included.
pub open spec fn chunk_end(d: Seq<u8>, p: int) -> int {
    if p >= d.len() {
        p
    } else if newline_from(d, p) < d.len() {
        newline_from(d, p) + 1
    } else {
        d.len() as int
    }
}

/// The end of the run of lines that starts at `p`: the end of the first line
/// of at most one byte.
pub open spec fn section_end(d: Seq<u8>, p: int) -> int
    decreases d.len() - p,
{
    let q = chunk_end(d, p);
    if 0 <= p && p + 1 < q <= d.len() {
        section_end(d, q)
    } else {
        q
    }
}

/// Whether a paragraph can be read at `p`: the end, or a run of at least two bytes.
pub open spec fn section_ok(d: Seq<u8>, p: int) -> bool {
    p >= d.len() || section_end(d, p) - p >= 2
}

/// The paragraph read at `p`.
pub open spec fn section_at(d: Seq<u8>, p: int) -> Seq<u8> {
    let buf = d.subrange(p, section_end(d, p));
    if buf[buf.len() - 2] == 0x0Au8 {
        buf.drop_last()
    } else {
        buf
    }
}

proof fn lemma_newline_bounds(d: Seq<u8>, p: int)
    requires
        0 <= p <= d.len(),
    ensures
        p <= newline_from(d, p) <= d.len(),
        newline_from(d, p) < d.len() ==> d[newline_from(d, p)] == 0x0Au8,
    decreases d.len() - p,
{
    if p < d.len() && d[p] != 0x0Au8 {
        lemma_newline_bounds(d, p + 1);
    }
}

proof fn lemma_section_bounds(d: Seq<u8>, p: int)
    requires
        0 <= p <= d.len(),
    ensures
        p <= section_end(d, p) <= d.len(),
        p < d.len() ==> p < section_end(d, p),
    decreases d.len() - p,
{
    lemma_newline_bounds(d, p);
    let q = chunk_end(d, p);
    if p + 1 < q <= d.len() {
        lemma_section_bounds(d, q);
    }
}

/// The paragraphs of a listing, as bytes.
pub struct ByteSections {
    pub name: String,
    data: Vec<u8>,
    pos: usize,
}

impl ByteSections {
    pub closed spec fn label(&self) -> Seq<char> {
        self.name@
    }

    pub closed spec fn data(&self) -> Seq<u8> {
        self.data@
    }

    pub closed spec fn pos(&self) -> int {
        self.pos as int
    }

    /// Paragraphs of `from`, named `name` for error reports.
    pub fn new(from: Vec<u8>, name: String) -> (r: ByteSections)
        ensures
            r.data() == from@,
            r.pos() == 0,
            r.label() == name@,
    {
        ByteSections { name, data: from, pos: 0 }
    }

    /// Whether the next paragraph can be read: the end, or a paragraph of
    /// more than one byte (a paragraph of a single byte, such as a second
    /// blank line in a row, cannot be cut).
    pub fn next_ok(&self) -> (r: bool)
        requires
            self.pos() <= self.data().len(),
        ensures
            r == section_ok(self.data(), self.pos()),
    {
        if self.pos >= self.data.len() {
            return true;
        }
        let e = self.section_end_at(self.pos);
        proof {
            lemma_section_bounds(self.data@, self.pos as int);
        }
        e - self.pos >= 2
    }

    fn section_end_at(&self, p: usize) -> (r: usize)
        requires
            p < self.data@.len(),
        ensures
            r == section_end(self.data@, p as int),
    {
        let d = &self.data;
        let mut q = p;
        proof {
            lemma_section_bounds(d@, p as int);
        }
        loop
            invariant
                d@ == self.data@,
                p <= q <= d@.len(),
                section_end(d@, p as int) == section_end(d@, q as int),
            decreases d@.len() - q,
        {
            let mut n = q;
            while n < d.len() && d[n] != 0x0Au8
                invariant
                    q <= n <= d@.len(),
                    newline_from(d@, q as int) == newline_from(d@, n as int),
                decreases d@.len() - n,
            {
                n = n + 1;
            }
            let c = if q >= d.len() {
                q
            } else if n < d.len() {
                n + 1
            } else {
                d.len()
            };
            assert(c == chunk_end(d@, q as int));
            if c > q && c - q > 1 {
                q = c;
            } else {
                assert(section_end(d@, q as int) == c);
                return c;
            }
        }
    }

    /// The next paragraph, or `None` at the end.
    pub fn next_section(&mut self) -> (r: Option<Vec<u8>>)
        requires
            old(self).pos() <= old(self).data().len(),
            section_ok(old(self).data(), old(self).pos()),
        ensures
            final(self).data() == old(self).data(),
            final(self).label() == old(self).label(),
            final(self).pos() <= final(self).data().len(),
            old(self).pos() >= old(self).data().len() ==> r is None,
            old(self).pos() < old(self).data().len() ==> {
                &&& r matches Some(b) && b@ == section_at(old(self).data(), old(self).pos())
                &&& final(self).pos() == section_end(old(self).data(), old(self).pos())
            },
    {
        if self.pos >= self.data.len() {
            return None;
        }
        let p = self.pos;
        let e = self.section_end_at(p);
        proof {
            lemma_section_bounds(self.data@, p as int);
        }
        let mut buf: Vec<u8> = Vec::new();
        let mut k = p;
        while k < e
            invariant
                p <= k <= e <= self.data@.len(),
                buf@ == self.data@.subrange(p as int, k as int),
            decreases e - k,
        {
            buf.push(self.data[k]);
            k = k + 1;
        }
        if buf[buf.len() - 2] == 0x0Au8 {
            buf.pop();
        }
        self.pos = e;
        Some(buf)
    }

    /// The same paragraphs, decoded as text.
    pub fn into_string_sections(self) -> (r: StringSections)
        ensures
            r.inner == self,
    {
        StringSections { inner: self }
    }
}

/// The paragraphs of a listing, as text.
pub struct StringSections {
    pub inner: ByteSections,
}

impl StringSections {
    /// The next paragraph decoded as UTF-8, or `None` at the end.
    pub fn next_string(&mut self) -> (r: Option<Result<String, Error>>)
        requires
            old(self).inner.pos() <= old(self).inner.data().len(),
            section_ok(old(self).inner.data(), old(self).inner.pos()),
        ensures
            final(self).inner.data() == old(self).inner.data(),
            final(self).inner.pos() <= final(self).inner.data().len(),
            old(self).inner.pos() >= old(self).inner.data().len() ==> r is None,
            old(self).inner.pos() < old(self).inner.data().len() ==> {
                let b = section_at(old(self).inner.data(), old(self).inner.pos());
                &&& final(self).inner.pos() == section_end(
                    old(self).inner.data(),
                    old(self).inner.pos(),
                )
                &&& match r {
                    Some(Ok(s)) => vstd::utf8::valid_utf8(b) && s@ == vstd::utf8::decode_utf8(b),
                    Some(Err(e)) => !vstd::utf8::valid_utf8(b) && e == Error::InvalidUtf8,
                    None => false,
                }
            },
    {
        match self.inner.next_section() {
            None => None,
            Some(b) => Some(utf8_string(b)),
        }
    }
}

/// The paragraphs of a listing, as bytes (the form without a name).
pub struct Section {
    pub inner: ByteSections,
}

impl Section {
    /// Paragraphs of `from`.
    pub fn new(from: Vec<u8>) -> (r: Section)
        ensures
            r.inner.data() == from@,
            r.inner.pos() == 0,
    {
        Section { inner: ByteSections::new(from, String::new()) }
    }
}

/// All paragraphs of `data`, when each can be read.
pub open spec fn all_sections_ok(d: Seq<u8>, p: int) -> bool
    decreases d.len() - p,
{
    if 0 <= p < d.len() {
        section_ok(d, p) && (p < section_end(d, p) <= d.len() ==> all_sections_ok(
            d,
            section_end(d, p),
        ))
    } else {
        true
    }
}

/// The paragraphs of `d` from `p` on.
pub open spec fn sections_from(d: Seq<u8>, p: int) -> Seq<Seq<u8>>
    decreases d.len() - p,
{
    if 0 <= p < d.len() && p < section_end(d, p) <= d.len() {
        seq![section_at(d, p)] + sections_from(d, section_end(d, p))
    } else {
        Seq::empty()
    }
}

/// All paragraphs of a listing.
pub fn split_sections(data: Vec<u8>) -> (r: Vec<Vec<u8>>)
    requires
        all_sections_ok(data@, 0),
    ensures
        r@.len() == sections_from(data@, 0).len(),
        forall|i: int| 0 <= i < r@.len() ==> #[trigger] r@[i]@ == sections_from(data@, 0)[i],
{
    let ghost d = data@;
    let mut s = ByteSections::new(data, String::new());
    let mut out: Vec<Vec<u8>> = Vec::new();
    loop
        invariant
            s.data() == d,
            d == data@,
            0 <= s.pos() <= d.len(),
            all_sections_ok(d, s.pos()),
            sections_from(d, 0) == Seq::new(out@.len(), |i: int| out@[i]@) + sections_from(
                d,
                s.pos(),
            ),
        decreases d.len() - s.pos(),
    {
        let ghost p = s.pos();
        proof {
            if p < d.len() {
                lemma_section_bounds(d, p);
            }
        }
        match s.next_section() {
            None => {
                assert(sections_from(d, p) == Seq::<Seq<u8>>::empty());
                assert(sections_from(d, 0) =~= Seq::new(out@.len(), |i: int| out@[i]@));
                assert(Seq::new(out@.len(), |i: int| out@[i]@) + Seq::<Seq<u8>>::empty() =~= Seq::new(
                    out@.len(),
                    |i: int| out@[i]@,
                ));
                return out;
            },
            Some(b) => {
                let ghost before = Seq::new(out@.len(), |i: int| out@[i]@);
                out.push(b);
                assert(Seq::new(out@.len(), |i: int| out@[i]@) =~= before.push(b@));
                assert(before + sections_from(d, p) =~= before.push(b@) + sections_from(
                    d,
                    s.pos(),
                ));
            },
        }
    }
}

} // verus!
