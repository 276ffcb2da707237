//! Maintainer identities, e.g. `John Smith <john@smi.th>, Jane <j@ne>`.
//!
//! A list is `ws* (ident (ws* "," ws* ident)*)? ws* ","? ws*`, where an
//! identity is the text up to the first ` <` (the name, trimmed, with `\'`,
//! `\"` and `\xHH` escapes resolved) and the text up to the next `>` (the email).

use vstd::prelude::*;

use crate::deps::{is_space, skip_space};
use crate::error::Error;
use crate::text::{
    chars_of, find_char_from, find_from, lemma_find_bounds, slice_chars, string_of, trim,
    trim_chars, utf8_string,
};

verus! {

/// A user identity, e.g. `John Smith <john@smi.th>`.
#[derive(Clone, Debug, PartialEq, Eq)]
pub struct Identity {
    pub name: String,
    pub email: String,
}

impl Identity {
    pub open spec fn spec(&self) -> (Seq<char>, Seq<char>) {
        (self.name@, self.email@)
    }
}

pub open spec fn identity_specs(v: Seq<Identity>) -> Seq<(Seq<char>, Seq<char>)> {
    Seq::new(v.len(), |i: int| v[i].spec())
}

/// The value of an ASCII hex digit.
pub open spec fn hex_value(b: u8) -> Option<u8> {
    if 0x30 <= b <= 0x39 {
        Some((b - 0x30) as u8)
    } else if 0x61 <= b <= 0x66 {
        Some((b - 0x61 + 10) as u8)
    } else if 0x41 <= b <= 0x46 {
        Some((b - 0x41 + 10) as u8)
    } else {
        None
    }
}

/// The byte two characters denote as a base-16 number (`u8::from_str_radix`,
/// which takes a leading `+`).
pub open spec fn hex_pair(first: u8, second: u8) -> Option<u8> {
    if first == 0x2B {
        hex_value(second)
    } else {
        match (hex_value(first), hex_value(second)) {
            (Some(a), Some(b)) => Some((a * 16 + b) as u8),
            _ => None,
        }
    }
}

/// The bytes from `i` on with escapes resolved, or `None` for a bad escape.
pub open spec fn unescape_from(b: Seq<u8>, i: int) -> Option<Seq<u8>>
    decreases b.len() - i,
{
    if i < 0 || i >= b.len() {
        Some(Seq::empty())
    } else if b[i] == 0x5Cu8 {
        if i + 1 >= b.len() {
            None
        } else if b[i + 1] == 0x27u8 || b[i + 1] == 0x22u8 {
            match unescape_from(b, i + 2) {
                Some(rest) => Some(seq![b[i + 1]] + rest),
                None => None,
            }
        } else if b[i + 1] == 0x78u8 {
            if i + 3 >= b.len() {
                None
            } else {
                match hex_pair(b[i + 2], b[i + 3]) {
                    Some(v) => match unescape_from(b, i + 4) {
                        Some(rest) => Some(seq![v] + rest),
                        None => None,
                    },
                    None => None,
                }
            }
        } else {
            None
        }
    } else {
        match unescape_from(b, i + 1) {
            Some(rest) => Some(seq![b[i]] + rest),
            None => None,
        }
    }
}

/// A name with its escapes resolved: `BadEscape` for an unsupported escape,
/// `InvalidUtf8` if the result is not UTF-8.
pub open spec fn escapes_spec(s: Seq<char>) -> Result<Seq<char>, Error> {
    match unescape_from(vstd::utf8::encode_utf8(s), 0) {
        Some(b) => if vstd::utf8::valid_utf8(b) {
            Ok(vstd::utf8::decode_utf8(b))
        } else {
            Err(Error::InvalidUtf8)
        },
        None => Err(Error::BadEscape),
    }
}

proof fn lemma_unescape_plain(b: Seq<u8>, i: int)
    requires
        0 <= i <= b.len(),
        forall|k: int| i <= k < b.len() ==> b[k] != 0x5Cu8,
    ensures
        unescape_from(b, i) == Some(b.subrange(i, b.len() as int)),
    decreases b.len() - i,
{
    if i < b.len() {
        lemma_unescape_plain(b, i + 1);
        assert(seq![b[i]] + b.subrange(i + 1, b.len() as int) =~= b.subrange(i, b.len() as int));
    } else {
        assert(b.subrange(i, b.len() as int) =~= Seq::<u8>::empty());
    }
}

/// No byte of a scalar's UTF-8 encoding is a backslash, unless the scalar
/// is one: the bytes of a longer encoding all have their top bit set.
proof fn lemma_scalar_without_backslash(v: u32)
    requires
        v != 0x5C,
    ensures
        forall|k: int| 0 <= k < vstd::utf8::encode_scalar(v).len() ==> #[trigger] vstd::utf8::encode_scalar(v)[k] != 0x5Cu8,
{
    assert(v <= 0x7F && v != 0x5C ==> (v & 0x7F) as u8 != 0x5Cu8) by (bit_vector);
    assert((0xC0u8 | ((v >> 6) & 0x1F) as u8) != 0x5Cu8) by (bit_vector);
    assert((0xE0u8 | ((v >> 12) & 0x0F) as u8) != 0x5Cu8) by (bit_vector);
    assert((0xF0u8 | ((v >> 18) & 0x7) as u8) != 0x5Cu8) by (bit_vector);
    assert((0x80u8 | (v & 0x3F) as u8) != 0x5Cu8) by (bit_vector);
    assert((0x80u8 | ((v >> 6) & 0x3F) as u8) != 0x5Cu8) by (bit_vector);
    assert((0x80u8 | ((v >> 12) & 0x3F) as u8) != 0x5Cu8) by (bit_vector);
}

proof fn lemma_encoding_without_backslash(s: Seq<char>)
    requires
        forall|k: int| 0 <= k < s.len() ==> s[k] != '\\',
    ensures
        forall|k: int| 0 <= k < vstd::utf8::encode_utf8(s).len() ==> #[trigger] vstd::utf8::encode_utf8(s)[k] != 0x5Cu8,
    decreases s.len(),
{
    if s.len() > 0 {
        let head = vstd::utf8::encode_scalar(s[0] as u32);
        let rest = vstd::utf8::encode_utf8(s.drop_first());
        if (s[0] as u32) == 0x5C {
            vstd::utf8::char_u32_cast(s[0], 0x5C);
            vstd::utf8::char_u32_cast('\\', '\\' as u32);
            assert(('\\' as u32) == 0x5C);
            assert(false);
        }
        lemma_scalar_without_backslash(s[0] as u32);
        lemma_encoding_without_backslash(s.drop_first());
        assert(vstd::utf8::encode_utf8(s) == head + rest);
        assert forall|k: int| 0 <= k < (head + rest).len() implies #[trigger] (head + rest)[k] != 0x5Cu8 by {
            if k < head.len() {
                assert((head + rest)[k] == head[k]);
            } else {
                assert((head + rest)[k] == rest[k - head.len()]);
            }
        }
    }
}

/// Names without a backslash are read as they are.
pub proof fn law_names_without_escapes_unchanged(s: Seq<char>)
    requires
        forall|k: int| 0 <= k < s.len() ==> s[k] != '\\',
    ensures
        escapes_spec(s) == Ok::<Seq<char>, Error>(s),
{
    let b = vstd::utf8::encode_utf8(s);
    lemma_encoding_without_backslash(s);
    lemma_unescape_plain(b, 0);
    assert(b.subrange(0, b.len() as int) =~= b);
    vstd::utf8::encode_utf8_valid_utf8(s);
    vstd::utf8::encode_utf8_decode_utf8(s);
}

pub open spec fn opt_prefixed(pre: Seq<u8>, r: Option<Seq<u8>>) -> Option<Seq<u8>> {
    match r {
        Some(rest) => Some(pre + rest),
        None => None,
    }
}

fn hex_value_of(b: u8) -> (r: Option<u8>)
    ensures
        r == hex_value(b),
{
    if 0x30 <= b && b <= 0x39 {
        Some(b - 0x30)
    } else if 0x61 <= b && b <= 0x66 {
        Some(b - 0x61 + 10)
    } else if 0x41 <= b && b <= 0x46 {
        Some(b - 0x41 + 10)
    } else {
        None
    }
}

/// The byte two characters denote as a base-16 number.
pub fn parse_ascii_hex(first: u8, second: u8) -> (r: Result<u8, Error>)
    ensures
        match r {
            Ok(v) => hex_pair(first, second) == Some(v),
            Err(e) => hex_pair(first, second) is None && e == Error::BadEscape,
        },
{
    if first == 0x2B {
        return match hex_value_of(second) {
            Some(v) => Ok(v),
            None => Err(Error::BadEscape),
        };
    }
    match (hex_value_of(first), hex_value_of(second)) {
        (Some(a), Some(b)) => {
            assert(a < 16 && b < 16);
            Ok(a * 16 + b)
        },
        _ => Err(Error::BadEscape),
    }
}

/// A name with its escapes resolved.
pub fn process_escapes(from: &str) -> (r: Result<String, Error>)
    ensures
        match r {
            Ok(s) => escapes_spec(from@) == Ok::<Seq<char>, Error>(s@),
            Err(e) => escapes_spec(from@) == Err::<Seq<char>, Error>(e),
        },
{
    let b = from.as_bytes();
    let mut out: Vec<u8> = Vec::new();
    let mut i: usize = 0;
    while i < b.len()
        invariant
            i <= b@.len(),
            b@ == vstd::utf8::encode_utf8(from@),
            unescape_from(b@, 0) == opt_prefixed(out@, unescape_from(b@, i as int)),
        decreases b@.len() - i,
    {
        let ghost before = out@;
        if b[i] == 0x5Cu8 {
            if b.len() - i < 2 {
                return Err(Error::BadEscape);
            }
            let c = b[i + 1];
            if c == 0x27u8 || c == 0x22u8 {
                out.push(c);
                assert(before + (seq![c] + unescape_from(b@, i + 2)->0) =~= out@ + unescape_from(
                    b@,
                    i + 2,
                )->0);
                i = i + 2;
            } else if c == 0x78u8 {
                if b.len() - i < 4 {
                    return Err(Error::BadEscape);
                }
                let v = parse_ascii_hex(b[i + 2], b[i + 3])?;
                out.push(v);
                assert(before + (seq![v] + unescape_from(b@, i + 4)->0) =~= out@ + unescape_from(
                    b@,
                    i + 4,
                )->0);
                i = i + 4;
            } else {
                return Err(Error::BadEscape);
            }
        } else {
            let c = b[i];
            out.push(c);
            assert(before + (seq![c] + unescape_from(b@, i + 1)->0) =~= out@ + unescape_from(
                b@,
                i + 1,
            )->0);
            i = i + 1;
        }
    }
    assert(out@ + Seq::<u8>::empty() =~= out@);
    utf8_string(out)
}

/// The first ` <` at or after `i` (its index), or the length.
pub open spec fn open_from(s: Seq<char>, i: int) -> int
    decreases s.len() - i,
{
    if 0 <= i && i + 1 < s.len() && !(s[i] == ' ' && s[i + 1] == '<') {
        open_from(s, i + 1)
    } else if 0 <= i && i + 1 < s.len() {
        i
    } else {
        s.len() as int
    }
}

/// An identity at `i`: raw name and email, and where it ends.
pub open spec fn ident_at(s: Seq<char>, i: int) -> Option<((Seq<char>, Seq<char>), int)> {
    let j = open_from(s, i);
    if 0 <= i <= j && j + 1 < s.len() {
        let k = find_from(s, '>', j + 2);
        if k < s.len() {
            Some(((s.subrange(i, j), s.subrange(j + 2, k)), k + 1))
        } else {
            None
        }
    } else {
        None
    }
}

/// Further identities after `k`: `(ws* "," ws* ident)*`.
pub open spec fn more_idents_from(s: Seq<char>, k: int) -> (Seq<(Seq<char>, Seq<char>)>, int)
    decreases s.len() - k,
{
    let a = skip_space(s, k);
    if 0 <= a < s.len() && s[a] == ',' {
        match ident_at(s, skip_space(s, a + 1)) {
            Some((x, e)) => if k < e <= s.len() {
                let rest = more_idents_from(s, e);
                (seq![x] + rest.0, rest.1)
            } else {
                (Seq::empty(), k)
            },
            None => (Seq::empty(), k),
        }
    } else {
        (Seq::empty(), k)
    }
}

/// The identities at the start of `s`, and where they end.
pub open spec fn idents_list(s: Seq<char>) -> (Seq<(Seq<char>, Seq<char>)>, int) {
    match ident_at(s, skip_space(s, 0)) {
        Some((x, k)) => {
            let rest = more_idents_from(s, k);
            (seq![x] + rest.0, rest.1)
        },
        None => (Seq::empty(), 0),
    }
}

/// Where a list of identities ending at `k` ends, once an optional comma and
/// whitespace are passed.
pub open spec fn list_tail(s: Seq<char>, k: int) -> int {
    let a = skip_space(s, k);
    if 0 <= a < s.len() && s[a] == ',' {
        skip_space(s, a + 1)
    } else {
        skip_space(s, a)
    }
}

/// A list of identities: `BadIdentity` unless the grammar covers all of `s`,
/// else each name with its escapes resolved (or the first such error).
pub open spec fn read_spec(s: Seq<char>) -> Result<Seq<(Seq<char>, Seq<char>)>, Error> {
    let (xs, k) = idents_list(s);
    if list_tail(s, k) < s.len() {
        Err(Error::BadIdentity)
    } else {
        names_from(xs, 0)
    }
}

/// The identities from index `i` on, names unescaped, or the first error.
pub open spec fn names_from(xs: Seq<(Seq<char>, Seq<char>)>, i: int) -> Result<
    Seq<(Seq<char>, Seq<char>)>,
    Error,
>
    decreases xs.len() - i,
{
    if 0 <= i < xs.len() {
        match escapes_spec(trim(xs[i].0)) {
            Ok(n) => match names_from(xs, i + 1) {
                Ok(rest) => Ok(seq![(n, xs[i].1)] + rest),
                Err(e) => Err(e),
            },
            Err(e) => Err(e),
        }
    } else {
        Ok(Seq::empty())
    }
}

proof fn lemma_open_bounds(s: Seq<char>, i: int)
    requires
        0 <= i <= s.len(),
    ensures
        i <= open_from(s, i) <= s.len(),
        open_from(s, i) + 1 < s.len() ==> s[open_from(s, i)] == ' ' && s[open_from(s, i) + 1]
            == '<',
        open_from(s, i) + 1 >= s.len() ==> open_from(s, i) == s.len(),
    decreases s.len() - i,
{
    if i + 1 < s.len() && !(s[i] == ' ' && s[i + 1] == '<') {
        lemma_open_bounds(s, i + 1);
    }
}

fn skip_spaces_at(s: &[char], i: usize) -> (r: usize)
    requires
        i <= s@.len(),
    ensures
        r == skip_space(s@, i as int),
        i <= r <= s@.len(),
{
    let mut k = i;
    while k < s.len() && (s[k] == ' ' || s[k] == '\t' || s[k] == '\r' || s[k] == '\n')
        invariant
            i <= k <= s@.len(),
            skip_space(s@, i as int) == skip_space(s@, k as int),
        decreases s@.len() - k,
    {
        k = k + 1;
    }
    k
}

fn ident_of(s: &[char], i: usize) -> (r: Option<((Vec<char>, Vec<char>), usize)>)
    requires
        i <= s@.len(),
    ensures
        match (r, ident_at(s@, i as int)) {
            (Some((p, k)), Some((sp, sk))) => p.0@ == sp.0 && p.1@ == sp.1 && k == sk && k
                <= s@.len(),
            (None, None) => true,
            _ => false,
        },
{
    let mut j = i;
    proof {
        lemma_open_bounds(s@, i as int);
    }
    while j < s.len() && s.len() - j >= 2 && !(s[j] == ' ' && s[j + 1] == '<')
        invariant
            i <= j <= s@.len(),
            open_from(s@, i as int) == open_from(s@, j as int),
        decreases s@.len() - j,
    {
        j = j + 1;
    }
    if j < s.len() && s.len() - j >= 2 {
        let k = find_char_from(s, '>', j + 2);
        proof {
            lemma_find_bounds(s@, '>', j + 2);
        }
        if k < s.len() {
            Some(((slice_chars(s, i, j), slice_chars(s, j + 2, k)), k + 1))
        } else {
            None
        }
    } else {
        None
    }
}

spec fn pair_specs(v: Seq<(Vec<char>, Vec<char>)>) -> Seq<(Seq<char>, Seq<char>)> {
    Seq::new(v.len(), |i: int| (v[i].0@, v[i].1@))
}

fn idents_of(s: &[char]) -> (r: (Vec<(Vec<char>, Vec<char>)>, usize))
    ensures
        pair_specs(r.0@) == idents_list(s@).0,
        r.1 == idents_list(s@).1,
        r.1 <= s@.len(),
{
    let j0 = skip_spaces_at(s, 0);
    match ident_of(s, j0) {
        None => {
            let v: Vec<(Vec<char>, Vec<char>)> = Vec::new();
            assert(pair_specs(v@) =~= Seq::<(Seq<char>, Seq<char>)>::empty());
            (v, 0)
        },
        Some((x, k0)) => {
            let mut out: Vec<(Vec<char>, Vec<char>)> = Vec::new();
            let ghost x0 = (x.0@, x.1@);
            out.push(x);
            let mut k = k0;
            assert(pair_specs(out@) =~= seq![x0]);
            loop
                invariant
                    k0 <= k <= s@.len(),
                    ident_at(s@, skip_space(s@, 0)) == Some((x0, k0 as int)),
                    more_idents_from(s@, k0 as int).0 == pair_specs(out@).drop_first()
                        + more_idents_from(s@, k as int).0,
                    more_idents_from(s@, k0 as int).1 == more_idents_from(s@, k as int).1,
                    out@.len() >= 1,
                    pair_specs(out@)[0] == x0,
                ensures
                    k0 <= k <= s@.len(),
                    ident_at(s@, skip_space(s@, 0)) == Some((x0, k0 as int)),
                    more_idents_from(s@, k0 as int).0 == pair_specs(out@).drop_first(),
                    more_idents_from(s@, k0 as int).1 == k,
                    out@.len() >= 1,
                    pair_specs(out@)[0] == x0,
                decreases s@.len() - k,
            {
                let ghost before = pair_specs(out@);
                let a = skip_spaces_at(s, k);
                if a < s.len() && s[a] == ',' {
                    let b = skip_spaces_at(s, a + 1);
                    match ident_of(s, b) {
                        Some((y, e)) => {
                            if k < e && e <= s.len() {
                                let ghost ys = (y.0@, y.1@);
                                out.push(y);
                                proof {
                                    assert(pair_specs(out@) =~= before.push(ys));
                                    assert(pair_specs(out@).drop_first() =~= before.drop_first().push(
                                        ys,
                                    ));
                                    let rest = more_idents_from(s@, e as int);
                                    assert(before.drop_first() + (seq![ys] + rest.0)
                                        =~= before.drop_first().push(ys) + rest.0);
                                }
                                k = e;
                            } else {
                                assert(before.drop_first() + Seq::<(Seq<char>, Seq<char>)>::empty()
                                    =~= before.drop_first());
                                break ;
                            }
                        },
                        None => {
                            assert(before.drop_first() + Seq::<(Seq<char>, Seq<char>)>::empty()
                                =~= before.drop_first());
                            break ;
                        },
                    }
                } else {
                    assert(before.drop_first() + Seq::<(Seq<char>, Seq<char>)>::empty()
                        =~= before.drop_first());
                    break ;
                }
            }
            assert(pair_specs(out@) =~= seq![x0] + pair_specs(out@).drop_first());
            (out, k)
        },
    }
}

/// Read a list of identities.
pub fn read(from: &str) -> (r: Result<Vec<Identity>, Error>)
    ensures
        match r {
            Ok(v) => read_spec(from@) == Ok::<Seq<(Seq<char>, Seq<char>)>, Error>(
                identity_specs(v@),
            ),
            Err(e) => read_spec(from@) == Err::<Seq<(Seq<char>, Seq<char>)>, Error>(e),
        },
{
    let s = chars_of(from);
    let (xs, k) = idents_of(s.as_slice());
    let a = skip_spaces_at(s.as_slice(), k);
    let t = if a < s.len() && s[a] == ',' {
        skip_spaces_at(s.as_slice(), a + 1)
    } else {
        skip_spaces_at(s.as_slice(), a)
    };
    if t < s.len() {
        return Err(Error::BadIdentity);
    }
    let ghost all = pair_specs(xs@);
    let mut out: Vec<Identity> = Vec::new();
    let mut i: usize = 0;
    while i < xs.len()
        invariant
            i <= xs@.len(),
            all == pair_specs(xs@),
            all == idents_list(s@).0,
            list_tail(s@, idents_list(s@).1) >= s@.len(),
            s@ == from@,
            names_from(all, 0) == match names_from(all, i as int) {
                Ok(rest) => Ok(identity_specs(out@) + rest),
                Err(e) => Err(e),
            },
        decreases xs@.len() - i,
    {
        let raw = &xs[i].0;
        let tn = trim_chars(raw.as_slice());
        let ts = string_of(tn.as_slice());
        let ghost before = identity_specs(out@);
        let name = process_escapes(ts.as_str());
        match name {
            Ok(n) => {
                let id = Identity { name: n, email: string_of(xs[i].1.as_slice()) };
                let ghost ids = id.spec();
                out.push(id);
                proof {
                    assert(identity_specs(out@) =~= before.push(ids));
                    match names_from(all, i + 1) {
                        Ok(rest) => {
                            assert(before + (seq![ids] + rest) =~= before.push(ids) + rest);
                        },
                        Err(_) => {},
                    }
                }
            },
            Err(e) => {
                return Err(e);
            },
        }
        i = i + 1;
    }
    assert(identity_specs(out@) + Seq::<(Seq<char>, Seq<char>)>::empty() =~= identity_specs(
        out@,
    ));
    Ok(out)
}

} // verus!
