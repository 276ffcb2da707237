//! Character-level helpers shared by the parsers.
//!
//! Text is handled as sequences of `char`; the spec functions here state what
//! trimming, splitting on whitespace and splitting into lines mean.

use vstd::prelude::*;

use crate::error::Error;

verus! {

broadcast use vstd::string::group_string_axioms;

/// Unicode `White_Space`, the property that `char::is_whitespace` tests.
pub open spec fn is_ws(c: char) -> bool {
    let u = c as u32;
    ||| 0x09 <= u <= 0x0D
    ||| u == 0x20
    ||| u == 0x85
    ||| u == 0xA0
    ||| u == 0x1680
    ||| 0x2000 <= u <= 0x200A
    ||| u == 0x2028
    ||| u == 0x2029
    ||| u == 0x202F
    ||| u == 0x205F
    ||| u == 0x3000
}

/// ASCII letters and digits.
pub open spec fn is_ascii_alnum(c: char) -> bool {
    ||| 'a' <= c <= 'z'
    ||| 'A' <= c <= 'Z'
    ||| '0' <= c <= '9'
}

/// What `char::is_alphanumeric` answers: the Unicode `Alphabetic` or `Numeric` property.
pub uninterp spec fn unicode_alphanumeric(c: char) -> bool;

/// First index at or after `i` that holds no whitespace (or the length).
pub open spec fn skip_ws_from(s: Seq<char>, i: int) -> int
    decreases s.len() - i,
{
    if 0 <= i < s.len() && is_ws(s[i]) {
        skip_ws_from(s, i + 1)
    } else {
        i
    }
}

/// First index at or after `i` that holds whitespace (or the length).
pub open spec fn skip_word_from(s: Seq<char>, i: int) -> int
    decreases s.len() - i,
{
    if 0 <= i < s.len() && !is_ws(s[i]) {
        skip_word_from(s, i + 1)
    } else {
        i
    }
}

/// Walking back from `j`, the end of the text once trailing whitespace is dropped.
pub open spec fn trim_end_from(s: Seq<char>, j: int) -> int
    decreases j,
{
    if 0 < j <= s.len() && is_ws(s[j - 1]) {
        trim_end_from(s, j - 1)
    } else {
        j
    }
}

/// `s` without leading and trailing whitespace (what `str::trim` gives).
pub open spec fn trim(s: Seq<char>) -> Seq<char> {
    let a = skip_ws_from(s, 0);
    if a >= s.len() {
        Seq::empty()
    } else {
        s.subrange(a, trim_end_from(s, s.len() as int))
    }
}

/// The whitespace-separated words of `s` from index `i` on
/// (what `str::split_whitespace` yields).
pub open spec fn words_from(s: Seq<char>, i: int) -> Seq<Seq<char>>
    decreases s.len() - i,
{
    let a = skip_ws_from(s, i);
    if 0 <= i && i <= a < s.len() {
        let e = skip_word_from(s, a);
        if a < e <= s.len() {
            seq![s.subrange(a, e)] + words_from(s, e)
        } else {
            Seq::empty()
        }
    } else {
        Seq::empty()
    }
}

pub open spec fn words(s: Seq<char>) -> Seq<Seq<char>> {
    words_from(s, 0)
}

/// First index at or after `i` that holds `c` (or the length).
pub open spec fn find_from(s: Seq<char>, c: char, i: int) -> int
    decreases s.len() - i,
{
    if 0 <= i < s.len() && s[i] != c {
        find_from(s, c, i + 1)
    } else {
        i
    }
}

/// A line without its carriage return, if it had one.
pub open spec fn strip_cr(l: Seq<char>) -> Seq<char> {
    if l.len() > 0 && l.last() == '\r' {
        l.drop_last()
    } else {
        l
    }
}

/// The lines of `s` from index `i` on, as `str::lines` yields them: split at
/// `\n`, a `\r` before the `\n` dropped, and no empty line after a final `\n`.
pub open spec fn lines_from(s: Seq<char>, i: int) -> Seq<Seq<char>>
    decreases s.len() - i,
{
    if 0 <= i < s.len() {
        let j = find_from(s, '\n', i);
        if i <= j < s.len() {
            seq![strip_cr(s.subrange(i, j))] + lines_from(s, j + 1)
        } else {
            seq![s.subrange(i, s.len() as int)]
        }
    } else {
        Seq::empty()
    }
}

pub open spec fn lines(s: Seq<char>) -> Seq<Seq<char>> {
    lines_from(s, 0)
}

/// The character sequences held by a vector of texts.
pub open spec fn texts(v: Seq<Vec<char>>) -> Seq<Seq<char>> {
    Seq::new(v.len(), |i: int| v[i]@)
}

/// `parts` joined with `sep` between neighbours (what `[&str]::join` gives).
pub open spec fn join(parts: Seq<Seq<char>>, sep: Seq<char>) -> Seq<char>
    decreases parts.len(),
{
    if parts.len() == 0 {
        Seq::empty()
    } else if parts.len() == 1 {
        parts[0]
    } else {
        join(parts.drop_last(), sep) + sep + parts.last()
    }
}

pub proof fn lemma_skip_ws_bounds(s: Seq<char>, i: int)
    requires
        0 <= i <= s.len(),
    ensures
        i <= skip_ws_from(s, i) <= s.len(),
        skip_ws_from(s, i) < s.len() ==> !is_ws(s[skip_ws_from(s, i)]),
        forall|k: int| i <= k < skip_ws_from(s, i) ==> is_ws(#[trigger] s[k]),
    decreases s.len() - i,
{
    if i < s.len() && is_ws(s[i]) {
        lemma_skip_ws_bounds(s, i + 1);
    }
}

pub proof fn lemma_skip_word_bounds(s: Seq<char>, i: int)
    requires
        0 <= i <= s.len(),
    ensures
        i <= skip_word_from(s, i) <= s.len(),
        skip_word_from(s, i) < s.len() ==> is_ws(s[skip_word_from(s, i)]),
        forall|k: int| i <= k < skip_word_from(s, i) ==> !is_ws(#[trigger] s[k]),
    decreases s.len() - i,
{
    if i < s.len() && !is_ws(s[i]) {
        lemma_skip_word_bounds(s, i + 1);
    }
}

pub proof fn lemma_find_bounds(s: Seq<char>, c: char, i: int)
    requires
        0 <= i <= s.len(),
    ensures
        i <= find_from(s, c, i) <= s.len(),
        find_from(s, c, i) < s.len() ==> s[find_from(s, c, i)] == c,
        forall|k: int| i <= k < find_from(s, c, i) ==> #[trigger] s[k] != c,
    decreases s.len() - i,
{
    if i < s.len() && s[i] != c {
        lemma_find_bounds(s, c, i + 1);
    }
}

pub proof fn lemma_trim_end_bounds(s: Seq<char>, j: int, a: int)
    requires
        0 <= a < j <= s.len(),
        !is_ws(s[a]),
    ensures
        a < trim_end_from(s, j) <= j,
        !is_ws(s[trim_end_from(s, j) - 1]),
    decreases j,
{
    if is_ws(s[j - 1]) {
        lemma_trim_end_bounds(s, j - 1, a);
    }
}

/// Whether `c` is whitespace.
pub fn is_whitespace(c: char) -> (b: bool)
    ensures
        b == is_ws(c),
{
    let u = c as u32;
    (0x09 <= u && u <= 0x0D) || u == 0x20 || u == 0x85 || u == 0xA0 || u == 0x1680 || (0x2000
        <= u && u <= 0x200A) || u == 0x2028 || u == 0x2029 || u == 0x202F || u == 0x205F || u
        == 0x3000
}

/// `char::is_alphanumeric`: true for characters with the Unicode `Alphabetic`
/// or `Numeric` property. The contract names that answer and states it for
/// ASCII, where it is exactly the letters and digits.
#[verifier::external_body]
pub(crate) fn is_alphanumeric(c: char) -> (b: bool)
    ensures
        b == unicode_alphanumeric(c),
        (c as u32) < 0x80 ==> (b <==> is_ascii_alnum(c)),
{
    c.is_alphanumeric()
}

/// The characters of `s`, in order.
pub fn chars_of(s: &str) -> (v: Vec<char>)
    ensures
        v@ == s@,
{
    let mut v: Vec<char> = Vec::new();
    for c in it: s.chars()
        invariant
            it.seq() == s@,
            v@ == it.seq().take(it.index() as int),
    {
        v.push(c);
        assert(v@ == it.seq().take(it.index() + 1));
    }
    assert(v@ == s@);
    v
}

/// `String::from_iter` over the given characters.
#[verifier::external_body]
pub(crate) fn string_of(v: &[char]) -> (s: String)
    ensures
        s@ == v@,
{
    v.iter().collect()
}

/// The characters `s[from..to]`.
pub fn slice_chars(s: &[char], from: usize, to: usize) -> (r: Vec<char>)
    requires
        from <= to <= s@.len(),
    ensures
        r@ == s@.subrange(from as int, to as int),
{
    let mut r: Vec<char> = Vec::new();
    let mut k = from;
    while k < to
        invariant
            from <= k <= to <= s@.len(),
            r@ == s@.subrange(from as int, k as int),
        decreases to - k,
    {
        r.push(s[k]);
        k = k + 1;
    }
    r
}

/// Whether two character sequences are equal.
pub fn chars_eq(a: &[char], b: &[char]) -> (r: bool)
    ensures
        r == (a@ == b@),
{
    if a.len() != b.len() {
        return false;
    }
    let mut k: usize = 0;
    while k < a.len()
        invariant
            a@.len() == b@.len(),
            k <= a@.len(),
            forall|m: int| 0 <= m < k ==> a@[m] == b@[m],
        decreases a@.len() - k,
    {
        if a[k] != b[k] {
            return false;
        }
        k = k + 1;
    }
    assert(a@ =~= b@);
    true
}

/// Whether the characters `a` spell the string `b`.
pub fn chars_eq_str(a: &[char], b: &str) -> (r: bool)
    ensures
        r == (a@ == b@),
{
    let bv = chars_of(b);
    chars_eq(a, bv.as_slice())
}

/// The decimal digit for a value below ten.
pub open spec fn digit_char(d: nat) -> char {
    if d == 0 {
        '0'
    } else if d == 1 {
        '1'
    } else if d == 2 {
        '2'
    } else if d == 3 {
        '3'
    } else if d == 4 {
        '4'
    } else if d == 5 {
        '5'
    } else if d == 6 {
        '6'
    } else if d == 7 {
        '7'
    } else if d == 8 {
        '8'
    } else {
        '9'
    }
}

/// The decimal digits of a number.
pub open spec fn decimal(n: nat) -> Seq<char>
    decreases n,
{
    if n < 10 {
        seq![digit_char(n)]
    } else {
        decimal(n / 10).push(digit_char(n % 10))
    }
}

fn digit_of(d: u64) -> (r: char)
    requires
        d < 10,
    ensures
        r == digit_char(d as nat),
{
    if d == 0 {
        '0'
    } else if d == 1 {
        '1'
    } else if d == 2 {
        '2'
    } else if d == 3 {
        '3'
    } else if d == 4 {
        '4'
    } else if d == 5 {
        '5'
    } else if d == 6 {
        '6'
    } else if d == 7 {
        '7'
    } else if d == 8 {
        '8'
    } else {
        '9'
    }
}

/// The decimal digits of a number, as characters.
pub fn decimal_chars(n: u64) -> (r: Vec<char>)
    ensures
        r@ == decimal(n as nat),
    decreases n,
{
    if n < 10 {
        let d = digit_of(n);
        vec![d]
    } else {
        let mut v = decimal_chars(n / 10);
        let d = digit_of(n % 10);
        v.push(d);
        v
    }
}

/// Two strings, one after the other.
pub fn concat2(a: &str, b: &str) -> (r: String)
    ensures
        r@ == a@ + b@,
{
    let mut v = chars_of(a);
    let bv = chars_of(b);
    let mut k: usize = 0;
    let ghost a0 = v@;
    while k < bv.len()
        invariant
            k <= bv@.len(),
            v@ == a0 + bv@.take(k as int),
        decreases bv@.len() - k,
    {
        v.push(bv[k]);
        assert(bv@.take(k + 1) =~= bv@.take(k as int).push(bv@[k as int]));
        k = k + 1;
    }
    assert(bv@.take(bv@.len() as int) =~= bv@);
    assert(a0 == a@);
    string_of(v.as_slice())
}

proof fn lemma_decimal_digits(n: nat)
    ensures
        all_digits(decimal(n)),
        digits_value(decimal(n)) == n,
        decimal(n).len() > 0,
        decimal(n)[0] != '+',
    decreases n,
{
    let c = digit_char(n % 10);
    assert(is_digit(c) && c as int - '0' as int == n % 10);
    if n < 10 {
        vstd::arithmetic::div_mod::lemma_small_mod(n, 10);
        let d = decimal(n);
        assert(d.drop_last() =~= Seq::<char>::empty());
        assert(d.last() == digit_char(n));
        assert(n % 10 == n);
        assert(c == d.last());
        assert(digits_value(d.drop_last()) == 0);
        assert(digits_value(d) == digits_value(d.drop_last()) * 10 + (d.last() as int - '0' as int));
        assert(digits_value(d) == n);
    }
    if n >= 10 {
        lemma_decimal_digits(n / 10);
        let d = decimal(n);
        assert(d.drop_last() =~= decimal(n / 10));
        vstd::arithmetic::div_mod::lemma_fundamental_div_mod(n as int, 10);
        assert(d.last() == c);
        assert(digits_value(d) == digits_value(decimal(n / 10)) * 10 + (c as int - '0' as int));
        assert(digits_value(decimal(n / 10)) == n / 10);
        assert(n == 10 * (n / 10) + n % 10);
        assert(digits_value(d) == n);
        assert(d[0] == decimal(n / 10)[0]);
        assert forall|i: int| 0 <= i < d.len() implies #[trigger] is_digit(d[i]) by {
            if i < d.len() - 1 {
                assert(d[i] == decimal(n / 10)[i]);
            }
        }
    }
}

/// What `decimal_chars` writes, `parse_u64` reads back.
pub proof fn law_decimal_round_trip(n: u64)
    ensures
        u64_text(decimal(n as nat)) == Some(n),
{
    lemma_decimal_digits(n as nat);
    assert(sign_stripped(decimal(n as nat)) == decimal(n as nat));
}

/// Whether two strings are equal.
pub fn str_eq(a: &str, b: &str) -> (r: bool)
    ensures
        r == (a@ == b@),
{
    let av = chars_of(a);
    chars_eq_str(av.as_slice(), b)
}

/// Whether `s` starts with `c`.
pub fn starts_with_char(s: &[char], c: char) -> (r: bool)
    ensures
        r == (s@.len() > 0 && s@[0] == c),
{
    s.len() > 0 && s[0] == c
}

/// Whether `s` ends with `c`.
pub fn ends_with_char(s: &[char], c: char) -> (r: bool)
    ensures
        r == (s@.len() > 0 && s@.last() == c),
{
    s.len() > 0 && s[s.len() - 1] == c
}

/// Whether `s` starts with `prefix`.
pub fn starts_with(s: &[char], prefix: &[char]) -> (r: bool)
    ensures
        r == (prefix@.len() <= s@.len() && s@.subrange(0, prefix@.len() as int) == prefix@),
{
    if prefix.len() > s.len() {
        return false;
    }
    let mut k: usize = 0;
    while k < prefix.len()
        invariant
            prefix@.len() <= s@.len(),
            k <= prefix@.len(),
            forall|m: int| 0 <= m < k ==> s@[m] == prefix@[m],
        decreases prefix@.len() - k,
    {
        if s[k] != prefix[k] {
            assert(s@.subrange(0, prefix@.len() as int)[k as int] != prefix@[k as int]);
            return false;
        }
        k = k + 1;
    }
    assert(s@.subrange(0, prefix@.len() as int) =~= prefix@);
    true
}

/// Whether `s` ends with `suffix`.
pub fn ends_with(s: &[char], suffix: &[char]) -> (r: bool)
    ensures
        r == (suffix@.len() <= s@.len() && s@.subrange(
            s@.len() - suffix@.len(),
            s@.len() as int,
        ) == suffix@),
{
    if suffix.len() > s.len() {
        return false;
    }
    let n = s.len();
    let off = n - suffix.len();
    let mut k: usize = 0;
    while k < suffix.len()
        invariant
            n == s@.len(),
            suffix@.len() <= s@.len(),
            off == s@.len() - suffix@.len(),
            k <= suffix@.len(),
            forall|m: int| 0 <= m < k ==> s@[off + m] == suffix@[m],
        decreases suffix@.len() - k,
    {
        assert(off + k < s@.len());
        if s[off + k] != suffix[k] {
            assert(s@.subrange(off as int, s@.len() as int)[k as int] != suffix@[k as int]);
            return false;
        }
        k = k + 1;
    }
    assert(s@.subrange(off as int, s@.len() as int) =~= suffix@);
    true
}

/// Index of the first `c` in `s` at or after `from`, or the length.
pub fn find_char_from(s: &[char], c: char, from: usize) -> (r: usize)
    requires
        from <= s@.len(),
    ensures
        r == find_from(s@, c, from as int),
{
    let mut k = from;
    while k < s.len() && s[k] != c
        invariant
            from <= k <= s@.len(),
            find_from(s@, c, from as int) == find_from(s@, c, k as int),
        decreases s@.len() - k,
    {
        k = k + 1;
    }
    k
}

/// Index of the first whitespace-free character at or after `from`.
pub fn skip_ws(s: &[char], from: usize) -> (r: usize)
    requires
        from <= s@.len(),
    ensures
        r == skip_ws_from(s@, from as int),
{
    let mut k = from;
    while k < s.len() && is_whitespace(s[k])
        invariant
            from <= k <= s@.len(),
            skip_ws_from(s@, from as int) == skip_ws_from(s@, k as int),
        decreases s@.len() - k,
    {
        k = k + 1;
    }
    k
}

/// Index of the first whitespace character at or after `from`.
pub fn skip_word(s: &[char], from: usize) -> (r: usize)
    requires
        from <= s@.len(),
    ensures
        r == skip_word_from(s@, from as int),
{
    let mut k = from;
    while k < s.len() && !is_whitespace(s[k])
        invariant
            from <= k <= s@.len(),
            skip_word_from(s@, from as int) == skip_word_from(s@, k as int),
        decreases s@.len() - k,
    {
        k = k + 1;
    }
    k
}

/// `s` without leading and trailing whitespace.
pub fn trim_chars(s: &[char]) -> (r: Vec<char>)
    ensures
        r@ == trim(s@),
{
    let a = skip_ws(s, 0);
    if a >= s.len() {
        return Vec::new();
    }
    proof {
        lemma_skip_ws_bounds(s@, 0);
        lemma_trim_end_bounds(s@, s@.len() as int, a as int);
    }
    let mut e = s.len();
    while e > 0 && is_whitespace(s[e - 1])
        invariant
            e <= s@.len(),
            trim_end_from(s@, s@.len() as int) == trim_end_from(s@, e as int),
        decreases e,
    {
        e = e - 1;
    }
    slice_chars(s, a, e)
}

/// The whitespace-separated words of `s`.
pub fn split_ws(s: &[char]) -> (r: Vec<Vec<char>>)
    ensures
        texts(r@) == words(s@),
{
    let mut r: Vec<Vec<char>> = Vec::new();
    let mut i: usize = 0;
    while i < s.len()
        invariant
            i <= s@.len(),
            words(s@) == texts(r@) + words_from(s@, i as int),
        decreases s@.len() - i,
    {
        let a = skip_ws(s, i);
        proof {
            lemma_skip_ws_bounds(s@, i as int);
        }
        if a >= s.len() {
            assert(words_from(s@, i as int) == Seq::<Seq<char>>::empty());
            i = a;
        } else {
            let e = skip_word(s, a);
            proof {
                lemma_skip_word_bounds(s@, a as int);
            }
            let w = slice_chars(s, a, e);
            let ghost old_dv = texts(r@);
            r.push(w);
            assert(texts(r@) =~= old_dv.push(w@));
            assert(words_from(s@, i as int) == seq![s@.subrange(a as int, e as int)]
                + words_from(s@, e as int));
            assert(words(s@) =~= texts(r@) + words_from(s@, e as int));
            i = e;
        }
    }
    assert(words_from(s@, i as int) == Seq::<Seq<char>>::empty());
    assert(words(s@) =~= texts(r@));
    r
}

/// The lines of `s`.
pub fn split_lines(s: &[char]) -> (r: Vec<Vec<char>>)
    ensures
        texts(r@) == lines(s@),
{
    let mut r: Vec<Vec<char>> = Vec::new();
    let mut i: usize = 0;
    while i < s.len()
        invariant
            i <= s@.len(),
            lines(s@) == texts(r@) + lines_from(s@, i as int),
        decreases s@.len() - i,
    {
        let j = find_char_from(s, '\n', i);
        proof {
            lemma_find_bounds(s@, '\n', i as int);
        }
        let ghost old_dv = texts(r@);
        if j < s.len() {
            let mut e = j;
            if e > i && s[e - 1] == '\r' {
                e = e - 1;
            }
            let l = slice_chars(s, i, e);
            assert(l@ == strip_cr(s@.subrange(i as int, j as int)));
            r.push(l);
            assert(texts(r@) =~= old_dv.push(l@));
            assert(lines(s@) =~= texts(r@) + lines_from(s@, j + 1));
            i = j + 1;
        } else {
            let l = slice_chars(s, i, s.len());
            r.push(l);
            assert(texts(r@) =~= old_dv.push(l@));
            assert(lines_from(s@, s@.len() as int) == Seq::<Seq<char>>::empty());
            assert(lines(s@) =~= texts(r@) + lines_from(s@, s@.len() as int));
            i = s.len();
        }
    }
    assert(lines_from(s@, i as int) == Seq::<Seq<char>>::empty());
    assert(lines(s@) =~= texts(r@));
    r
}

/// `parts` joined with `sep` between neighbours.
pub fn join_chars(parts: &[Vec<char>], sep: &[char]) -> (r: Vec<char>)
    ensures
        r@ == join(texts(parts@), sep@),
{
    let mut r: Vec<char> = Vec::new();
    let mut k: usize = 0;
    while k < parts.len()
        invariant
            k <= parts@.len(),
            r@ == join(texts(parts@).take(k as int), sep@),
        decreases parts@.len() - k,
    {
        let ghost before = texts(parts@).take(k as int);
        if k > 0 {
            let mut m: usize = 0;
            let ghost r0 = r@;
            while m < sep.len()
                invariant
                    m <= sep@.len(),
                    r@ == r0 + sep@.subrange(0, m as int),
                decreases sep@.len() - m,
            {
                r.push(sep[m]);
                m = m + 1;
            }
        }
        let p = &parts[k];
        let mut m: usize = 0;
        let ghost r1 = r@;
        while m < p.len()
            invariant
                m <= p@.len(),
                r@ == r1 + p@.subrange(0, m as int),
            decreases p@.len() - m,
        {
            r.push(p[m]);
            m = m + 1;
        }
        proof {
            let after = texts(parts@).take(k + 1);
            assert(after.drop_last() =~= before);
            assert(after.last() =~= p@);
            assert(p@.subrange(0, p@.len() as int) =~= p@);
            assert(sep@.subrange(0, sep@.len() as int) =~= sep@);
            if k == 0 {
                assert(r@ =~= join(after, sep@));
            } else {
                assert(r@ =~= join(after, sep@));
            }
        }
        k = k + 1;
    }
    assert(texts(parts@).take(parts@.len() as int) =~= texts(parts@));
    r
}

/// `String::from_utf8`: the text that the bytes encode, or an error when they
/// are not UTF-8.
#[verifier::external_body]
pub(crate) fn utf8_string(bytes: Vec<u8>) -> (r: Result<String, Error>)
    ensures
        r is Ok <==> vstd::utf8::valid_utf8(bytes@),
        r matches Ok(s) ==> s@ == vstd::utf8::decode_utf8(bytes@),
        r matches Err(e) ==> e == Error::InvalidUtf8,
{
    match String::from_utf8(bytes) {
        Ok(s) => Ok(s),
        Err(_) => Err(Error::InvalidUtf8),
    }
}


/// An ASCII decimal digit.
pub open spec fn is_digit(c: char) -> bool {
    '0' <= c <= '9'
}

/// The value of a run of decimal digits.
pub open spec fn digits_value(s: Seq<char>) -> int
    decreases s.len(),
{
    if s.len() == 0 {
        0
    } else {
        digits_value(s.drop_last()) * 10 + (s.last() as int - '0' as int)
    }
}

/// Text without a leading `+` (when more follows it).
pub open spec fn sign_stripped(s: Seq<char>) -> Seq<char> {
    if s.len() > 1 && s[0] == '+' {
        s.drop_first()
    } else {
        s
    }
}

/// Only decimal digits.
pub open spec fn all_digits(d: Seq<char>) -> bool {
    forall|i: int| 0 <= i < d.len() ==> #[trigger] is_digit(d[i])
}

/// The number `u64::from_str` reads: an optional `+`, then decimal digits,
/// at most `u64::MAX`.
pub open spec fn u64_text(s: Seq<char>) -> Option<u64> {
    let d = sign_stripped(s);
    if d.len() > 0 && all_digits(d) && digits_value(d) <= u64::MAX {
        Some(digits_value(d) as u64)
    } else {
        None
    }
}

proof fn lemma_digits_nonneg(s: Seq<char>)
    requires
        forall|i: int| 0 <= i < s.len() ==> #[trigger] is_digit(s[i]),
    ensures
        digits_value(s) >= 0,
    decreases s.len(),
{
    if s.len() > 0 {
        let p = s.drop_last();
        assert forall|i: int| 0 <= i < p.len() implies #[trigger] is_digit(p[i]) by {
            assert(p[i] == s[i]);
        }
        lemma_digits_nonneg(p);
        assert(is_digit(s[s.len() - 1]));
    }
}

proof fn lemma_digits_grow(s: Seq<char>, k: int)
    requires
        0 <= k <= s.len(),
        forall|i: int| 0 <= i < s.len() ==> #[trigger] is_digit(s[i]),
    ensures
        digits_value(s.take(k)) <= digits_value(s),
    decreases s.len() - k,
{
    if k < s.len() {
        lemma_digits_grow(s, k + 1);
        let t = s.take(k + 1);
        assert(t.drop_last() =~= s.take(k));
        let p = s.take(k);
        assert forall|i: int| 0 <= i < p.len() implies #[trigger] is_digit(p[i]) by {
            assert(p[i] == s[i]);
        }
        lemma_digits_nonneg(p);
        assert(is_digit(s[k]));
        assert(t.last() == s[k]);
    } else {
        assert(s.take(k) =~= s);
    }
}

/// Read a decimal number as `u64::from_str` does.
pub fn parse_u64(s: &[char]) -> (r: Result<u64, Error>)
    ensures
        match r {
            Ok(v) => u64_text(s@) == Some(v),
            Err(e) => u64_text(s@) is None && e == Error::BadNumber,
        },
{
    let start: usize = if s.len() > 1 && s[0] == '+' {
        1
    } else {
        0
    };
    let ghost d = sign_stripped(s@);
    assert(d =~= s@.subrange(start as int, s@.len() as int));
    if start >= s.len() {
        return Err(Error::BadNumber);
    }
    let mut v: u64 = 0;
    let mut k = start;
    while k < s.len()
        invariant
            start <= k <= s@.len(),
            d == sign_stripped(s@),
            d =~= s@.subrange(start as int, s@.len() as int),
            forall|i: int| 0 <= i < k - start ==> #[trigger] is_digit(d[i]),
            v == digits_value(d.take(k - start)),
        decreases s@.len() - k,
    {
        let c = s[k];
        if !('0' <= c && c <= '9') {
            assert(!is_digit(d[k - start]));
            assert(!all_digits(d));
            return Err(Error::BadNumber);
        }
        let dig = (c as u32 - '0' as u32) as u64;
        let ghost t = d.take(k - start + 1);
        assert(t.drop_last() =~= d.take(k - start));
        assert(t.last() == c);
        assert(digits_value(t) == v * 10 + dig);
        match v.checked_mul(10) {
            None => {
                proof {
                    assert forall|i: int| 0 <= i < t.len() implies #[trigger] is_digit(t[i]) by {}
                    lemma_digits_nonneg(d.take(k - start));
                    if all_digits(d) {
                        lemma_digits_grow(d, k - start + 1);
                    }
                }
                return Err(Error::BadNumber);
            },
            Some(m) => match m.checked_add(dig) {
                None => {
                    proof {
                        if all_digits(d) {
                            lemma_digits_grow(d, k - start + 1);
                        }
                    }
                    return Err(Error::BadNumber);
                },
                Some(n) => {
                    v = n;
                },
            },
        }
        k = k + 1;
    }
    assert(d.take(k - start) =~= d);
    Ok(v)
}

} // verus!
