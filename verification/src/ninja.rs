//! Build rules (ninja syntax) for processing each package of a listing.

use vstd::prelude::*;

use crate::error::Error;
use crate::rfc822::{one_line_req_spec, FieldMap, FieldsSpec};
use crate::text::{chars_of, decimal, decimal_chars, ends_with, split_ws, string_of, texts, u64_text, words, parse_u64};

verus! {

/// Texts one after another.
pub open spec fn cat(parts: Seq<Seq<char>>) -> Seq<char>
    decreases parts.len(),
{
    if parts.len() == 0 {
        Seq::empty()
    } else {
        cat(parts.drop_last()) + parts.last()
    }
}

pub open spec fn str_views(v: Seq<&str>) -> Seq<Seq<char>> {
    Seq::new(v.len(), |i: int| v[i]@)
}

/// Strings one after another.
fn cat_all(parts: &Vec<&str>) -> (r: String)
    ensures
        r@ == cat(str_views(parts@)),
{
    let ghost ps = str_views(parts@);
    let mut out: Vec<char> = Vec::new();
    let mut k: usize = 0;
    assert(ps.take(0) =~= Seq::<Seq<char>>::empty());
    while k < parts.len()
        invariant
            k <= parts@.len(),
            ps == str_views(parts@),
            out@ == cat(ps.take(k as int)),
        decreases parts@.len() - k,
    {
        let cs = chars_of(parts[k]);
        crate::checksum::append_chars(&mut out, &cs);
        assert(ps.take(k + 1).drop_last() =~= ps.take(k as int));
        k = k + 1;
    }
    assert(ps.take(parts@.len() as int) =~= ps);
    string_of(out.as_slice())
}

/// The directory a name is filed under: `libx` for `libx...`, else its first
/// letter.
pub open spec fn subdir_spec(name: Seq<char>) -> Seq<char> {
    if name.len() >= 3 && name.take(3) == "lib"@ {
        name.take(4)
    } else {
        name.take(1)
    }
}

/// The names `subdir` can cut: the cut falls after ASCII characters.
pub open spec fn subdir_ok(name: Seq<char>) -> bool {
    if name.len() >= 3 && name.take(3) == "lib"@ {
        name.len() >= 4 && (name[3] as u32) < 128
    } else {
        name.len() >= 1 && (name[0] as u32) < 128
    }
}

/// The directory a name is filed under.
pub fn subdir(name: &str) -> (r: String)
    requires
        subdir_ok(name@),
    ensures
        r@ == subdir_spec(name@),
{
    let cs = chars_of(name);
    let lib = chars_of("lib");
    let n: usize = if crate::text::starts_with(cs.as_slice(), lib.as_slice()) {
        4
    } else {
        1
    };
    proof {
        reveal_strlit("lib");
        assert(lib@ == "lib"@);
        if cs@.len() >= 3 && cs@.take(3) == "lib"@ {
            assert(cs@.subrange(0, 3) =~= cs@.take(3));
        }
    }
    let v = crate::text::slice_chars(cs.as_slice(), 0, n);
    assert(v@ =~= cs@.take(n as int));
    string_of(v.as_slice())
}

/// A version with each `:` escaped as `$:`.
pub open spec fn escape_colons(s: Seq<char>) -> Seq<char>
    decreases s.len(),
{
    if s.len() == 0 {
        Seq::empty()
    } else if s.last() == ':' {
        escape_colons(s.drop_last()) + seq!['$', ':']
    } else {
        escape_colons(s.drop_last()).push(s.last())
    }
}

fn escape_colons_of(s: &[char]) -> (r: String)
    ensures
        r@ == escape_colons(s@),
{
    let mut out: Vec<char> = Vec::new();
    let mut k: usize = 0;
    while k < s.len()
        invariant
            k <= s@.len(),
            out@ == escape_colons(s@.take(k as int)),
        decreases s@.len() - k,
    {
        assert(s@.take(k + 1).drop_last() =~= s@.take(k as int));
        if s[k] == ':' {
            out.push('$');
            out.push(':');
            assert(out@ =~= escape_colons(s@.take(k as int)) + seq!['$', ':']);
        } else {
            out.push(s[k]);
        }
        k = k + 1;
    }
    assert(s@.take(s@.len() as int) =~= s@);
    string_of(out.as_slice())
}

/// The pool line for a size: big above 100 MiB, massive above 250 MiB.
pub open spec fn pool_line(size: int) -> Seq<char> {
    if size > 250 * 1024 * 1024 {
        "  pool = massive\n"@
    } else if size > 100 * 1024 * 1024 {
        "  pool = big\n"@
    } else {
        ""@
    }
}

fn pool_of(size: u64) -> (r: &'static str)
    ensures
        r@ == pool_line(size as int),
{
    if size > 250 * 1024 * 1024 {
        "  pool = massive\n"
    } else if size > 100 * 1024 * 1024 {
        "  pool = big\n"
    } else {
        ""
    }
}

/// The first `.dsc` line of `Files:`.
pub open spec fn first_dsc(lines: Seq<Seq<char>>) -> Option<Seq<char>>
    decreases lines.len(),
{
    if lines.len() == 0 {
        None
    } else if lines[0].len() >= 4 && lines[0].subrange(lines[0].len() - 4, lines[0].len() as int) == ".dsc"@ {
        Some(lines[0])
    } else {
        first_dsc(lines.drop_first())
    }
}

/// The total size of the files of `Files:` lines.
pub open spec fn files_size(lines: Seq<Seq<char>>) -> int
    decreases lines.len(),
{
    if lines.len() == 0 {
        0
    } else {
        files_size(lines.drop_last()) + u64_text(words(lines.last())[1])->0
    }
}

/// Every `Files:` line has a size as its second word, and the sizes add up
/// to a `u64`.
pub open spec fn sizes_ok(lines: Seq<Seq<char>>) -> bool {
    &&& forall|i: int| 0 <= i < lines.len() ==> words(#[trigger] lines[i]).len() >= 2 && u64_text(words(lines[i])[1]) is Some
    &&& files_size(lines) <= u64::MAX
}

/// The rule for a source paragraph.
pub open spec fn source_rule(pkg: Seq<char>, version: Seq<char>, dir: Seq<char>, dsc: Seq<char>, size: int) -> Seq<char> {
    let v = escape_colons(version);
    let prefix = subdir_spec(pkg) + "/"@ + pkg + "_"@ + v;
    cat(seq![
        "build $dest/"@, prefix, "$suffix: process-source | $script\n"@,
        "  description = PS "@, pkg, " "@, v, "\n"@,
        "  pkg = "@, pkg, "\n"@,
        "  version = "@, v, "\n"@,
        "  url = $mirror/"@, dir, "/"@, dsc, "\n"@,
        "  prefix = "@, prefix, "\n"@,
        "  size = "@, decimal(size as nat), "\n"@,
        pool_line(size)
    ])
}

/// The rule for a source paragraph, or why there is none.
pub open spec fn source_rule_spec(m: FieldsSpec) -> Result<Seq<char>, Error> {
    match one_line_req_spec(m.get("Package"@)) {
        Err(e) => Err(e),
        Ok(pkg) => match one_line_req_spec(m.get("Version"@)) {
            Err(e) => Err(e),
            Ok(version) => match one_line_req_spec(m.get("Directory"@)) {
                Err(e) => Err(e),
                Ok(dir) => match m.get("Files"@) {
                    None => Err(Error::MissingField),
                    Some(files) => match first_dsc(files) {
                        None => Err(Error::MissingDsc),
                        Some(line) => if words(line).len() < 3 {
                            Err(Error::BadFilesLine)
                        } else {
                            Ok(source_rule(pkg, version, dir, words(line)[2], files_size(files)))
                        },
                    },
                },
            },
        },
    }
}

/// A `.dsc` line with at least three words is among the lines.
pub open spec fn dsc_line_complete(files: Seq<Seq<char>>) -> bool {
    match first_dsc(files) {
        Some(line) => words(line).len() >= 3,
        None => false,
    }
}

/// The inputs on which the rule can be written: once the fields and the
/// `.dsc` line have been found, the sizes of `Files:` can be read and added,
/// and the package name can be cut.
pub open spec fn source_rule_ok(m: FieldsSpec) -> bool {
    match (one_line_req_spec(m.get("Package"@)), m.get("Files"@)) {
        (Ok(pkg), Some(files)) => (one_line_req_spec(m.get("Version"@)) is Ok
            && one_line_req_spec(m.get("Directory"@)) is Ok
            && dsc_line_complete(files))
            ==> sizes_ok(files) && subdir_ok(pkg),
        _ => true,
    }
}

fn first_dsc_of(lines: &Vec<Vec<char>>) -> (r: Option<usize>)
    ensures
        match r {
            Some(i) => i < lines@.len() && first_dsc(texts(lines@)) == Some(lines@[i as int]@),
            None => first_dsc(texts(lines@)) is None,
        },
{
    let dsc = chars_of(".dsc");
    proof {
        reveal_strlit(".dsc");
    }
    assert(texts(lines@).skip(0) =~= texts(lines@));
    let mut k: usize = 0;
    while k < lines.len()
        invariant
            k <= lines@.len(),
            dsc@ == ".dsc"@,
            first_dsc(texts(lines@)) == first_dsc(texts(lines@).skip(k as int)),
        decreases lines@.len() - k,
    {
        let ghost rest = texts(lines@).skip(k as int);
        assert(rest[0] == lines@[k as int]@);
        assert(rest.drop_first() =~= texts(lines@).skip(k + 1));
        proof {
            reveal_strlit(".dsc");
        }
        if crate::text::ends_with(lines[k].as_slice(), dsc.as_slice()) {
            return Some(k);
        }
        k = k + 1;
    }
    assert(texts(lines@).skip(k as int) =~= Seq::<Seq<char>>::empty());
    assert(texts(lines@).skip(0) =~= texts(lines@));
    None
}

fn files_size_of(lines: &Vec<Vec<char>>) -> (r: u64)
    requires
        sizes_ok(texts(lines@)),
    ensures
        r == files_size(texts(lines@)),
{
    let ghost t = texts(lines@);
    let mut total: u64 = 0;
    let mut k: usize = 0;
    assert(t.take(0) =~= Seq::<Seq<char>>::empty());
    while k < lines.len()
        invariant
            k <= lines@.len(),
            t == texts(lines@),
            sizes_ok(t),
            total == files_size(t.take(k as int)),
        decreases lines@.len() - k,
    {
        let ws = split_ws(lines[k].as_slice());
        assert(t[k as int] == lines@[k as int]@);
        assert(texts(ws@)[1] == ws@[1]@);
        let n = parse_u64(ws[1].as_slice()).unwrap();
        assert(t.take(k + 1).drop_last() =~= t.take(k as int));
        proof {
            lemma_files_size_grows(t, k as int + 1);
        }
        total = total + n;
        k = k + 1;
    }
    assert(t.take(lines@.len() as int) =~= t);
    total
}

/// The sizes of a prefix add up to no more than those of all lines.
proof fn lemma_files_size_grows(t: Seq<Seq<char>>, k: int)
    requires
        0 <= k <= t.len(),
        forall|i: int| 0 <= i < t.len() ==> words(#[trigger] t[i]).len() >= 2 && u64_text(words(t[i])[1]) is Some,
    ensures
        files_size(t.take(k)) <= files_size(t),
    decreases t.len() - k,
{
    if k < t.len() {
        lemma_files_size_grows(t, k + 1);
        assert(t.take(k + 1).drop_last() =~= t.take(k));
        assert(t.take(k + 1).last() == t[k]);
    } else {
        assert(t.take(k) =~= t);
    }
}

/// The build rule for a source paragraph.
pub fn ninja_source(map: &FieldMap) -> (r: Result<String, Error>)
    requires
        map.wf(),
        source_rule_ok(map.map()),
    ensures
        match r {
            Ok(s) => source_rule_spec(map.map()) == Ok::<Seq<char>, Error>(s@),
            Err(e) => source_rule_spec(map.map()) == Err::<Seq<char>, Error>(e),
        },
{
    let pkg = map.get_value("Package").one_line_req()?;
    let version = map.get_value("Version").one_line_req()?;
    let dir = map.get_value("Directory").one_line_req()?;
    let files = match map.get("Files") {
        Some(f) => f,
        None => {
            return Err(Error::MissingField);
        },
    };
    let i = match first_dsc_of(files) {
        Some(i) => i,
        None => {
            return Err(Error::MissingDsc);
        },
    };
    let ws = split_ws(files[i].as_slice());
    if ws.len() < 3 {
        return Err(Error::BadFilesLine);
    }
    assert(texts(ws@)[2] == ws@[2]@);
    let size = files_size_of(files);
    let pkg = string_of(pkg.as_slice());
    let v = escape_colons_of(version.as_slice());
    let dir = string_of(dir.as_slice());
    let dsc = string_of(ws[2].as_slice());
    let sub = subdir(pkg.as_str());
    let prefix_parts: Vec<&str> = vec![sub.as_str(), "/", pkg.as_str(), "_", v.as_str()];
    let prefix = cat_all(&prefix_parts);
    let size_text = string_of(decimal_chars(size).as_slice());
    let parts: Vec<&str> = vec![
        "build $dest/", prefix.as_str(), "$suffix: process-source | $script\n",
        "  description = PS ", pkg.as_str(), " ", v.as_str(), "\n",
        "  pkg = ", pkg.as_str(), "\n",
        "  version = ", v.as_str(), "\n",
        "  url = $mirror/", dir.as_str(), "/", dsc.as_str(), "\n",
        "  prefix = ", prefix.as_str(), "\n",
        "  size = ", size_text.as_str(), "\n",
        pool_of(size),
    ];
    let out = cat_all(&parts);
    proof {
        let pv = str_views(prefix_parts@);
        assert(pv =~= seq![sub@, "/"@, pkg@, "_"@, v@]);
        assert(cat(pv) =~= sub@ + "/"@ + pkg@ + "_"@ + v@) by {
            reveal_with_fuel(cat, 6);
        }
        let pw = str_views(parts@);
        let want = seq![
            "build $dest/"@, prefix@, "$suffix: process-source | $script\n"@,
            "  description = PS "@, pkg@, " "@, v@, "\n"@,
            "  pkg = "@, pkg@, "\n"@,
            "  version = "@, v@, "\n"@,
            "  url = $mirror/"@, dir@, "/"@, dsc@, "\n"@,
            "  prefix = "@, prefix@, "\n"@,
            "  size = "@, size_text@, "\n"@,
            pool_line(size as int)
        ];
        assert(pw =~= want);
    }
    Ok(out)
}

/// The rule for a binary paragraph.
pub open spec fn binary_rule(pkg: Seq<char>, source: Seq<char>, arch: Seq<char>, version: Seq<char>, filename: Seq<char>, size: int) -> Seq<char> {
    let v = escape_colons(version);
    let prefix = subdir_spec(source) + "/"@ + source + "/"@ + pkg + "_"@ + v + "_"@ + arch;
    cat(seq![
        "build $dest/"@, prefix, "$suffix: process-binary | $script\n"@,
        "  description = PB "@, source, " "@, pkg, " "@, v, " "@, arch, "\n"@,
        "  source = "@, source, "\n"@,
        "  pkg = "@, pkg, "\n"@,
        "  version = "@, v, "\n"@,
        "  arch = "@, arch, "\n"@,
        "  url = $mirror/"@, filename, "\n"@,
        "  prefix = "@, prefix, "\n"@,
        pool_line(size)
    ])
}

/// The rule for a binary paragraph (the source package is the first word
/// of `Source:`), or why there is none.
pub open spec fn binary_rule_spec(m: FieldsSpec) -> Result<Seq<char>, Error> {
    match one_line_req_spec(m.get("Package"@)) {
        Err(e) => Err(e),
        Ok(pkg) => match one_line_req_spec(m.get("Source"@)) {
            Err(e) => Err(e),
            Ok(src) => match one_line_req_spec(m.get("Architecture"@)) {
                Err(e) => Err(e),
                Ok(arch) => match one_line_req_spec(m.get("Version"@)) {
                    Err(e) => Err(e),
                    Ok(version) => match one_line_req_spec(m.get("Filename"@)) {
                        Err(e) => Err(e),
                        Ok(filename) => match one_line_req_spec(m.get("Size"@)) {
                            Err(e) => Err(e),
                            Ok(sz) => match u64_text(sz) {
                                None => Err(Error::BadNumber),
                                Some(size) => Ok(binary_rule(pkg, words(src)[0], arch, version, filename, size as int)),
                            },
                        },
                    },
                },
            },
        },
    }
}

/// `Size:` is a single line holding a number.
pub open spec fn size_readable(m: FieldsSpec) -> bool {
    match one_line_req_spec(m.get("Size"@)) {
        Ok(sz) => u64_text(sz) is Some,
        Err(_) => false,
    }
}

/// The inputs on which the rule can be written: once `Package:` and
/// `Source:` are read, `Source:` holds a word; once all fields are read,
/// the source name can be cut.
pub open spec fn binary_rule_ok(m: FieldsSpec) -> bool {
    match (one_line_req_spec(m.get("Package"@)), one_line_req_spec(m.get("Source"@))) {
        (Ok(_), Ok(src)) => {
            &&& words(src).len() >= 1
            &&& (one_line_req_spec(m.get("Architecture"@)) is Ok
                && one_line_req_spec(m.get("Version"@)) is Ok
                && one_line_req_spec(m.get("Filename"@)) is Ok
                && size_readable(m))
                ==> subdir_ok(words(src)[0])
        },
        _ => true,
    }
}

/// The build rule for a binary paragraph.
pub fn ninja_binary(map: &FieldMap) -> (r: Result<String, Error>)
    requires
        map.wf(),
        binary_rule_ok(map.map()),
    ensures
        match r {
            Ok(s) => binary_rule_spec(map.map()) == Ok::<Seq<char>, Error>(s@),
            Err(e) => binary_rule_spec(map.map()) == Err::<Seq<char>, Error>(e),
        },
{
    let pkg = map.get_value("Package").one_line_req()?;
    let src_line = map.get_value("Source").one_line_req()?;
    let arch = map.get_value("Architecture").one_line_req()?;
    let version = map.get_value("Version").one_line_req()?;
    let filename = map.get_value("Filename").one_line_req()?;
    let size_line = map.get_value("Size").one_line_req()?;
    let size = parse_u64(size_line.as_slice())?;
    let ws = split_ws(src_line.as_slice());
    assert(texts(ws@)[0] == ws@[0]@);
    let source = string_of(ws[0].as_slice());
    let pkg = string_of(pkg.as_slice());
    let v = escape_colons_of(version.as_slice());
    let arch = string_of(arch.as_slice());
    let filename = string_of(filename.as_slice());
    let sub = subdir(source.as_str());
    let prefix_parts: Vec<&str> = vec![
        sub.as_str(), "/", source.as_str(), "/", pkg.as_str(), "_", v.as_str(), "_", arch.as_str(),
    ];
    let prefix = cat_all(&prefix_parts);
    let parts: Vec<&str> = vec![
        "build $dest/", prefix.as_str(), "$suffix: process-binary | $script\n",
        "  description = PB ", source.as_str(), " ", pkg.as_str(), " ", v.as_str(), " ", arch.as_str(), "\n",
        "  source = ", source.as_str(), "\n",
        "  pkg = ", pkg.as_str(), "\n",
        "  version = ", v.as_str(), "\n",
        "  arch = ", arch.as_str(), "\n",
        "  url = $mirror/", filename.as_str(), "\n",
        "  prefix = ", prefix.as_str(), "\n",
        pool_of(size),
    ];
    let out = cat_all(&parts);
    proof {
        let pv = str_views(prefix_parts@);
        assert(pv =~= seq![sub@, "/"@, source@, "/"@, pkg@, "_"@, v@, "_"@, arch@]);
        assert(cat(pv) =~= sub@ + "/"@ + source@ + "/"@ + pkg@ + "_"@ + v@ + "_"@ + arch@) by {
            reveal_with_fuel(cat, 10);
        }
        let pw = str_views(parts@);
        let want = seq![
            "build $dest/"@, prefix@, "$suffix: process-binary | $script\n"@,
            "  description = PB "@, source@, " "@, pkg@, " "@, v@, " "@, arch@, "\n"@,
            "  source = "@, source@, "\n"@,
            "  pkg = "@, pkg@, "\n"@,
            "  version = "@, v@, "\n"@,
            "  arch = "@, arch@, "\n"@,
            "  url = $mirror/"@, filename@, "\n"@,
            "  prefix = "@, prefix@, "\n"@,
            pool_line(size as int)
        ];
        assert(pw =~= want);
    }
    Ok(out)
}

fn subdir_checkable(name: &[char]) -> (r: bool)
    ensures
        r == subdir_ok(name@),
{
    let lib = chars_of("lib");
    proof {
        reveal_strlit("lib");
        if name@.len() >= 3 && name@.take(3) == "lib"@ {
            assert(name@.subrange(0, 3) =~= name@.take(3));
        }
        if name@.len() >= 3 && name@.subrange(0, 3) == "lib"@ {
            assert(name@.subrange(0, 3) =~= name@.take(3));
        }
    }
    if crate::text::starts_with(name, lib.as_slice()) {
        name.len() >= 4 && (name[3] as u32) < 128
    } else {
        name.len() >= 1 && (name[0] as u32) < 128
    }
}

fn sizes_checkable(lines: &Vec<Vec<char>>) -> (r: bool)
    ensures
        r == sizes_ok(texts(lines@)),
{
    let ghost t = texts(lines@);
    let mut total: u64 = 0;
    let mut k: usize = 0;
    assert(t.take(0) =~= Seq::<Seq<char>>::empty());
    while k < lines.len()
        invariant
            k <= lines@.len(),
            t == texts(lines@),
            forall|i: int| 0 <= i < k ==> words(#[trigger] t[i]).len() >= 2 && u64_text(words(t[i])[1]) is Some,
            total == files_size(t.take(k as int)),
        decreases lines@.len() - k,
    {
        let ws = split_ws(lines[k].as_slice());
        assert(t[k as int] == lines@[k as int]@);
        if ws.len() < 2 {
            return false;
        }
        assert(texts(ws@)[1] == ws@[1]@);
        let n = match parse_u64(ws[1].as_slice()) {
            Ok(n) => n,
            Err(_) => {
                return false;
            },
        };
        assert(t.take(k + 1).drop_last() =~= t.take(k as int));
        match total.checked_add(n) {
            Some(x) => {
                total = x;
            },
            None => {
                proof {
                    assert forall|i: int| 0 <= i < k + 1 implies words(#[trigger] t.take(k + 1)[i]).len() >= 2 && u64_text(words(t.take(k + 1)[i])[1]) is Some by {
                        assert(t.take(k + 1)[i] == t[i]);
                    }
                    lemma_files_size_prefix(t, k as int + 1);
                }
                return false;
            },
        }
        k = k + 1;
    }
    assert(t.take(lines@.len() as int) =~= t);
    true
}

/// The sizes of a prefix add up to no more than those of all lines, when
/// all lines have sizes.
proof fn lemma_files_size_prefix(t: Seq<Seq<char>>, k: int)
    requires
        0 <= k <= t.len(),
    ensures
        (forall|i: int| 0 <= i < t.len() ==> words(#[trigger] t[i]).len() >= 2 && u64_text(words(t[i])[1]) is Some)
            ==> files_size(t.take(k)) <= files_size(t),
{
    if forall|i: int| 0 <= i < t.len() ==> words(#[trigger] t[i]).len() >= 2 && u64_text(words(t[i])[1]) is Some {
        lemma_files_size_grows(t, k);
    }
}

/// Whether `ninja_source` can be given the paragraph.
pub fn source_rule_checkable(map: &FieldMap) -> (r: bool)
    requires
        map.wf(),
    ensures
        r == source_rule_ok(map.map()),
{
    let pkg = match map.get_value("Package").one_line_req() {
        Ok(p) => p,
        Err(_) => {
            return true;
        },
    };
    let files = match map.get("Files") {
        Some(f) => f,
        None => {
            return true;
        },
    };
    if map.get_value("Version").one_line_req().is_err() || map.get_value("Directory").one_line_req().is_err() {
        return true;
    }
    let i = match first_dsc_of(files) {
        Some(i) => i,
        None => {
            return true;
        },
    };
    let ws = split_ws(files[i].as_slice());
    if ws.len() < 3 {
        return true;
    }
    sizes_checkable(files) && subdir_checkable(pkg.as_slice())
}

/// Whether `ninja_binary` can be given the paragraph.
pub fn binary_rule_checkable(map: &FieldMap) -> (r: bool)
    requires
        map.wf(),
    ensures
        r == binary_rule_ok(map.map()),
{
    if map.get_value("Package").one_line_req().is_err() {
        return true;
    }
    let src = match map.get_value("Source").one_line_req() {
        Ok(s) => s,
        Err(_) => {
            return true;
        },
    };
    let ws = split_ws(src.as_slice());
    if ws.len() < 1 {
        return false;
    }
    assert(texts(ws@)[0] == ws@[0]@);
    if map.get_value("Architecture").one_line_req().is_err() || map.get_value("Version").one_line_req().is_err()
        || map.get_value("Filename").one_line_req().is_err() {
        return true;
    }
    let size_line = match map.get_value("Size").one_line_req() {
        Ok(l) => l,
        Err(_) => {
            return true;
        },
    };
    if parse_u64(size_line.as_slice()).is_err() {
        return true;
    }
    subdir_checkable(ws[0].as_slice())
}

/// Which rule a paragraph gets: a source rule when it has `Files:`, else a
/// binary rule.
pub open spec fn rule_ok(m: FieldsSpec) -> bool {
    if m.contains_key("Files"@) {
        source_rule_ok(m)
    } else {
        binary_rule_ok(m)
    }
}

/// The rule a paragraph gets, or why there is none.
pub open spec fn rule_spec(m: FieldsSpec) -> Result<Seq<char>, Error> {
    if m.contains_key("Files"@) {
        source_rule_spec(m)
    } else {
        binary_rule_spec(m)
    }
}

/// The build rule for a paragraph of a listing: source paragraphs (those
/// with `Files:`) get a source rule, the others a binary rule.
pub fn ninja_rule(map: &FieldMap) -> (r: Result<String, Error>)
    requires
        map.wf(),
        rule_ok(map.map()),
    ensures
        match r {
            Ok(s) => rule_spec(map.map()) == Ok::<Seq<char>, Error>(s@),
            Err(e) => rule_spec(map.map()) == Err::<Seq<char>, Error>(e),
        },
{
    if map.contains_key("Files") {
        ninja_source(map)
    } else {
        ninja_binary(map)
    }
}

/// Whether `ninja_rule` can be given the paragraph.
pub fn rule_checkable(map: &FieldMap) -> (r: bool)
    requires
        map.wf(),
    ensures
        r == rule_ok(map.map()),
{
    if map.contains_key("Files") {
        source_rule_checkable(map)
    } else {
        binary_rule_checkable(map)
    }
}

} // verus!
