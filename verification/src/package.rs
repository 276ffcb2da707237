//! Package paragraphs: the fields of binary (`Packages`, dpkg `status`) and
//! source (`Sources`) entries, read out of a paragraph's field map.

use vstd::prelude::*;

use crate::checksum::{checksum_spec, parse_md5, parse_sha256, MD5, SHA256};
use crate::checksums::{
    key_index, keys_distinct, lemma_checksums_distinct, lemma_key_index, lemma_key_index_found,
    lemma_remove_key_distinct, lookup, take_checksums, checksums_spec, Checksums, ChecksumsSpec,
    FileKey,
};
use crate::error::Error;
use crate::rfc822::{one_line_opt_spec, one_line_req_spec, FieldMap, FieldsSpec};
use crate::arch::{arch_named, parse_arch, Arch};
use crate::deps::{dedup, dependency_specs, parse_dep, Dependency, SingleSpec};
use crate::ident::{identity_specs, Identity};
use crate::vcs::{extract, extract_from, vcs_specs, Vcs, VcsSpec};
use crate::text::{chars_eq_str, join, parse_u64, split_ws, string_of, texts, u64_text, words};

verus! {

// ---------------------------------------------------------------------------
// Small value types.

/// How important a package is (Debian policy, "Priorities").
#[derive(Copy, Clone, Debug, PartialEq, Eq, Structural)]
pub enum Priority {
    Unknown,
    Required,
    Important,
    Standard,
    Optional,
    Extra,
    Source,
}

impl Default for Priority {
    fn default() -> (r: Self)
        ensures
            r == Priority::Unknown,
    {
        Priority::Unknown
    }
}

/// The priority a word names.
pub open spec fn priority_named(s: Seq<char>) -> Option<Priority> {
    if s == "required"@ {
        Some(Priority::Required)
    } else if s == "important"@ {
        Some(Priority::Important)
    } else if s == "standard"@ {
        Some(Priority::Standard)
    } else if s == "optional"@ {
        Some(Priority::Optional)
    } else if s == "extra"@ {
        Some(Priority::Extra)
    } else if s == "source"@ {
        Some(Priority::Source)
    } else if s == "unknown"@ {
        Some(Priority::Unknown)
    } else {
        None
    }
}

/// Each priority word reads as the priority of the same name, and no two
/// words read as the same priority: `required`, `important`, `standard`,
/// `optional`, `extra`, `source` and `unknown`, and nothing else.
pub proof fn law_priority_words(a: Seq<char>, b: Seq<char>)
    ensures
        priority_named("required"@) == Some(Priority::Required),
        priority_named("important"@) == Some(Priority::Important),
        priority_named("standard"@) == Some(Priority::Standard),
        priority_named("optional"@) == Some(Priority::Optional),
        priority_named("extra"@) == Some(Priority::Extra),
        priority_named("source"@) == Some(Priority::Source),
        priority_named("unknown"@) == Some(Priority::Unknown),
        priority_named(a) is Some && priority_named(a) == priority_named(b) ==> a == b,
        priority_named(a) is Some ==> (a == "required"@ || a == "important"@ || a == "standard"@
            || a == "optional"@ || a == "extra"@ || a == "source"@ || a == "unknown"@),
{
    reveal_strlit("required");
    reveal_strlit("important");
    reveal_strlit("standard");
    reveal_strlit("optional");
    reveal_strlit("extra");
    reveal_strlit("source");
    reveal_strlit("unknown");
    assert("important"@ != "required"@) by {
        assert("important"@[0] != "required"@[0]);
    }
    assert("standard"@ != "required"@) by {
        assert("standard"@[0] != "required"@[0]);
    }
    assert("standard"@ != "important"@) by {
        assert("standard"@[0] != "important"@[0]);
    }
    assert("optional"@ != "required"@) by {
        assert("optional"@[0] != "required"@[0]);
    }
    assert("optional"@ != "important"@) by {
        assert("optional"@[0] != "important"@[0]);
    }
    assert("optional"@ != "standard"@) by {
        assert("optional"@[0] != "standard"@[0]);
    }
    assert("extra"@ != "required"@) by {
        assert("extra"@[0] != "required"@[0]);
    }
    assert("extra"@ != "important"@) by {
        assert("extra"@[0] != "important"@[0]);
    }
    assert("extra"@ != "standard"@) by {
        assert("extra"@[0] != "standard"@[0]);
    }
    assert("extra"@ != "optional"@) by {
        assert("extra"@[0] != "optional"@[0]);
    }
    assert("source"@ != "required"@) by {
        assert("source"@[0] != "required"@[0]);
    }
    assert("source"@ != "important"@) by {
        assert("source"@[0] != "important"@[0]);
    }
    assert("source"@ != "standard"@) by {
        assert("source"@[1] != "standard"@[1]);
    }
    assert("source"@ != "optional"@) by {
        assert("source"@[0] != "optional"@[0]);
    }
    assert("source"@ != "extra"@) by {
        assert("source"@[0] != "extra"@[0]);
    }
    assert("unknown"@ != "required"@) by {
        assert("unknown"@[0] != "required"@[0]);
    }
    assert("unknown"@ != "important"@) by {
        assert("unknown"@[0] != "important"@[0]);
    }
    assert("unknown"@ != "standard"@) by {
        assert("unknown"@[0] != "standard"@[0]);
    }
    assert("unknown"@ != "optional"@) by {
        assert("unknown"@[0] != "optional"@[0]);
    }
    assert("unknown"@ != "extra"@) by {
        assert("unknown"@[0] != "extra"@[0]);
    }
    assert("unknown"@ != "source"@) by {
        assert("unknown"@[0] != "source"@[0]);
    }
}

/// Read a priority given as characters.
pub fn priority_of(s: &[char]) -> (r: Result<Priority, Error>)
    ensures
        match r {
            Ok(p) => priority_named(s@) == Some(p),
            Err(e) => priority_named(s@) is None && e == Error::UnknownPriority,
        },
{
    if chars_eq_str(s, "required") {
        Ok(Priority::Required)
    } else if chars_eq_str(s, "important") {
        Ok(Priority::Important)
    } else if chars_eq_str(s, "standard") {
        Ok(Priority::Standard)
    } else if chars_eq_str(s, "optional") {
        Ok(Priority::Optional)
    } else if chars_eq_str(s, "extra") {
        Ok(Priority::Extra)
    } else if chars_eq_str(s, "source") {
        Ok(Priority::Source)
    } else if chars_eq_str(s, "unknown") {
        Ok(Priority::Unknown)
    } else {
        Err(Error::UnknownPriority)
    }
}

/// Read a priority: `required`, `important`, `standard`, `optional`,
/// `extra`, `source` or `unknown`.
pub fn parse_priority(string: &str) -> (r: Result<Priority, Error>)
    ensures
        match r {
            Ok(p) => priority_named(string@) == Some(p),
            Err(e) => priority_named(string@) is None && e == Error::UnknownPriority,
        },
{
    let cs = crate::text::chars_of(string);
    priority_of(cs.as_slice())
}

/// `yes` or `no`.
pub open spec fn yes_no_spec(s: Seq<char>) -> Result<bool, Error> {
    if s == "yes"@ {
        Ok(true)
    } else if s == "no"@ {
        Ok(false)
    } else {
        Err(Error::BadYesNo)
    }
}

/// Read `yes` or `no`.
pub fn yes_no(value: &[char]) -> (r: Result<bool, Error>)
    ensures
        r == yes_no_spec(value@),
{
    if chars_eq_str(value, "yes") {
        Ok(true)
    } else if chars_eq_str(value, "no") {
        Ok(false)
    } else {
        Err(Error::BadYesNo)
    }
}

/// The format of a source package.
#[derive(Copy, Clone, Debug, PartialEq, Eq, Structural)]
pub enum SourceFormat {
    Unknown,
    Original,
    Quilt3dot0,
    Native3dot0,
    Git3dot0,
}

/// The source format a `Format:` line names.
pub open spec fn format_named(s: Seq<char>) -> Option<SourceFormat> {
    if s == "3.0 (quilt)"@ {
        Some(SourceFormat::Quilt3dot0)
    } else if s == "1.0"@ {
        Some(SourceFormat::Original)
    } else if s == "3.0 (git)"@ {
        Some(SourceFormat::Git3dot0)
    } else if s == "3.0 (native)"@ {
        Some(SourceFormat::Native3dot0)
    } else {
        None
    }
}

/// Read a source format given as characters.
pub fn format_of(s: &[char]) -> (r: Result<SourceFormat, Error>)
    ensures
        match r {
            Ok(f) => format_named(s@) == Some(f),
            Err(e) => format_named(s@) is None && e == Error::UnknownFormat,
        },
{
    if chars_eq_str(s, "3.0 (quilt)") {
        Ok(SourceFormat::Quilt3dot0)
    } else if chars_eq_str(s, "1.0") {
        Ok(SourceFormat::Original)
    } else if chars_eq_str(s, "3.0 (git)") {
        Ok(SourceFormat::Git3dot0)
    } else if chars_eq_str(s, "3.0 (native)") {
        Ok(SourceFormat::Native3dot0)
    } else {
        Err(Error::UnknownFormat)
    }
}

/// Read a source format: `1.0`, `3.0 (quilt)`, `3.0 (native)` or `3.0 (git)`.
pub fn parse_format(string: &str) -> (r: Result<SourceFormat, Error>)
    ensures
        match r {
            Ok(f) => format_named(string@) == Some(f),
            Err(e) => format_named(string@) is None && e == Error::UnknownFormat,
        },
{
    let cs = crate::text::chars_of(string);
    format_of(cs.as_slice())
}

// ---------------------------------------------------------------------------
// The binaries a source package builds (`Package-List:`, else `Binary:`).

/// A binary package built by a source package.
#[derive(Clone, Debug, PartialEq, Eq)]
pub struct SourceBinary {
    pub name: String,
    pub style: String,
    pub section: String,
    pub priority: Priority,
    pub extras: Vec<String>,
}

/// The model of a `SourceBinary`.
pub type SourceBinarySpec = (Seq<char>, Seq<char>, Seq<char>, Priority, Seq<Seq<char>>);

pub open spec fn strings_spec(v: Seq<String>) -> Seq<Seq<char>> {
    Seq::new(v.len(), |i: int| v[i]@)
}

impl SourceBinary {
    pub open spec fn spec(&self) -> SourceBinarySpec {
        (self.name@, self.style@, self.section@, self.priority, strings_spec(self.extras@))
    }
}

pub open spec fn source_binary_specs(v: Seq<SourceBinary>) -> Seq<SourceBinarySpec> {
    Seq::new(v.len(), |i: int| v[i].spec())
}

/// One `Package-List:` line: name, type, section, priority, then extras.
pub open spec fn package_list_line(l: Seq<char>) -> Result<SourceBinarySpec, Error> {
    let ws = words(l);
    if ws.len() < 4 {
        Err(Error::ShortPackageListLine)
    } else {
        match priority_named(ws[3]) {
            Some(p) => Ok((ws[0], ws[1], ws[2], p, ws.subrange(4, ws.len() as int))),
            None => Err(Error::UnknownPriority),
        }
    }
}

/// The `Package-List:` lines `i..`.
pub open spec fn package_list_from(lines: Seq<Seq<char>>, i: int) -> Result<
    Seq<SourceBinarySpec>,
    Error,
>
    decreases lines.len() - i,
{
    if 0 <= i < lines.len() {
        match package_list_line(lines[i]) {
            Err(e) => Err(e),
            Ok(b) => match package_list_from(lines, i + 1) {
                Err(e) => Err(e),
                Ok(rest) => Ok(seq![b] + rest),
            },
        }
    } else {
        Ok(Seq::empty())
    }
}

/// A binary known by name only.
pub open spec fn bare_binary(name: Seq<char>) -> SourceBinarySpec {
    (name, Seq::empty(), Seq::empty(), Priority::Unknown, Seq::empty())
}

/// The binaries of a source paragraph: from `Package-List:` (which then needs
/// a one-line `Binary:`), else one per line of `Binary:`; both fields are
/// taken out.
pub open spec fn package_list_spec(m: FieldsSpec) -> Result<(Seq<SourceBinarySpec>, FieldsSpec), Error> {
    match m.get("Package-List"@) {
        None => match m.get("Binary"@) {
            None => Err(Error::MissingField),
            Some(ls) => Ok(
                (Seq::new(ls.len(), |i: int| bare_binary(ls[i])), m.remove("Binary"@)),
            ),
        },
        Some(pl) => {
            let m1 = m.remove("Package-List"@);
            match one_line_req_spec(m1.get("Binary"@)) {
                Err(e) => Err(e),
                Ok(_) => match package_list_from(pl, 0) {
                    Err(e) => Err(e),
                    Ok(bs) => Ok((bs, m1.remove("Binary"@))),
                },
            }
        },
    }
}

fn package_list_line_of(l: &[char]) -> (r: Result<SourceBinary, Error>)
    ensures
        match r {
            Ok(b) => package_list_line(l@) == Ok::<SourceBinarySpec, Error>(b.spec()),
            Err(e) => package_list_line(l@) == Err::<SourceBinarySpec, Error>(e),
        },
{
    let parts = split_ws(l);
    let ghost ws = words(l@);
    if parts.len() < 4 {
        return Err(Error::ShortPackageListLine);
    }
    assert(ws[3] == parts@[3]@);
    let priority = priority_of(parts[3].as_slice())?;
    let mut extras: Vec<String> = Vec::new();
    let mut k: usize = 4;
    while k < parts.len()
        invariant
            4 <= k <= parts@.len(),
            ws == texts(parts@),
            strings_spec(extras@) == ws.subrange(4, k as int),
        decreases parts@.len() - k,
    {
        let ghost before = strings_spec(extras@);
        extras.push(string_of(parts[k].as_slice()));
        assert(strings_spec(extras@) =~= before.push(ws[k as int]));
        assert(ws.subrange(4, k + 1) =~= ws.subrange(4, k as int).push(ws[k as int]));
        k = k + 1;
    }
    let b = SourceBinary {
        name: string_of(parts[0].as_slice()),
        style: string_of(parts[1].as_slice()),
        section: string_of(parts[2].as_slice()),
        priority,
        extras,
    };
    assert(b.spec() == (ws[0], ws[1], ws[2], priority, ws.subrange(4, ws.len() as int)));
    Ok(b)
}

/// The binaries a source paragraph builds, taken out of the map.
pub fn take_package_list(map: &mut FieldMap) -> (r: Result<Vec<SourceBinary>, Error>)
    requires
        old(map).wf(),
    ensures
        final(map).wf(),
        match (r, package_list_spec(old(map).map())) {
            (Ok(v), Ok((a, m))) => source_binary_specs(v@) == a && final(map).map() == m,
            (Err(e), Err(se)) => e == se,
            _ => false,
        },
{
    let ghost m0 = map.map();
    match map.remove("Package-List") {
        None => {
            assert(map.map() =~= m0);
            let lines = map.take_err("Binary")?;
            let mut out: Vec<SourceBinary> = Vec::new();
            let mut k: usize = 0;
            while k < lines.len()
                invariant
                    k <= lines@.len(),
                    source_binary_specs(out@) == Seq::new(
                        k as nat,
                        |i: int| bare_binary(lines@[i]@),
                    ),
                decreases lines@.len() - k,
            {
                let ghost before = source_binary_specs(out@);
                let b = SourceBinary {
                    name: string_of(lines[k].as_slice()),
                    style: String::new(),
                    section: String::new(),
                    priority: Priority::Unknown,
                    extras: Vec::new(),
                };
                assert(b.spec().4 =~= Seq::<Seq<char>>::empty());
                out.push(b);
                assert(source_binary_specs(out@) =~= before.push(bare_binary(lines@[k as int]@)));
                k = k + 1;
            }
            proof {
                let ls = m0["Binary"@];
                assert(ls == texts(lines@));
                assert(source_binary_specs(out@) =~= Seq::new(ls.len(), |i: int| bare_binary(ls[i])));
            }
            Ok(out)
        },
        Some(package_list) => {
            let _ = map.take_one_line("Binary")?;
            let mut binaries: Vec<SourceBinary> = Vec::new();
            let ghost pl = texts(package_list@);
            let mut k: usize = 0;
            assert(package_list_from(pl, 0) == match package_list_from(pl, 0) {
                Ok(rest) => Ok(source_binary_specs(binaries@) + rest),
                Err(e) => Err::<Seq<SourceBinarySpec>, Error>(e),
            }) by {
                match package_list_from(pl, 0) {
                    Ok(rest) => {
                        assert(source_binary_specs(binaries@) + rest =~= rest);
                    },
                    Err(_) => {},
                }
            }
            assert(pl == m0["Package-List"@]);
            while k < package_list.len()
                invariant
                    k <= package_list@.len(),
                    pl == texts(package_list@),
                    map.wf(),
                    m0 == old(map).map(),
                    package_list_spec(m0) == match package_list_from(pl, 0) {
                        Ok(bs) => Ok((bs, map.map())),
                        Err(e) => Err::<(Seq<SourceBinarySpec>, FieldsSpec), Error>(e),
                    },
                    package_list_from(pl, 0) == match package_list_from(pl, k as int) {
                        Ok(rest) => Ok(source_binary_specs(binaries@) + rest),
                        Err(e) => Err::<Seq<SourceBinarySpec>, Error>(e),
                    },
                decreases package_list@.len() - k,
            {
                assert(pl[k as int] == package_list@[k as int]@);
                let b = match package_list_line_of(package_list[k].as_slice()) {
                    Ok(b) => b,
                    Err(e) => {
                        return Err(e);
                    },
                };
                let ghost before = source_binary_specs(binaries@);
                binaries.push(b);
                proof {
                    assert(source_binary_specs(binaries@) =~= before.push(b.spec()));
                    match package_list_from(pl, k + 1) {
                        Ok(rest) => {
                            assert(before + (seq![b.spec()] + rest) =~= source_binary_specs(
                                binaries@,
                            ) + rest);
                        },
                        Err(_) => {},
                    }
                }
                k = k + 1;
            }
            proof {
                assert(source_binary_specs(binaries@) + Seq::<SourceBinarySpec>::empty()
                    =~= source_binary_specs(binaries@));
            }
            Ok(binaries)
        },
    }
}

// ---------------------------------------------------------------------------
// The files of a source package (`Files:` and `Checksums-Sha256:`).

/// A file of a source package.
#[derive(Clone, Debug, PartialEq, Eq)]
pub struct SourceArchive {
    pub name: String,
    pub size: u64,
    pub md5: MD5,
    pub sha256: Option<SHA256>,
}

/// The model of a `SourceArchive`: name, size, md5 and sha256 bytes.
pub type ArchiveSpec = (Seq<char>, u64, Seq<u8>, Option<Seq<u8>>);

impl SourceArchive {
    pub open spec fn spec(&self) -> ArchiveSpec {
        (
            self.name@,
            self.size,
            self.md5@,
            match self.sha256 {
                Some(s) => Some(s@),
                None => None,
            },
        )
    }
}

pub open spec fn archive_specs(v: Seq<SourceArchive>) -> Seq<ArchiveSpec> {
    Seq::new(v.len(), |i: int| v[i].spec())
}

/// One file: its md5 decoded, and its sha256 (if listed) decoded.
pub open spec fn archive_of(md5: (FileKey, Seq<char>), shas: ChecksumsSpec) -> Result<
    ArchiveSpec,
    Error,
> {
    match checksum_spec(md5.1, 16) {
        Err(e) => Err(e),
        Ok(m) => match lookup(shas, md5.0) {
            None => Ok((md5.0.0, md5.0.1, m, None)),
            Some(h) => match checksum_spec(h, 32) {
                Err(e) => Err(e),
                Ok(s) => Ok((md5.0.0, md5.0.1, m, Some(s))),
            },
        },
    }
}

/// The files `i..` of the md5 list.
pub open spec fn archives_from(md5s: ChecksumsSpec, shas: ChecksumsSpec, i: int) -> Result<
    Seq<ArchiveSpec>,
    Error,
>
    decreases md5s.len() - i,
{
    if 0 <= i < md5s.len() {
        match archive_of(md5s[i], shas) {
            Err(e) => Err(e),
            Ok(a) => match archives_from(md5s, shas, i + 1) {
                Err(e) => Err(e),
                Ok(rest) => Ok(seq![a] + rest),
            },
        }
    } else {
        Ok(Seq::empty())
    }
}

/// Every file with a sha256 also has an md5.
pub open spec fn all_known(md5s: ChecksumsSpec, shas: ChecksumsSpec) -> bool {
    forall|j: int| 0 <= j < shas.len() ==> key_index(md5s, #[trigger] shas[j].0) >= 0
}

/// The files of a source paragraph: `Files:` is required; each sha256 of
/// `Checksums-Sha256:` must belong to one of its files. Both fields are
/// taken out.
pub open spec fn files_spec(m: FieldsSpec) -> Result<(Seq<ArchiveSpec>, FieldsSpec), Error> {
    match m.get("Files"@) {
        None => Err(Error::MissingField),
        Some(fl) => match checksums_spec(fl) {
            Err(e) => Err(e),
            Ok(md5s) => {
                let m1 = m.remove("Files"@);
                let shas = match m1.get("Checksums-Sha256"@) {
                    None => Ok(Seq::<(FileKey, Seq<char>)>::empty()),
                    Some(sl) => checksums_spec(sl),
                };
                match shas {
                    Err(e) => Err(e),
                    Ok(shas) => match archives_from(md5s, shas, 0) {
                        Err(e) => Err(e),
                        Ok(a) => if all_known(md5s, shas) {
                            Ok((a, m1.remove("Checksums-Sha256"@)))
                        } else {
                            Err(Error::OrphanChecksum)
                        },
                    },
                }
            },
        }
    }
}

/// The sha256 entries still to be matched: those of `shas` whose file is not
/// among the first `i` md5 entries.
spec fn pending(w: ChecksumsSpec, shas: ChecksumsSpec, md5s: ChecksumsSpec, i: int) -> bool {
    &&& keys_distinct(w)
    &&& forall|k: FileKey| #[trigger] lookup(w, k) == if key_index(md5s.take(i), k) >= 0 {
        None
    } else {
        lookup(shas, k)
    }
}

/// The files of a source paragraph, taken out of the map.
pub fn take_files(map: &mut FieldMap) -> (r: Result<Vec<SourceArchive>, Error>)
    requires
        old(map).wf(),
    ensures
        final(map).wf(),
        match (r, files_spec(old(map).map())) {
            (Ok(v), Ok((a, m))) => archive_specs(v@) == a && final(map).map() == m,
            (Err(e), Err(se)) => e == se,
            _ => false,
        },
{
    let ghost m0 = map.map();
    let md5s = match take_checksums(map, "Files")? {
        Some(c) => c,
        None => {
            return Err(Error::MissingField);
        },
    };
    let mut shas = match take_checksums(map, "Checksums-Sha256")? {
        Some(c) => c,
        None => Checksums { entries: Vec::new() },
    };
    let ghost md = md5s.spec();
    let ghost sh = shas.spec();
    proof {
        lemma_checksums_distinct(m0["Files"@]);
        if m0.remove("Files"@).contains_key("Checksums-Sha256"@) {
            lemma_checksums_distinct(m0.remove("Files"@)["Checksums-Sha256"@]);
        } else {
            assert(sh =~= Seq::<(FileKey, Seq<char>)>::empty());
        }
        assert(md.take(0) =~= Seq::<(FileKey, Seq<char>)>::empty());
        assert forall|k: FileKey| #[trigger] lookup(sh, k) == if key_index(md.take(0), k) >= 0 {
            None
        } else {
            lookup(sh, k)
        } by {}
    }
    let mut archives: Vec<SourceArchive> = Vec::new();
    let mut i: usize = 0;
    assert(archives_from(md, sh, 0) == match archives_from(md, sh, 0) {
        Ok(rest) => Ok(archive_specs(archives@) + rest),
        Err(e) => Err::<Seq<ArchiveSpec>, Error>(e),
    }) by {
        match archives_from(md, sh, 0) {
            Ok(rest) => {
                assert(archive_specs(archives@) + rest =~= rest);
            },
            Err(_) => {},
        }
    }
    assert(files_spec(m0) == match archives_from(md, sh, 0) {
        Err(e) => Err(e),
        Ok(a) => if all_known(md, sh) {
            Ok((a, map.map()))
        } else {
            Err(Error::OrphanChecksum)
        },
    });
    while i < md5s.entries.len()
        invariant
            i <= md5s.entries@.len(),
            map.wf(),
            m0 == old(map).map(),
            files_spec(m0) == match archives_from(md, sh, 0) {
                Err(e) => Err(e),
                Ok(a) => if all_known(md, sh) {
                    Ok((a, map.map()))
                } else {
                    Err(Error::OrphanChecksum)
                },
            },
            md == md5s.spec(),
            keys_distinct(md),
            pending(shas.spec(), sh, md, i as int),
            archives_from(md, sh, 0) == match archives_from(md, sh, i as int) {
                Ok(rest) => Ok(archive_specs(archives@) + rest),
                Err(e) => Err::<Seq<ArchiveSpec>, Error>(e),
            },
        decreases md5s.entries@.len() - i,
    {
        let e = &md5s.entries[i];
        let ghost k = md[i as int].0;
        assert(e.spec() == md[i as int]);
        proof {
            lemma_key_index(md.take(i as int), k);
            if key_index(md.take(i as int), k) >= 0 {
                let j = key_index(md.take(i as int), k);
                assert(md[j].0 == md[i as int].0);
            }
            assert(lookup(shas.spec(), k) == lookup(sh, k));
        }
        let ghost w0 = shas.spec();
        let sha = shas.remove(e.name.as_slice(), e.size);
        proof {
            lemma_remove_key_distinct(w0, k);
            assert(md.take(i + 1).drop_last() =~= md.take(i as int));
            assert forall|k2: FileKey| #[trigger] lookup(shas.spec(), k2) == if key_index(
                md.take(i + 1),
                k2,
            ) >= 0 {
                None
            } else {
                lookup(sh, k2)
            } by {
                assert(lookup(w0, k2) == if key_index(md.take(i as int), k2) >= 0 {
                    None
                } else {
                    lookup(sh, k2)
                });
            }
        }
        let md5_text = string_of(e.hash.as_slice());
        let md5 = parse_md5(md5_text.as_str())?;
        let sha256 = match sha {
            Some(h) => {
                let h_text = string_of(h.as_slice());
                Some(parse_sha256(h_text.as_str())?)
            },
            None => None,
        };
        let a = SourceArchive { name: string_of(e.name.as_slice()), size: e.size, md5, sha256 };
        assert(archive_of(md[i as int], sh) == Ok::<ArchiveSpec, Error>(a.spec()));
        let ghost before = archive_specs(archives@);
        archives.push(a);
        proof {
            assert(archive_specs(archives@) =~= before.push(a.spec()));
            match archives_from(md, sh, i + 1) {
                Ok(rest) => {
                    assert(before + (seq![a.spec()] + rest) =~= archive_specs(archives@) + rest);
                },
                Err(_) => {},
            }
        }
        i = i + 1;
    }
    proof {
        assert(md.take(md.len() as int) =~= md);
        assert(archive_specs(archives@) + Seq::<ArchiveSpec>::empty() =~= archive_specs(archives@));
    }
    if shas.entries.len() != 0 {
        proof {
            let w = shas.spec();
            let k = w[0].0;
            lemma_key_index_found(w, k, 0);
            assert(lookup(w, k) is Some);
            lemma_key_index(sh, k);
            if all_known(md, sh) {
                let j = key_index(sh, k);
                assert(key_index(md, sh[j].0) >= 0);
            }
        }
        return Err(Error::OrphanChecksum);
    }
    proof {
        assert forall|j: int| 0 <= j < sh.len() implies key_index(md, #[trigger] sh[j].0) >= 0 by {
            lemma_key_index_found(sh, sh[j].0, j);
            assert(lookup(shas.spec(), sh[j].0) is None);
        }
    }
    Ok(archives)
}

// ---------------------------------------------------------------------------
// Taking fields out of the map, one step at a time.

/// A field's lines, or none.
pub open spec fn lines_or_none(m: FieldsSpec, key: Seq<char>) -> Seq<Seq<char>> {
    match m.get(key) {
        Some(ls) => ls,
        None => Seq::empty(),
    }
}

/// The dependency lists of a field (its lines joined with spaces); an absent
/// field has none.
pub open spec fn deps_field(m: FieldsSpec, key: Seq<char>) -> Result<Seq<Seq<SingleSpec>>, Error> {
    crate::deps::read_spec(join(lines_or_none(m, key), seq![' ']))
}

/// The dependency fields `keys[i..]`, each taken out in turn.
pub open spec fn deps_fields_from(m: FieldsSpec, keys: Seq<Seq<char>>, i: int) -> Result<
    (Seq<Seq<Seq<SingleSpec>>>, FieldsSpec),
    Error,
>
    decreases keys.len() - i,
{
    if 0 <= i < keys.len() {
        match deps_field(m, keys[i]) {
            Err(e) => Err(e),
            Ok(d) => match deps_fields_from(m.remove(keys[i]), keys, i + 1) {
                Err(e) => Err(e),
                Ok((rest, m2)) => Ok((seq![d] + rest, m2)),
            },
        }
    } else {
        Ok((Seq::empty(), m))
    }
}

pub open spec fn str_specs(v: Seq<&str>) -> Seq<Seq<char>> {
    Seq::new(v.len(), |i: int| v[i]@)
}

pub open spec fn deps_lists_spec(v: Seq<Vec<Dependency>>) -> Seq<Seq<Seq<SingleSpec>>> {
    Seq::new(v.len(), |i: int| dependency_specs(v[i]@))
}

/// The dependencies of field `key`, taken out of the map.
fn take_deps(map: &mut FieldMap, key: &str) -> (r: Result<Vec<Dependency>, Error>)
    requires
        old(map).wf(),
    ensures
        final(map).wf(),
        final(map).map() == old(map).map().remove(key@),
        match r {
            Ok(v) => deps_field(old(map).map(), key@) == Ok::<Seq<Seq<SingleSpec>>, Error>(
                dependency_specs(v@),
            ),
            Err(e) => deps_field(old(map).map(), key@) == Err::<Seq<Seq<SingleSpec>>, Error>(e),
        },
{
    let lines = match map.remove(key) {
        Some(v) => v,
        None => Vec::new(),
    };
    assert(texts(lines@) == lines_or_none(old(map).map(), key@));
    parse_dep(lines.as_slice())
}

/// The dependency fields `keys`, each taken out of the map in turn.
fn take_deps_fields(map: &mut FieldMap, keys: &Vec<&str>) -> (r: Result<Vec<Vec<Dependency>>, Error>)
    requires
        old(map).wf(),
    ensures
        final(map).wf(),
        r matches Ok(v) ==> v@.len() == keys@.len(),
        match (r, deps_fields_from(old(map).map(), str_specs(keys@), 0)) {
            (Ok(v), Ok((d, m))) => deps_lists_spec(v@) == d && final(map).map() == m,
            (Err(e), Err(se)) => e == se,
            _ => false,
        },
{
    let ghost ks = str_specs(keys@);
    let ghost m0 = map.map();
    let mut out: Vec<Vec<Dependency>> = Vec::new();
    let mut i: usize = 0;
    assert(deps_fields_from(m0, ks, 0) == match deps_fields_from(map.map(), ks, 0) {
        Ok((rest, m2)) => Ok((deps_lists_spec(out@) + rest, m2)),
        Err(e) => Err::<(Seq<Seq<Seq<SingleSpec>>>, FieldsSpec), Error>(e),
    }) by {
        match deps_fields_from(map.map(), ks, 0) {
            Ok((rest, _)) => {
                assert(deps_lists_spec(out@) + rest =~= rest);
            },
            Err(_) => {},
        }
    }
    while i < keys.len()
        invariant
            i <= keys@.len(),
            out@.len() == i,
            map.wf(),
            ks == str_specs(keys@),
            m0 == old(map).map(),
            deps_fields_from(m0, ks, 0) == match deps_fields_from(map.map(), ks, i as int) {
                Ok((rest, m2)) => Ok((deps_lists_spec(out@) + rest, m2)),
                Err(e) => Err::<(Seq<Seq<Seq<SingleSpec>>>, FieldsSpec), Error>(e),
            },
        decreases keys@.len() - i,
    {
        let ghost mi = map.map();
        assert(ks[i as int] == keys@[i as int]@);
        let d = take_deps(map, keys[i])?;
        let ghost before = deps_lists_spec(out@);
        out.push(d);
        proof {
            assert(deps_lists_spec(out@) =~= before.push(dependency_specs(d@)));
            match deps_fields_from(map.map(), ks, i + 1) {
                Ok((rest, _)) => {
                    assert(before + (seq![dependency_specs(d@)] + rest) =~= deps_lists_spec(out@)
                        + rest);
                },
                Err(_) => {},
            }
        }
        i = i + 1;
    }
    assert(deps_lists_spec(out@) + Seq::<Seq<Seq<SingleSpec>>>::empty() =~= deps_lists_spec(out@));
    Ok(out)
}

/// The single line of the optional field `key`, taken out of the map.
pub(crate) fn take_opt_line(map: &mut FieldMap, key: &str) -> (r: Result<Option<Vec<char>>, Error>)
    requires
        old(map).wf(),
    ensures
        final(map).wf(),
        final(map).map() == old(map).map().remove(key@),
        match r {
            Ok(Some(l)) => one_line_opt_spec(old(map).map().get(key@)) == Ok::<
                Option<Seq<char>>,
                Error,
            >(Some(l@)),
            Ok(None) => one_line_opt_spec(old(map).map().get(key@)) == Ok::<
                Option<Seq<char>>,
                Error,
            >(None),
            Err(e) => one_line_opt_spec(old(map).map().get(key@)) == Err::<
                Option<Seq<char>>,
                Error,
            >(e),
        },
{
    map.remove_one_line(key)
}

/// The single line of the optional field `key` as a string, taken out of the map.
pub(crate) fn take_opt_string(map: &mut FieldMap, key: &str) -> (r: Result<Option<String>, Error>)
    requires
        old(map).wf(),
    ensures
        final(map).wf(),
        final(map).map() == old(map).map().remove(key@),
        match r {
            Ok(Some(l)) => one_line_opt_spec(old(map).map().get(key@)) == Ok::<
                Option<Seq<char>>,
                Error,
            >(Some(l@)),
            Ok(None) => one_line_opt_spec(old(map).map().get(key@)) == Ok::<
                Option<Seq<char>>,
                Error,
            >(None),
            Err(e) => one_line_opt_spec(old(map).map().get(key@)) == Err::<
                Option<Seq<char>>,
                Error,
            >(e),
        },
{
    let v = map.remove_value(key);
    v.one_line_owned()
}

/// The single line of the required field `key` as a string, taken out of the map.
pub(crate) fn take_req_string(map: &mut FieldMap, key: &str) -> (r: Result<String, Error>)
    requires
        old(map).wf(),
    ensures
        final(map).wf(),
        final(map).map() == old(map).map().remove(key@),
        match r {
            Ok(l) => one_line_req_spec(old(map).map().get(key@)) == Ok::<Seq<char>, Error>(l@),
            Err(e) => one_line_req_spec(old(map).map().get(key@)) == Err::<Seq<char>, Error>(e),
        },
{
    let l = map.take_one_line(key)?;
    Ok(string_of(l.as_slice()))
}

// ---------------------------------------------------------------------------
// Binary packages.

/// A file of the archive, as a `Packages` paragraph lists it.
#[derive(Clone, Debug, PartialEq, Eq)]
pub struct File {
    pub name: String,
    pub size: u64,
    pub md5: String,
    pub sha1: String,
    pub sha256: String,
    pub sha512: String,
}

/// The model of a `File`: name, size, md5, sha1, sha256, sha512.
pub type FileSpec = (Seq<char>, u64, Seq<char>, Seq<char>, Seq<char>, Seq<char>);

impl File {
    pub open spec fn spec(&self) -> FileSpec {
        (self.name@, self.size, self.md5@, self.sha1@, self.sha256@, self.sha512@)
    }
}

/// The file of a binary paragraph: absent without `Filename:`; else
/// `Filename:`, `Size:` (a number), `SHA1:` and `SHA256:` are required, the
/// md5 is `MD5sum:` or empty, and the sha512 is empty. The fields are taken out.
pub open spec fn file_spec(m: FieldsSpec) -> Result<(Option<FileSpec>, FieldsSpec), Error> {
    if !m.contains_key("Filename"@) {
        Ok((None, m))
    } else {
        let m1 = m.remove("Filename"@);
        let m2 = m1.remove("Size"@);
        let m3 = m2.remove("MD5sum"@);
        let m4 = m3.remove("SHA1"@);
        let m5 = m4.remove("SHA256"@);
        match one_line_req_spec(m.get("Filename"@)) {
            Err(e) => Err(e),
            Ok(name) => match one_line_req_spec(m1.get("Size"@)) {
                Err(e) => Err(e),
                Ok(sz) => match u64_text(sz) {
                    None => Err(Error::BadNumber),
                    Some(size) => match one_line_opt_spec(m2.get("MD5sum"@)) {
                        Err(e) => Err(e),
                        Ok(md5) => match one_line_req_spec(m3.get("SHA1"@)) {
                            Err(e) => Err(e),
                            Ok(sha1) => match one_line_req_spec(m4.get("SHA256"@)) {
                                Err(e) => Err(e),
                                Ok(sha256) => Ok(
                                    (
                                        Some(
                                            (
                                                name,
                                                size,
                                                match md5 {
                                                    Some(x) => x,
                                                    None => Seq::empty(),
                                                },
                                                sha1,
                                                sha256,
                                                Seq::empty(),
                                            ),
                                        ),
                                        m5,
                                    ),
                                ),
                            },
                        },
                    },
                },
            },
        }
    }
}

/// An optional number field: absent is 0.
pub open spec fn opt_number(v: Result<Option<Seq<char>>, Error>) -> Result<u64, Error> {
    match v {
        Err(e) => Err(e),
        Ok(None) => Ok(0),
        Ok(Some(l)) => match u64_text(l) {
            Some(n) => Ok(n),
            None => Err(Error::BadNumber),
        },
    }
}

/// An optional yes/no field: absent is no.
pub open spec fn opt_flag(v: Result<Option<Seq<char>>, Error>) -> Result<bool, Error> {
    match v {
        Err(e) => Err(e),
        Ok(None) => Ok(false),
        Ok(Some(l)) => yes_no_spec(l),
    }
}

/// `Installed-Size:` (absent is 0), `Essential:` and `Build-Essential:`
/// (absent is no), taken out.
pub open spec fn flags_spec(m: FieldsSpec) -> Result<((u64, bool, bool), FieldsSpec), Error> {
    let m1 = m.remove("Installed-Size"@);
    let m2 = m1.remove("Essential"@);
    let m3 = m2.remove("Build-Essential"@);
    match opt_number(one_line_opt_spec(m.get("Installed-Size"@))) {
        Err(e) => Err(e),
        Ok(size) => match opt_flag(one_line_opt_spec(m1.get("Essential"@))) {
            Err(e) => Err(e),
            Ok(ess) => match opt_flag(one_line_opt_spec(m2.get("Build-Essential"@))) {
                Err(e) => Err(e),
                Ok(bess) => Ok(((size, ess, bess), m3)),
            },
        },
    }
}

/// `Description:` (required, its lines joined with newlines), `Source:` and
/// `Status:` (optional single lines), taken out.
pub open spec fn texts_spec(m: FieldsSpec) -> Result<
    ((Seq<char>, Option<Seq<char>>, Option<Seq<char>>), FieldsSpec),
    Error,
> {
    let m1 = m.remove("Description"@);
    let m2 = m1.remove("Source"@);
    let m3 = m2.remove("Status"@);
    match m.get("Description"@) {
        None => Err(Error::MissingField),
        Some(ls) => match one_line_opt_spec(m1.get("Source"@)) {
            Err(e) => Err(e),
            Ok(source) => match one_line_opt_spec(m2.get("Status"@)) {
                Err(e) => Err(e),
                Ok(status) => Ok(((join(ls, seq!['\n']), source, status), m3)),
            },
        },
    }
}

/// The dependency fields of a binary paragraph, in the order they are read.
pub open spec fn binary_dep_keys() -> Seq<Seq<char>> {
    seq![
        "Depends"@,
        "Recommends"@,
        "Suggests"@,
        "Enhances"@,
        "Pre-Depends"@,
        "Breaks"@,
        "Conflicts"@,
        "Replaces"@,
        "Provides"@,
    ]
}

/// Binary package specific fields.
#[derive(Clone, Debug, PartialEq, Eq, Default)]
pub struct Binary {
    pub file: Option<File>,
    pub essential: bool,
    pub build_essential: bool,
    pub installed_size: u64,
    pub description: String,
    pub source: Option<String>,
    pub status: Option<String>,
    pub depends: Vec<Dependency>,
    pub recommended: Vec<Dependency>,
    pub suggests: Vec<Dependency>,
    pub enhances: Vec<Dependency>,
    pub pre_depends: Vec<Dependency>,
    pub breaks: Vec<Dependency>,
    pub conflicts: Vec<Dependency>,
    pub replaces: Vec<Dependency>,
    pub provides: Vec<Dependency>,
}

/// The model of a `Binary`; `deps` holds the dependency lists in the order of
/// `binary_dep_keys`.
pub struct BinarySpec {
    pub file: Option<FileSpec>,
    pub essential: bool,
    pub build_essential: bool,
    pub installed_size: u64,
    pub description: Seq<char>,
    pub source: Option<Seq<char>>,
    pub status: Option<Seq<char>>,
    pub deps: Seq<Seq<Seq<SingleSpec>>>,
}

pub open spec fn opt_string_spec(s: Option<String>) -> Option<Seq<char>> {
    match s {
        Some(x) => Some(x@),
        None => None,
    }
}

impl Binary {
    pub open spec fn spec(&self) -> BinarySpec {
        BinarySpec {
            file: match self.file {
                Some(f) => Some(f.spec()),
                None => None,
            },
            essential: self.essential,
            build_essential: self.build_essential,
            installed_size: self.installed_size,
            description: self.description@,
            source: opt_string_spec(self.source),
            status: opt_string_spec(self.status),
            deps: seq![
                dependency_specs(self.depends@),
                dependency_specs(self.recommended@),
                dependency_specs(self.suggests@),
                dependency_specs(self.enhances@),
                dependency_specs(self.pre_depends@),
                dependency_specs(self.breaks@),
                dependency_specs(self.conflicts@),
                dependency_specs(self.replaces@),
                dependency_specs(self.provides@),
            ],
        }
    }
}

/// The binary fields of a paragraph: the file, the flags, the texts, then
/// the dependency fields, each taken out in turn.
pub open spec fn binary_spec(m: FieldsSpec) -> Result<(BinarySpec, FieldsSpec), Error> {
    match file_spec(m) {
        Err(e) => Err(e),
        Ok((file, m1)) => match flags_spec(m1) {
            Err(e) => Err(e),
            Ok(((size, ess, bess), m2)) => match texts_spec(m2) {
                Err(e) => Err(e),
                Ok(((desc, source, status), m3)) => match deps_fields_from(
                    m3,
                    binary_dep_keys(),
                    0,
                ) {
                    Err(e) => Err(e),
                    Ok((deps, m4)) => Ok(
                        (
                            BinarySpec {
                                file,
                                essential: ess,
                                build_essential: bess,
                                installed_size: size,
                                description: desc,
                                source,
                                status,
                                deps,
                            },
                            m4,
                        ),
                    ),
                },
            },
        },
    }
}

fn take_file(map: &mut FieldMap) -> (r: Result<Option<File>, Error>)
    requires
        old(map).wf(),
    ensures
        final(map).wf(),
        match (r, file_spec(old(map).map())) {
            (Ok(f), Ok((sf, m))) => final(map).map() == m && match f {
                Some(f) => sf == Some(f.spec()),
                None => sf is None,
            },
            (Err(e), Err(se)) => e == se,
            _ => false,
        },
{
    if !map.contains_key("Filename") {
        return Ok(None);
    }
    let name = take_req_string(map, "Filename")?;
    let size_line = map.take_one_line("Size")?;
    let size = parse_u64(size_line.as_slice())?;
    let md5 = match take_opt_string(map, "MD5sum")? {
        Some(s) => s,
        None => String::new(),
    };
    let sha1 = take_req_string(map, "SHA1")?;
    let sha256 = take_req_string(map, "SHA256")?;
    let f = File { name, size, md5, sha1, sha256, sha512: String::new() };
    assert(f.sha512@ =~= Seq::<char>::empty());
    Ok(Some(f))
}

fn take_flags(map: &mut FieldMap) -> (r: Result<(u64, bool, bool), Error>)
    requires
        old(map).wf(),
    ensures
        final(map).wf(),
        match (r, flags_spec(old(map).map())) {
            (Ok(v), Ok((sv, m))) => v == sv && final(map).map() == m,
            (Err(e), Err(se)) => e == se,
            _ => false,
        },
{
    let installed_size = match take_opt_line(map, "Installed-Size")? {
        Some(l) => parse_u64(l.as_slice())?,
        None => 0,
    };
    let essential = match take_opt_line(map, "Essential")? {
        Some(l) => yes_no(l.as_slice())?,
        None => false,
    };
    let build_essential = match take_opt_line(map, "Build-Essential")? {
        Some(l) => yes_no(l.as_slice())?,
        None => false,
    };
    Ok((installed_size, essential, build_essential))
}

fn take_texts(map: &mut FieldMap) -> (r: Result<(String, Option<String>, Option<String>), Error>)
    requires
        old(map).wf(),
    ensures
        final(map).wf(),
        match (r, texts_spec(old(map).map())) {
            (Ok(v), Ok((sv, m))) => v.0@ == sv.0 && opt_string_spec(v.1) == sv.1
                && opt_string_spec(v.2) == sv.2 && final(map).map() == m,
            (Err(e), Err(se)) => e == se,
            _ => false,
        },
{
    let description = map.remove_value("Description").joined_lines_req()?;
    let source = take_opt_string(map, "Source")?;
    let status = take_opt_string(map, "Status")?;
    Ok((description, source, status))
}

/// The binary package fields of a paragraph, taken out of the map.
pub fn parse_bin(it: &mut FieldMap) -> (r: Result<Binary, Error>)
    requires
        old(it).wf(),
    ensures
        final(it).wf(),
        match (r, binary_spec(old(it).map())) {
            (Ok(b), Ok((sb, m))) => b.spec() == sb && final(it).map() == m,
            (Err(e), Err(se)) => e == se,
            _ => false,
        },
{
    let file = take_file(it)?;
    let (installed_size, essential, build_essential) = take_flags(it)?;
    let (description, source, status) = take_texts(it)?;
    let keys: Vec<&str> = vec![
        "Depends",
        "Recommends",
        "Suggests",
        "Enhances",
        "Pre-Depends",
        "Breaks",
        "Conflicts",
        "Replaces",
        "Provides",
    ];
    assert(str_specs(keys@) =~= binary_dep_keys());
    let mut deps = take_deps_fields(it, &keys)?;
    let ghost d = deps_lists_spec(deps@);
    assert(d.len() == 9);
    let provides = deps.pop().unwrap();
    let replaces = deps.pop().unwrap();
    let conflicts = deps.pop().unwrap();
    let breaks = deps.pop().unwrap();
    let pre_depends = deps.pop().unwrap();
    let enhances = deps.pop().unwrap();
    let suggests = deps.pop().unwrap();
    let recommended = deps.pop().unwrap();
    let depends = deps.pop().unwrap();
    let b = Binary {
        file,
        essential,
        build_essential,
        installed_size,
        description,
        source,
        status,
        depends,
        recommended,
        suggests,
        enhances,
        pre_depends,
        breaks,
        conflicts,
        replaces,
        provides,
    };
    assert(b.spec().deps =~= d);
    Ok(b)
}

// ---------------------------------------------------------------------------
// Source packages.

/// Source package specific fields.
#[derive(Clone, Debug, PartialEq, Eq)]
pub struct Source {
    pub format: SourceFormat,
    pub binaries: Vec<SourceBinary>,
    pub files: Vec<SourceArchive>,
    pub directory: String,
    pub vcs: Vec<Vcs>,
    pub build_dep: Vec<Dependency>,
    pub build_dep_arch: Vec<Dependency>,
    pub build_dep_indep: Vec<Dependency>,
    pub build_conflict: Vec<Dependency>,
    pub build_conflict_arch: Vec<Dependency>,
    pub build_conflict_indep: Vec<Dependency>,
    pub uploaders: Vec<Identity>,
    pub standards_version: Option<String>,
}

/// The model of an identity list: names and emails.
pub type IdentsSpec = Seq<(Seq<char>, Seq<char>)>;

/// The model of a `Source`; `build_deps` holds the dependency lists in the
/// order of `source_dep_keys`.
pub struct SourceSpec {
    pub format: SourceFormat,
    pub binaries: Seq<SourceBinarySpec>,
    pub files: Seq<ArchiveSpec>,
    pub directory: Seq<char>,
    pub vcs: Seq<VcsSpec>,
    pub build_deps: Seq<Seq<Seq<SingleSpec>>>,
    pub uploaders: IdentsSpec,
    pub standards_version: Option<Seq<char>>,
}

impl Source {
    pub open spec fn spec(&self) -> SourceSpec {
        SourceSpec {
            format: self.format,
            binaries: source_binary_specs(self.binaries@),
            files: archive_specs(self.files@),
            directory: self.directory@,
            vcs: vcs_specs(self.vcs@),
            build_deps: seq![
                dependency_specs(self.build_dep@),
                dependency_specs(self.build_dep_arch@),
                dependency_specs(self.build_dep_indep@),
                dependency_specs(self.build_conflict@),
                dependency_specs(self.build_conflict_arch@),
                dependency_specs(self.build_conflict_indep@),
            ],
            uploaders: identity_specs(self.uploaders@),
            standards_version: opt_string_spec(self.standards_version),
        }
    }
}

/// The build relation fields of a source paragraph, in the order they are read.
pub open spec fn source_dep_keys() -> Seq<Seq<char>> {
    seq![
        "Build-Depends"@,
        "Build-Depends-Arch"@,
        "Build-Depends-Indep"@,
        "Build-Conflicts"@,
        "Build-Conflicts-Arch"@,
        "Build-Conflicts-Indep"@,
    ]
}

/// An optional identity list field: absent is none.
pub open spec fn opt_idents(v: Result<Option<Seq<char>>, Error>) -> Result<IdentsSpec, Error> {
    match v {
        Err(e) => Err(e),
        Ok(None) => Ok(Seq::empty()),
        Ok(Some(l)) => crate::ident::read_spec(l),
    }
}

/// The source fields of a paragraph: `Format:`, the binaries, the files,
/// `Directory:`, the version control locations, the build relations,
/// `Uploaders:` and `Standards-Version:`, each taken out in turn.
pub open spec fn source_spec(m: FieldsSpec) -> Result<(SourceSpec, FieldsSpec), Error> {
    let m1 = m.remove("Format"@);
    match one_line_req_spec(m.get("Format"@)) {
        Err(e) => Err(e),
        Ok(fl) => match format_named(fl) {
            None => Err(Error::UnknownFormat),
            Some(format) => match package_list_spec(m1) {
                Err(e) => Err(e),
                Ok((binaries, m2)) => match files_spec(m2) {
                    Err(e) => Err(e),
                    Ok((files, m3)) => {
                        let m4 = m3.remove("Directory"@);
                        match one_line_req_spec(m3.get("Directory"@)) {
                            Err(e) => Err(e),
                            Ok(directory) => source_tail_spec(
                                m4,
                                format,
                                binaries,
                                files,
                                directory,
                            ),
                        }
                    },
                },
            },
        },
    }
}

/// The fields of a source paragraph after `Directory:`.
pub open spec fn source_tail_spec(
    m4: FieldsSpec,
    format: SourceFormat,
    binaries: Seq<SourceBinarySpec>,
    files: Seq<ArchiveSpec>,
    directory: Seq<char>,
) -> Result<(SourceSpec, FieldsSpec), Error> {
    match extract_from(m4, 0) {
        Err(e) => Err(e),
        Ok((vcs, m5)) => match deps_fields_from(m5, source_dep_keys(), 0) {
            Err(e) => Err(e),
            Ok((build_deps, m6)) => {
                let m7 = m6.remove("Uploaders"@);
                match opt_idents(one_line_opt_spec(m6.get("Uploaders"@))) {
                    Err(e) => Err(e),
                    Ok(uploaders) => match one_line_opt_spec(m7.get("Standards-Version"@)) {
                        Err(e) => Err(e),
                        Ok(sv) => Ok(
                            (
                                SourceSpec {
                                    format,
                                    binaries,
                                    files,
                                    directory,
                                    vcs,
                                    build_deps,
                                    uploaders,
                                    standards_version: sv,
                                },
                                m7.remove("Standards-Version"@),
                            ),
                        ),
                    },
                }
            },
        },
    }
}

/// The identities of an optional field, taken out of the map.
fn take_opt_idents(map: &mut FieldMap, key: &str) -> (r: Result<Vec<Identity>, Error>)
    requires
        old(map).wf(),
    ensures
        final(map).wf(),
        final(map).map() == old(map).map().remove(key@),
        match r {
            Ok(v) => opt_idents(one_line_opt_spec(old(map).map().get(key@))) == Ok::<
                IdentsSpec,
                Error,
            >(identity_specs(v@)),
            Err(e) => opt_idents(one_line_opt_spec(old(map).map().get(key@))) == Err::<
                IdentsSpec,
                Error,
            >(e),
        },
{
    match take_opt_line(map, key)? {
        Some(l) => {
            let s = string_of(l.as_slice());
            crate::ident::read(s.as_str())
        },
        None => {
            let v: Vec<Identity> = Vec::new();
            assert(identity_specs(v@) =~= Seq::<(Seq<char>, Seq<char>)>::empty());
            Ok(v)
        },
    }
}

/// The source package fields of a paragraph, taken out of the map.
pub fn parse_src(map: &mut FieldMap) -> (r: Result<Source, Error>)
    requires
        old(map).wf(),
    ensures
        final(map).wf(),
        match (r, source_spec(old(map).map())) {
            (Ok(s), Ok((ss, m))) => s.spec() == ss && final(map).map() == m,
            (Err(e), Err(se)) => e == se,
            _ => false,
        },
{
    let fl = map.take_one_line("Format")?;
    let format = format_of(fl.as_slice())?;
    let binaries = take_package_list(map)?;
    let files = take_files(map)?;
    let directory = take_req_string(map, "Directory")?;
    let vcs = extract(map)?;
    let keys: Vec<&str> = vec![
        "Build-Depends",
        "Build-Depends-Arch",
        "Build-Depends-Indep",
        "Build-Conflicts",
        "Build-Conflicts-Arch",
        "Build-Conflicts-Indep",
    ];
    assert(str_specs(keys@) =~= source_dep_keys());
    let mut deps = take_deps_fields(map, &keys)?;
    let ghost d = deps_lists_spec(deps@);
    let build_conflict_indep = deps.pop().unwrap();
    let build_conflict_arch = deps.pop().unwrap();
    let build_conflict = deps.pop().unwrap();
    let build_dep_indep = deps.pop().unwrap();
    let build_dep_arch = deps.pop().unwrap();
    let build_dep = deps.pop().unwrap();
    let uploaders = take_opt_idents(map, "Uploaders")?;
    let standards_version = take_opt_string(map, "Standards-Version")?;
    let s = Source {
        format,
        binaries,
        files,
        directory,
        vcs,
        build_dep,
        build_dep_arch,
        build_dep_indep,
        build_conflict,
        build_conflict_arch,
        build_conflict_indep,
        uploaders,
        standards_version,
    };
    assert(s.spec().build_deps =~= d);
    Ok(s)
}

// ---------------------------------------------------------------------------
// Packages.

/// A package paragraph's own kind of fields.
#[derive(Clone, Debug, PartialEq, Eq)]
pub enum PackageType {
    Source(Source),
    Binary(Binary),
}

/// The model of a `PackageType`.
pub enum StyleSpec {
    Source(SourceSpec),
    Binary(BinarySpec),
}

impl PackageType {
    pub open spec fn spec(&self) -> StyleSpec {
        match self {
            PackageType::Source(s) => StyleSpec::Source(s.spec()),
            PackageType::Binary(b) => StyleSpec::Binary(b.spec()),
        }
    }
}

/// A package paragraph, read.
#[derive(Clone, Debug, PartialEq, Eq)]
pub struct Package {
    pub name: String,
    pub version: String,
    pub priority: Priority,
    pub arches: Vec<Arch>,
    pub section: String,
    pub maintainer: Vec<Identity>,
    pub original_maintainer: Vec<Identity>,
    pub homepage: Option<String>,
    pub unparsed: FieldMap,
    pub style: PackageType,
}

/// A description in one locale.
#[derive(Clone, Debug, PartialEq, Eq)]
pub struct Description {
    pub locale: String,
    pub value: String,
}

/// The model of a `Package`.
pub struct PackageSpec {
    pub name: Seq<char>,
    pub version: Seq<char>,
    pub priority: Priority,
    pub arches: Seq<Arch>,
    pub section: Seq<char>,
    pub maintainer: IdentsSpec,
    pub original_maintainer: IdentsSpec,
    pub homepage: Option<Seq<char>>,
    pub unparsed: FieldsSpec,
    pub style: StyleSpec,
}

impl Package {
    pub open spec fn spec(&self) -> PackageSpec {
        PackageSpec {
            name: self.name@,
            version: self.version@,
            priority: self.priority,
            arches: self.arches@,
            section: self.section@,
            maintainer: identity_specs(self.maintainer@),
            original_maintainer: identity_specs(self.original_maintainer@),
            homepage: opt_string_spec(self.homepage),
            unparsed: self.unparsed.map(),
            style: self.style.spec(),
        }
    }
}

/// The architectures of an `Architecture:` line: its words, each a known
/// architecture, each kept once, in the order first given.
pub open spec fn arches_spec(l: Seq<char>) -> Result<Seq<Arch>, Error> {
    let ws = words(l);
    if forall|i: int| 0 <= i < ws.len() ==> #[trigger] arch_named(ws[i]) is Some {
        Ok(dedup(Seq::new(ws.len(), |i: int| arch_named(ws[i])->0)))
    } else {
        Err(Error::UnknownArch)
    }
}

/// An optional priority field: absent is `Unknown`.
pub open spec fn opt_priority(v: Result<Option<Seq<char>>, Error>) -> Result<Priority, Error> {
    match v {
        Err(e) => Err(e),
        Ok(None) => Ok(Priority::Unknown),
        Ok(Some(l)) => match priority_named(l) {
            Some(p) => Ok(p),
            None => Err(Error::UnknownPriority),
        },
    }
}

/// The fields every package paragraph has: `Architecture:`,
/// `Original-Maintainer:`, `Package:`, `Version:`, `Priority:`, `Section:`,
/// `Maintainer:` and `Homepage:`, each taken out in turn; what is left is
/// kept as unparsed.
pub open spec fn package_spec(m: FieldsSpec, style: StyleSpec) -> Result<PackageSpec, Error> {
    let m1 = m.remove("Architecture"@);
    let m2 = m1.remove("Original-Maintainer"@);
    let m3 = m2.remove("Package"@);
    let m4 = m3.remove("Version"@);
    let m5 = m4.remove("Priority"@);
    let m6 = m5.remove("Section"@);
    let m7 = m6.remove("Maintainer"@);
    let m8 = m7.remove("Homepage"@);
    match one_line_req_spec(m.get("Architecture"@)) {
        Err(e) => Err(e),
        Ok(al) => match arches_spec(al) {
            Err(e) => Err(e),
            Ok(arches) => match opt_idents(one_line_opt_spec(m1.get("Original-Maintainer"@))) {
                Err(e) => Err(e),
                Ok(original_maintainer) => match one_line_req_spec(m2.get("Package"@)) {
                    Err(e) => Err(e),
                    Ok(name) => match one_line_req_spec(m3.get("Version"@)) {
                        Err(e) => Err(e),
                        Ok(version) => match opt_priority(one_line_opt_spec(m4.get("Priority"@))) {
                            Err(e) => Err(e),
                            Ok(priority) => match one_line_req_spec(m5.get("Section"@)) {
                                Err(e) => Err(e),
                                Ok(section) => match one_line_req_spec(m6.get("Maintainer"@)) {
                                    Err(e) => Err(e),
                                    Ok(ml) => match crate::ident::read_spec(ml) {
                                        Err(e) => Err(e),
                                        Ok(maintainer) => match one_line_opt_spec(
                                            m7.get("Homepage"@),
                                        ) {
                                            Err(e) => Err(e),
                                            Ok(homepage) => Ok(
                                                PackageSpec {
                                                    name,
                                                    version,
                                                    priority,
                                                    arches,
                                                    section,
                                                    maintainer,
                                                    original_maintainer,
                                                    homepage,
                                                    unparsed: m8,
                                                    style,
                                                },
                                            ),
                                        },
                                    },
                                },
                            },
                        },
                    },
                },
            },
        },
    }
}

/// A package paragraph read: `Package:` must be a single line; a paragraph
/// with `Binary:` is a source package, any other a binary package.
pub open spec fn parse_spec(m: FieldsSpec) -> Result<PackageSpec, Error> {
    match one_line_req_spec(m.get("Package"@)) {
        Err(e) => Err(e),
        Ok(_) => if m.contains_key("Binary"@) {
            match source_spec(m) {
                Err(e) => Err(e),
                Ok((s, m1)) => package_spec(m1, StyleSpec::Source(s)),
            }
        } else {
            match binary_spec(m) {
                Err(e) => Err(e),
                Ok((b, m1)) => package_spec(m1, StyleSpec::Binary(b)),
            }
        },
    }
}

fn contains_arch(v: &Vec<Arch>, x: Arch) -> (r: bool)
    ensures
        r == v@.contains(x),
{
    let mut k: usize = 0;
    while k < v.len()
        invariant
            k <= v@.len(),
            forall|m: int| 0 <= m < k ==> v@[m] != x,
        decreases v@.len() - k,
    {
        if v[k] == x {
            assert(v@[k as int] == x);
            return true;
        }
        k = k + 1;
    }
    false
}

/// Read the architectures of an `Architecture:` line.
pub fn arches_of(l: &[char]) -> (r: Result<Vec<Arch>, Error>)
    ensures
        match r {
            Ok(v) => arches_spec(l@) == Ok::<Seq<Arch>, Error>(v@),
            Err(e) => arches_spec(l@) == Err::<Seq<Arch>, Error>(e),
        },
{
    let ws = split_ws(l);
    let ghost w = words(l@);
    let ghost all = Seq::new(w.len(), |i: int| arch_named(w[i])->0);
    let mut out: Vec<Arch> = Vec::new();
    let mut k: usize = 0;
    assert(all.take(0) =~= Seq::<Arch>::empty());
    while k < ws.len()
        invariant
            k <= ws@.len(),
            w == texts(ws@),
            w == words(l@),
            all == Seq::new(w.len(), |i: int| arch_named(w[i])->0),
            forall|i: int| 0 <= i < k ==> #[trigger] arch_named(w[i]) is Some,
            out@ == dedup(all.take(k as int)),
        decreases ws@.len() - k,
    {
        assert(w[k as int] == ws@[k as int]@);
        match parse_arch(ws[k].as_slice()) {
            None => {
                assert(arch_named(w[k as int]) is None);
                return Err(Error::UnknownArch);
            },
            Some(a) => {
                let ghost prefix = all.take(k as int);
                assert(all.take(k + 1) =~= prefix.push(a));
                assert(all.take(k + 1).drop_last() =~= prefix);
                if !contains_arch(&out, a) {
                    out.push(a);
                }
            },
        }
        k = k + 1;
    }
    assert(all.take(ws@.len() as int) =~= all);
    Ok(out)
}

fn take_priority(map: &mut FieldMap) -> (r: Result<Priority, Error>)
    requires
        old(map).wf(),
    ensures
        final(map).wf(),
        final(map).map() == old(map).map().remove("Priority"@),
        r == opt_priority(one_line_opt_spec(old(map).map().get("Priority"@))),
{
    match take_opt_line(map, "Priority")? {
        Some(l) => priority_of(l.as_slice()),
        None => Ok(Priority::Unknown),
    }
}

/// The shared package fields, taken out of the map; the rest is kept as unparsed.
fn parse_pkg(map: &mut FieldMap, style: PackageType) -> (r: Result<Package, Error>)
    requires
        old(map).wf(),
    ensures
        final(map).wf(),
        match (r, package_spec(old(map).map(), style.spec())) {
            (Ok(p), Ok(sp)) => p.spec() == sp && final(map).map() == sp.unparsed,
            (Err(e), Err(se)) => e == se,
            _ => false,
        },
{
    let al = map.take_one_line("Architecture")?;
    let arches = arches_of(al.as_slice())?;
    let original_maintainer = take_opt_idents(map, "Original-Maintainer")?;
    let name = take_req_string(map, "Package")?;
    let version = take_req_string(map, "Version")?;
    let priority = take_priority(map)?;
    let section = take_req_string(map, "Section")?;
    let ml = take_req_string(map, "Maintainer")?;
    let maintainer = crate::ident::read(ml.as_str())?;
    let homepage = take_opt_string(map, "Homepage")?;
    let unparsed = map.copy();
    Ok(
        Package {
            name,
            version,
            priority,
            arches,
            section,
            maintainer,
            original_maintainer,
            homepage,
            unparsed,
            style,
        },
    )
}

impl Package {
    /// Read a package paragraph: its fields are taken out of the map as they
    /// are read, and those left over are kept as unparsed.
    pub fn parse(map: &mut FieldMap) -> (r: Result<Package, Error>)
        requires
            old(map).wf(),
        ensures
            final(map).wf(),
            match (r, parse_spec(old(map).map())) {
                (Ok(p), Ok(sp)) => p.spec() == sp && final(map).map() == sp.unparsed,
                (Err(e), Err(se)) => e == se,
                _ => false,
            },
    {
        let _name = map.get_value("Package").one_line_req()?;
        let style = if map.contains_key("Binary") {
            PackageType::Source(parse_src(map)?)
        } else {
            PackageType::Binary(parse_bin(map)?)
        };
        parse_pkg(map, style)
    }

    /// The source fields, for a source package.
    pub fn as_src(&self) -> (r: Option<&Source>)
        ensures
            match self.style {
                PackageType::Source(s) => r == Some(&s),
                PackageType::Binary(_) => r is None,
            },
    {
        match &self.style {
            PackageType::Source(src) => Some(src),
            _ => None,
        }
    }

    /// The binary fields, for a binary package.
    pub fn as_bin(&self) -> (r: Option<&Binary>)
        ensures
            match self.style {
                PackageType::Binary(b) => r == Some(&b),
                PackageType::Source(_) => r is None,
            },
    {
        match &self.style {
            PackageType::Binary(bin) => Some(bin),
            _ => None,
        }
    }

    /// The binary fields, for a binary package.
    pub fn bin(&self) -> (r: Option<&Binary>)
        ensures
            match self.style {
                PackageType::Binary(b) => r == Some(&b),
                PackageType::Source(_) => r is None,
            },
    {
        self.as_bin()
    }
}

// ---------------------------------------------------------------------------
// What reading leaves unparsed.

/// The fields that every package paragraph's reading takes out.
pub open spec fn package_keys() -> Set<Seq<char>> {
    set![
        "Architecture"@,
        "Original-Maintainer"@,
        "Package"@,
        "Version"@,
        "Priority"@,
        "Section"@,
        "Maintainer"@,
        "Homepage"@
    ]
}

/// The fields a binary paragraph's reading takes out: the file's fields
/// when `Filename:` is present, the flags, the texts, the relations and the
/// fields every package has.
pub open spec fn binary_read_keys(m: FieldsSpec) -> Set<Seq<char>> {
    let file_keys = if m.contains_key("Filename"@) {
        set!["Filename"@, "Size"@, "MD5sum"@, "SHA1"@, "SHA256"@]
    } else {
        Set::empty()
    };
    file_keys + set![
        "Installed-Size"@,
        "Essential"@,
        "Build-Essential"@,
        "Description"@,
        "Source"@,
        "Status"@
    ] + binary_dep_keys().to_set() + package_keys()
}

proof fn lemma_deps_fields_removed(m: FieldsSpec, keys: Seq<Seq<char>>, i: int)
    requires
        0 <= i <= keys.len(),
        deps_fields_from(m, keys, i) is Ok,
    ensures
        deps_fields_from(m, keys, i)->Ok_0.1 == m.remove_keys(keys.subrange(i, keys.len() as int).to_set()),
    decreases keys.len() - i,
{
    if i < keys.len() {
        lemma_deps_fields_removed(m.remove(keys[i]), keys, i + 1);
        let sa = keys.subrange(i, keys.len() as int);
        let sb = keys.subrange(i + 1, keys.len() as int);
        let a = sa.to_set();
        let b = sb.to_set();
        assert forall|k: Seq<char>| a.contains(k) <==> (k == keys[i] || b.contains(k)) by {
            if a.contains(k) {
                let j = choose|j: int| 0 <= j < sa.len() && #[trigger] sa[j] == k;
                if j > 0 {
                    assert(sb[j - 1] == k);
                }
            }
            if k == keys[i] {
                assert(sa[0] == k);
            }
            if b.contains(k) {
                let j = choose|j: int| 0 <= j < sb.len() && #[trigger] sb[j] == k;
                assert(sa[j + 1] == k);
            }
        }
        assert(m.remove(keys[i]).remove_keys(b) =~= m.remove_keys(a));
    } else {
        assert(keys.subrange(i, keys.len() as int).to_set() =~= Set::<Seq<char>>::empty());
        assert(m.remove_keys(Set::<Seq<char>>::empty()) =~= m);
    }
}

pub open spec fn file_keys(m: FieldsSpec) -> Set<Seq<char>> {
    if m.contains_key("Filename"@) {
        set!["Filename"@, "Size"@, "MD5sum"@, "SHA1"@, "SHA256"@]
    } else {
        Set::empty()
    }
}

proof fn lemma_remove_keys_twice(m: FieldsSpec, a: Set<Seq<char>>, b: Set<Seq<char>>)
    ensures
        m.remove_keys(a).remove_keys(b) == m.remove_keys(a + b),
{
    assert(m.remove_keys(a).remove_keys(b) =~= m.remove_keys(a + b));
}

proof fn lemma_file_removed(m: FieldsSpec)
    requires
        file_spec(m) is Ok,
    ensures
        file_spec(m)->Ok_0.1 == m.remove_keys(file_keys(m)),
{
    if m.contains_key("Filename"@) {
        assert(file_spec(m)->Ok_0.1 =~= m.remove_keys(file_keys(m)));
    } else {
        assert(m.remove_keys(Set::<Seq<char>>::empty()) =~= m);
    }
}

proof fn lemma_flags_removed(m: FieldsSpec)
    requires
        flags_spec(m) is Ok,
    ensures
        flags_spec(m)->Ok_0.1 == m.remove_keys(set!["Installed-Size"@, "Essential"@, "Build-Essential"@]),
{
    assert(flags_spec(m)->Ok_0.1 =~= m.remove_keys(set!["Installed-Size"@, "Essential"@, "Build-Essential"@]));
}

proof fn lemma_texts_removed(m: FieldsSpec)
    requires
        texts_spec(m) is Ok,
    ensures
        texts_spec(m)->Ok_0.1 == m.remove_keys(set!["Description"@, "Source"@, "Status"@]),
{
    assert(texts_spec(m)->Ok_0.1 =~= m.remove_keys(set!["Description"@, "Source"@, "Status"@]));
}

proof fn lemma_package_unparsed(m: FieldsSpec, style: StyleSpec)
    requires
        package_spec(m, style) is Ok,
    ensures
        package_spec(m, style)->Ok_0.unparsed == m.remove_keys(package_keys()),
{
    assert(package_spec(m, style)->Ok_0.unparsed =~= m.remove_keys(package_keys()));
}

proof fn lemma_binary_removed(m: FieldsSpec)
    requires
        binary_spec(m) is Ok,
    ensures
        binary_spec(m)->Ok_0.1 == m.remove_keys(
            file_keys(m) + set!["Installed-Size"@, "Essential"@, "Build-Essential"@] + set![
                "Description"@,
                "Source"@,
                "Status"@
            ] + binary_dep_keys().to_set(),
        ),
{
    let (f, m1) = file_spec(m)->Ok_0;
    let (_, m2) = flags_spec(m1)->Ok_0;
    let (_, m3) = texts_spec(m2)->Ok_0;
    lemma_file_removed(m);
    lemma_flags_removed(m1);
    lemma_texts_removed(m2);
    lemma_deps_fields_removed(m3, binary_dep_keys(), 0);
    assert(binary_dep_keys().subrange(0, 9) =~= binary_dep_keys());
    let a = file_keys(m);
    let b = set!["Installed-Size"@, "Essential"@, "Build-Essential"@];
    let c = set!["Description"@, "Source"@, "Status"@];
    let d = binary_dep_keys().to_set();
    lemma_remove_keys_twice(m, a, b);
    lemma_remove_keys_twice(m, a + b, c);
    lemma_remove_keys_twice(m, a + b + c, d);
}

/// Reading a binary paragraph leaves as unparsed exactly the fields it
/// does not read, with their values.
pub proof fn law_binary_unparsed(m: FieldsSpec)
    requires
        !m.contains_key("Binary"@),
        parse_spec(m) is Ok,
    ensures
        parse_spec(m)->Ok_0.unparsed == m.remove_keys(binary_read_keys(m)),
{
    let (b, m4) = binary_spec(m)->Ok_0;
    lemma_binary_removed(m);
    lemma_package_unparsed(m4, StyleSpec::Binary(b));
    let a = file_keys(m) + set!["Installed-Size"@, "Essential"@, "Build-Essential"@] + set![
        "Description"@,
        "Source"@,
        "Status"@
    ] + binary_dep_keys().to_set();
    lemma_remove_keys_twice(m, a, package_keys());
    assert(a + package_keys() =~= binary_read_keys(m));
}

} // verus!
