//! Version control locations of a source package (`Vcs-Git:` and friends).

use vstd::prelude::*;

use crate::error::Error;
use crate::rfc822::{one_line_opt_spec, FieldMap, FieldsSpec};
use crate::text::{chars_of, concat2, string_of};

verus! {

/// A version control location.
#[derive(Clone, Debug, PartialEq, Eq)]
pub struct Vcs {
    pub description: String,
    pub vcs: VcsType,
    pub tag: VcsTag,
}

/// The kind of version control system.
#[derive(Copy, Clone, Debug, PartialEq, Eq, Structural)]
pub enum VcsType {
    Browser,
    Arch,
    Bzr,
    Cvs,
    Darcs,
    Git,
    Hg,
    Mtn,
    Svn,
}

/// Which tree a location holds.
#[derive(Copy, Clone, Debug, PartialEq, Eq, Structural)]
pub enum VcsTag {
    Vcs,
    Orig,
    Debian,
    Upstream,
}

/// The model of a location.
pub type VcsSpec = (Seq<char>, VcsType, VcsTag);

impl Vcs {
    pub open spec fn spec(&self) -> VcsSpec {
        (self.description@, self.vcs, self.tag)
    }
}

pub open spec fn vcs_specs(v: Seq<Vcs>) -> Seq<VcsSpec> {
    Seq::new(v.len(), |i: int| v[i].spec())
}

/// The field names of the systems, in the order they are looked for.
pub open spec fn vcs_tokens() -> Seq<(Seq<char>, VcsType)> {
    seq![
        ("Arch"@, VcsType::Arch),
        ("Browser"@, VcsType::Browser),
        ("Browse"@, VcsType::Browser),
        ("Bzr"@, VcsType::Bzr),
        ("Cvs"@, VcsType::Cvs),
        ("Darcs"@, VcsType::Darcs),
        ("Git"@, VcsType::Git),
        ("Hg"@, VcsType::Hg),
        ("Mtn"@, VcsType::Mtn),
        ("Svn"@, VcsType::Svn),
    ]
}

/// The field name parts of the trees, in the order they are looked for.
pub open spec fn vcs_tags() -> Seq<(Seq<char>, VcsTag)> {
    seq![
        ("Orig"@, VcsTag::Orig),
        ("Original"@, VcsTag::Orig),
        ("Debian"@, VcsTag::Debian),
        ("Upstream"@, VcsTag::Upstream),
    ]
}

pub open spec fn fget(m: FieldsSpec, k: Seq<char>) -> Option<Seq<Seq<char>>> {
    if m.contains_key(k) {
        Some(m[k])
    } else {
        None
    }
}

/// Take the single-line field `key` out of `m`: its line, if present.
pub open spec fn take_line(m: FieldsSpec, key: Seq<char>) -> Result<
    (Option<Seq<char>>, FieldsSpec),
    Error,
> {
    match one_line_opt_spec(fget(m, key)) {
        Ok(v) => Ok((v, m.remove(key))),
        Err(e) => Err(e),
    }
}

/// The locations of one tree of one system: `Tag-Vcs-Sys`, else `Vcs-Tag-Sys`.
pub open spec fn tag_step(m: FieldsSpec, tok: Seq<char>, ty: VcsType, j: int) -> Result<
    (Seq<VcsSpec>, FieldsSpec),
    Error,
> {
    let (tt, tag) = vcs_tags()[j];
    match take_line(m, tt + "-Vcs-"@ + tok) {
        Err(e) => Err(e),
        Ok((Some(d), m1)) => Ok((seq![(d, ty, tag)], m1)),
        Ok((None, m1)) => match take_line(m1, "Vcs-"@ + tt + "-"@ + tok) {
            Err(e) => Err(e),
            Ok((Some(d), m2)) => Ok((seq![(d, ty, tag)], m2)),
            Ok((None, m2)) => Ok((Seq::empty(), m2)),
        },
    }
}

/// The locations of the trees `j..` of one system.
pub open spec fn tags_from(m: FieldsSpec, tok: Seq<char>, ty: VcsType, j: int) -> Result<
    (Seq<VcsSpec>, FieldsSpec),
    Error,
>
    decreases 4 - j,
{
    if 0 <= j < 4 {
        match tag_step(m, tok, ty, j) {
            Err(e) => Err(e),
            Ok((a, m1)) => match tags_from(m1, tok, ty, j + 1) {
                Err(e) => Err(e),
                Ok((b, m2)) => Ok((a + b, m2)),
            },
        }
    } else {
        Ok((Seq::empty(), m))
    }
}

/// The locations of one system: `Vcs-Sys`, then each tree.
pub open spec fn token_step(m: FieldsSpec, i: int) -> Result<(Seq<VcsSpec>, FieldsSpec), Error> {
    let (tok, ty) = vcs_tokens()[i];
    match take_line(m, "Vcs-"@ + tok) {
        Err(e) => Err(e),
        Ok((d, m1)) => {
            let a = match d {
                Some(d) => seq![(d, ty, VcsTag::Vcs)],
                None => Seq::empty(),
            };
            match tags_from(m1, tok, ty, 0) {
                Err(e) => Err(e),
                Ok((b, m2)) => Ok((a + b, m2)),
            }
        },
    }
}

/// The locations of the systems `i..`.
pub open spec fn extract_from(m: FieldsSpec, i: int) -> Result<(Seq<VcsSpec>, FieldsSpec), Error>
    decreases 10 - i,
{
    if 0 <= i < 10 {
        match token_step(m, i) {
            Err(e) => Err(e),
            Ok((a, m1)) => match extract_from(m1, i + 1) {
                Err(e) => Err(e),
                Ok((b, m2)) => Ok((a + b, m2)),
            },
        }
    } else {
        Ok((Seq::empty(), m))
    }
}

fn concat3(a: &str, b: &str, c: &str) -> (r: String)
    ensures
        r@ == a@ + b@ + c@,
{
    let mut v = chars_of(a);
    let bv = chars_of(b);
    let cv = chars_of(c);
    crate::checksum::append_chars(&mut v, &bv);
    crate::checksum::append_chars(&mut v, &cv);
    string_of(v.as_slice())
}

fn take_line_of(map: &mut FieldMap, key: &str) -> (r: Result<Option<String>, Error>)
    requires
        old(map).wf(),
    ensures
        final(map).wf(),
        match (r, take_line(old(map).map(), key@)) {
            (Ok(Some(d)), Ok((Some(sd), m))) => d@ == sd && final(map).map() == m,
            (Ok(None), Ok((None, m))) => final(map).map() == m,
            (Err(e), Err(se)) => e == se,
            _ => false,
        },
{
    let v = map.remove_value(key);
    assert(v.lines() == fget(old(map).map(), key@));
    v.one_line_owned()
}

fn tag_step_of(
    map: &mut FieldMap,
    out: &mut Vec<Vcs>,
    tok: &str,
    ty: VcsType,
    tt: &str,
    tag: VcsTag,
    j: usize,
) -> (r: Result<(), Error>)
    requires
        old(map).wf(),
        j < 4,
        vcs_tags()[j as int] == (tt@, tag),
    ensures
        final(map).wf(),
        match (r, tag_step(old(map).map(), tok@, ty, j as int)) {
            (Ok(()), Ok((a, m))) => vcs_specs(final(out)@) == vcs_specs(old(out)@) + a
                && final(map).map() == m,
            (Err(e), Err(se)) => e == se,
            _ => false,
        },
{
    let k1 = concat3(tt, "-Vcs-", tok);
    match take_line_of(map, k1.as_str())? {
        Some(d) => {
            let ghost before = vcs_specs(out@);
            let x = Vcs { description: d, vcs: ty, tag };
            out.push(x);
            assert(vcs_specs(out@) =~= before + seq![x.spec()]);
            Ok(())
        },
        None => {
            let k2 = concat3("Vcs-", tt, "-");
            let k2 = concat2(k2.as_str(), tok);
            match take_line_of(map, k2.as_str())? {
                Some(d) => {
                    let ghost before = vcs_specs(out@);
                    let x = Vcs { description: d, vcs: ty, tag };
                    out.push(x);
                    assert(vcs_specs(out@) =~= before + seq![x.spec()]);
                    Ok(())
                },
                None => {
                    assert(vcs_specs(out@) =~= vcs_specs(out@) + Seq::<VcsSpec>::empty());
                    Ok(())
                },
            }
        },
    }
}

/// The version control locations of a source package, taken out of the map.
pub fn extract(map: &mut FieldMap) -> (r: Result<Vec<Vcs>, Error>)
    requires
        old(map).wf(),
    ensures
        final(map).wf(),
        match (r, extract_from(old(map).map(), 0)) {
            (Ok(v), Ok((a, m))) => vcs_specs(v@) == a && final(map).map() == m,
            (Err(e), Err(se)) => e == se,
            _ => false,
        },
{
    let tokens: Vec<(&str, VcsType)> = vec![
        ("Arch", VcsType::Arch),
        ("Browser", VcsType::Browser),
        ("Browse", VcsType::Browser),
        ("Bzr", VcsType::Bzr),
        ("Cvs", VcsType::Cvs),
        ("Darcs", VcsType::Darcs),
        ("Git", VcsType::Git),
        ("Hg", VcsType::Hg),
        ("Mtn", VcsType::Mtn),
        ("Svn", VcsType::Svn),
    ];
    let tags: Vec<(&str, VcsTag)> = vec![
        ("Orig", VcsTag::Orig),
        ("Original", VcsTag::Orig),
        ("Debian", VcsTag::Debian),
        ("Upstream", VcsTag::Upstream),
    ];
    let ghost m0 = map.map();
    let mut found: Vec<Vcs> = Vec::new();
    let mut i: usize = 0;
    assert(extract_from(m0, 0) == match extract_from(map.map(), 0) {
        Ok((b, m2)) => Ok((vcs_specs(found@) + b, m2)),
        Err(e) => Err(e),
    }) by {
        match extract_from(map.map(), 0) {
            Ok((b, m2)) => {
                assert(vcs_specs(found@) + b =~= b);
            },
            Err(_) => {},
        }
    }
    while i < 10
        invariant
            i <= 10,
            m0 == old(map).map(),
            map.wf(),
            tokens@.len() == 10,
            tags@.len() == 4,
            forall|t: int| 0 <= t < 10 ==> (#[trigger] tokens@[t]).0@ == vcs_tokens()[t].0
                && tokens@[t].1 == vcs_tokens()[t].1,
            forall|t: int| 0 <= t < 4 ==> (#[trigger] tags@[t]).0@ == vcs_tags()[t].0
                && tags@[t].1 == vcs_tags()[t].1,
            extract_from(m0, 0) == match extract_from(map.map(), i as int) {
                Ok((b, m2)) => Ok((vcs_specs(found@) + b, m2)),
                Err(e) => Err(e),
            },
        decreases 10 - i,
    {
        let (tok, ty) = tokens[i];
        let ghost mi = map.map();
        let ghost f0 = vcs_specs(found@);
        let k0 = concat2("Vcs-", tok);
        let first = match take_line_of(map, k0.as_str()) {
            Ok(f) => f,
            Err(e) => {
                assert(extract_from(mi, i as int) == Err::<(Seq<VcsSpec>, FieldsSpec), Error>(e));
                return Err(e);
            },
        };
        match first {
            Some(d) => {
                found.push(Vcs { description: d, vcs: ty, tag: VcsTag::Vcs });
            },
            None => {},
        }
        let ghost f1 = vcs_specs(found@);
        let ghost m1 = map.map();
        assert(f1 =~= f0 + match take_line(mi, "Vcs-"@ + tok@) {
            Ok((Some(d), _)) => seq![(d, ty, VcsTag::Vcs)],
            _ => Seq::<VcsSpec>::empty(),
        });
        let mut j: usize = 0;
        assert(tags_from(m1, tok@, ty, 0) == match tags_from(map.map(), tok@, ty, 0) {
            Ok((b, m2)) => Ok((vcs_specs(found@).subrange(f1.len() as int, vcs_specs(found@).len() as int) + b, m2)),
            Err(e) => Err(e),
        }) by {
            match tags_from(map.map(), tok@, ty, 0) {
                Ok((b, m2)) => {
                    assert(vcs_specs(found@).subrange(f1.len() as int, vcs_specs(found@).len() as int) + b =~= b);
                },
                Err(_) => {},
            }
        }
        while j < 4
            invariant
                j <= 4,
                map.wf(),
                m0 == old(map).map(),
                i < 10,
                tok@ == vcs_tokens()[i as int].0,
                ty == vcs_tokens()[i as int].1,
                extract_from(m0, 0) == match extract_from(mi, i as int) {
                    Ok((b, m2)) => Ok((f0 + b, m2)),
                    Err(e) => Err(e),
                },
                match take_line(mi, "Vcs-"@ + tok@) {
                    Ok((_, mm)) => mm == m1,
                    Err(_) => false,
                },
                tags@.len() == 4,
                forall|t: int| 0 <= t < 4 ==> (#[trigger] tags@[t]).0@ == vcs_tags()[t].0
                    && tags@[t].1 == vcs_tags()[t].1,
                f1.len() <= vcs_specs(found@).len(),
                vcs_specs(found@).subrange(0, f1.len() as int) == f1,
                tags_from(m1, tok@, ty, 0) == match tags_from(map.map(), tok@, ty, j as int) {
                    Ok((b, m2)) => Ok(
                        (
                            vcs_specs(found@).subrange(
                                f1.len() as int,
                                vcs_specs(found@).len() as int,
                            ) + b,
                            m2,
                        ),
                    ),
                    Err(e) => Err(e),
                },
            decreases 4 - j,
        {
            let (tt, tag) = tags[j];
            let ghost mj = map.map();
            let ghost fj = vcs_specs(found@);
            match tag_step_of(map, &mut found, tok, ty, tt, tag, j) {
                Ok(()) => {},
                Err(e) => {
                    assert(tags_from(mj, tok@, ty, j as int) == Err::<(Seq<VcsSpec>, FieldsSpec), Error>(e));
                    assert(token_step(mi, i as int) == Err::<(Seq<VcsSpec>, FieldsSpec), Error>(e));
                    assert(extract_from(mi, i as int) == Err::<(Seq<VcsSpec>, FieldsSpec), Error>(e));
                    return Err(e);
                },
            }
            proof {
                let fk = vcs_specs(found@);
                assert(fk.subrange(0, f1.len() as int) =~= fj.subrange(0, f1.len() as int));
                match tag_step(mj, tok@, ty, j as int) {
                    Ok((a, _)) => {
                        match tags_from(map.map(), tok@, ty, j + 1) {
                            Ok((b, _)) => {
                                assert(fj.subrange(f1.len() as int, fj.len() as int) + (a + b)
                                    =~= fk.subrange(f1.len() as int, fk.len() as int) + b);
                            },
                            Err(_) => {},
                        }
                    },
                    Err(_) => {},
                }
            }
            j = j + 1;
        }
        proof {
            let fk = vcs_specs(found@);
            let mid = fk.subrange(f1.len() as int, fk.len() as int);
            assert(mid + Seq::<VcsSpec>::empty() =~= mid);
            match extract_from(map.map(), i + 1) {
                Ok((b, _)) => {
                    let a0 = match take_line(mi, "Vcs-"@ + tok@) {
                        Ok((Some(d), _)) => seq![(d, ty, VcsTag::Vcs)],
                        _ => Seq::<VcsSpec>::empty(),
                    };
                    assert(f1 =~= f0 + a0);
                    assert(fk =~= f1 + mid);
                    assert(f0 + ((a0 + mid) + b) =~= fk + b);
                },
                Err(_) => {},
            }
        }
        i = i + 1;
    }
    assert(vcs_specs(found@) + Seq::<VcsSpec>::empty() =~= vcs_specs(found@));
    Ok(found)
}

} // verus!
