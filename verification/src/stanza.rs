//! Reading a binary package straight from the fields of its paragraph, one
//! field at a time: a later field of the same name replaces (or, for
//! relations and maintainers, adds to) an earlier one.

use vstd::prelude::*;

use crate::arch::Arch;
use crate::deps::{dependency_specs, parse_dep, read_spec, Dependency, SingleSpec};
use crate::error::Error;
use crate::ident::{identity_specs, Identity};
use crate::package::{
    arches_spec, priority_named, yes_no_spec, Binary, BinarySpec, IdentsSpec, Package, PackageSpec,
    PackageType, Priority, StyleSpec,
};
use crate::rfc822::{field_at, field_end, one_line, one_line_spec, FieldMap, FieldSpec, FieldsSpec, Scanner, Field};
use crate::text::{chars_eq_str, join, parse_u64, split_ws, string_of, texts, u64_text, words};

verus! {

/// What has been read of a binary paragraph so far.
pub struct StanzaState {
    pub name: Option<Seq<char>>,
    pub version: Option<Seq<char>>,
    pub priority: Option<Priority>,
    pub arches: Option<Seq<Arch>>,
    pub maintainer: IdentsSpec,
    pub essential: Option<bool>,
    pub build_essential: Option<bool>,
    pub installed_size: Option<u64>,
    pub description: Option<Seq<char>>,
    pub deps: Seq<Seq<Seq<SingleSpec>>>,
    pub unparsed: FieldsSpec,
}

/// Nothing read yet.
pub open spec fn empty_state() -> StanzaState {
    StanzaState {
        name: None,
        version: None,
        priority: None,
        arches: None,
        maintainer: Seq::empty(),
        essential: None,
        build_essential: None,
        installed_size: None,
        description: None,
        deps: Seq::new(9, |i: int| Seq::<Seq<SingleSpec>>::empty()),
        unparsed: Map::empty(),
    }
}

/// The architecture names a binary paragraph may list: the twelve that the
/// set of architecture flags has room for.
pub open spec fn flag_arch_name(w: Seq<char>) -> bool {
    ||| w == "amd64"@
    ||| w == "armel"@
    ||| w == "armhf"@
    ||| w == "arm64"@
    ||| w == "i386"@
    ||| w == "mips"@
    ||| w == "mipsel"@
    ||| w == "mips64el"@
    ||| w == "ppc64el"@
    ||| w == "s390x"@
    ||| w == "any"@
    ||| w == "all"@
}

/// The architectures of a binary paragraph's `Architecture:` line: every
/// word must be one of the flag names, and each is read once.
pub open spec fn flag_arches_spec(l: Seq<char>) -> Result<Seq<Arch>, Error> {
    if forall|i: int| 0 <= i < words(l).len() ==> #[trigger] flag_arch_name(words(l)[i]) {
        arches_spec(l)
    } else {
        Err(Error::UnknownArch)
    }
}

fn is_flag_arch_name(w: &[char]) -> (r: bool)
    ensures
        r == flag_arch_name(w@),
{
    chars_eq_str(w, "amd64") || chars_eq_str(w, "armel") || chars_eq_str(w, "armhf")
        || chars_eq_str(w, "arm64") || chars_eq_str(w, "i386") || chars_eq_str(w, "mips")
        || chars_eq_str(w, "mipsel") || chars_eq_str(w, "mips64el") || chars_eq_str(w, "ppc64el")
        || chars_eq_str(w, "s390x") || chars_eq_str(w, "any") || chars_eq_str(w, "all")
}

fn flag_arches_of(l: &[char]) -> (r: Result<Vec<Arch>, Error>)
    ensures
        match r {
            Ok(v) => flag_arches_spec(l@) == Ok::<Seq<Arch>, Error>(v@),
            Err(e) => flag_arches_spec(l@) == Err::<Seq<Arch>, Error>(e),
        },
{
    let ws = split_ws(l);
    let ghost w = words(l@);
    let mut k: usize = 0;
    while k < ws.len()
        invariant
            k <= ws@.len(),
            w == texts(ws@),
            w == words(l@),
            forall|i: int| 0 <= i < k ==> #[trigger] flag_arch_name(w[i]),
        decreases ws@.len() - k,
    {
        assert(w[k as int] == ws@[k as int]@);
        if !is_flag_arch_name(ws[k].as_slice()) {
            return Err(Error::UnknownArch);
        }
        k = k + 1;
    }
    crate::package::arches_of(l)
}

/// The position of a relation field among the binary relations, or -1.
pub open spec fn dep_slot(key: Seq<char>) -> int {
    if key == "Depends"@ {
        0
    } else if key == "Recommends"@ {
        1
    } else if key == "Suggests"@ {
        2
    } else if key == "Enhances"@ {
        3
    } else if key == "Pre-Depends"@ {
        4
    } else if key == "Breaks"@ {
        5
    } else if key == "Conflicts"@ {
        6
    } else if key == "Replaces"@ {
        7
    } else if key == "Provides"@ {
        8
    } else {
        -1
    }
}

/// The state after one more field. Single-line fields must be single lines;
/// a maintainer field that does not read as identities is passed over.
#[verifier::opaque]
pub open spec fn stanza_step(st: StanzaState, f: FieldSpec) -> Result<StanzaState, Error> {
    let (key, values) = f;
    if key == "Package"@ {
        match one_line_spec(values) {
            Err(e) => Err(e),
            Ok(l) => Ok(StanzaState { name: Some(l), ..st }),
        }
    } else if key == "Version"@ {
        match one_line_spec(values) {
            Err(e) => Err(e),
            Ok(l) => Ok(StanzaState { version: Some(l), ..st }),
        }
    } else if key == "Architecture"@ {
        match one_line_spec(values) {
            Err(e) => Err(e),
            Ok(l) => match flag_arches_spec(l) {
                Err(e) => Err(e),
                Ok(a) => Ok(StanzaState { arches: Some(a), ..st }),
            },
        }
    } else if key == "Essential"@ {
        match one_line_spec(values) {
            Err(e) => Err(e),
            Ok(l) => match yes_no_spec(l) {
                Err(e) => Err(e),
                Ok(b) => Ok(StanzaState { essential: Some(b), ..st }),
            },
        }
    } else if key == "Build-Essential"@ {
        match one_line_spec(values) {
            Err(e) => Err(e),
            Ok(l) => match yes_no_spec(l) {
                Err(e) => Err(e),
                Ok(b) => Ok(StanzaState { build_essential: Some(b), ..st }),
            },
        }
    } else if key == "Priority"@ {
        match one_line_spec(values) {
            Err(e) => Err(e),
            Ok(l) => match priority_named(l) {
                None => Err(Error::UnknownPriority),
                Some(p) => Ok(StanzaState { priority: Some(p), ..st }),
            },
        }
    } else if key == "Maintainer"@ {
        match one_line_spec(values) {
            Err(e) => Err(e),
            Ok(l) => match crate::ident::read_spec(l) {
                Ok(ids) => Ok(StanzaState { maintainer: st.maintainer + ids, ..st }),
                Err(_) => Ok(st),
            },
        }
    } else if key == "Installed-Size"@ {
        match one_line_spec(values) {
            Err(e) => Err(e),
            Ok(l) => match u64_text(l) {
                None => Err(Error::BadNumber),
                Some(n) => Ok(StanzaState { installed_size: Some(n), ..st }),
            },
        }
    } else if key == "Description"@ {
        Ok(StanzaState { description: Some(join(values, seq![' '])), ..st })
    } else if dep_slot(key) >= 0 {
        let t = dep_slot(key);
        match read_spec(join(values, seq![' '])) {
            Err(e) => Err(e),
            Ok(d) => Ok(StanzaState { deps: st.deps.update(t, st.deps[t] + d), ..st }),
        }
    } else {
        Ok(StanzaState { unparsed: st.unparsed.insert(key, values), ..st })
    }
}

/// The state after the fields from line `i` on, or the first error.
pub open spec fn stanza_from(lines: Seq<Seq<char>>, i: int, st: StanzaState) -> Result<StanzaState, Error>
    decreases lines.len() - i,
{
    if 0 <= i < lines.len() {
        match field_at(lines, i) {
            Err(e) => Err(e),
            Ok(f) => match stanza_step(st, f) {
                Err(e) => Err(e),
                Ok(st2) => if i < field_end(lines, i) <= lines.len() {
                    stanza_from(lines, field_end(lines, i), st2)
                } else {
                    Ok(st2)
                },
            },
        }
    } else {
        Ok(st)
    }
}

/// The package read: name, version, priority, architectures and description
/// are required; the flags default to no and the installed size to 0.
pub open spec fn stanza_finish(st: StanzaState) -> Result<PackageSpec, Error> {
    if st.name is None || st.version is None || st.priority is None || st.arches is None
        || st.description is None {
        Err(Error::MissingField)
    } else {
        Ok(
            PackageSpec {
                name: st.name->0,
                version: st.version->0,
                priority: st.priority->0,
                arches: st.arches->0,
                section: Seq::empty(),
                maintainer: st.maintainer,
                original_maintainer: Seq::empty(),
                homepage: None,
                unparsed: st.unparsed,
                style: StyleSpec::Binary(
                    BinarySpec {
                        file: None,
                        essential: match st.essential {
                            Some(b) => b,
                            None => false,
                        },
                        build_essential: match st.build_essential {
                            Some(b) => b,
                            None => false,
                        },
                        installed_size: match st.installed_size {
                            Some(n) => n,
                            None => 0,
                        },
                        description: st.description->0,
                        source: None,
                        status: None,
                        deps: st.deps,
                    },
                ),
            },
        )
    }
}

/// A binary package read from the lines of a paragraph, from line `i` on.
pub open spec fn stanza_spec(lines: Seq<Seq<char>>, i: int) -> Result<PackageSpec, Error> {
    match stanza_from(lines, i, empty_state()) {
        Err(e) => Err(e),
        Ok(st) => stanza_finish(st),
    }
}

struct StanzaFields {
    name: Option<Vec<char>>,
    version: Option<Vec<char>>,
    priority: Option<Priority>,
    arches: Option<Vec<Arch>>,
    maintainer: Vec<Identity>,
    essential: Option<bool>,
    build_essential: Option<bool>,
    installed_size: Option<u64>,
    description: Option<Vec<char>>,
    depends: Vec<Dependency>,
    recommended: Vec<Dependency>,
    suggests: Vec<Dependency>,
    enhances: Vec<Dependency>,
    pre_depends: Vec<Dependency>,
    breaks: Vec<Dependency>,
    conflicts: Vec<Dependency>,
    replaces: Vec<Dependency>,
    provides: Vec<Dependency>,
    unparsed: FieldMap,
}

spec fn opt_chars(v: Option<Vec<char>>) -> Option<Seq<char>> {
    match v {
        Some(x) => Some(x@),
        None => None,
    }
}

impl StanzaFields {
    spec fn spec(&self) -> StanzaState {
        StanzaState {
            name: opt_chars(self.name),
            version: opt_chars(self.version),
            priority: self.priority,
            arches: match self.arches {
                Some(a) => Some(a@),
                None => None,
            },
            maintainer: identity_specs(self.maintainer@),
            essential: self.essential,
            build_essential: self.build_essential,
            installed_size: self.installed_size,
            description: opt_chars(self.description),
            deps: seq![
                dependency_specs(self.depends@),
                dependency_specs(self.recommended@),
                dependency_specs(self.suggests@),
                dependency_specs(self.enhances@),
                dependency_specs(self.pre_depends@),
                dependency_specs(self.breaks@),
                dependency_specs(self.conflicts@),
                dependency_specs(self.replaces@),
                dependency_specs(self.provides@),
            ],
            unparsed: self.unparsed.map(),
        }
    }

    fn new() -> (r: StanzaFields)
        ensures
            r.spec() == empty_state(),
            r.unparsed.wf(),
    {
        let r = StanzaFields {
            name: None,
            version: None,
            priority: None,
            arches: None,
            maintainer: Vec::new(),
            essential: None,
            build_essential: None,
            installed_size: None,
            description: None,
            depends: Vec::new(),
            recommended: Vec::new(),
            suggests: Vec::new(),
            enhances: Vec::new(),
            pre_depends: Vec::new(),
            breaks: Vec::new(),
            conflicts: Vec::new(),
            replaces: Vec::new(),
            provides: Vec::new(),
            unparsed: FieldMap::new(),
        };
        assert(identity_specs(r.maintainer@) =~= Seq::<(Seq<char>, Seq<char>)>::empty());
        assert(dependency_specs(r.depends@) =~= Seq::<Seq<SingleSpec>>::empty());
        assert(r.spec().deps =~= empty_state().deps);
        r
    }

    fn add_deps(&mut self, t: usize, more: Vec<Dependency>)
        requires
            t < 9,
        ensures
            final(self).spec() == (StanzaState {
                deps: old(self).spec().deps.update(
                    t as int,
                    old(self).spec().deps[t as int] + dependency_specs(more@),
                ),
                ..old(self).spec()
            }),
            final(self).unparsed == old(self).unparsed,
    {
        let mut more = more;
        let ghost before = self.spec().deps;
        let ghost m = dependency_specs(more@);
        if t == 0 {
            let ghost a = self.depends@;
            self.depends.append(&mut more);
            assert(dependency_specs(self.depends@) =~= dependency_specs(a) + m);
        } else if t == 1 {
            let ghost a = self.recommended@;
            self.recommended.append(&mut more);
            assert(dependency_specs(self.recommended@) =~= dependency_specs(a) + m);
        } else if t == 2 {
            let ghost a = self.suggests@;
            self.suggests.append(&mut more);
            assert(dependency_specs(self.suggests@) =~= dependency_specs(a) + m);
        } else if t == 3 {
            let ghost a = self.enhances@;
            self.enhances.append(&mut more);
            assert(dependency_specs(self.enhances@) =~= dependency_specs(a) + m);
        } else if t == 4 {
            let ghost a = self.pre_depends@;
            self.pre_depends.append(&mut more);
            assert(dependency_specs(self.pre_depends@) =~= dependency_specs(a) + m);
        } else if t == 5 {
            let ghost a = self.breaks@;
            self.breaks.append(&mut more);
            assert(dependency_specs(self.breaks@) =~= dependency_specs(a) + m);
        } else if t == 6 {
            let ghost a = self.conflicts@;
            self.conflicts.append(&mut more);
            assert(dependency_specs(self.conflicts@) =~= dependency_specs(a) + m);
        } else if t == 7 {
            let ghost a = self.replaces@;
            self.replaces.append(&mut more);
            assert(dependency_specs(self.replaces@) =~= dependency_specs(a) + m);
        } else {
            let ghost a = self.provides@;
            self.provides.append(&mut more);
            assert(dependency_specs(self.provides@) =~= dependency_specs(a) + m);
        }
        assert(self.spec().deps =~= before.update(t as int, before[t as int] + m));
    }
}

fn dep_slot_of(key: &[char]) -> (r: Option<usize>)
    ensures
        match r {
            Some(t) => t < 9 && dep_slot(key@) == t,
            None => dep_slot(key@) == -1,
        },
{
    if chars_eq_str(key, "Depends") {
        Some(0)
    } else if chars_eq_str(key, "Recommends") {
        Some(1)
    } else if chars_eq_str(key, "Suggests") {
        Some(2)
    } else if chars_eq_str(key, "Enhances") {
        Some(3)
    } else if chars_eq_str(key, "Pre-Depends") {
        Some(4)
    } else if chars_eq_str(key, "Breaks") {
        Some(5)
    } else if chars_eq_str(key, "Conflicts") {
        Some(6)
    } else if chars_eq_str(key, "Replaces") {
        Some(7)
    } else if chars_eq_str(key, "Provides") {
        Some(8)
    } else {
        None
    }
}

fn stanza_step_of(st: &mut StanzaFields, f: Field) -> (r: Result<(), Error>)
    requires
        old(st).unparsed.wf(),
    ensures
        final(st).unparsed.wf(),
        match (r, stanza_step(old(st).spec(), f.spec())) {
            (Ok(()), Ok(s)) => final(st).spec() == s,
            (Err(e), Err(se)) => e == se,
            _ => false,
        },
{
    proof {
        reveal(stanza_step);
    }
    let Field { key, values } = f;
    let k = key.as_slice();
    if chars_eq_str(k, "Package") {
        let l = one_line(values.as_slice())?;
        st.name = Some(l);
    } else if chars_eq_str(k, "Version") {
        let l = one_line(values.as_slice())?;
        st.version = Some(l);
    } else if chars_eq_str(k, "Architecture") {
        let l = one_line(values.as_slice())?;
        let a = flag_arches_of(l.as_slice())?;
        st.arches = Some(a);
    } else if chars_eq_str(k, "Essential") {
        let l = one_line(values.as_slice())?;
        let b = crate::package::yes_no(l.as_slice())?;
        st.essential = Some(b);
    } else if chars_eq_str(k, "Build-Essential") {
        let l = one_line(values.as_slice())?;
        let b = crate::package::yes_no(l.as_slice())?;
        st.build_essential = Some(b);
    } else if chars_eq_str(k, "Priority") {
        let l = one_line(values.as_slice())?;
        let p = crate::package::priority_of(l.as_slice())?;
        st.priority = Some(p);
    } else if chars_eq_str(k, "Maintainer") {
        let l = one_line(values.as_slice())?;
        let s = string_of(l.as_slice());
        match crate::ident::read(s.as_str()) {
            Ok(ids) => {
                let ghost before = identity_specs(st.maintainer@);
                let mut ids = ids;
                let ghost added = identity_specs(ids@);
                st.maintainer.append(&mut ids);
                assert(identity_specs(st.maintainer@) =~= before + added);
            },
            Err(_) => {},
        }
    } else if chars_eq_str(k, "Installed-Size") {
        let l = one_line(values.as_slice())?;
        let n = parse_u64(l.as_slice())?;
        st.installed_size = Some(n);
    } else if chars_eq_str(k, "Description") {
        st.description = Some(crate::rfc822::joined(values.as_slice()));
    } else {
        match dep_slot_of(k) {
            Some(t) => {
                let d = parse_dep(values.as_slice())?;
                st.add_deps(t, d);
            },
            None => {
                st.unparsed.insert(key, values);
            },
        }
    }
    Ok(())
}

fn stanza_finish_of(st: StanzaFields) -> (r: Result<Package, Error>)
    requires
        st.unparsed.wf(),
    ensures
        match (r, stanza_finish(st.spec())) {
            (Ok(p), Ok(sp)) => p.spec() == sp,
            (Err(e), Err(se)) => e == se,
            _ => false,
        },
{
    let StanzaFields {
        name,
        version,
        priority,
        arches,
        maintainer,
        essential,
        build_essential,
        installed_size,
        description,
        depends,
        recommended,
        suggests,
        enhances,
        pre_depends,
        breaks,
        conflicts,
        replaces,
        provides,
        unparsed,
    } = st;
    let name = match name {
        Some(n) => n,
        None => {
            return Err(Error::MissingField);
        },
    };
    let version = match version {
        Some(v) => v,
        None => {
            return Err(Error::MissingField);
        },
    };
    let priority = match priority {
        Some(p) => p,
        None => {
            return Err(Error::MissingField);
        },
    };
    let arches = match arches {
        Some(a) => a,
        None => {
            return Err(Error::MissingField);
        },
    };
    let description = match description {
        Some(d) => d,
        None => {
            return Err(Error::MissingField);
        },
    };
    let bin = Binary {
        file: None,
        essential: match essential {
            Some(b) => b,
            None => false,
        },
        build_essential: match build_essential {
            Some(b) => b,
            None => false,
        },
        installed_size: match installed_size {
            Some(n) => n,
            None => 0,
        },
        description: string_of(description.as_slice()),
        source: None,
        status: None,
        depends,
        recommended,
        suggests,
        enhances,
        pre_depends,
        breaks,
        conflicts,
        replaces,
        provides,
    };
    let p = Package {
        name: string_of(name.as_slice()),
        version: string_of(version.as_slice()),
        priority,
        arches,
        section: String::new(),
        maintainer,
        original_maintainer: Vec::new(),
        homepage: None,
        unparsed,
        style: PackageType::Binary(bin),
    };
    assert(identity_specs(p.original_maintainer@) =~= Seq::<(Seq<char>, Seq<char>)>::empty());
    assert(p.section@ =~= Seq::<char>::empty());
    Ok(p)
}

fn read_fields(it: &mut Scanner, st: &mut StanzaFields) -> (r: Result<(), Error>)
    requires
        0 <= old(it).pos() <= old(it).text().len(),
        old(st).unparsed.wf(),
    ensures
        final(st).unparsed.wf(),
        match (r, stanza_from(old(it).text(), old(it).pos(), old(st).spec())) {
            (Ok(()), Ok(s)) => final(st).spec() == s,
            (Err(e), Err(se)) => e == se,
            _ => false,
        },
{
    let ghost text = it.text();
    loop
        invariant
            it.text() == text,
            text == old(it).text(),
            0 <= it.pos() <= text.len(),
            st.unparsed.wf(),
            stanza_from(text, old(it).pos(), old(st).spec()) == stanza_from(text, it.pos(), st.spec()),
        decreases text.len() - it.pos(),
    {
        let ghost pos = it.pos();
        match it.next_field() {
            None => {
                return Ok(());
            },
            Some(Err(e)) => {
                return Err(e);
            },
            Some(Ok(f)) => {
                let ghost s0 = st.spec();
                match stanza_step_of(st, f) {
                    Ok(()) => {},
                    Err(e) => {
                        assert(stanza_from(text, pos, s0) == Err::<StanzaState, Error>(e));
                        return Err(e);
                    },
                }
                assert(stanza_from(text, pos, s0) == stanza_from(text, it.pos(), st.spec()));
            },
        }
    }
}

impl Package {
    /// Read a binary package from the fields of a paragraph, in order.
    pub fn parse_bin(it: Scanner) -> (r: Result<Package, Error>)
        requires
            0 <= it.pos() <= it.text().len(),
        ensures
            match (r, stanza_spec(it.text(), it.pos())) {
                (Ok(p), Ok(sp)) => p.spec() == sp,
                (Err(e), Err(se)) => e == se,
                _ => false,
            },
    {
        let mut sc = it;
        let mut st = StanzaFields::new();
        read_fields(&mut sc, &mut st)?;
        stanza_finish_of(st)
    }
}

} // verus!
