//! Dependency relations, e.g. `foo (>= 2.1) | bar:any [linux-any] <!nocheck>, baz`.
//!
//! The grammar, as the spec functions below state it:
//!
//! ```text
//! list       = dep ( ws* "," dep )* ws*          (or only ws*)
//! dep        = ws* single ( ws* "|" ws* single )*
//! single     = name ws* (":" arch)? ws* constraint* ws* filter? ws* stage*
//! constraint = ws* "(" op " "* version ")"
//! op         = ">=" | "<=" | ">>" | "<<" | ">" | "<" | "="
//! filter     = "[" ("!"? arch)+ "]"
//! stage      = "<" (anything but ">")* ">"
//! ```
//!
//! where `ws` is a space, tab, carriage return or newline, a name is made of
//! alphanumerics and `.+-`, a version of alphanumerics and `.~+:-`, and an
//! architecture of alphanumerics and `-`.

use vstd::prelude::*;

use crate::arch::{arch_named, parse_arch, Arch};
use crate::error::Error;
use crate::rfc822::{joined, to_strings};
use crate::text::{
    chars_of, find_char_from, find_from, is_alphanumeric, join, lemma_find_bounds, slice_chars,
    string_of, texts, unicode_alphanumeric,
};

verus! {

/// An operator inside a constraint, e.g. `>=`.
#[derive(Clone, Copy, Debug, PartialEq, Eq, Structural)]
pub enum ConstraintOperator {
    Ge,
    Eq,
    Le,
    Gt,
    Lt,
}

/// A constraint on a version, e.g. `>= 2.1`.
#[derive(Clone, Debug, PartialEq, Eq)]
pub struct Constraint {
    pub version: String,
    pub operator: ConstraintOperator,
}

/// The model of a constraint.
#[verifier::ext_equal]
pub struct ConstraintSpec {
    pub version: Seq<char>,
    pub operator: ConstraintOperator,
}

/// A dependency on one package, e.g. `foo (>= 2.1) [!linux] <first>`.
#[derive(Clone, Debug, PartialEq, Eq, Default)]
pub struct SingleDependency {
    pub package: String,
    pub arch: Option<Arch>,
    pub version_constraints: Vec<Constraint>,
    /// Distinct (positive?, architecture) pairs, in the order first written.
    pub arch_filter: Vec<(bool, Arch)>,
    pub stage_filter: Vec<String>,
}

/// The model of a dependency on one package.
#[verifier::ext_equal]
pub struct SingleSpec {
    pub package: Seq<char>,
    pub arch: Option<Arch>,
    pub version_constraints: Seq<ConstraintSpec>,
    pub arch_filter: Seq<(bool, Arch)>,
    pub stage_filter: Seq<Seq<char>>,
}

/// Alternatives, any one of which satisfies the dependency, e.g. `foo | bar`.
#[derive(Clone, Debug, PartialEq, Eq)]
pub struct Dependency {
    pub alternate: Vec<SingleDependency>,
}

impl Constraint {
    pub open spec fn spec(&self) -> ConstraintSpec {
        ConstraintSpec { version: self.version@, operator: self.operator }
    }

    /// A constraint with the given operator and version.
    pub fn new(operator: ConstraintOperator, version: &str) -> (r: Constraint)
        ensures
            r.operator == operator,
            r.version@ == version@,
    {
        Constraint { operator, version: version.to_string() }
    }
}

pub open spec fn constraint_specs(v: Seq<Constraint>) -> Seq<ConstraintSpec> {
    Seq::new(v.len(), |i: int| v[i].spec())
}

impl SingleDependency {
    pub open spec fn spec(&self) -> SingleSpec {
        SingleSpec {
            package: self.package@,
            arch: self.arch,
            version_constraints: constraint_specs(self.version_constraints@),
            arch_filter: self.arch_filter@,
            stage_filter: Seq::new(self.stage_filter@.len(), |i: int| self.stage_filter@[i]@),
        }
    }
}

impl Dependency {
    pub open spec fn spec(&self) -> Seq<SingleSpec> {
        Seq::new(self.alternate@.len(), |i: int| self.alternate@[i].spec())
    }
}

pub open spec fn dependency_specs(v: Seq<Dependency>) -> Seq<Seq<SingleSpec>> {
    Seq::new(v.len(), |i: int| v[i].spec())
}

// ---------------------------------------------------------------------------
// The grammar, over characters.
/// Space, tab, carriage return or newline.
pub open spec fn is_space(c: char) -> bool {
    c == ' ' || c == '\t' || c == '\r' || c == '\n'
}

/// First index at or after `i` that holds no space.
pub open spec fn skip_space(s: Seq<char>, i: int) -> int
    decreases s.len() - i,
{
    if 0 <= i < s.len() && is_space(s[i]) {
        skip_space(s, i + 1)
    } else {
        i
    }
}

/// First index at or after `i` that holds no `' '`.
pub open spec fn skip_blank(s: Seq<char>, i: int) -> int
    decreases s.len() - i,
{
    if 0 <= i < s.len() && s[i] == ' ' {
        skip_blank(s, i + 1)
    } else {
        i
    }
}

/// The characters a name, a version or an architecture is made of.
#[derive(Clone, Copy)]
pub enum CharClass {
    Package,
    Version,
    ArchName,
}

pub open spec fn in_class(c: char, k: CharClass) -> bool {
    match k {
        CharClass::Package => unicode_alphanumeric(c) || c == '.' || c == '+' || c == '-',
        CharClass::Version => unicode_alphanumeric(c) || c == '.' || c == '~' || c == '+' || c
            == ':' || c == '-',
        CharClass::ArchName => unicode_alphanumeric(c) || c == '-',
    }
}

/// End of the run of characters of class `k` that starts at `i`.
pub open spec fn run_end(s: Seq<char>, i: int, k: CharClass) -> int
    decreases s.len() - i,
{
    if 0 <= i < s.len() && in_class(s[i], k) {
        run_end(s, i + 1, k)
    } else {
        i
    }
}

/// The operator at `i`, longest match first.
pub open spec fn op_at(s: Seq<char>, i: int) -> Option<(ConstraintOperator, int)> {
    if 0 <= i && i + 1 < s.len() && s[i] == '>' && s[i + 1] == '=' {
        Some((ConstraintOperator::Ge, i + 2))
    } else if 0 <= i && i + 1 < s.len() && s[i] == '<' && s[i + 1] == '=' {
        Some((ConstraintOperator::Le, i + 2))
    } else if 0 <= i && i + 1 < s.len() && s[i] == '>' && s[i + 1] == '>' {
        Some((ConstraintOperator::Gt, i + 2))
    } else if 0 <= i && i + 1 < s.len() && s[i] == '<' && s[i + 1] == '<' {
        Some((ConstraintOperator::Lt, i + 2))
    } else if 0 <= i < s.len() && s[i] == '>' {
        Some((ConstraintOperator::Gt, i + 1))
    } else if 0 <= i < s.len() && s[i] == '<' {
        Some((ConstraintOperator::Lt, i + 1))
    } else if 0 <= i < s.len() && s[i] == '=' {
        Some((ConstraintOperator::Eq, i + 1))
    } else {
        None
    }
}

/// Each operator token reads as the relation it names: `>=` later or equal,
/// `<=` earlier or equal, `>>` and `>` strictly later, `<<` and `<` strictly
/// earlier, `=` equal; two-character tokens are read whole, and anything
/// else is no operator.
pub proof fn law_operator_tokens(s: Seq<char>, i: int)
    requires
        0 <= i,
    ensures
        i + 2 <= s.len() && s.subrange(i, i + 2) == ">="@ ==> op_at(s, i) == Some((ConstraintOperator::Ge, i + 2)),
        i + 2 <= s.len() && s.subrange(i, i + 2) == "<="@ ==> op_at(s, i) == Some((ConstraintOperator::Le, i + 2)),
        i + 2 <= s.len() && s.subrange(i, i + 2) == ">>"@ ==> op_at(s, i) == Some((ConstraintOperator::Gt, i + 2)),
        i + 2 <= s.len() && s.subrange(i, i + 2) == "<<"@ ==> op_at(s, i) == Some((ConstraintOperator::Lt, i + 2)),
        i < s.len() && s[i] == '>' && !(i + 1 < s.len() && (s[i + 1] == '=' || s[i + 1] == '>'))
            ==> op_at(s, i) == Some((ConstraintOperator::Gt, i + 1)),
        i < s.len() && s[i] == '<' && !(i + 1 < s.len() && (s[i + 1] == '=' || s[i + 1] == '<'))
            ==> op_at(s, i) == Some((ConstraintOperator::Lt, i + 1)),
        i < s.len() && s[i] == '=' ==> op_at(s, i) == Some((ConstraintOperator::Eq, i + 1)),
        !(i < s.len() && (s[i] == '<' || s[i] == '>' || s[i] == '=')) ==> op_at(s, i) is None,
        forall|o: VersionOrder| #[trigger] op_holds(ConstraintOperator::Lt, o) <==> o == VersionOrder::Less,
        forall|o: VersionOrder| #[trigger] op_holds(ConstraintOperator::Le, o) <==> o != VersionOrder::Greater,
        forall|o: VersionOrder| #[trigger] op_holds(ConstraintOperator::Eq, o) <==> o == VersionOrder::Equal,
        forall|o: VersionOrder| #[trigger] op_holds(ConstraintOperator::Ge, o) <==> o != VersionOrder::Less,
        forall|o: VersionOrder| #[trigger] op_holds(ConstraintOperator::Gt, o) <==> o == VersionOrder::Greater,
{
    reveal_strlit(">=");
    reveal_strlit("<=");
    reveal_strlit(">>");
    reveal_strlit("<<");
    if i + 2 <= s.len() {
        let t = s.subrange(i, i + 2);
        assert(t[0] == s[i] && t[1] == s[i + 1]);
    }
}

/// A constraint read from text takes its operator from the text after
/// `(`: `<<` gives strictly earlier, `<=` earlier or equal, `>>` strictly
/// later, `>=` later or equal, and a lone `=` equal.
pub proof fn law_constraint_operator(s: Seq<char>, i: int)
    requires
        constraint_at(s, i) is Some,
        0 <= i,
    ensures
        ({
            let j = skip_space(s, i) + 1;
            let op = constraint_at(s, i)->Some_0.0.operator;
            &&& j + 2 <= s.len() && s.subrange(j, j + 2) == "<<"@ ==> op == ConstraintOperator::Lt
            &&& j + 2 <= s.len() && s.subrange(j, j + 2) == "<="@ ==> op == ConstraintOperator::Le
            &&& j + 2 <= s.len() && s.subrange(j, j + 2) == ">>"@ ==> op == ConstraintOperator::Gt
            &&& j + 2 <= s.len() && s.subrange(j, j + 2) == ">="@ ==> op == ConstraintOperator::Ge
            &&& j < s.len() && s[j] == '=' ==> op == ConstraintOperator::Eq
        }),
{
    let j = skip_space(s, i) + 1;
    law_operator_tokens(s, j);
}

/// A version constraint at `i`: `ws* "(" op " "* version ")"`.
pub open spec fn constraint_at(s: Seq<char>, i: int) -> Option<(ConstraintSpec, int)> {
    let j = skip_space(s, i);
    if 0 <= j < s.len() && s[j] == '(' {
        match op_at(s, j + 1) {
            Some((op, k)) => {
                let v0 = skip_blank(s, k);
                let v1 = run_end(s, v0, CharClass::Version);
                if v0 < v1 < s.len() && s[v1] == ')' {
                    Some((ConstraintSpec { version: s.subrange(v0, v1), operator: op }, v1 + 1))
                } else {
                    None
                }
            },
            None => None,
        }
    } else {
        None
    }
}

/// As many constraints as follow `i`.
pub open spec fn constraints_from(s: Seq<char>, i: int) -> (Seq<ConstraintSpec>, int)
    decreases s.len() - i,
{
    match constraint_at(s, i) {
        Some((c, k)) => if i < k <= s.len() {
            let rest = constraints_from(s, k);
            (seq![c] + rest.0, rest.1)
        } else {
            (Seq::empty(), i)
        },
        None => (Seq::empty(), i),
    }
}

/// An architecture in a filter: `"!"? arch`, with whether it is positive.
pub open spec fn arch_part_at(s: Seq<char>, i: int) -> Option<((bool, Seq<char>), int)> {
    let bang = 0 <= i < s.len() && s[i] == '!';
    let j = if bang {
        i + 1
    } else {
        i
    };
    let e = run_end(s, j, CharClass::ArchName);
    if 0 <= j < e {
        Some(((!bang, s.subrange(j, e)), e))
    } else {
        None
    }
}

/// As many filter architectures as follow `i`.
pub open spec fn arch_parts_from(s: Seq<char>, i: int) -> (Seq<(bool, Seq<char>)>, int)
    decreases s.len() - i,
{
    match arch_part_at(s, i) {
        Some((p, k)) => if i < k <= s.len() {
            let rest = arch_parts_from(s, k);
            (seq![p] + rest.0, rest.1)
        } else {
            (Seq::empty(), i)
        },
        None => (Seq::empty(), i),
    }
}

/// An architecture filter at `i`: `"[" part+ "]"`.
pub open spec fn arch_filter_at(s: Seq<char>, i: int) -> Option<(Seq<(bool, Seq<char>)>, int)> {
    if 0 <= i < s.len() && s[i] == '[' {
        let ps = arch_parts_from(s, i + 1);
        if ps.0.len() > 0 && 0 <= ps.1 < s.len() && s[ps.1] == ']' {
            Some((ps.0, ps.1 + 1))
        } else {
            None
        }
    } else {
        None
    }
}

/// A build stage at `i`: `"<" ... ">"`.
pub open spec fn stage_at(s: Seq<char>, i: int) -> Option<(Seq<char>, int)> {
    if 0 <= i < s.len() && s[i] == '<' {
        let j = find_from(s, '>', i + 1);
        if i + 1 <= j < s.len() {
            Some((s.subrange(i + 1, j), j + 1))
        } else {
            None
        }
    } else {
        None
    }
}

/// As many stages as follow `i`.
pub open spec fn stages_from(s: Seq<char>, i: int) -> (Seq<Seq<char>>, int)
    decreases s.len() - i,
{
    match stage_at(s, i) {
        Some((p, k)) => if i < k <= s.len() {
            let rest = stages_from(s, k);
            (seq![p] + rest.0, rest.1)
        } else {
            (Seq::empty(), i)
        },
        None => (Seq::empty(), i),
    }
}

/// An explicit architecture at `i`: `":" arch`.
pub open spec fn arch_suffix_at(s: Seq<char>, i: int) -> Option<(Seq<char>, int)> {
    if 0 <= i < s.len() && s[i] == ':' {
        let e = run_end(s, i + 1, CharClass::ArchName);
        if i + 1 < e {
            Some((s.subrange(i + 1, e), e))
        } else {
            None
        }
    } else {
        None
    }
}

/// A single dependency as written, before its architectures are read.
#[verifier::ext_equal]
pub struct SingleText {
    pub package: Seq<char>,
    pub arch: Option<Seq<char>>,
    pub constraints: Seq<ConstraintSpec>,
    pub filter: Option<Seq<(bool, Seq<char>)>>,
    pub stages: Seq<Seq<char>>,
}

/// A single dependency at `i`.
pub open spec fn single_at(s: Seq<char>, i: int) -> Option<(SingleText, int)> {
    let e = run_end(s, i, CharClass::Package);
    if 0 <= i < e {
        let j1 = skip_space(s, e);
        let (arch, j2) = match arch_suffix_at(s, j1) {
            Some((a, k)) => (Some(a), k),
            None => (None, j1),
        };
        let j3 = skip_space(s, j2);
        let cs = constraints_from(s, j3);
        let j5 = skip_space(s, cs.1);
        let (filter, j6) = match arch_filter_at(s, j5) {
            Some((f, k)) => (Some(f), k),
            None => (None, j5),
        };
        let j7 = skip_space(s, j6);
        let st = stages_from(s, j7);
        Some(
            (
                SingleText {
                    package: s.subrange(i, e),
                    arch,
                    constraints: cs.0,
                    filter,
                    stages: st.0,
                },
                st.1,
            ),
        )
    } else {
        None
    }
}

/// Further alternatives after `k`: `(ws* "|" ws* single)*`.
pub open spec fn alts_from(s: Seq<char>, k: int) -> (Seq<SingleText>, int)
    decreases s.len() - k,
{
    let a = skip_space(s, k);
    if 0 <= a < s.len() && s[a] == '|' {
        let b = skip_space(s, a + 1);
        match single_at(s, b) {
            Some((x, e)) => if k < e <= s.len() {
                let rest = alts_from(s, e);
                (seq![x] + rest.0, rest.1)
            } else {
                (Seq::empty(), k)
            },
            None => (Seq::empty(), k),
        }
    } else {
        (Seq::empty(), k)
    }
}

/// A dependency (one or more alternatives) at `i`.
pub open spec fn dep_at(s: Seq<char>, i: int) -> Option<(Seq<SingleText>, int)> {
    let j = skip_space(s, i);
    match single_at(s, j) {
        Some((x, k)) => if j < k <= s.len() {
            let rest = alts_from(s, k);
            Some((seq![x] + rest.0, rest.1))
        } else {
            None
        },
        None => None,
    }
}

/// Further dependencies after `k`: `(ws* "," dep)*`.
pub open spec fn more_deps_from(s: Seq<char>, k: int) -> (Seq<Seq<SingleText>>, int)
    decreases s.len() - k,
{
    let a = skip_space(s, k);
    if 0 <= a < s.len() && s[a] == ',' {
        match dep_at(s, a + 1) {
            Some((d, e)) => if k < e <= s.len() {
                let rest = more_deps_from(s, e);
                (seq![d] + rest.0, rest.1)
            } else {
                (Seq::empty(), k)
            },
            None => (Seq::empty(), k),
        }
    } else {
        (Seq::empty(), k)
    }
}

/// The dependencies at the start of `s`, and where they end.
pub open spec fn deps_list(s: Seq<char>) -> (Seq<Seq<SingleText>>, int) {
    match dep_at(s, 0) {
        Some((d, k)) => {
            let rest = more_deps_from(s, k);
            (seq![d] + rest.0, rest.1)
        },
        None => (Seq::empty(), 0),
    }
}

/// The first occurrence of each element, in order.
pub open spec fn dedup<A>(s: Seq<A>) -> Seq<A>
    decreases s.len(),
{
    if s.len() == 0 {
        Seq::empty()
    } else if dedup(s.drop_last()).contains(s.last()) {
        dedup(s.drop_last())
    } else {
        dedup(s.drop_last()).push(s.last())
    }
}

/// A list with its repeats dropped holds each of the list's items exactly
/// once.
pub proof fn law_dedup_once_each<A>(s: Seq<A>)
    ensures
        forall|i: int, j: int| 0 <= i < j < dedup(s).len() ==> #[trigger] dedup(s)[i] != #[trigger] dedup(s)[j],
        forall|x: A| #[trigger] dedup(s).contains(x) <==> s.contains(x),
    decreases s.len(),
{
    if s.len() > 0 {
        let p = s.drop_last();
        law_dedup_once_each(p);
        let d = dedup(p);
        assert forall|x: A| s.contains(x) <==> (p.contains(x) || x == s.last()) by {
            if s.contains(x) {
                let k = choose|k: int| 0 <= k < s.len() && s[k] == x;
                if k < s.len() - 1 {
                    assert(p[k] == x);
                }
            }
            if p.contains(x) {
                let k = choose|k: int| 0 <= k < p.len() && p[k] == x;
                assert(s[k] == x);
            }
            if x == s.last() {
                assert(s[s.len() - 1] == x);
            }
        }
        if !d.contains(s.last()) {
            let d2 = d.push(s.last());
            assert forall|x: A| #[trigger] d2.contains(x) <==> (d.contains(x) || x == s.last()) by {
                if d2.contains(x) {
                    let k = choose|k: int| 0 <= k < d2.len() && d2[k] == x;
                    if k < d.len() {
                        assert(d[k] == x);
                    }
                }
                if d.contains(x) {
                    let k = choose|k: int| 0 <= k < d.len() && d[k] == x;
                    assert(d2[k] == x);
                }
                if x == s.last() {
                    assert(d2[d.len() as int] == x);
                }
            }
            assert forall|i: int, j: int| 0 <= i < j < d2.len() implies #[trigger] d2[i] != #[trigger] d2[j] by {
                if j == d.len() {
                    assert(d2[i] == d[i]);
                    assert(d.contains(d[i]));
                } else {
                    assert(d2[i] == d[i] && d2[j] == d[j]);
                }
            }
        }
    }
}

/// The architectures of a filter, read.
pub open spec fn filter_archs(ps: Seq<(bool, Seq<char>)>) -> Result<Seq<(bool, Arch)>, Error> {
    if forall|i: int| 0 <= i < ps.len() ==> #[trigger] arch_named(ps[i].1) is Some {
        Ok(dedup(Seq::new(ps.len(), |i: int| (ps[i].0, arch_named(ps[i].1)->0))))
    } else {
        Err(Error::UnknownArch)
    }
}

/// A single dependency with its architectures read.
pub open spec fn single_value(t: SingleText) -> Result<SingleSpec, Error> {
    let arch = match t.arch {
        None => Ok(None),
        Some(a) => match arch_named(a) {
            Some(x) => Ok(Some(x)),
            None => Err(Error::UnknownArch),
        },
    };
    let filter = match t.filter {
        None => Ok(Seq::empty()),
        Some(ps) => filter_archs(ps),
    };
    match (arch, filter) {
        (Ok(a), Ok(f)) => Ok(
            SingleSpec {
                package: t.package,
                arch: a,
                version_constraints: t.constraints,
                arch_filter: f,
                stage_filter: t.stages,
            },
        ),
        _ => Err(Error::UnknownArch),
    }
}

/// A dependency with the architectures of each alternative read.
pub open spec fn dep_value(d: Seq<SingleText>) -> Result<Seq<SingleSpec>, Error> {
    if forall|i: int| 0 <= i < d.len() ==> #[trigger] single_value(d[i]) is Ok {
        Ok(Seq::new(d.len(), |i: int| single_value(d[i])->Ok_0))
    } else {
        Err(Error::UnknownArch)
    }
}

/// A dependency list: `TrailingData` unless the grammar covers all of `s`,
/// else the dependencies, or `UnknownArch` if an architecture is not known.
pub open spec fn read_spec(s: Seq<char>) -> Result<Seq<Seq<SingleSpec>>, Error> {
    let (ds, k) = deps_list(s);
    if skip_space(s, k) < s.len() {
        Err(Error::TrailingData)
    } else if forall|i: int| 0 <= i < ds.len() ==> #[trigger] dep_value(ds[i]) is Ok {
        Ok(Seq::new(ds.len(), |i: int| dep_value(ds[i])->Ok_0))
    } else {
        Err(Error::UnknownArch)
    }
}


// ---------------------------------------------------------------------------
// The parser.
proof fn lemma_skip_space_bounds(s: Seq<char>, i: int)
    requires
        0 <= i <= s.len(),
    ensures
        i <= skip_space(s, i) <= s.len(),
    decreases s.len() - i,
{
    if i < s.len() && is_space(s[i]) {
        lemma_skip_space_bounds(s, i + 1);
    }
}

proof fn lemma_skip_blank_bounds(s: Seq<char>, i: int)
    requires
        0 <= i <= s.len(),
    ensures
        i <= skip_blank(s, i) <= s.len(),
    decreases s.len() - i,
{
    if i < s.len() && s[i] == ' ' {
        lemma_skip_blank_bounds(s, i + 1);
    }
}

proof fn lemma_run_end_bounds(s: Seq<char>, i: int, k: CharClass)
    requires
        0 <= i <= s.len(),
    ensures
        i <= run_end(s, i, k) <= s.len(),
    decreases s.len() - i,
{
    if i < s.len() && in_class(s[i], k) {
        lemma_run_end_bounds(s, i + 1, k);
    }
}

fn skip_spaces(s: &[char], i: usize) -> (r: usize)
    requires
        i <= s@.len(),
    ensures
        r == skip_space(s@, i as int),
        i <= r <= s@.len(),
{
    let mut k = i;
    while k < s.len() && (s[k] == ' ' || s[k] == '\t' || s[k] == '\r' || s[k] == '\n')
        invariant
            i <= k <= s@.len(),
            skip_space(s@, i as int) == skip_space(s@, k as int),
        decreases s@.len() - k,
    {
        k = k + 1;
    }
    k
}

fn skip_blanks(s: &[char], i: usize) -> (r: usize)
    requires
        i <= s@.len(),
    ensures
        r == skip_blank(s@, i as int),
        i <= r <= s@.len(),
{
    let mut k = i;
    while k < s.len() && s[k] == ' '
        invariant
            i <= k <= s@.len(),
            skip_blank(s@, i as int) == skip_blank(s@, k as int),
        decreases s@.len() - k,
    {
        k = k + 1;
    }
    k
}

fn class_char(c: char, k: CharClass) -> (r: bool)
    ensures
        r == in_class(c, k),
{
    let a = is_alphanumeric(c);
    match k {
        CharClass::Package => a || c == '.' || c == '+' || c == '-',
        CharClass::Version => a || c == '.' || c == '~' || c == '+' || c == ':' || c == '-',
        CharClass::ArchName => a || c == '-',
    }
}

fn run_end_of(s: &[char], i: usize, k: CharClass) -> (r: usize)
    requires
        i <= s@.len(),
    ensures
        r == run_end(s@, i as int, k),
        i <= r <= s@.len(),
{
    let mut m = i;
    while m < s.len() && class_char(s[m], k)
        invariant
            i <= m <= s@.len(),
            run_end(s@, i as int, k) == run_end(s@, m as int, k),
        decreases s@.len() - m,
    {
        m = m + 1;
    }
    m
}

fn op_of(s: &[char], i: usize) -> (r: Option<(ConstraintOperator, usize)>)
    requires
        i <= s@.len(),
    ensures
        match (r, op_at(s@, i as int)) {
            (Some((o, k)), Some((so, sk))) => o == so && k == sk && k <= s@.len(),
            (None, None) => true,
            _ => false,
        },
{
    let n = s.len();
    let two = i < n && n - i >= 2;
    if two && s[i] == '>' && s[i + 1] == '=' {
        Some((ConstraintOperator::Ge, i + 2))
    } else if two && s[i] == '<' && s[i + 1] == '=' {
        Some((ConstraintOperator::Le, i + 2))
    } else if two && s[i] == '>' && s[i + 1] == '>' {
        Some((ConstraintOperator::Gt, i + 2))
    } else if two && s[i] == '<' && s[i + 1] == '<' {
        Some((ConstraintOperator::Lt, i + 2))
    } else if i < n && s[i] == '>' {
        Some((ConstraintOperator::Gt, i + 1))
    } else if i < n && s[i] == '<' {
        Some((ConstraintOperator::Lt, i + 1))
    } else if i < n && s[i] == '=' {
        Some((ConstraintOperator::Eq, i + 1))
    } else {
        None
    }
}

fn constraint_of(s: &[char], i: usize) -> (r: Option<(Constraint, usize)>)
    requires
        i <= s@.len(),
    ensures
        match (r, constraint_at(s@, i as int)) {
            (Some((c, k)), Some((sc, sk))) => c.spec() == sc && k == sk && k <= s@.len(),
            (None, None) => true,
            _ => false,
        },
{
    let j = skip_spaces(s, i);
    if j < s.len() && s[j] == '(' {
        match op_of(s, j + 1) {
            Some((op, k)) => {
                let v0 = skip_blanks(s, k);
                let v1 = run_end_of(s, v0, CharClass::Version);
                if v0 < v1 && v1 < s.len() && s[v1] == ')' {
                    let v = slice_chars(s, v0, v1);
                    Some((Constraint { version: string_of(v.as_slice()), operator: op }, v1 + 1))
                } else {
                    None
                }
            },
            None => None,
        }
    } else {
        None
    }
}

fn constraints_of(s: &[char], i: usize) -> (r: (Vec<Constraint>, usize))
    requires
        i <= s@.len(),
    ensures
        constraint_specs(r.0@) == constraints_from(s@, i as int).0,
        r.1 == constraints_from(s@, i as int).1,
        i <= r.1 <= s@.len(),
{
    let mut out: Vec<Constraint> = Vec::new();
    let mut k = i;
    loop
        invariant
            i <= k <= s@.len(),
            constraints_from(s@, i as int).0 == constraint_specs(out@) + constraints_from(
                s@,
                k as int,
            ).0,
            constraints_from(s@, i as int).1 == constraints_from(s@, k as int).1,
        ensures
            i <= k <= s@.len(),
            constraints_from(s@, i as int).0 == constraint_specs(out@),
            constraints_from(s@, i as int).1 == k,
        decreases s@.len() - k,
    {
        let ghost before = constraint_specs(out@);
        match constraint_of(s, k) {
            Some((c, e)) => {
                if k < e && e <= s.len() {
                    let ghost cs = c.spec();
                    out.push(c);
                    proof {
                        assert(constraint_specs(out@) =~= before.push(cs));
                        let rest = constraints_from(s@, e as int);
                        assert(before + (seq![cs] + rest.0) =~= before.push(cs) + rest.0);
                    }
                    k = e;
                } else {
                    assert(before + Seq::<ConstraintSpec>::empty() =~= before);
                    break ;
                }
            },
            None => {
                assert(before + Seq::<ConstraintSpec>::empty() =~= before);
                break ;
            },
        }
    }
    (out, k)
}

fn arch_part_of(s: &[char], i: usize) -> (r: Option<((bool, Vec<char>), usize)>)
    requires
        i <= s@.len(),
    ensures
        match (r, arch_part_at(s@, i as int)) {
            (Some((p, k)), Some((sp, sk))) => p.0 == sp.0 && p.1@ == sp.1 && k == sk && k
                <= s@.len(),
            (None, None) => true,
            _ => false,
        },
{
    let bang = i < s.len() && s[i] == '!';
    let j = if bang {
        i + 1
    } else {
        i
    };
    let e = run_end_of(s, j, CharClass::ArchName);
    if j < e {
        Some(((!bang, slice_chars(s, j, e)), e))
    } else {
        None
    }
}

pub open spec fn part_specs(v: Seq<(bool, Vec<char>)>) -> Seq<(bool, Seq<char>)> {
    Seq::new(v.len(), |i: int| (v[i].0, v[i].1@))
}

fn arch_parts_of(s: &[char], i: usize) -> (r: (Vec<(bool, Vec<char>)>, usize))
    requires
        i <= s@.len(),
    ensures
        part_specs(r.0@) == arch_parts_from(s@, i as int).0,
        r.1 == arch_parts_from(s@, i as int).1,
        i <= r.1 <= s@.len(),
{
    let mut out: Vec<(bool, Vec<char>)> = Vec::new();
    let mut k = i;
    loop
        invariant
            i <= k <= s@.len(),
            arch_parts_from(s@, i as int).0 == part_specs(out@) + arch_parts_from(s@, k as int).0,
            arch_parts_from(s@, i as int).1 == arch_parts_from(s@, k as int).1,
        ensures
            i <= k <= s@.len(),
            arch_parts_from(s@, i as int).0 == part_specs(out@),
            arch_parts_from(s@, i as int).1 == k,
        decreases s@.len() - k,
    {
        let ghost before = part_specs(out@);
        match arch_part_of(s, k) {
            Some((p, e)) => {
                if k < e && e <= s.len() {
                    let ghost ps = (p.0, p.1@);
                    out.push(p);
                    proof {
                        assert(part_specs(out@) =~= before.push(ps));
                        let rest = arch_parts_from(s@, e as int);
                        assert(before + (seq![ps] + rest.0) =~= before.push(ps) + rest.0);
                    }
                    k = e;
                } else {
                    assert(before + Seq::<(bool, Seq<char>)>::empty() =~= before);
                    break ;
                }
            },
            None => {
                assert(before + Seq::<(bool, Seq<char>)>::empty() =~= before);
                break ;
            },
        }
    }
    (out, k)
}

fn arch_filter_of(s: &[char], i: usize) -> (r: Option<(Vec<(bool, Vec<char>)>, usize)>)
    requires
        i <= s@.len(),
    ensures
        match (r, arch_filter_at(s@, i as int)) {
            (Some((p, k)), Some((sp, sk))) => part_specs(p@) == sp && k == sk && k <= s@.len(),
            (None, None) => true,
            _ => false,
        },
{
    if i < s.len() && s[i] == '[' {
        let (ps, j) = arch_parts_of(s, i + 1);
        if ps.len() > 0 && j < s.len() && s[j] == ']' {
            Some((ps, j + 1))
        } else {
            None
        }
    } else {
        None
    }
}

fn stage_of(s: &[char], i: usize) -> (r: Option<(Vec<char>, usize)>)
    requires
        i <= s@.len(),
    ensures
        match (r, stage_at(s@, i as int)) {
            (Some((p, k)), Some((sp, sk))) => p@ == sp && k == sk && k <= s@.len(),
            (None, None) => true,
            _ => false,
        },
{
    if i < s.len() && s[i] == '<' {
        let j = find_char_from(s, '>', i + 1);
        proof {
            lemma_find_bounds(s@, '>', i + 1);
        }
        if j < s.len() {
            Some((slice_chars(s, i + 1, j), j + 1))
        } else {
            None
        }
    } else {
        None
    }
}

fn stages_of(s: &[char], i: usize) -> (r: (Vec<Vec<char>>, usize))
    requires
        i <= s@.len(),
    ensures
        texts(r.0@) == stages_from(s@, i as int).0,
        r.1 == stages_from(s@, i as int).1,
        i <= r.1 <= s@.len(),
{
    let mut out: Vec<Vec<char>> = Vec::new();
    let mut k = i;
    loop
        invariant
            i <= k <= s@.len(),
            stages_from(s@, i as int).0 == texts(out@) + stages_from(s@, k as int).0,
            stages_from(s@, i as int).1 == stages_from(s@, k as int).1,
        ensures
            i <= k <= s@.len(),
            stages_from(s@, i as int).0 == texts(out@),
            stages_from(s@, i as int).1 == k,
        decreases s@.len() - k,
    {
        let ghost before = texts(out@);
        match stage_of(s, k) {
            Some((p, e)) => {
                if k < e && e <= s.len() {
                    let ghost ps = p@;
                    out.push(p);
                    proof {
                        assert(texts(out@) =~= before.push(ps));
                        let rest = stages_from(s@, e as int);
                        assert(before + (seq![ps] + rest.0) =~= before.push(ps) + rest.0);
                    }
                    k = e;
                } else {
                    assert(before + Seq::<Seq<char>>::empty() =~= before);
                    break ;
                }
            },
            None => {
                assert(before + Seq::<Seq<char>>::empty() =~= before);
                break ;
            },
        }
    }
    (out, k)
}

fn arch_suffix_of(s: &[char], i: usize) -> (r: Option<(Vec<char>, usize)>)
    requires
        i <= s@.len(),
    ensures
        match (r, arch_suffix_at(s@, i as int)) {
            (Some((p, k)), Some((sp, sk))) => p@ == sp && k == sk && k <= s@.len(),
            (None, None) => true,
            _ => false,
        },
{
    if i < s.len() && s[i] == ':' {
        let e = run_end_of(s, i + 1, CharClass::ArchName);
        if i + 1 < e {
            Some((slice_chars(s, i + 1, e), e))
        } else {
            None
        }
    } else {
        None
    }
}

/// A single dependency as written.
struct SingleRaw {
    package: Vec<char>,
    arch: Option<Vec<char>>,
    constraints: Vec<Constraint>,
    filter: Option<Vec<(bool, Vec<char>)>>,
    stages: Vec<Vec<char>>,
}

impl SingleRaw {
    spec fn spec(&self) -> SingleText {
        SingleText {
            package: self.package@,
            arch: match self.arch {
                Some(a) => Some(a@),
                None => None,
            },
            constraints: constraint_specs(self.constraints@),
            filter: match self.filter {
                Some(f) => Some(part_specs(f@)),
                None => None,
            },
            stages: texts(self.stages@),
        }
    }
}

fn single_of(s: &[char], i: usize) -> (r: Option<(SingleRaw, usize)>)
    requires
        i <= s@.len(),
    ensures
        match (r, single_at(s@, i as int)) {
            (Some((p, k)), Some((sp, sk))) => p.spec() == sp && k == sk && k <= s@.len(),
            (None, None) => true,
            _ => false,
        },
{
    let e = run_end_of(s, i, CharClass::Package);
    if i < e {
        let j1 = skip_spaces(s, e);
        let (arch, j2) = match arch_suffix_of(s, j1) {
            Some((a, k)) => (Some(a), k),
            None => (None, j1),
        };
        let j3 = skip_spaces(s, j2);
        let (constraints, j4) = constraints_of(s, j3);
        let j5 = skip_spaces(s, j4);
        let (filter, j6) = match arch_filter_of(s, j5) {
            Some((f, k)) => (Some(f), k),
            None => (None, j5),
        };
        let j7 = skip_spaces(s, j6);
        let (stages, j8) = stages_of(s, j7);
        let package = slice_chars(s, i, e);
        let raw = SingleRaw { package, arch, constraints, filter, stages };
        Some((raw, j8))
    } else {
        None
    }
}

fn alts_of(s: &[char], k0: usize) -> (r: (Vec<SingleRaw>, usize))
    requires
        k0 <= s@.len(),
    ensures
        Seq::new(r.0@.len(), |i: int| r.0@[i].spec()) == alts_from(s@, k0 as int).0,
        r.1 == alts_from(s@, k0 as int).1,
        k0 <= r.1 <= s@.len(),
{
    let mut out: Vec<SingleRaw> = Vec::new();
    let mut k = k0;
    loop
        invariant
            k0 <= k <= s@.len(),
            alts_from(s@, k0 as int).0 == Seq::new(out@.len(), |i: int| out@[i].spec())
                + alts_from(s@, k as int).0,
            alts_from(s@, k0 as int).1 == alts_from(s@, k as int).1,
        ensures
            k0 <= k <= s@.len(),
            alts_from(s@, k0 as int).0 == Seq::new(out@.len(), |i: int| out@[i].spec()),
            alts_from(s@, k0 as int).1 == k,
        decreases s@.len() - k,
    {
        let ghost before = Seq::new(out@.len(), |i: int| out@[i].spec());
        let a = skip_spaces(s, k);
        if a < s.len() && s[a] == '|' {
            let b = skip_spaces(s, a + 1);
            match single_of(s, b) {
                Some((x, e)) => {
                    if k < e && e <= s.len() {
                        let ghost xs = x.spec();
                        out.push(x);
                        proof {
                            assert(Seq::new(out@.len(), |i: int| out@[i].spec()) =~= before.push(
                                xs,
                            ));
                            let rest = alts_from(s@, e as int);
                            assert(before + (seq![xs] + rest.0) =~= before.push(xs) + rest.0);
                        }
                        k = e;
                    } else {
                        assert(before + Seq::<SingleText>::empty() =~= before);
                        break ;
                    }
                },
                None => {
                    assert(before + Seq::<SingleText>::empty() =~= before);
                    break ;
                },
            }
        } else {
            assert(before + Seq::<SingleText>::empty() =~= before);
            break ;
        }
    }
    (out, k)
}

fn dep_of(s: &[char], i: usize) -> (r: Option<(Vec<SingleRaw>, usize)>)
    requires
        i <= s@.len(),
    ensures
        match (r, dep_at(s@, i as int)) {
            (Some((p, k)), Some((sp, sk))) => Seq::new(p@.len(), |m: int| p@[m].spec()) == sp
                && k == sk && k <= s@.len(),
            (None, None) => true,
            _ => false,
        },
{
    let j = skip_spaces(s, i);
    match single_of(s, j) {
        Some((x, k)) => {
            if j < k && k <= s.len() {
                let ghost xs = x.spec();
                let (mut rest, e) = alts_of(s, k);
                let ghost rs = Seq::new(rest@.len(), |m: int| rest@[m].spec());
                rest.insert(0, x);
                assert(Seq::new(rest@.len(), |m: int| rest@[m].spec()) =~= seq![xs] + rs);
                Some((rest, e))
            } else {
                None
            }
        },
        None => None,
    }
}

spec fn raw_dep(v: Vec<SingleRaw>) -> Seq<SingleText> {
    Seq::new(v@.len(), |m: int| v@[m].spec())
}

spec fn raw_deps(v: Seq<Vec<SingleRaw>>) -> Seq<Seq<SingleText>> {
    Seq::new(v.len(), |i: int| raw_dep(v[i]))
}

fn more_deps_of(s: &[char], k0: usize) -> (r: (Vec<Vec<SingleRaw>>, usize))
    requires
        k0 <= s@.len(),
    ensures
        raw_deps(r.0@) == more_deps_from(s@, k0 as int).0,
        r.1 == more_deps_from(s@, k0 as int).1,
        k0 <= r.1 <= s@.len(),
{
    let mut out: Vec<Vec<SingleRaw>> = Vec::new();
    let mut k = k0;
    loop
        invariant
            k0 <= k <= s@.len(),
            more_deps_from(s@, k0 as int).0 == raw_deps(out@) + more_deps_from(s@, k as int).0,
            more_deps_from(s@, k0 as int).1 == more_deps_from(s@, k as int).1,
        ensures
            k0 <= k <= s@.len(),
            more_deps_from(s@, k0 as int).0 == raw_deps(out@),
            more_deps_from(s@, k0 as int).1 == k,
        decreases s@.len() - k,
    {
        let ghost before = raw_deps(out@);
        let a = skip_spaces(s, k);
        if a < s.len() && s[a] == ',' {
            match dep_of(s, a + 1) {
                Some((d, e)) => {
                    if k < e && e <= s.len() {
                        let ghost ds = Seq::new(d@.len(), |m: int| d@[m].spec());
                        out.push(d);
                        proof {
                            assert(raw_deps(out@) =~= before.push(ds));
                            let rest = more_deps_from(s@, e as int);
                            assert(before + (seq![ds] + rest.0) =~= before.push(ds) + rest.0);
                        }
                        k = e;
                    } else {
                        assert(before + Seq::<Seq<SingleText>>::empty() =~= before);
                        break ;
                    }
                },
                None => {
                    assert(before + Seq::<Seq<SingleText>>::empty() =~= before);
                    break ;
                },
            }
        } else {
            assert(before + Seq::<Seq<SingleText>>::empty() =~= before);
            break ;
        }
    }
    (out, k)
}

fn deps_list_of(s: &[char]) -> (r: (Vec<Vec<SingleRaw>>, usize))
    ensures
        raw_deps(r.0@) == deps_list(s@).0,
        r.1 == deps_list(s@).1,
        r.1 <= s@.len(),
{
    match dep_of(s, 0) {
        Some((d, k)) => {
            let ghost ds = Seq::new(d@.len(), |m: int| d@[m].spec());
            let (mut rest, e) = more_deps_of(s, k);
            let ghost rs = raw_deps(rest@);
            rest.insert(0, d);
            assert(raw_deps(rest@) =~= seq![ds] + rs);
            (rest, e)
        },
        None => {
            let out: Vec<Vec<SingleRaw>> = Vec::new();
            assert(raw_deps(out@) =~= Seq::<Seq<SingleText>>::empty());
            (out, 0)
        },
    }
}


fn contains_pair(v: &Vec<(bool, Arch)>, x: (bool, Arch)) -> (r: bool)
    ensures
        r == v@.contains(x),
{
    let mut k: usize = 0;
    while k < v.len()
        invariant
            k <= v@.len(),
            forall|m: int| 0 <= m < k ==> v@[m] != x,
        decreases v@.len() - k,
    {
        if v[k].0 == x.0 && v[k].1 == x.1 {
            assert(v@[k as int] == x);
            return true;
        }
        k = k + 1;
    }
    false
}

fn filter_archs_of(ps: &Vec<(bool, Vec<char>)>) -> (r: Result<Vec<(bool, Arch)>, Error>)
    ensures
        match r {
            Ok(v) => filter_archs(part_specs(ps@)) == Ok::<Seq<(bool, Arch)>, Error>(v@),
            Err(e) => filter_archs(part_specs(ps@)) == Err::<Seq<(bool, Arch)>, Error>(e),
        },
{
    let ghost sp = part_specs(ps@);
    let ghost all = Seq::new(sp.len(), |i: int| (sp[i].0, arch_named(sp[i].1)->0));
    let mut out: Vec<(bool, Arch)> = Vec::new();
    let mut k: usize = 0;
    assert(all.take(0) =~= Seq::<(bool, Arch)>::empty());
    while k < ps.len()
        invariant
            k <= ps@.len(),
            sp == part_specs(ps@),
            all == Seq::new(sp.len(), |i: int| (sp[i].0, arch_named(sp[i].1)->0)),
            forall|i: int| 0 <= i < k ==> #[trigger] arch_named(sp[i].1) is Some,
            out@ == dedup(all.take(k as int)),
        decreases ps@.len() - k,
    {
        match parse_arch(ps[k].1.as_slice()) {
            None => {
                assert(arch_named(sp[k as int].1) is None);
                return Err(Error::UnknownArch);
            },
            Some(a) => {
                let x = (ps[k].0, a);
                let ghost prefix = all.take(k as int);
                assert(all.take(k + 1) =~= prefix.push(x));
                assert(all.take(k + 1).drop_last() =~= prefix);
                if !contains_pair(&out, x) {
                    out.push(x);
                }
            },
        }
        k = k + 1;
    }
    assert(all.take(ps@.len() as int) =~= all);
    Ok(out)
}

fn single_value_of(raw: SingleRaw) -> (r: Result<SingleDependency, Error>)
    ensures
        match r {
            Ok(d) => single_value(raw.spec()) == Ok::<SingleSpec, Error>(d.spec()),
            Err(e) => single_value(raw.spec()) == Err::<SingleSpec, Error>(e),
        },
{
    let ghost t = raw.spec();
    let SingleRaw { package, arch, constraints, filter, stages } = raw;
    let arch = match arch {
        None => None,
        Some(a) => match parse_arch(a.as_slice()) {
            Some(x) => Some(x),
            None => {
                return Err(Error::UnknownArch);
            },
        },
    };
    let arch_filter = match filter {
        None => Vec::new(),
        Some(ps) => filter_archs_of(&ps)?,
    };
    let package = string_of(package.as_slice());
    let stage_filter = to_strings(&stages);
    let d = SingleDependency {
        package,
        arch,
        version_constraints: constraints,
        arch_filter,
        stage_filter,
    };
    assert(d.spec() =~= SingleSpec {
        package: t.package,
        arch: arch,
        version_constraints: t.constraints,
        arch_filter: d.arch_filter@,
        stage_filter: t.stages,
    });
    Ok(d)
}

fn dep_value_of(d: Vec<SingleRaw>) -> (r: Result<Dependency, Error>)
    ensures
        match r {
            Ok(x) => dep_value(Seq::new(d@.len(), |m: int| d@[m].spec())) == Ok::<
                Seq<SingleSpec>,
                Error,
            >(x.spec()),
            Err(e) => dep_value(Seq::new(d@.len(), |m: int| d@[m].spec())) == Err::<
                Seq<SingleSpec>,
                Error,
            >(e),
        },
{
    let ghost ds = Seq::new(d@.len(), |m: int| d@[m].spec());
    let mut rest = d;
    let mut out: Vec<SingleDependency> = Vec::new();
    let ghost mut k: int = 0;
    while rest.len() > 0
        invariant
            ds == Seq::new(d@.len(), |m: int| d@[m].spec()),
            0 <= k <= ds.len(),
            ds.len() == k + rest@.len(),
            forall|m: int| 0 <= m < rest@.len() ==> #[trigger] rest@[m].spec() == ds[k + m],
            out@.len() == k,
            forall|m: int| 0 <= m < k ==> #[trigger] single_value(ds[m]) is Ok,
            forall|m: int|
                0 <= m < k ==> single_value(ds[m]) == Ok::<SingleSpec, Error>(
                    #[trigger] out@[m].spec(),
                ),
        decreases rest@.len(),
    {
        let ghost old_rest = rest@;
        let x = rest.remove(0);
        assert(x.spec() == ds[k]);
        match single_value_of(x) {
            Ok(v) => {
                out.push(v);
                proof {
                    assert forall|m: int| 0 <= m < rest@.len() implies #[trigger] rest@[m].spec()
                        == ds[k + 1 + m] by {
                        assert(rest@[m] == old_rest[m + 1]);
                    }
                    k = k + 1;
                }
            },
            Err(e) => {
                assert(single_value(ds[k]) is Err);
                assert(e == Error::UnknownArch);
                assert(!(forall|i: int| 0 <= i < ds.len() ==> #[trigger] single_value(ds[i]) is Ok));
                return Err(e);
            },
        }
    }
    let r = Dependency { alternate: out };
    assert(r.spec() =~= Seq::new(ds.len(), |i: int| single_value(ds[i])->Ok_0));
    Ok(r)
}

/// Read a dependency list given as characters.
pub fn read_chars(s: &[char]) -> (r: Result<Vec<Dependency>, Error>)
    ensures
        match r {
            Ok(v) => read_spec(s@) == Ok::<Seq<Seq<SingleSpec>>, Error>(dependency_specs(v@)),
            Err(e) => read_spec(s@) == Err::<Seq<Seq<SingleSpec>>, Error>(e),
        },
{
    let (ds, k) = deps_list_of(s);
    let e = skip_spaces(s, k);
    if e < s.len() {
        return Err(Error::TrailingData);
    }
    let ghost raws = raw_deps(ds@);
    let mut rest = ds;
    let mut out: Vec<Dependency> = Vec::new();
    let ghost mut k2: int = 0;
    while rest.len() > 0
        invariant
            raws == deps_list(s@).0,
            skip_space(s@, deps_list(s@).1) >= s@.len(),
            0 <= k2 <= raws.len(),
            raws.len() == k2 + rest@.len(),
            forall|m: int|
                0 <= m < rest@.len() ==> #[trigger] raw_dep(rest@[m]) == raws[k2 + m],
            out@.len() == k2,
            forall|m: int| 0 <= m < k2 ==> #[trigger] dep_value(raws[m]) is Ok,
            forall|m: int|
                0 <= m < k2 ==> dep_value(raws[m]) == Ok::<Seq<SingleSpec>, Error>(
                    #[trigger] out@[m].spec(),
                ),
        decreases rest@.len(),
    {
        let ghost old_rest = rest@;
        let x = rest.remove(0);
        assert(raw_dep(x) == raws[k2]);
        match dep_value_of(x) {
            Ok(v) => {
                out.push(v);
                proof {
                    assert forall|m: int| 0 <= m < rest@.len() implies #[trigger] raw_dep(rest@[m])
                        == raws[k2 + 1 + m] by {
                        assert(rest@[m] == old_rest[m + 1]);
                    }
                    k2 = k2 + 1;
                }
            },
            Err(e) => {
                assert(dep_value(raws[k2]) is Err);
                assert(e == Error::UnknownArch);
                assert(!(forall|i: int| 0 <= i < raws.len() ==> #[trigger] dep_value(raws[i]) is Ok));
                return Err(e);
            },
        }
    }
    assert(dependency_specs(out@) =~= Seq::new(raws.len(), |i: int| dep_value(raws[i])->Ok_0));
    Ok(out)
}

/// Read a dependency list.
pub fn read(val: &str) -> (r: Result<Vec<Dependency>, Error>)
    ensures
        match r {
            Ok(v) => read_spec(val@) == Ok::<Seq<Seq<SingleSpec>>, Error>(dependency_specs(v@)),
            Err(e) => read_spec(val@) == Err::<Seq<Seq<SingleSpec>>, Error>(e),
        },
{
    let cs = chars_of(val);
    read_chars(cs.as_slice())
}

/// Read a dependency list written over several lines (joined with spaces).
pub fn parse_dep(multi_str: &[Vec<char>]) -> (r: Result<Vec<Dependency>, Error>)
    ensures
        match r {
            Ok(v) => read_spec(join(texts(multi_str@), seq![' '])) == Ok::<
                Seq<Seq<SingleSpec>>,
                Error,
            >(dependency_specs(v@)),
            Err(e) => read_spec(join(texts(multi_str@), seq![' '])) == Err::<
                Seq<Seq<SingleSpec>>,
                Error,
            >(e),
        },
{
    let j = joined(multi_str);
    read_chars(j.as_slice())
}


// ---------------------------------------------------------------------------
// The grammar's pieces, on text: each gives what is left after it and what
// it read.

fn rest_of(s: &[char], k: usize) -> (r: String)
    requires
        k <= s@.len(),
    ensures
        r@ == s@.subrange(k as int, s@.len() as int),
{
    let v = slice_chars(s, k, s.len());
    string_of(v.as_slice())
}

/// A package name at the start of `i`.
pub fn package_name(i: &str) -> (r: Result<(String, String), Error>)
    ensures
        ({
            let e = run_end(i@, 0, CharClass::Package);
            match r {
                Ok((rest, name)) => 0 < e && rest@ == i@.subrange(e, i@.len() as int) && name@ == i@.subrange(0, e),
                Err(err) => e == 0 && err == Error::BadDependency,
            }
        }),
{
    let s = chars_of(i);
    let e = run_end_of(s.as_slice(), 0, CharClass::Package);
    if e == 0 {
        return Err(Error::BadDependency);
    }
    Ok((rest_of(s.as_slice(), e), string_of(slice_chars(s.as_slice(), 0, e).as_slice())))
}

/// A version at the start of `i`.
pub fn version(i: &str) -> (r: Result<(String, String), Error>)
    ensures
        ({
            let e = run_end(i@, 0, CharClass::Version);
            match r {
                Ok((rest, v)) => 0 < e && rest@ == i@.subrange(e, i@.len() as int) && v@ == i@.subrange(0, e),
                Err(err) => e == 0 && err == Error::BadDependency,
            }
        }),
{
    let s = chars_of(i);
    let e = run_end_of(s.as_slice(), 0, CharClass::Version);
    if e == 0 {
        return Err(Error::BadDependency);
    }
    Ok((rest_of(s.as_slice(), e), string_of(slice_chars(s.as_slice(), 0, e).as_slice())))
}

/// A version constraint, e.g. `(>= 1.0)`, at the start of `i`.
pub fn version_constraint(i: &str) -> (r: Result<(String, Constraint), Error>)
    ensures
        match (r, constraint_at(i@, 0)) {
            (Ok((rest, c)), Some((sc, k))) => c.spec() == sc && rest@ == i@.subrange(k, i@.len() as int),
            (Err(e), None) => e == Error::BadDependency,
            _ => false,
        },
{
    let s = chars_of(i);
    match constraint_of(s.as_slice(), 0) {
        Some((c, k)) => Ok((rest_of(s.as_slice(), k), c)),
        None => Err(Error::BadDependency),
    }
}

/// An architecture of a filter, e.g. `!amd64`, at the start of `i`, with
/// whether it is positive.
pub fn arch_part(i: &str) -> (r: Result<(String, (bool, String)), Error>)
    ensures
        match (r, arch_part_at(i@, 0)) {
            (Ok((rest, p)), Some((sp, k))) => p.0 == sp.0 && p.1@ == sp.1 && rest@ == i@.subrange(k, i@.len() as int),
            (Err(e), None) => e == Error::BadDependency,
            _ => false,
        },
{
    let s = chars_of(i);
    match arch_part_of(s.as_slice(), 0) {
        Some(((positive, name), k)) => Ok((rest_of(s.as_slice(), k), (positive, string_of(name.as_slice())))),
        None => Err(Error::BadDependency),
    }
}

/// A single dependency at the start of `i`; its architectures are read
/// afterwards, so that failing there leaves the text read.
pub fn single(i: &str) -> (r: Result<(String, Result<SingleDependency, Error>), Error>)
    ensures
        match (r, single_at(i@, 0)) {
            (Ok((rest, d)), Some((t, k))) => rest@ == i@.subrange(k, i@.len() as int) && match (d, single_value(t)) {
                (Ok(d), Ok(sd)) => d.spec() == sd,
                (Err(e), Err(se)) => e == se,
                _ => false,
            },
            (Err(e), None) => e == Error::BadDependency,
            _ => false,
        },
{
    let s = chars_of(i);
    match single_of(s.as_slice(), 0) {
        Some((raw, k)) => Ok((rest_of(s.as_slice(), k), single_value_of(raw))),
        None => Err(Error::BadDependency),
    }
}

/// A dependency (alternatives separated by `|`) at the start of `i`.
pub fn dep(i: &str) -> (r: Result<(String, Result<Dependency, Error>), Error>)
    ensures
        match (r, dep_at(i@, 0)) {
            (Ok((rest, d)), Some((t, k))) => rest@ == i@.subrange(k, i@.len() as int) && match (d, dep_value(t)) {
                (Ok(d), Ok(sd)) => d.spec() == sd,
                (Err(e), Err(se)) => e == se,
                _ => false,
            },
            (Err(e), None) => e == Error::BadDependency,
            _ => false,
        },
{
    let s = chars_of(i);
    match dep_of(s.as_slice(), 0) {
        Some((raws, k)) => Ok((rest_of(s.as_slice(), k), dep_value_of(raws))),
        None => Err(Error::BadDependency),
    }
}

/// How one version compares with another.
#[derive(Clone, Copy, Debug, PartialEq, Eq, Structural)]
pub enum VersionOrder {
    Less,
    Equal,
    Greater,
}

/// A version that deb-version can take apart: no ASCII digit comes after a
/// character outside ASCII. (It splits a version into runs of digits and
/// non-digits, cutting the text at character counts used as byte offsets;
/// those agree up to the first character outside ASCII, and a run that
/// reaches the end of the text is cut at its byte length.)
pub open spec fn comparable_version(v: Seq<char>) -> bool {
    forall|i: int, j: int|
        0 <= i < j < v.len() && (#[trigger] v[i] as u32) >= 128 ==> !('0' <= #[trigger] v[j] <= '9')
}

/// Whether deb-version can take the version apart.
pub fn is_comparable_version(v: &str) -> (r: bool)
    ensures
        r == comparable_version(v@),
{
    let cs = chars_of(v);
    let mut seen_wide = false;
    let mut k: usize = 0;
    while k < cs.len()
        invariant
            k <= cs@.len(),
            cs@ == v@,
            seen_wide <==> exists|i: int| 0 <= i < k && (#[trigger] cs@[i] as u32) >= 128,
            forall|i: int, j: int|
                0 <= i < j < k && (#[trigger] cs@[i] as u32) >= 128 ==> !('0' <= #[trigger] cs@[j] <= '9'),
        decreases cs@.len() - k,
    {
        let c = cs[k];
        if seen_wide && '0' <= c && c <= '9' {
            let ghost i = choose|i: int| 0 <= i < k && (#[trigger] cs@[i] as u32) >= 128;
            assert(cs@[i] == v@[i] && cs@[k as int] == v@[k as int]);
            return false;
        }
        if (c as u32) >= 128 {
            seen_wide = true;
        }
        k = k + 1;
    }
    true
}

/// How `deb_version::compare_versions` orders two versions.
pub uninterp spec fn debian_version_order(left: Seq<char>, right: Seq<char>) -> VersionOrder;

/// `deb_version::compare_versions`: the Debian ordering of two versions.
/// Its contract names the answer and states what its source shows first:
/// equal texts compare equal. It is called only on versions it can take
/// apart (`comparable_version`): elsewhere it cuts the text at character
/// counts used as byte offsets, which can panic.
#[verifier::external_body]
pub(crate) fn compare_versions(left: &str, right: &str) -> (r: VersionOrder)
    requires
        comparable_version(left@),
        comparable_version(right@),
    ensures
        r == debian_version_order(left@, right@),
        left@ == right@ ==> r == VersionOrder::Equal,
{
    match deb_version::compare_versions(left, right) {
        std::cmp::Ordering::Less => VersionOrder::Less,
        std::cmp::Ordering::Equal => VersionOrder::Equal,
        std::cmp::Ordering::Greater => VersionOrder::Greater,
    }
}

/// Whether an operator accepts a version that compares so with the constraint's.
pub open spec fn op_holds(op: ConstraintOperator, o: VersionOrder) -> bool {
    match op {
        ConstraintOperator::Eq => o == VersionOrder::Equal,
        ConstraintOperator::Ge => o != VersionOrder::Less,
        ConstraintOperator::Le => o != VersionOrder::Greater,
        ConstraintOperator::Lt => o == VersionOrder::Less,
        ConstraintOperator::Gt => o == VersionOrder::Greater,
    }
}

impl ConstraintOperator {
    /// Whether this operator accepts a version that compares as `ordering`
    /// with the constraint's version.
    pub fn satisfied_by(&self, ordering: VersionOrder) -> (r: bool)
        ensures
            r == op_holds(*self, ordering),
    {
        match *self {
            ConstraintOperator::Eq => ordering == VersionOrder::Equal,
            ConstraintOperator::Ge => ordering != VersionOrder::Less,
            ConstraintOperator::Le => ordering != VersionOrder::Greater,
            ConstraintOperator::Lt => ordering == VersionOrder::Less,
            ConstraintOperator::Gt => ordering == VersionOrder::Greater,
        }
    }
}

/// Whether `version` satisfies a constraint.
pub open spec fn constraint_holds(c: ConstraintSpec, version: Seq<char>) -> bool {
    op_holds(c.operator, debian_version_order(version, c.version))
}

impl Constraint {
    /// Whether `version` satisfies this constraint (both versions such as
    /// deb-version can take apart).
    pub fn satisfied_by(&self, version: &str) -> (r: bool)
        requires
            comparable_version(version@),
            comparable_version(self.version@),
        ensures
            r == constraint_holds(self.spec(), version@),
            version@ == self.version@ ==> r == op_holds(self.operator, VersionOrder::Equal),
    {
        self.operator.satisfied_by(compare_versions(version, self.version.as_str()))
    }
}

/// `>=` accepts exactly what `>` or `=` accepts, `<=` what `<` or `=` accepts,
/// and exactly one of `<`, `=`, `>` accepts any comparison.
pub proof fn lemma_operators_partition(o: VersionOrder)
    ensures
        op_holds(ConstraintOperator::Ge, o) == (op_holds(ConstraintOperator::Gt, o) || op_holds(
            ConstraintOperator::Eq,
            o,
        )),
        op_holds(ConstraintOperator::Le, o) == (op_holds(ConstraintOperator::Lt, o) || op_holds(
            ConstraintOperator::Eq,
            o,
        )),
        op_holds(ConstraintOperator::Lt, o) || op_holds(ConstraintOperator::Eq, o) || op_holds(
            ConstraintOperator::Gt,
            o,
        ),
        !(op_holds(ConstraintOperator::Lt, o) && op_holds(ConstraintOperator::Eq, o)),
        !(op_holds(ConstraintOperator::Lt, o) && op_holds(ConstraintOperator::Gt, o)),
        !(op_holds(ConstraintOperator::Eq, o) && op_holds(ConstraintOperator::Gt, o)),
{
}


} // verus!
