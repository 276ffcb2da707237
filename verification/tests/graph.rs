use fapt::dep_graph::{satisfies, DepGraph};
use fapt::deps::{read, Constraint, ConstraintOperator, Dependency, SingleDependency};
use fapt::package::{Binary, Package, PackageType, Priority};
use fapt::package_list::PackageList;
use fapt::rfc822::FieldMap;

fn package(name: &str, version: &str, bin: Binary) -> Package {
    Package {
        name: name.to_string(),
        version: version.to_string(),
        priority: Priority::Unknown,
        arches: Vec::new(),
        section: String::new(),
        maintainer: Vec::new(),
        original_maintainer: Vec::new(),
        homepage: None,
        unparsed: FieldMap::new(),
        style: PackageType::Binary(bin),
    }
}

fn deps(text: &str) -> Vec<Dependency> {
    read(text).unwrap()
}

#[test]
fn cant_get_no() {
    let p = package(
        "foo",
        "1.0",
        Binary {
            provides: vec![Dependency {
                alternate: vec![SingleDependency {
                    package: "bar".to_string(),
                    version_constraints: vec![Constraint {
                        version: "100".to_string(),
                        operator: ConstraintOperator::Eq,
                    }],
                    ..Default::default()
                }],
            }],
            ..Default::default()
        },
    );

    let d = SingleDependency {
        package: "bar".to_string(),
        version_constraints: vec![Constraint {
            version: "90".to_string(),
            operator: ConstraintOperator::Ge,
        }],
        ..Default::default()
    };

    assert!(satisfies(&p, &d));
}

#[test]
fn satisfies_by_name_and_version() {
    let p = package("foo", "2.0", Binary::default());
    let d = &read("foo (>= 1.0)").unwrap()[0].alternate[0];
    assert!(satisfies(&p, d));
    let d = &read("foo (>> 2.0)").unwrap()[0].alternate[0];
    assert!(!satisfies(&p, d));
    let d = &read("bar").unwrap()[0].alternate[0];
    assert!(!satisfies(&p, d));
}

fn graph() -> DepGraph {
    let mut g = DepGraph::new();
    g.insert(package(
        "app",
        "1.0",
        Binary {
            depends: deps("libfoo (>= 1.0), editor | vim"),
            recommended: deps("docs"),
            suggests: deps("extras"),
            ..Default::default()
        },
    ))
    .unwrap();
    g.insert(package("libfoo", "1.2", Binary { essential: true, ..Default::default() }))
        .unwrap();
    g.insert(package(
        "vim",
        "9.0",
        Binary { provides: deps("editor"), ..Default::default() },
    ))
    .unwrap();
    g.insert(package("docs", "1", Binary::default())).unwrap();
    g.insert(package("libfoo", "1.2", Binary::default())).unwrap();
    g
}

#[test]
fn what_kinda_edges() {
    let g = graph();
    let w = g.what_kinda();
    assert_eq!(2, w.depends.len());
    // both libfoo 1.2 packages are known by the id of the later one
    assert_eq!((0, vec![4]), w.depends[0]);
    assert_eq!((0, vec![2]), w.depends[1]);
    assert_eq!(vec![(0, vec![3])], w.recommended);
    assert_eq!(vec![(0, vec![])], w.suggests);
    assert_eq!(4, g.id_of(1));
    assert_eq!(vec![4, 4], g.ids(&read("libfoo").unwrap()[0].alternate[0]));
}

#[test]
fn sloppy_leaves_sets() {
    let g = graph();
    let l = g.sloppy_leaves();
    let mut direct = l.direct_dep.clone();
    direct.sort();
    assert_eq!(vec!["libfoo".to_string()], direct);
    let mut maybe = l.maybe_dep.clone();
    maybe.sort();
    assert_eq!(vec!["editor".to_string(), "vim".to_string()], maybe);
    assert_eq!(vec!["docs".to_string()], l.recommended);
    assert_eq!(vec![("editor".to_string(), vec!["vim".to_string()])], l.aliases);
}

#[test]
fn find_named_newest() {
    let mut g = DepGraph::new();
    g.insert(package("a", "1.0", Binary::default())).unwrap();
    g.insert(package("a", "2.0", Binary::default())).unwrap();
    g.insert(package("a", "1.5", Binary::default())).unwrap();
    g.insert(package("b", "9", Binary::default())).unwrap();
    assert_eq!(1, g.find_named("a"));
    assert_eq!(3, g.find_named("b"));
    assert_eq!(vec![0, 1, 2, 3], g.iter());
    assert_eq!("b", g.get(3).name);
}

#[test]
fn package_list_finds_by_name() {
    let mut l = PackageList::new();
    l.push(package("a", "1", Binary::default()));
    l.push(package("b", "1", Binary::default()));
    l.push(package("a", "2", Binary::default()));
    let found = l.find_satisfying(&read("a (>= 5)").unwrap()[0].alternate[0]);
    assert_eq!(2, found.len());
    assert_eq!("2", found[1].version);
}

#[test]
fn packages_known_by_last_with_same_key() {
    let amd64 = fapt::arch::Arch::parse("amd64").unwrap();
    let i386 = fapt::arch::Arch::parse("i386").unwrap();
    let mut g = DepGraph::new();
    let mut a = package("x", "1", Binary::default());
    a.arches = vec![amd64, i386];
    let mut b = package("x", "1", Binary::default());
    b.arches = vec![i386, amd64];
    let mut c = package("x", "1", Binary::default());
    c.arches = vec![amd64];
    g.insert(a).unwrap();
    g.insert(c).unwrap();
    g.insert(b).unwrap();
    g.insert(package("y", "1", Binary::default())).unwrap();
    // the same name, version and set of architectures: one id, the later one
    assert_eq!(2, g.id_of(0));
    assert_eq!(2, g.id_of(2));
    // a different set of architectures is another package
    assert_eq!(1, g.id_of(1));
    assert_eq!(3, g.id_of(3));
}

#[test]
fn parsed_architectures() {
    use_arch("any", true);
    use_arch("all", true);
    use_arch("amd64", false);
    use_arch("linux-any", false);
    let any = fapt::arch::Arch::parse("any").unwrap();
    assert_ne!(fapt::arch::Arch::boogered(), any);
    assert!(fapt::arch::Arch::boogered().is_any());
    let amd64 = fapt::arch::Arch::parse("amd64").unwrap();
    assert_eq!(None, amd64.kernel());
    assert!(amd64.cpu().is_some());
    let linux_any = fapt::arch::Arch::parse("linux-any").unwrap();
    assert!(linux_any.kernel().is_some());
    assert_eq!(None, linux_any.cpu());
}

fn use_arch(name: &str, any: bool) {
    assert_eq!(any, fapt::arch::Arch::parse(name).unwrap().is_any(), "{}", name);
}
