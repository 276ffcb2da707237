use fapt::deps::{
    arch_part, dep, package_name, parse_dep, read, single, version, version_constraint,
    Constraint, ConstraintOperator,
};

#[test]
fn deps_check() {
    assert_eq!(("".to_string(), "foo".to_string()), package_name("foo").unwrap());
    assert_eq!((" bar".to_string(), "foo".to_string()), package_name("foo bar").unwrap());

    assert_eq!(
        ("".to_string(), Constraint::new(ConstraintOperator::Gt, "1")),
        version_constraint("(>> 1)").unwrap()
    );

    assert_eq!("foo", package_name("foo").unwrap().1);
    assert_eq!("1", version("1").unwrap().1);
    assert_eq!((false, "foo".to_string()), arch_part("!foo").unwrap().1);
    assert_eq!((true, "foo".to_string()), arch_part("foo").unwrap().1);
    assert_eq!(
        Constraint {
            version: "1".to_string(),
            operator: ConstraintOperator::Gt
        },
        version_constraint("(>> 1)").unwrap().1
    );

    println!("{:?}", single("foo (>> 1) (<< 9) [linux-any]"));
    println!("{:?}", single("foo [!amd64 !i386]"));
    println!("{:?}", single("foo"));
    println!("{:?}", dep("foo|baz"));
    println!("{:?}", dep("foo | baz"));
    println!("{:?}", read("foo, baz"));
}

#[test]
fn bare_single() {
    let (rem, res) = single("foo").unwrap();
    assert_eq!("foo", res.unwrap().package);
    assert_eq!("", rem);
}

#[test]
fn deps_read_alternatives_and_constraints() {
    let deps = read("foo (>= 1.0) | bar, baz:any [linux-any] <!nocheck>").unwrap();
    assert_eq!(2, deps.len());
    assert_eq!(2, deps[0].alternate.len());
    assert_eq!("foo", deps[0].alternate[0].package);
    assert_eq!(
        vec![Constraint::new(ConstraintOperator::Ge, "1.0")],
        deps[0].alternate[0].version_constraints
    );
    assert_eq!("bar", deps[0].alternate[1].package);
    assert_eq!("baz", deps[1].alternate[0].package);
    assert!(deps[1].alternate[0].arch.unwrap().is_any());
    assert_eq!(1, deps[1].alternate[0].arch_filter.len());
    assert_eq!(vec!["!nocheck".to_string()], deps[1].alternate[0].stage_filter);
}

#[test]
fn deps_errors() {
    assert!(read("foo (>= 1.0").is_err());
    assert!(read("foo [notanarch]").is_err());
    assert!(package_name("").is_err());
    assert!(version_constraint("foo").is_err());
}

#[test]
fn deps_over_lines() {
    let lines = vec!["foo,".chars().collect::<Vec<char>>(), "bar".chars().collect()];
    let deps = parse_dep(&lines).unwrap();
    assert_eq!(2, deps.len());
    assert_eq!("bar", deps[1].alternate[0].package);
}

#[test]
fn deps_arch_filter_dedup() {
    let deps = read("foo [amd64!i386!i386]").unwrap();
    assert_eq!(2, deps[0].alternate[0].arch_filter.len());
}

#[test]
fn constraint_operators() {
    let eq = Constraint::new(ConstraintOperator::Eq, "1.0");
    assert!(eq.satisfied_by("1.0"));
    assert!(!eq.satisfied_by("1.1"));
    let le = Constraint::new(ConstraintOperator::Le, "1.0");
    assert!(le.satisfied_by("1.0~rc1"));
    assert!(!le.satisfied_by("1.0+b1"));
    let lt = Constraint::new(ConstraintOperator::Lt, "2:0");
    assert!(lt.satisfied_by("1:9"));
    let ge = Constraint::new(ConstraintOperator::Ge, "1.0");
    assert!(ge.satisfied_by("1.0"));
}

#[test]
fn package_names_may_be_any_alphanumeric_text() {
    assert_eq!(
        (" bar".to_string(), "föö".to_string()),
        package_name("föö bar").unwrap()
    );
    assert_eq!(("→x".to_string(), "ab".to_string()), package_name("ab→x").unwrap());
    assert!(package_name("→x").is_err());
    assert_eq!(
        ("".to_string(), "1.0ß".to_string()),
        version("1.0ß").unwrap()
    );
}
