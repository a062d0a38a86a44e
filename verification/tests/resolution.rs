use pkgsolve::solvers::takes_over;
use pkgsolve::{PackageError, Packages, RelVersionedPackageNum, VersionOrder, VersionRelation};

fn alt(package_num: usize) -> RelVersionedPackageNum {
    RelVersionedPackageNum { package_num, rel_version: None }
}

fn alt_rel(package_num: usize, rel: VersionRelation, version: &str) -> RelVersionedPackageNum {
    RelVersionedPackageNum { package_num, rel_version: Some((rel, version.to_string())) }
}

/// `A` depends on `(B | C >= 2.0)`.
fn catalog_abc() -> (Packages, usize, usize, usize) {
    let mut p = Packages::new();
    let a = p.get_package_num_inserting("A");
    let b = p.get_package_num_inserting("B");
    let c = p.get_package_num_inserting("C");
    p.set_available_version(a, "1.0").unwrap();
    p.set_available_version(b, "3.0").unwrap();
    p.set_available_version(c, "1.0").unwrap();
    p.set_dependencies(a, vec![vec![alt(b), alt_rel(c, VersionRelation::GreaterOrEqual, "2.0")]])
        .unwrap();
    (p, a, b, c)
}

#[test]
fn wrong_version_alternative_is_upgraded() {
    let (mut p, a, _b, c) = catalog_abc();
    p.set_installed_version(c, "1.0").unwrap();
    let dep = &p.dependencies_of(a)[0];
    assert_eq!(p.dep_is_satisfied(dep), Ok(None));
    assert_eq!(p.dep_satisfied_by_wrong_version(dep), vec![c]);
    assert_eq!(p.compute_how_to_install("A"), Ok(vec![c]));
}

#[test]
fn highest_available_alternative_is_installed() {
    let (p, _a, b, _c) = catalog_abc();
    assert_eq!(p.compute_how_to_install("A"), Ok(vec![b]));
}

#[test]
fn unknown_root_gives_nothing() {
    let (p, _, _, _) = catalog_abc();
    assert_eq!(p.transitive_dep_solution("nope"), Vec::<usize>::new());
    assert_eq!(p.compute_how_to_install("nope"), Ok(vec![]));
    assert_eq!(p.deps_available("nope"), Err(PackageError::UnknownPackage));
}

/// The packages 0..n, called `pkg0`, `pkg1`, ..., each with a version on offer.
fn numbered(n: usize) -> Packages {
    let mut p = Packages::new();
    for i in 0..n {
        let id = p.get_package_num_inserting(&format!("pkg{}", i));
        p.set_available_version(id, "1.0").unwrap();
    }
    p
}

#[test]
fn closure_follows_first_alternatives_in_order_found() {
    let mut p = numbered(6);
    p.set_dependencies(0, vec![vec![alt(1), alt(5)], vec![alt(2)]]).unwrap();
    p.set_dependencies(1, vec![vec![alt(3)]]).unwrap();
    p.set_dependencies(2, vec![vec![alt(3)], vec![alt(4), alt(5)]]).unwrap();
    assert_eq!(p.transitive_dep_solution("pkg0"), vec![1, 2, 3, 4]);
    assert_eq!(p.transitive_dep_solution("pkg2"), vec![3, 4]);
    assert_eq!(p.transitive_dep_solution("pkg5"), Vec::<usize>::new());
}

#[test]
fn closure_ignores_what_is_installed() {
    let mut p = numbered(3);
    p.set_dependencies(0, vec![vec![alt(1), alt(2)]]).unwrap();
    p.set_installed_version(2, "1.0").unwrap();
    p.set_installed_version(1, "1.0").unwrap();
    assert_eq!(p.transitive_dep_solution("pkg0"), vec![1]);
}

#[test]
fn closure_of_a_cycle_ends_without_duplicates() {
    let mut p = numbered(3);
    p.set_dependencies(0, vec![vec![alt(1)]]).unwrap();
    p.set_dependencies(1, vec![vec![alt(2)]]).unwrap();
    p.set_dependencies(2, vec![vec![alt(0)], vec![alt(1)]]).unwrap();
    assert_eq!(p.transitive_dep_solution("pkg0"), vec![1, 2, 0]);
    assert_eq!(p.transitive_dep_solution("pkg1"), vec![2, 0, 1]);
    let mut q = numbered(1);
    q.set_dependencies(0, vec![vec![alt(0)]]).unwrap();
    assert_eq!(q.transitive_dep_solution("pkg0"), vec![0]);
}

#[test]
fn satisfied_dependency_is_not_planned() {
    let mut p = numbered(3);
    p.set_dependencies(0, vec![vec![alt(1)], vec![alt(2)]]).unwrap();
    p.set_dependencies(1, vec![vec![alt(2)]]).unwrap();
    p.set_installed_version(1, "1.0").unwrap();
    assert_eq!(p.compute_how_to_install("pkg0"), Ok(vec![2]));
    p.set_installed_version(2, "1.0").unwrap();
    assert_eq!(p.compute_how_to_install("pkg0"), Ok(vec![]));
}

#[test]
fn plan_expands_what_it_installs() {
    let mut p = numbered(5);
    p.set_dependencies(0, vec![vec![alt(1)]]).unwrap();
    p.set_dependencies(1, vec![vec![alt(2)], vec![alt(3)]]).unwrap();
    p.set_dependencies(3, vec![vec![alt(4)], vec![alt(0)]]).unwrap();
    assert_eq!(p.compute_how_to_install("pkg0"), Ok(vec![1, 2, 3, 4, 0]));
}

#[test]
fn plan_is_the_same_when_asked_twice() {
    let mut p = numbered(5);
    p.set_available_version(2, "2.0").unwrap();
    p.set_dependencies(0, vec![vec![alt(1), alt(2)], vec![alt(3)]]).unwrap();
    p.set_dependencies(2, vec![vec![alt(4)], vec![alt(0)]]).unwrap();
    let first = p.compute_how_to_install("pkg0");
    let second = p.compute_how_to_install("pkg0");
    assert_eq!(first, Ok(vec![2, 3, 4, 0]));
    assert_eq!(first, second);
}

#[test]
fn first_resolution_wins() {
    let mut p = numbered(4);
    p.set_available_version(3, "9.0").unwrap();
    p.set_dependencies(0, vec![vec![alt(1)], vec![alt(2)]]).unwrap();
    p.set_dependencies(1, vec![vec![alt(3), alt(2)]]).unwrap();
    p.set_dependencies(2, vec![vec![alt(1), alt(3)]]).unwrap();
    assert_eq!(p.compute_how_to_install("pkg0"), Ok(vec![1, 2, 3]));
}

#[test]
fn highest_keeps_the_first_of_equal_versions() {
    let mut p = numbered(4);
    assert_eq!(p.highest_version(false, &vec![1, 2, 3]), Ok(1));
    p.set_available_version(2, "1.0-0").unwrap();
    assert_eq!(p.highest_version(false, &vec![1, 2, 3]), Ok(1));
    p.set_available_version(3, "1.0.1").unwrap();
    assert_eq!(p.highest_version(false, &vec![1, 2, 3]), Ok(3));
    assert_eq!(p.highest_version(false, &vec![3, 2, 1]), Ok(3));
    p.set_installed_version(1, "0.5").unwrap();
    p.set_installed_version(2, "0.7").unwrap();
    assert_eq!(p.highest_version(true, &vec![1, 2]), Ok(2));
}

#[test]
fn highest_needs_candidates_with_versions() {
    let mut p = numbered(2);
    let bare = p.get_package_num_inserting("bare");
    assert_eq!(p.highest_version(false, &vec![]), Err(PackageError::InvalidDependency));
    assert_eq!(
        p.highest_version(false, &vec![0, bare, 1]),
        Err(PackageError::MissingVersion { package: bare })
    );
    assert_eq!(
        p.highest_version(false, &vec![bare]),
        Err(PackageError::MissingVersion { package: bare })
    );
    assert_eq!(p.highest_version(true, &vec![0]), Err(PackageError::MissingVersion { package: 0 }));
    assert_eq!(p.highest_version(false, &vec![77]), Err(PackageError::MissingVersion { package: 77 }));
}

#[test]
fn proposal_by_case() {
    let (mut p, a, b, c) = catalog_abc();
    let dep = vec![alt(b), alt_rel(c, VersionRelation::GreaterOrEqual, "2.0")];
    assert_eq!(p.proposal(&dep), Ok(Some(b)));
    p.set_installed_version(c, "1.0").unwrap();
    assert_eq!(p.proposal(&dep), Ok(Some(c)));
    p.set_installed_version(c, "2.0").unwrap();
    assert_eq!(p.proposal(&dep), Ok(None));
    let _ = a;
}

#[test]
fn highest_installed_among_wrong_versions_only() {
    let mut p = numbered(4);
    p.set_available_version(1, "9.0").unwrap();
    p.set_installed_version(2, "1.0").unwrap();
    p.set_installed_version(3, "1.5").unwrap();
    let dep = vec![
        alt(1),
        alt_rel(2, VersionRelation::GreaterOrEqual, "2.0"),
        alt_rel(3, VersionRelation::GreaterOrEqual, "2.0"),
    ];
    p.set_dependencies(0, vec![dep]).unwrap();
    assert_eq!(p.compute_how_to_install("pkg0"), Ok(vec![3]));
}

#[test]
fn plan_fails_without_version_on_offer() {
    let mut p = Packages::new();
    let a = p.get_package_num_inserting("A");
    let b = p.get_package_num_inserting("B");
    p.set_dependencies(a, vec![vec![alt(b)]]).unwrap();
    assert_eq!(p.compute_how_to_install("A"), Err(PackageError::MissingVersion { package: b }));
    assert_eq!(p.transitive_dep_solution("A"), vec![b]);
}

#[test]
fn plan_fails_on_malformed_constraint() {
    let (mut p, a, b, c) = catalog_abc();
    p.set_installed_version(c, "1.0").unwrap();
    p.set_dependencies(a, vec![vec![alt(b), alt_rel(c, VersionRelation::Equal, "#")]]).unwrap();
    assert_eq!(p.compute_how_to_install("A"), Err(PackageError::MalformedVersion { package: c }));
}

#[test]
fn only_a_strictly_greater_version_takes_over() {
    assert_eq!(takes_over(4, Some(VersionOrder::Greater)), Ok(true));
    assert_eq!(takes_over(4, Some(VersionOrder::Equal)), Ok(false));
    assert_eq!(takes_over(4, Some(VersionOrder::Less)), Ok(false));
    assert_eq!(takes_over(4, None), Err(PackageError::MalformedVersion { package: 4 }));
}
