use pkgsolve::{PackageError, Packages, RelVersionedPackageNum, VersionRelation};

#[test]
fn new_catalog_is_empty() {
    let p = Packages::new();
    assert_eq!(p.len(), 0);
    assert!(!p.package_exists("A"));
    assert_eq!(p.get_package_num("A"), None);
    assert_eq!(p.get_package_name(0), None);
    assert_eq!(p.installed_count(), 0);
    assert_eq!(p.available_count(), 0);
}

#[test]
fn names_and_ids_correspond() {
    let mut p = Packages::new();
    assert_eq!(p.get_package_num_inserting("alpha"), 0);
    assert_eq!(p.get_package_num_inserting("beta"), 1);
    assert_eq!(p.get_package_num_inserting("alpha"), 0);
    assert_eq!(p.len(), 2);
    assert!(p.package_exists("beta"));
    assert_eq!(p.get_package_num("beta"), Some(1));
    assert_eq!(p.get_package_name(1), Some("beta"));
    assert_eq!(p.get_package_name(2), None);
}

#[test]
fn a_new_package_has_nothing_on_record() {
    let mut p = Packages::new();
    let a = p.get_package_num_inserting("alpha");
    assert_eq!(p.available_version(a), None);
    assert_eq!(p.installed_version(a), None);
    assert_eq!(p.md5sum(a), None);
    assert!(p.dependencies_of(a).is_empty());
    assert_eq!(p.get_available_debver("alpha"), None);
    assert_eq!(p.get_installed_debver("alpha"), None);
    assert_eq!(p.get_installed_debver("nope"), None);
}

#[test]
fn versions_and_checksums_are_recorded() {
    let mut p = Packages::new();
    let a = p.get_package_num_inserting("alpha");
    let b = p.get_package_num_inserting("beta");
    assert_eq!(p.set_available_version(a, "1.2-3"), Ok(()));
    assert_eq!(p.set_installed_version(a, "1.0"), Ok(()));
    assert_eq!(p.set_md5sum(b, "d41d8cd98f00b204e9800998ecf8427e"), Ok(()));
    assert_eq!(p.available_version(a), Some("1.2-3"));
    assert_eq!(p.get_available_debver("alpha"), Some("1.2-3"));
    assert_eq!(p.installed_version(a), Some("1.0"));
    assert_eq!(p.get_installed_debver("alpha"), Some("1.0"));
    assert_eq!(p.md5sum(b), Some("d41d8cd98f00b204e9800998ecf8427e"));
    assert_eq!(p.checksum_of("beta"), Some("d41d8cd98f00b204e9800998ecf8427e"));
    assert_eq!(p.checksum_of("alpha"), None);
    assert_eq!(p.installed_count(), 1);
    assert_eq!(p.available_count(), 1);
    assert_eq!(p.set_available_version(a, "2.0"), Ok(()));
    assert_eq!(p.available_version(a), Some("2.0"));
    assert_eq!(p.available_count(), 1);
}

#[test]
fn unknown_package_is_refused() {
    let mut p = Packages::new();
    assert_eq!(p.set_available_version(0, "1.0"), Err(PackageError::UnknownPackage));
    assert_eq!(p.set_installed_version(3, "1.0"), Err(PackageError::UnknownPackage));
    assert_eq!(p.set_md5sum(0, "x"), Err(PackageError::UnknownPackage));
    assert_eq!(p.set_dependencies(0, vec![]), Err(PackageError::UnknownPackage));
    assert_eq!(p.len(), 0);
}

#[test]
fn malformed_version_is_refused() {
    let mut p = Packages::new();
    let a = p.get_package_num_inserting("alpha");
    assert_eq!(
        p.set_available_version(a, "one point oh"),
        Err(PackageError::MalformedVersion { package: a })
    );
    assert_eq!(p.set_installed_version(a, ""), Err(PackageError::MalformedVersion { package: a }));
    assert_eq!(p.available_version(a), None);
    assert_eq!(p.installed_version(a), None);
}

#[test]
fn invalid_dependencies_are_refused() {
    let mut p = Packages::new();
    let a = p.get_package_num_inserting("alpha");
    let b = p.get_package_num_inserting("beta");
    assert_eq!(p.set_dependencies(a, vec![vec![]]), Err(PackageError::InvalidDependency));
    let unknown = RelVersionedPackageNum { package_num: 7, rel_version: None };
    assert_eq!(p.set_dependencies(a, vec![vec![unknown]]), Err(PackageError::InvalidDependency));
    assert!(p.dependencies_of(a).is_empty());
    let good = RelVersionedPackageNum {
        package_num: b,
        rel_version: Some((VersionRelation::Equal, "1.0".to_string())),
    };
    assert!(p.is_valid_dependency(&vec![RelVersionedPackageNum { package_num: b, rel_version: None }]));
    assert!(!p.is_valid_dependency(&vec![]));
    assert_eq!(p.set_dependencies(a, vec![vec![good]]), Ok(()));
    assert_eq!(p.dependencies_of(a).len(), 1);
    assert_eq!(p.dependencies_of(a)[0][0].package_num, b);
    assert_eq!(p.set_dependencies(a, vec![]), Ok(()));
    assert!(p.dependencies_of(a).is_empty());
}

#[test]
fn nothing_is_on_record_for_an_unknown_id() {
    let mut p = Packages::new();
    p.get_package_num_inserting("alpha");
    assert_eq!(p.available_version(5), None);
    assert_eq!(p.installed_version(5), None);
    assert_eq!(p.md5sum(5), None);
}
