use pkgsolve::parsers::split_on;
use pkgsolve::{PackageError, Packages, VersionRelation};

fn lines(text: &[&str]) -> Vec<String> {
    text.iter().map(|l| l.to_string()).collect()
}

#[test]
fn splitting_at_a_character() {
    assert_eq!(split_on("a,b,c", ','), vec!["a", "b", "c"]);
    assert_eq!(split_on("abc", ','), vec!["abc"]);
    assert_eq!(split_on("", ','), vec![""]);
    assert_eq!(split_on(",", ','), vec!["", ""]);
    assert_eq!(split_on("a,,b,", ','), vec!["a", "", "b", ""]);
    assert_eq!(split_on(" x | y ", '|'), vec![" x ", " y "]);
    assert_eq!(split_on("\u{e9},\u{4e2d}\u{6587}", ','), vec!["\u{e9}", "\u{4e2d}\u{6587}"]);
}

#[test]
fn alternative_without_version() {
    let mut p = Packages::new();
    let alt = p.parse_alternative(" libgcc-s1").unwrap().unwrap();
    assert_eq!(alt.package_num, 0);
    assert!(alt.rel_version.is_none());
    assert_eq!(p.get_package_name(0), Some("libgcc-s1"));
}

#[test]
fn alternative_with_version() {
    let mut p = Packages::new();
    p.get_package_num_inserting("other");
    let alt = p.parse_alternative("libstdc++6 (>= 1:4.4.10-10) ").unwrap().unwrap();
    assert_eq!(alt.package_num, 1);
    assert_eq!(alt.rel_version, Some((VersionRelation::GreaterOrEqual, "1:4.4.10-10".to_string())));
    assert_eq!(p.get_package_name(1), Some("libstdc++6"));
    let alt = p.parse_alternative("other (<< 2)").unwrap().unwrap();
    assert_eq!(alt.package_num, 0);
    assert_eq!(alt.rel_version, Some((VersionRelation::StrictlyLess, "2".to_string())));
    let alt = p.parse_alternative("other (= 2)").unwrap().unwrap();
    assert_eq!(alt.rel_version, Some((VersionRelation::Equal, "2".to_string())));
    assert_eq!(p.len(), 2);
}

#[test]
fn text_without_a_name_is_no_alternative() {
    let mut p = Packages::new();
    assert!(p.parse_alternative("").unwrap().is_none());
    assert!(p.parse_alternative("  ").unwrap().is_none());
    assert!(p.parse_alternative("(>= 1)").unwrap().is_some());
    assert_eq!(p.len(), 1);
}

#[test]
fn unknown_operator_is_an_error() {
    let mut p = Packages::new();
    assert_eq!(p.parse_alternative("foo (== 1.0)").unwrap_err(), PackageError::UnknownRelation);
    assert_eq!(p.parse_alternative("foo (< 1.0)").unwrap_err(), PackageError::UnknownRelation);
    assert_eq!(p.parse_alternative("foo (>< 1.0)").unwrap_err(), PackageError::UnknownRelation);
    assert_eq!(p.get_package_num("foo"), Some(0));
}

#[test]
fn dependency_list() {
    let mut p = Packages::new();
    let deps = p.parse_dependencies("libc6 (>= 2.4), exim4 | mail-transport-agent, adduser").unwrap();
    assert_eq!(deps.len(), 3);
    assert_eq!(deps[0].len(), 1);
    assert_eq!(deps[1].len(), 2);
    assert_eq!(deps[2].len(), 1);
    assert_eq!(p.get_package_name(deps[0][0].package_num), Some("libc6"));
    assert_eq!(deps[0][0].rel_version, Some((VersionRelation::GreaterOrEqual, "2.4".to_string())));
    assert_eq!(p.get_package_name(deps[1][0].package_num), Some("exim4"));
    assert_eq!(p.get_package_name(deps[1][1].package_num), Some("mail-transport-agent"));
    assert_eq!(p.get_package_name(deps[2][0].package_num), Some("adduser"));
    assert_eq!(p.len(), 4);
    let dep = p.parse_dependency("a | b (>> 1) | c").unwrap();
    assert_eq!(dep.len(), 3);
    assert_eq!(dep[1].rel_version, Some((VersionRelation::StrictlyGreater, "1".to_string())));
}

#[test]
fn packages_on_offer() {
    let mut p = Packages::new();
    let text = lines(&[
        "Package: bash",
        "Version: 5.1-2 ",
        "Installed-Size: 6469",
        "Depends: base-files (>= 2.1.12), debianutils (>= 2.15) | busybox",
        "MD5sum: 5f2e6a1f2d2f9c1b0b2b4b3a7a8d9e0f",
        "Description: GNU Bourne Again SHell",
        " continued text",
        "",
        "Package: base-files",
        "Version: 11.1+deb11u5",
        "MD5sum: 00000000000000000000000000000000",
    ]);
    assert_eq!(p.parse_packages(&text), Ok(()));
    assert_eq!(p.len(), 4);
    let bash = p.get_package_num("bash").unwrap();
    let base = p.get_package_num("base-files").unwrap();
    let utils = p.get_package_num("debianutils").unwrap();
    let busybox = p.get_package_num("busybox").unwrap();
    assert_eq!((bash, base, utils, busybox), (0, 1, 2, 3));
    assert_eq!(p.available_version(bash), Some("5.1-2"));
    assert_eq!(p.available_version(base), Some("11.1+deb11u5"));
    assert_eq!(p.available_version(utils), None);
    assert_eq!(p.md5sum(bash), Some("5f2e6a1f2d2f9c1b0b2b4b3a7a8d9e0f"));
    assert_eq!(p.md5sum(base), Some("00000000000000000000000000000000"));
    assert_eq!(p.installed_version(bash), None);
    let deps = p.dependencies_of(bash);
    assert_eq!(deps.len(), 2);
    assert_eq!(deps[0][0].package_num, base);
    assert_eq!(deps[0][0].rel_version, Some((VersionRelation::GreaterOrEqual, "2.1.12".to_string())));
    assert_eq!(deps[1][0].package_num, utils);
    assert_eq!(deps[1][1].package_num, busybox);
    assert!(deps[1][1].rel_version.is_none());
    assert!(p.dependencies_of(base).is_empty());
    assert_eq!(p.available_count(), 2);
    assert_eq!(p.transitive_dep_solution("bash"), vec![base, utils]);
}

#[test]
fn installed_packages() {
    let mut p = Packages::new();
    p.get_package_num_inserting("zsh");
    let text = lines(&[
        "Package: bash",
        "Status: install ok installed",
        "Version:   5.1-2  ",
        "Depends: ignored-here",
        "MD5sum: ignored",
        "",
        "Package: zsh",
        "Version: 5.8-6",
    ]);
    assert_eq!(p.parse_installed(&text), Ok(()));
    assert_eq!(p.len(), 2);
    assert_eq!(p.get_installed_debver("bash"), Some("5.1-2"));
    assert_eq!(p.get_installed_debver("zsh"), Some("5.8-6"));
    assert_eq!(p.get_available_debver("bash"), None);
    assert_eq!(p.md5sum(1), None);
    assert!(p.dependencies_of(1).is_empty());
    assert_eq!(p.installed_count(), 2);
}

#[test]
fn lists_then_plan() {
    let mut p = Packages::new();
    let offered = lines(&[
        "Package: A",
        "Version: 1.0",
        "Depends: B | C (>= 2.0)",
        "Package: B",
        "Version: 3.0",
        "Package: C",
        "Version: 2.5",
    ]);
    let installed = lines(&["Package: C", "Version: 1.0"]);
    assert_eq!(p.parse_packages(&offered), Ok(()));
    assert_eq!(p.compute_how_to_install("A"), Ok(vec![1]));
    assert_eq!(p.parse_installed(&installed), Ok(()));
    assert_eq!(p.compute_how_to_install("A"), Ok(vec![2]));
    assert_eq!(p.deps_available("A"), Ok(vec![None]));
}

#[test]
fn malformed_version_stops_the_reading() {
    let mut p = Packages::new();
    let text = lines(&["Package: a", "Version: 1.0", "Package: b", "Version: 1 0", "Package: c"]);
    assert_eq!(p.parse_packages(&text), Err(PackageError::MalformedVersion { package: 1 }));
    assert_eq!(p.len(), 2);
    assert_eq!(p.available_version(0), Some("1.0"));
    assert_eq!(p.available_version(1), None);
    let mut q = Packages::new();
    assert_eq!(q.parse_installed(&text), Err(PackageError::MalformedVersion { package: 1 }));
    assert_eq!(q.installed_version(0), Some("1.0"));
}

#[test]
fn version_before_any_package() {
    let mut p = Packages::new();
    assert_eq!(p.parse_installed(&lines(&["Version: 1.0"])), Err(PackageError::UnknownPackage));
    assert_eq!(p.parse_packages(&lines(&["MD5sum: abc"])), Err(PackageError::UnknownPackage));
    assert_eq!(p.len(), 0);
}

#[test]
fn bad_dependency_lines() {
    let mut p = Packages::new();
    let text = lines(&["Package: a", "Depends: b, c (=> 1.0), d"]);
    assert_eq!(p.parse_packages(&text), Err(PackageError::UnknownRelation));
    assert_eq!(p.get_package_num("b"), Some(1));
    assert_eq!(p.get_package_num("c"), Some(2));
    assert_eq!(p.get_package_num("d"), None);
    assert!(p.dependencies_of(0).is_empty());
    let mut q = Packages::new();
    let text = lines(&["Package: a", "Depends: b, , c"]);
    assert_eq!(q.parse_packages(&text), Err(PackageError::InvalidDependency));
    assert!(q.dependencies_of(0).is_empty());
    assert_eq!(q.len(), 3);
}

#[test]
fn lines_that_are_no_fields_change_nothing() {
    let mut p = Packages::new();
    let text = lines(&["", "no colon here", "Package:bash", ": value", "Key:"]);
    assert_eq!(p.parse_packages(&text), Ok(()));
    assert_eq!(p.len(), 0);
}

fn some(text: &str) -> Option<String> {
    Some(text.to_string())
}

#[test]
fn alternative_from_its_parts() {
    let mut p = Packages::new();
    assert!(p.alternative_from(None, some("1.0"), some(">=")).unwrap().is_none());
    assert_eq!(p.len(), 0);
    let alt = p.alternative_from(some("libc6"), None, some(">=")).unwrap().unwrap();
    assert_eq!(alt.package_num, 0);
    assert!(alt.rel_version.is_none());
    let alt = p.alternative_from(some("zlib"), some("1.2"), some("<=")).unwrap().unwrap();
    assert_eq!(alt.package_num, 1);
    assert_eq!(alt.rel_version, Some((VersionRelation::LessOrEqual, "1.2".to_string())));
    assert_eq!(
        p.alternative_from(some("zlib"), some("1.2"), None).unwrap_err(),
        PackageError::UnknownRelation
    );
    assert_eq!(
        p.alternative_from(some("new"), some("1.2"), some("~")).unwrap_err(),
        PackageError::UnknownRelation
    );
    assert_eq!(p.get_package_num("new"), Some(2));
}

#[test]
fn fields_one_by_one() {
    let mut p = Packages::new();
    assert_eq!(p.take_field(false, 0, None, None), Ok(0));
    assert_eq!(p.take_field(false, 0, some("Package"), None), Ok(0));
    assert_eq!(p.len(), 0);
    assert_eq!(p.take_field(false, 0, some("Package"), some("one")), Ok(0));
    assert_eq!(p.take_field(false, 0, some("Package"), some("two")), Ok(1));
    assert_eq!(p.take_field(false, 1, some("Version"), some(" 2.0 ")), Ok(1));
    assert_eq!(p.take_field(true, 1, some("Version"), some("1.0")), Ok(1));
    assert_eq!(p.take_field(false, 1, some("MD5sum"), some("abc")), Ok(1));
    assert_eq!(p.take_field(true, 0, some("MD5sum"), some("abc")), Ok(0));
    assert_eq!(p.take_field(false, 1, some("Depends"), some("one | three")), Ok(1));
    assert_eq!(p.take_field(true, 0, some("Depends"), some("four")), Ok(0));
    assert_eq!(p.take_field(false, 1, some("Section"), some("shells")), Ok(1));
    assert_eq!(p.take_field(false, 1, some("package"), some("five")), Ok(1));
    assert_eq!(p.len(), 3);
    assert_eq!(p.available_version(1), Some("2.0"));
    assert_eq!(p.installed_version(1), Some("1.0"));
    assert_eq!(p.md5sum(1), Some("abc"));
    assert_eq!(p.md5sum(0), None);
    assert_eq!(p.dependencies_of(1).len(), 1);
    assert_eq!(p.dependencies_of(1)[0][1].package_num, 2);
    assert!(p.dependencies_of(0).is_empty());
    assert_eq!(
        p.take_field(false, 9, some("Version"), some("1.0")),
        Err(PackageError::UnknownPackage)
    );
    assert_eq!(
        p.take_field(false, 0, some("Version"), some("1 0")),
        Err(PackageError::MalformedVersion { package: 0 })
    );
}
