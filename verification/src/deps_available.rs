//! Whether a dependency is satisfied by what is installed.

use vstd::prelude::*;
use crate::packages::{Alternative, Catalog, Dependency, PackageError, Packages, RelVersionedPackageNum};
use crate::version::{compare_versions, version_order, VersionOrder, VersionRelation};

verus! {

/// How one alternative of a dependency stands to what is installed.
#[derive(Clone, Copy, Debug, PartialEq, Eq, Structural)]
pub enum AlternativeStatus {
    /// Its package is not installed.
    NotInstalled,
    /// Its package is installed, and the installed version meets the
    /// constraint, or there is none.
    Satisfied,
    /// Its package is installed at a version that fails the constraint.
    WrongVersion,
    /// Its package is installed, and the installed version does not compare
    /// with the version of the constraint.
    Malformed,
}

/// The status of an installed alternative whose installed version stands to
/// the version of its constraint as `order` says; `order` is `None` where the
/// two do not compare.
pub open spec fn judged(rel: VersionRelation, order: Option<VersionOrder>) -> AlternativeStatus {
    match order {
        None => AlternativeStatus::Malformed,
        Some(order) => if rel.holds(order) {
            AlternativeStatus::Satisfied
        } else {
            AlternativeStatus::WrongVersion
        },
    }
}

/// Judges an installed alternative with constraint `rel`, given how its
/// installed version compares with the version of the constraint.
pub fn judge(rel: VersionRelation, order: Option<VersionOrder>) -> (r: AlternativeStatus)
    ensures
        r == judged(rel, order),
{
    match order {
        None => AlternativeStatus::Malformed,
        Some(order) => if rel.admits(order) {
            AlternativeStatus::Satisfied
        } else {
            AlternativeStatus::WrongVersion
        },
    }
}

impl Catalog {
    /// The status of one alternative.
    pub open spec fn status(self, alt: Alternative) -> AlternativeStatus {
        match self.installed_at(alt.package) {
            None => AlternativeStatus::NotInstalled,
            Some(installed) => match alt.constraint {
                None => AlternativeStatus::Satisfied,
                Some((rel, wanted)) => judged(rel, version_order(installed, wanted)),
            },
        }
    }

    /// What a scan of `dep` from position `from` on finds first: a satisfied
    /// alternative, whose package it gives, or one that cannot be judged.
    pub open spec fn satisfied_from(self, dep: Seq<Alternative>, from: int) -> Result<
        Option<usize>,
        PackageError,
    >
        decreases dep.len() - from,
    {
        if from < 0 || from >= dep.len() {
            Ok(None)
        } else {
            match self.status(dep[from]) {
                AlternativeStatus::Satisfied => Ok(Some(dep[from].package)),
                AlternativeStatus::Malformed => Err(
                    PackageError::MalformedVersion { package: dep[from].package },
                ),
                _ => self.satisfied_from(dep, from + 1),
            }
        }
    }

    /// The package of the first alternative of `dep` that is satisfied, if
    /// there is one; an error where an alternative before it cannot be judged.
    pub open spec fn satisfied_by(self, dep: Seq<Alternative>) -> Result<Option<usize>, PackageError> {
        self.satisfied_from(dep, 0)
    }

    /// The packages of those among the first `upto` alternatives of `dep`
    /// that are installed at a wrong version, in declared order.
    pub open spec fn wrong_versions(self, dep: Seq<Alternative>, upto: int) -> Seq<usize>
        decreases upto,
    {
        if upto <= 0 {
            Seq::empty()
        } else {
            let before = self.wrong_versions(dep, upto - 1);
            if self.status(dep[upto - 1]) is WrongVersion {
                before.push(dep[upto - 1].package)
            } else {
                before
            }
        }
    }

    /// The alternatives of an unsatisfied dependency that are installed at a
    /// wrong version. A dependency that is satisfied has none.
    pub open spec fn wrong_version_candidates(self, dep: Seq<Alternative>) -> Seq<usize> {
        if self.satisfied_by(dep) == Ok::<Option<usize>, PackageError>(None) {
            self.wrong_versions(dep, dep.len() as int)
        } else {
            Seq::empty()
        }
    }

    /// For each of the first `upto` dependencies of `deps`, the package that
    /// satisfies it, if any; the first error of a scan where there is one.
    pub open spec fn satisfiers(self, deps: Seq<Seq<Alternative>>, upto: int) -> Result<
        Seq<Option<usize>>,
        PackageError,
    >
        decreases upto,
    {
        if upto <= 0 {
            Ok(Seq::empty())
        } else {
            match self.satisfiers(deps, upto - 1) {
                Err(e) => Err(e),
                Ok(before) => match self.satisfied_by(deps[upto - 1]) {
                    Err(e) => Err(e),
                    Ok(found) => Ok(before.push(found)),
                },
            }
        }
    }
}

/// A dependency is satisfied by its first declared alternative that is
/// installed at a version meeting its constraint, never by a later one:
/// where alternative `first` is satisfied and every alternative before it is
/// either not installed or installed at a wrong version, the scan gives the
/// package of `first`.
pub proof fn lemma_first_satisfied_wins(c: Catalog, dep: Seq<Alternative>, first: int)
    requires
        0 <= first < dep.len(),
        c.status(dep[first]) is Satisfied,
        forall|k: int|
            0 <= k < first ==> c.status(#[trigger] dep[k]) is NotInstalled || c.status(dep[k])
                is WrongVersion,
    ensures
        c.satisfied_by(dep) == Ok::<Option<usize>, PackageError>(Some(dep[first].package)),
{
    lemma_scan_skips(c, dep, 0, first);
}

/// A scan passes over alternatives that are not installed or installed at a
/// wrong version.
pub proof fn lemma_scan_skips(c: Catalog, dep: Seq<Alternative>, from: int, to: int)
    requires
        0 <= from <= to <= dep.len(),
        forall|k: int|
            from <= k < to ==> c.status(#[trigger] dep[k]) is NotInstalled || c.status(dep[k])
                is WrongVersion,
    ensures
        c.satisfied_from(dep, from) == c.satisfied_from(dep, to),
    decreases to - from,
{
    if from < to {
        assert(c.status(dep[from]) is NotInstalled || c.status(dep[from]) is WrongVersion);
        lemma_scan_skips(c, dep, from + 1, to);
    }
}

/// A satisfied dependency has no wrong-version candidates.
pub proof fn lemma_satisfied_has_no_candidates(c: Catalog, dep: Seq<Alternative>)
    requires
        c.satisfied_by(dep) matches Ok(Some(_)),
    ensures
        c.wrong_version_candidates(dep) == Seq::<usize>::empty(),
{
}

/// A wrong-version candidate is an alternative of the dependency that is
/// installed at a version failing its constraint; an alternative without a
/// constraint is never one.
pub proof fn lemma_candidates_are_wrong_versions(c: Catalog, dep: Seq<Alternative>, upto: int)
    requires
        0 <= upto <= dep.len(),
    ensures
        forall|p: usize|
            c.wrong_versions(dep, upto).contains(p) <==> exists|k: int|
                0 <= k < upto && (#[trigger] dep[k]).package == p && c.status(dep[k])
                    is WrongVersion,
        forall|k: int|
            0 <= k < upto && c.status(#[trigger] dep[k]) is WrongVersion ==> dep[k].constraint
                is Some && c.installed_at(dep[k].package) is Some,
    decreases upto,
{
    if upto > 0 {
        lemma_candidates_are_wrong_versions(c, dep, upto - 1);
        let before = c.wrong_versions(dep, upto - 1);
        let now = c.wrong_versions(dep, upto);
        assert forall|p: usize| now.contains(p) <==> exists|k: int|
            0 <= k < upto && (#[trigger] dep[k]).package == p && c.status(dep[k])
                is WrongVersion by {
            if now.contains(p) {
                let i = choose|i: int| 0 <= i < now.len() && now[i] == p;
                if i < before.len() {
                    assert(before[i] == p);
                    assert(before.contains(p));
                } else {
                    assert(dep[upto - 1].package == p);
                }
            }
            if exists|k: int|
                0 <= k < upto && (#[trigger] dep[k]).package == p && c.status(dep[k])
                    is WrongVersion {
                let k = choose|k: int|
                    0 <= k < upto && (#[trigger] dep[k]).package == p && c.status(dep[k])
                        is WrongVersion;
                if k < upto - 1 {
                    assert(before.contains(p));
                    let i = choose|i: int| 0 <= i < before.len() && before[i] == p;
                    assert(now[i] == p);
                } else {
                    assert(now[now.len() - 1] == p);
                }
            }
        }
    }
}

impl Packages {
    /// The status of one alternative against what is installed.
    pub fn alternative_status(&self, alt: &RelVersionedPackageNum) -> (r: AlternativeStatus)
        ensures
            r == self@.status(alt.deep_view()),
    {
        match self.installed_version(alt.package_num) {
            None => AlternativeStatus::NotInstalled,
            Some(installed) => match &alt.rel_version {
                None => AlternativeStatus::Satisfied,
                Some((rel, wanted)) => judge(*rel, compare_versions(installed, wanted.as_str())),
            },
        }
    }

    /// The package that satisfies dependency `dd`: that of its first
    /// alternative, in declared order, which is installed at a version that
    /// meets its constraint. `Ok(None)` if no alternative is; an error if an
    /// installed version does not compare with the constraint's before one is
    /// found.
    pub fn dep_is_satisfied(&self, dd: &Dependency) -> (r: Result<Option<usize>, PackageError>)
        ensures
            r == self@.satisfied_by(dd.deep_view()),
    {
        let ghost dep = dd.deep_view();
        let mut k: usize = 0;
        while k < dd.len()
            invariant
                k <= dd.len(),
                dep == dd.deep_view(),
                self@.satisfied_by(dep) == self@.satisfied_from(dep, k as int),
            decreases dd.len() - k,
        {
            match self.alternative_status(&dd[k]) {
                AlternativeStatus::Satisfied => {
                    return Ok(Some(dd[k].package_num));
                },
                AlternativeStatus::Malformed => {
                    return Err(PackageError::MalformedVersion { package: dd[k].package_num });
                },
                _ => {},
            }
            k += 1;
        }
        Ok(None)
    }

    /// The packages of the alternatives of `dd` that are installed, but at a
    /// version that fails the constraint. Only for a dependency that is not
    /// satisfied.
    pub fn dep_satisfied_by_wrong_version(&self, dd: &Dependency) -> (r: Vec<usize>)
        requires
            self@.satisfied_by(dd.deep_view()) == Ok::<Option<usize>, PackageError>(None),
        ensures
            r@ == self@.wrong_version_candidates(dd.deep_view()),
    {
        let ghost dep = dd.deep_view();
        let mut result: Vec<usize> = Vec::new();
        let mut k: usize = 0;
        while k < dd.len()
            invariant
                k <= dd.len(),
                dep == dd.deep_view(),
                result@ == self@.wrong_versions(dep, k as int),
            decreases dd.len() - k,
        {
            match self.alternative_status(&dd[k]) {
                AlternativeStatus::WrongVersion => {
                    result.push(dd[k].package_num);
                },
                _ => {},
            }
            k += 1;
        }
        result
    }

    /// For each dependency of the package called `package_name`, in order,
    /// the package that satisfies it, if any.
    pub fn deps_available(&self, package_name: &str) -> (r: Result<Vec<Option<usize>>, PackageError>)
        requires
            self.wf(),
        ensures
            match self@.id_of(package_name@) {
                None => r == Err::<Vec<Option<usize>>, PackageError>(PackageError::UnknownPackage),
                Some(id) => {
                    let deps = self@.dependencies[id as int];
                    match self@.satisfiers(deps, deps.len() as int) {
                        Err(e) => r == Err::<Vec<Option<usize>>, PackageError>(e),
                        Ok(found) => r is Ok && r->Ok_0@ == found,
                    }
                },
            },
    {
        let id = match self.get_package_num(package_name) {
            Some(id) => id,
            None => {
                return Err(PackageError::UnknownPackage);
            },
        };
        let deps = self.dependencies_of(id);
        let mut result: Vec<Option<usize>> = Vec::new();
        let mut j: usize = 0;
        while j < deps.len()
            invariant
                j <= deps.len(),
                self.wf(),
                self@.id_of(package_name@) == Some(id),
                deps.deep_view() == self@.dependencies[id as int],
                self@.satisfiers(deps.deep_view(), j as int) == Ok::<
                    Seq<Option<usize>>,
                    PackageError,
                >(result@),
            decreases deps.len() - j,
        {
            match self.dep_is_satisfied(&deps[j]) {
                Err(e) => {
                    proof {
                        let all = deps.deep_view();
                        assert(all[j as int] == deps[j as int].deep_view());
                        assert(self@.satisfiers(all, j as int + 1) == Err::<
                            Seq<Option<usize>>,
                            PackageError,
                        >(e));
                        lemma_satisfiers_fail(self@, all, j as int + 1, all.len() as int);
                    }
                    return Err(e);
                },
                Ok(found) => {
                    result.push(found);
                },
            }
            j += 1;
        }
        Ok(result)
    }
}

/// Once the scan of a dependency has failed, so has that of every longer
/// prefix of the list, with the same error.
pub proof fn lemma_satisfiers_fail(c: Catalog, deps: Seq<Seq<Alternative>>, at: int, upto: int)
    requires
        0 <= at <= upto,
        c.satisfiers(deps, at) is Err,
    ensures
        c.satisfiers(deps, upto) == c.satisfiers(deps, at),
    decreases upto - at,
{
    if at < upto {
        lemma_satisfiers_fail(c, deps, at, upto - 1);
    }
}

} // verus!
