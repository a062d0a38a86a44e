//! Transitive closures and install plans over the dependency graph.

use vstd::prelude::*;
use crate::deps_available::lemma_candidates_are_wrong_versions;
use crate::packages::{Alternative, Catalog, Dependency, PackageError, Packages};
use crate::reachability::{
    lemma_first_choice_succeeds, lemma_plan_answers_unsatisfied, lemma_solution_is_reach,
};
use crate::version::{compare_versions, version_order, VersionOrder};

verus! {

/// Which edge a traversal follows out of a dependency.
#[derive(Clone, Copy, Debug, PartialEq, Eq, Structural)]
pub enum Traversal {
    /// The first alternative, whatever is installed.
    FirstChoice,
    /// For a dependency that is not satisfied, the alternative to install.
    InstallPlan,
}

/// The packages that the alternatives of a dependency name, in order.
pub open spec fn packages_of(dep: Seq<Alternative>) -> Seq<usize> {
    Seq::new(dep.len(), |k: int| dep[k].package)
}

/// Whether a candidate takes the place of the running best, given how its
/// version stands to that of the running best: it does where its version is
/// strictly greater. An error for `package` where the two do not compare.
pub open spec fn taking_over(package: usize, order: Option<VersionOrder>) -> Result<
    bool,
    PackageError,
> {
    match order {
        None => Err(PackageError::MalformedVersion { package }),
        Some(order) => Ok(order is Greater),
    }
}

/// Decides whether candidate `package` takes the place of the running best,
/// given how its version compares with that of the running best.
pub fn takes_over(package: usize, order: Option<VersionOrder>) -> (r: Result<bool, PackageError>)
    ensures
        r == taking_over(package, order),
{
    match order {
        None => Err(PackageError::MalformedVersion { package }),
        Some(VersionOrder::Greater) => Ok(true),
        Some(_) => Ok(false),
    }
}

/// The sequence inside a successful result.
pub open spec fn ids_of(r: Result<Vec<usize>, PackageError>) -> Result<Seq<usize>, PackageError> {
    match r {
        Ok(v) => Ok(v@),
        Err(e) => Err(e),
    }
}

impl Catalog {
    /// The installed version of `package`, or the one on offer.
    pub open spec fn version_for(self, installed: bool, package: usize) -> Option<Seq<char>> {
        if installed {
            self.installed_at(package)
        } else {
            self.available_at(package)
        }
    }

    /// The running best after the first `upto` of `ids` have been looked at,
    /// with its version. The first of `ids` is the best to begin with; a later
    /// one takes its place where its version is strictly greater than that of
    /// the running best. An error where a version is missing or does not
    /// compare.
    pub open spec fn highest_upto(self, installed: bool, ids: Seq<usize>, upto: int) -> Result<
        (usize, Seq<char>),
        PackageError,
    >
        decreases upto,
    {
        if ids.len() == 0 {
            Err(PackageError::InvalidDependency)
        } else if upto <= 0 {
            match self.version_for(installed, ids[0]) {
                None => Err(PackageError::MissingVersion { package: ids[0] }),
                Some(version) => Ok((ids[0], version)),
            }
        } else {
            match self.highest_upto(installed, ids, upto - 1) {
                Err(e) => Err(e),
                Ok((best, best_version)) => {
                    let id = ids[upto - 1];
                    match self.version_for(installed, id) {
                        None => Err(PackageError::MissingVersion { package: id }),
                        Some(version) => match taking_over(
                            id,
                            version_order(version, best_version),
                        ) {
                            Err(e) => Err(e),
                            Ok(true) => Ok((id, version)),
                            Ok(false) => Ok((best, best_version)),
                        },
                    }
                },
            }
        }
    }

    /// The package of highest version among `ids`, by the pairwise fold of
    /// [`Catalog::highest_upto`].
    pub open spec fn highest(self, installed: bool, ids: Seq<usize>) -> Result<usize, PackageError> {
        match self.highest_upto(installed, ids, ids.len() as int) {
            Ok((best, _)) => Ok(best),
            Err(e) => Err(e),
        }
    }

    /// What to install for `dep`: nothing where it is satisfied; else the
    /// wrong-version candidate of highest installed version; else, where
    /// there is no such candidate, the alternative of highest version on
    /// offer.
    pub open spec fn proposal(self, dep: Seq<Alternative>) -> Result<Option<usize>, PackageError> {
        match self.satisfied_by(dep) {
            Err(e) => Err(e),
            Ok(Some(_)) => Ok(None),
            Ok(None) => {
                let wrong = self.wrong_version_candidates(dep);
                let chosen = if wrong.len() == 0 {
                    self.highest(false, packages_of(dep))
                } else {
                    self.highest(true, wrong)
                };
                match chosen {
                    Ok(package) => Ok(Some(package)),
                    Err(e) => Err(e),
                }
            },
        }
    }

    /// The package that a traversal of kind `kind` goes to from `dep`.
    pub open spec fn target(self, kind: Traversal, dep: Seq<Alternative>) -> Result<
        Option<usize>,
        PackageError,
    > {
        match kind {
            Traversal::FirstChoice => if dep.len() > 0 {
                Ok(Some(dep[0].package))
            } else {
                Ok(None)
            },
            Traversal::InstallPlan => self.proposal(dep),
        }
    }

    /// `found` after the targets of the first `upto` dependencies of `deps`
    /// have been added, each at the end and only if it is not there yet.
    pub open spec fn absorb(
        self,
        kind: Traversal,
        found: Seq<usize>,
        deps: Seq<Seq<Alternative>>,
        upto: int,
    ) -> Result<Seq<usize>, PackageError>
        decreases upto,
    {
        if upto <= 0 {
            Ok(found)
        } else {
            match self.absorb(kind, found, deps, upto - 1) {
                Err(e) => Err(e),
                Ok(so_far) => match self.target(kind, deps[upto - 1]) {
                    Err(e) => Err(e),
                    Ok(None) => Ok(so_far),
                    Ok(Some(package)) => if so_far.contains(package) {
                        Ok(so_far)
                    } else {
                        Ok(so_far.push(package))
                    },
                },
            }
        }
    }

    /// The dependency list of `node`; empty for an id that the catalog does
    /// not hold.
    pub open spec fn dependencies_at(self, node: usize) -> Seq<Seq<Alternative>> {
        if node < self.dependencies.len() {
            self.dependencies[node as int]
        } else {
            Seq::empty()
        }
    }

    /// `found` after all dependencies of `node` have been gone through.
    pub open spec fn expand(self, kind: Traversal, found: Seq<usize>, node: usize) -> Result<
        Seq<usize>,
        PackageError,
    > {
        let deps = self.dependencies_at(node);
        self.absorb(kind, found, deps, deps.len() as int)
    }

    /// The outcome of a traversal that has found `found` and has expanded
    /// its first `next` members: the members are expanded in the order in
    /// which they were found, until none is left.
    pub open spec fn traverse(self, kind: Traversal, found: Seq<usize>, next: int) -> Result<
        Seq<usize>,
        PackageError,
    >
        decreases self.len() - next,
    {
        if next < 0 || next >= found.len() || next >= self.len() {
            Ok(found)
        } else {
            match self.expand(kind, found, found[next]) {
                Err(e) => Err(e),
                Ok(grown) => self.traverse(kind, grown, next + 1),
            }
        }
    }

    /// The packages that a traversal from `root` finds, in the order in which
    /// it finds them: `root` is expanded first, then each package found.
    pub open spec fn solution(self, kind: Traversal, root: usize) -> Result<Seq<usize>, PackageError> {
        match self.expand(kind, Seq::empty(), root) {
            Err(e) => Err(e),
            Ok(found) => self.traverse(kind, found, 0),
        }
    }

    /// The traversal from the package called `name`; nothing for a name that
    /// the catalog does not hold.
    pub open spec fn solution_for(self, kind: Traversal, name: Seq<char>) -> Result<
        Seq<usize>,
        PackageError,
    > {
        match self.id_of(name) {
            None => Ok(Seq::empty()),
            Some(root) => self.solution(kind, root),
        }
    }

    /// Every member of `ids` is the id of a package.
    pub open spec fn holds_all(self, ids: Seq<usize>) -> bool {
        forall|i: int| 0 <= i < ids.len() ==> #[trigger] ids[i] < self.len()
    }
}

impl Catalog {
    /// Package `id` has a version that compares with `version` and is not
    /// strictly greater.
    pub open spec fn not_above(self, installed: bool, id: usize, version: Seq<char>) -> bool {
        match self.version_for(installed, id) {
            Some(own) => match version_order(own, version) {
                Some(order) => !(order is Greater),
                None => false,
            },
            None => false,
        }
    }

    /// `best` stands at `at` among `ids`, has `version`, and none of `ids`
    /// between `at` and `upto` has a strictly greater one.
    pub open spec fn stands(
        self,
        installed: bool,
        ids: Seq<usize>,
        upto: int,
        at: int,
        best: usize,
        version: Seq<char>,
    ) -> bool {
        &&& 0 <= at < ids.len()
        &&& ids[at] == best
        &&& self.version_for(installed, best) == Some(version)
        &&& forall|k: int| at < k < upto ==> self.not_above(installed, #[trigger] ids[k], version)
    }
}

/// The package of highest version is one of the candidates, and no candidate
/// that comes after it has a strictly greater version.
pub proof fn lemma_highest_is_not_exceeded(c: Catalog, installed: bool, ids: Seq<usize>, upto: int)
    requires
        0 <= upto <= ids.len(),
        c.highest_upto(installed, ids, upto) is Ok,
    ensures
        exists|at: int|
            c.stands(
                installed,
                ids,
                upto,
                at,
                c.highest_upto(installed, ids, upto)->Ok_0.0,
                c.highest_upto(installed, ids, upto)->Ok_0.1,
            ),
    decreases upto,
{
    let (best, version) = c.highest_upto(installed, ids, upto)->Ok_0;
    if upto <= 0 {
        assert(c.stands(installed, ids, upto, 0, best, version));
    } else {
        lemma_highest_is_not_exceeded(c, installed, ids, upto - 1);
        let (before, before_version) = c.highest_upto(installed, ids, upto - 1)->Ok_0;
        let seen = upto - 1;
        let at = choose|at: int| c.stands(installed, ids, seen, at, before, before_version);
        let own = c.version_for(installed, ids[upto - 1])->Some_0;
        if version_order(own, before_version)->Some_0 is Greater {
            assert(c.stands(installed, ids, upto, upto - 1, best, version));
        } else {
            assert(c.stands(installed, ids, upto, at, best, version));
        }
    }
}

impl Catalog {
    /// The version of the candidate at `i` of `ids`.
    pub open spec fn candidate_version(self, installed: bool, ids: Seq<usize>, i: int) -> Option<
        Seq<char>,
    > {
        self.version_for(installed, ids[i])
    }

    /// The versions of the candidates `ids` compare as an order does: none is
    /// strictly greater than itself, and where one is strictly greater than
    /// a second, a third that is not strictly greater than the second is not
    /// strictly greater than the first.
    pub open spec fn compares_in_order(self, installed: bool, ids: Seq<usize>) -> bool {
        &&& forall|i: int|
            0 <= i < ids.len() ==> (#[trigger] self.candidate_version(installed, ids, i)
                matches Some(own) ==> self.not_above(installed, ids[i], own))
        &&& forall|i: int, j: int, k: int|
            #![trigger
                self.candidate_version(installed, ids, i),
                self.candidate_version(installed, ids, j),
                self.candidate_version(installed, ids, k),
            ]
            0 <= i < ids.len() && 0 <= j < ids.len() && 0 <= k < ids.len() ==> (
            self.candidate_version(installed, ids, i) matches Some(first) ==> (
            self.candidate_version(installed, ids, j) matches Some(second) ==> (version_order(
                first,
                second,
            ) == Some(VersionOrder::Greater) && self.not_above(installed, ids[k], second)
                ==> self.not_above(installed, ids[k], first))))
    }
}

/// Where the versions of the candidates compare as an order does, the
/// package of highest version has a version that none of the candidates
/// exceeds.
pub proof fn lemma_highest_is_maximal(c: Catalog, installed: bool, ids: Seq<usize>, upto: int)
    requires
        0 <= upto <= ids.len(),
        c.compares_in_order(installed, ids),
        c.highest_upto(installed, ids, upto) is Ok,
    ensures
        forall|k: int|
            0 <= k < upto ==> c.not_above(
                installed,
                #[trigger] ids[k],
                c.highest_upto(installed, ids, upto)->Ok_0.1,
            ),
        c.not_above(installed, ids[0], c.highest_upto(installed, ids, upto)->Ok_0.1),
    decreases upto,
{
    let (best, version) = c.highest_upto(installed, ids, upto)->Ok_0;
    if upto <= 0 {
        assert(c.candidate_version(installed, ids, 0) == Some(version));
    } else {
        lemma_highest_is_maximal(c, installed, ids, upto - 1);
        lemma_highest_is_member(c, installed, ids, upto - 1);
        let (before, before_version) = c.highest_upto(installed, ids, upto - 1)->Ok_0;
        let at = choose|at: int| 0 <= at < ids.len() && ids[at] == before;
        let last = upto - 1;
        assert(c.candidate_version(installed, ids, at) == Some(before_version));
        assert(c.candidate_version(installed, ids, last) is Some);
        if version_order(version, before_version) == Some(VersionOrder::Greater) && best
            == ids[last] && c.candidate_version(installed, ids, last) == Some(version) {
            assert forall|k: int| 0 <= k < upto implies c.not_above(
                installed,
                #[trigger] ids[k],
                version,
            ) by {
                if k < last {
                    let _ = c.candidate_version(installed, ids, k);
                    assert(c.not_above(installed, ids[k], before_version));
                }
            }
            let _ = c.candidate_version(installed, ids, 0);
        }
    }
}

/// A dependency that is satisfied is never answered with a package to
/// install.
pub proof fn lemma_satisfied_gets_no_proposal(c: Catalog, dep: Seq<Alternative>)
    requires
        c.satisfied_by(dep) matches Ok(Some(_)),
    ensures
        c.proposal(dep) == Ok::<Option<usize>, PackageError>(None),
{
}

/// Where no alternative of an unsatisfied dependency is installed at a wrong
/// version, the proposal is the alternative of highest version on offer
/// among all of them.
pub proof fn lemma_proposal_without_candidates(c: Catalog, dep: Seq<Alternative>)
    requires
        c.satisfied_by(dep) == Ok::<Option<usize>, PackageError>(None),
        c.wrong_version_candidates(dep).len() == 0,
    ensures
        c.proposal(dep) == match c.highest(false, packages_of(dep)) {
            Ok(package) => Ok::<Option<usize>, PackageError>(Some(package)),
            Err(e) => Err(e),
        },
        c.proposal(dep) matches Ok(Some(package)) ==> packages_of(dep).contains(package),
{
    let ids = packages_of(dep);
    if c.highest(false, ids) is Ok {
        lemma_highest_is_member(c, false, ids, ids.len() as int);
    }
}

/// Where alternatives of an unsatisfied dependency are installed at a wrong
/// version, the proposal is the one of highest installed version among
/// these, and no other alternative is proposed.
pub proof fn lemma_proposal_among_candidates(c: Catalog, dep: Seq<Alternative>)
    requires
        c.satisfied_by(dep) == Ok::<Option<usize>, PackageError>(None),
        c.wrong_version_candidates(dep).len() > 0,
    ensures
        c.proposal(dep) == match c.highest(true, c.wrong_version_candidates(dep)) {
            Ok(package) => Ok::<Option<usize>, PackageError>(Some(package)),
            Err(e) => Err(e),
        },
        c.proposal(dep) matches Ok(Some(package)) ==> c.wrong_version_candidates(dep).contains(
            package,
        ),
{
    let wrong = c.wrong_version_candidates(dep);
    if c.highest(true, wrong) is Ok {
        lemma_highest_is_member(c, true, wrong, wrong.len() as int);
    }
}

/// On one catalog the install plan of a package is one sequence: two
/// plans for the same name are equal, order included.
pub proof fn lemma_install_plan_is_determined(
    c: Catalog,
    name: Seq<char>,
    first: Result<Vec<usize>, PackageError>,
    second: Result<Vec<usize>, PackageError>,
)
    requires
        ids_of(first) == c.solution_for(Traversal::InstallPlan, name),
        ids_of(second) == c.solution_for(Traversal::InstallPlan, name),
    ensures
        ids_of(first) == ids_of(second),
        first is Ok ==> second is Ok && first->Ok_0@ == second->Ok_0@,
{
}

/// Distinct numbers below `n` are at most `n` in number.
pub proof fn lemma_distinct_bounded(s: Seq<usize>, n: nat)
    requires
        s.no_duplicates(),
        forall|i: int| 0 <= i < s.len() ==> #[trigger] s[i] < n,
    ensures
        s.len() <= n,
    decreases n,
{
    if s.len() == 0 {
    } else if n == 0 {
        assert(s[0] < 0);
    } else {
        let top = (n - 1) as usize;
        if s.contains(top) {
            let at = s.index_of(top);
            let rest = s.remove(at);
            assert forall|i: int| 0 <= i < rest.len() implies #[trigger] rest[i] < n - 1 by {
                if i < at {
                    assert(rest[i] == s[i]);
                } else {
                    assert(rest[i] == s[i + 1]);
                }
            }
            assert(rest.no_duplicates()) by {
                assert forall|i: int, j: int|
                    0 <= i < rest.len() && 0 <= j < rest.len() && i != j implies rest[i]
                    != rest[j] by {
                    let a = if i < at { i } else { i + 1 };
                    let b = if j < at { j } else { j + 1 };
                    assert(rest[i] == s[a] && rest[j] == s[b]);
                }
            }
            lemma_distinct_bounded(rest, (n - 1) as nat);
        } else {
            assert forall|i: int| 0 <= i < s.len() implies #[trigger] s[i] < n - 1 by {
                if s[i] == top {
                    assert(s.contains(top));
                }
            }
            lemma_distinct_bounded(s, (n - 1) as nat);
        }
    }
}

/// The running best is one of the ids looked at, with its own version.
pub proof fn lemma_highest_is_member(c: Catalog, installed: bool, ids: Seq<usize>, upto: int)
    requires
        0 <= upto <= ids.len(),
        c.highest_upto(installed, ids, upto) is Ok,
    ensures
        ids.contains(c.highest_upto(installed, ids, upto)->Ok_0.0),
        c.version_for(installed, c.highest_upto(installed, ids, upto)->Ok_0.0) == Some(
            c.highest_upto(installed, ids, upto)->Ok_0.1,
        ),
    decreases upto,
{
    if upto <= 0 {
        assert(ids[0] == c.highest_upto(installed, ids, upto)->Ok_0.0);
    } else {
        lemma_highest_is_member(c, installed, ids, upto - 1);
        assert(ids.contains(ids[upto - 1]));
    }
}

/// The target of a valid dependency is the id of a package.
pub proof fn lemma_target_in_catalog(c: Catalog, kind: Traversal, dep: Seq<Alternative>)
    requires
        c.valid_dependency(dep),
        c.target(kind, dep) matches Ok(Some(_)),
    ensures
        c.target(kind, dep)->Ok_0->Some_0 < c.len(),
        packages_of(dep).contains(c.target(kind, dep)->Ok_0->Some_0),
{
    let p = c.target(kind, dep)->Ok_0->Some_0;
    match kind {
        Traversal::FirstChoice => {
            assert(packages_of(dep)[0] == p);
        },
        Traversal::InstallPlan => {
            let wrong = c.wrong_version_candidates(dep);
            if wrong.len() == 0 {
                let ids = packages_of(dep);
                lemma_highest_is_member(c, false, ids, ids.len() as int);
            } else {
                lemma_highest_is_member(c, true, wrong, wrong.len() as int);
                lemma_candidates_are_wrong_versions(c, dep, dep.len() as int);
                assert(wrong.contains(p));
                let k = choose|k: int|
                    0 <= k < dep.len() && (#[trigger] dep[k]).package == p && c.status(dep[k])
                        is WrongVersion;
                assert(packages_of(dep)[k] == p);
            }
            let i = choose|i: int| 0 <= i < packages_of(dep).len() && packages_of(dep)[i] == p;
            assert(dep[i].package == p);
        },
    }
}

/// Going through dependencies only adds at the end, keeps the members
/// distinct and within the catalog.
pub proof fn lemma_absorb_grows(
    c: Catalog,
    kind: Traversal,
    found: Seq<usize>,
    deps: Seq<Seq<Alternative>>,
    upto: int,
)
    requires
        0 <= upto <= deps.len(),
        c.valid_dependencies(deps),
        c.holds_all(found),
        found.no_duplicates(),
        c.absorb(kind, found, deps, upto) is Ok,
    ensures
        c.holds_all(c.absorb(kind, found, deps, upto)->Ok_0),
        c.absorb(kind, found, deps, upto)->Ok_0.no_duplicates(),
        found.is_prefix_of(c.absorb(kind, found, deps, upto)->Ok_0),
    decreases upto,
{
    if upto > 0 {
        lemma_absorb_grows(c, kind, found, deps, upto - 1);
        let so_far = c.absorb(kind, found, deps, upto - 1)->Ok_0;
        let dep = deps[upto - 1];
        assert(c.valid_dependency(dep));
        match c.target(kind, dep) {
            Ok(Some(package)) => {
                lemma_target_in_catalog(c, kind, dep);
                if !so_far.contains(package) {
                    let grown = so_far.push(package);
                    assert forall|i: int, j: int|
                        0 <= i < grown.len() && 0 <= j < grown.len() && i != j implies grown[i]
                        != grown[j] by {
                        if i < so_far.len() && j < so_far.len() {
                        } else if i < so_far.len() {
                            assert(so_far.contains(so_far[i]));
                        } else {
                            assert(so_far.contains(so_far[j]));
                        }
                    }
                }
            },
            _ => {},
        }
    }
}

/// Once a dependency has failed, so has every longer prefix of the list,
/// with the same error.
pub proof fn lemma_absorb_fails(
    c: Catalog,
    kind: Traversal,
    found: Seq<usize>,
    deps: Seq<Seq<Alternative>>,
    at: int,
    upto: int,
)
    requires
        0 <= at <= upto,
        c.absorb(kind, found, deps, at) is Err,
    ensures
        c.absorb(kind, found, deps, upto) == c.absorb(kind, found, deps, at),
    decreases upto - at,
{
    if at < upto {
        lemma_absorb_fails(c, kind, found, deps, at, upto - 1);
    }
}

/// Whether `ids` holds `id`.
pub fn holds(ids: &Vec<usize>, id: usize) -> (r: bool)
    ensures
        r == ids@.contains(id),
{
    let mut i: usize = 0;
    while i < ids.len()
        invariant
            i <= ids.len(),
            forall|j: int| 0 <= j < i ==> ids@[j] != id,
        decreases ids.len() - i,
    {
        if ids[i] == id {
            return true;
        }
        i += 1;
    }
    false
}

impl Packages {
    /// The installed version of `package_num`, or the one on offer; none for
    /// an id that the catalog does not hold.
    fn version_for(&self, installed: bool, package_num: usize) -> (r: Option<&str>)
        ensures
            crate::packages::opt_chars(r) == self@.version_for(installed, package_num),
    {
        if installed {
            self.installed_version(package_num)
        } else {
            self.available_version(package_num)
        }
    }

    /// The package of highest version among `ids`: the installed version if
    /// `installed`, else the version on offer. The first of `ids` is the best
    /// to begin with, and each of `ids` in turn takes its place where its
    /// version is strictly greater.
    pub fn highest_version(&self, installed: bool, ids: &Vec<usize>) -> (r: Result<
        usize,
        PackageError,
    >)
        ensures
            r == self@.highest(installed, ids@),
    {
        if ids.len() == 0 {
            return Err(PackageError::InvalidDependency);
        }
        let mut best: usize = ids[0];
        let mut best_version: &str = match self.version_for(installed, best) {
            None => {
                proof {
                    lemma_highest_fails(self@, installed, ids@, 0, ids.len() as int);
                }
                return Err(PackageError::MissingVersion { package: best });
            },
            Some(version) => version,
        };
        let mut k: usize = 0;
        while k < ids.len()
            invariant
                k <= ids.len(),
                ids.len() > 0,
                self@.highest_upto(installed, ids@, k as int) == Ok::<
                    (usize, Seq<char>),
                    PackageError,
                >((best, best_version@)),
            decreases ids.len() - k,
        {
            let id = ids[k];
            let outcome: Result<Option<&str>, PackageError> = match self.version_for(installed, id) {
                None => Err(PackageError::MissingVersion { package: id }),
                Some(version) => match takes_over(id, compare_versions(version, best_version)) {
                    Err(e) => Err(e),
                    Ok(true) => Ok(Some(version)),
                    Ok(false) => Ok(None),
                },
            };
            match outcome {
                Err(e) => {
                    proof {
                        assert(self@.highest_upto(installed, ids@, k as int + 1) == Err::<
                            (usize, Seq<char>),
                            PackageError,
                        >(e));
                        lemma_highest_fails(self@, installed, ids@, k as int + 1, ids.len() as int);
                    }
                    return Err(e);
                },
                Ok(Some(version)) => {
                    best = id;
                    best_version = version;
                },
                Ok(None) => {},
            }
            k += 1;
        }
        Ok(best)
    }

    /// What to install for dependency `dd`: nothing where it is satisfied;
    /// else, of its alternatives installed at a wrong version, the one whose
    /// installed version is highest; else, where none is installed, the one
    /// whose version on offer is highest.
    pub fn proposal(&self, dd: &Dependency) -> (r: Result<Option<usize>, PackageError>)
        ensures
            r == self@.proposal(dd.deep_view()),
    {
        match self.dep_is_satisfied(dd) {
            Err(e) => Err(e),
            Ok(Some(_)) => Ok(None),
            Ok(None) => {
                let wrong = self.dep_satisfied_by_wrong_version(dd);
                let chosen = if wrong.len() == 0 {
                    let mut ids: Vec<usize> = Vec::new();
                    let mut k: usize = 0;
                    while k < dd.len()
                        invariant
                            k <= dd.len(),
                            ids@ == packages_of(dd.deep_view()).take(k as int),
                        decreases dd.len() - k,
                    {
                        ids.push(dd[k].package_num);
                        assert(ids@ =~= packages_of(dd.deep_view()).take(k as int + 1));
                        k += 1;
                    }
                    assert(ids@ =~= packages_of(dd.deep_view()));
                    self.highest_version(false, &ids)
                } else {
                    self.highest_version(true, &wrong)
                };
                match chosen {
                    Ok(package) => Ok(Some(package)),
                    Err(e) => Err(e),
                }
            },
        }
    }

    /// The package that a traversal of kind `kind` goes to from `dd`.
    pub fn target(&self, kind: Traversal, dd: &Dependency) -> (r: Result<Option<usize>, PackageError>)
        ensures
            r == self@.target(kind, dd.deep_view()),
    {
        match kind {
            Traversal::FirstChoice => if dd.len() > 0 {
                Ok(Some(dd[0].package_num))
            } else {
                Ok(None)
            },
            Traversal::InstallPlan => self.proposal(dd),
        }
    }

    /// Goes through the dependencies of `node` and adds to `found` each
    /// target that it does not hold yet.
    fn expand(&self, kind: Traversal, found: Vec<usize>, node: usize) -> (r: Result<
        Vec<usize>,
        PackageError,
    >)
        requires
            self.wf(),
            node < self@.len(),
        ensures
            ids_of(r) == self@.expand(kind, found@, node),
    {
        let ghost start = found@;
        let deps = self.dependencies_of(node);
        let mut grown = found;
        let mut j: usize = 0;
        while j < deps.len()
            invariant
                j <= deps.len(),
                self.wf(),
                node < self@.len(),
                deps.deep_view() == self@.dependencies_at(node),
                self@.absorb(kind, start, deps.deep_view(), j as int) == Ok::<
                    Seq<usize>,
                    PackageError,
                >(grown@),
                start == found@,
            decreases deps.len() - j,
        {
            assert(deps.deep_view()[j as int] == deps[j as int].deep_view());
            match self.target(kind, &deps[j]) {
                Err(e) => {
                    proof {
                        assert(self@.absorb(kind, start, deps.deep_view(), j as int + 1) == Err::<
                            Seq<usize>,
                            PackageError,
                        >(e));
                        lemma_absorb_fails(
                            self@,
                            kind,
                            start,
                            deps.deep_view(),
                            j as int + 1,
                            deps.len() as int,
                        );
                    }
                    return Err(e);
                },
                Ok(None) => {},
                Ok(Some(package)) => {
                    if !holds(&grown, package) {
                        grown.push(package);
                    }
                },
            }
            j += 1;
        }
        Ok(grown)
    }

    /// The traversal of kind `kind` from package `root`.
    pub fn solve(&self, kind: Traversal, root: usize) -> (r: Result<Vec<usize>, PackageError>)
        requires
            self.wf(),
            root < self@.len(),
        ensures
            ids_of(r) == self@.solution(kind, root),
    {
        let mut found: Vec<usize> = match self.expand(kind, Vec::new(), root) {
            Err(e) => {
                return Err(e);
            },
            Ok(found) => found,
        };
        proof {
            let deps = self@.dependencies_at(root);
            lemma_absorb_grows(self@, kind, Seq::empty(), deps, deps.len() as int);
        }
        let mut next: usize = 0;
        while next < found.len()
            invariant
                next <= found.len(),
                self.wf(),
                self@.holds_all(found@),
                found@.no_duplicates(),
                self@.solution(kind, root) == self@.traverse(kind, found@, next as int),
            decreases self@.len() - next,
        {
            proof {
                lemma_distinct_bounded(found@, self@.len());
                let deps = self@.dependencies_at(found@[next as int]);
                if self@.expand(kind, found@, found@[next as int]) is Ok {
                    lemma_absorb_grows(self@, kind, found@, deps, deps.len() as int);
                }
            }
            let node = found[next];
            found = match self.expand(kind, found, node) {
                Err(e) => {
                    return Err(e);
                },
                Ok(grown) => grown,
            };
            next += 1;
        }
        Ok(found)
    }
}

impl Packages {
    /// A solution for the transitive dependencies of the package called
    /// `package_name`, where each dependency is met by its first alternative
    /// and what is installed plays no part: the packages within reach of it,
    /// each once, in the order in which the traversal finds them. Empty for a
    /// name that the catalog does not hold.
    pub fn transitive_dep_solution(&self, package_name: &str) -> (r: Vec<usize>)
        requires
            self.wf(),
        ensures
            self@.solution_for(Traversal::FirstChoice, package_name@) == Ok::<
                Seq<usize>,
                PackageError,
            >(r@),
            r@.no_duplicates(),
            self@.holds_all(r@),
            self@.id_of(package_name@) is None ==> r@.len() == 0,
            forall|p: usize|
                r@.contains(p) <==> self@.id_of(package_name@) is Some && self@.reachable(
                    Traversal::FirstChoice,
                    self@.id_of(package_name@)->Some_0,
                    p,
                ),
    {
        match self.get_package_num(package_name) {
            None => {
                let r: Vec<usize> = Vec::new();
                assert(forall|p: usize| !r@.contains(p));
                r
            },
            Some(root) => {
                proof {
                    lemma_first_choice_succeeds(self@, root);
                    lemma_solution_is_reach(self@, Traversal::FirstChoice, root);
                }
                match self.solve(Traversal::FirstChoice, root) {
                    Ok(found) => found,
                    // Never taken: a first alternative is always there to follow.
                    Err(_) => Vec::new(),
                }
            },
        }
    }

    /// The packages to install so that the dependencies of the package called
    /// `package_name` are met, and in turn those of each package to install,
    /// given what is installed: for each dependency that is not satisfied,
    /// the proposal of [`Packages::proposal`], each package once, in the
    /// order in which the traversal finds them. Empty for a name that the
    /// catalog does not hold. An error where a dependency of the package, or
    /// of one to install, cannot be decided.
    pub fn compute_how_to_install(&self, package_name: &str) -> (r: Result<Vec<usize>, PackageError>)
        requires
            self.wf(),
        ensures
            ids_of(r) == self@.solution_for(Traversal::InstallPlan, package_name@),
            self@.id_of(package_name@) is None ==> r is Ok && r->Ok_0@.len() == 0,
            r matches Ok(plan) ==> plan@.no_duplicates() && self@.holds_all(plan@) && forall|
                p: usize,
            |
                plan@.contains(p) <==> self@.id_of(package_name@) is Some && self@.reachable(
                    Traversal::InstallPlan,
                    self@.id_of(package_name@)->Some_0,
                    p,
                ),
            r matches Ok(plan) ==> forall|p: usize|
                plan@.contains(p) ==> self@.answers_unsatisfied(
                    self@.id_of(package_name@)->Some_0,
                    plan@,
                    p,
                ),
            r matches Err(e) ==> self@.id_of(package_name@) matches Some(root) && exists|
                node: usize,
            |
                (node == root || self@.reachable(Traversal::InstallPlan, root, node))
                    && #[trigger] self@.fails_with(Traversal::InstallPlan, node, e),
    {
        match self.get_package_num(package_name) {
            None => {
                let r: Vec<usize> = Vec::new();
                assert(forall|p: usize| !r@.contains(p));
                Ok(r)
            },
            Some(root) => {
                proof {
                    lemma_solution_is_reach(self@, Traversal::InstallPlan, root);
                }
                let r = self.solve(Traversal::InstallPlan, root);
                proof {
                    if r is Ok {
                        let plan = r->Ok_0@;
                        assert forall|p: usize| plan.contains(p) implies self@.answers_unsatisfied(
                            root,
                            plan,
                            p,
                        ) by {
                            lemma_plan_answers_unsatisfied(self@, root, p);
                        }
                    }
                }
                r
            },
        }
    }
}

/// Once a candidate has failed, so has every longer prefix of the list, with
/// the same error.
pub proof fn lemma_highest_fails(c: Catalog, installed: bool, ids: Seq<usize>, at: int, upto: int)
    requires
        0 <= at <= upto,
        c.highest_upto(installed, ids, at) is Err,
    ensures
        c.highest_upto(installed, ids, upto) == c.highest_upto(installed, ids, at),
    decreases upto - at,
{
    if at < upto {
        lemma_highest_fails(c, installed, ids, at, upto - 1);
    }
}

} // verus!
