//! What a traversal finds, stated over the dependency graph: the packages
//! that can be reached from the root.

use vstd::prelude::*;
use crate::packages::{Alternative, Catalog, PackageError};
use crate::solvers::{lemma_absorb_grows, lemma_distinct_bounded, Traversal};

verus! {

impl Catalog {
    /// Dependency `j` of `deps` has `to` for its target.
    pub open spec fn hits(self, kind: Traversal, deps: Seq<Seq<Alternative>>, j: int, to: usize) -> bool {
        0 <= j < deps.len() && self.target(kind, deps[j]) == Ok::<Option<usize>, PackageError>(
            Some(to),
        )
    }

    /// Dependency `j` of `deps` fails with `e`.
    pub open spec fn breaks(
        self,
        kind: Traversal,
        deps: Seq<Seq<Alternative>>,
        j: int,
        e: PackageError,
    ) -> bool {
        0 <= j < deps.len() && self.target(kind, deps[j]) == Err::<Option<usize>, PackageError>(e)
    }

    /// Dependency `j` of `deps` has no target, or one that `found` holds.
    pub open spec fn lands(
        self,
        kind: Traversal,
        found: Seq<usize>,
        deps: Seq<Seq<Alternative>>,
        j: int,
    ) -> bool {
        match self.target(kind, deps[j]) {
            Ok(Some(package)) => found.contains(package),
            Ok(None) => true,
            Err(_) => false,
        }
    }

    /// One of the first `upto` dependencies of `deps` has `to` for its target.
    pub open spec fn hit_before(
        self,
        kind: Traversal,
        deps: Seq<Seq<Alternative>>,
        upto: int,
        to: usize,
    ) -> bool {
        exists|j: int| j < upto && self.hits(kind, deps, j, to)
    }

    /// A dependency of `from` has `to` for its target.
    pub open spec fn edge(self, kind: Traversal, from: usize, to: usize) -> bool {
        exists|j: int| self.hits(kind, self.dependencies_at(from), j, to)
    }

    /// A dependency of `node` fails with `e`.
    pub open spec fn fails_with(self, kind: Traversal, node: usize, e: PackageError) -> bool {
        exists|j: int| self.breaks(kind, self.dependencies_at(node), j, e)
    }

    /// Every dependency of `node` has no target, or one that `found` holds.
    pub open spec fn settled(self, kind: Traversal, found: Seq<usize>, node: usize) -> bool {
        forall|j: int|
            0 <= j < self.dependencies_at(node).len() ==> self.lands(
                kind,
                found,
                self.dependencies_at(node),
                j,
            )
    }

    /// Step `i` of `path` is an edge.
    pub open spec fn step(self, kind: Traversal, path: Seq<usize>, i: int) -> bool {
        self.edge(kind, path[i], path[i + 1])
    }

    /// `path` leads from `from` to `to` over one edge or more.
    pub open spec fn joins(self, kind: Traversal, path: Seq<usize>, from: usize, to: usize) -> bool {
        &&& path.len() >= 2
        &&& path[0] == from
        &&& path[path.len() - 1] == to
        &&& forall|i: int| 0 <= i < path.len() - 1 ==> self.step(kind, path, i)
    }

    /// `to` can be reached from `from` over one edge or more.
    pub open spec fn reachable(self, kind: Traversal, from: usize, to: usize) -> bool {
        exists|path: Seq<usize>| self.joins(kind, path, from, to)
    }

    /// The state of a traversal from `root` that has found `found` and
    /// expanded its first `next` members: the members are distinct packages
    /// within reach of `root`, and the targets of `root` and of the expanded
    /// members are all among them.
    pub open spec fn explored(self, kind: Traversal, root: usize, found: Seq<usize>, next: int) -> bool {
        &&& 0 <= next <= found.len()
        &&& self.holds_all(found)
        &&& found.no_duplicates()
        &&& forall|i: int| 0 <= i < found.len() ==> self.reachable(kind, root, #[trigger] found[i])
        &&& self.settled(kind, found, root)
        &&& forall|i: int| 0 <= i < next ==> self.settled(kind, found, #[trigger] found[i])
    }
}

/// An edge out of a package within reach leads to a package within reach.
pub proof fn lemma_reach_extends(c: Catalog, kind: Traversal, root: usize, mid: usize, to: usize)
    requires
        mid == root || c.reachable(kind, root, mid),
        c.edge(kind, mid, to),
    ensures
        c.reachable(kind, root, to),
{
    if mid == root {
        let path = seq![root, to];
        assert forall|i: int| 0 <= i < path.len() - 1 implies c.step(kind, path, i) by {
            assert(path[0] == root && path[1] == to);
        }
        assert(c.joins(kind, path, root, to));
    } else {
        let before = choose|path: Seq<usize>| c.joins(kind, path, root, mid);
        let path = before.push(to);
        assert forall|i: int| 0 <= i < path.len() - 1 implies c.step(kind, path, i) by {
            if i < before.len() - 1 {
                assert(c.step(kind, before, i));
                assert(path[i] == before[i] && path[i + 1] == before[i + 1]);
            } else {
                assert(path[i] == mid && path[i + 1] == to);
            }
        }
        assert(c.joins(kind, path, root, to));
    }
}

/// What `found` holds, it still holds after more has been added at its end.
pub proof fn lemma_prefix_keeps(found: Seq<usize>, grown: Seq<usize>, package: usize)
    requires
        found.is_prefix_of(grown),
        found.contains(package),
    ensures
        grown.contains(package),
{
    let i = choose|i: int| 0 <= i < found.len() && found[i] == package;
    assert(grown.subrange(0, found.len() as int)[i] == grown[i]);
}

/// A package whose targets are all found stays so when more is found.
pub proof fn lemma_settled_keeps(
    c: Catalog,
    kind: Traversal,
    found: Seq<usize>,
    grown: Seq<usize>,
    node: usize,
)
    requires
        found.is_prefix_of(grown),
        c.settled(kind, found, node),
    ensures
        c.settled(kind, grown, node),
{
    let deps = c.dependencies_at(node);
    assert forall|j: int| 0 <= j < deps.len() implies c.lands(kind, grown, deps, j) by {
        assert(c.lands(kind, found, deps, j));
        match c.target(kind, deps[j]) {
            Ok(Some(package)) => {
                lemma_prefix_keeps(found, grown, package);
            },
            _ => {},
        }
    }
}

/// After the first `upto` dependencies have been gone through, each of them
/// has its target among what is found, and what was added is the target of
/// one of them.
pub proof fn lemma_absorb_settles(
    c: Catalog,
    kind: Traversal,
    found: Seq<usize>,
    deps: Seq<Seq<Alternative>>,
    upto: int,
)
    requires
        0 <= upto <= deps.len(),
        c.absorb(kind, found, deps, upto) is Ok,
    ensures
        found.is_prefix_of(c.absorb(kind, found, deps, upto)->Ok_0),
        forall|j: int|
            0 <= j < upto ==> c.lands(kind, c.absorb(kind, found, deps, upto)->Ok_0, deps, j),
        forall|i: int|
            found.len() <= i < c.absorb(kind, found, deps, upto)->Ok_0.len() ==> c.hit_before(
                kind,
                deps,
                upto,
                #[trigger] c.absorb(kind, found, deps, upto)->Ok_0[i],
            ),
    decreases upto,
{
    let grown = c.absorb(kind, found, deps, upto)->Ok_0;
    if upto > 0 {
        lemma_absorb_settles(c, kind, found, deps, upto - 1);
        let so_far = c.absorb(kind, found, deps, upto - 1)->Ok_0;
        assert(so_far.is_prefix_of(grown)) by {
            assert(so_far =~= grown.subrange(0, so_far.len() as int));
        }
        assert(found.is_prefix_of(grown)) by {
            assert(found =~= so_far.subrange(0, found.len() as int));
            assert(found =~= grown.subrange(0, found.len() as int));
        }
        assert forall|j: int| 0 <= j < upto implies c.lands(kind, grown, deps, j) by {
            if j < upto - 1 {
                assert(c.lands(kind, so_far, deps, j));
                match c.target(kind, deps[j]) {
                    Ok(Some(package)) => {
                        lemma_prefix_keeps(so_far, grown, package);
                    },
                    _ => {},
                }
            } else {
                match c.target(kind, deps[j]) {
                    Ok(Some(package)) => {
                        if so_far.contains(package) {
                        } else {
                            assert(grown[grown.len() - 1] == package);
                        }
                    },
                    _ => {},
                }
            }
        }
        assert forall|i: int| found.len() <= i < grown.len() implies c.hit_before(
            kind,
            deps,
            upto,
            #[trigger] grown[i],
        ) by {
            if i < so_far.len() {
                assert(grown[i] == so_far[i]);
                assert(c.hit_before(kind, deps, upto - 1, so_far[i]));
                let j = choose|j: int| j < upto - 1 && c.hits(kind, deps, j, so_far[i]);
                assert(j < upto && c.hits(kind, deps, j, grown[i]));
            } else {
                assert(c.hits(kind, deps, upto - 1, grown[i]));
            }
        }
    } else {
        assert(found =~= grown.subrange(0, found.len() as int));
    }
}

/// Where going through dependencies fails, one of them fails with that error.
pub proof fn lemma_absorb_breaks(
    c: Catalog,
    kind: Traversal,
    found: Seq<usize>,
    deps: Seq<Seq<Alternative>>,
    upto: int,
)
    requires
        0 <= upto <= deps.len(),
        c.absorb(kind, found, deps, upto) is Err,
    ensures
        exists|j: int| c.breaks(kind, deps, j, c.absorb(kind, found, deps, upto)->Err_0),
    decreases upto,
{
    if upto > 0 {
        if c.absorb(kind, found, deps, upto - 1) is Err {
            lemma_absorb_breaks(c, kind, found, deps, upto - 1);
        } else {
            assert(c.breaks(kind, deps, upto - 1, c.absorb(kind, found, deps, upto)->Err_0));
        }
    }
}

/// A traversal that goes on from an explored state ends in one where every
/// member has been expanded, or fails at the root or at a package within
/// reach of it.
pub proof fn lemma_traverse_explores(
    c: Catalog,
    kind: Traversal,
    root: usize,
    found: Seq<usize>,
    next: int,
)
    requires
        c.wf(),
        root < c.len(),
        c.explored(kind, root, found, next),
    ensures
        match c.traverse(kind, found, next) {
            Ok(all) => c.explored(kind, root, all, all.len() as int),
            Err(e) => exists|node: usize|
                (node == root || c.reachable(kind, root, node)) && #[trigger] c.fails_with(
                    kind,
                    node,
                    e,
                ),
        },
    decreases c.len() - next,
{
    lemma_distinct_bounded(found, c.len());
    if next >= found.len() {
    } else {
        let node = found[next];
        let deps = c.dependencies_at(node);
        assert(c.valid_dependencies(deps));
        match c.expand(kind, found, node) {
            Err(e) => {
                lemma_absorb_breaks(c, kind, found, deps, deps.len() as int);
                assert(c.fails_with(kind, node, e));
            },
            Ok(grown) => {
                lemma_absorb_grows(c, kind, found, deps, deps.len() as int);
                lemma_absorb_settles(c, kind, found, deps, deps.len() as int);
                assert forall|i: int| 0 <= i < grown.len() implies c.reachable(
                    kind,
                    root,
                    #[trigger] grown[i],
                ) by {
                    if i < found.len() {
                        assert(grown.subrange(0, found.len() as int)[i] == grown[i]);
                    } else {
                        assert(c.hit_before(kind, deps, deps.len() as int, grown[i]));
                        let j = choose|j: int|
                            j < deps.len() && c.hits(kind, deps, j, grown[i]);
                        assert(c.edge(kind, node, grown[i]));
                        lemma_reach_extends(c, kind, root, node, grown[i]);
                    }
                }
                lemma_settled_keeps(c, kind, found, grown, root);
                assert forall|i: int| 0 <= i < next + 1 implies c.settled(
                    kind,
                    grown,
                    #[trigger] grown[i],
                ) by {
                    assert(grown.subrange(0, found.len() as int)[i] == grown[i]);
                    if i < next {
                        lemma_settled_keeps(c, kind, found, grown, found[i]);
                    }
                }
                lemma_traverse_explores(c, kind, root, grown, next + 1);
            },
        }
    }
}

/// In a state where every member has been expanded, the end of every path
/// from the root is a member.
pub proof fn lemma_paths_stay_inside(
    c: Catalog,
    kind: Traversal,
    root: usize,
    all: Seq<usize>,
    path: Seq<usize>,
)
    requires
        c.explored(kind, root, all, all.len() as int),
        c.joins(kind, path, root, path[path.len() - 1]),
    ensures
        all.contains(path[path.len() - 1]),
    decreases path.len(),
{
    let to = path[path.len() - 1];
    let mid = path[path.len() - 2];
    assert(c.step(kind, path, path.len() - 2));
    let j = choose|j: int| c.hits(kind, c.dependencies_at(mid), j, to);
    if path.len() == 2 {
        assert(c.lands(kind, all, c.dependencies_at(root), j));
    } else {
        let before = path.drop_last();
        assert forall|i: int| 0 <= i < before.len() - 1 implies c.step(kind, before, i) by {
            assert(c.step(kind, path, i));
        }
        lemma_paths_stay_inside(c, kind, root, all, before);
        let at = choose|i: int| 0 <= i < all.len() && all[i] == mid;
        assert(c.settled(kind, all, all[at]));
        assert(c.lands(kind, all, c.dependencies_at(mid), j));
    }
}

/// What a traversal finds is the set of packages within reach of the root,
/// each once. It fails exactly where a dependency of the root, or of a
/// package within reach, fails, and then with the error of one of them.
pub proof fn lemma_solution_is_reach(c: Catalog, kind: Traversal, root: usize)
    requires
        c.wf(),
        root < c.len(),
    ensures
        match c.solution(kind, root) {
            Ok(all) => {
                &&& all.no_duplicates()
                &&& c.holds_all(all)
                &&& forall|p: usize| all.contains(p) <==> c.reachable(kind, root, p)
                &&& forall|node: usize, e: PackageError|
                    (node == root || c.reachable(kind, root, node)) ==> !#[trigger] c.fails_with(
                        kind,
                        node,
                        e,
                    )
            },
            Err(e) => exists|node: usize|
                (node == root || c.reachable(kind, root, node)) && #[trigger] c.fails_with(
                    kind,
                    node,
                    e,
                ),
        },
{
    let deps = c.dependencies_at(root);
    let none = Seq::<usize>::empty();
    assert(c.valid_dependencies(deps));
    match c.expand(kind, none, root) {
        Err(e) => {
            lemma_absorb_breaks(c, kind, none, deps, deps.len() as int);
            assert(c.fails_with(kind, root, e));
        },
        Ok(found) => {
            lemma_absorb_grows(c, kind, none, deps, deps.len() as int);
            lemma_absorb_settles(c, kind, none, deps, deps.len() as int);
            assert forall|i: int| 0 <= i < found.len() implies c.reachable(
                kind,
                root,
                #[trigger] found[i],
            ) by {
                assert(c.hit_before(kind, deps, deps.len() as int, found[i]));
                let j = choose|j: int| j < deps.len() && c.hits(kind, deps, j, found[i]);
                assert(c.edge(kind, root, found[i]));
                lemma_reach_extends(c, kind, root, root, found[i]);
            }
            assert(c.explored(kind, root, found, 0));
            lemma_traverse_explores(c, kind, root, found, 0);
            match c.traverse(kind, found, 0) {
                Err(_) => {},
                Ok(all) => {
                    assert forall|p: usize| all.contains(p) <==> c.reachable(kind, root, p) by {
                        if c.reachable(kind, root, p) {
                            let path = choose|path: Seq<usize>| c.joins(kind, path, root, p);
                            lemma_paths_stay_inside(c, kind, root, all, path);
                        }
                    }
                    assert forall|node: usize, e: PackageError|
                        (node == root || c.reachable(kind, root, node)) implies !#[trigger] c.fails_with(
                            kind,
                            node,
                            e,
                        ) by {
                        if c.fails_with(kind, node, e) {
                            let j = choose|j: int| c.breaks(kind, c.dependencies_at(node), j, e);
                            if node == root {
                                assert(c.lands(kind, all, c.dependencies_at(root), j));
                            } else {
                                assert(all.contains(node));
                                let at = choose|i: int| 0 <= i < all.len() && all[i] == node;
                                assert(c.settled(kind, all, all[at]));
                                assert(c.lands(kind, all, c.dependencies_at(node), j));
                            }
                        }
                    }
                },
            }
        },
    }
}

impl Catalog {
    /// Dependency `j` of `node` is not satisfied and is answered with `to`.
    pub open spec fn proposes(self, node: usize, j: int, to: usize) -> bool {
        let deps = self.dependencies_at(node);
        &&& 0 <= j < deps.len()
        &&& self.satisfied_by(deps[j]) == Ok::<Option<usize>, PackageError>(None)
        &&& self.proposal(deps[j]) == Ok::<Option<usize>, PackageError>(Some(to))
    }
}

impl Catalog {
    /// `to` is proposed for a dependency that is not satisfied, of `root` or
    /// of a member of `plan`.
    pub open spec fn answers_unsatisfied(self, root: usize, plan: Seq<usize>, to: usize) -> bool {
        exists|node: usize, j: int|
            (node == root || plan.contains(node)) && #[trigger] self.proposes(node, j, to)
    }
}

/// Every package of an install plan answers a dependency that is not
/// satisfied, of the root or of another package of the plan: none is
/// proposed for a dependency that is satisfied already.
pub proof fn lemma_plan_answers_unsatisfied(c: Catalog, root: usize, p: usize)
    requires
        c.wf(),
        root < c.len(),
        c.solution(Traversal::InstallPlan, root) is Ok,
        c.solution(Traversal::InstallPlan, root)->Ok_0.contains(p),
    ensures
        c.answers_unsatisfied(root, c.solution(Traversal::InstallPlan, root)->Ok_0, p),
{
    let kind = Traversal::InstallPlan;
    let plan = c.solution(kind, root)->Ok_0;
    lemma_solution_is_reach(c, kind, root);
    assert(c.reachable(kind, root, p));
    let path = choose|path: Seq<usize>| c.joins(kind, path, root, p);
    let mid = path[path.len() - 2];
    assert(c.step(kind, path, path.len() - 2));
    let j = choose|j: int| c.hits(kind, c.dependencies_at(mid), j, p);
    if path.len() > 2 {
        let before = path.drop_last();
        assert forall|i: int| 0 <= i < before.len() - 1 implies c.step(kind, before, i) by {
            assert(c.step(kind, path, i));
        }
        assert(c.joins(kind, before, root, mid));
        assert(c.reachable(kind, root, mid));
        assert(plan.contains(mid));
    }
    assert(c.proposes(mid, j, p));
}

/// A traversal along first alternatives never fails.
pub proof fn lemma_first_choice_succeeds(c: Catalog, root: usize)
    ensures
        c.solution(Traversal::FirstChoice, root) is Ok,
{
    let kind = Traversal::FirstChoice;
    let deps = c.dependencies_at(root);
    lemma_first_choice_absorbs(c, Seq::empty(), deps, deps.len() as int);
    lemma_first_choice_traverses(c, c.expand(kind, Seq::empty(), root)->Ok_0, 0);
}

/// Going through dependencies along first alternatives never fails.
pub proof fn lemma_first_choice_absorbs(
    c: Catalog,
    found: Seq<usize>,
    deps: Seq<Seq<Alternative>>,
    upto: int,
)
    ensures
        c.absorb(Traversal::FirstChoice, found, deps, upto) is Ok,
    decreases upto,
{
    if upto > 0 {
        lemma_first_choice_absorbs(c, found, deps, upto - 1);
    }
}

/// Expanding members along first alternatives never fails.
pub proof fn lemma_first_choice_traverses(c: Catalog, found: Seq<usize>, next: int)
    ensures
        c.traverse(Traversal::FirstChoice, found, next) is Ok,
    decreases c.len() - next,
{
    if !(next < 0 || next >= found.len() || next >= c.len()) {
        let deps = c.dependencies_at(found[next]);
        lemma_first_choice_absorbs(c, found, deps, deps.len() as int);
        lemma_first_choice_traverses(
            c,
            c.expand(Traversal::FirstChoice, found, found[next])->Ok_0,
            next + 1,
        );
    }
}

} // verus!
