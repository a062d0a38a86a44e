//! The catalog of packages: names, dependency lists, versions and checksums.

use vstd::prelude::*;
use crate::async_fns::AsyncState;
use crate::version::{is_debian_version, is_version, VersionRelation};

verus! {

/// Why an operation on the catalog could not be carried out.
#[derive(Clone, Copy, Debug, PartialEq, Eq, Structural)]
pub enum PackageError {
    /// The package is not in the catalog.
    UnknownPackage,
    /// A version that had to be compared for this package is not a Debian
    /// version string.
    MalformedVersion { package: usize },
    /// The package has no version on record where one is needed.
    MissingVersion { package: usize },
    /// A dependency without alternatives, or one that names a package that
    /// the catalog does not hold.
    InvalidDependency,
    /// An operator token that denotes no version relation.
    UnknownRelation,
}

/// One alternative of a dependency: a package and, optionally, the relation
/// that its installed version must bear to a given version.
#[derive(Debug)]
pub struct RelVersionedPackageNum {
    pub package_num: usize,
    pub rel_version: Option<(VersionRelation, String)>,
}

/// A dependency: alternatives in their declared order, read as `A | B | C`.
pub type Dependency = Vec<RelVersionedPackageNum>;

/// The mathematical value of a [`RelVersionedPackageNum`].
pub struct Alternative {
    pub package: usize,
    pub constraint: Option<(VersionRelation, Seq<char>)>,
}

impl DeepView for RelVersionedPackageNum {
    type V = Alternative;

    open spec fn deep_view(&self) -> Alternative {
        Alternative {
            package: self.package_num,
            constraint: match self.rel_version {
                Some((rel, version)) => Some((rel, version@)),
                None => None,
            },
        }
    }
}

/// The mathematical value of a catalog. A package's id is its index in each
/// of the five sequences.
#[verifier::ext_equal]
pub struct Catalog {
    pub names: Seq<Seq<char>>,
    pub dependencies: Seq<Seq<Seq<Alternative>>>,
    pub available: Seq<Option<Seq<char>>>,
    pub installed: Seq<Option<Seq<char>>>,
    pub checksums: Seq<Option<Seq<char>>>,
}

impl Catalog {
    /// The number of packages.
    pub open spec fn len(self) -> nat {
        self.names.len()
    }

    /// The catalog without any package.
    pub open spec fn empty() -> Catalog {
        Catalog {
            names: Seq::empty(),
            dependencies: Seq::empty(),
            available: Seq::empty(),
            installed: Seq::empty(),
            checksums: Seq::empty(),
        }
    }

    /// A dependency has at least one alternative, and each names a package of
    /// this catalog.
    pub open spec fn valid_dependency(self, dep: Seq<Alternative>) -> bool {
        &&& dep.len() > 0
        &&& forall|k: int| 0 <= k < dep.len() ==> (#[trigger] dep[k]).package < self.len()
    }

    /// Every dependency of a list is valid.
    pub open spec fn valid_dependencies(self, deps: Seq<Seq<Alternative>>) -> bool {
        forall|j: int| 0 <= j < deps.len() ==> self.valid_dependency(#[trigger] deps[j])
    }

    /// Names and ids correspond one to one, every package has an entry of
    /// each kind, and every id in a dependency belongs to a package.
    pub open spec fn wf(self) -> bool {
        &&& self.dependencies.len() == self.len()
        &&& self.available.len() == self.len()
        &&& self.installed.len() == self.len()
        &&& self.checksums.len() == self.len()
        &&& self.names.no_duplicates()
        &&& forall|i: int|
            0 <= i < self.len() ==> self.valid_dependencies(#[trigger] self.dependencies[i])
    }

    /// The installed version of `package`; none for an id that the catalog
    /// does not hold.
    pub open spec fn installed_at(self, package: usize) -> Option<Seq<char>> {
        if package < self.installed.len() {
            self.installed[package as int]
        } else {
            None
        }
    }

    /// The version on offer of `package`; none for an id that the catalog does
    /// not hold.
    pub open spec fn available_at(self, package: usize) -> Option<Seq<char>> {
        if package < self.available.len() {
            self.available[package as int]
        } else {
            None
        }
    }

    /// The checksum on record for `package`; none for an id that the catalog
    /// does not hold.
    pub open spec fn checksum_at(self, package: usize) -> Option<Seq<char>> {
        if package < self.checksums.len() {
            self.checksums[package as int]
        } else {
            None
        }
    }

    /// The id of the package called `name`.
    pub open spec fn id_of(self, name: Seq<char>) -> Option<usize> {
        if self.names.contains(name) {
            Some(self.names.index_of(name) as usize)
        } else {
            None
        }
    }

    /// The catalog after `name` has been asked for: with a new package of
    /// that name, if it had none.
    pub open spec fn entered(self, name: Seq<char>) -> Catalog {
        if self.id_of(name) is Some {
            self
        } else {
            self.with_package(name)
        }
    }

    /// The id under which `name` stands after it has been asked for.
    pub open spec fn entered_id(self, name: Seq<char>) -> usize {
        match self.id_of(name) {
            Some(id) => id,
            None => self.len() as usize,
        }
    }

    /// The catalog with `version` on offer for package `id`.
    pub open spec fn put_available(self, id: usize, version: Seq<char>) -> Result<
        Catalog,
        PackageError,
    > {
        if id >= self.len() {
            Err(PackageError::UnknownPackage)
        } else if !is_version(version) {
            Err(PackageError::MalformedVersion { package: id })
        } else {
            Ok(Catalog { available: self.available.update(id as int, Some(version)), ..self })
        }
    }

    /// The catalog with `version` installed of package `id`.
    pub open spec fn put_installed(self, id: usize, version: Seq<char>) -> Result<
        Catalog,
        PackageError,
    > {
        if id >= self.len() {
            Err(PackageError::UnknownPackage)
        } else if !is_version(version) {
            Err(PackageError::MalformedVersion { package: id })
        } else {
            Ok(Catalog { installed: self.installed.update(id as int, Some(version)), ..self })
        }
    }

    /// The catalog with `checksum` on record for package `id`.
    pub open spec fn put_checksum(self, id: usize, checksum: Seq<char>) -> Result<
        Catalog,
        PackageError,
    > {
        if id >= self.len() {
            Err(PackageError::UnknownPackage)
        } else {
            Ok(Catalog { checksums: self.checksums.update(id as int, Some(checksum)), ..self })
        }
    }

    /// The catalog with `deps` for the dependency list of package `id`.
    pub open spec fn put_dependencies(self, id: usize, deps: Seq<Seq<Alternative>>) -> Result<
        Catalog,
        PackageError,
    > {
        if id >= self.len() {
            Err(PackageError::UnknownPackage)
        } else if !self.valid_dependencies(deps) {
            Err(PackageError::InvalidDependency)
        } else {
            Ok(Catalog { dependencies: self.dependencies.update(id as int, deps), ..self })
        }
    }

    /// The catalog after a new package called `name` has been entered.
    pub open spec fn with_package(self, name: Seq<char>) -> Catalog {
        Catalog {
            names: self.names.push(name),
            dependencies: self.dependencies.push(Seq::empty()),
            available: self.available.push(None),
            installed: self.installed.push(None),
            checksums: self.checksums.push(None),
        }
    }
}

/// How many of the first `upto` entries of `versions` hold a version.
pub open spec fn count_present(versions: Seq<Option<Seq<char>>>, upto: int) -> nat
    decreases upto,
{
    if upto <= 0 {
        0
    } else {
        count_present(versions, upto - 1) + if versions[upto - 1] is Some {
            1nat
        } else {
            0nat
        }
    }
}

/// In a well-formed catalog a name belongs to one id only.
pub proof fn lemma_id_of_unique(c: Catalog, id: usize, name: Seq<char>)
    requires
        c.names.no_duplicates(),
        id < c.len(),
        c.names[id as int] == name,
    ensures
        c.id_of(name) == Some(id),
{
    assert(c.names.contains(name));
    let j = c.names.index_of(name);
    assert(0 <= j < c.names.len() && c.names[j] == name);
}

/// The catalog, and the queue of checksum verifications that go with it.
pub struct Packages {
    names: Vec<String>,
    dependencies: Vec<Vec<Dependency>>,
    available_debvers: Vec<Option<String>>,
    installed_debvers: Vec<Option<String>>,
    md5sums: Vec<Option<String>>,
    async_state: AsyncState,
}

impl View for Packages {
    type V = Catalog;

    closed spec fn view(&self) -> Catalog {
        Catalog {
            names: self.names.deep_view(),
            dependencies: self.dependencies.deep_view(),
            available: self.available_debvers.deep_view(),
            installed: self.installed_debvers.deep_view(),
            checksums: self.md5sums.deep_view(),
        }
    }
}

/// The characters of an optional string slice.
pub open spec fn opt_chars(text: Option<&str>) -> Option<Seq<char>> {
    match text {
        Some(t) => Some(t@),
        None => None,
    }
}

impl Packages {
    /// The catalog is well formed.
    pub open spec fn wf(&self) -> bool {
        self@.wf()
    }

    /// The state of the verification queue.
    pub closed spec fn async_view(&self) -> AsyncState {
        self.async_state
    }

    /// The queue of verifications.
    pub(crate) fn async_state(&self) -> (r: &AsyncState)
        ensures
            *r == self.async_view(),
    {
        &self.async_state
    }

    /// Puts `state` in the place of the queue and gives the queue that was
    /// there. The catalog stays as it is.
    pub(crate) fn replace_async_state(&mut self, state: AsyncState) -> (r: AsyncState)
        ensures
            final(self)@ == old(self)@,
            final(self).async_view() == state,
            r == old(self).async_view(),
    {
        let mut state = state;
        std::mem::swap(&mut self.async_state, &mut state);
        state
    }

    /// An empty catalog with an empty queue for the default server.
    pub fn new() -> (r: Packages)
        ensures
            r.wf(),
            r@ == Catalog::empty(),
            r.async_view()@ == AsyncState::initial(),
    {
        let r = Packages {
            names: Vec::new(),
            dependencies: Vec::new(),
            available_debvers: Vec::new(),
            installed_debvers: Vec::new(),
            md5sums: Vec::new(),
            async_state: AsyncState::new(),
        };
        assert(r@ =~~= Catalog::empty());
        r
    }

    /// The number of packages in the catalog.
    pub fn len(&self) -> (n: usize)
        ensures
            n == self@.len(),
    {
        self.names.len()
    }

    /// The id of the package called `package_name`, if the catalog has it.
    pub fn get_package_num(&self, package_name: &str) -> (r: Option<usize>)
        requires
            self.wf(),
        ensures
            r == self@.id_of(package_name@),
            r matches Some(id) ==> id < self@.len() && self@.names[id as int] == package_name@,
    {
        let wanted = String::from_str(package_name);
        let mut i: usize = 0;
        while i < self.names.len()
            invariant
                i <= self.names.len(),
                wanted@ == package_name@,
                self.wf(),
                forall|j: int| 0 <= j < i ==> self@.names[j] != package_name@,
            decreases self.names.len() - i,
        {
            if self.names[i] == wanted {
                proof {
                    lemma_id_of_unique(self@, i, package_name@);
                }
                return Some(i);
            }
            i += 1;
        }
        None
    }

    /// Whether the catalog has a package called `package_name`.
    pub fn package_exists(&self, package_name: &str) -> (r: bool)
        requires
            self.wf(),
        ensures
            r == self@.id_of(package_name@).is_some(),
    {
        self.get_package_num(package_name).is_some()
    }

    /// The name of package `package_num`.
    pub fn get_package_name(&self, package_num: usize) -> (r: Option<&str>)
        ensures
            opt_chars(r) == if package_num < self@.len() {
                Some(self@.names[package_num as int])
            } else {
                None
            },
    {
        if package_num < self.names.len() {
            Some(self.names[package_num].as_str())
        } else {
            None
        }
    }

    /// The id of the package called `package_name`, which is entered into the
    /// catalog first if it is not there: without dependencies, versions or
    /// checksum, under the next free id.
    pub fn get_package_num_inserting(&mut self, package_name: &str) -> (id: usize)
        requires
            old(self).wf(),
        ensures
            final(self).wf(),
            final(self).async_view() == old(self).async_view(),
            final(self)@ == old(self)@.entered(package_name@),
            id == old(self)@.entered_id(package_name@),
            final(self)@.id_of(package_name@) == Some(id),
            id < final(self)@.len(),
            old(self)@.len() <= final(self)@.len(),
    {
        match self.get_package_num(package_name) {
            Some(id) => id,
            None => {
                let id = self.names.len();
                self.names.push(String::from_str(package_name));
                self.dependencies.push(Vec::new());
                self.available_debvers.push(None);
                self.installed_debvers.push(None);
                self.md5sums.push(None);
                proof {
                    let before = old(self)@;
                    let after = self@;
                    assert(after =~~= before.with_package(package_name@));
                    assert(after.names.no_duplicates());
                    assert forall|i: int| 0 <= i < after.len() implies after.valid_dependencies(
                        #[trigger] after.dependencies[i],
                    ) by {
                        if i < before.len() {
                            assert(before.valid_dependencies(before.dependencies[i]));
                            assert(after.dependencies[i] == before.dependencies[i]);
                            let deps = after.dependencies[i];
                            assert forall|j: int| 0 <= j < deps.len() implies after.valid_dependency(
                                #[trigger] deps[j],
                            ) by {
                                assert(before.valid_dependency(deps[j]));
                            }
                        }
                    }
                    lemma_id_of_unique(after, id, package_name@);
                }
                id
            },
        }
    }

    /// The version of package `package_num` that the package source offers;
    /// none for an id that the catalog does not hold.
    pub fn available_version(&self, package_num: usize) -> (r: Option<&str>)
        ensures
            opt_chars(r) == self@.available_at(package_num),
    {
        if package_num < self.available_debvers.len() {
            match &self.available_debvers[package_num] {
                Some(v) => Some(v.as_str()),
                None => None,
            }
        } else {
            None
        }
    }

    /// The version of package `package_num` that is installed; none for an id
    /// that the catalog does not hold.
    pub fn installed_version(&self, package_num: usize) -> (r: Option<&str>)
        ensures
            opt_chars(r) == self@.installed_at(package_num),
    {
        if package_num < self.installed_debvers.len() {
            match &self.installed_debvers[package_num] {
                Some(v) => Some(v.as_str()),
                None => None,
            }
        } else {
            None
        }
    }

    /// The published checksum of package `package_num`; none for an id that
    /// the catalog does not hold.
    pub fn md5sum(&self, package_num: usize) -> (r: Option<&str>)
        ensures
            opt_chars(r) == self@.checksum_at(package_num),
    {
        if package_num < self.md5sums.len() {
            match &self.md5sums[package_num] {
                Some(v) => Some(v.as_str()),
                None => None,
            }
        } else {
            None
        }
    }

    /// The dependency list of package `package_num`.
    pub fn dependencies_of(&self, package_num: usize) -> (r: &Vec<Dependency>)
        requires
            self.wf(),
            package_num < self@.len(),
        ensures
            r.deep_view() == self@.dependencies[package_num as int],
            self@.valid_dependencies(r.deep_view()),
    {
        &self.dependencies[package_num]
    }

    /// Whether `dep` has an alternative and names packages of this catalog only.
    pub fn is_valid_dependency(&self, dep: &Dependency) -> (r: bool)
        ensures
            r == self@.valid_dependency(dep.deep_view()),
    {
        if dep.len() == 0 {
            return false;
        }
        let mut k: usize = 0;
        while k < dep.len()
            invariant
                k <= dep.len(),
                forall|j: int| 0 <= j < k ==> (#[trigger] dep.deep_view()[j]).package < self@.len(),
            decreases dep.len() - k,
        {
            if dep[k].package_num >= self.names.len() {
                assert(dep.deep_view()[k as int].package >= self@.len());
                return false;
            }
            k += 1;
        }
        true
    }

    /// Whether every dependency of `deps` is valid for this catalog.
    pub fn are_valid_dependencies(&self, deps: &Vec<Dependency>) -> (r: bool)
        ensures
            r == self@.valid_dependencies(deps.deep_view()),
    {
        let mut j: usize = 0;
        while j < deps.len()
            invariant
                j <= deps.len(),
                forall|i: int| 0 <= i < j ==> self@.valid_dependency(#[trigger] deps.deep_view()[i]),
            decreases deps.len() - j,
        {
            if !self.is_valid_dependency(&deps[j]) {
                assert(!self@.valid_dependency(deps.deep_view()[j as int]));
                return false;
            }
            j += 1;
        }
        true
    }

    /// Records `version` as the version on offer of package `package_num`.
    pub fn set_available_version(&mut self, package_num: usize, version: &str) -> (r: Result<
        (),
        PackageError,
    >)
        requires
            old(self).wf(),
        ensures
            final(self).wf(),
            final(self).async_view() == old(self).async_view(),
            match old(self)@.put_available(package_num, version@) {
                Ok(c) => r == Ok::<(), PackageError>(()) && final(self)@ == c,
                Err(e) => r == Err::<(), PackageError>(e) && final(self)@ == old(self)@,
            },
    {
        if package_num >= self.names.len() {
            return Err(PackageError::UnknownPackage);
        }
        if !is_debian_version(version) {
            return Err(PackageError::MalformedVersion { package: package_num });
        }
        self.available_debvers.set(package_num, Some(String::from_str(version)));
        proof {
            assert(self@ =~~= (Catalog {
                available: old(self)@.available.update(package_num as int, Some(version@)),
                ..old(self)@
            }));
        }
        Ok(())
    }

    /// Records `version` as the installed version of package `package_num`.
    pub fn set_installed_version(&mut self, package_num: usize, version: &str) -> (r: Result<
        (),
        PackageError,
    >)
        requires
            old(self).wf(),
        ensures
            final(self).wf(),
            final(self).async_view() == old(self).async_view(),
            match old(self)@.put_installed(package_num, version@) {
                Ok(c) => r == Ok::<(), PackageError>(()) && final(self)@ == c,
                Err(e) => r == Err::<(), PackageError>(e) && final(self)@ == old(self)@,
            },
    {
        if package_num >= self.names.len() {
            return Err(PackageError::UnknownPackage);
        }
        if !is_debian_version(version) {
            return Err(PackageError::MalformedVersion { package: package_num });
        }
        self.installed_debvers.set(package_num, Some(String::from_str(version)));
        proof {
            assert(self@ =~~= (Catalog {
                installed: old(self)@.installed.update(package_num as int, Some(version@)),
                ..old(self)@
            }));
        }
        Ok(())
    }

    /// Records `md5sum` as the published checksum of package `package_num`.
    pub fn set_md5sum(&mut self, package_num: usize, md5sum: &str) -> (r: Result<(), PackageError>)
        requires
            old(self).wf(),
        ensures
            final(self).wf(),
            final(self).async_view() == old(self).async_view(),
            match old(self)@.put_checksum(package_num, md5sum@) {
                Ok(c) => r == Ok::<(), PackageError>(()) && final(self)@ == c,
                Err(e) => r == Err::<(), PackageError>(e) && final(self)@ == old(self)@,
            },
    {
        if package_num >= self.names.len() {
            return Err(PackageError::UnknownPackage);
        }
        self.md5sums.set(package_num, Some(String::from_str(md5sum)));
        proof {
            assert(self@ =~~= (Catalog {
                checksums: old(self)@.checksums.update(package_num as int, Some(md5sum@)),
                ..old(self)@
            }));
        }
        Ok(())
    }

    /// Replaces the dependency list of package `package_num` by `deps`.
    pub fn set_dependencies(&mut self, package_num: usize, deps: Vec<Dependency>) -> (r: Result<
        (),
        PackageError,
    >)
        requires
            old(self).wf(),
        ensures
            final(self).wf(),
            final(self).async_view() == old(self).async_view(),
            match old(self)@.put_dependencies(package_num, deps.deep_view()) {
                Ok(c) => r == Ok::<(), PackageError>(()) && final(self)@ == c,
                Err(e) => r == Err::<(), PackageError>(e) && final(self)@ == old(self)@,
            },
    {
        if package_num >= self.names.len() {
            return Err(PackageError::UnknownPackage);
        }
        if !self.are_valid_dependencies(&deps) {
            return Err(PackageError::InvalidDependency);
        }
        let ghost model = deps.deep_view();
        self.dependencies.set(package_num, deps);
        proof {
            let before = old(self)@;
            let after = self@;
            assert(after =~~= (Catalog {
                dependencies: before.dependencies.update(package_num as int, model),
                ..before
            }));
            assert forall|i: int| 0 <= i < after.len() implies after.valid_dependencies(
                #[trigger] after.dependencies[i],
            ) by {
                if i != package_num {
                    assert(before.valid_dependencies(before.dependencies[i]));
                }
            }
        }
        Ok(())
    }

    /// How many of `versions` are there.
    fn count_versions(versions: &Vec<Option<String>>) -> (n: usize)
        ensures
            n == count_present(versions.deep_view(), versions.len() as int),
    {
        let mut n: usize = 0;
        let mut i: usize = 0;
        while i < versions.len()
            invariant
                i <= versions.len(),
                n == count_present(versions.deep_view(), i as int),
                n <= i,
            decreases versions.len() - i,
        {
            if versions[i].is_some() {
                n += 1;
            }
            i += 1;
        }
        n
    }

    /// The number of packages that are installed.
    pub fn installed_count(&self) -> (n: usize)
        ensures
            n == count_present(self@.installed, self@.installed.len() as int),
    {
        Self::count_versions(&self.installed_debvers)
    }

    /// The number of packages that have a version on offer.
    pub fn available_count(&self) -> (n: usize)
        ensures
            n == count_present(self@.available, self@.available.len() as int),
    {
        Self::count_versions(&self.available_debvers)
    }

    /// The version on offer of the package called `package_name`.
    pub fn get_available_debver(&self, package_name: &str) -> (r: Option<&str>)
        requires
            self.wf(),
        ensures
            opt_chars(r) == match self@.id_of(package_name@) {
                Some(id) => self@.available[id as int],
                None => None,
            },
    {
        match self.get_package_num(package_name) {
            Some(id) => self.available_version(id),
            None => None,
        }
    }

    /// The installed version of the package called `package_name`.
    pub fn get_installed_debver(&self, package_name: &str) -> (r: Option<&str>)
        requires
            self.wf(),
        ensures
            opt_chars(r) == match self@.id_of(package_name@) {
                Some(id) => self@.installed[id as int],
                None => None,
            },
    {
        match self.get_package_num(package_name) {
            Some(id) => self.installed_version(id),
            None => None,
        }
    }
}

} // verus!
