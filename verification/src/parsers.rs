//! Reading the catalog from the lines of package lists.
//!
//! A list is a sequence of `Key: value` lines. A `Package` line names the
//! package that the lines after it speak of; `Version`, `MD5sum` and
//! `Depends` lines give its version, its checksum and its dependencies.

use vstd::prelude::*;
use vstd::string::{StrSliceExecFns, StringExecFns};
use crate::packages::{Alternative, Catalog, Dependency, PackageError, Packages, RelVersionedPackageNum};
use crate::version::{relation_of, str_eq, VersionRelation};

verus! {

/// The pattern of a `Key: value` line.
pub const KEYVAL_REGEX: &'static str = r"(?P<key>(\w|-)+): (?P<value>.+)";

/// The pattern of one alternative of a dependency: a package name and,
/// optionally, an operator and a version in parentheses.
pub const PKGNAME_AND_VERSION_REGEX: &'static str =
    r"(?P<pkg>(\w|\.|\+|-)+)( \((?P<op>(<|=|>)(<|=|>)?) (?P<ver>.*)\))?";

/// What the named group `group` holds in the leftmost match of `pattern` in
/// `text`; `None` where `pattern` is no regular expression, where it does not
/// match, or where the group took no part in the match.
pub uninterp spec fn regex_group(pattern: Seq<char>, text: Seq<char>, group: Seq<char>) -> Option<
    Seq<char>,
>;

/// Compiles `pattern` with `regex::Regex::new`, searches `text` with
/// `regex::Regex::captures` and reads `group` with `regex::Captures::name`.
/// Trusted: the result is the text of that group in the leftmost match, and
/// `None` where the pattern does not compile, does not match or the group
/// took no part; it depends on the three strings alone. The pattern is
/// compiled anew at every call.
#[verifier::external_body]
pub(crate) fn regex_capture(pattern: &str, text: &str, group: &str) -> (r: Option<String>)
    ensures
        r.deep_view() == regex_group(pattern@, text@, group@),
{
    match regex::Regex::new(pattern) {
        Ok(re) => match re.captures(text) {
            Some(caps) => match caps.name(group) {
                Some(m) => Some(m.as_str().to_string()),
                None => None,
            },
            None => None,
        },
        Err(_) => None,
    }
}

/// `text` without the white space at its two ends.
pub uninterp spec fn trimmed(text: Seq<char>) -> Seq<char>;

/// Calls `str::trim`. Trusted: the result is the text with leading and
/// trailing white space removed; it depends on the text alone.
#[verifier::external_body]
pub(crate) fn trim(text: &str) -> (r: &str)
    ensures
        r@ == trimmed(text@),
{
    text.trim()
}

/// The pieces of `text` between occurrences of `sep`, from the piece that
/// begins at `start`, when the characters before `at` have been looked at.
pub open spec fn split_from(text: Seq<char>, sep: char, start: int, at: int) -> Seq<Seq<char>>
    decreases text.len() - at,
{
    if at >= text.len() {
        seq![text.subrange(start, text.len() as int)]
    } else if text[at] == sep {
        seq![text.subrange(start, at)] + split_from(text, sep, at + 1, at + 1)
    } else {
        split_from(text, sep, start, at + 1)
    }
}

/// The pieces of `text` between occurrences of `sep`: one more than there
/// are occurrences, and empty where two of them meet or one stands at an end.
pub open spec fn split(text: Seq<char>, sep: char) -> Seq<Seq<char>> {
    split_from(text, sep, 0, 0)
}

/// `pieces` put together again, with `sep` between each two.
pub open spec fn joined(pieces: Seq<Seq<char>>, sep: char) -> Seq<char>
    decreases pieces.len(),
{
    if pieces.len() == 0 {
        Seq::empty()
    } else if pieces.len() == 1 {
        pieces[0]
    } else {
        pieces[0] + seq![sep] + joined(pieces.drop_first(), sep)
    }
}

/// The pieces from `start` on hold no separator and, put together again,
/// give the text from `start` on.
pub proof fn lemma_split_from_rejoins(text: Seq<char>, sep: char, start: int, at: int)
    requires
        0 <= start <= at <= text.len(),
        forall|i: int| start <= i < at ==> text[i] != sep,
    ensures
        split_from(text, sep, start, at).len() >= 1,
        joined(split_from(text, sep, start, at), sep) == text.subrange(start, text.len() as int),
        forall|k: int, i: int|
            0 <= k < split_from(text, sep, start, at).len() && 0 <= i < split_from(
                text,
                sep,
                start,
                at,
            )[k].len() ==> (#[trigger] split_from(text, sep, start, at)[k][i]) != sep,
    decreases text.len() - at,
{
    let pieces = split_from(text, sep, start, at);
    if at >= text.len() {
    } else if text[at] == sep {
        lemma_split_from_rejoins(text, sep, at + 1, at + 1);
        let rest = split_from(text, sep, at + 1, at + 1);
        let head = text.subrange(start, at);
        assert(pieces =~= seq![head] + rest);
        assert(pieces.drop_first() =~= rest);
        assert(joined(pieces, sep) =~= text.subrange(start, text.len() as int));
        assert forall|k: int, i: int| 0 <= k < pieces.len() && 0 <= i < pieces[k].len() implies (
        #[trigger] pieces[k][i]) != sep by {
            if k > 0 {
                assert(pieces[k] == rest[k - 1]);
                assert(rest[k - 1][i] != sep);
            }
        }
    } else {
        lemma_split_from_rejoins(text, sep, start, at + 1);
    }
}

/// Splitting loses nothing: no piece holds the separator, and the pieces put
/// together again, with the separator between each two, give the text.
pub proof fn lemma_split_rejoins(text: Seq<char>, sep: char)
    ensures
        split(text, sep).len() >= 1,
        joined(split(text, sep), sep) == text,
        forall|k: int, i: int|
            0 <= k < split(text, sep).len() && 0 <= i < split(text, sep)[k].len() ==> (
            #[trigger] split(text, sep)[k][i]) != sep,
{
    lemma_split_from_rejoins(text, sep, 0, 0);
    assert(text.subrange(0, text.len() as int) =~= text);
}

/// Splits `text` at every occurrence of `sep`.
pub fn split_on(text: &str, sep: char) -> (r: Vec<String>)
    ensures
        r.deep_view() == split(text@, sep),
{
    let n = text.unicode_len();
    let mut pieces: Vec<String> = Vec::new();
    let mut start: usize = 0;
    let mut at: usize = 0;
    while at < n
        invariant
            start <= at <= n,
            n == text@.len(),
            split(text@, sep) == pieces.deep_view() + split_from(text@, sep, start as int, at as int),
        decreases n - at,
    {
        if text.get_char(at) == sep {
            let ghost before = pieces.deep_view();
            pieces.push(String::from_str(text.substring_char(start, at)));
            assert(pieces.deep_view() =~= before + seq![text@.subrange(start as int, at as int)]);
            start = at + 1;
        }
        at += 1;
    }
    let ghost before = pieces.deep_view();
    pieces.push(String::from_str(text.substring_char(start, n)));
    assert(pieces.deep_view() =~= before + seq![text@.subrange(start as int, n as int)]);
    pieces
}

/// What the reading of a piece of text has come to: the catalog after it,
/// and what was read or why it could not be.
pub struct Reading<T> {
    pub catalog: Catalog,
    pub outcome: Result<T, PackageError>,
}

/// The value of an alternative that may have been read.
pub open spec fn alternative_view(r: Result<Option<RelVersionedPackageNum>, PackageError>) -> Result<
    Option<Alternative>,
    PackageError,
> {
    match r {
        Ok(Some(alt)) => Ok(Some(alt.deep_view())),
        Ok(None) => Ok(None),
        Err(e) => Err(e),
    }
}

/// The value of a dependency that may have been read.
pub open spec fn dependency_view(r: Result<Dependency, PackageError>) -> Result<
    Seq<Alternative>,
    PackageError,
> {
    match r {
        Ok(dep) => Ok(dep.deep_view()),
        Err(e) => Err(e),
    }
}

/// The value of a dependency list that may have been read.
pub open spec fn dependencies_view(r: Result<Vec<Dependency>, PackageError>) -> Result<
    Seq<Seq<Alternative>>,
    PackageError,
> {
    match r {
        Ok(deps) => Ok(deps.deep_view()),
        Err(e) => Err(e),
    }
}

impl Catalog {
    /// The alternative that the three parts of a text make: the package
    /// name, the version and the operator, each as far as it was found. Without
    /// a name there is none. The package is entered into the catalog if it is
    /// new. A version goes with an operator, which must denote a relation.
    pub open spec fn alternative_from(
        self,
        name: Option<Seq<char>>,
        version: Option<Seq<char>>,
        op: Option<Seq<char>>,
    ) -> Reading<Option<Alternative>> {
        match name {
            None => Reading { catalog: self, outcome: Ok(None) },
            Some(name) => {
                let catalog = self.entered(name);
                let package = self.entered_id(name);
                match version {
                    None => Reading {
                        catalog,
                        outcome: Ok(Some(Alternative { package, constraint: None })),
                    },
                    Some(version) => match op {
                        None => Reading { catalog, outcome: Err(PackageError::UnknownRelation) },
                        Some(op) => match relation_of(op) {
                            None => Reading {
                                catalog,
                                outcome: Err(PackageError::UnknownRelation),
                            },
                            Some(rel) => Reading {
                                catalog,
                                outcome: Ok(
                                    Some(Alternative { package, constraint: Some((rel, version)) }),
                                ),
                            },
                        },
                    },
                }
            },
        }
    }

    /// Reads one alternative: the groups `pkg`, `ver` and `op` of
    /// [`PKGNAME_AND_VERSION_REGEX`] give its three parts.
    pub open spec fn read_alternative(self, text: Seq<char>) -> Reading<Option<Alternative>> {
        self.alternative_from(
            regex_group(PKGNAME_AND_VERSION_REGEX@, text, "pkg"@),
            regex_group(PKGNAME_AND_VERSION_REGEX@, text, "ver"@),
            regex_group(PKGNAME_AND_VERSION_REGEX@, text, "op"@),
        )
    }

    /// Reads the first `upto` of the alternatives `pieces`, in order, up to
    /// the first that cannot be read.
    pub open spec fn read_alternatives(self, pieces: Seq<Seq<char>>, upto: int) -> Reading<
        Seq<Alternative>,
    >
        decreases upto,
    {
        if upto <= 0 {
            Reading { catalog: self, outcome: Ok(Seq::empty()) }
        } else {
            let before = self.read_alternatives(pieces, upto - 1);
            match before.outcome {
                Err(_) => before,
                Ok(alts) => {
                    let one = before.catalog.read_alternative(pieces[upto - 1]);
                    Reading {
                        catalog: one.catalog,
                        outcome: match one.outcome {
                            Err(e) => Err(e),
                            Ok(None) => Ok(alts),
                            Ok(Some(alt)) => Ok(alts.push(alt)),
                        },
                    }
                },
            }
        }
    }

    /// Reads one dependency: alternatives with `|` between them.
    pub open spec fn read_dependency(self, text: Seq<char>) -> Reading<Seq<Alternative>> {
        let pieces = split(text, '|');
        self.read_alternatives(pieces, pieces.len() as int)
    }

    /// Reads the first `upto` of the dependencies `pieces`, in order, up to
    /// the first that cannot be read.
    pub open spec fn read_dependencies_upto(self, pieces: Seq<Seq<char>>, upto: int) -> Reading<
        Seq<Seq<Alternative>>,
    >
        decreases upto,
    {
        if upto <= 0 {
            Reading { catalog: self, outcome: Ok(Seq::empty()) }
        } else {
            let before = self.read_dependencies_upto(pieces, upto - 1);
            match before.outcome {
                Err(_) => before,
                Ok(deps) => {
                    let one = before.catalog.read_dependency(pieces[upto - 1]);
                    Reading {
                        catalog: one.catalog,
                        outcome: match one.outcome {
                            Err(e) => Err(e),
                            Ok(dep) => Ok(deps.push(dep)),
                        },
                    }
                },
            }
        }
    }

    /// Reads a dependency list: dependencies with `,` between them.
    pub open spec fn read_dependencies(self, text: Seq<char>) -> Reading<Seq<Seq<Alternative>>> {
        let pieces = split(text, ',');
        self.read_dependencies_upto(pieces, pieces.len() as int)
    }

    /// The catalog after `outcome` of a change has been taken in, and the
    /// package that later lines speak of.
    pub open spec fn changed(self, current: usize, outcome: Result<Catalog, PackageError>) -> Reading<
        usize,
    > {
        match outcome {
            Ok(catalog) => Reading { catalog, outcome: Ok(current) },
            Err(e) => Reading { catalog: self, outcome: Err(e) },
        }
    }

    /// What a field does to the catalog, where `current` is the package that
    /// the field speaks of; a line that is no field has neither key nor
    /// value and changes nothing. A `Package` field enters its package, of
    /// which later fields speak. A `Version` field records the version, with
    /// white space at its ends removed: the installed version if `installed`,
    /// else the version on offer. In a list of packages on offer an `MD5sum`
    /// field records the checksum and a `Depends` field the dependencies.
    /// Any other field changes nothing.
    pub open spec fn field(
        self,
        installed: bool,
        current: usize,
        key: Option<Seq<char>>,
        value: Option<Seq<char>>,
    ) -> Reading<usize> {
        match (key, value) {
            (Some(key), Some(value)) => if key == "Package"@ {
                Reading { catalog: self.entered(value), outcome: Ok(self.entered_id(value)) }
            } else if key == "Version"@ {
                if installed {
                    self.changed(current, self.put_installed(current, trimmed(value)))
                } else {
                    self.changed(current, self.put_available(current, trimmed(value)))
                }
            } else if !installed && key == "MD5sum"@ {
                self.changed(current, self.put_checksum(current, value))
            } else if !installed && key == "Depends"@ {
                let read = self.read_dependencies(value);
                match read.outcome {
                    Err(e) => Reading { catalog: read.catalog, outcome: Err(e) },
                    Ok(deps) => read.catalog.changed(
                        current,
                        read.catalog.put_dependencies(current, deps),
                    ),
                }
            } else {
                Reading { catalog: self, outcome: Ok(current) }
            },
            _ => Reading { catalog: self, outcome: Ok(current) },
        }
    }

    /// Reads one line of a list: of installed packages if `installed`, else
    /// of packages on offer. The groups `key` and `value` of [`KEYVAL_REGEX`]
    /// give the field.
    pub open spec fn read_line(self, installed: bool, current: usize, line: Seq<char>) -> Reading<
        usize,
    > {
        self.field(
            installed,
            current,
            regex_group(KEYVAL_REGEX@, line, "key"@),
            regex_group(KEYVAL_REGEX@, line, "value"@),
        )
    }

    /// Reads the first `upto` of `lines`, in order, up to the first that
    /// cannot be read. Before any `Package` line the lines speak of package
    /// 0.
    pub open spec fn read_lines(self, installed: bool, lines: Seq<Seq<char>>, upto: int) -> Reading<
        usize,
    >
        decreases upto,
    {
        if upto <= 0 {
            Reading { catalog: self, outcome: Ok(0) }
        } else {
            let before = self.read_lines(installed, lines, upto - 1);
            match before.outcome {
                Err(_) => before,
                Ok(current) => before.catalog.read_line(installed, current, lines[upto - 1]),
            }
        }
    }
}

/// Once an alternative could not be read, the reading stays where it is.
pub proof fn lemma_read_alternatives_stops(c: Catalog, pieces: Seq<Seq<char>>, at: int, upto: int)
    requires
        0 <= at <= upto,
        c.read_alternatives(pieces, at).outcome is Err,
    ensures
        c.read_alternatives(pieces, upto) == c.read_alternatives(pieces, at),
    decreases upto - at,
{
    if at < upto {
        lemma_read_alternatives_stops(c, pieces, at, upto - 1);
    }
}

/// Once a dependency could not be read, the reading stays where it is.
pub proof fn lemma_read_dependencies_stops(c: Catalog, pieces: Seq<Seq<char>>, at: int, upto: int)
    requires
        0 <= at <= upto,
        c.read_dependencies_upto(pieces, at).outcome is Err,
    ensures
        c.read_dependencies_upto(pieces, upto) == c.read_dependencies_upto(pieces, at),
    decreases upto - at,
{
    if at < upto {
        lemma_read_dependencies_stops(c, pieces, at, upto - 1);
    }
}

/// Once a line could not be read, the reading stays where it is.
pub proof fn lemma_read_lines_stops(
    c: Catalog,
    installed: bool,
    lines: Seq<Seq<char>>,
    at: int,
    upto: int,
)
    requires
        0 <= at <= upto,
        c.read_lines(installed, lines, at).outcome is Err,
    ensures
        c.read_lines(installed, lines, upto) == c.read_lines(installed, lines, at),
    decreases upto - at,
{
    if at < upto {
        lemma_read_lines_stops(c, installed, lines, at, upto - 1);
    }
}

impl Packages {
    /// Makes an alternative of the three parts of a text: the package name,
    /// the version and the operator, each as far as it was found.
    pub fn alternative_from(
        &mut self,
        name: Option<String>,
        version: Option<String>,
        op: Option<String>,
    ) -> (r: Result<Option<RelVersionedPackageNum>, PackageError>)
        requires
            old(self).wf(),
        ensures
            final(self).wf(),
            final(self).async_view() == old(self).async_view(),
            old(self)@.alternative_from(name.deep_view(), version.deep_view(), op.deep_view()) == (
            Reading { catalog: final(self)@, outcome: alternative_view(r) }),
    {
        let name = match name {
            None => {
                return Ok(None);
            },
            Some(name) => name,
        };
        let package_num = self.get_package_num_inserting(name.as_str());
        let version = match version {
            None => {
                return Ok(Some(RelVersionedPackageNum { package_num, rel_version: None }));
            },
            Some(version) => version,
        };
        let op = match op {
            None => {
                return Err(PackageError::UnknownRelation);
            },
            Some(op) => op,
        };
        match VersionRelation::from_op(op.as_str()) {
            None => Err(PackageError::UnknownRelation),
            Some(rel) => Ok(
                Some(RelVersionedPackageNum { package_num, rel_version: Some((rel, version)) }),
            ),
        }
    }

    /// Reads one alternative of a dependency, such as `libc6 (>= 2.4)`.
    pub fn parse_alternative(&mut self, text: &str) -> (r: Result<
        Option<RelVersionedPackageNum>,
        PackageError,
    >)
        requires
            old(self).wf(),
        ensures
            final(self).wf(),
            final(self).async_view() == old(self).async_view(),
            old(self)@.read_alternative(text@) == (Reading {
                catalog: final(self)@,
                outcome: alternative_view(r),
            }),
    {
        let name = regex_capture(PKGNAME_AND_VERSION_REGEX, text, "pkg");
        let version = regex_capture(PKGNAME_AND_VERSION_REGEX, text, "ver");
        let op = regex_capture(PKGNAME_AND_VERSION_REGEX, text, "op");
        self.alternative_from(name, version, op)
    }

    /// Reads one dependency, such as `exim4 | mail-transport-agent`.
    pub fn parse_dependency(&mut self, text: &str) -> (r: Result<Dependency, PackageError>)
        requires
            old(self).wf(),
        ensures
            final(self).wf(),
            final(self).async_view() == old(self).async_view(),
            old(self)@.read_dependency(text@) == (Reading {
                catalog: final(self)@,
                outcome: dependency_view(r),
            }),
    {
        let pieces = split_on(text, '|');
        let ghost texts = pieces.deep_view();
        let mut alts: Dependency = Vec::new();
        let mut k: usize = 0;
        assert(alts.deep_view() =~= Seq::<Alternative>::empty());
        while k < pieces.len()
            invariant
                k <= pieces.len(),
                self.wf(),
                self.async_view() == old(self).async_view(),
                texts == pieces.deep_view(),
                texts == split(text@, '|'),
                old(self)@.read_alternatives(texts, k as int) == (Reading {
                    catalog: self@,
                    outcome: Ok::<Seq<Alternative>, PackageError>(alts.deep_view()),
                }),
            decreases pieces.len() - k,
        {
            let ghost before = alts.deep_view();
            match self.parse_alternative(pieces[k].as_str()) {
                Err(e) => {
                    proof {
                        lemma_read_alternatives_stops(
                            old(self)@,
                            texts,
                            k as int + 1,
                            texts.len() as int,
                        );
                    }
                    return Err(e);
                },
                Ok(None) => {},
                Ok(Some(alt)) => {
                    alts.push(alt);
                    assert(alts.deep_view() =~= before.push(alt.deep_view()));
                },
            }
            k += 1;
        }
        Ok(alts)
    }

    /// Reads a dependency list, such as `libc6 (>= 2.4), exim4 | mta`.
    pub fn parse_dependencies(&mut self, text: &str) -> (r: Result<Vec<Dependency>, PackageError>)
        requires
            old(self).wf(),
        ensures
            final(self).wf(),
            final(self).async_view() == old(self).async_view(),
            old(self)@.read_dependencies(text@) == (Reading {
                catalog: final(self)@,
                outcome: dependencies_view(r),
            }),
    {
        let pieces = split_on(text, ',');
        let ghost texts = pieces.deep_view();
        let mut deps: Vec<Dependency> = Vec::new();
        let mut k: usize = 0;
        assert(deps.deep_view() =~= Seq::<Seq<Alternative>>::empty());
        while k < pieces.len()
            invariant
                k <= pieces.len(),
                self.wf(),
                self.async_view() == old(self).async_view(),
                texts == pieces.deep_view(),
                texts == split(text@, ','),
                old(self)@.read_dependencies_upto(texts, k as int) == (Reading {
                    catalog: self@,
                    outcome: Ok::<Seq<Seq<Alternative>>, PackageError>(deps.deep_view()),
                }),
            decreases pieces.len() - k,
        {
            let ghost before = deps.deep_view();
            match self.parse_dependency(pieces[k].as_str()) {
                Err(e) => {
                    proof {
                        lemma_read_dependencies_stops(
                            old(self)@,
                            texts,
                            k as int + 1,
                            texts.len() as int,
                        );
                    }
                    return Err(e);
                },
                Ok(dep) => {
                    let ghost model = dep.deep_view();
                    deps.push(dep);
                    assert(deps.deep_view() =~= before.push(model));
                },
            }
            k += 1;
        }
        Ok(deps)
    }

    /// Takes in one field, where `current` is the package that it speaks of;
    /// the result is the package that the next field speaks of. A line that
    /// is no field has neither key nor value.
    pub fn take_field(
        &mut self,
        installed: bool,
        current: usize,
        key: Option<String>,
        value: Option<String>,
    ) -> (r: Result<usize, PackageError>)
        requires
            old(self).wf(),
        ensures
            final(self).wf(),
            final(self).async_view() == old(self).async_view(),
            old(self)@.field(installed, current, key.deep_view(), value.deep_view()) == (Reading {
                catalog: final(self)@,
                outcome: r,
            }),
    {
        let (key, value) = match (key, value) {
            (Some(key), Some(value)) => (key, value),
            _ => {
                return Ok(current);
            },
        };
        if str_eq(key.as_str(), "Package") {
            Ok(self.get_package_num_inserting(value.as_str()))
        } else if str_eq(key.as_str(), "Version") {
            let version = trim(value.as_str());
            let set = if installed {
                self.set_installed_version(current, version)
            } else {
                self.set_available_version(current, version)
            };
            match set {
                Ok(()) => Ok(current),
                Err(e) => Err(e),
            }
        } else if !installed && str_eq(key.as_str(), "MD5sum") {
            match self.set_md5sum(current, value.as_str()) {
                Ok(()) => Ok(current),
                Err(e) => Err(e),
            }
        } else if !installed && str_eq(key.as_str(), "Depends") {
            match self.parse_dependencies(value.as_str()) {
                Err(e) => Err(e),
                Ok(deps) => match self.set_dependencies(current, deps) {
                    Ok(()) => Ok(current),
                    Err(e) => Err(e),
                },
            }
        } else {
            Ok(current)
        }
    }

    /// Reads one line of a list: of installed packages if `installed`, else
    /// of packages on offer. `current` is the package that the line speaks
    /// of; the result is the one that the next line speaks of.
    pub fn parse_line(&mut self, installed: bool, current: usize, line: &str) -> (r: Result<
        usize,
        PackageError,
    >)
        requires
            old(self).wf(),
        ensures
            final(self).wf(),
            final(self).async_view() == old(self).async_view(),
            old(self)@.read_line(installed, current, line@) == (Reading {
                catalog: final(self)@,
                outcome: r,
            }),
    {
        let key = regex_capture(KEYVAL_REGEX, line, "key");
        let value = regex_capture(KEYVAL_REGEX, line, "value");
        self.take_field(installed, current, key, value)
    }

    /// Reads `lines`, in order, up to the first that cannot be read.
    fn parse_lines(&mut self, installed: bool, lines: &Vec<String>) -> (r: Result<(), PackageError>)
        requires
            old(self).wf(),
        ensures
            final(self).wf(),
            final(self).async_view() == old(self).async_view(),
            final(self)@ == old(self)@.read_lines(
                installed,
                lines.deep_view(),
                lines.len() as int,
            ).catalog,
            r == match old(self)@.read_lines(
                installed,
                lines.deep_view(),
                lines.len() as int,
            ).outcome {
                Ok(_) => Ok::<(), PackageError>(()),
                Err(e) => Err(e),
            },
    {
        let ghost texts = lines.deep_view();
        let mut current: usize = 0;
        let mut k: usize = 0;
        while k < lines.len()
            invariant
                k <= lines.len(),
                self.wf(),
                self.async_view() == old(self).async_view(),
                texts == lines.deep_view(),
                old(self)@.read_lines(installed, texts, k as int) == (Reading {
                    catalog: self@,
                    outcome: Ok::<usize, PackageError>(current),
                }),
            decreases lines.len() - k,
        {
            match self.parse_line(installed, current, lines[k].as_str()) {
                Err(e) => {
                    proof {
                        lemma_read_lines_stops(
                            old(self)@,
                            installed,
                            texts,
                            k as int + 1,
                            texts.len() as int,
                        );
                    }
                    return Err(e);
                },
                Ok(next) => {
                    current = next;
                },
            }
            k += 1;
        }
        Ok(())
    }

    /// Takes in the lines of a list of installed packages: each package
    /// named is entered into the catalog if it is new, and the version given
    /// for it becomes its installed version. Stops at the first line whose
    /// version is no Debian version string, or which gives a version before
    /// the catalog has any package.
    pub fn parse_installed(&mut self, lines: &Vec<String>) -> (r: Result<(), PackageError>)
        requires
            old(self).wf(),
        ensures
            final(self).wf(),
            final(self).async_view() == old(self).async_view(),
            final(self)@ == old(self)@.read_lines(true, lines.deep_view(), lines.len() as int).catalog,
            r == match old(self)@.read_lines(true, lines.deep_view(), lines.len() as int).outcome {
                Ok(_) => Ok::<(), PackageError>(()),
                Err(e) => Err(e),
            },
    {
        self.parse_lines(true, lines)
    }

    /// Takes in the lines of a list of packages on offer: each package named,
    /// also as an alternative of a dependency, is entered into the catalog if
    /// it is new, and the version, checksum and dependencies given for it
    /// are recorded. Stops at the first line that cannot be taken in.
    pub fn parse_packages(&mut self, lines: &Vec<String>) -> (r: Result<(), PackageError>)
        requires
            old(self).wf(),
        ensures
            final(self).wf(),
            final(self).async_view() == old(self).async_view(),
            final(self)@ == old(self)@.read_lines(false, lines.deep_view(), lines.len() as int).catalog,
            r == match old(self)@.read_lines(false, lines.deep_view(), lines.len() as int).outcome {
                Ok(_) => Ok::<(), PackageError>(()),
                Err(e) => Err(e),
            },
    {
        self.parse_lines(false, lines)
    }
}

} // verus!
