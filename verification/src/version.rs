//! Debian version relations and the comparison of version strings.

use vstd::prelude::*;

verus! {

/// How one version stands to another.
#[derive(Clone, Copy, Debug, PartialEq, Eq, Structural)]
pub enum VersionOrder {
    Less,
    Equal,
    Greater,
}

/// The relational operator of a version constraint.
#[derive(Clone, Copy, Debug, PartialEq, Eq, Structural)]
pub enum VersionRelation {
    /// `<<`
    StrictlyLess,
    /// `<=`
    LessOrEqual,
    /// `=`
    Equal,
    /// `>=`
    GreaterOrEqual,
    /// `>>`
    StrictlyGreater,
}

/// The order in which Debian places `left` and `right`, or `None` where one
/// of the two is not a Debian version string.
pub uninterp spec fn version_order(left: Seq<char>, right: Seq<char>) -> Option<VersionOrder>;

/// Parses both strings with `debversion::Version::from_str` and compares the
/// two versions with `debversion::Version::cmp`. Trusted: the result is the
/// outcome of that comparison, and `None` exactly when one of the strings
/// fails to parse; it depends on the two strings alone.
#[verifier::external_body]
pub(crate) fn compare_versions(left: &str, right: &str) -> (r: Option<VersionOrder>)
    ensures
        r == version_order(left@, right@),
{
    match (left.parse::<debversion::Version>(), right.parse::<debversion::Version>()) {
        (Ok(l), Ok(r)) => Some(
            match l.cmp(&r) {
                std::cmp::Ordering::Less => VersionOrder::Less,
                std::cmp::Ordering::Equal => VersionOrder::Equal,
                std::cmp::Ordering::Greater => VersionOrder::Greater,
            },
        ),
        _ => None,
    }
}

/// Whether `text` is a Debian version string: one that compares with itself.
pub open spec fn is_version(text: Seq<char>) -> bool {
    version_order(text, text).is_some()
}

/// The relation that an operator token denotes.
pub open spec fn relation_of(op: Seq<char>) -> Option<VersionRelation> {
    if op == "<<"@ {
        Some(VersionRelation::StrictlyLess)
    } else if op == "<="@ {
        Some(VersionRelation::LessOrEqual)
    } else if op == "="@ {
        Some(VersionRelation::Equal)
    } else if op == ">="@ {
        Some(VersionRelation::GreaterOrEqual)
    } else if op == ">>"@ {
        Some(VersionRelation::StrictlyGreater)
    } else {
        None
    }
}

/// Equality of two string slices, character by character.
pub(crate) fn str_eq(a: &str, b: &str) -> (r: bool)
    ensures
        r == (a@ == b@),
{
    let x = String::from_str(a);
    let y = String::from_str(b);
    x == y
}

impl VersionRelation {
    /// Whether a left operand that stands to the right operand as `order`
    /// says meets this relation.
    pub open spec fn holds(self, order: VersionOrder) -> bool {
        match self {
            VersionRelation::StrictlyLess => order is Less,
            VersionRelation::LessOrEqual => !(order is Greater),
            VersionRelation::Equal => order is Equal,
            VersionRelation::GreaterOrEqual => !(order is Less),
            VersionRelation::StrictlyGreater => order is Greater,
        }
    }

    /// Decides the relation for a known order of the two operands.
    pub fn admits(self, order: VersionOrder) -> (r: bool)
        ensures
            r == self.holds(order),
    {
        match self {
            VersionRelation::StrictlyLess => matches!(order, VersionOrder::Less),
            VersionRelation::LessOrEqual => !matches!(order, VersionOrder::Greater),
            VersionRelation::Equal => matches!(order, VersionOrder::Equal),
            VersionRelation::GreaterOrEqual => !matches!(order, VersionOrder::Less),
            VersionRelation::StrictlyGreater => matches!(order, VersionOrder::Greater),
        }
    }

    /// Reads an operator token: `<<`, `<=`, `=`, `>=` or `>>`.
    pub fn from_op(op: &str) -> (r: Option<VersionRelation>)
        ensures
            r == relation_of(op@),
    {
        if str_eq(op, "<<") {
            Some(VersionRelation::StrictlyLess)
        } else if str_eq(op, "<=") {
            Some(VersionRelation::LessOrEqual)
        } else if str_eq(op, "=") {
            Some(VersionRelation::Equal)
        } else if str_eq(op, ">=") {
            Some(VersionRelation::GreaterOrEqual)
        } else if str_eq(op, ">>") {
            Some(VersionRelation::StrictlyGreater)
        } else {
            None
        }
    }
}

/// Evaluates `left rel right` on two version strings; `None` where one of
/// them is not a Debian version string.
pub fn version_relation_holds(rel: VersionRelation, left: &str, right: &str) -> (r: Option<bool>)
    ensures
        r == match version_order(left@, right@) {
            Some(order) => Some(rel.holds(order)),
            None => None,
        },
{
    match compare_versions(left, right) {
        Some(order) => Some(rel.admits(order)),
        None => None,
    }
}

/// Whether `text` is a Debian version string.
pub fn is_debian_version(text: &str) -> (r: bool)
    ensures
        r == is_version(text@),
{
    compare_versions(text, text).is_some()
}

} // verus!
