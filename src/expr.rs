//! The pattern syntax tree consumed by the analysis, and the mathematical
//! model of the facts the analysis computes for each node.

use vstd::prelude::*;

verus! {

/// Direction and polarity of a lookaround assertion.
#[derive(Debug, Clone, Copy, PartialEq, Eq)]
pub enum LookAround {
    LookAhead,
    LookAheadNeg,
    LookBehind,
    LookBehindNeg,
}

/// A node of a parsed pattern.
#[derive(Debug)]
pub enum Expr {
    Empty,
    Any { newline: bool },
    StartText,
    EndText,
    StartLine,
    EndLine,
    Literal { val: String, casei: bool },
    Concat(Vec<Expr>),
    Alt(Vec<Expr>),
    Group(Box<Expr>),
    LookAround(Box<Expr>, LookAround),
    Repeat { child: Box<Expr>, lo: usize, hi: usize, greedy: bool },
    Delegate { inner: String, size: usize, casei: bool },
    Backref(usize),
    AtomicGroup(Box<Expr>),
}

/// Errors reported by the analysis.
#[derive(Debug, Clone, Copy, PartialEq, Eq)]
pub enum Error {
    /// A backreference names a group that has not been opened before it.
    InvalidBackref,
}

/// Number of capturing groups in `e`.
pub open spec fn group_count(e: Expr) -> nat
    decreases e,
{
    match e {
        Expr::Concat(v) => groups_in(v@),
        Expr::Alt(v) => groups_in(v@),
        Expr::Group(c) => 1 + group_count(*c),
        Expr::LookAround(c, _) => group_count(*c),
        Expr::Repeat { child, .. } => group_count(*child),
        Expr::AtomicGroup(c) => group_count(*c),
        _ => 0,
    }
}

/// Number of capturing groups in a sequence of sibling nodes.
pub open spec fn groups_in(s: Seq<Expr>) -> nat
    decreases s,
{
    if s.len() == 0 {
        0
    } else {
        groups_in(s.drop_last()) + group_count(s.last())
    }
}

/// Minimum number of atoms that a match of `e` consumes.
pub open spec fn min_size_of(e: Expr) -> nat
    decreases e,
{
    match e {
        Expr::Any { .. } => 1,
        Expr::Literal { .. } => 1,
        Expr::Concat(v) => min_sum(v@),
        Expr::Alt(v) => min_least(v@),
        Expr::Group(c) => min_size_of(*c),
        Expr::Repeat { child, lo, .. } => min_size_of(*child) * (lo as nat),
        Expr::Delegate { size, .. } => size as nat,
        Expr::AtomicGroup(c) => min_size_of(*c),
        _ => 0,
    }
}

/// Sum of the minimum sizes of a sequence of nodes.
pub open spec fn min_sum(s: Seq<Expr>) -> nat
    decreases s,
{
    if s.len() == 0 {
        0
    } else {
        min_sum(s.drop_last()) + min_size_of(s.last())
    }
}

/// Least of the minimum sizes of a sequence of nodes (zero when empty).
pub open spec fn min_least(s: Seq<Expr>) -> nat
    decreases s,
{
    if s.len() == 0 {
        0
    } else if s.len() == 1 {
        min_size_of(s[0])
    } else {
        let m = min_least(s.drop_last());
        let n = min_size_of(s.last());
        if n < m {
            n
        } else {
            m
        }
    }
}

/// Whether a case-insensitive literal can only match text of its own length.
/// Case folding is taken to preserve length.
pub open spec fn literal_keeps_size(val: Seq<char>, casei: bool) -> bool {
    true
}

/// Whether every match of `e` has exactly `min_size_of(e)` atoms.
pub open spec fn const_size_of(e: Expr) -> bool
    decreases e,
{
    match e {
        Expr::Literal { val, casei } => literal_keeps_size(val@, casei),
        Expr::Concat(v) => all_const(v@),
        Expr::Alt(v) => same_const(v@),
        Expr::Group(c) => const_size_of(*c),
        Expr::Repeat { child, lo, hi, .. } => const_size_of(*child) && lo == hi,
        Expr::Backref(_) => false,
        Expr::AtomicGroup(c) => const_size_of(*c),
        _ => true,
    }
}

/// Whether every node of `s` is of constant size.
pub open spec fn all_const(s: Seq<Expr>) -> bool
    decreases s,
{
    if s.len() == 0 {
        true
    } else {
        all_const(s.drop_last()) && const_size_of(s.last())
    }
}

/// Whether every node of `s` is of constant size, all of one size.
pub open spec fn same_const(s: Seq<Expr>) -> bool
    decreases s,
{
    if s.len() == 0 {
        true
    } else {
        same_const(s.drop_last()) && const_size_of(s.last()) && min_size_of(s.last())
            == min_size_of(s[0])
    }
}

/// Whether the outcome of matching `e` may depend on text left of where it starts.
pub open spec fn looks_left_of(e: Expr) -> bool
    decreases e,
{
    match e {
        Expr::StartText => true,
        Expr::StartLine => true,
        Expr::Concat(v) => leading_looks_left(v@),
        Expr::Alt(v) => any_looks_left(v@),
        Expr::Group(c) => looks_left_of(*c),
        Expr::LookAround(c, _) => looks_left_of(*c),
        Expr::Repeat { child, .. } => looks_left_of(*child),
        Expr::Delegate { size, .. } => size == 0,
        Expr::AtomicGroup(c) => looks_left_of(*c),
        _ => false,
    }
}

/// Whether, in the concatenation `s`, some node looks left while everything
/// before it may match empty text.
pub open spec fn leading_looks_left(s: Seq<Expr>) -> bool
    decreases s,
{
    if s.len() == 0 {
        false
    } else {
        leading_looks_left(s.drop_last()) || (looks_left_of(s.last()) && min_sum(s.drop_last())
            == 0)
    }
}

/// Whether some node of `s` looks left.
pub open spec fn any_looks_left(s: Seq<Expr>) -> bool
    decreases s,
{
    if s.len() == 0 {
        false
    } else {
        any_looks_left(s.drop_last()) || looks_left_of(s.last())
    }
}

/// Whether matching `e`, whose first group has index `ix`, needs a
/// backtracking engine, given the set `br` of groups that are backreferenced.
pub open spec fn hard_of(e: Expr, ix: nat, br: Set<nat>) -> bool
    decreases e,
{
    match e {
        Expr::Concat(v) => any_hard(v@, ix, br),
        Expr::Alt(v) => any_hard(v@, ix, br),
        Expr::Group(c) => hard_of(*c, ix + 1, br) || br.contains(ix),
        Expr::LookAround(..) => true,
        Expr::Repeat { child, .. } => hard_of(*child, ix, br),
        Expr::Backref(_) => true,
        Expr::AtomicGroup(..) => true,
        _ => false,
    }
}

/// Whether some node of the siblings `s`, whose first group has index `ix`,
/// needs a backtracking engine.
pub open spec fn any_hard(s: Seq<Expr>, ix: nat, br: Set<nat>) -> bool
    decreases s,
{
    if s.len() == 0 {
        false
    } else {
        any_hard(s.drop_last(), ix, br) || hard_of(s.last(), ix + groups_in(s.drop_last()), br)
    }
}

/// Whether every backreference in `e`, whose first group has index `ix`,
/// names a group opened before it.
pub open spec fn backrefs_valid(e: Expr, ix: nat) -> bool
    decreases e,
{
    match e {
        Expr::Concat(v) => all_backrefs_valid(v@, ix),
        Expr::Alt(v) => all_backrefs_valid(v@, ix),
        Expr::Group(c) => backrefs_valid(*c, ix + 1),
        Expr::LookAround(c, _) => backrefs_valid(*c, ix),
        Expr::Repeat { child, .. } => backrefs_valid(*child, ix),
        Expr::Backref(g) => g < ix,
        Expr::AtomicGroup(c) => backrefs_valid(*c, ix),
        _ => true,
    }
}

/// Whether every backreference in the siblings `s`, whose first group has
/// index `ix`, names a group opened before it.
pub open spec fn all_backrefs_valid(s: Seq<Expr>, ix: nat) -> bool
    decreases s,
{
    if s.len() == 0 {
        true
    } else {
        all_backrefs_valid(s.drop_last(), ix) && backrefs_valid(
            s.last(),
            ix + groups_in(s.drop_last()),
        )
    }
}

/// Whether `e` is a tree the analysis accepts: every alternation has a branch,
/// and every node's minimum size fits in a `usize`.
pub open spec fn analyzable(e: Expr) -> bool
    decreases e,
{
    &&& min_size_of(e) <= usize::MAX
    &&& match e {
        Expr::Concat(v) => forall|i: int| 0 <= i < v.len() ==> analyzable(#[trigger] v@[i]),
        Expr::Alt(v) => v.len() > 0 && forall|i: int|
            0 <= i < v.len() ==> analyzable(#[trigger] v@[i]),
        Expr::Group(c) => analyzable(*c),
        Expr::LookAround(c, _) => analyzable(*c),
        Expr::Repeat { child, .. } => analyzable(*child),
        Expr::AtomicGroup(c) => analyzable(*c),
        _ => true,
    }
}

/// The direct children of `e`, in order.
pub open spec fn sub_exprs(e: Expr) -> Seq<Expr> {
    match e {
        Expr::Concat(v) => v@,
        Expr::Alt(v) => v@,
        Expr::Group(c) => seq![*c],
        Expr::LookAround(c, _) => seq![*c],
        Expr::Repeat { child, .. } => seq![*child],
        Expr::AtomicGroup(c) => seq![*c],
        _ => Seq::empty(),
    }
}

/// Index of the first group of the `i`-th child of `e`, when `e`'s first
/// group has index `ix`.
pub open spec fn sub_start(e: Expr, ix: nat, i: int) -> nat {
    match e {
        Expr::Concat(v) => ix + groups_in(v@.take(i)),
        Expr::Alt(v) => ix + groups_in(v@.take(i)),
        Expr::Group(_) => ix + 1,
        _ => ix,
    }
}

/// The first `i + 1` items of `s` are the first `i` followed by `s[i]`.
pub proof fn lemma_take_step<T>(s: Seq<T>, i: int)
    requires
        0 <= i < s.len(),
    ensures
        s.take(i + 1).drop_last() == s.take(i),
        s.take(i + 1).last() == s[i],
{
    assert(s.take(i + 1).drop_last() =~= s.take(i));
}

/// A prefix of a sequence holds no more groups than the whole.
pub proof fn lemma_groups_in_take(s: Seq<Expr>, k: int)
    requires
        0 <= k <= s.len(),
    ensures
        groups_in(s.take(k)) <= groups_in(s),
    decreases s.len(),
{
    if k == s.len() {
        assert(s.take(k) =~= s);
    } else {
        assert(s.take(k) =~= s.drop_last().take(k));
        lemma_groups_in_take(s.drop_last(), k);
    }
}

/// A prefix of a sequence has no larger minimum size than the whole.
pub proof fn lemma_min_sum_take(s: Seq<Expr>, k: int)
    requires
        0 <= k <= s.len(),
    ensures
        min_sum(s.take(k)) <= min_sum(s),
    decreases s.len(),
{
    if k == s.len() {
        assert(s.take(k) =~= s);
    } else {
        assert(s.take(k) =~= s.drop_last().take(k));
        lemma_min_sum_take(s.drop_last(), k);
    }
}

/// Backreferences valid over a sequence are valid over each of its prefixes.
pub proof fn lemma_all_backrefs_valid_take(s: Seq<Expr>, k: int, ix: nat)
    requires
        0 <= k <= s.len(),
        all_backrefs_valid(s, ix),
    ensures
        all_backrefs_valid(s.take(k), ix),
    decreases s.len(),
{
    if k == s.len() {
        assert(s.take(k) =~= s);
    } else {
        assert(s.take(k) =~= s.drop_last().take(k));
        lemma_all_backrefs_valid_take(s.drop_last(), k, ix);
    }
}

} // verus!
