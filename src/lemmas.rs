//! Facts about the analysis that relate several nodes of its result, or two
//! of its results.

use vstd::prelude::*;

use crate::analyze::AnalyzedExpr;
use crate::expr::{
    all_const, any_hard, const_size_of, group_count, groups_in, hard_of, lemma_groups_in_take,
    lemma_take_step, min_size_of, min_sum, same_const, sub_exprs, sub_start, Expr,
};

verus! {

impl<'a> AnalyzedExpr<'a> {
    /// Every node below `self` has `lo <= start_group <= end_group <= hi`.
    pub open spec fn groups_within(self, lo: nat, hi: nat) -> bool
        decreases self,
    {
        &&& lo <= self.start_group
        &&& self.start_group <= self.end_group
        &&& self.end_group <= hi
        &&& forall|i: int|
            0 <= i < self.children.len() ==> (#[trigger] self.children@[i]).groups_within(lo, hi)
    }

    /// Every group node below `self` whose index is in `br` is hard.
    pub open spec fn referenced_groups_hard(self, br: Set<nat>) -> bool
        decreases self,
    {
        &&& (*self.expr is Group && br.contains(self.start_group as nat)) ==> self.hard
        &&& forall|i: int|
            0 <= i < self.children.len() ==> (#[trigger] self.children@[i]).referenced_groups_hard(
                br,
            )
    }

    /// Every group node below `self` that has index `g` is hard.
    pub open spec fn group_hard(self, g: nat) -> bool
        decreases self,
    {
        &&& (*self.expr is Group && self.start_group == g) ==> self.hard
        &&& forall|i: int|
            0 <= i < self.children.len() ==> (#[trigger] self.children@[i]).group_hard(g)
    }

    /// `self` and `other` are the same tree: the same nodes with the same facts.
    pub open spec fn same_tree(self, other: AnalyzedExpr<'a>) -> bool
        decreases self,
    {
        &&& *self.expr == *other.expr
        &&& self.start_group == other.start_group
        &&& self.end_group == other.end_group
        &&& self.min_size == other.min_size
        &&& self.const_size == other.const_size
        &&& self.hard == other.hard
        &&& self.looks_left == other.looks_left
        &&& self.children.len() == other.children.len()
        &&& forall|i: int|
            0 <= i < self.children.len() ==> (#[trigger] self.children@[i]).same_tree(
                other.children@[i],
            )
    }
}

/// The `i`-th child of `e` takes its groups from within those of `e`.
proof fn lemma_sub_range(e: Expr, ix: nat, i: int)
    requires
        0 <= i < sub_exprs(e).len(),
    ensures
        ix <= sub_start(e, ix, i),
        sub_start(e, ix, i) + group_count(sub_exprs(e)[i]) <= ix + group_count(e),
{
    match e {
        Expr::Concat(v) => {
            lemma_take_step(v@, i);
            lemma_groups_in_take(v@, i + 1);
        },
        Expr::Alt(v) => {
            lemma_take_step(v@, i);
            lemma_groups_in_take(v@, i + 1);
        },
        _ => {},
    }
}

proof fn lemma_within_widen<'a>(a: AnalyzedExpr<'a>, lo: nat, hi: nat, lo2: nat, hi2: nat)
    requires
        a.groups_within(lo, hi),
        lo2 <= lo,
        hi <= hi2,
    ensures
        a.groups_within(lo2, hi2),
    decreases a,
{
    assert forall|i: int| 0 <= i < a.children.len() implies (#[trigger] a.children@[i]).groups_within(
        lo2,
        hi2,
    ) by {
        lemma_within_widen(a.children@[i], lo, hi, lo2, hi2);
    }
}

proof fn lemma_groups_within<'a>(a: AnalyzedExpr<'a>, e: Expr, ix: nat, br: Set<nat>)
    requires
        a.annotates(e, ix, br),
    ensures
        a.groups_within(ix, ix + group_count(e)),
    decreases a,
{
    assert forall|i: int| 0 <= i < a.children.len() implies (#[trigger] a.children@[i]).groups_within(
        ix,
        ix + group_count(e),
    ) by {
        let c = a.children@[i];
        let cs = sub_start(e, ix, i);
        lemma_groups_within(c, sub_exprs(e)[i], cs, br);
        lemma_sub_range(e, ix, i);
        lemma_within_widen(c, cs, cs + group_count(sub_exprs(e)[i]), ix, ix + group_count(e));
    }
}

/// Group ranges nest: at every node `start_group <= end_group`, and the
/// largest `end_group` in the tree is the root's, the number of groups in
/// the pattern.
pub proof fn lemma_group_ranges<'a>(a: AnalyzedExpr<'a>, e: Expr, br: Set<nat>)
    requires
        a.annotates(e, 0, br),
    ensures
        a.groups_within(0, group_count(e)),
        a.end_group == group_count(e),
{
    lemma_groups_within(a, e, 0, br);
}

proof fn lemma_referenced_groups_hard_at<'a>(a: AnalyzedExpr<'a>, e: Expr, ix: nat, br: Set<nat>)
    requires
        a.annotates(e, ix, br),
    ensures
        a.referenced_groups_hard(br),
    decreases a,
{
    assert forall|i: int| 0 <= i < a.children.len() implies (#[trigger] a.children@[i]).referenced_groups_hard(
        br,
    ) by {
        lemma_referenced_groups_hard_at(a.children@[i], sub_exprs(e)[i], sub_start(e, ix, i), br);
    }
}

/// A group that some backreference names, so that its index is in the set
/// of backreferenced groups, is hard.
pub proof fn lemma_referenced_groups_hard<'a>(a: AnalyzedExpr<'a>, e: Expr, br: Set<nat>)
    requires
        a.annotates(e, 0, br),
    ensures
        a.referenced_groups_hard(br),
{
    lemma_referenced_groups_hard_at(a, e, 0, br);
}

/// Two analyses of one pattern, from one group index and with one set of
/// backreferenced groups, are the same tree.
pub proof fn lemma_analysis_deterministic<'a>(
    a: AnalyzedExpr<'a>,
    b: AnalyzedExpr<'a>,
    e: Expr,
    ix: nat,
    br: Set<nat>,
)
    requires
        a.annotates(e, ix, br),
        b.annotates(e, ix, br),
    ensures
        a.same_tree(b),
    decreases a,
{
    assert forall|i: int| 0 <= i < a.children.len() implies (#[trigger] a.children@[i]).same_tree(
        b.children@[i],
    ) by {
        lemma_analysis_deterministic(
            a.children@[i],
            b.children@[i],
            sub_exprs(e)[i],
            sub_start(e, ix, i),
            br,
        );
    }
}

/// A lookaround node is hard and zero-width, whatever its child matches.
pub proof fn lemma_lookaround_zero_width<'a>(a: AnalyzedExpr<'a>, e: Expr, ix: nat, br: Set<nat>)
    requires
        a.annotates(e, ix, br),
        e is LookAround,
    ensures
        a.hard,
        a.min_size == 0,
        a.const_size,
{
}

/// A repetition matches at least `lo` copies of its child's minimum, and is
/// of constant size exactly when its child is and its bounds are equal.
pub proof fn lemma_repeat_size<'a>(a: AnalyzedExpr<'a>, e: Expr, ix: nat, br: Set<nat>)
    requires
        a.annotates(e, ix, br),
        e is Repeat,
    ensures
        a.children.len() == 1,
        a.min_size == a.children@[0].min_size * e->lo,
        a.const_size == (a.children@[0].const_size && e->lo == e->hi),
{
    reveal_with_fuel(AnalyzedExpr::annotates, 2);
    assert(sub_exprs(e)[0] == *e->child);
    assert(a.children@[0].annotates(*e->child, ix, br));
}

/// Whether `e` holds no backreference, lookaround or atomic group.
pub open spec fn without_backtracking(e: Expr) -> bool
    decreases e,
{
    match e {
        Expr::Concat(v) => forall|i: int| 0 <= i < v.len() ==> without_backtracking(#[trigger] v@[i]),
        Expr::Alt(v) => forall|i: int| 0 <= i < v.len() ==> without_backtracking(#[trigger] v@[i]),
        Expr::Group(c) => without_backtracking(*c),
        Expr::Repeat { child, .. } => without_backtracking(*child),
        Expr::LookAround(..) => false,
        Expr::Backref(_) => false,
        Expr::AtomicGroup(_) => false,
        _ => true,
    }
}

proof fn lemma_easy(e: Expr, ix: nat)
    requires
        without_backtracking(e),
    ensures
        !hard_of(e, ix, Set::empty()),
    decreases e,
{
    match e {
        Expr::Concat(v) => {
            assert(decreases_to!(e => v));
            lemma_easy_seq(v@, ix);
        },
        Expr::Alt(v) => {
            assert(decreases_to!(e => v));
            lemma_easy_seq(v@, ix);
        },
        Expr::Group(c) => lemma_easy(*c, ix + 1),
        Expr::Repeat { child, .. } => lemma_easy(*child, ix),
        _ => {},
    }
}

proof fn lemma_easy_seq(s: Seq<Expr>, ix: nat)
    requires
        forall|i: int| 0 <= i < s.len() ==> without_backtracking(#[trigger] s[i]),
    ensures
        !any_hard(s, ix, Set::empty()),
    decreases s,
{
    if s.len() > 0 {
        assert(without_backtracking(s[s.len() - 1]));
        assert(decreases_to!(s => s[s.len() - 1]));
        lemma_easy(s.last(), ix + groups_in(s.drop_last()));
        assert(forall|i: int| 0 <= i < s.drop_last().len() ==> s.drop_last()[i] == s[i]);
        lemma_easy_seq(s.drop_last(), ix);
    }
}

/// A pattern with no backreference, lookaround or atomic group, and so no
/// backreferenced group, needs no backtracking engine.
pub proof fn lemma_plain_pattern_easy<'a>(a: AnalyzedExpr<'a>, e: Expr, br: Set<nat>)
    requires
        a.annotates(e, 0, br),
        without_backtracking(e),
        br == Set::<nat>::empty(),
    ensures
        !a.hard,
{
    lemma_easy(e, 0);
}

proof fn lemma_all_const(s: Seq<Expr>)
    ensures
        all_const(s) <==> forall|i: int| 0 <= i < s.len() ==> const_size_of(#[trigger] s[i]),
    decreases s.len(),
{
    if s.len() > 0 {
        lemma_all_const(s.drop_last());
        assert(forall|i: int| 0 <= i < s.drop_last().len() ==> s.drop_last()[i] == s[i]);
    }
}

proof fn lemma_same_const(s: Seq<Expr>)
    ensures
        same_const(s) <==> forall|i: int|
            0 <= i < s.len() ==> const_size_of(#[trigger] s[i]) && min_size_of(s[i]) == min_size_of(
                s[0],
            ),
    decreases s.len(),
{
    if s.len() > 0 {
        lemma_same_const(s.drop_last());
        assert(forall|i: int| 0 <= i < s.drop_last().len() ==> s.drop_last()[i] == s[i]);
    }
}

/// An alternation is of constant size exactly when every branch is, and
/// all branches have one minimum size.
pub proof fn lemma_alternation_const_size<'a>(a: AnalyzedExpr<'a>, e: Expr, ix: nat, br: Set<nat>)
    requires
        a.annotates(e, ix, br),
        e is Alt,
    ensures
        a.const_size <==> forall|i: int|
            0 <= i < a.children.len() ==> (#[trigger] a.children@[i]).const_size
                && a.children@[i].min_size == a.children@[0].min_size,
{
    reveal_with_fuel(AnalyzedExpr::annotates, 2);
    let v = sub_exprs(e);
    lemma_same_const(v);
    assert forall|i: int| 0 <= i < a.children.len() implies (#[trigger] a.children@[i]).const_size
        == const_size_of(v[i]) && a.children@[i].min_size == min_size_of(v[i]) by {
        assert(a.children@[i].annotates(v[i], sub_start(e, ix, i), br));
    }
    assert(const_size_of(e) == same_const(v));
    if a.children.len() > 0 {
        assert(a.children@[0].min_size == min_size_of(v[0]));
    }
    if forall|i: int|
        0 <= i < a.children.len() ==> (#[trigger] a.children@[i]).const_size
            && a.children@[i].min_size == a.children@[0].min_size {
        assert forall|i: int| 0 <= i < v.len() implies const_size_of(#[trigger] v[i])
            && min_size_of(v[i]) == min_size_of(v[0]) by {
            assert(a.children@[i].const_size);
        }
    }
}

/// Sum of the minimum sizes of a sequence of analyzed nodes.
pub open spec fn min_size_total<'a>(s: Seq<AnalyzedExpr<'a>>) -> nat
    decreases s,
{
    if s.len() == 0 {
        0
    } else {
        min_size_total(s.drop_last()) + s.last().min_size as nat
    }
}

proof fn lemma_min_size_total<'a>(s: Seq<AnalyzedExpr<'a>>, es: Seq<Expr>)
    requires
        s.len() == es.len(),
        forall|i: int| 0 <= i < s.len() ==> (#[trigger] s[i]).min_size == min_size_of(es[i]),
    ensures
        min_size_total(s) == min_sum(es),
    decreases s.len(),
{
    if s.len() > 0 {
        assert(s[s.len() - 1].min_size == min_size_of(es[es.len() - 1]));
        assert(forall|i: int| 0 <= i < s.drop_last().len() ==> s.drop_last()[i] == s[i]);
        assert(forall|i: int| 0 <= i < es.drop_last().len() ==> es.drop_last()[i] == es[i]);
        lemma_min_size_total(s.drop_last(), es.drop_last());
    }
}

/// A concatenation's minimum size is the sum of its children's, and it is of
/// constant size exactly when every child is.
pub proof fn lemma_concatenation_size<'a>(a: AnalyzedExpr<'a>, e: Expr, ix: nat, br: Set<nat>)
    requires
        a.annotates(e, ix, br),
        e is Concat,
    ensures
        a.min_size == min_size_total(a.children@),
        a.const_size <==> forall|i: int|
            0 <= i < a.children.len() ==> (#[trigger] a.children@[i]).const_size,
{
    reveal_with_fuel(AnalyzedExpr::annotates, 2);
    let v = sub_exprs(e);
    lemma_all_const(v);
    assert forall|i: int| 0 <= i < a.children.len() implies (#[trigger] a.children@[i]).const_size
        == const_size_of(v[i]) && a.children@[i].min_size == min_size_of(v[i]) by {
        assert(a.children@[i].annotates(v[i], sub_start(e, ix, i), br));
    }
    lemma_min_size_total(a.children@, v);
    assert(const_size_of(e) == all_const(v));
    if forall|i: int| 0 <= i < a.children.len() ==> (#[trigger] a.children@[i]).const_size {
        assert forall|i: int| 0 <= i < v.len() implies const_size_of(#[trigger] v[i]) by {
            assert(a.children@[i].const_size);
        }
    }
}

/// Whether some backreference in `e` names group `g`.
pub open spec fn refers_to(e: Expr, g: nat) -> bool
    decreases e,
{
    match e {
        Expr::Concat(v) => exists|i: int| 0 <= i < v.len() && refers_to(#[trigger] v@[i], g),
        Expr::Alt(v) => exists|i: int| 0 <= i < v.len() && refers_to(#[trigger] v@[i], g),
        Expr::Group(c) => refers_to(*c, g),
        Expr::LookAround(c, _) => refers_to(*c, g),
        Expr::Repeat { child, .. } => refers_to(*child, g),
        Expr::Backref(h) => h == g,
        Expr::AtomicGroup(c) => refers_to(*c, g),
        _ => false,
    }
}

proof fn lemma_member_group_hard<'a>(a: AnalyzedExpr<'a>, br: Set<nat>, g: nat)
    requires
        a.referenced_groups_hard(br),
        br.contains(g),
    ensures
        a.group_hard(g),
    decreases a,
{
    assert forall|i: int| 0 <= i < a.children.len() implies (#[trigger] a.children@[i]).group_hard(
        g,
    ) by {
        lemma_member_group_hard(a.children@[i], br, g);
    }
}

/// In a pattern with a backreference to group `g`, where the set of
/// backreferenced groups holds every group that a backreference names, the
/// group node that introduces `g` is hard.
pub proof fn lemma_backreferenced_group_hard<'a>(
    a: AnalyzedExpr<'a>,
    e: Expr,
    br: Set<nat>,
    g: nat,
)
    requires
        a.annotates(e, 0, br),
        refers_to(e, g),
        forall|h: nat| refers_to(e, h) ==> br.contains(h),
    ensures
        a.group_hard(g),
{
    lemma_referenced_groups_hard(a, e, br);
    lemma_member_group_hard(a, br, g);
}

} // verus!
