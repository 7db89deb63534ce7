//! The analysis pass: one pre-order walk over a pattern that annotates every
//! node, and the literal detection built on its result.

use bit_set::BitSet;
use vstd::prelude::*;

use crate::expr::{
    all_backrefs_valid, all_const, analyzable, any_hard, any_looks_left, backrefs_valid,
    const_size_of, group_count, groups_in, hard_of, leading_looks_left, lemma_all_backrefs_valid_take,
    lemma_groups_in_take, lemma_min_sum_take, lemma_take_step, literal_keeps_size, looks_left_of,
    min_least, min_size_of, min_sum, same_const, sub_exprs, sub_start, Error, Expr,
};

verus! {

#[verifier::external_type_specification]
#[verifier::external_body]
#[verifier::reject_recursive_types(B)]
pub struct ExBitSet<B>(bit_set::BitSet<B>);

/// The integers held by a bit set.
pub uninterp spec fn set_members(s: BitSet) -> Set<nat>;

/// Relies on bit_set::BitSet::contains: true exactly when `value` is a member.
#[verifier::external_body]
fn set_contains(s: &BitSet, value: usize) -> (r: bool)
    ensures
        r == set_members(*s).contains(value as nat),
{
    s.contains(value)
}

/// Relies on String::push_str: appends the characters of `s` to `buf`.
#[verifier::external_body]
fn append_str(buf: &mut String, s: &str)
    ensures
        final(buf)@ == old(buf)@ + s@,
{
    buf.push_str(s)
}

/// The facts computed for one node of a pattern, with those of its children.
#[derive(Debug)]
pub struct AnalyzedExpr<'a> {
    pub expr: &'a Expr,
    pub children: Vec<AnalyzedExpr<'a>>,
    pub start_group: usize,
    pub end_group: usize,
    pub min_size: usize,
    pub const_size: bool,
    pub hard: bool,
    pub looks_left: bool,
}

impl<'a> AnalyzedExpr<'a> {
    /// `self` is the analysis of `e`, whose first group has index `ix`, when
    /// the groups in `br` are backreferenced.
    pub open spec fn annotates(self, e: Expr, ix: nat, br: Set<nat>) -> bool
        decreases self,
    {
        &&& *self.expr == e
        &&& self.start_group == ix
        &&& self.end_group == ix + group_count(e)
        &&& self.min_size == min_size_of(e)
        &&& self.const_size == const_size_of(e)
        &&& self.hard == hard_of(e, ix, br)
        &&& self.looks_left == looks_left_of(e)
        &&& self.children.len() == sub_exprs(e).len()
        &&& forall|i: int|
            0 <= i < self.children.len() ==> (#[trigger] self.children@[i]).annotates(
                sub_exprs(e)[i],
                sub_start(e, ix, i),
                br,
            )
    }

    /// Whether this node stands for a fixed, case-sensitive string.
    pub open spec fn literal(self) -> bool
        decreases self,
    {
        match *self.expr {
            Expr::Literal { casei, .. } => !casei,
            Expr::Concat(_) => forall|i: int|
                0 <= i < self.children.len() ==> (#[trigger] self.children@[i]).literal(),
            _ => false,
        }
    }

    /// The string a literal node stands for.
    pub open spec fn literal_text(self) -> Seq<char>
        decreases self,
    {
        match *self.expr {
            Expr::Literal { val, .. } => val@,
            Expr::Concat(_) => literal_texts(self.children@),
            _ => Seq::empty(),
        }
    }

    pub fn is_literal(&self) -> (r: bool)
        ensures
            r == self.literal(),
        decreases self,
    {
        match self.expr {
            Expr::Literal { casei, .. } => !*casei,
            Expr::Concat(_) => {
                let mut i: usize = 0;
                while i < self.children.len()
                    invariant
                        0 <= i <= self.children.len(),
                        *self.expr is Concat,
                        forall|j: int| 0 <= j < i ==> (#[trigger] self.children@[j]).literal(),
                    decreases self.children.len() - i,
                {
                    if !self.children[i].is_literal() {
                        return false;
                    }
                    i += 1;
                }
                true
            },
            _ => false,
        }
    }

    /// Appends the string this literal node stands for to `buf`.
    pub fn push_literal(&self, buf: &mut String)
        requires
            self.literal(),
        ensures
            final(buf)@ == old(buf)@ + self.literal_text(),
        decreases self,
    {
        match self.expr {
            Expr::Literal { val, .. } => append_str(buf, val.as_str()),
            Expr::Concat(_) => {
                let mut i: usize = 0;
                while i < self.children.len()
                    invariant
                        0 <= i <= self.children.len(),
                        *self.expr is Concat,
                        self.literal(),
                        buf@ == old(buf)@ + literal_texts(self.children@.take(i as int)),
                    decreases self.children.len() - i,
                {
                    proof {
                        let s = self.children@;
                        assert(s.take(i + 1).drop_last() =~= s.take(i as int));
                    }
                    let ghost before = buf@;
                    self.children[i].push_literal(buf);
                    proof {
                        let s = self.children@;
                        assert(buf@ =~= old(buf)@ + literal_texts(s.take(i + 1)));
                    }
                    i += 1;
                }
                proof {
                    assert(self.children@.take(self.children.len() as int) =~= self.children@);
                }
            },
            _ => {},
        }
    }
}

/// The strings of a sequence of literal nodes, one after another.
pub open spec fn literal_texts<'a>(s: Seq<AnalyzedExpr<'a>>) -> Seq<char>
    decreases s,
{
    if s.len() == 0 {
        Seq::empty()
    } else {
        literal_texts(s.drop_last()) + s.last().literal_text()
    }
}

/// Whether a literal keeps its length under its case rule. Case folding is
/// taken to preserve length.
pub fn literal_const_size(val: &str, casei: bool) -> (r: bool)
    ensures
        r == literal_keeps_size(val@, casei),
{
    true
}

/// What a walk over `e` from group index `ix` yields: the analysis of `e`
/// with the counter advanced past its groups, or the backreference error.
pub open spec fn visit_outcome<'a>(
    e: Expr,
    ix: nat,
    br: Set<nat>,
    end_ix: nat,
    r: Result<AnalyzedExpr<'a>, Error>,
) -> bool {
    match r {
        Ok(a) => {
            &&& backrefs_valid(e, ix)
            &&& end_ix == ix + group_count(e)
            &&& a.annotates(e, ix, br)
        },
        Err(err) => !backrefs_valid(e, ix) && err == Error::InvalidBackref,
    }
}

/// State of one walk: the backreferenced groups, and the index the next
/// group opened will get.
struct Analyzer<'a> {
    backrefs: &'a BitSet,
    group_ix: usize,
}

impl<'a> Analyzer<'a> {
    /// Analyzes `expr`, numbering its groups from the current counter.
    fn visit(&mut self, expr: &'a Expr) -> (r: Result<AnalyzedExpr<'a>, Error>)
        requires
            analyzable(*expr),
            old(self).group_ix + group_count(*expr) <= usize::MAX,
        ensures
            final(self).backrefs == old(self).backrefs,
            visit_outcome(
                *expr,
                old(self).group_ix as nat,
                set_members(*old(self).backrefs),
                final(self).group_ix as nat,
                r,
            ),
        decreases *expr, 1nat,
    {
        let start_group = self.group_ix;
        let mut children: Vec<AnalyzedExpr<'a>> = Vec::new();
        let mut min_size: usize = 0;
        let mut const_size = false;
        let mut hard = false;
        let mut looks_left = false;
        match expr {
            Expr::Empty | Expr::EndText | Expr::EndLine => {
                const_size = true;
            },
            Expr::Any { .. } => {
                min_size = 1;
                const_size = true;
            },
            Expr::Literal { val, casei } => {
                // each character of a literal is a node of its own
                min_size = 1;
                const_size = literal_const_size(val.as_str(), *casei);
            },
            Expr::StartText | Expr::StartLine => {
                const_size = true;
                looks_left = true;
            },
            Expr::Concat(v) => {
                return self.visit_concat(expr, v);
            },
            Expr::Alt(v) => {
                return self.visit_alt(expr, v);
            },
            Expr::Group(child) => {
                let group = self.group_ix;
                self.group_ix = self.group_ix + 1;
                let analyzed_child = match self.visit(child) {
                    Ok(c) => c,
                    Err(err) => {
                        return Err(err);
                    },
                };
                min_size = analyzed_child.min_size;
                const_size = analyzed_child.const_size;
                looks_left = analyzed_child.looks_left;
                hard = analyzed_child.hard || set_contains(self.backrefs, group);
                children.push(analyzed_child);
            },
            Expr::LookAround(child, _) => {
                let analyzed_child = match self.visit(child) {
                    Ok(c) => c,
                    Err(err) => {
                        return Err(err);
                    },
                };
                // the assertion itself consumes nothing
                const_size = true;
                hard = true;
                looks_left = analyzed_child.looks_left;
                children.push(analyzed_child);
            },
            Expr::Repeat { child, lo, hi, .. } => {
                let analyzed_child = match self.visit(child) {
                    Ok(c) => c,
                    Err(err) => {
                        return Err(err);
                    },
                };
                min_size = analyzed_child.min_size * *lo;
                const_size = analyzed_child.const_size && *lo == *hi;
                hard = analyzed_child.hard;
                looks_left = analyzed_child.looks_left;
                children.push(analyzed_child);
            },
            Expr::Delegate { size, .. } => {
                min_size = *size;
                const_size = true;
                // conservative: some zero-width atoms only look at the end
                looks_left = *size == 0;
            },
            Expr::Backref(group) => {
                if *group >= self.group_ix {
                    return Err(Error::InvalidBackref);
                }
                hard = true;
            },
            Expr::AtomicGroup(child) => {
                let analyzed_child = match self.visit(child) {
                    Ok(c) => c,
                    Err(err) => {
                        return Err(err);
                    },
                };
                min_size = analyzed_child.min_size;
                const_size = analyzed_child.const_size;
                looks_left = analyzed_child.looks_left;
                hard = true;
                children.push(analyzed_child);
            },
        }
        let analyzed_expr = AnalyzedExpr {
            expr: expr,
            children: children,
            start_group: start_group,
            end_group: self.group_ix,
            min_size: min_size,
            const_size: const_size,
            hard: hard,
            looks_left: looks_left,
        };
        Ok(analyzed_expr)
    }

    /// Analyzes the concatenation `expr` of the nodes `v`.
    fn visit_concat(&mut self, expr: &'a Expr, v: &'a Vec<Expr>) -> (r: Result<
        AnalyzedExpr<'a>,
        Error,
    >)
        requires
            *expr == Expr::Concat(*v),
            analyzable(*expr),
            old(self).group_ix + group_count(*expr) <= usize::MAX,
        ensures
            final(self).backrefs == old(self).backrefs,
            visit_outcome(
                *expr,
                old(self).group_ix as nat,
                set_members(*old(self).backrefs),
                final(self).group_ix as nat,
                r,
            ),
        decreases *expr, 0nat,
    {
        let ghost ix0: nat = self.group_ix as nat;
        let ghost br = set_members(*self.backrefs);
        let start_group = self.group_ix;
        let mut children: Vec<AnalyzedExpr<'a>> = Vec::new();
        let mut min_size: usize = 0;
        let mut const_size = true;
        let mut hard = false;
        let mut looks_left = false;
        let mut i: usize = 0;
        while i < v.len()
            invariant
                0 <= i <= v.len(),
                *expr == Expr::Concat(*v),
                forall|j: int| 0 <= j < v.len() ==> analyzable(#[trigger] v@[j]),
                min_sum(v@) <= usize::MAX,
                ix0 + groups_in(v@) <= usize::MAX,
                ix0 == old(self).group_ix,
                br == set_members(*self.backrefs),
                self.backrefs == old(self).backrefs,
                self.group_ix == ix0 + groups_in(v@.take(i as int)),
                children.len() == i,
                forall|j: int|
                    0 <= j < i ==> (#[trigger] children@[j]).annotates(
                        v@[j],
                        ix0 + groups_in(v@.take(j)),
                        br,
                    ),
                all_backrefs_valid(v@.take(i as int), ix0),
                min_size == min_sum(v@.take(i as int)),
                const_size == all_const(v@.take(i as int)),
                hard == any_hard(v@.take(i as int), ix0, br),
                looks_left == leading_looks_left(v@.take(i as int)),
            decreases v.len() - i,
        {
            proof {
                lemma_take_step(v@, i as int);
                lemma_groups_in_take(v@, i + 1);
                lemma_min_sum_take(v@, i + 1);
            }
            proof {
                assert(decreases_to!(*expr => (*expr)->Concat_0));
                assert(decreases_to!(*v => v@));
            }
            let analyzed_child = match self.visit(&v[i]) {
                Ok(c) => c,
                Err(err) => {
                    proof {
                        if backrefs_valid(*expr, ix0) {
                            lemma_all_backrefs_valid_take(v@, i + 1, ix0);
                        }
                    }
                    return Err(err);
                },
            };
            looks_left = looks_left || (analyzed_child.looks_left && min_size == 0);
            min_size = min_size + analyzed_child.min_size;
            const_size = const_size && analyzed_child.const_size;
            hard = hard || analyzed_child.hard;
            children.push(analyzed_child);
            i += 1;
        }
        proof {
            assert(v@.take(v.len() as int) =~= v@);
        }
        Ok(
            AnalyzedExpr {
                expr: expr,
                children: children,
                start_group: start_group,
                end_group: self.group_ix,
                min_size: min_size,
                const_size: const_size,
                hard: hard,
                looks_left: looks_left,
            },
        )
    }

    /// Analyzes the alternation `expr` of the branches `v`, tried in order.
    fn visit_alt(&mut self, expr: &'a Expr, v: &'a Vec<Expr>) -> (r: Result<
        AnalyzedExpr<'a>,
        Error,
    >)
        requires
            *expr == Expr::Alt(*v),
            analyzable(*expr),
            old(self).group_ix + group_count(*expr) <= usize::MAX,
        ensures
            final(self).backrefs == old(self).backrefs,
            visit_outcome(
                *expr,
                old(self).group_ix as nat,
                set_members(*old(self).backrefs),
                final(self).group_ix as nat,
                r,
            ),
        decreases *expr, 0nat,
    {
        let ghost ix0: nat = self.group_ix as nat;
        let ghost br = set_members(*self.backrefs);
        let start_group = self.group_ix;
        let mut children: Vec<AnalyzedExpr<'a>> = Vec::new();
        let mut min_size: usize = 0;
        let mut const_size = true;
        let mut hard = false;
        let mut looks_left = false;
        let mut i: usize = 0;
        while i < v.len()
            invariant
                0 <= i <= v.len(),
                v.len() > 0,
                *expr == Expr::Alt(*v),
                forall|j: int| 0 <= j < v.len() ==> analyzable(#[trigger] v@[j]),
                ix0 + groups_in(v@) <= usize::MAX,
                ix0 == old(self).group_ix,
                br == set_members(*self.backrefs),
                self.backrefs == old(self).backrefs,
                self.group_ix == ix0 + groups_in(v@.take(i as int)),
                children.len() == i,
                forall|j: int|
                    0 <= j < i ==> (#[trigger] children@[j]).annotates(
                        v@[j],
                        ix0 + groups_in(v@.take(j)),
                        br,
                    ),
                all_backrefs_valid(v@.take(i as int), ix0),
                min_size == min_least(v@.take(i as int)),
                const_size == same_const(v@.take(i as int)),
                i > 0 && const_size ==> min_size == min_size_of(v@[0]),
                hard == any_hard(v@.take(i as int), ix0, br),
                looks_left == any_looks_left(v@.take(i as int)),
            decreases v.len() - i,
        {
            proof {
                lemma_take_step(v@, i as int);
                lemma_groups_in_take(v@, i + 1);
                assert(v@.take(i + 1)[0] == v@[0]);
            }
            proof {
                assert(decreases_to!(*expr => (*expr)->Alt_0));
                assert(decreases_to!(*v => v@));
            }
            let analyzed_child = match self.visit(&v[i]) {
                Ok(c) => c,
                Err(err) => {
                    proof {
                        if backrefs_valid(*expr, ix0) {
                            lemma_all_backrefs_valid_take(v@, i + 1, ix0);
                        }
                    }
                    return Err(err);
                },
            };
            if i == 0 {
                min_size = analyzed_child.min_size;
                const_size = analyzed_child.const_size;
            } else {
                // all branches must agree on one size
                const_size = const_size && analyzed_child.const_size && min_size
                    == analyzed_child.min_size;
                if analyzed_child.min_size < min_size {
                    min_size = analyzed_child.min_size;
                }
            }
            hard = hard || analyzed_child.hard;
            looks_left = looks_left || analyzed_child.looks_left;
            children.push(analyzed_child);
            i += 1;
        }
        proof {
            assert(v@.take(v.len() as int) =~= v@);
        }
        Ok(
            AnalyzedExpr {
                expr: expr,
                children: children,
                start_group: start_group,
                end_group: self.group_ix,
                min_size: min_size,
                const_size: const_size,
                hard: hard,
                looks_left: looks_left,
            },
        )
    }
}

/// Analyzes the pattern `expr`, given the set `backrefs` of groups that are
/// backreferenced somewhere in it. Fails exactly when a backreference names a
/// group not opened before it.
pub fn analyze<'a>(expr: &'a Expr, backrefs: &'a BitSet) -> (r: Result<AnalyzedExpr<'a>, Error>)
    requires
        analyzable(*expr),
        group_count(*expr) <= usize::MAX,
    ensures
        match r {
            Ok(a) => backrefs_valid(*expr, 0) && a.annotates(*expr, 0, set_members(*backrefs)),
            Err(err) => !backrefs_valid(*expr, 0) && err == Error::InvalidBackref,
        },
{
    let mut analyzer = Analyzer { backrefs: backrefs, group_ix: 0 };
    analyzer.visit(expr)
}

} // verus!
