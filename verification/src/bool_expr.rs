//! Boolean expressions over filter atoms, their disjunctive normal form,
//! and continuous three-valued evaluation.
//!
//! An [`Expr`] is the tree a filter expression parses to. [`Expr::to_dnf`]
//! turns it into an or-of-ands over possibly negated atoms and proves that
//! the two evaluate alike under every assignment of the atoms. A
//! [`ContinuousEvaluation`] tracks per-atom truth values as they become
//! known and latches the first decided value; `lemma_decision_sound` and
//! `lemma_fully_specified_decides` show that under any assignment sequence
//! consistent with one world, the latched decision equals the plain
//! two-valued evaluation of the expression in that world.

use vstd::prelude::*;
use crate::filter::{Filter, FilterV};

verus! {

/// A boolean expression over filter atoms.
#[derive(Debug)]
pub enum Expr {
    Atom(Filter),
    Not(Box<Expr>),
    And(Box<Expr>, Box<Expr>),
    Or(Box<Expr>, Box<Expr>),
}

/// The two-valued evaluation of an expression in the world `w`, which
/// assigns a truth value to every atom.
pub open spec fn spec_eval_expr(e: Expr, w: spec_fn(FilterV) -> bool) -> bool
    decreases e,
{
    match e {
        Expr::Atom(f) => w(f@),
        Expr::Not(x) => !spec_eval_expr(*x, w),
        Expr::And(a, b) => spec_eval_expr(*a, w) && spec_eval_expr(*b, w),
        Expr::Or(a, b) => spec_eval_expr(*a, w) || spec_eval_expr(*b, w),
    }
}

/// A possibly negated atom.
#[derive(Clone, Debug)]
pub struct Literal {
    pub atom: Filter,
    pub positive: bool,
}

/// A conjunction of literals.
#[derive(Clone, Debug)]
pub struct Clause {
    pub literals: Vec<Literal>,
}

/// A disjunction of conjunctions of literals: or-of-ands canonical form.
#[derive(Clone, Debug)]
pub struct Dnf {
    pub clauses: Vec<Clause>,
}

/// Two literals carry the same atom and the same polarity.
pub open spec fn spec_lit_equiv(x: Literal, y: Literal) -> bool {
    x.positive == y.positive && x.atom@ == y.atom@
}

/// The two-valued evaluation of a literal in `w`.
pub open spec fn spec_eval_lit(l: Literal, w: spec_fn(FilterV) -> bool) -> bool {
    if l.positive {
        w(l.atom@)
    } else {
        !w(l.atom@)
    }
}

/// A run of literals evaluates to the conjunction of its literals.
pub open spec fn spec_eval_lits(ls: Seq<Literal>, w: spec_fn(FilterV) -> bool) -> bool {
    forall|i: int| 0 <= i < ls.len() ==> spec_eval_lit(#[trigger] ls[i], w)
}

/// The two-valued evaluation of a clause in `w`.
pub open spec fn spec_eval_clause(c: Clause, w: spec_fn(FilterV) -> bool) -> bool {
    spec_eval_lits(c.literals@, w)
}

/// A run of clauses evaluates to the disjunction of its clauses.
pub open spec fn spec_eval_clauses(cs: Seq<Clause>, w: spec_fn(FilterV) -> bool) -> bool {
    exists|i: int| 0 <= i < cs.len() && spec_eval_clause(#[trigger] cs[i], w)
}

/// The two-valued evaluation of a normal form in `w`.
pub open spec fn spec_eval_dnf(d: Dnf, w: spec_fn(FilterV) -> bool) -> bool {
    spec_eval_clauses(d.clauses@, w)
}

/// Appending a clause to a disjunction disjoins its value.
proof fn lemma_eval_clauses_push(cs: Seq<Clause>, c: Clause, w: spec_fn(FilterV) -> bool)
    ensures
        spec_eval_clauses(cs.push(c), w) == (spec_eval_clauses(cs, w) || spec_eval_clause(c, w)),
{
    if spec_eval_clauses(cs, w) {
        let i = choose|i: int| 0 <= i < cs.len() && spec_eval_clause(#[trigger] cs[i], w);
        assert(cs.push(c)[i] == cs[i]);
        assert(spec_eval_clauses(cs.push(c), w));
    }
    if spec_eval_clause(c, w) {
        assert(cs.push(c)[cs.len() as int] == c);
        assert(spec_eval_clauses(cs.push(c), w));
    }
    if spec_eval_clauses(cs.push(c), w) {
        let i = choose|i: int|
            0 <= i < cs.push(c).len() && spec_eval_clause(#[trigger] cs.push(c)[i], w);
        if i < cs.len() {
            assert(cs[i] == cs.push(c)[i]);
            assert(spec_eval_clauses(cs, w));
        } else {
            assert(cs.push(c)[i] == c);
        }
    }
}

/// Concatenating two disjunctions disjoins their values.
proof fn lemma_eval_clauses_concat(s1: Seq<Clause>, s2: Seq<Clause>, w: spec_fn(FilterV) -> bool)
    ensures
        spec_eval_clauses(s1 + s2, w) == (spec_eval_clauses(s1, w) || spec_eval_clauses(s2, w)),
{
    if spec_eval_clauses(s1, w) {
        let i = choose|i: int| 0 <= i < s1.len() && spec_eval_clause(#[trigger] s1[i], w);
        assert((s1 + s2)[i] == s1[i]);
        assert(spec_eval_clauses(s1 + s2, w));
    }
    if spec_eval_clauses(s2, w) {
        let i = choose|i: int| 0 <= i < s2.len() && spec_eval_clause(#[trigger] s2[i], w);
        assert((s1 + s2)[s1.len() + i] == s2[i]);
        assert(spec_eval_clauses(s1 + s2, w));
    }
    if spec_eval_clauses(s1 + s2, w) {
        let i = choose|i: int|
            0 <= i < (s1 + s2).len() && spec_eval_clause(#[trigger] (s1 + s2)[i], w);
        if i < s1.len() {
            assert(s1[i] == (s1 + s2)[i]);
            assert(spec_eval_clauses(s1, w));
        } else {
            assert(s2[i - s1.len()] == (s1 + s2)[i]);
            assert(spec_eval_clauses(s2, w));
        }
    }
}

/// Splitting a conjunction at any point conjoins its parts.
proof fn lemma_eval_lits_split(ls: Seq<Literal>, n: int, w: spec_fn(FilterV) -> bool)
    requires
        0 <= n <= ls.len(),
    ensures
        spec_eval_lits(ls, w) == (spec_eval_lits(ls.subrange(0, n), w) && spec_eval_lits(
            ls.subrange(n, ls.len() as int),
            w,
        )),
{
    let left = ls.subrange(0, n);
    let right = ls.subrange(n, ls.len() as int);
    if spec_eval_lits(ls, w) {
        assert forall|i: int| 0 <= i < left.len() implies spec_eval_lit(#[trigger] left[i], w) by {
            assert(left[i] == ls[i]);
            assert(spec_eval_lit(ls[i], w));
        }
        assert forall|i: int| 0 <= i < right.len() implies spec_eval_lit(
            #[trigger] right[i],
            w,
        ) by {
            assert(right[i] == ls[n + i]);
            assert(spec_eval_lit(ls[n + i], w));
        }
    }
    if spec_eval_lits(left, w) && spec_eval_lits(right, w) {
        assert forall|i: int| 0 <= i < ls.len() implies spec_eval_lit(#[trigger] ls[i], w) by {
            if i < n {
                assert(ls[i] == left[i]);
                assert(spec_eval_lit(left[i], w));
            } else {
                assert(ls[i] == right[i - n]);
                assert(spec_eval_lit(right[i - n], w));
            }
        }
    }
}

/// Equivalent literal runs evaluate alike.
proof fn lemma_eval_lits_equiv(s1: Seq<Literal>, s2: Seq<Literal>, w: spec_fn(FilterV) -> bool)
    requires
        s1.len() == s2.len(),
        forall|i: int| 0 <= i < s1.len() ==> spec_lit_equiv(#[trigger] s1[i], s2[i]),
    ensures
        spec_eval_lits(s1, w) == spec_eval_lits(s2, w),
{
    if spec_eval_lits(s1, w) {
        assert forall|i: int| 0 <= i < s2.len() implies spec_eval_lit(#[trigger] s2[i], w) by {
            assert(spec_lit_equiv(s1[i], s2[i]));
            assert(spec_eval_lit(s1[i], w));
        }
    }
    if spec_eval_lits(s2, w) {
        assert forall|i: int| 0 <= i < s1.len() implies spec_eval_lit(#[trigger] s1[i], w) by {
            assert(spec_lit_equiv(s1[i], s2[i]));
            assert(spec_eval_lit(s2[i], w));
        }
    }
}

impl Literal {
    /// A literal with the same atom and polarity.
    pub fn duplicate(&self) -> (r: Literal)
        ensures
            spec_lit_equiv(r, *self),
            spec_lit_equiv(*self, r),
    {
        Literal { atom: self.atom.duplicate(), positive: self.positive }
    }
}

/// Appends equivalents of `src`'s literals to `dst`.
#[verifier::loop_isolation(false)]
fn append_literals(dst: &mut Vec<Literal>, src: &Vec<Literal>)
    ensures
        final(dst)@.len() == old(dst)@.len() + src@.len(),
        forall|i: int| 0 <= i < old(dst)@.len() ==> final(dst)@[i] == old(dst)@[i],
        forall|i: int|
            0 <= i < src@.len() ==> spec_lit_equiv(
                #[trigger] final(dst)@[old(dst)@.len() + i],
                src@[i],
            ),
{
    let mut i: usize = 0;
    while i < src.len()
        invariant
            i <= src@.len(),
            dst@.len() == old(dst)@.len() + i,
            forall|j: int| 0 <= j < old(dst)@.len() ==> dst@[j] == old(dst)@[j],
            forall|j: int|
                0 <= j < i ==> spec_lit_equiv(#[trigger] dst@[old(dst)@.len() + j], src@[j]),
        decreases src@.len() - i,
    {
        dst.push(src[i].duplicate());
        i = i + 1;
    }
}

/// The normal form of a single possibly negated atom.
fn dnf_atom(atom: Filter, positive: bool) -> (d: Dnf)
    ensures
        forall|w: spec_fn(FilterV) -> bool| #[trigger]
            spec_eval_dnf(d, w) == spec_eval_lit(Literal { atom, positive }, w),
{
    let ghost a = atom;
    let lit = Literal { atom, positive };
    let ghost l = lit;
    let mut literals: Vec<Literal> = Vec::new();
    literals.push(lit);
    let clause = Clause { literals };
    let ghost c = clause;
    let mut clauses: Vec<Clause> = Vec::new();
    clauses.push(clause);
    let d = Dnf { clauses };
    proof {
        assert forall|w: spec_fn(FilterV) -> bool| #[trigger]
            spec_eval_dnf(d, w) == spec_eval_lit(Literal { atom: a, positive }, w) by {
            assert(d.clauses@[0] == c);
            assert(c.literals@[0] == l);
            if spec_eval_lit(l, w) {
                assert forall|t: int| 0 <= t < c.literals@.len() implies spec_eval_lit(
                    #[trigger] c.literals@[t],
                    w,
                ) by {
                    assert(t == 0);
                }
                assert(spec_eval_clause(d.clauses@[0], w));
                assert(spec_eval_clauses(d.clauses@, w));
            }
            if spec_eval_dnf(d, w) {
                let i = choose|i: int|
                    0 <= i < d.clauses@.len() && spec_eval_clause(#[trigger] d.clauses@[i], w);
                assert(i == 0);
                assert(spec_eval_lit(c.literals@[0], w));
            }
        }
    }
    d
}

/// The disjunction of two normal forms: their clauses side by side.
fn dnf_or(a: Dnf, b: Dnf) -> (d: Dnf)
    ensures
        forall|w: spec_fn(FilterV) -> bool| #[trigger]
            spec_eval_dnf(d, w) == (spec_eval_dnf(a, w) || spec_eval_dnf(b, w)),
{
    let ghost ga = a;
    let ghost gb = b;
    let mut clauses = a.clauses;
    let mut more = b.clauses;
    clauses.append(&mut more);
    let d = Dnf { clauses };
    proof {
        assert(d.clauses@ == ga.clauses@ + gb.clauses@);
        assert forall|w: spec_fn(FilterV) -> bool| #[trigger]
            spec_eval_dnf(d, w) == (spec_eval_dnf(ga, w) || spec_eval_dnf(gb, w)) by {
            lemma_eval_clauses_concat(ga.clauses@, gb.clauses@, w);
        }
    }
    d
}

/// The conjunction of two normal forms: every clause of one joined with
/// every clause of the other.
#[verifier::loop_isolation(false)]
fn dnf_and(a: &Dnf, b: &Dnf) -> (d: Dnf)
    ensures
        forall|w: spec_fn(FilterV) -> bool| #[trigger]
            spec_eval_dnf(d, w) == (spec_eval_dnf(*a, w) && spec_eval_dnf(*b, w)),
{
    let mut clauses: Vec<Clause> = Vec::new();
    let mut i: usize = 0;
    while i < a.clauses.len()
        invariant
            i <= a.clauses@.len(),
            forall|w: spec_fn(FilterV) -> bool| #[trigger]
                spec_eval_clauses(clauses@, w) == (spec_eval_clauses(
                    a.clauses@.subrange(0, i as int),
                    w,
                ) && spec_eval_dnf(*b, w)),
        decreases a.clauses@.len() - i,
    {
        let mut j: usize = 0;
        while j < b.clauses.len()
            invariant
                j <= b.clauses@.len(),
                i < a.clauses@.len(),
                forall|w: spec_fn(FilterV) -> bool| #[trigger]
                    spec_eval_clauses(clauses@, w) == ((spec_eval_clauses(
                        a.clauses@.subrange(0, i as int),
                        w,
                    ) && spec_eval_dnf(*b, w)) || (spec_eval_clause(a.clauses@[i as int], w)
                        && spec_eval_clauses(b.clauses@.subrange(0, j as int), w))),
            decreases b.clauses@.len() - j,
        {
            let ghost before = clauses@;
            let mut literals: Vec<Literal> = Vec::new();
            append_literals(&mut literals, &a.clauses[i].literals);
            let ghost na = a.clauses@[i as int].literals@.len() as int;
            let ghost first = literals@;
            append_literals(&mut literals, &b.clauses[j].literals);
            let joined = Clause { literals };
            let ghost c = joined;
            clauses.push(joined);
            proof {
                assert forall|w: spec_fn(FilterV) -> bool| #[trigger]
                    spec_eval_clause(c, w) == (spec_eval_clause(a.clauses@[i as int], w)
                        && spec_eval_clause(b.clauses@[j as int], w)) by {
                    lemma_eval_lits_split(c.literals@, na, w);
                    assert forall|t: int| 0 <= t < na implies spec_lit_equiv(
                        #[trigger] c.literals@.subrange(0, na)[t],
                        a.clauses@[i as int].literals@[t],
                    ) by {
                        assert(spec_lit_equiv(first[0 + t], a.clauses@[i as int].literals@[t]));
                        assert(c.literals@[t] == first[t]);
                        assert(c.literals@.subrange(0, na)[t] == c.literals@[t]);
                    }
                    assert forall|t: int|
                        0 <= t < b.clauses@[j as int].literals@.len() implies spec_lit_equiv(
                        #[trigger] c.literals@.subrange(na, c.literals@.len() as int)[t],
                        b.clauses@[j as int].literals@[t],
                    ) by {
                        assert(c.literals@.subrange(na, c.literals@.len() as int)[t]
                            == c.literals@[na + t]);
                    }
                    lemma_eval_lits_equiv(
                        c.literals@.subrange(0, na),
                        a.clauses@[i as int].literals@,
                        w,
                    );
                    lemma_eval_lits_equiv(
                        c.literals@.subrange(na, c.literals@.len() as int),
                        b.clauses@[j as int].literals@,
                        w,
                    );
                }
                assert(b.clauses@.subrange(0, j + 1) =~= b.clauses@.subrange(0, j as int).push(
                    b.clauses@[j as int],
                ));
                assert forall|w: spec_fn(FilterV) -> bool| #[trigger]
                    spec_eval_clauses(clauses@, w) == ((spec_eval_clauses(
                        a.clauses@.subrange(0, i as int),
                        w,
                    ) && spec_eval_dnf(*b, w)) || (spec_eval_clause(a.clauses@[i as int], w)
                        && spec_eval_clauses(b.clauses@.subrange(0, j + 1), w))) by {
                    lemma_eval_clauses_push(before, c, w);
                    lemma_eval_clauses_push(
                        b.clauses@.subrange(0, j as int),
                        b.clauses@[j as int],
                        w,
                    );
                }
            }
            j = j + 1;
        }
        proof {
            assert(b.clauses@.subrange(0, b.clauses@.len() as int) =~= b.clauses@);
            assert(a.clauses@.subrange(0, i + 1) =~= a.clauses@.subrange(0, i as int).push(
                a.clauses@[i as int],
            ));
            assert forall|w: spec_fn(FilterV) -> bool| #[trigger]
                spec_eval_clauses(clauses@, w) == (spec_eval_clauses(
                    a.clauses@.subrange(0, i + 1),
                    w,
                ) && spec_eval_dnf(*b, w)) by {
                lemma_eval_clauses_push(
                    a.clauses@.subrange(0, i as int),
                    a.clauses@[i as int],
                    w,
                );
            }
        }
        i = i + 1;
    }
    proof {
        assert(a.clauses@.subrange(0, a.clauses@.len() as int) =~= a.clauses@);
    }
    Dnf { clauses }
}

impl Expr {
    /// The or-of-ands canonical form of this expression, or of its
    /// negation: under every world the two evaluate alike.
    pub fn to_dnf(&self, positive: bool) -> (d: Dnf)
        ensures
            forall|w: spec_fn(FilterV) -> bool| #[trigger]
                spec_eval_dnf(d, w) == (if positive {
                    spec_eval_expr(*self, w)
                } else {
                    !spec_eval_expr(*self, w)
                }),
        decreases *self,
    {
        match self {
            Expr::Atom(f) => {
                let atom = f.duplicate();
                let ghost ga = atom;
                let d = dnf_atom(atom, positive);
                proof {
                    assert forall|w: spec_fn(FilterV) -> bool| #[trigger]
                        spec_eval_dnf(d, w) == (if positive {
                            spec_eval_expr(*self, w)
                        } else {
                            !spec_eval_expr(*self, w)
                        }) by {
                        assert(spec_eval_dnf(d, w) == spec_eval_lit(
                            Literal { atom: ga, positive },
                            w,
                        ));
                        assert(ga@ == f@);
                    }
                }
                d
            },
            Expr::Not(x) => {
                let d = x.to_dnf(!positive);
                proof {
                    assert forall|w: spec_fn(FilterV) -> bool| #[trigger]
                        spec_eval_dnf(d, w) == (if positive {
                            spec_eval_expr(*self, w)
                        } else {
                            !spec_eval_expr(*self, w)
                        }) by {
                        assert(spec_eval_dnf(d, w) == (if !positive {
                            spec_eval_expr(**x, w)
                        } else {
                            !spec_eval_expr(**x, w)
                        }));
                    }
                }
                d
            },
            Expr::And(x, y) => {
                if positive {
                    let dx = x.to_dnf(true);
                    let dy = y.to_dnf(true);
                    let d = dnf_and(&dx, &dy);
                    proof {
                        assert forall|w: spec_fn(FilterV) -> bool| #[trigger]
                            spec_eval_dnf(d, w) == spec_eval_expr(*self, w) by {
                            assert(spec_eval_dnf(d, w) == (spec_eval_dnf(dx, w) && spec_eval_dnf(
                                dy,
                                w,
                            )));
                        }
                    }
                    d
                } else {
                    let dx = x.to_dnf(false);
                    let dy = y.to_dnf(false);
                    let d = dnf_or(dx, dy);
                    proof {
                        assert forall|w: spec_fn(FilterV) -> bool| #[trigger]
                            spec_eval_dnf(d, w) == !spec_eval_expr(*self, w) by {
                            assert(spec_eval_dnf(d, w) == (spec_eval_dnf(dx, w) || spec_eval_dnf(
                                dy,
                                w,
                            )));
                        }
                    }
                    d
                }
            },
            Expr::Or(x, y) => {
                if positive {
                    let dx = x.to_dnf(true);
                    let dy = y.to_dnf(true);
                    let d = dnf_or(dx, dy);
                    proof {
                        assert forall|w: spec_fn(FilterV) -> bool| #[trigger]
                            spec_eval_dnf(d, w) == spec_eval_expr(*self, w) by {
                            assert(spec_eval_dnf(d, w) == (spec_eval_dnf(dx, w) || spec_eval_dnf(
                                dy,
                                w,
                            )));
                        }
                    }
                    d
                } else {
                    let dx = x.to_dnf(false);
                    let dy = y.to_dnf(false);
                    let d = dnf_and(&dx, &dy);
                    proof {
                        assert forall|w: spec_fn(FilterV) -> bool| #[trigger]
                            spec_eval_dnf(d, w) == !spec_eval_expr(*self, w) by {
                            assert(spec_eval_dnf(d, w) == (spec_eval_dnf(dx, w) && spec_eval_dnf(
                                dy,
                                w,
                            )));
                        }
                    }
                    d
                }
            },
        }
    }
}

/// The three-valued value of a literal given what is known of its atom:
/// unknown while the atom is unknown, else the literal's polarity applied.
pub open spec fn spec_kleene_lit(l: Literal, t: Option<bool>) -> Option<bool> {
    match t {
        Some(v) => Some(
            if l.positive {
                v
            } else {
                !v
            },
        ),
        None => None,
    }
}

/// The three-valued value of a conjunction: false as soon as one literal
/// is known false, true once all are known true, else unknown.
pub open spec fn spec_kleene_lits(ls: Seq<Literal>, ts: Seq<Option<bool>>) -> Option<bool> {
    if exists|i: int| 0 <= i < ls.len() && #[trigger] spec_kleene_lit(ls[i], ts[i]) == Some(false) {
        Some(false)
    } else if forall|i: int|
        0 <= i < ls.len() ==> #[trigger] spec_kleene_lit(ls[i], ts[i]) == Some(true) {
        Some(true)
    } else {
        None
    }
}

/// The three-valued value of a clause under the truth row `ts`.
pub open spec fn spec_kleene_clause(c: Clause, ts: Seq<Option<bool>>) -> Option<bool> {
    spec_kleene_lits(c.literals@, ts)
}

/// The three-valued value of a disjunction: true as soon as one clause is
/// known true, false once all are known false, else unknown.
pub open spec fn spec_kleene_clauses(cs: Seq<Clause>, tss: Seq<Seq<Option<bool>>>) -> Option<
    bool,
> {
    if exists|i: int|
        0 <= i < cs.len() && #[trigger] spec_kleene_clause(cs[i], tss[i]) == Some(true) {
        Some(true)
    } else if forall|i: int|
        0 <= i < cs.len() ==> #[trigger] spec_kleene_clause(cs[i], tss[i]) == Some(false) {
        Some(false)
    } else {
        None
    }
}

/// The three-valued value of a clause, computed.
#[verifier::loop_isolation(false)]
fn kleene_clause(c: &Clause, ts: &Vec<Option<bool>>) -> (r: Option<bool>)
    requires
        ts@.len() == c.literals@.len(),
    ensures
        r == spec_kleene_clause(*c, ts@),
{
    let mut any_false = false;
    let mut all_true = true;
    let mut i: usize = 0;
    while i < c.literals.len()
        invariant
            i <= c.literals@.len(),
            any_false == exists|t: int|
                0 <= t < i && #[trigger] spec_kleene_lit(c.literals@[t], ts@[t]) == Some(false),
            all_true == forall|t: int|
                0 <= t < i ==> #[trigger] spec_kleene_lit(c.literals@[t], ts@[t]) == Some(true),
        decreases c.literals@.len() - i,
    {
        match ts[i] {
            Some(v) => {
                let value = if c.literals[i].positive {
                    v
                } else {
                    !v
                };
                if !value {
                    any_false = true;
                    all_true = false;
                    proof {
                        assert(spec_kleene_lit(c.literals@[i as int], ts@[i as int]) == Some(
                            false,
                        ));
                    }
                } else {
                    proof {
                        assert(spec_kleene_lit(c.literals@[i as int], ts@[i as int]) == Some(
                            true,
                        ));
                    }
                }
            },
            None => {
                all_true = false;
                proof {
                    assert(spec_kleene_lit(c.literals@[i as int], ts@[i as int]) is None);
                }
            },
        }
        i = i + 1;
    }
    if any_false {
        Some(false)
    } else if all_true {
        Some(true)
    } else {
        None
    }
}

/// The truth rows of a table, one row of known atom values per clause.
pub open spec fn spec_rows(truth: Seq<Vec<Option<bool>>>) -> Seq<Seq<Option<bool>>> {
    truth.map_values(|row: Vec<Option<bool>>| row@)
}

/// The three-valued value of a normal form, computed.
#[verifier::loop_isolation(false)]
fn kleene_evaluate(dnf: &Dnf, truth: &Vec<Vec<Option<bool>>>) -> (r: Option<bool>)
    requires
        truth@.len() == dnf.clauses@.len(),
        forall|i: int|
            0 <= i < truth@.len() ==> (#[trigger] truth@[i])@.len()
                == dnf.clauses@[i].literals@.len(),
    ensures
        r == spec_kleene_clauses(dnf.clauses@, spec_rows(truth@)),
{
    let mut any_true = false;
    let mut all_false = true;
    let mut i: usize = 0;
    while i < dnf.clauses.len()
        invariant
            i <= dnf.clauses@.len(),
            any_true == exists|t: int|
                0 <= t < i && #[trigger] spec_kleene_clause(dnf.clauses@[t], spec_rows(truth@)[t])
                    == Some(true),
            all_false == forall|t: int|
                0 <= t < i ==> #[trigger] spec_kleene_clause(dnf.clauses@[t], spec_rows(truth@)[t])
                    == Some(false),
        decreases dnf.clauses@.len() - i,
    {
        let value = kleene_clause(&dnf.clauses[i], &truth[i]);
        proof {
            assert(spec_rows(truth@)[i as int] == truth@[i as int]@);
        }
        match value {
            Some(true) => {
                any_true = true;
                all_false = false;
            },
            Some(false) => {},
            _ => {
                all_false = false;
            },
        }
        i = i + 1;
    }
    if any_true {
        Some(true)
    } else if all_false {
        Some(false)
    } else {
        None
    }
}

/// Continuous three-valued evaluation of a normal form: per-atom truth
/// values arrive in pushes, and the first decided value latches.
#[derive(Debug)]
pub struct ContinuousEvaluation {
    dnf: Dnf,
    truth: Vec<Vec<Option<bool>>>,
    decided: Option<bool>,
}

impl ContinuousEvaluation {
    /// The normal form being evaluated.
    pub closed spec fn spec_dnf(self) -> Dnf {
        self.dnf
    }

    /// The known truth value of each literal's atom, by clause and
    /// position.
    pub closed spec fn spec_truth(self) -> Seq<Seq<Option<bool>>> {
        spec_rows(self.truth@)
    }

    /// The latched decision, if the expression is already decided.
    pub closed spec fn spec_decision(self) -> Option<bool> {
        self.decided
    }

    /// The truth table has one entry per literal.
    pub open spec fn spec_shape_ok(self) -> bool {
        &&& self.spec_truth().len() == self.spec_dnf().clauses@.len()
        &&& forall|i: int|
            0 <= i < self.spec_truth().len() ==> (#[trigger] self.spec_truth()[i]).len()
                == self.spec_dnf().clauses@[i].literals@.len()
    }

    /// The table is well shaped and the latched decision is exactly the
    /// three-valued value of the expression under the table.
    pub open spec fn spec_wf(self) -> bool {
        &&& self.spec_shape_ok()
        &&& self.spec_decision() == spec_kleene_clauses(
            self.spec_dnf().clauses@,
            self.spec_truth(),
        )
    }

    /// Every known entry of the table agrees with the world `w`.
    pub open spec fn spec_consistent_with(self, w: spec_fn(FilterV) -> bool) -> bool {
        forall|i: int, j: int|
            0 <= i < self.spec_dnf().clauses@.len() && 0 <= j
                < self.spec_dnf().clauses@[i].literals@.len() ==> ((#[trigger] self.spec_truth(
            )[i][j]) matches Some(v) ==> v == w(self.spec_dnf().clauses@[i].literals@[j].atom@))
    }

    /// Every atom's truth value is known.
    pub open spec fn spec_fully_specified(self) -> bool {
        forall|i: int, j: int|
            0 <= i < self.spec_dnf().clauses@.len() && 0 <= j
                < self.spec_dnf().clauses@[i].literals@.len() ==> (#[trigger] self.spec_truth(
            )[i][j]) is Some
    }

    /// Begins evaluating `dnf` with every atom unknown.
    pub fn new(dnf: Dnf) -> (r: ContinuousEvaluation)
        ensures
            r.spec_wf(),
            r.spec_dnf() == dnf,
            forall|i: int, j: int|
                0 <= i < dnf.clauses@.len() && 0 <= j < dnf.clauses@[i].literals@.len() ==> (
                #[trigger] r.spec_truth()[i][j]) is None,
    {
        let mut truth: Vec<Vec<Option<bool>>> = Vec::new();
        let mut i: usize = 0;
        #[verifier::loop_isolation(false)]
        while i < dnf.clauses.len()
            invariant
                i <= dnf.clauses@.len(),
                truth@.len() == i,
                forall|t: int|
                    0 <= t < i ==> (#[trigger] truth@[t])@.len()
                        == dnf.clauses@[t].literals@.len(),
                forall|t: int, u: int|
                    0 <= t < i && 0 <= u < truth@[t]@.len() ==> (#[trigger] truth@[t]@[u]) is None,
            decreases dnf.clauses@.len() - i,
        {
            let mut row: Vec<Option<bool>> = Vec::new();
            let mut j: usize = 0;
            #[verifier::loop_isolation(false)]
            while j < dnf.clauses[i].literals.len()
                invariant
                    i < dnf.clauses@.len(),
                    j <= dnf.clauses@[i as int].literals@.len(),
                    row@.len() == j,
                    forall|u: int| 0 <= u < j ==> (#[trigger] row@[u]) is None,
                decreases dnf.clauses@[i as int].literals@.len() - j,
            {
                row.push(None);
                j = j + 1;
            }
            truth.push(row);
            i = i + 1;
        }
        let decided = kleene_evaluate(&dnf, &truth);
        ContinuousEvaluation { dnf, truth, decided }
    }

    /// The latched decision, if any.
    pub fn get(&self) -> (r: Option<bool>)
        ensures
            r == self.spec_decision(),
    {
        self.decided
    }
}


/// How one table cell may change under a push: untouched when no
/// assignment names its atom, else set by the last assignment that does.
pub open spec fn spec_cell_updated(
    atom: Filter,
    prior: Option<bool>,
    now: Option<bool>,
    asg: Seq<(Filter, bool)>,
) -> bool {
    &&& ((forall|k: int| 0 <= k < asg.len() ==> (#[trigger] asg[k]).0@ != atom@) ==> now == prior)
    &&& ((exists|k: int| 0 <= k < asg.len() && (#[trigger] asg[k]).0@ == atom@) ==> (exists|k: int|
        0 <= k < asg.len() && (#[trigger] asg[k]).0@ == atom@ && now == Some(asg[k].1) && (forall|
            k2: int,
        | k < k2 < asg.len() ==> asg[k2].0@ != atom@)))
}

/// One cell of the table after a push, relative to before it.
pub open spec fn spec_cell_pushed(
    pre: ContinuousEvaluation,
    post: ContinuousEvaluation,
    asg: Seq<(Filter, bool)>,
    i: int,
    j: int,
) -> bool {
    spec_cell_updated(
        pre.spec_dnf().clauses@[i].literals@[j].atom,
        pre.spec_truth()[i][j],
        post.spec_truth()[i][j],
        asg,
    )
}

/// The whole table after a push, relative to before it.
pub open spec fn spec_pushed(
    pre: ContinuousEvaluation,
    post: ContinuousEvaluation,
    asg: Seq<(Filter, bool)>,
) -> bool {
    &&& post.spec_dnf() == pre.spec_dnf()
    &&& post.spec_shape_ok()
    &&& forall|i: int, j: int|
        0 <= i < pre.spec_dnf().clauses@.len() && 0 <= j
            < pre.spec_dnf().clauses@[i].literals@.len() ==> #[trigger] spec_cell_pushed(
            pre,
            post,
            asg,
            i,
            j,
        )
}

/// The truth value one cell holds after the assignments are applied in
/// order: the last assignment that names the atom wins.
fn scan_cell(atom: &Filter, prior: Option<bool>, assignments: &Vec<(Filter, bool)>) -> (r: Option<
    bool,
>)
    ensures
        spec_cell_updated(*atom, prior, r, assignments@),
{
    let mut val = prior;
    let mut k: usize = 0;
    #[verifier::loop_isolation(false)]
    while k < assignments.len()
        invariant
            k <= assignments@.len(),
            ((forall|t: int| 0 <= t < k ==> (#[trigger] assignments@[t]).0@ != atom@) && val
                == prior) || (exists|t: int|
                0 <= t < k && (#[trigger] assignments@[t]).0@ == atom@ && val == Some(
                    assignments@[t].1,
                ) && (forall|t2: int| t < t2 < k ==> assignments@[t2].0@ != atom@)),
        decreases assignments@.len() - k,
    {
        if assignments[k].0.eq(atom) {
            val = Some(assignments[k].1);
            proof {
                assert((assignments@[k as int]).0@ == atom@);
            }
        }
        k = k + 1;
    }
    val
}

impl ContinuousEvaluation {
    /// Applies a batch of atom assignments and reports the decision. A
    /// decided evaluator is latched: the push changes nothing. Otherwise
    /// every literal whose atom an assignment names takes that value, and
    /// the decision becomes the three-valued value of the updated table.
    pub fn push(&mut self, assignments: &Vec<(Filter, bool)>) -> (r: Option<bool>)
        requires
            old(self).spec_wf(),
        ensures
            final(self).spec_wf(),
            final(self).spec_dnf() == old(self).spec_dnf(),
            r == final(self).spec_decision(),
            old(self).spec_decision() is Some ==> *final(self) == *old(self),
            old(self).spec_decision() is None ==> spec_pushed(
                *old(self),
                *final(self),
                assignments@,
            ),
    {
        match self.decided {
            Some(b) => {
                return Some(b);
            },
            None => {},
        }
        let mut new_truth: Vec<Vec<Option<bool>>> = Vec::new();
        let mut i: usize = 0;
        #[verifier::loop_isolation(false)]
        while i < self.dnf.clauses.len()
            invariant
                *self == *old(self),
                i <= self.dnf.clauses@.len(),
                new_truth@.len() == i,
                forall|t: int|
                    0 <= t < i ==> (#[trigger] new_truth@[t])@.len()
                        == self.dnf.clauses@[t].literals@.len(),
                forall|t: int, u: int|
                    0 <= t < i && 0 <= u < self.dnf.clauses@[t].literals@.len()
                        ==> #[trigger] spec_cell_updated(
                        self.dnf.clauses@[t].literals@[u].atom,
                        self.spec_truth()[t][u],
                        new_truth@[t]@[u],
                        assignments@,
                    ),
            decreases self.dnf.clauses@.len() - i,
        {
            let mut new_row: Vec<Option<bool>> = Vec::new();
            let mut j: usize = 0;
            #[verifier::loop_isolation(false)]
            while j < self.dnf.clauses[i].literals.len()
                invariant
                    *self == *old(self),
                    i < self.dnf.clauses@.len(),
                    j <= self.dnf.clauses@[i as int].literals@.len(),
                    new_row@.len() == j,
                    forall|u: int|
                        0 <= u < j ==> #[trigger] spec_cell_updated(
                            self.dnf.clauses@[i as int].literals@[u].atom,
                            self.spec_truth()[i as int][u],
                            new_row@[u],
                            assignments@,
                        ),
                decreases self.dnf.clauses@[i as int].literals@.len() - j,
            {
                proof {
                    assert(self.spec_truth().len() == self.truth@.len());
                    assert(self.spec_truth()[i as int] == self.truth@[i as int]@);
                }
                let prior = self.truth[i][j];
                let val = scan_cell(&self.dnf.clauses[i].literals[j].atom, prior, assignments);
                new_row.push(val);
                j = j + 1;
            }
            new_truth.push(new_row);
            i = i + 1;
        }
        self.truth = new_truth;
        let decided = kleene_evaluate(&self.dnf, &self.truth);
        self.decided = decided;
        proof {
            assert(final(self).spec_truth() == spec_rows(new_truth@));
            assert forall|t: int, u: int|
                0 <= t < old(self).spec_dnf().clauses@.len() && 0 <= u < old(
                    self,
                ).spec_dnf().clauses@[t].literals@.len() implies #[trigger] spec_cell_pushed(
                *old(self),
                *final(self),
                assignments@,
                t,
                u,
            ) by {
                assert(final(self).spec_truth()[t] == new_truth@[t]@);
                assert(spec_cell_updated(
                    old(self).spec_dnf().clauses@[t].literals@[u].atom,
                    old(self).spec_truth()[t][u],
                    new_truth@[t]@[u],
                    assignments@,
                ));
            }
        }
        decided
    }
}

/// Three-valued soundness and completeness for one conjunction: a decided
/// value agrees with the two-valued evaluation wherever the known entries
/// agree with the world, and a fully known row always decides.
proof fn lemma_kleene_lits_agree(ls: Seq<Literal>, ts: Seq<Option<bool>>, w: spec_fn(FilterV) -> bool)
    requires
        ts.len() == ls.len(),
        forall|i: int|
            0 <= i < ls.len() ==> ((#[trigger] ts[i]) matches Some(v) ==> v == w(ls[i].atom@)),
    ensures
        spec_kleene_lits(ls, ts) matches Some(b) ==> b == spec_eval_lits(ls, w),
        (forall|i: int| 0 <= i < ls.len() ==> (#[trigger] ts[i]) is Some) ==> spec_kleene_lits(
            ls,
            ts,
        ) is Some,
{
    if spec_kleene_lits(ls, ts) == Some(false) {
        let i = choose|i: int|
            0 <= i < ls.len() && #[trigger] spec_kleene_lit(ls[i], ts[i]) == Some(false);
        assert(ts[i] matches Some(v) && v == w(ls[i].atom@));
        assert(!spec_eval_lit(ls[i], w));
        assert(!spec_eval_lits(ls, w));
    }
    if spec_kleene_lits(ls, ts) == Some(true) {
        assert forall|i: int| 0 <= i < ls.len() implies spec_eval_lit(#[trigger] ls[i], w) by {
            assert(spec_kleene_lit(ls[i], ts[i]) == Some(true));
            assert(ts[i] matches Some(v) && v == w(ls[i].atom@));
        }
    }
    if (forall|i: int| 0 <= i < ls.len() ==> (#[trigger] ts[i]) is Some) && spec_kleene_lits(
        ls,
        ts,
    ) is None {
        assert forall|i: int| 0 <= i < ls.len() implies #[trigger] spec_kleene_lit(ls[i], ts[i])
            == Some(true) by {
            assert(ts[i] is Some);
            assert(spec_kleene_lit(ls[i], ts[i]) is Some);
            if spec_kleene_lit(ls[i], ts[i]) == Some(false) {
                assert(spec_kleene_lits(ls, ts) == Some(false));
            }
        }
        assert(spec_kleene_lits(ls, ts) == Some(true));
    }
}

/// Three-valued soundness and completeness for the whole normal form.
proof fn lemma_kleene_clauses_agree(
    cs: Seq<Clause>,
    tss: Seq<Seq<Option<bool>>>,
    w: spec_fn(FilterV) -> bool,
)
    requires
        tss.len() == cs.len(),
        forall|i: int| 0 <= i < cs.len() ==> (#[trigger] tss[i]).len() == cs[i].literals@.len(),
        forall|i: int, j: int|
            0 <= i < cs.len() && 0 <= j < cs[i].literals@.len() ==> ((#[trigger] tss[i][j]) matches
                Some(v) ==> v == w(cs[i].literals@[j].atom@)),
    ensures
        spec_kleene_clauses(cs, tss) matches Some(b) ==> b == spec_eval_clauses(cs, w),
        (forall|i: int, j: int|
            0 <= i < cs.len() && 0 <= j < cs[i].literals@.len() ==> (#[trigger] tss[i][j])
                is Some) ==> spec_kleene_clauses(cs, tss) is Some,
{
    assert forall|i: int| 0 <= i < cs.len() implies ((#[trigger] spec_kleene_clause(cs[i], tss[i]))
        matches Some(b) ==> b == spec_eval_clause(cs[i], w)) by {
        assert forall|j: int|
            0 <= j < cs[i].literals@.len() implies ((#[trigger] tss[i][j]) matches Some(v) ==> v
            == w(cs[i].literals@[j].atom@)) by {}
        lemma_kleene_lits_agree(cs[i].literals@, tss[i], w);
    }
    if spec_kleene_clauses(cs, tss) == Some(true) {
        let i = choose|i: int|
            0 <= i < cs.len() && #[trigger] spec_kleene_clause(cs[i], tss[i]) == Some(true);
        assert(spec_eval_clause(cs[i], w));
        assert(spec_eval_clauses(cs, w));
    }
    if spec_kleene_clauses(cs, tss) == Some(false) {
        assert forall|i: int| 0 <= i < cs.len() implies !spec_eval_clause(#[trigger] cs[i], w) by {
            assert(spec_kleene_clause(cs[i], tss[i]) == Some(false));
        }
        if spec_eval_clauses(cs, w) {
            let i = choose|i: int| 0 <= i < cs.len() && spec_eval_clause(#[trigger] cs[i], w);
            assert(false);
        }
    }
    if (forall|i: int, j: int|
        0 <= i < cs.len() && 0 <= j < cs[i].literals@.len() ==> (#[trigger] tss[i][j]) is Some)
        && spec_kleene_clauses(cs, tss) is None {
        assert forall|i: int| 0 <= i < cs.len() implies #[trigger] spec_kleene_clause(
            cs[i],
            tss[i],
        ) == Some(false) by {
            assert forall|j: int| 0 <= j < cs[i].literals@.len() implies (#[trigger] tss[i][j])
                is Some by {}
            lemma_kleene_lits_agree(cs[i].literals@, tss[i], w);
            assert(spec_kleene_clause(cs[i], tss[i]) is Some);
            if spec_kleene_clause(cs[i], tss[i]) == Some(true) {
                assert(spec_kleene_clauses(cs, tss) == Some(true));
            }
        }
        assert(spec_kleene_clauses(cs, tss) == Some(false));
    }
}

/// A latched decision is sound: wherever the known atom values agree with
/// the world `w`, a decided evaluator has decided exactly the two-valued
/// evaluation of its expression in `w`.
pub proof fn lemma_decision_sound(ev: ContinuousEvaluation, w: spec_fn(FilterV) -> bool)
    requires
        ev.spec_wf(),
        ev.spec_consistent_with(w),
        ev.spec_decision() is Some,
    ensures
        ev.spec_decision() == Some(spec_eval_dnf(ev.spec_dnf(), w)),
{
    lemma_kleene_clauses_agree(ev.spec_dnf().clauses@, ev.spec_truth(), w);
}

/// A fully specified evaluator has decided: once every atom's truth value
/// is known and agrees with the world `w`, the decision is exactly the
/// two-valued evaluation of the expression in `w`.
pub proof fn lemma_fully_specified_decides(ev: ContinuousEvaluation, w: spec_fn(FilterV) -> bool)
    requires
        ev.spec_wf(),
        ev.spec_consistent_with(w),
        ev.spec_fully_specified(),
    ensures
        ev.spec_decision() == Some(spec_eval_dnf(ev.spec_dnf(), w)),
{
    lemma_kleene_clauses_agree(ev.spec_dnf().clauses@, ev.spec_truth(), w);
}

/// Pushing assignments that agree with the world `w` keeps the evaluator
/// consistent with `w`.
pub proof fn lemma_push_preserves_consistency(
    pre: ContinuousEvaluation,
    post: ContinuousEvaluation,
    asg: Seq<(Filter, bool)>,
    w: spec_fn(FilterV) -> bool,
)
    requires
        pre.spec_shape_ok(),
        pre.spec_consistent_with(w),
        spec_pushed(pre, post, asg),
        forall|k: int| 0 <= k < asg.len() ==> (#[trigger] asg[k]).1 == w(asg[k].0@),
    ensures
        post.spec_consistent_with(w),
{
    assert forall|i: int, j: int|
        0 <= i < post.spec_dnf().clauses@.len() && 0 <= j
            < post.spec_dnf().clauses@[i].literals@.len() implies ((#[trigger] post.spec_truth(
    )[i][j]) matches Some(v) ==> v == w(post.spec_dnf().clauses@[i].literals@[j].atom@)) by {
        assert(spec_cell_pushed(pre, post, asg, i, j));
        let atom = pre.spec_dnf().clauses@[i].literals@[j].atom;
        if post.spec_truth()[i][j] is Some {
            if exists|k: int| 0 <= k < asg.len() && (#[trigger] asg[k]).0@ == atom@ {
                let k = choose|k: int|
                    0 <= k < asg.len() && (#[trigger] asg[k]).0@ == atom@ && post.spec_truth(
                    )[i][j] == Some(asg[k].1) && (forall|k2: int|
                        k < k2 < asg.len() ==> asg[k2].0@ != atom@);
                assert(asg[k].1 == w(asg[k].0@));
            } else {
                assert(post.spec_truth()[i][j] == pre.spec_truth()[i][j]);
            }
        }
    }
}

} // verus!
