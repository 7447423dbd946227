//! The decision procedure: a terminating sequent-calculus search deciding
//! whether a sequent is provable in classical propositional logic.  It is a
//! diagnostic oracle, independent of the interactive proof tree, and
//! produces no proof object.

use vstd::prelude::*;

use vstd::arithmetic::power::pow;
use vstd::arithmetic::power::lemma_pow_positive;
use vstd::arithmetic::power::lemma_pow_strictly_increases;

use crate::formula::Formula;
use crate::formula::formula_wf;
use crate::formula::formula_fields;
use crate::formula::formula_eq;
use crate::rules::op0;
use crate::formula::OperatorType;
use crate::sequent::Sequent;
use crate::sequent::clone_formulas;
use crate::sequent::formulas_wf;
use crate::sequent::sequent_complete;
use crate::sequent::sequent_wf;

verus! {

/// A search item: a sequent whose two sides are each split into formulas
/// still to decompose and atoms already decomposed.
pub struct SequentCalc {
    pub before: Vec<Formula>,
    pub before_var: Vec<Formula>,
    pub after: Vec<Formula>,
    pub after_var: Vec<Formula>,
}

/// The four formula lists of a search item, as sequences: undecomposed
/// antecedents, antecedent atoms, undecomposed consequents, consequent
/// atoms.
pub open spec fn calc_view(s: SequentCalc) -> (
    Seq<Formula>,
    Seq<Formula>,
    Seq<Formula>,
    Seq<Formula>,
) {
    (s.before@, s.before_var@, s.after@, s.after_var@)
}

pub open spec fn sc_wf(s: SequentCalc) -> bool {
    formulas_wf(s.before@) && formulas_wf(s.before_var@) && formulas_wf(s.after@) && formulas_wf(
        s.after_var@,
    )
}

impl Clone for SequentCalc {
    /// Deep copy that preserves all four lists.
    fn clone(&self) -> (res: Self)
        ensures
            calc_view(res) == calc_view(*self),
    {
        SequentCalc {
            before: clone_formulas(&self.before),
            before_var: clone_formulas(&self.before_var),
            after: clone_formulas(&self.after),
            after_var: clone_formulas(&self.after_var),
        }
    }
}

/// Number of nodes of a formula; decompositions strictly shrink it.
pub open spec fn fsize(f: Formula) -> nat
    decreases f,
{
    match f {
        Formula::Operator(op) => 1 + opt_fsize(op.arg1) + opt_fsize(op.arg2),
        Formula::Variable(_) => 1,
        Formula::NotCompleted(_) => 1,
    }
}

pub open spec fn opt_fsize(o: Option<Box<Formula>>) -> nat
    decreases o,
{
    match o {
        Option::Some(b) => fsize(*b),
        Option::None => 0,
    }
}

pub open spec fn fsizes(fs: Seq<Formula>) -> nat
    decreases fs.len(),
{
    if fs.len() == 0 {
        0
    } else {
        fsize(fs[0]) + fsizes(fs.drop_first())
    }
}

pub proof fn lemma_fsizes_push(fs: Seq<Formula>, f: Formula)
    ensures
        fsizes(fs.push(f)) == fsizes(fs) + fsize(f),
    decreases fs.len(),
{
    reveal_with_fuel(fsizes, 3);
    assert(fs.push(f)[0] == if fs.len() == 0 {
        f
    } else {
        fs[0]
    });
    if fs.len() == 0 {
        assert(fs.push(f).drop_first() =~= Seq::<Formula>::empty());
    } else {
        assert(fs.push(f).drop_first() =~= fs.drop_first().push(f));
        lemma_fsizes_push(fs.drop_first(), f);
    }
}

pub proof fn lemma_fsizes_drop_last(fs: Seq<Formula>)
    requires
        fs.len() > 0,
    ensures
        fsizes(fs) == fsizes(fs.drop_last()) + fsize(fs.last()),
{
    lemma_fsizes_push(fs.drop_last(), fs.last());
    assert(fs.drop_last().push(fs.last()) =~= fs);
}

/// Total size of the formulas still to decompose in one item.
pub open spec fn item_size(v: (Seq<Formula>, Seq<Formula>, Seq<Formula>, Seq<Formula>)) -> nat {
    fsizes(v.0) + fsizes(v.2)
}

/// A search item is closed (its branch is proved) when `⊥` stands on the
/// left, `⊤` stands on the right, or some formula stands on both sides.
pub open spec fn calc_closed(v: (Seq<Formula>, Seq<Formula>, Seq<Formula>, Seq<Formula>)) -> bool {
    ||| v.0.contains(op0(OperatorType::Bottom))
    ||| v.1.contains(op0(OperatorType::Bottom))
    ||| v.2.contains(op0(OperatorType::Top))
    ||| v.3.contains(op0(OperatorType::Top))
    ||| exists|f: Formula|
        #![trigger v.0.contains(f)]
        #![trigger v.1.contains(f)]
        (v.0.contains(f) || v.1.contains(f)) && (v.2.contains(f) || v.3.contains(f))
}

/// Provability of one search item, by structural recursion on the sequent
/// calculus: a closed item is proved; otherwise the last undecomposed
/// antecedent (then consequent) is decomposed by its connective's rule; an
/// item with nothing left to decompose is a counter-model.  An item holding
/// an unfilled placeholder is discarded as proved, as the interactive
/// engine never feeds the oracle incomplete formulas.
pub open spec fn calc_provable(v: (Seq<Formula>, Seq<Formula>, Seq<Formula>, Seq<Formula>)) -> bool
    decreases item_size(v),
    via calc_provable_decreases
{
    if calc_closed(v) {
        true
    } else if v.0.len() > 0 {
        let f = v.0.last();
        let rest = v.0.drop_last();
        match f {
            Formula::Operator(op) => match op.operator_type {
                OperatorType::Not => match op.arg1 {
                    Option::Some(a) => calc_provable((rest, v.1, v.2.push(*a), v.3)),
                    Option::None => true,
                },
                OperatorType::Impl => match (op.arg1, op.arg2) {
                    (Option::Some(a), Option::Some(b)) => calc_provable(
                        (rest, v.1, v.2.push(*a), v.3),
                    ) && calc_provable((rest.push(*b), v.1, v.2, v.3)),
                    _ => true,
                },
                OperatorType::And => match (op.arg1, op.arg2) {
                    (Option::Some(a), Option::Some(b)) => calc_provable(
                        (rest.push(*a).push(*b), v.1, v.2, v.3),
                    ),
                    _ => true,
                },
                OperatorType::Or => match (op.arg1, op.arg2) {
                    (Option::Some(a), Option::Some(b)) => calc_provable(
                        (rest.push(*a), v.1, v.2, v.3),
                    ) && calc_provable((rest.push(*b), v.1, v.2, v.3)),
                    _ => true,
                },
                OperatorType::Top => calc_provable((rest, v.1.push(f), v.2, v.3)),
                OperatorType::Bottom => calc_provable((rest, v.1.push(f), v.2, v.3)),
            },
            Formula::Variable(_) => calc_provable((rest, v.1.push(f), v.2, v.3)),
            Formula::NotCompleted(_) => true,
        }
    } else if v.2.len() > 0 {
        let f = v.2.last();
        let rest = v.2.drop_last();
        match f {
            Formula::Operator(op) => match op.operator_type {
                OperatorType::Not => match op.arg1 {
                    Option::Some(a) => calc_provable((v.0.push(*a), v.1, rest, v.3)),
                    Option::None => true,
                },
                OperatorType::Impl => match (op.arg1, op.arg2) {
                    (Option::Some(a), Option::Some(b)) => calc_provable(
                        (v.0.push(*a), v.1, rest.push(*b), v.3),
                    ),
                    _ => true,
                },
                OperatorType::And => match (op.arg1, op.arg2) {
                    (Option::Some(a), Option::Some(b)) => calc_provable(
                        (v.0, v.1, rest.push(*a), v.3),
                    ) && calc_provable((v.0, v.1, rest.push(*b), v.3)),
                    _ => true,
                },
                OperatorType::Or => match (op.arg1, op.arg2) {
                    (Option::Some(a), Option::Some(b)) => calc_provable(
                        (v.0, v.1, rest.push(*a).push(*b), v.3),
                    ),
                    _ => true,
                },
                OperatorType::Top => calc_provable((v.0, v.1, rest, v.3.push(f))),
                OperatorType::Bottom => calc_provable((v.0, v.1, rest, v.3.push(f))),
            },
            Formula::Variable(_) => calc_provable((v.0, v.1, rest, v.3.push(f))),
            Formula::NotCompleted(_) => true,
        }
    } else {
        false
    }
}

#[via_fn]
proof fn calc_provable_decreases(v: (Seq<Formula>, Seq<Formula>, Seq<Formula>, Seq<Formula>)) {
    if !calc_closed(v) {
        if v.0.len() > 0 {
            let f = v.0.last();
            let rest = v.0.drop_last();
            lemma_fsizes_drop_last(v.0);
            match f {
                Formula::Operator(op) => {
                    match op.arg1 {
                        Option::Some(a) => {
                            lemma_fsizes_push(v.2, *a);
                            lemma_fsizes_push(rest, *a);
                            match op.arg2 {
                                Option::Some(b) => {
                                    lemma_fsizes_push(rest, *b);
                                    lemma_fsizes_push(rest.push(*a), *b);
                                },
                                Option::None => {},
                            }
                        },
                        Option::None => {},
                    }
                    lemma_fsizes_push(v.1, f);
                },
                _ => {
                    lemma_fsizes_push(v.1, f);
                },
            }
        } else if v.2.len() > 0 {
            let f = v.2.last();
            let rest = v.2.drop_last();
            lemma_fsizes_drop_last(v.2);
            match f {
                Formula::Operator(op) => {
                    match op.arg1 {
                        Option::Some(a) => {
                            lemma_fsizes_push(v.0, *a);
                            lemma_fsizes_push(rest, *a);
                            match op.arg2 {
                                Option::Some(b) => {
                                    lemma_fsizes_push(rest, *b);
                                    lemma_fsizes_push(rest.push(*a), *b);
                                },
                                Option::None => {},
                            }
                        },
                        Option::None => {},
                    }
                    lemma_fsizes_push(v.3, f);
                },
                _ => {
                    lemma_fsizes_push(v.3, f);
                },
            }
        }
    }
}

/// Provability of a plain sequent: nothing is decomposed yet.
pub open spec fn sequent_provable(s: Sequent) -> bool {
    calc_provable((s.before@, Seq::empty(), s.after@, Seq::empty()))
}

/// Classical validity of a plain sequent: every boolean valuation that
/// makes all antecedents true makes some consequent true.
pub open spec fn sequent_valid(s: Sequent) -> bool {
    item_valid((s.before@, Seq::empty(), s.after@, Seq::empty()))
}

/// Every item in the queue is provable (the conjunction over all open
/// branches of the search).
pub open spec fn all_provable(q: Seq<SequentCalc>) -> bool {
    forall|i: int| 0 <= i < q.len() ==> calc_provable(calc_view(#[trigger] q[i]))
}

pub open spec fn all_wf(q: Seq<SequentCalc>) -> bool {
    forall|i: int| 0 <= i < q.len() ==> sc_wf(#[trigger] q[i])
}

pub proof fn lemma_all_provable_pop(q: Seq<SequentCalc>)
    requires
        q.len() > 0,
    ensures
        all_provable(q) == (all_provable(q.drop_last()) && calc_provable(calc_view(q.last()))),
{
    if all_provable(q.drop_last()) && calc_provable(calc_view(q.last())) {
        assert forall|i: int| 0 <= i < q.len() implies calc_provable(
            calc_view(#[trigger] q[i]),
        ) by {
            if i < q.len() - 1 {
                assert(q.drop_last()[i] == q[i]);
            }
        }
    }
    if all_provable(q) {
        assert forall|i: int| 0 <= i < q.drop_last().len() implies calc_provable(
            calc_view(#[trigger] q.drop_last()[i]),
        ) by {
            assert(q.drop_last()[i] == q[i]);
        }
    }
}

pub proof fn lemma_all_provable_push(q: Seq<SequentCalc>, x: SequentCalc)
    ensures
        all_provable(q.push(x)) == (all_provable(q) && calc_provable(calc_view(x))),
{
    lemma_all_provable_pop(q.push(x));
    assert(q.push(x).drop_last() =~= q);
}

proof fn lemma_all_wf_pop(q: Seq<SequentCalc>)
    requires
        q.len() > 0,
    ensures
        all_wf(q) ==> all_wf(q.drop_last()) && sc_wf(q.last()),
{
    if all_wf(q) {
        assert forall|i: int| 0 <= i < q.drop_last().len() implies sc_wf(
            #[trigger] q.drop_last()[i],
        ) by {
            assert(q.drop_last()[i] == q[i]);
        }
    }
}

proof fn lemma_all_wf_push(q: Seq<SequentCalc>, x: SequentCalc)
    requires
        all_wf(q),
        sc_wf(x),
    ensures
        all_wf(q.push(x)),
{
    assert forall|i: int| 0 <= i < q.push(x).len() implies sc_wf(#[trigger] q.push(x)[i]) by {
        if i < q.len() {
            assert(q.push(x)[i] == q[i]);
        } else {
            assert(q.push(x)[i] == x);
        }
    }
}

/// Weight of one search item in the termination measure.
pub open spec fn pow3(n: nat) -> int {
    pow(3, n)
}

/// Termination measure of the whole queue: items weigh exponentially in
/// their size, so replacing one item by two smaller ones shrinks the sum.
pub open spec fn qmeasure(q: Seq<SequentCalc>) -> int
    decreases q.len(),
{
    if q.len() == 0 {
        0
    } else {
        qmeasure(q.drop_last()) + pow3(item_size(calc_view(q.last())))
    }
}

proof fn lemma_pow3_pos(n: nat)
    ensures
        pow3(n) >= 1,
{
    lemma_pow_positive(3, n);
}

proof fn lemma_pow3_lt(s1: nat, s: nat)
    requires
        s1 < s,
    ensures
        pow3(s1) < pow3(s),
{
    lemma_pow_strictly_increases(3, s1, s);
}

proof fn lemma_pow3_two(s1: nat, s2: nat, s: nat)
    requires
        s1 < s,
        s2 < s,
    ensures
        pow3(s1) + pow3(s2) < pow3(s),
{
    let p = (s - 1) as nat;
    if s1 < p {
        lemma_pow_strictly_increases(3, s1, p);
    }
    if s2 < p {
        lemma_pow_strictly_increases(3, s2, p);
    }
    assert(pow3(s) == 3 * pow3(p)) by {
        reveal_with_fuel(pow, 2);
        assert(pow(3, s) == 3 * pow(3, (s - 1) as nat));
    }
    lemma_pow3_pos(p);
}

proof fn lemma_qmeasure_push(q: Seq<SequentCalc>, x: SequentCalc)
    ensures
        qmeasure(q.push(x)) == qmeasure(q) + pow3(item_size(calc_view(x))),
{
    assert(q.push(x).drop_last() =~= q);
    assert(q.push(x).last() == x);
}

proof fn lemma_qmeasure_pos(q: Seq<SequentCalc>)
    ensures
        qmeasure(q) >= 0,
    decreases q.len(),
{
    if q.len() > 0 {
        lemma_qmeasure_pos(q.drop_last());
        lemma_pow3_pos(item_size(calc_view(q.last())));
    }
}

/// Is the formula a member of the list, by structural equality?
pub fn member(formula: &Formula, list: &Vec<Formula>) -> (r: bool)
    ensures
        r == list@.contains(*formula),
{
    let mut i: usize = 0;
    while i < list.len()
        invariant
            0 <= i <= list@.len(),
            forall|j: int| 0 <= j < i ==> list@[j] != *formula,
        decreases list@.len() - i,
    {
        if formula_eq(&list[i], formula) {
            return true;
        }
        i += 1;
    }
    false
}

/// Does `⊥` stand among the antecedents?
pub fn bottom_calc(seq: &SequentCalc) -> (r: bool)
    ensures
        r == (seq.before@.contains(op0(OperatorType::Bottom)) || seq.before_var@.contains(
            op0(OperatorType::Bottom),
        )),
{
    let bottom = Formula::Operator(
        crate::formula::Operator {
            operator_type: OperatorType::Bottom,
            arg1: Option::None,
            arg2: Option::None,
        },
    );
    member(&bottom, &seq.before) || member(&bottom, &seq.before_var)
}

/// Does `⊤` stand among the consequents?
pub fn top_calc(seq: &SequentCalc) -> (r: bool)
    ensures
        r == (seq.after@.contains(op0(OperatorType::Top)) || seq.after_var@.contains(
            op0(OperatorType::Top),
        )),
{
    let top = Formula::Operator(
        crate::formula::Operator {
            operator_type: OperatorType::Top,
            arg1: Option::None,
            arg2: Option::None,
        },
    );
    member(&top, &seq.after) || member(&top, &seq.after_var)
}

/// Does some formula stand on both sides?
pub fn axiom_calc(seq: &SequentCalc) -> (r: bool)
    ensures
        r == exists|f: Formula|
            #![trigger seq.before@.contains(f)]
            #![trigger seq.before_var@.contains(f)]
            (seq.before@.contains(f) || seq.before_var@.contains(f)) && (seq.after@.contains(f)
                || seq.after_var@.contains(f)),
{
    let mut i: usize = 0;
    while i < seq.before.len()
        invariant
            0 <= i <= seq.before@.len(),
            forall|j: int|
                0 <= j < i ==> !(seq.after@.contains(#[trigger] seq.before@[j])
                    || seq.after_var@.contains(seq.before@[j])),
        decreases seq.before@.len() - i,
    {
        if member(&seq.before[i], &seq.after) || member(&seq.before[i], &seq.after_var) {
            proof {
                assert(seq.before@.contains(seq.before@[i as int]));
            }
            return true;
        }
        i += 1;
    }
    let mut k: usize = 0;
    while k < seq.before_var.len()
        invariant
            0 <= k <= seq.before_var@.len(),
            forall|j: int|
                0 <= j < seq.before@.len() ==> !(seq.after@.contains(#[trigger] seq.before@[j])
                    || seq.after_var@.contains(seq.before@[j])),
            forall|j: int|
                0 <= j < k ==> !(seq.after@.contains(#[trigger] seq.before_var@[j])
                    || seq.after_var@.contains(seq.before_var@[j])),
        decreases seq.before_var@.len() - k,
    {
        if member(&seq.before_var[k], &seq.after) || member(&seq.before_var[k], &seq.after_var) {
            proof {
                assert(seq.before_var@.contains(seq.before_var@[k as int]));
            }
            return true;
        }
        k += 1;
    }
    proof {
        assert forall|f: Formula|
            #![trigger seq.before@.contains(f)]
            #![trigger seq.before_var@.contains(f)]
            (seq.before@.contains(f) || seq.before_var@.contains(f)) implies !(seq.after@.contains(
            f,
        ) || seq.after_var@.contains(f)) by {
            if seq.before@.contains(f) {
                let j = choose|j: int| 0 <= j < seq.before@.len() && seq.before@[j] == f;
            } else {
                let j = choose|j: int| 0 <= j < seq.before_var@.len() && seq.before_var@[j] == f;
            }
        }
    }
    false
}

proof fn lemma_wf_parts(fs: Seq<Formula>)
    requires
        formulas_wf(fs),
        fs.len() > 0,
    ensures
        formulas_wf(fs.drop_last()),
        formula_wf(fs.last()),
{
    assert forall|j: int| 0 <= j < fs.drop_last().len() implies formula_wf(
        #[trigger] fs.drop_last()[j],
    ) by {
        assert(fs.drop_last()[j] == fs[j]);
    }
}

proof fn lemma_formula_args_wf(f: Formula)
    requires
        formula_wf(f),
        f matches Formula::Operator(_),
    ensures
        (f->Operator_0).arg1 matches Option::Some(a) ==> formula_wf(*a),
        (f->Operator_0).arg2 matches Option::Some(b) ==> formula_wf(*b),
{
    reveal_with_fuel(formula_wf, 2);
}

/// Advance the search by one step.  The queue holds the open branches;
/// `Some(result)` ends the search (every branch closed, or a counter-model
/// found), `None` means one branch was decomposed or discarded.
#[verifier::rlimit(100)]
#[verifier::spinoff_prover]
pub fn step_one_calc(queue: &mut Vec<SequentCalc>) -> (r: Option<bool>)
    requires
        all_wf(old(queue)@),
    ensures
        all_wf(final(queue)@),
        match r {
            Option::Some(res) => res == all_provable(old(queue)@),
            Option::None => {
                &&& all_provable(final(queue)@) == all_provable(old(queue)@)
                &&& qmeasure(final(queue)@) < qmeasure(old(queue)@)
            },
        },
        old(queue)@.len() == 0 ==> r == Option::Some(true) && final(queue)@ == old(queue)@,
        old(queue)@.len() > 0 ==> ({
            let v = calc_view(old(queue)@.last());
            let rest = old(queue)@.drop_last();
            if calc_closed(v) {
                // a closed branch is discarded; the rest is untouched
                r is None && final(queue)@ == rest
            } else if v.0.len() == 0 && v.2.len() == 0 {
                // nothing left to decompose: a counter-model witness
                r == Option::Some(false) && final(queue)@ == rest
            } else {
                // one decomposition step: the popped item is replaced by at
                // most two strictly smaller items, the rest is untouched
                &&& r is None
                &&& rest.is_prefix_of(final(queue)@)
                &&& final(queue)@.len() <= rest.len() + 2
                &&& forall|i: int|
                    rest.len() <= i < final(queue)@.len() ==> item_size(
                        calc_view(#[trigger] final(queue)@[i]),
                    ) < item_size(v)
            }
        }),
{
    let ghost q0 = old(queue)@;
    let mut seq = match queue.pop() {
        Option::Some(elmt) => elmt,
        Option::None => {
            // every branch has been proved
            return Option::Some(true);
        },
    };
    let ghost rest = queue@;
    let ghost v = calc_view(seq);
    proof {
        assert(q0.drop_last() =~= rest);
        assert(q0.last() == seq);
        lemma_all_provable_pop(q0);
        lemma_all_wf_pop(q0);
        assert(qmeasure(q0) == qmeasure(rest) + pow3(item_size(v)));
        assert(formulas_wf(v.0) && formulas_wf(v.2));
    }
    if bottom_calc(&seq) || top_calc(&seq) || axiom_calc(&seq) {
        // this branch is closed: discard it
        proof {
            assert(calc_closed(v));
            assert(calc_provable(v));
            lemma_pow3_pos(item_size(v));
        }
        return Option::None;
    }
    proof {
        assert(!calc_closed(v));
    }
    let popped = seq.before.pop();
    match popped {
        Option::Some(formula) => {
            proof {
                assert(formula == v.0.last());
                lemma_wf_parts(v.0);
                lemma_fsizes_drop_last(v.0);
            }
            match formula {
                Formula::Operator(operator) => {
                    proof {
                        lemma_formula_args_wf(Formula::Operator(operator));
                    }
                    match operator.operator_type {
                        OperatorType::Not => match operator.arg1 {
                            Option::Some(child) => {
                                proof {
                                    lemma_fsizes_push(v.2, *child);
                                    crate::sequent::lemma_formulas_wf_ops(v.2, *child);
                                }
                                seq.after.push(*child);
                                let ghost t = calc_view(seq);
                                queue.push(seq);
                                proof {
                                    assert(calc_provable(v) == calc_provable(t));
                                    lemma_all_provable_push(rest, q0.last());
                                    lemma_all_provable_push(rest, queue@.last());
                                    assert(queue@.drop_last() =~= rest);
                                    lemma_all_provable_pop(queue@);
                                    lemma_all_wf_push(rest, queue@.last());
                                    lemma_qmeasure_push(rest, queue@.last());
                                    lemma_pow3_lt(item_size(t), item_size(v));
                                    assert(rest =~= queue@.subrange(0, rest.len() as int));
                                    assert forall|i: int|
                                        rest.len() <= i < queue@.len() implies item_size(
                                        calc_view(#[trigger] queue@[i]),
                                    ) < item_size(v) by {}
                                }
                            },
                            Option::None => {
                                proof {
                                    assert(false);
                                }
                            },
                        },
                        OperatorType::Impl => match (operator.arg1, operator.arg2) {
                            (Option::Some(child_a), Option::Some(child_b)) => {
                                let mut seq_bis = seq.clone();
                                seq_bis.after.push(*child_a);
                                let ghost t1 = calc_view(seq_bis);
                                queue.push(seq_bis);
                                let ghost mid = queue@;
                                seq.before.push(*child_b);
                                let ghost t2 = calc_view(seq);
                                queue.push(seq);
                                proof {
                                    lemma_fsizes_push(v.2, *child_a);
                                    lemma_fsizes_push(v.0.drop_last(), *child_b);
                                    crate::sequent::lemma_formulas_wf_ops(v.2, *child_a);
                                    crate::sequent::lemma_formulas_wf_ops(v.0.drop_last(), *child_b);
                                    assert(calc_provable(v) == (calc_provable(t1)
                                        && calc_provable(t2)));
                                    assert(mid.drop_last() =~= rest);
                                    assert(queue@.drop_last() =~= mid);
                                    lemma_all_provable_pop(queue@);
                                    lemma_all_provable_pop(mid);
                                    lemma_all_wf_push(rest, mid.last());
                                    lemma_all_wf_push(mid, queue@.last());
                                    lemma_qmeasure_push(rest, mid.last());
                                    lemma_qmeasure_push(mid, queue@.last());
                                    lemma_pow3_two(item_size(t1), item_size(t2), item_size(v));
                                    assert(rest =~= queue@.subrange(0, rest.len() as int));
                                    assert forall|i: int|
                                        rest.len() <= i < queue@.len() implies item_size(
                                        calc_view(#[trigger] queue@[i]),
                                    ) < item_size(v) by {
                                        if i == rest.len() {
                                            assert(queue@[i] == mid.last());
                                        }
                                    }
                                }
                            },
                            _ => {
                                proof {
                                    assert(false);
                                }
                            },
                        },
                        OperatorType::And => match (operator.arg1, operator.arg2) {
                            (Option::Some(child_a), Option::Some(child_b)) => {
                                proof {
                                    lemma_fsizes_push(v.0.drop_last(), *child_a);
                                    lemma_fsizes_push(v.0.drop_last().push(*child_a), *child_b);
                                    crate::sequent::lemma_formulas_wf_ops(v.0.drop_last(), *child_a);
                                    crate::sequent::lemma_formulas_wf_ops(
                                        v.0.drop_last().push(*child_a),
                                        *child_b,
                                    );
                                }
                                seq.before.push(*child_a);
                                seq.before.push(*child_b);
                                let ghost t = calc_view(seq);
                                queue.push(seq);
                                proof {
                                    assert(calc_provable(v) == calc_provable(t));
                                    assert(queue@.drop_last() =~= rest);
                                    lemma_all_provable_pop(queue@);
                                    lemma_all_wf_push(rest, queue@.last());
                                    lemma_qmeasure_push(rest, queue@.last());
                                    lemma_pow3_lt(item_size(t), item_size(v));
                                    assert(rest =~= queue@.subrange(0, rest.len() as int));
                                    assert forall|i: int|
                                        rest.len() <= i < queue@.len() implies item_size(
                                        calc_view(#[trigger] queue@[i]),
                                    ) < item_size(v) by {}
                                }
                            },
                            _ => {
                                proof {
                                    assert(false);
                                }
                            },
                        },
                        OperatorType::Or => match (operator.arg1, operator.arg2) {
                            (Option::Some(child_a), Option::Some(child_b)) => {
                                let mut seq_bis = seq.clone();
                                seq_bis.before.push(*child_a);
                                let ghost t1 = calc_view(seq_bis);
                                queue.push(seq_bis);
                                let ghost mid = queue@;
                                seq.before.push(*child_b);
                                let ghost t2 = calc_view(seq);
                                queue.push(seq);
                                proof {
                                    lemma_fsizes_push(v.0.drop_last(), *child_a);
                                    lemma_fsizes_push(v.0.drop_last(), *child_b);
                                    crate::sequent::lemma_formulas_wf_ops(v.0.drop_last(), *child_a);
                                    crate::sequent::lemma_formulas_wf_ops(v.0.drop_last(), *child_b);
                                    assert(calc_provable(v) == (calc_provable(t1)
                                        && calc_provable(t2)));
                                    assert(mid.drop_last() =~= rest);
                                    assert(queue@.drop_last() =~= mid);
                                    lemma_all_provable_pop(queue@);
                                    lemma_all_provable_pop(mid);
                                    lemma_all_wf_push(rest, mid.last());
                                    lemma_all_wf_push(mid, queue@.last());
                                    lemma_qmeasure_push(rest, mid.last());
                                    lemma_qmeasure_push(mid, queue@.last());
                                    lemma_pow3_two(item_size(t1), item_size(t2), item_size(v));
                                    assert(rest =~= queue@.subrange(0, rest.len() as int));
                                    assert forall|i: int|
                                        rest.len() <= i < queue@.len() implies item_size(
                                        calc_view(#[trigger] queue@[i]),
                                    ) < item_size(v) by {
                                        if i == rest.len() {
                                            assert(queue@[i] == mid.last());
                                        }
                                    }
                                }
                            },
                            _ => {
                                proof {
                                    assert(false);
                                }
                            },
                        },
                        OperatorType::Top | OperatorType::Bottom => {
                            proof {
                                lemma_fsizes_push(v.1, Formula::Operator(operator));
                                crate::sequent::lemma_formulas_wf_ops(
                                    v.1,
                                    Formula::Operator(operator),
                                );
                            }
                            seq.before_var.push(Formula::Operator(operator));
                            let ghost t = calc_view(seq);
                            queue.push(seq);
                            proof {
                                assert(calc_provable(v) == calc_provable(t));
                                assert(queue@.drop_last() =~= rest);
                                lemma_all_provable_pop(queue@);
                                lemma_all_wf_push(rest, queue@.last());
                                lemma_qmeasure_push(rest, queue@.last());
                                lemma_pow3_lt(item_size(t), item_size(v));
                                assert(rest =~= queue@.subrange(0, rest.len() as int));
                                assert forall|i: int|
                                    rest.len() <= i < queue@.len() implies item_size(
                                    calc_view(#[trigger] queue@[i]),
                                ) < item_size(v) by {}
                            }
                        },
                    }
                },
                Formula::Variable(x) => {
                    proof {
                        lemma_fsizes_push(v.1, Formula::Variable(x));
                        crate::sequent::lemma_formulas_wf_ops(v.1, Formula::Variable(x));
                    }
                    seq.before_var.push(Formula::Variable(x));
                    let ghost t = calc_view(seq);
                    queue.push(seq);
                    proof {
                        assert(calc_provable(v) == calc_provable(t));
                        assert(queue@.drop_last() =~= rest);
                        lemma_all_provable_pop(queue@);
                        lemma_all_wf_push(rest, queue@.last());
                        lemma_qmeasure_push(rest, queue@.last());
                        lemma_pow3_lt(item_size(t), item_size(v));
                    }
                },
                Formula::NotCompleted(_) => {
                    // an unfilled hole: the branch is discarded
                    proof {
                        assert(calc_provable(v));
                        lemma_pow3_pos(item_size(v));
                    }
                },
            }
            Option::None
        },
        Option::None => {
            let popped_after = seq.after.pop();
            match popped_after {
                Option::Some(formula) => {
                    proof {
                        assert(formula == v.2.last());
                        assert(v.0.len() == 0);
                        lemma_wf_parts(v.2);
                        lemma_fsizes_drop_last(v.2);
                    }
                    match formula {
                        Formula::Operator(operator) => {
                            proof {
                                lemma_formula_args_wf(Formula::Operator(operator));
                            }
                            match operator.operator_type {
                                OperatorType::Not => match operator.arg1 {
                                    Option::Some(child) => {
                                        proof {
                                            lemma_fsizes_push(v.0, *child);
                                            crate::sequent::lemma_formulas_wf_ops(v.0, *child);
                                        }
                                        seq.before.push(*child);
                                        let ghost t = calc_view(seq);
                                        queue.push(seq);
                                        proof {
                                            assert(calc_provable(v) == calc_provable(t));
                                            assert(queue@.drop_last() =~= rest);
                                            lemma_all_provable_pop(queue@);
                                            lemma_all_wf_push(rest, queue@.last());
                                            lemma_qmeasure_push(rest, queue@.last());
                                            lemma_pow3_lt(item_size(t), item_size(v));
                                            assert(rest =~= queue@.subrange(
                                                0,
                                                rest.len() as int,
                                            ));
                                            assert forall|i: int|
                                                rest.len() <= i < queue@.len() implies item_size(
                                                calc_view(#[trigger] queue@[i]),
                                            ) < item_size(v) by {}
                                        }
                                    },
                                    Option::None => {
                                        proof {
                                            assert(false);
                                        }
                                    },
                                },
                                OperatorType::Impl => match (operator.arg1, operator.arg2) {
                                    (Option::Some(child_a), Option::Some(child_b)) => {
                                        proof {
                                            lemma_fsizes_push(v.0, *child_a);
                                            lemma_fsizes_push(v.2.drop_last(), *child_b);
                                            crate::sequent::lemma_formulas_wf_ops(v.0, *child_a);
                                            crate::sequent::lemma_formulas_wf_ops(
                                                v.2.drop_last(),
                                                *child_b,
                                            );
                                        }
                                        seq.before.push(*child_a);
                                        seq.after.push(*child_b);
                                        let ghost t = calc_view(seq);
                                        queue.push(seq);
                                        proof {
                                            assert(calc_provable(v) == calc_provable(t));
                                            assert(queue@.drop_last() =~= rest);
                                            lemma_all_provable_pop(queue@);
                                            lemma_all_wf_push(rest, queue@.last());
                                            lemma_qmeasure_push(rest, queue@.last());
                                            lemma_pow3_lt(item_size(t), item_size(v));
                                            assert(rest =~= queue@.subrange(
                                                0,
                                                rest.len() as int,
                                            ));
                                            assert forall|i: int|
                                                rest.len() <= i < queue@.len() implies item_size(
                                                calc_view(#[trigger] queue@[i]),
                                            ) < item_size(v) by {}
                                        }
                                    },
                                    _ => {
                                        proof {
                                            assert(false);
                                        }
                                    },
                                },
                                OperatorType::And => match (operator.arg1, operator.arg2) {
                                    (Option::Some(child_a), Option::Some(child_b)) => {
                                        let mut seq_bis = seq.clone();
                                        seq_bis.after.push(*child_a);
                                        let ghost t1 = calc_view(seq_bis);
                                        queue.push(seq_bis);
                                        let ghost mid = queue@;
                                        seq.after.push(*child_b);
                                        let ghost t2 = calc_view(seq);
                                        queue.push(seq);
                                        proof {
                                            lemma_fsizes_push(v.2.drop_last(), *child_a);
                                            lemma_fsizes_push(v.2.drop_last(), *child_b);
                                            crate::sequent::lemma_formulas_wf_ops(
                                                v.2.drop_last(),
                                                *child_a,
                                            );
                                            crate::sequent::lemma_formulas_wf_ops(
                                                v.2.drop_last(),
                                                *child_b,
                                            );
                                            assert(calc_provable(v) == (calc_provable(t1)
                                                && calc_provable(t2)));
                                            assert(mid.drop_last() =~= rest);
                                            assert(queue@.drop_last() =~= mid);
                                            lemma_all_provable_pop(queue@);
                                            lemma_all_provable_pop(mid);
                                            lemma_all_wf_push(rest, mid.last());
                                            lemma_all_wf_push(mid, queue@.last());
                                            lemma_qmeasure_push(rest, mid.last());
                                            lemma_qmeasure_push(mid, queue@.last());
                                            lemma_pow3_two(
                                                item_size(t1),
                                                item_size(t2),
                                                item_size(v),
                                            );
                                            assert(rest =~= queue@.subrange(
                                                0,
                                                rest.len() as int,
                                            ));
                                            assert forall|i: int|
                                                rest.len() <= i < queue@.len() implies item_size(
                                                calc_view(#[trigger] queue@[i]),
                                            ) < item_size(v) by {
                                                if i == rest.len() {
                                                    assert(queue@[i] == mid.last());
                                                }
                                            }
                                        }
                                    },
                                    _ => {
                                        proof {
                                            assert(false);
                                        }
                                    },
                                },
                                OperatorType::Or => match (operator.arg1, operator.arg2) {
                                    (Option::Some(child_a), Option::Some(child_b)) => {
                                        proof {
                                            lemma_fsizes_push(v.2.drop_last(), *child_a);
                                            lemma_fsizes_push(
                                                v.2.drop_last().push(*child_a),
                                                *child_b,
                                            );
                                            crate::sequent::lemma_formulas_wf_ops(
                                                v.2.drop_last(),
                                                *child_a,
                                            );
                                            crate::sequent::lemma_formulas_wf_ops(
                                                v.2.drop_last().push(*child_a),
                                                *child_b,
                                            );
                                        }
                                        seq.after.push(*child_a);
                                        seq.after.push(*child_b);
                                        let ghost t = calc_view(seq);
                                        queue.push(seq);
                                        proof {
                                            assert(calc_provable(v) == calc_provable(t));
                                            assert(queue@.drop_last() =~= rest);
                                            lemma_all_provable_pop(queue@);
                                            lemma_all_wf_push(rest, queue@.last());
                                            lemma_qmeasure_push(rest, queue@.last());
                                            lemma_pow3_lt(item_size(t), item_size(v));
                                            assert(rest =~= queue@.subrange(
                                                0,
                                                rest.len() as int,
                                            ));
                                            assert forall|i: int|
                                                rest.len() <= i < queue@.len() implies item_size(
                                                calc_view(#[trigger] queue@[i]),
                                            ) < item_size(v) by {}
                                        }
                                    },
                                    _ => {
                                        proof {
                                            assert(false);
                                        }
                                    },
                                },
                                OperatorType::Top | OperatorType::Bottom => {
                                    proof {
                                        lemma_fsizes_push(v.3, Formula::Operator(operator));
                                        crate::sequent::lemma_formulas_wf_ops(
                                            v.3,
                                            Formula::Operator(operator),
                                        );
                                    }
                                    seq.after_var.push(Formula::Operator(operator));
                                    let ghost t = calc_view(seq);
                                    queue.push(seq);
                                    proof {
                                        assert(calc_provable(v) == calc_provable(t));
                                        assert(queue@.drop_last() =~= rest);
                                        lemma_all_provable_pop(queue@);
                                        lemma_all_wf_push(rest, queue@.last());
                                        lemma_qmeasure_push(rest, queue@.last());
                                        lemma_pow3_lt(item_size(t), item_size(v));
                                        assert(rest =~= queue@.subrange(0, rest.len() as int));
                                        assert forall|i: int|
                                            rest.len() <= i < queue@.len() implies item_size(
                                            calc_view(#[trigger] queue@[i]),
                                        ) < item_size(v) by {}
                                    }
                                },
                            }
                        },
                        Formula::Variable(x) => {
                            proof {
                                lemma_fsizes_push(v.3, Formula::Variable(x));
                                crate::sequent::lemma_formulas_wf_ops(v.3, Formula::Variable(x));
                            }
                            seq.after_var.push(Formula::Variable(x));
                            let ghost t = calc_view(seq);
                            queue.push(seq);
                            proof {
                                assert(calc_provable(v) == calc_provable(t));
                                assert(queue@.drop_last() =~= rest);
                                lemma_all_provable_pop(queue@);
                                lemma_all_wf_push(rest, queue@.last());
                                lemma_qmeasure_push(rest, queue@.last());
                                lemma_pow3_lt(item_size(t), item_size(v));
                                assert(rest =~= queue@.subrange(0, rest.len() as int));
                                assert forall|i: int|
                                    rest.len() <= i < queue@.len() implies item_size(
                                    calc_view(#[trigger] queue@[i]),
                                ) < item_size(v) by {}
                            }
                        },
                        Formula::NotCompleted(_) => {
                            proof {
                                assert(calc_provable(v));
                                lemma_pow3_pos(item_size(v));
                            }
                        },
                    }
                    Option::None
                },
                Option::None => {
                    // nothing left to decompose: a counter-model witness
                    proof {
                        assert(v.0.len() == 0 && v.2.len() == 0);
                        assert(!calc_provable(v));
                    }
                    Option::Some(false)
                },
            }
        },
    }
}

/// Run the search to completion on a one-item queue.
pub fn sequent_calculation(seq: SequentCalc) -> (r: bool)
    requires
        sc_wf(seq),
    ensures
        r == calc_provable(calc_view(seq)),
{
    let ghost v = calc_view(seq);
    let mut queue: Vec<SequentCalc> = Vec::new();
    queue.push(seq.clone());
    proof {
        assert(queue@.len() == 1);
        assert(forall|i: int| 0 <= i < queue@.len() ==> #[trigger] queue@[i] == queue@[0]);
        lemma_qmeasure_pos(queue@);
    }
    loop
        invariant
            v == calc_view(seq),
            all_wf(queue@),
            all_provable(queue@) == calc_provable(v),
            qmeasure(queue@) >= 0,
        decreases qmeasure(queue@),
    {
        let step = step_one_calc(&mut queue);
        proof {
            lemma_qmeasure_pos(queue@);
        }
        match step {
            Option::Some(res) => {
                proof {
                    assert(res == calc_provable(v));
                }
                return res;
            },
            Option::None => {},
        }
    }
}

fn sequent_to_sequentcalc(sequent: Sequent) -> (r: SequentCalc)
    ensures
        r.before@ == sequent.before@,
        r.after@ == sequent.after@,
        r.before_var@ == Seq::<Formula>::empty(),
        r.after_var@ == Seq::<Formula>::empty(),
{
    SequentCalc {
        before: sequent.before,
        before_var: Vec::new(),
        after: sequent.after,
        after_var: Vec::new(),
    }
}

/// Decide whether the sequent is provable in classical propositional
/// logic.  The search always terminates: every decomposition strictly
/// shrinks the branch it works on.  On hole-free sequents provability
/// coincides with truth-table validity.
pub fn proof_or_fake(seq: Sequent) -> (r: bool)
    requires
        sequent_wf(seq),
    ensures
        r == sequent_provable(seq),
        sequent_complete(seq) ==> r == sequent_valid(seq),
{
    proof {
        if sequent_complete(seq) {
            crate::sequent::lemma_formulas_fields_parts(seq.before@);
            crate::sequent::lemma_formulas_fields_parts(seq.after@);
            lemma_calc_provable_valid((seq.before@, Seq::empty(), seq.after@, Seq::empty()));
        }
    }
    let ghost s0 = seq;
    let sc = sequent_to_sequentcalc(seq);
    proof {
        assert(calc_view(sc) == (s0.before@, Seq::<Formula>::empty(), s0.after@, Seq::<
            Formula,
        >::empty()));
    }
    sequent_calculation(sc)
}

/// Truth value of a formula under a boolean valuation of the variables.
/// A missing argument or an unfilled placeholder counts as true; the
/// provability results below exclude such formulas.
pub open spec fn eval(rho: spec_fn(u32) -> bool, f: Formula) -> bool
    decreases f,
{
    match f {
        Formula::Operator(op) => match op.operator_type {
            OperatorType::Not => match op.arg1 {
                Option::Some(a) => !eval(rho, *a),
                Option::None => true,
            },
            OperatorType::Impl => match (op.arg1, op.arg2) {
                (Option::Some(a), Option::Some(b)) => !eval(rho, *a) || eval(rho, *b),
                _ => true,
            },
            OperatorType::And => match (op.arg1, op.arg2) {
                (Option::Some(a), Option::Some(b)) => eval(rho, *a) && eval(rho, *b),
                _ => true,
            },
            OperatorType::Or => match (op.arg1, op.arg2) {
                (Option::Some(a), Option::Some(b)) => eval(rho, *a) || eval(rho, *b),
                _ => true,
            },
            OperatorType::Top => true,
            OperatorType::Bottom => false,
        },
        Formula::Variable(x) => rho(x),
        Formula::NotCompleted(_) => true,
    }
}

pub open spec fn all_true(rho: spec_fn(u32) -> bool, fs: Seq<Formula>) -> bool {
    forall|i: int| 0 <= i < fs.len() ==> #[trigger] eval(rho, fs[i])
}

pub open spec fn some_true(rho: spec_fn(u32) -> bool, fs: Seq<Formula>) -> bool {
    exists|i: int| 0 <= i < fs.len() && #[trigger] eval(rho, fs[i])
}

/// The valuation refutes the item: every antecedent true, every consequent
/// false.
pub open spec fn refutes(
    rho: spec_fn(u32) -> bool,
    v: (Seq<Formula>, Seq<Formula>, Seq<Formula>, Seq<Formula>),
) -> bool {
    all_true(rho, v.0) && all_true(rho, v.1) && !some_true(rho, v.2) && !some_true(rho, v.3)
}

/// Classical validity of an item: no valuation refutes it.
pub open spec fn item_valid(v: (Seq<Formula>, Seq<Formula>, Seq<Formula>, Seq<Formula>)) -> bool {
    forall|rho: spec_fn(u32) -> bool| !(#[trigger] refutes(rho, v))
}

/// An already-decomposed atom: a variable or a bare constant.
pub open spec fn is_atom(f: Formula) -> bool {
    match f {
        Formula::Variable(_) => true,
        Formula::Operator(op) => (op.operator_type == OperatorType::Top || op.operator_type
            == OperatorType::Bottom) && op.arg1 is None && op.arg2 is None,
        Formula::NotCompleted(_) => false,
    }
}

pub open spec fn atoms_only(fs: Seq<Formula>) -> bool {
    forall|i: int| 0 <= i < fs.len() ==> is_atom(#[trigger] fs[i])
}

pub open spec fn formulas_complete(fs: Seq<Formula>) -> bool {
    forall|i: int| 0 <= i < fs.len() ==> formula_fields(#[trigger] fs[i]).len() == 0
}

proof fn lemma_all_true_pop(rho: spec_fn(u32) -> bool, fs: Seq<Formula>)
    requires
        fs.len() > 0,
    ensures
        all_true(rho, fs) == (all_true(rho, fs.drop_last()) && eval(rho, fs.last())),
{
    if all_true(rho, fs.drop_last()) && eval(rho, fs.last()) {
        assert forall|i: int| 0 <= i < fs.len() implies #[trigger] eval(rho, fs[i]) by {
            if i < fs.len() - 1 {
                assert(fs.drop_last()[i] == fs[i]);
                assert(eval(rho, fs.drop_last()[i]));
            }
        }
    }
    if all_true(rho, fs) {
        assert forall|i: int| 0 <= i < fs.drop_last().len() implies #[trigger] eval(
            rho,
            fs.drop_last()[i],
        ) by {
            assert(fs.drop_last()[i] == fs[i]);
            assert(eval(rho, fs[i]));
        }
    }
}

proof fn lemma_all_true_push(rho: spec_fn(u32) -> bool, fs: Seq<Formula>, f: Formula)
    ensures
        all_true(rho, fs.push(f)) == (all_true(rho, fs) && eval(rho, f)),
{
    lemma_all_true_pop(rho, fs.push(f));
    assert(fs.push(f).drop_last() =~= fs);
}

proof fn lemma_some_true_pop(rho: spec_fn(u32) -> bool, fs: Seq<Formula>)
    requires
        fs.len() > 0,
    ensures
        some_true(rho, fs) == (some_true(rho, fs.drop_last()) || eval(rho, fs.last())),
{
    if some_true(rho, fs) {
        let i = choose|i: int| 0 <= i < fs.len() && #[trigger] eval(rho, fs[i]);
        if i < fs.len() - 1 {
            assert(fs.drop_last()[i] == fs[i]);
            assert(eval(rho, fs.drop_last()[i]));
        }
    }
    if some_true(rho, fs.drop_last()) {
        let i = choose|i: int| 0 <= i < fs.drop_last().len() && #[trigger] eval(
            rho,
            fs.drop_last()[i],
        );
        assert(fs.drop_last()[i] == fs[i]);
        assert(eval(rho, fs[i]));
    }
    if eval(rho, fs.last()) {
        assert(eval(rho, fs[fs.len() - 1]));
    }
}

proof fn lemma_some_true_push(rho: spec_fn(u32) -> bool, fs: Seq<Formula>, f: Formula)
    ensures
        some_true(rho, fs.push(f)) == (some_true(rho, fs) || eval(rho, f)),
{
    lemma_some_true_pop(rho, fs.push(f));
    assert(fs.push(f).drop_last() =~= fs);
}

proof fn lemma_complete_parts(fs: Seq<Formula>)
    requires
        formulas_complete(fs),
        fs.len() > 0,
    ensures
        formulas_complete(fs.drop_last()),
        formula_fields(fs.last()).len() == 0,
{
    assert forall|i: int| 0 <= i < fs.drop_last().len() implies formula_fields(
        #[trigger] fs.drop_last()[i],
    ).len() == 0 by {
        assert(fs.drop_last()[i] == fs[i]);
    }
    assert(formula_fields(fs[fs.len() - 1]).len() == 0);
}

proof fn lemma_complete_push(fs: Seq<Formula>, f: Formula)
    requires
        formulas_complete(fs),
        formula_fields(f).len() == 0,
    ensures
        formulas_complete(fs.push(f)),
{
    assert forall|i: int| 0 <= i < fs.push(f).len() implies formula_fields(
        #[trigger] fs.push(f)[i],
    ).len() == 0 by {
        if i < fs.len() {
            assert(fs.push(f)[i] == fs[i]);
        }
    }
}

proof fn lemma_atoms_push(fs: Seq<Formula>, f: Formula)
    requires
        atoms_only(fs),
        is_atom(f),
    ensures
        atoms_only(fs.push(f)),
{
    assert forall|i: int| 0 <= i < fs.push(f).len() implies is_atom(#[trigger] fs.push(f)[i]) by {
        if i < fs.len() {
            assert(fs.push(f)[i] == fs[i]);
        }
    }
}

proof fn lemma_complete_args(f: Formula)
    requires
        formula_fields(f).len() == 0,
        f matches Formula::Operator(_),
    ensures
        (f->Operator_0).arg1 matches Option::Some(a) ==> formula_fields(*a).len() == 0,
        (f->Operator_0).arg2 matches Option::Some(b) ==> formula_fields(*b).len() == 0,
{
    reveal_with_fuel(formula_fields, 3);
    reveal_with_fuel(crate::formula::opt_fields, 3);
}

proof fn lemma_valid_iff_one(
    v: (Seq<Formula>, Seq<Formula>, Seq<Formula>, Seq<Formula>),
    t: (Seq<Formula>, Seq<Formula>, Seq<Formula>, Seq<Formula>),
)
    requires
        forall|rho: spec_fn(u32) -> bool| #[trigger] refutes(rho, v) == refutes(rho, t),
    ensures
        item_valid(v) == item_valid(t),
{
    if item_valid(t) {
        assert forall|rho: spec_fn(u32) -> bool| !(#[trigger] refutes(rho, v)) by {
            assert(!refutes(rho, t));
        }
    }
    if item_valid(v) {
        assert forall|rho: spec_fn(u32) -> bool| !(#[trigger] refutes(rho, t)) by {
            assert(!refutes(rho, v));
        }
    }
}

proof fn lemma_valid_iff_two(
    v: (Seq<Formula>, Seq<Formula>, Seq<Formula>, Seq<Formula>),
    t1: (Seq<Formula>, Seq<Formula>, Seq<Formula>, Seq<Formula>),
    t2: (Seq<Formula>, Seq<Formula>, Seq<Formula>, Seq<Formula>),
)
    requires
        forall|rho: spec_fn(u32) -> bool| #[trigger] refutes(rho, v) == (refutes(rho, t1)
            || refutes(rho, t2)),
    ensures
        item_valid(v) == (item_valid(t1) && item_valid(t2)),
{
    if item_valid(t1) && item_valid(t2) {
        assert forall|rho: spec_fn(u32) -> bool| !(#[trigger] refutes(rho, v)) by {
            assert(!refutes(rho, t1));
            assert(!refutes(rho, t2));
        }
    }
    if item_valid(v) {
        assert forall|rho: spec_fn(u32) -> bool| !(#[trigger] refutes(rho, t1)) by {
            assert(!refutes(rho, v));
        }
        assert forall|rho: spec_fn(u32) -> bool| !(#[trigger] refutes(rho, t2)) by {
            assert(!refutes(rho, v));
        }
    }
}

/// Soundness and completeness of the search against truth-table semantics:
/// on well-formed, hole-free formulas (with only atoms among the already
/// decomposed ones), an item is provable exactly when no boolean valuation
/// makes every antecedent true and every consequent false.
#[verifier::rlimit(100)]
#[verifier::spinoff_prover]
pub proof fn lemma_calc_provable_valid(v: (Seq<Formula>, Seq<Formula>, Seq<Formula>, Seq<Formula>))
    requires
        formulas_wf(v.0),
        formulas_wf(v.2),
        formulas_complete(v.0),
        formulas_complete(v.2),
        atoms_only(v.1),
        atoms_only(v.3),
    ensures
        calc_provable(v) == item_valid(v),
    decreases item_size(v),
{
    let bot = op0(OperatorType::Bottom);
    let top = op0(OperatorType::Top);
    if calc_closed(v) {
        assert forall|rho: spec_fn(u32) -> bool| !(#[trigger] refutes(rho, v)) by {
            if refutes(rho, v) {
                if v.0.contains(bot) {
                    let i = choose|i: int| 0 <= i < v.0.len() && v.0[i] == bot;
                    assert(eval(rho, v.0[i]));
                } else if v.1.contains(bot) {
                    let i = choose|i: int| 0 <= i < v.1.len() && v.1[i] == bot;
                    assert(eval(rho, v.1[i]));
                } else if v.2.contains(top) {
                    let i = choose|i: int| 0 <= i < v.2.len() && v.2[i] == top;
                    assert(eval(rho, v.2[i]));
                } else if v.3.contains(top) {
                    let i = choose|i: int| 0 <= i < v.3.len() && v.3[i] == top;
                    assert(eval(rho, v.3[i]));
                } else {
                    let f = choose|f: Formula|
                        #![trigger v.0.contains(f)]
                        #![trigger v.1.contains(f)]
                        (v.0.contains(f) || v.1.contains(f)) && (v.2.contains(f) || v.3.contains(
                            f,
                        ));
                    if v.0.contains(f) {
                        let i = choose|i: int| 0 <= i < v.0.len() && v.0[i] == f;
                        assert(eval(rho, v.0[i]));
                    } else {
                        let i = choose|i: int| 0 <= i < v.1.len() && v.1[i] == f;
                        assert(eval(rho, v.1[i]));
                    }
                    if v.2.contains(f) {
                        let i = choose|i: int| 0 <= i < v.2.len() && v.2[i] == f;
                        assert(eval(rho, v.2[i]));
                    } else {
                        let i = choose|i: int| 0 <= i < v.3.len() && v.3[i] == f;
                        assert(eval(rho, v.3[i]));
                    }
                }
            }
        }
    } else if v.0.len() > 0 {
        let f = v.0.last();
        let rest = v.0.drop_last();
        lemma_wf_parts(v.0);
        lemma_complete_parts(v.0);
        lemma_fsizes_drop_last(v.0);
        match f {
            Formula::Operator(op) => {
                lemma_formula_args_wf(f);
                lemma_complete_args(f);
                match op.operator_type {
                    OperatorType::Not => match op.arg1 {
                        Option::Some(a) => {
                            let t = (rest, v.1, v.2.push(*a), v.3);
                            lemma_fsizes_push(v.2, *a);
                            crate::sequent::lemma_formulas_wf_ops(v.2, *a);
                            lemma_complete_push(v.2, *a);
                            lemma_calc_provable_valid(t);
                            assert forall|rho: spec_fn(u32) -> bool| #[trigger] refutes(rho, v)
                                == refutes(rho, t) by {
                                lemma_all_true_pop(rho, v.0);
                                lemma_some_true_push(rho, v.2, *a);
                            }
                            lemma_valid_iff_one(v, t);
                        },
                        Option::None => {
                            assert(false);
                        },
                    },
                    OperatorType::Impl => match (op.arg1, op.arg2) {
                        (Option::Some(a), Option::Some(b)) => {
                            let t1 = (rest, v.1, v.2.push(*a), v.3);
                            let t2 = (rest.push(*b), v.1, v.2, v.3);
                            lemma_fsizes_push(v.2, *a);
                            lemma_fsizes_push(rest, *b);
                            crate::sequent::lemma_formulas_wf_ops(v.2, *a);
                            crate::sequent::lemma_formulas_wf_ops(rest, *b);
                            lemma_complete_push(v.2, *a);
                            lemma_complete_push(rest, *b);
                            lemma_calc_provable_valid(t1);
                            lemma_calc_provable_valid(t2);
                            assert forall|rho: spec_fn(u32) -> bool| #[trigger] refutes(rho, v)
                                == (refutes(rho, t1) || refutes(rho, t2)) by {
                                lemma_all_true_pop(rho, v.0);
                                lemma_some_true_push(rho, v.2, *a);
                                lemma_all_true_push(rho, rest, *b);
                            }
                            lemma_valid_iff_two(v, t1, t2);
                        },
                        _ => {
                            assert(false);
                        },
                    },
                    OperatorType::And => match (op.arg1, op.arg2) {
                        (Option::Some(a), Option::Some(b)) => {
                            let t = (rest.push(*a).push(*b), v.1, v.2, v.3);
                            lemma_fsizes_push(rest, *a);
                            lemma_fsizes_push(rest.push(*a), *b);
                            crate::sequent::lemma_formulas_wf_ops(rest, *a);
                            crate::sequent::lemma_formulas_wf_ops(rest.push(*a), *b);
                            lemma_complete_push(rest, *a);
                            lemma_complete_push(rest.push(*a), *b);
                            lemma_calc_provable_valid(t);
                            assert forall|rho: spec_fn(u32) -> bool| #[trigger] refutes(rho, v)
                                == refutes(rho, t) by {
                                lemma_all_true_pop(rho, v.0);
                                lemma_all_true_push(rho, rest, *a);
                                lemma_all_true_push(rho, rest.push(*a), *b);
                            }
                            lemma_valid_iff_one(v, t);
                        },
                        _ => {
                            assert(false);
                        },
                    },
                    OperatorType::Or => match (op.arg1, op.arg2) {
                        (Option::Some(a), Option::Some(b)) => {
                            let t1 = (rest.push(*a), v.1, v.2, v.3);
                            let t2 = (rest.push(*b), v.1, v.2, v.3);
                            lemma_fsizes_push(rest, *a);
                            lemma_fsizes_push(rest, *b);
                            crate::sequent::lemma_formulas_wf_ops(rest, *a);
                            crate::sequent::lemma_formulas_wf_ops(rest, *b);
                            lemma_complete_push(rest, *a);
                            lemma_complete_push(rest, *b);
                            lemma_calc_provable_valid(t1);
                            lemma_calc_provable_valid(t2);
                            assert forall|rho: spec_fn(u32) -> bool| #[trigger] refutes(rho, v)
                                == (refutes(rho, t1) || refutes(rho, t2)) by {
                                lemma_all_true_pop(rho, v.0);
                                lemma_all_true_push(rho, rest, *a);
                                lemma_all_true_push(rho, rest, *b);
                            }
                            lemma_valid_iff_two(v, t1, t2);
                        },
                        _ => {
                            assert(false);
                        },
                    },
                    OperatorType::Top | OperatorType::Bottom => {
                        let t = (rest, v.1.push(f), v.2, v.3);
                        lemma_fsizes_push(v.1, f);
                        assert(is_atom(f)) by {
                            reveal_with_fuel(formula_wf, 2);
                        }
                        lemma_atoms_push(v.1, f);
                        lemma_calc_provable_valid(t);
                        assert forall|rho: spec_fn(u32) -> bool| #[trigger] refutes(rho, v)
                            == refutes(rho, t) by {
                            lemma_all_true_pop(rho, v.0);
                            lemma_all_true_push(rho, v.1, f);
                        }
                        lemma_valid_iff_one(v, t);
                    },
                }
            },
            Formula::Variable(_) => {
                let t = (rest, v.1.push(f), v.2, v.3);
                lemma_fsizes_push(v.1, f);
                lemma_atoms_push(v.1, f);
                lemma_calc_provable_valid(t);
                assert forall|rho: spec_fn(u32) -> bool| #[trigger] refutes(rho, v) == refutes(
                    rho,
                    t,
                ) by {
                    lemma_all_true_pop(rho, v.0);
                    lemma_all_true_push(rho, v.1, f);
                }
                lemma_valid_iff_one(v, t);
            },
            Formula::NotCompleted(_) => {
                assert(false) by {
                    reveal_with_fuel(formula_fields, 2);
                }
            },
        }
    } else if v.2.len() > 0 {
        let f = v.2.last();
        let rest = v.2.drop_last();
        lemma_wf_parts(v.2);
        lemma_complete_parts(v.2);
        lemma_fsizes_drop_last(v.2);
        match f {
            Formula::Operator(op) => {
                lemma_formula_args_wf(f);
                lemma_complete_args(f);
                match op.operator_type {
                    OperatorType::Not => match op.arg1 {
                        Option::Some(a) => {
                            let t = (v.0.push(*a), v.1, rest, v.3);
                            lemma_fsizes_push(v.0, *a);
                            crate::sequent::lemma_formulas_wf_ops(v.0, *a);
                            lemma_complete_push(v.0, *a);
                            lemma_calc_provable_valid(t);
                            assert forall|rho: spec_fn(u32) -> bool| #[trigger] refutes(rho, v)
                                == refutes(rho, t) by {
                                lemma_some_true_pop(rho, v.2);
                                lemma_all_true_push(rho, v.0, *a);
                            }
                            lemma_valid_iff_one(v, t);
                        },
                        Option::None => {
                            assert(false);
                        },
                    },
                    OperatorType::Impl => match (op.arg1, op.arg2) {
                        (Option::Some(a), Option::Some(b)) => {
                            let t = (v.0.push(*a), v.1, rest.push(*b), v.3);
                            lemma_fsizes_push(v.0, *a);
                            lemma_fsizes_push(rest, *b);
                            crate::sequent::lemma_formulas_wf_ops(v.0, *a);
                            crate::sequent::lemma_formulas_wf_ops(rest, *b);
                            lemma_complete_push(v.0, *a);
                            lemma_complete_push(rest, *b);
                            lemma_calc_provable_valid(t);
                            assert forall|rho: spec_fn(u32) -> bool| #[trigger] refutes(rho, v)
                                == refutes(rho, t) by {
                                lemma_some_true_pop(rho, v.2);
                                lemma_all_true_push(rho, v.0, *a);
                                lemma_some_true_push(rho, rest, *b);
                            }
                            lemma_valid_iff_one(v, t);
                        },
                        _ => {
                            assert(false);
                        },
                    },
                    OperatorType::And => match (op.arg1, op.arg2) {
                        (Option::Some(a), Option::Some(b)) => {
                            let t1 = (v.0, v.1, rest.push(*a), v.3);
                            let t2 = (v.0, v.1, rest.push(*b), v.3);
                            lemma_fsizes_push(rest, *a);
                            lemma_fsizes_push(rest, *b);
                            crate::sequent::lemma_formulas_wf_ops(rest, *a);
                            crate::sequent::lemma_formulas_wf_ops(rest, *b);
                            lemma_complete_push(rest, *a);
                            lemma_complete_push(rest, *b);
                            lemma_calc_provable_valid(t1);
                            lemma_calc_provable_valid(t2);
                            assert forall|rho: spec_fn(u32) -> bool| #[trigger] refutes(rho, v)
                                == (refutes(rho, t1) || refutes(rho, t2)) by {
                                lemma_some_true_pop(rho, v.2);
                                lemma_some_true_push(rho, rest, *a);
                                lemma_some_true_push(rho, rest, *b);
                            }
                            lemma_valid_iff_two(v, t1, t2);
                        },
                        _ => {
                            assert(false);
                        },
                    },
                    OperatorType::Or => match (op.arg1, op.arg2) {
                        (Option::Some(a), Option::Some(b)) => {
                            let t = (v.0, v.1, rest.push(*a).push(*b), v.3);
                            lemma_fsizes_push(rest, *a);
                            lemma_fsizes_push(rest.push(*a), *b);
                            crate::sequent::lemma_formulas_wf_ops(rest, *a);
                            crate::sequent::lemma_formulas_wf_ops(rest.push(*a), *b);
                            lemma_complete_push(rest, *a);
                            lemma_complete_push(rest.push(*a), *b);
                            lemma_calc_provable_valid(t);
                            assert forall|rho: spec_fn(u32) -> bool| #[trigger] refutes(rho, v)
                                == refutes(rho, t) by {
                                lemma_some_true_pop(rho, v.2);
                                lemma_some_true_push(rho, rest, *a);
                                lemma_some_true_push(rho, rest.push(*a), *b);
                            }
                            lemma_valid_iff_one(v, t);
                        },
                        _ => {
                            assert(false);
                        },
                    },
                    OperatorType::Top | OperatorType::Bottom => {
                        let t = (v.0, v.1, rest, v.3.push(f));
                        lemma_fsizes_push(v.3, f);
                        assert(is_atom(f)) by {
                            reveal_with_fuel(formula_wf, 2);
                        }
                        lemma_atoms_push(v.3, f);
                        lemma_calc_provable_valid(t);
                        assert forall|rho: spec_fn(u32) -> bool| #[trigger] refutes(rho, v)
                            == refutes(rho, t) by {
                            lemma_some_true_pop(rho, v.2);
                            lemma_some_true_push(rho, v.3, f);
                        }
                        lemma_valid_iff_one(v, t);
                    },
                }
            },
            Formula::Variable(_) => {
                let t = (v.0, v.1, rest, v.3.push(f));
                lemma_fsizes_push(v.3, f);
                lemma_atoms_push(v.3, f);
                lemma_calc_provable_valid(t);
                assert forall|rho: spec_fn(u32) -> bool| #[trigger] refutes(rho, v) == refutes(
                    rho,
                    t,
                ) by {
                    lemma_some_true_pop(rho, v.2);
                    lemma_some_true_push(rho, v.3, f);
                }
                lemma_valid_iff_one(v, t);
            },
            Formula::NotCompleted(_) => {
                assert(false) by {
                    reveal_with_fuel(formula_fields, 2);
                }
            },
        }
    } else {
        // a saturated, unclosed leaf: its atoms are a counter-valuation
        let rho: spec_fn(u32) -> bool = |x: u32| v.1.contains(Formula::Variable(x));
        assert(refutes(rho, v)) by {
            assert forall|i: int| 0 <= i < v.1.len() implies #[trigger] eval(rho, v.1[i]) by {
                match v.1[i] {
                    Formula::Variable(x) => {
                        assert(v.1.contains(Formula::Variable(x)));
                    },
                    Formula::Operator(op) => {
                        if op.operator_type == OperatorType::Bottom {
                            assert(v.1[i] == bot);
                            assert(v.1.contains(bot));
                        }
                    },
                    Formula::NotCompleted(_) => {},
                }
            }
            assert forall|i: int| 0 <= i < v.3.len() implies !(#[trigger] eval(rho, v.3[i])) by {
                match v.3[i] {
                    Formula::Variable(x) => {
                        if rho(x) {
                            let j = choose|j: int|
                                0 <= j < v.1.len() && v.1[j] == Formula::Variable(x);
                            assert(v.1.contains(v.1[j]) && v.3.contains(v.3[i]));
                        }
                    },
                    Formula::Operator(op) => {
                        if op.operator_type == OperatorType::Top {
                            assert(v.3[i] == top);
                            assert(v.3.contains(top));
                        }
                    },
                    Formula::NotCompleted(_) => {},
                }
            }
        }
        assert(!item_valid(v));
    }
}

} // verus!
