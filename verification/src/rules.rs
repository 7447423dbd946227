//! The natural-deduction ruleset.  Each rule is its own type with three
//! capabilities: rewrite a goal sequent into sub-goal sequents
//! (`create_branches`), judge a completed node against the rule's side
//! conditions (`check_validity`), and a short display label.

use vstd::prelude::*;

use crate::formula::Formula;
use crate::formula::FormulaField;
use crate::formula::Operator;
use crate::formula::OperatorType;
use crate::formula::first_op_index;
use crate::formula::formula_eq;
use crate::formula::formula_wf;
use crate::formula::formula_fields;
use crate::formula::is_op;
use crate::formula::execute_on_first_operator_of_type;
use crate::formula::lemma_first_op_from_spec;
use crate::prooftree::Proof;
use crate::prooftree::first_open;
use crate::prooftree::first_open_in;
use crate::prooftree::proof_equal;
use crate::prooftree::proof_fields;
use crate::prooftree::proof_sequents_wf;
use crate::prooftree::proofs_fields;
use crate::sequent::sequent_equal;
use crate::sequent::Sequent;
use crate::sequent::clone_formulas;
use crate::sequent::sequent_wf;
use crate::sequent::sequent_fields;
use crate::sequent::sequent_complete;
use crate::sequent::formulas_fields;

verus! {

/// The operator at the head of a formula (meaningful for operator nodes).
pub open spec fn op_of(f: Formula) -> Operator {
    f->Operator_0
}

/// First argument of an operator formula.
pub open spec fn arg1_of(f: Formula) -> Formula {
    *(f->Operator_0).arg1->0
}

/// Second argument of an operator formula.
pub open spec fn arg2_of(f: Formula) -> Formula {
    *(f->Operator_0).arg2->0
}

/// A placeholder hole written out.
pub open spec fn hole(id: u32, next: u32, prev: u32) -> Formula {
    Formula::NotCompleted(FormulaField { id, next_id: next, prev_id: prev })
}

/// An operator formula written out.
pub open spec fn op2(op: OperatorType, a: Formula, b: Formula) -> Formula {
    Formula::Operator(
        Operator { operator_type: op, arg1: Option::Some(Box::new(a)), arg2: Option::Some(Box::new(b)) },
    )
}

/// A unary operator formula written out.
pub open spec fn op1(op: OperatorType, a: Formula) -> Formula {
    Formula::Operator(
        Operator { operator_type: op, arg1: Option::Some(Box::new(a)), arg2: Option::None },
    )
}

/// A nullary operator formula written out.
pub open spec fn op0(op: OperatorType) -> Formula {
    Formula::Operator(Operator { operator_type: op, arg1: Option::None, arg2: Option::None })
}

/// Implication introduction: the first `A → B` on the right becomes `B`,
/// and `A` enters the antecedents at the front.  One sub-goal, no new holes.
pub struct ImplI {}

/// Implication elimination: the goal `B, Γ` splits into `? → B` and `?`,
/// with one shared fresh hole for `?`.  Two sub-goals, one new hole.
pub struct ImplE {}

/// And introduction: the first `A ∧ B` on the right splits into `A` and `B`.
/// Two sub-goals, no new holes.
pub struct AndI {}

/// And elimination: the first consequent becomes a conjunction of two fresh
/// holes; validity later checks the goal is one of the proved conjuncts.
/// One sub-goal, two new holes.
pub struct AndE {}

impl ImplI {
    pub fn create_branches(&self, root: &Sequent) -> (r: (Option<Vec<Sequent>>, u32))
        requires
            sequent_wf(*root),
        ensures
            r.1 == 0,
            r.0 is Some <==> first_op_index(root.after@, OperatorType::Impl) is Some,
            r.0 matches Option::Some(bs) ==> {
                let i = first_op_index(root.after@, OperatorType::Impl)->0;
                &&& bs@.len() == 1
                &&& bs@[0].before@ == seq![arg1_of(root.after@[i])] + root.before@
                &&& bs@[0].after@ == root.after@.update(i, arg2_of(root.after@[i]))
            },
    {
        proof {
            lemma_first_op_from_spec(root.after@, OperatorType::Impl, 0);
        }
        match execute_on_first_operator_of_type(&root.after, OperatorType::Impl) {
            Option::None => (Option::None, 0),
            Option::Some(i) => {
                assert(formula_wf(root.after@[i as int]));
                match &root.after[i] {
                    Formula::Operator(o) => match (&o.arg1, &o.arg2) {
                        (Option::Some(b1), Option::Some(b2)) => {
                            let a1 = (**b1).clone();
                            let a2 = (**b2).clone();
                            let mut before = clone_formulas(&root.before);
                            let mut after = clone_formulas(&root.after);
                            before.insert(0, a1);
                            after.remove(i);
                            after.insert(i, a2);
                            proof {
                                assert(before@ =~= seq![arg1_of(root.after@[i as int])]
                                    + root.before@);
                                assert(after@ =~= root.after@.update(
                                    i as int,
                                    arg2_of(root.after@[i as int]),
                                ));
                            }
                            (Option::Some(vec![Sequent { before, after }]), 0)
                        },
                        _ => (Option::None, 0),
                    },
                    _ => (Option::None, 0),
                }
            },
        }
    }

    pub fn check_validity(&self, proof: &Proof) -> (r: bool)
        ensures
            r,
    {
        let _ = proof;
        true
    }

    pub fn display_text(&self) -> (r: &'static str)
        ensures
            r@ == "→i"@,
    {
        "→i"
    }
}

impl ImplE {
    pub fn create_branches(&self, root: &Sequent) -> (r: (Option<Vec<Sequent>>, u32))
        ensures
            r.0 is Some <==> root.after@.len() > 0,
            r.0 matches Option::Some(bs) ==> {
                &&& r.1 == 1
                &&& bs@.len() == 2
                &&& bs@[0].before@ == root.before@
                &&& bs@[0].after@ == root.after@.drop_first().push(
                    op2(OperatorType::Impl, hole(0, 0, 0), root.after@[0]),
                )
                &&& bs@[1].before@ == root.before@
                &&& bs@[1].after@ == root.after@.drop_first().push(hole(0, 0, 0))
            },
            r.0 is None ==> r.1 == 0,
    {
        if root.after.len() == 0 {
            return (Option::None, 0);
        }
        let mut l_after = clone_formulas(&root.after);
        let mut r_after = clone_formulas(&root.after);
        let impl_right = l_after.remove(0);
        r_after.remove(0);
        l_after.push(
            Formula::Operator(
                Operator {
                    operator_type: OperatorType::Impl,
                    arg1: Option::Some(
                        Box::new(
                            Formula::NotCompleted(FormulaField { id: 0, next_id: 0, prev_id: 0 }),
                        ),
                    ),
                    arg2: Option::Some(Box::new(impl_right)),
                },
            ),
        );
        r_after.push(Formula::NotCompleted(FormulaField { id: 0, next_id: 0, prev_id: 0 }));
        let l = Sequent { before: clone_formulas(&root.before), after: l_after };
        let r = Sequent { before: clone_formulas(&root.before), after: r_after };
        proof {
            assert(l.after@ =~= root.after@.drop_first().push(
                op2(OperatorType::Impl, hole(0, 0, 0), root.after@[0]),
            ));
            assert(r.after@ =~= root.after@.drop_first().push(hole(0, 0, 0)));
        }
        (Option::Some(vec![l, r]), 1)
    }

    pub fn check_validity(&self, proof: &Proof) -> (r: bool)
        ensures
            r,
    {
        let _ = proof;
        true
    }

    pub fn display_text(&self) -> (r: &'static str)
        ensures
            r@ == "→e"@,
    {
        "→e"
    }
}

impl AndI {
    pub fn create_branches(&self, root: &Sequent) -> (r: (Option<Vec<Sequent>>, u32))
        requires
            sequent_wf(*root),
        ensures
            r.1 == 0,
            r.0 is Some <==> first_op_index(root.after@, OperatorType::And) is Some,
            r.0 matches Option::Some(bs) ==> {
                let i = first_op_index(root.after@, OperatorType::And)->0;
                &&& bs@.len() == 2
                &&& bs@[0].before@ == root.before@
                &&& bs@[0].after@ == root.after@.update(i, arg1_of(root.after@[i]))
                &&& bs@[1].before@ == root.before@
                &&& bs@[1].after@ == root.after@.update(i, arg2_of(root.after@[i]))
            },
    {
        proof {
            lemma_first_op_from_spec(root.after@, OperatorType::And, 0);
        }
        match execute_on_first_operator_of_type(&root.after, OperatorType::And) {
            Option::None => (Option::None, 0),
            Option::Some(i) => {
                assert(formula_wf(root.after@[i as int]));
                match &root.after[i] {
                    Formula::Operator(o) => match (&o.arg1, &o.arg2) {
                        (Option::Some(b1), Option::Some(b2)) => {
                            let a1 = (**b1).clone();
                            let a2 = (**b2).clone();
                            let mut after_1 = clone_formulas(&root.after);
                            let mut after_2 = clone_formulas(&root.after);
                            after_1.remove(i);
                            after_1.insert(i, a1);
                            after_2.remove(i);
                            after_2.insert(i, a2);
                            let seq_1 = Sequent {
                                before: clone_formulas(&root.before),
                                after: after_1,
                            };
                            let seq_2 = Sequent {
                                before: clone_formulas(&root.before),
                                after: after_2,
                            };
                            proof {
                                assert(seq_1.after@ =~= root.after@.update(
                                    i as int,
                                    arg1_of(root.after@[i as int]),
                                ));
                                assert(seq_2.after@ =~= root.after@.update(
                                    i as int,
                                    arg2_of(root.after@[i as int]),
                                ));
                            }
                            (Option::Some(vec![seq_1, seq_2]), 0)
                        },
                        _ => (Option::None, 0),
                    },
                    _ => (Option::None, 0),
                }
            },
        }
    }

    pub fn check_validity(&self, proof: &Proof) -> (r: bool)
        ensures
            r,
    {
        let _ = proof;
        true
    }

    pub fn display_text(&self) -> (r: &'static str)
        ensures
            r@ == "∧i"@,
    {
        "∧i"
    }
}

/// The sub-goal consequent an And-elimination synthesises: a conjunction of
/// two linked fresh holes.
pub open spec fn and_e_conjunction() -> Formula {
    op2(OperatorType::And, hole(0, 1, 1), hole(1, 0, 0))
}

/// When an And-elimination node counts as valid: its single branch proves a
/// conjunction, one of whose conjuncts is the node's own goal.
pub open spec fn and_e_valid(p: Proof) -> bool {
    &&& p.branches@.len() == 1
    &&& p.root.after@.len() > 0
    &&& p.branches@[0].root.after@.len() > 0
    &&& is_op(p.branches@[0].root.after@[0], OperatorType::And)
    &&& (p.branches@[0].root.after@[0]->Operator_0).arg1 is Some
    &&& (p.branches@[0].root.after@[0]->Operator_0).arg2 is Some
    &&& (p.root.after@[0] == arg1_of(p.branches@[0].root.after@[0]) || p.root.after@[0]
        == arg2_of(p.branches@[0].root.after@[0]))
}

impl AndE {
    pub fn create_branches(&self, root: &Sequent) -> (r: (Option<Vec<Sequent>>, u32))
        ensures
            r.0 is Some <==> root.after@.len() > 0,
            r.0 matches Option::Some(bs) ==> {
                &&& r.1 == 2
                &&& bs@.len() == 1
                &&& bs@[0].before@ == root.before@
                &&& bs@[0].after@ == root.after@.update(0, and_e_conjunction())
            },
            r.0 is None ==> r.1 == 0,
    {
        if root.after.len() == 0 {
            return (Option::None, 0);
        }
        let mut after = clone_formulas(&root.after);
        after.remove(0);
        after.insert(
            0,
            Formula::Operator(
                Operator {
                    operator_type: OperatorType::And,
                    arg1: Option::Some(
                        Box::new(
                            Formula::NotCompleted(FormulaField { id: 0, next_id: 1, prev_id: 1 }),
                        ),
                    ),
                    arg2: Option::Some(
                        Box::new(
                            Formula::NotCompleted(FormulaField { id: 1, next_id: 0, prev_id: 0 }),
                        ),
                    ),
                },
            ),
        );
        let new_seq = Sequent { before: clone_formulas(&root.before), after };
        proof {
            assert(new_seq.after@ =~= root.after@.update(0, and_e_conjunction()));
        }
        (Option::Some(vec![new_seq]), 2)
    }

    pub fn check_validity(&self, proof: &Proof) -> (r: bool)
        ensures
            r == and_e_valid(*proof),
    {
        if proof.branches.len() != 1 {
            return false;
        }
        if proof.root.after.len() == 0 {
            return false;
        }
        let branch_root = &proof.branches[0].root;
        if branch_root.after.len() == 0 {
            return false;
        }
        match &branch_root.after[0] {
            Formula::Operator(o) => {
                if o.operator_type != OperatorType::And {
                    return false;
                }
                match (&o.arg1, &o.arg2) {
                    (Option::Some(b1), Option::Some(b2)) => {
                        formula_eq(&proof.root.after[0], &**b1) || formula_eq(
                            &proof.root.after[0],
                            &**b2,
                        )
                    },
                    _ => false,
                }
            },
            _ => false,
        }
    }

    pub fn display_text(&self) -> (r: &'static str)
        ensures
            r@ == "∧e"@,
    {
        "∧e"
    }
}

/// Or introduction: the first `A ∨ B` on the right becomes a fresh hole;
/// validity later checks the hole was filled with one of the disjuncts.
/// One sub-goal, one new hole.
pub struct OrI {}

/// Or elimination: the goal gains `?₁` and `?₂` as hypotheses in two
/// branches, and a third branch proves `?₁ ∨ ?₂`.  Three sub-goals, two new
/// linked holes shared across the branches.
pub struct OrE {}

/// Not introduction: the first `¬A` on the right becomes `⊥` and `A` joins
/// the antecedents.  One sub-goal, no new holes.
pub struct NotI {}

/// Not elimination: the first `⊥` on the right splits into `?` and `¬?`,
/// with one shared fresh hole.  Two sub-goals, one new hole.
pub struct NotE {}

/// Top introduction: a `⊤` on the right closes the goal with no sub-goals.
pub struct TopI {}

/// Bottom elimination: the first consequent is replaced by `⊥`.  One
/// sub-goal, no new holes.
pub struct BottomE {}

/// Reductio ad absurdum: the negated goal becomes a hypothesis and the goal
/// becomes `⊥`.  One sub-goal, no new holes.
pub struct RAA {}

/// Axiom: closes a goal with no sub-goals when some antecedent is
/// structurally equal to the first consequent.
pub struct Axiom {}

/// When an Or-introduction node counts as valid: the hole was filled with
/// one of the disjuncts of the original goal.
pub open spec fn or_i_valid(p: Proof) -> bool {
    &&& p.branches@.len() == 1
    &&& p.root.after@.len() > 0
    &&& is_op(p.root.after@[0], OperatorType::Or)
    &&& (p.root.after@[0]->Operator_0).arg1 is Some
    &&& (p.root.after@[0]->Operator_0).arg2 is Some
    &&& p.branches@[0].root.after@.len() > 0
    &&& (arg1_of(p.root.after@[0]) == p.branches@[0].root.after@[0] || arg2_of(p.root.after@[0])
        == p.branches@[0].root.after@[0])
}

impl OrI {
    pub fn create_branches(&self, root: &Sequent) -> (r: (Option<Vec<Sequent>>, u32))
        ensures
            r.0 is Some <==> first_op_index(root.after@, OperatorType::Or) is Some,
            r.0 matches Option::Some(bs) ==> {
                let i = first_op_index(root.after@, OperatorType::Or)->0;
                &&& r.1 == 1
                &&& bs@.len() == 1
                &&& bs@[0].before@ == root.before@
                &&& bs@[0].after@ == root.after@.update(i, hole(0, 0, 0))
            },
            r.0 is None ==> r.1 == 0,
    {
        proof {
            lemma_first_op_from_spec(root.after@, OperatorType::Or, 0);
        }
        match execute_on_first_operator_of_type(&root.after, OperatorType::Or) {
            Option::None => (Option::None, 0),
            Option::Some(i) => {
                let mut after = clone_formulas(&root.after);
                after.remove(i);
                after.insert(
                    i,
                    Formula::NotCompleted(FormulaField { id: 0, next_id: 0, prev_id: 0 }),
                );
                let s = Sequent { before: clone_formulas(&root.before), after };
                proof {
                    assert(s.after@ =~= root.after@.update(i as int, hole(0, 0, 0)));
                }
                (Option::Some(vec![s]), 1)
            },
        }
    }

    pub fn check_validity(&self, proof: &Proof) -> (r: bool)
        ensures
            r == or_i_valid(*proof),
    {
        if proof.branches.len() != 1 {
            return false;
        }
        if proof.root.after.len() == 0 {
            return false;
        }
        match &proof.root.after[0] {
            Formula::Operator(o) => {
                if o.operator_type != OperatorType::Or {
                    return false;
                }
                match (&o.arg1, &o.arg2) {
                    (Option::Some(b1), Option::Some(b2)) => {
                        if proof.branches[0].root.after.len() == 0 {
                            return false;
                        }
                        formula_eq(&**b1, &proof.branches[0].root.after[0]) || formula_eq(
                            &**b2,
                            &proof.branches[0].root.after[0],
                        )
                    },
                    _ => false,
                }
            },
            _ => false,
        }
    }

    pub fn display_text(&self) -> (r: &'static str)
        ensures
            r@ == "∨i"@,
    {
        "∨i"
    }
}

impl OrE {
    pub fn create_branches(&self, root: &Sequent) -> (r: (Option<Vec<Sequent>>, u32))
        ensures
            r.0 is Some <==> root.after@.len() > 0,
            r.0 matches Option::Some(bs) ==> {
                &&& r.1 == 2
                &&& bs@.len() == 3
                &&& bs@[0].before@ == root.before@.push(hole(0, 1, 1))
                &&& bs@[0].after@ == root.after@
                &&& bs@[1].before@ == root.before@.push(hole(1, 0, 0))
                &&& bs@[1].after@ == root.after@
                &&& bs@[2].before@ == root.before@
                &&& bs@[2].after@ == root.after@.drop_first().push(
                    op2(OperatorType::Or, hole(0, 1, 1), hole(1, 0, 0)),
                )
            },
            r.0 is None ==> r.1 == 0,
    {
        if root.after.len() == 0 {
            return (Option::None, 0);
        }
        let mut a_before = clone_formulas(&root.before);
        let mut b_before = clone_formulas(&root.before);
        a_before.push(Formula::NotCompleted(FormulaField { id: 0, next_id: 1, prev_id: 1 }));
        b_before.push(Formula::NotCompleted(FormulaField { id: 1, next_id: 0, prev_id: 0 }));
        let a = Sequent { before: a_before, after: clone_formulas(&root.after) };
        let b = Sequent { before: b_before, after: clone_formulas(&root.after) };
        let mut c_after = clone_formulas(&root.after);
        c_after.remove(0);
        c_after.push(
            Formula::Operator(
                Operator {
                    operator_type: OperatorType::Or,
                    arg1: Option::Some(
                        Box::new(
                            Formula::NotCompleted(FormulaField { id: 0, next_id: 1, prev_id: 1 }),
                        ),
                    ),
                    arg2: Option::Some(
                        Box::new(
                            Formula::NotCompleted(FormulaField { id: 1, next_id: 0, prev_id: 0 }),
                        ),
                    ),
                },
            ),
        );
        let c = Sequent { before: clone_formulas(&root.before), after: c_after };
        proof {
            assert(a.before@ =~= root.before@.push(hole(0, 1, 1)));
            assert(b.before@ =~= root.before@.push(hole(1, 0, 0)));
            assert(c.after@ =~= root.after@.drop_first().push(
                op2(OperatorType::Or, hole(0, 1, 1), hole(1, 0, 0)),
            ));
        }
        (Option::Some(vec![a, b, c]), 2)
    }

    pub fn check_validity(&self, proof: &Proof) -> (r: bool)
        ensures
            r,
    {
        let _ = proof;
        true
    }

    pub fn display_text(&self) -> (r: &'static str)
        ensures
            r@ == "∨e"@,
    {
        "∨e"
    }
}

impl NotI {
    pub fn create_branches(&self, root: &Sequent) -> (r: (Option<Vec<Sequent>>, u32))
        requires
            sequent_wf(*root),
        ensures
            r.1 == 0,
            r.0 is Some <==> first_op_index(root.after@, OperatorType::Not) is Some,
            r.0 matches Option::Some(bs) ==> {
                let i = first_op_index(root.after@, OperatorType::Not)->0;
                &&& bs@.len() == 1
                &&& bs@[0].before@ == root.before@.push(arg1_of(root.after@[i]))
                &&& bs@[0].after@ == root.after@.update(i, op0(OperatorType::Bottom))
            },
    {
        proof {
            lemma_first_op_from_spec(root.after@, OperatorType::Not, 0);
        }
        match execute_on_first_operator_of_type(&root.after, OperatorType::Not) {
            Option::None => (Option::None, 0),
            Option::Some(i) => {
                assert(formula_wf(root.after@[i as int]));
                match &root.after[i] {
                    Formula::Operator(o) => match &o.arg1 {
                        Option::Some(b1) => {
                            let a1 = (**b1).clone();
                            let mut before = clone_formulas(&root.before);
                            let mut after = clone_formulas(&root.after);
                            after.remove(i);
                            after.insert(
                                i,
                                Formula::Operator(
                                    Operator {
                                        operator_type: OperatorType::Bottom,
                                        arg1: Option::None,
                                        arg2: Option::None,
                                    },
                                ),
                            );
                            before.push(a1);
                            proof {
                                assert(before@ =~= root.before@.push(
                                    arg1_of(root.after@[i as int]),
                                ));
                                assert(after@ =~= root.after@.update(
                                    i as int,
                                    op0(OperatorType::Bottom),
                                ));
                            }
                            (Option::Some(vec![Sequent { before, after }]), 0)
                        },
                        _ => (Option::None, 0),
                    },
                    _ => (Option::None, 0),
                }
            },
        }
    }

    pub fn check_validity(&self, proof: &Proof) -> (r: bool)
        ensures
            r,
    {
        let _ = proof;
        true
    }

    pub fn display_text(&self) -> (r: &'static str)
        ensures
            r@ == "¬i"@,
    {
        "¬i"
    }
}

impl NotE {
    pub fn create_branches(&self, root: &Sequent) -> (r: (Option<Vec<Sequent>>, u32))
        ensures
            r.0 is Some <==> first_op_index(root.after@, OperatorType::Bottom) is Some,
            r.0 matches Option::Some(bs) ==> {
                let i = first_op_index(root.after@, OperatorType::Bottom)->0;
                &&& r.1 == 1
                &&& bs@.len() == 2
                &&& bs@[0].before@ == root.before@
                &&& bs@[0].after@ == root.after@.update(i, hole(0, 0, 0))
                &&& bs@[1].before@ == root.before@
                &&& bs@[1].after@ == root.after@.update(i, op1(OperatorType::Not, hole(0, 0, 0)))
            },
            r.0 is None ==> r.1 == 0,
    {
        proof {
            lemma_first_op_from_spec(root.after@, OperatorType::Bottom, 0);
        }
        match execute_on_first_operator_of_type(&root.after, OperatorType::Bottom) {
            Option::None => (Option::None, 0),
            Option::Some(i) => {
                let mut after_1 = clone_formulas(&root.after);
                let mut after_2 = clone_formulas(&root.after);
                after_1.remove(i);
                after_1.insert(
                    i,
                    Formula::NotCompleted(FormulaField { id: 0, next_id: 0, prev_id: 0 }),
                );
                after_2.remove(i);
                after_2.insert(
                    i,
                    Formula::Operator(
                        Operator {
                            operator_type: OperatorType::Not,
                            arg1: Option::Some(
                                Box::new(
                                    Formula::NotCompleted(
                                        FormulaField { id: 0, next_id: 0, prev_id: 0 },
                                    ),
                                ),
                            ),
                            arg2: Option::None,
                        },
                    ),
                );
                let seq_1 = Sequent { before: clone_formulas(&root.before), after: after_1 };
                let seq_2 = Sequent { before: clone_formulas(&root.before), after: after_2 };
                proof {
                    assert(seq_1.after@ =~= root.after@.update(i as int, hole(0, 0, 0)));
                    assert(seq_2.after@ =~= root.after@.update(
                        i as int,
                        op1(OperatorType::Not, hole(0, 0, 0)),
                    ));
                }
                (Option::Some(vec![seq_1, seq_2]), 1)
            },
        }
    }

    pub fn check_validity(&self, proof: &Proof) -> (r: bool)
        ensures
            r,
    {
        let _ = proof;
        true
    }

    pub fn display_text(&self) -> (r: &'static str)
        ensures
            r@ == "¬e"@,
    {
        "¬e"
    }
}

impl TopI {
    pub fn create_branches(&self, root: &Sequent) -> (r: (Option<Vec<Sequent>>, u32))
        ensures
            r.1 == 0,
            r.0 is Some <==> first_op_index(root.after@, OperatorType::Top) is Some,
            r.0 matches Option::Some(bs) ==> bs@.len() == 0,
    {
        proof {
            lemma_first_op_from_spec(root.after@, OperatorType::Top, 0);
        }
        match execute_on_first_operator_of_type(&root.after, OperatorType::Top) {
            Option::None => (Option::None, 0),
            Option::Some(_) => (Option::Some(vec![]), 0),
        }
    }

    pub fn check_validity(&self, proof: &Proof) -> (r: bool)
        ensures
            r,
    {
        let _ = proof;
        true
    }

    pub fn display_text(&self) -> (r: &'static str)
        ensures
            r@ == "⊤i"@,
    {
        "⊤i"
    }
}

impl BottomE {
    pub fn create_branches(&self, root: &Sequent) -> (r: (Option<Vec<Sequent>>, u32))
        ensures
            r.1 == 0,
            r.0 is Some <==> root.after@.len() > 0,
            r.0 matches Option::Some(bs) ==> {
                &&& bs@.len() == 1
                &&& bs@[0].before@ == root.before@
                &&& bs@[0].after@ == root.after@.drop_first().push(op0(OperatorType::Bottom))
            },
    {
        if root.after.len() == 0 {
            return (Option::None, 0);
        }
        let mut after = clone_formulas(&root.after);
        after.remove(0);
        after.push(
            Formula::Operator(
                Operator {
                    operator_type: OperatorType::Bottom,
                    arg1: Option::None,
                    arg2: Option::None,
                },
            ),
        );
        let s = Sequent { before: clone_formulas(&root.before), after };
        proof {
            assert(s.after@ =~= root.after@.drop_first().push(op0(OperatorType::Bottom)));
        }
        (Option::Some(vec![s]), 0)
    }

    pub fn check_validity(&self, proof: &Proof) -> (r: bool)
        ensures
            r,
    {
        let _ = proof;
        true
    }

    pub fn display_text(&self) -> (r: &'static str)
        ensures
            r@ == "⊥e"@,
    {
        "⊥e"
    }
}

impl RAA {
    pub fn create_branches(&self, root: &Sequent) -> (r: (Option<Vec<Sequent>>, u32))
        ensures
            r.1 == 0,
            r.0 is Some <==> root.after@.len() > 0,
            r.0 matches Option::Some(bs) ==> {
                &&& bs@.len() == 1
                &&& bs@[0].before@ == root.before@.push(op1(OperatorType::Not, root.after@[0]))
                &&& bs@[0].after@ == root.after@.drop_first().push(op0(OperatorType::Bottom))
            },
    {
        if root.after.len() == 0 {
            return (Option::None, 0);
        }
        let mut before = clone_formulas(&root.before);
        let mut after = clone_formulas(&root.after);
        let first = after.remove(0);
        before.push(
            Formula::Operator(
                Operator {
                    operator_type: OperatorType::Not,
                    arg1: Option::Some(Box::new(first)),
                    arg2: Option::None,
                },
            ),
        );
        after.push(
            Formula::Operator(
                Operator {
                    operator_type: OperatorType::Bottom,
                    arg1: Option::None,
                    arg2: Option::None,
                },
            ),
        );
        let s = Sequent { before, after };
        proof {
            assert(s.before@ =~= root.before@.push(op1(OperatorType::Not, root.after@[0])));
            assert(s.after@ =~= root.after@.drop_first().push(op0(OperatorType::Bottom)));
        }
        (Option::Some(vec![s]), 0)
    }

    pub fn check_validity(&self, proof: &Proof) -> (r: bool)
        ensures
            r,
    {
        let _ = proof;
        true
    }

    pub fn display_text(&self) -> (r: &'static str)
        ensures
            r@ == "RAA"@,
    {
        "RAA"
    }
}

/// Is the formula a member of the list, by structural equality?
pub fn member_formula(f: &Formula, list: &Vec<Formula>) -> (r: bool)
    ensures
        r == list@.contains(*f),
{
    let mut i: usize = 0;
    while i < list.len()
        invariant
            0 <= i <= list@.len(),
            forall|j: int| 0 <= j < i ==> list@[j] != *f,
        decreases list@.len() - i,
    {
        if formula_eq(&list[i], f) {
            return true;
        }
        i += 1;
    }
    false
}

impl Axiom {
    pub fn create_branches(&self, root: &Sequent) -> (r: (Option<Vec<Sequent>>, u32))
        ensures
            r.1 == 0,
            r.0 is Some <==> (root.after@.len() > 0 && root.before@.contains(root.after@[0])),
            r.0 matches Option::Some(bs) ==> bs@.len() == 0,
    {
        if root.after.len() != 0 && member_formula(&root.after[0], &root.before) {
            (Option::Some(vec![]), 0)
        } else {
            (Option::None, 0)
        }
    }

    pub fn check_validity(&self, proof: &Proof) -> (r: bool)
        ensures
            r,
    {
        let _ = proof;
        true
    }

    pub fn display_text(&self) -> (r: &'static str)
        ensures
            r@ == "Ax"@,
    {
        "Ax"
    }
}

/// Tags naming the twelve rules, in the order a `LogicSystem` lists them.
#[derive(Clone, Copy, Debug, PartialEq, Eq, Structural)]
pub enum RuleTag {
    NotIntro,
    NotElim,
    ImplIntro,
    ImplElim,
    AndIntro,
    AndElim,
    OrIntro,
    OrElim,
    TopIntro,
    BottomElim,
    Reductio,
    AxiomRule,
}

/// Does the rule's syntactic precondition hold on this goal?  A failed
/// precondition is a normal rejection, not an error.
pub open spec fn rule_precondition(tag: RuleTag, root: Sequent) -> bool {
    match tag {
        RuleTag::NotIntro => first_op_index(root.after@, OperatorType::Not) is Some,
        RuleTag::NotElim => first_op_index(root.after@, OperatorType::Bottom) is Some,
        RuleTag::ImplIntro => first_op_index(root.after@, OperatorType::Impl) is Some,
        RuleTag::ImplElim => root.after@.len() > 0,
        RuleTag::AndIntro => first_op_index(root.after@, OperatorType::And) is Some,
        RuleTag::AndElim => root.after@.len() > 0,
        RuleTag::OrIntro => first_op_index(root.after@, OperatorType::Or) is Some,
        RuleTag::OrElim => root.after@.len() > 0,
        RuleTag::TopIntro => first_op_index(root.after@, OperatorType::Top) is Some,
        RuleTag::BottomElim => root.after@.len() > 0,
        RuleTag::Reductio => root.after@.len() > 0,
        RuleTag::AxiomRule => root.after@.len() > 0 && root.before@.contains(root.after@[0]),
    }
}

/// How many sub-goals the rule attaches when it applies.
pub open spec fn rule_branch_count(tag: RuleTag) -> int {
    match tag {
        RuleTag::NotIntro => 1,
        RuleTag::NotElim => 2,
        RuleTag::ImplIntro => 1,
        RuleTag::ImplElim => 2,
        RuleTag::AndIntro => 2,
        RuleTag::AndElim => 1,
        RuleTag::OrIntro => 1,
        RuleTag::OrElim => 3,
        RuleTag::TopIntro => 0,
        RuleTag::BottomElim => 1,
        RuleTag::Reductio => 1,
        RuleTag::AxiomRule => 0,
    }
}

/// How many fresh placeholder ids the rule consumes when it applies.
pub open spec fn rule_field_count(tag: RuleTag) -> u32 {
    match tag {
        RuleTag::NotElim => 1,
        RuleTag::ImplElim => 1,
        RuleTag::AndElim => 2,
        RuleTag::OrIntro => 1,
        RuleTag::OrElim => 2,
        _ => 0,
    }
}

/// The sub-goal sequents the rule produces, described side by side with the
/// goal's own formula lists.
pub open spec fn rule_branches_ok(tag: RuleTag, root: Sequent, bs: Seq<Sequent>) -> bool {
    match tag {
        RuleTag::NotIntro => {
            let i = first_op_index(root.after@, OperatorType::Not)->0;
            &&& bs.len() == 1
            &&& bs[0].before@ == root.before@.push(arg1_of(root.after@[i]))
            &&& bs[0].after@ == root.after@.update(i, op0(OperatorType::Bottom))
        },
        RuleTag::NotElim => {
            let i = first_op_index(root.after@, OperatorType::Bottom)->0;
            &&& bs.len() == 2
            &&& bs[0].before@ == root.before@
            &&& bs[0].after@ == root.after@.update(i, hole(0, 0, 0))
            &&& bs[1].before@ == root.before@
            &&& bs[1].after@ == root.after@.update(i, op1(OperatorType::Not, hole(0, 0, 0)))
        },
        RuleTag::ImplIntro => {
            let i = first_op_index(root.after@, OperatorType::Impl)->0;
            &&& bs.len() == 1
            &&& bs[0].before@ == seq![arg1_of(root.after@[i])] + root.before@
            &&& bs[0].after@ == root.after@.update(i, arg2_of(root.after@[i]))
        },
        RuleTag::ImplElim => {
            &&& bs.len() == 2
            &&& bs[0].before@ == root.before@
            &&& bs[0].after@ == root.after@.drop_first().push(
                op2(OperatorType::Impl, hole(0, 0, 0), root.after@[0]),
            )
            &&& bs[1].before@ == root.before@
            &&& bs[1].after@ == root.after@.drop_first().push(hole(0, 0, 0))
        },
        RuleTag::AndIntro => {
            let i = first_op_index(root.after@, OperatorType::And)->0;
            &&& bs.len() == 2
            &&& bs[0].before@ == root.before@
            &&& bs[0].after@ == root.after@.update(i, arg1_of(root.after@[i]))
            &&& bs[1].before@ == root.before@
            &&& bs[1].after@ == root.after@.update(i, arg2_of(root.after@[i]))
        },
        RuleTag::AndElim => {
            &&& bs.len() == 1
            &&& bs[0].before@ == root.before@
            &&& bs[0].after@ == root.after@.update(0, and_e_conjunction())
        },
        RuleTag::OrIntro => {
            let i = first_op_index(root.after@, OperatorType::Or)->0;
            &&& bs.len() == 1
            &&& bs[0].before@ == root.before@
            &&& bs[0].after@ == root.after@.update(i, hole(0, 0, 0))
        },
        RuleTag::OrElim => {
            &&& bs.len() == 3
            &&& bs[0].before@ == root.before@.push(hole(0, 1, 1))
            &&& bs[0].after@ == root.after@
            &&& bs[1].before@ == root.before@.push(hole(1, 0, 0))
            &&& bs[1].after@ == root.after@
            &&& bs[2].before@ == root.before@
            &&& bs[2].after@ == root.after@.drop_first().push(
                op2(OperatorType::Or, hole(0, 1, 1), hole(1, 0, 0)),
            )
        },
        RuleTag::TopIntro => bs.len() == 0,
        RuleTag::BottomElim => {
            &&& bs.len() == 1
            &&& bs[0].before@ == root.before@
            &&& bs[0].after@ == root.after@.drop_first().push(op0(OperatorType::Bottom))
        },
        RuleTag::Reductio => {
            &&& bs.len() == 1
            &&& bs[0].before@ == root.before@.push(op1(OperatorType::Not, root.after@[0]))
            &&& bs[0].after@ == root.after@.drop_first().push(op0(OperatorType::Bottom))
        },
        RuleTag::AxiomRule => bs.len() == 0,
    }
}

/// The rule's side condition on a completed node.  Only And-elimination and
/// Or-introduction re-derive anything; every other rule's rewrite is fully
/// determined at creation time.
pub open spec fn rule_valid(tag: RuleTag, p: Proof) -> bool {
    match tag {
        RuleTag::AndElim => and_e_valid(p),
        RuleTag::OrIntro => or_i_valid(p),
        _ => true,
    }
}

/// The placeholder fields a fresh application of the rule leaves in the
/// tree, in traversal order over the new sub-goals.
pub open spec fn rule_fresh_fields(tag: RuleTag) -> Seq<FormulaField> {
    match tag {
        RuleTag::NotElim => seq![
            FormulaField { id: 0, next_id: 0, prev_id: 0 },
            FormulaField { id: 0, next_id: 0, prev_id: 0 },
        ],
        RuleTag::ImplElim => seq![
            FormulaField { id: 0, next_id: 0, prev_id: 0 },
            FormulaField { id: 0, next_id: 0, prev_id: 0 },
        ],
        RuleTag::AndElim => seq![
            FormulaField { id: 0, next_id: 1, prev_id: 1 },
            FormulaField { id: 1, next_id: 0, prev_id: 0 },
        ],
        RuleTag::OrIntro => seq![FormulaField { id: 0, next_id: 0, prev_id: 0 }],
        RuleTag::OrElim => seq![
            FormulaField { id: 0, next_id: 1, prev_id: 1 },
            FormulaField { id: 1, next_id: 0, prev_id: 0 },
            FormulaField { id: 0, next_id: 1, prev_id: 1 },
            FormulaField { id: 1, next_id: 0, prev_id: 0 },
        ],
        _ => Seq::empty(),
    }
}

/// The fields of a list of sequents, in order.
pub open spec fn sequents_fields(bs: Seq<Sequent>) -> Seq<FormulaField>
    decreases bs.len(),
{
    if bs.len() == 0 {
        Seq::empty()
    } else {
        sequent_fields(bs[0]) + sequents_fields(bs.drop_first())
    }
}

proof fn lemma_root_parts(root: Sequent)
    requires
        sequent_complete(root),
        sequent_wf(root),
    ensures
        formulas_fields(root.before@).len() == 0,
        formulas_fields(root.after@).len() == 0,
        forall|i: int|
            0 <= i < root.before@.len() ==> formula_fields(#[trigger] root.before@[i]).len() == 0,
        forall|i: int|
            0 <= i < root.after@.len() ==> formula_fields(#[trigger] root.after@[i]).len() == 0,
{
    crate::sequent::lemma_formulas_fields_parts(root.before@);
    crate::sequent::lemma_formulas_fields_parts(root.after@);
}

proof fn lemma_op_parts(f: Formula)
    requires
        formula_wf(f),
        formula_fields(f).len() == 0,
        f matches Formula::Operator(_),
    ensures
        (f->Operator_0).arg1 is Some ==> formula_wf(arg1_of(f)) && formula_fields(
            arg1_of(f),
        ).len() == 0,
        (f->Operator_0).arg2 is Some ==> formula_wf(arg2_of(f)) && formula_fields(
            arg2_of(f),
        ).len() == 0,
{
    reveal_with_fuel(crate::formula::formula_fields, 3);
    reveal_with_fuel(crate::formula::opt_fields, 3);
    reveal_with_fuel(crate::formula::formula_wf, 3);
}

proof fn lemma_sequents_fields_small(bs: Seq<Sequent>)
    ensures
        bs.len() == 0 ==> sequents_fields(bs) == Seq::<FormulaField>::empty(),
        bs.len() == 1 ==> sequents_fields(bs) == sequent_fields(bs[0]),
        bs.len() == 2 ==> sequents_fields(bs) == sequent_fields(bs[0]) + sequent_fields(bs[1]),
        bs.len() == 3 ==> sequents_fields(bs) == sequent_fields(bs[0]) + sequent_fields(bs[1])
            + sequent_fields(bs[2]),
{
    reveal_with_fuel(sequents_fields, 5);
    if bs.len() == 1 {
        assert(sequents_fields(bs) =~= sequent_fields(bs[0]));
    }
    if bs.len() == 2 {
        assert(bs.drop_first()[0] == bs[1]);
        assert(sequents_fields(bs) =~= sequent_fields(bs[0]) + sequent_fields(bs[1]));
    }
    if bs.len() == 3 {
        assert(bs.drop_first()[0] == bs[1]);
        assert(bs.drop_first().drop_first()[0] == bs[2]);
        assert(sequents_fields(bs) =~= sequent_fields(bs[0]) + sequent_fields(bs[1])
            + sequent_fields(bs[2]));
    }
}

/// The configuration of a proof session: the operators offered for
/// insertion, the rules in display order, and optional special variants
/// selected with a modifier.
pub struct LogicSystem {
    pub operators: Vec<OperatorType>,
    pub rules: Vec<RuleTag>,
    pub special_rules: Vec<Option<RuleTag>>,
}

/// The rules of natural deduction, in display order.
pub open spec fn natural_rules() -> Seq<RuleTag> {
    seq![
        RuleTag::NotIntro,
        RuleTag::NotElim,
        RuleTag::ImplIntro,
        RuleTag::ImplElim,
        RuleTag::AndIntro,
        RuleTag::AndElim,
        RuleTag::OrIntro,
        RuleTag::OrElim,
        RuleTag::TopIntro,
        RuleTag::BottomElim,
        RuleTag::Reductio,
        RuleTag::AxiomRule,
    ]
}

/// The natural-deduction logic system: all six operators and the twelve
/// rules, with no special variants.
pub fn get_system() -> (r: LogicSystem)
    ensures
        r.operators@ == seq![
            OperatorType::Not,
            OperatorType::Impl,
            OperatorType::And,
            OperatorType::Or,
            OperatorType::Top,
            OperatorType::Bottom,
        ],
        r.rules@ == natural_rules(),
        r.special_rules@.len() == r.rules@.len(),
        forall|i: int| 0 <= i < r.special_rules@.len() ==> r.special_rules@[i] is None,
{
    let operators = vec![
        OperatorType::Not,
        OperatorType::Impl,
        OperatorType::And,
        OperatorType::Or,
        OperatorType::Top,
        OperatorType::Bottom,
    ];
    let rules = vec![
        RuleTag::NotIntro,
        RuleTag::NotElim,
        RuleTag::ImplIntro,
        RuleTag::ImplElim,
        RuleTag::AndIntro,
        RuleTag::AndElim,
        RuleTag::OrIntro,
        RuleTag::OrElim,
        RuleTag::TopIntro,
        RuleTag::BottomElim,
        RuleTag::Reductio,
        RuleTag::AxiomRule,
    ];
    let special_rules: Vec<Option<RuleTag>> = vec![
        Option::None,
        Option::None,
        Option::None,
        Option::None,
        Option::None,
        Option::None,
        Option::None,
        Option::None,
        Option::None,
        Option::None,
        Option::None,
        Option::None,
    ];
    proof {
        assert(operators@ =~= seq![
            OperatorType::Not,
            OperatorType::Impl,
            OperatorType::And,
            OperatorType::Or,
            OperatorType::Top,
            OperatorType::Bottom,
        ]);
        assert(rules@ =~= natural_rules());
    }
    LogicSystem { operators, rules, special_rules }
}

/// Rewrite a goal with the rule named by `tag`.  On success the sub-goal
/// sequents and the number of fresh placeholder ids are returned; on a
/// failed precondition the goal is left for another rule.
pub fn rule_create_branches(tag: RuleTag, root: &Sequent) -> (r: (Option<Vec<Sequent>>, u32))
    requires
        sequent_wf(*root),
    ensures
        r.0 is Some <==> rule_precondition(tag, *root),
        r.0 matches Option::Some(bs) ==> {
            &&& rule_branches_ok(tag, *root, bs@)
            &&& r.1 == rule_field_count(tag)
            &&& (sequent_complete(*root) ==> sequents_fields(bs@) == rule_fresh_fields(tag)
                && (forall|i: int| 0 <= i < bs@.len() ==> sequent_wf(#[trigger] bs@[i])))
        },
        r.0 is None ==> r.1 == 0,
{
    let r = match tag {
        RuleTag::NotIntro => (NotI {}).create_branches(root),
        RuleTag::NotElim => (NotE {}).create_branches(root),
        RuleTag::ImplIntro => (ImplI {}).create_branches(root),
        RuleTag::ImplElim => (ImplE {}).create_branches(root),
        RuleTag::AndIntro => (AndI {}).create_branches(root),
        RuleTag::AndElim => (AndE {}).create_branches(root),
        RuleTag::OrIntro => (OrI {}).create_branches(root),
        RuleTag::OrElim => (OrE {}).create_branches(root),
        RuleTag::TopIntro => (TopI {}).create_branches(root),
        RuleTag::BottomElim => (BottomE {}).create_branches(root),
        RuleTag::Reductio => (RAA {}).create_branches(root),
        RuleTag::AxiomRule => (Axiom {}).create_branches(root),
    };
    proof {
        if r.0 is Some && sequent_complete(*root) {
            lemma_rule_branch_fields(tag, *root, r.0->0@);
        }
    }
    r
}

/// Field and well-formedness bookkeeping for each rule's sub-goals: applied
/// to a complete, well-formed goal, the sub-goals are well formed and their
/// placeholder fields are exactly the rule's fresh holes.
#[verifier::rlimit(100)]
#[verifier::spinoff_prover]
proof fn lemma_rule_branch_fields(tag: RuleTag, root: Sequent, bs: Seq<Sequent>)
    requires
        sequent_wf(root),
        sequent_complete(root),
        rule_precondition(tag, root),
        rule_branches_ok(tag, root, bs),
    ensures
        sequents_fields(bs) == rule_fresh_fields(tag),
        forall|i: int| 0 <= i < bs.len() ==> sequent_wf(#[trigger] bs[i]),
{
    lemma_root_parts(root);
    lemma_sequents_fields_small(bs);
    reveal_with_fuel(crate::formula::formula_fields, 4);
    reveal_with_fuel(crate::formula::opt_fields, 4);
    reveal_with_fuel(crate::formula::formula_wf, 4);
    let before = root.before@;
    let after = root.after@;
    match tag {
        RuleTag::NotIntro => {
            let i = first_op_index(after, OperatorType::Not)->0;
            lemma_first_op_from_spec(after, OperatorType::Not, 0);
            lemma_op_parts(after[i]);
            let a1 = arg1_of(after[i]);
            crate::sequent::lemma_formulas_fields_complete_ops(before, a1);
            crate::sequent::lemma_formulas_fields_update_complete(
                after,
                i,
                op0(OperatorType::Bottom),
            );
            crate::sequent::lemma_formulas_wf_ops(before, a1);
            crate::sequent::lemma_formulas_wf_ops(after, op0(OperatorType::Bottom));
            assert(sequents_fields(bs) =~= rule_fresh_fields(tag));
        },
        RuleTag::NotElim => {
            let i = first_op_index(after, OperatorType::Bottom)->0;
            lemma_first_op_from_spec(after, OperatorType::Bottom, 0);
            crate::sequent::lemma_formulas_fields_update_complete(after, i, hole(0, 0, 0));
            crate::sequent::lemma_formulas_fields_update_complete(
                after,
                i,
                op1(OperatorType::Not, hole(0, 0, 0)),
            );
            crate::sequent::lemma_formulas_wf_ops(after, hole(0, 0, 0));
            crate::sequent::lemma_formulas_wf_ops(after, op1(OperatorType::Not, hole(0, 0, 0)));
            assert(sequents_fields(bs) =~= rule_fresh_fields(tag));
        },
        RuleTag::ImplIntro => {
            let i = first_op_index(after, OperatorType::Impl)->0;
            lemma_first_op_from_spec(after, OperatorType::Impl, 0);
            lemma_op_parts(after[i]);
            let a1 = arg1_of(after[i]);
            let a2 = arg2_of(after[i]);
            crate::sequent::lemma_formulas_fields_concat(seq![a1], before);
            assert(crate::sequent::formulas_fields(seq![a1]) =~= formula_fields(a1)) by {
                reveal_with_fuel(crate::sequent::formulas_fields, 2);
            }
            crate::sequent::lemma_formulas_fields_update_complete(after, i, a2);
            crate::sequent::lemma_formulas_wf_ops(before, a1);
            crate::sequent::lemma_formulas_wf_ops(after, a2);
            assert(sequents_fields(bs) =~= rule_fresh_fields(tag));
        },
        RuleTag::ImplElim => {
            let f = op2(OperatorType::Impl, hole(0, 0, 0), after[0]);
            crate::sequent::lemma_formulas_fields_complete_ops(after, f);
            crate::sequent::lemma_formulas_fields_complete_ops(after, hole(0, 0, 0));
            crate::sequent::lemma_formulas_wf_ops(after, f);
            crate::sequent::lemma_formulas_wf_ops(after, hole(0, 0, 0));
            assert(formula_fields(f) =~= seq![FormulaField { id: 0, next_id: 0, prev_id: 0 }]);
            assert(sequents_fields(bs) =~= rule_fresh_fields(tag));
        },
        RuleTag::AndIntro => {
            let i = first_op_index(after, OperatorType::And)->0;
            lemma_first_op_from_spec(after, OperatorType::And, 0);
            lemma_op_parts(after[i]);
            crate::sequent::lemma_formulas_fields_update_complete(after, i, arg1_of(after[i]));
            crate::sequent::lemma_formulas_fields_update_complete(after, i, arg2_of(after[i]));
            crate::sequent::lemma_formulas_wf_ops(after, arg1_of(after[i]));
            crate::sequent::lemma_formulas_wf_ops(after, arg2_of(after[i]));
            assert(sequents_fields(bs) =~= rule_fresh_fields(tag));
        },
        RuleTag::AndElim => {
            crate::sequent::lemma_formulas_fields_update_complete(after, 0, and_e_conjunction());
            crate::sequent::lemma_formulas_wf_ops(after, and_e_conjunction());
            assert(formula_fields(and_e_conjunction()) =~= seq![
                FormulaField { id: 0, next_id: 1, prev_id: 1 },
                FormulaField { id: 1, next_id: 0, prev_id: 0 },
            ]);
            assert(sequents_fields(bs) =~= rule_fresh_fields(tag));
        },
        RuleTag::OrIntro => {
            let i = first_op_index(after, OperatorType::Or)->0;
            lemma_first_op_from_spec(after, OperatorType::Or, 0);
            crate::sequent::lemma_formulas_fields_update_complete(after, i, hole(0, 0, 0));
            crate::sequent::lemma_formulas_wf_ops(after, hole(0, 0, 0));
            assert(sequents_fields(bs) =~= rule_fresh_fields(tag));
        },
        RuleTag::OrElim => {
            let f = op2(OperatorType::Or, hole(0, 1, 1), hole(1, 0, 0));
            crate::sequent::lemma_formulas_fields_complete_ops(before, hole(0, 1, 1));
            crate::sequent::lemma_formulas_fields_complete_ops(before, hole(1, 0, 0));
            crate::sequent::lemma_formulas_fields_complete_ops(after, f);
            crate::sequent::lemma_formulas_wf_ops(before, hole(0, 1, 1));
            crate::sequent::lemma_formulas_wf_ops(before, hole(1, 0, 0));
            crate::sequent::lemma_formulas_wf_ops(after, f);
            assert(formula_fields(f) =~= seq![
                FormulaField { id: 0, next_id: 1, prev_id: 1 },
                FormulaField { id: 1, next_id: 0, prev_id: 0 },
            ]);
            assert(sequents_fields(bs) =~= rule_fresh_fields(tag));
        },
        RuleTag::TopIntro => {
            assert(sequents_fields(bs) =~= rule_fresh_fields(tag));
        },
        RuleTag::BottomElim => {
            crate::sequent::lemma_formulas_fields_complete_ops(after, op0(OperatorType::Bottom));
            crate::sequent::lemma_formulas_wf_ops(after, op0(OperatorType::Bottom));
            assert(sequents_fields(bs) =~= rule_fresh_fields(tag));
        },
        RuleTag::Reductio => {
            let f = op1(OperatorType::Not, after[0]);
            crate::sequent::lemma_formulas_fields_complete_ops(before, f);
            crate::sequent::lemma_formulas_fields_complete_ops(after, op0(OperatorType::Bottom));
            crate::sequent::lemma_formulas_wf_ops(before, f);
            crate::sequent::lemma_formulas_wf_ops(after, op0(OperatorType::Bottom));
            assert(sequents_fields(bs) =~= rule_fresh_fields(tag));
        },
        RuleTag::AxiomRule => {
            assert(sequents_fields(bs) =~= rule_fresh_fields(tag));
        },
    }
}

/// Judge a completed node against the side conditions of the rule named by
/// `tag`.
pub fn rule_check_validity(tag: RuleTag, proof: &Proof) -> (r: bool)
    ensures
        r == rule_valid(tag, *proof),
{
    match tag {
        RuleTag::NotIntro => (NotI {}).check_validity(proof),
        RuleTag::NotElim => (NotE {}).check_validity(proof),
        RuleTag::ImplIntro => (ImplI {}).check_validity(proof),
        RuleTag::ImplElim => (ImplE {}).check_validity(proof),
        RuleTag::AndIntro => (AndI {}).check_validity(proof),
        RuleTag::AndElim => (AndE {}).check_validity(proof),
        RuleTag::OrIntro => (OrI {}).check_validity(proof),
        RuleTag::OrElim => (OrE {}).check_validity(proof),
        RuleTag::TopIntro => (TopI {}).check_validity(proof),
        RuleTag::BottomElim => (BottomE {}).check_validity(proof),
        RuleTag::Reductio => (RAA {}).check_validity(proof),
        RuleTag::AxiomRule => (Axiom {}).check_validity(proof),
    }
}

/// The display label of each rule.
pub open spec fn rule_label(tag: RuleTag) -> Seq<char> {
    match tag {
        RuleTag::NotIntro => "¬i"@,
        RuleTag::NotElim => "¬e"@,
        RuleTag::ImplIntro => "→i"@,
        RuleTag::ImplElim => "→e"@,
        RuleTag::AndIntro => "∧i"@,
        RuleTag::AndElim => "∧e"@,
        RuleTag::OrIntro => "∨i"@,
        RuleTag::OrElim => "∨e"@,
        RuleTag::TopIntro => "⊤i"@,
        RuleTag::BottomElim => "⊥e"@,
        RuleTag::Reductio => "RAA"@,
        RuleTag::AxiomRule => "Ax"@,
    }
}

/// The display label of the rule named by `tag`.
pub fn rule_display_text(tag: RuleTag) -> (r: &'static str)
    ensures
        r@ == rule_label(tag),
{
    match tag {
        RuleTag::NotIntro => (NotI {}).display_text(),
        RuleTag::NotElim => (NotE {}).display_text(),
        RuleTag::ImplIntro => (ImplI {}).display_text(),
        RuleTag::ImplElim => (ImplE {}).display_text(),
        RuleTag::AndIntro => (AndI {}).display_text(),
        RuleTag::AndElim => (AndE {}).display_text(),
        RuleTag::OrIntro => (OrI {}).display_text(),
        RuleTag::OrElim => (OrE {}).display_text(),
        RuleTag::TopIntro => (TopI {}).display_text(),
        RuleTag::BottomElim => (BottomE {}).display_text(),
        RuleTag::Reductio => (RAA {}).display_text(),
        RuleTag::AxiomRule => (Axiom {}).display_text(),
    }
}

/// The roots of a list of proof nodes.
pub open spec fn roots_of(ps: Seq<Proof>) -> Seq<Sequent> {
    ps.map_values(|q: Proof| q.root)
}

/// Freshly materialised open goals: leaves with no rule applied, numbered
/// consecutively from `npi0`.
pub open spec fn fresh_goals(ps: Seq<Proof>, npi0: u32) -> bool {
    forall|i: int|
        0 <= i < ps.len() ==> {
            &&& (#[trigger] ps[i]).rule_id is None
            &&& ps[i].branches@.len() == 0
            &&& !ps[i].is_rule_invalid
            &&& ps[i].id == npi0 + i
        }
}

/// What applying rule `idx` (behaving as `tag`) at the first open goal does
/// to the tree: the goal node records the rule and gains the rule's
/// sub-goals as fresh open branches; every other node is unchanged.
pub open spec fn apply_rel(a: Proof, b: Proof, tag: RuleTag, idx: u32, npi0: u32) -> bool
    decreases a,
{
    if a.rule_id is None {
        &&& sequent_equal(b.root, a.root)
        &&& b.rule_id == Option::Some(idx)
        &&& b.id == a.id
        &&& b.is_rule_invalid == a.is_rule_invalid
        &&& rule_branches_ok(tag, a.root, roots_of(b.branches@))
        &&& fresh_goals(b.branches@, npi0)
    } else {
        &&& sequent_equal(b.root, a.root)
        &&& b.rule_id == a.rule_id
        &&& b.id == a.id
        &&& b.is_rule_invalid == a.is_rule_invalid
        &&& b.branches@.len() == a.branches@.len()
        &&& exists|k: int|
            #![trigger a.branches@[k]]
            {
                &&& 0 <= k < a.branches@.len()
                &&& first_open(a.branches@[k]) is Some
                &&& apply_rel(a.branches@[k], b.branches@[k], tag, idx, npi0)
                &&& (forall|j: int| 0 <= j < k ==> first_open(#[trigger] a.branches@[j]) is None)
                &&& (forall|j: int|
                    0 <= j < a.branches@.len() && j != k ==> proof_equal(
                        #[trigger] a.branches@[j],
                        b.branches@[j],
                    ))
            }
    }
}

/// Build one fresh open goal per sub-goal sequent.
fn materialise_goals(bs: &Vec<Sequent>, next_proof_index: &mut u32) -> (r: Vec<Proof>)
    requires
        *old(next_proof_index) + bs@.len() <= u32::MAX,
    ensures
        *final(next_proof_index) == *old(next_proof_index) + bs@.len(),
        r@.len() == bs@.len(),
        fresh_goals(r@, *old(next_proof_index)),
        forall|i: int| 0 <= i < bs@.len() ==> sequent_equal(#[trigger] r@[i].root, bs@[i]),
{
    let mut r: Vec<Proof> = Vec::new();
    let mut i: usize = 0;
    while i < bs.len()
        invariant
            0 <= i <= bs@.len(),
            r@.len() == i,
            *next_proof_index == *old(next_proof_index) + i,
            *old(next_proof_index) + bs@.len() <= u32::MAX,
            fresh_goals(r@, *old(next_proof_index)),
            forall|j: int| 0 <= j < i ==> sequent_equal(#[trigger] r@[j].root, bs@[j]),
        decreases bs@.len() - i,
    {
        let node = crate::prooftree::sequent_as_empty_proof(bs[i].clone(), next_proof_index);
        r.push(node);
        i += 1;
    }
    r
}

/// Attach sub-goal nodes at the first open goal, recording the rule there.
fn attach_first_open(p: &Proof, bs: &Vec<Proof>, idx: u32) -> (r: Proof)
    requires
        first_open(*p) is Some,
    ensures
        apply_rel_shape(*p, r, bs@, idx),
    decreases *p,
{
    if p.rule_id.is_none() {
        let mut nb: Vec<Proof> = Vec::new();
        let mut i: usize = 0;
        while i < bs.len()
            invariant
                0 <= i <= bs@.len(),
                nb@.len() == i,
                forall|j: int| 0 <= j < i ==> proof_equal(#[trigger] nb@[j], bs@[j]),
            decreases bs@.len() - i,
        {
            nb.push(bs[i].clone());
            i += 1;
        }
        return Proof {
            root: p.root.clone(),
            branches: nb,
            rule_id: Option::Some(idx),
            id: p.id,
            is_rule_invalid: p.is_rule_invalid,
        };
    }
    let n = p.branches.len();
    let mut nb: Vec<Proof> = Vec::new();
    let mut done = false;
    let ghost mut kk: int = 0;
    let mut i: usize = 0;
    while i < n
        invariant
            0 <= i <= n,
            n == p.branches@.len(),
            p.rule_id is Some,
            first_open(*p) is Some,
            nb@.len() == i,
            !done ==> first_open_in(*p, 0) == first_open_in(*p, i as int),
            !done ==> forall|j: int| 0 <= j < i ==> proof_equal(
                #[trigger] p.branches@[j],
                nb@[j],
            ) && first_open(p.branches@[j]) is None,
            done ==> {
                &&& 0 <= kk < i
                &&& first_open(p.branches@[kk]) is Some
                &&& apply_rel_shape(p.branches@[kk], nb@[kk], bs@, idx)
                &&& (forall|j: int| 0 <= j < kk ==> first_open(#[trigger] p.branches@[j]) is None)
                &&& (forall|j: int|
                    0 <= j < i && j != kk ==> proof_equal(#[trigger] p.branches@[j], nb@[j]))
            },
        decreases n - i,
    {
        if !done && crate::prooftree::get_first_unfinished_proof(&p.branches[i]).is_some() {
            nb.push(attach_first_open(&p.branches[i], bs, idx));
            proof {
                kk = i as int;
            }
            done = true;
        } else {
            nb.push(p.branches[i].clone());
            proof {
                crate::prooftree::lemma_proof_equal_sym(
                    nb@[i as int],
                    p.branches@[i as int],
                );
            }
        }
        i += 1;
    }
    if !done {
        proof {
            assert(first_open_in(*p, n as int) is None);
            assert(false);
        }
    }
    Proof {
        root: p.root.clone(),
        branches: nb,
        rule_id: p.rule_id,
        id: p.id,
        is_rule_invalid: p.is_rule_invalid,
    }
}

/// The shape `attach_first_open` guarantees: the rule is recorded at the
/// first open goal, whose branches become (copies of) `bs`; everything else
/// is unchanged.
pub open spec fn apply_rel_shape(a: Proof, b: Proof, bs: Seq<Proof>, idx: u32) -> bool
    decreases a,
{
    if a.rule_id is None {
        &&& sequent_equal(b.root, a.root)
        &&& b.rule_id == Option::Some(idx)
        &&& b.id == a.id
        &&& b.is_rule_invalid == a.is_rule_invalid
        &&& b.branches@.len() == bs.len()
        &&& forall|i: int| 0 <= i < bs.len() ==> proof_equal(#[trigger] b.branches@[i], bs[i])
    } else {
        &&& sequent_equal(b.root, a.root)
        &&& b.rule_id == a.rule_id
        &&& b.id == a.id
        &&& b.is_rule_invalid == a.is_rule_invalid
        &&& b.branches@.len() == a.branches@.len()
        &&& exists|k: int|
            #![trigger a.branches@[k]]
            {
                &&& 0 <= k < a.branches@.len()
                &&& first_open(a.branches@[k]) is Some
                &&& apply_rel_shape(a.branches@[k], b.branches@[k], bs, idx)
                &&& (forall|j: int| 0 <= j < k ==> first_open(#[trigger] a.branches@[j]) is None)
                &&& (forall|j: int|
                    0 <= j < a.branches@.len() && j != k ==> proof_equal(
                        #[trigger] a.branches@[j],
                        b.branches@[j],
                    ))
            }
    }
}

proof fn lemma_leaf_proofs_fields(ps: Seq<Proof>)
    requires
        forall|i: int| 0 <= i < ps.len() ==> (#[trigger] ps[i]).branches@.len() == 0,
    ensures
        proofs_fields(ps) == sequents_fields(roots_of(ps)),
    decreases ps,
{
    reveal_with_fuel(proofs_fields, 2);
    reveal_with_fuel(sequents_fields, 2);
    if ps.len() == 0 {
        assert(proofs_fields(ps) =~= sequents_fields(roots_of(ps)));
    } else {
        assert(proof_fields(ps[0]) =~= sequent_fields(ps[0].root)) by {
            assert(proofs_fields(ps[0].branches@) =~= Seq::<FormulaField>::empty());
        }
        assert(forall|j: int| 0 <= j < ps.len() - 1 ==> #[trigger] ps.drop_first()[j] == ps[j
            + 1]);
        lemma_leaf_proofs_fields(ps.drop_first());
        assert(roots_of(ps)[0] == ps[0].root);
        assert(roots_of(ps).drop_first() =~= roots_of(ps.drop_first()));
        assert(proofs_fields(ps) =~= sequents_fields(roots_of(ps)));
    }
}

proof fn lemma_rule_branches_ok_views(tag: RuleTag, root: Sequent, bs1: Seq<Sequent>, bs2: Seq<
    Sequent>)
    requires
        rule_branches_ok(tag, root, bs1),
        bs2.len() == bs1.len(),
        forall|i: int|
            0 <= i < bs1.len() ==> (#[trigger] bs2[i]).before@ == bs1[i].before@ && bs2[i].after@
                == bs1[i].after@,
    ensures
        rule_branches_ok(tag, root, bs2),
{
}

/// The fresh holes a rule introduces are themselves a well-formed registry,
/// numbered from 0 up to the rule's field count.
proof fn lemma_rule_fresh_fields_wf(tag: RuleTag)
    ensures
        crate::fields::fields_wf(rule_fresh_fields(tag)),
        forall|e: FormulaField|
            #[trigger] rule_fresh_fields(tag).contains(e) ==> e.id < rule_field_count(tag)
                && e.next_id < rule_field_count(tag) && e.prev_id < rule_field_count(tag),
        rule_field_count(tag) > 0 ==> crate::fields::has_id(rule_fresh_fields(tag), 0),
{
    let fs = rule_fresh_fields(tag);
    let solo = FormulaField { id: 0, next_id: 0, prev_id: 0 };
    let first = FormulaField { id: 0, next_id: 1, prev_id: 1 };
    let second = FormulaField { id: 1, next_id: 0, prev_id: 0 };
    match tag {
        RuleTag::NotElim | RuleTag::ImplElim | RuleTag::OrIntro => {
            assert(fs.contains(solo)) by {
                assert(fs[0] == solo);
            }
            assert forall|x: FormulaField| #[trigger] fs.contains(x) implies x == solo by {
                let i = choose|i: int| 0 <= i < fs.len() && fs[i] == x;
            }
            assert forall|y: FormulaField|
                fs.contains(y) && #[trigger] crate::fields::linked_at(fs, y) implies {
                &&& crate::fields::has_id(fs, y.next_id)
                &&& crate::fields::has_id(fs, y.prev_id)
                &&& crate::fields::record_of(fs, y.next_id).prev_id == y.id
                &&& crate::fields::record_of(fs, y.prev_id).next_id == y.id
            } by {
                crate::fields::lemma_record_of(fs, solo);
            }
        },
        RuleTag::AndElim | RuleTag::OrElim => {
            assert(fs.contains(first)) by {
                assert(fs[0] == first);
            }
            assert(fs.contains(second)) by {
                assert(fs[1] == second);
            }
            assert forall|x: FormulaField| #[trigger] fs.contains(x) implies x == first || x
                == second by {
                let i = choose|i: int| 0 <= i < fs.len() && fs[i] == x;
            }
            assert forall|y: FormulaField|
                fs.contains(y) && #[trigger] crate::fields::linked_at(fs, y) implies {
                &&& crate::fields::has_id(fs, y.next_id)
                &&& crate::fields::has_id(fs, y.prev_id)
                &&& crate::fields::record_of(fs, y.next_id).prev_id == y.id
                &&& crate::fields::record_of(fs, y.prev_id).next_id == y.id
            } by {
                crate::fields::lemma_record_of(fs, first);
                crate::fields::lemma_record_of(fs, second);
            }
        },
        _ => {
            assert(fs.len() == 0);
            assert forall|x: FormulaField| !(#[trigger] fs.contains(x)) by {}
        },
    }
}

/// `apply_rel_shape` together with the rule facts yields the full apply
/// relation, the exact fresh fields, and well-formed sequents throughout.
#[verifier::rlimit(100)]
#[verifier::spinoff_prover]
proof fn lemma_apply_shape_props(
    a: Proof,
    b: Proof,
    bs: Seq<Proof>,
    tag: RuleTag,
    idx: u32,
    npi0: u32,
)
    requires
        apply_rel_shape(a, b, bs, idx),
        first_open(a) is Some,
        proof_sequents_wf(a),
        proof_fields(a).len() == 0,
        rule_precondition(tag, first_open(a)->0.root),
        rule_branches_ok(tag, first_open(a)->0.root, roots_of(bs)),
        fresh_goals(bs, npi0),
    ensures
        apply_rel(a, b, tag, idx, npi0),
        proof_fields(b) == rule_fresh_fields(tag),
        proof_sequents_wf(b),
    decreases a,
{
    crate::prooftree::lemma_proofs_fields_parts(a.branches@);
    crate::sequent::lemma_formulas_fields_parts(a.root.before@);
    crate::sequent::lemma_formulas_fields_parts(a.root.after@);
    if a.rule_id is None {
        assert(first_open(a) == Option::Some(a));
        // the attached branches behave like the materialised goals
        assert(b.branches@.len() == bs.len());
        assert forall|i: int| 0 <= i < bs.len() implies (#[trigger] roots_of(b.branches@)[i]).before@
            == roots_of(bs)[i].before@ && roots_of(b.branches@)[i].after@ == roots_of(
            bs,
        )[i].after@ && b.branches@[i].branches@.len() == 0 && b.branches@[i].rule_id is None && !b.branches@[i].is_rule_invalid && b.branches@[i].id == npi0 + i by {
            assert(proof_equal(b.branches@[i], bs[i]));
            assert(roots_of(b.branches@)[i] == b.branches@[i].root);
            assert(roots_of(bs)[i] == bs[i].root);
        }
        lemma_rule_branches_ok_views(tag, a.root, roots_of(bs), roots_of(b.branches@));
        assert(fresh_goals(b.branches@, npi0));
        assert(apply_rel(a, b, tag, idx, npi0));
        // fields
        lemma_rule_branch_fields(tag, a.root, roots_of(b.branches@));
        assert forall|i: int| 0 <= i < b.branches@.len() implies (
        #[trigger] b.branches@[i]).branches@.len() == 0 by {}
        lemma_leaf_proofs_fields(b.branches@);
        assert(sequent_fields(b.root).len() == 0);
        assert(proof_fields(b) =~= rule_fresh_fields(tag));
        // well-formedness
        assert forall|i: int| 0 <= i < b.branches@.len() implies proof_sequents_wf(
            #[trigger] b.branches@[i],
        ) by {
            assert(sequent_wf(roots_of(b.branches@)[i]));
        }
        assert(proof_sequents_wf(b));
    } else {
        let k = choose|k: int|
            #![trigger a.branches@[k]]
            {
                &&& 0 <= k < a.branches@.len()
                &&& first_open(a.branches@[k]) is Some
                &&& apply_rel_shape(a.branches@[k], b.branches@[k], bs, idx)
                &&& (forall|j: int| 0 <= j < k ==> first_open(#[trigger] a.branches@[j]) is None)
                &&& (forall|j: int|
                    0 <= j < a.branches@.len() && j != k ==> proof_equal(
                        #[trigger] a.branches@[j],
                        b.branches@[j],
                    ))
            };
        crate::prooftree::lemma_first_open_at_branch(a, k);
        lemma_apply_shape_props(a.branches@[k], b.branches@[k], bs, tag, idx, npi0);
        assert(apply_rel(a, b, tag, idx, npi0));
        // fields: every untouched branch stays field-free
        assert forall|j: int|
            0 <= j < b.branches@.len() && j != k implies proof_fields(
            #[trigger] b.branches@[j],
        ).len() == 0 by {
            crate::prooftree::lemma_proof_equal_fields(a.branches@[j], b.branches@[j]);
        }
        crate::prooftree::lemma_proofs_fields_single(b.branches@, k);
        assert(sequent_fields(b.root).len() == 0);
        assert(proof_fields(b) =~= rule_fresh_fields(tag));
        assert forall|j: int| 0 <= j < b.branches@.len() implies proof_sequents_wf(
            #[trigger] b.branches@[j],
        ) by {
            if j != k {
                crate::prooftree::lemma_proof_equal_sequents_wf(a.branches@[j], b.branches@[j]);
            }
        }
        assert(proof_sequents_wf(b));
    }
}

/// The rule a session actually uses: the special variant when one exists
/// and the modifier is held, the plain rule otherwise.
pub open spec fn effective_tag(system: LogicSystem, i: int, special: bool) -> RuleTag {
    if special && system.special_rules@[i] is Some {
        system.special_rules@[i]->0
    } else {
        system.rules@[i]
    }
}

/// Apply the rule at `rule_index` to the first open goal of the tree.
///
/// On success the goal records the rule, its sub-goals are attached as
/// fresh open nodes, and the number of fresh placeholder ids is returned;
/// the caller restarts its placeholder counter from that count.  `None`
/// reports a normal rejection — no open goal, or the rule's precondition
/// not met — and leaves the tree untouched.
pub fn apply_rule(
    proof: &mut Proof,
    rule_index: usize,
    special: bool,
    system: &LogicSystem,
    next_proof_index: &mut u32,
) -> (r: Option<u32>)
    requires
        rule_index < system.rules@.len(),
        system.special_rules@.len() == system.rules@.len(),
        system.rules@.len() <= 0xFFFF,
        proof_sequents_wf(*old(proof)),
        proof_fields(*old(proof)).len() == 0,
        *old(next_proof_index) + 3 <= u32::MAX,
    ensures
        ({
            let tag = effective_tag(*system, rule_index as int, special);
            match r {
                Option::Some(count) => {
                    &&& first_open(*old(proof)) is Some
                    &&& rule_precondition(tag, first_open(*old(proof))->0.root)
                    &&& count == rule_field_count(tag)
                    &&& apply_rel(
                        *old(proof),
                        *final(proof),
                        tag,
                        rule_index as u32,
                        *old(next_proof_index),
                    )
                    &&& proof_sequents_wf(*final(proof))
                    &&& proof_fields(*final(proof)) == rule_fresh_fields(tag)
                    &&& crate::fields::fields_wf(proof_fields(*final(proof)))
                    &&& (forall|e: FormulaField|
                        #[trigger] proof_fields(*final(proof)).contains(e) ==> e.id
                            < rule_field_count(tag))
                    &&& (count > 0 ==> crate::fields::has_id(proof_fields(*final(proof)), 0))
                    &&& *final(next_proof_index) == *old(next_proof_index) + rule_branch_count(
                        tag,
                    )
                },
                Option::None => {
                    &&& *final(proof) == *old(proof)
                    &&& *final(next_proof_index) == *old(next_proof_index)
                    &&& (first_open(*old(proof)) is None || !rule_precondition(
                        tag,
                        first_open(*old(proof))->0.root,
                    ))
                },
            }
        }),
{
    let tag: RuleTag = if special {
        match system.special_rules[rule_index] {
            Option::Some(t) => t,
            Option::None => system.rules[rule_index],
        }
    } else {
        system.rules[rule_index]
    };
    proof {
        crate::prooftree::lemma_first_open_props(*proof);
    }
    let goal_opt = crate::prooftree::get_first_unfinished_proof(proof);
    let created = match goal_opt {
        Option::None => {
            return Option::None;
        },
        Option::Some(goal) => rule_create_branches(tag, &goal.root),
    };
    match created.0 {
        Option::None => Option::None,
        Option::Some(bs) => {
            proof {
                assert(bs@.len() <= 3);
            }
            let goals = materialise_goals(&bs, next_proof_index);
            let newp = attach_first_open(proof, &goals, rule_index as u32);
            proof {
                let goal = first_open(*proof)->0;
                assert forall|i: int| 0 <= i < goals@.len() implies (#[trigger] roots_of(
                    goals@,
                )[i]).before@ == bs@[i].before@ && roots_of(goals@)[i].after@
                    == bs@[i].after@ by {
                    assert(roots_of(goals@)[i] == goals@[i].root);
                }
                lemma_rule_branches_ok_views(tag, goal.root, bs@, roots_of(goals@));
                lemma_apply_shape_props(
                    *proof,
                    newp,
                    goals@,
                    tag,
                    rule_index as u32,
                    *old(next_proof_index),
                );
                lemma_rule_fresh_fields_wf(tag);
            }
            *proof = newp;
            Option::Some(created.1)
        },
    }
}

/// A rule with no fresh ids leaves no fresh holes.
pub proof fn lemma_rule_fresh_count(tag: RuleTag)
    ensures
        rule_field_count(tag) == 0 ==> rule_fresh_fields(tag).len() == 0,
{
}

} // verus!
