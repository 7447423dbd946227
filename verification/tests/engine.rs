//! Scenario tests for the proof engine: rule application, the placeholder
//! registry, undo/redo round trips and the decision procedure.

use sequent::formula::Formula;
use sequent::formula::FormulaField;
use sequent::formula::Operator;
use sequent::formula::OperatorType;
use sequent::formula::create_uncompleted_operator;
use sequent::formula::execute_on_first_operator_of_type;
use sequent::formula::formula_eq;
use sequent::formula::get_operator_arity;
use sequent::formula::get_operator_priority;
use sequent::formula::get_operator_symbol;
use sequent::calcul::proof_or_fake;
use sequent::calcul::step_one_calc;
use sequent::calcul::SequentCalc;
use sequent::fields::formula_as_field;
use sequent::fields::search_fields_by_id_in_proof;
use sequent::prooftree::get_first_unfinished_proof;
use sequent::prooftree::proof_eq;
use sequent::rules::AndE;
use sequent::rules::AndI;
use sequent::rules::BottomE;
use sequent::rules::ImplE;
use sequent::rules::NotE;
use sequent::rules::NotI;
use sequent::rules::OrE;
use sequent::rules::OrI;
use sequent::rules::RAA;
use sequent::rules::TopI;
use sequent::rules::Axiom;
use sequent::rules::ImplI;
use sequent::rules::RuleTag;
use sequent::rules::rule_check_validity;
use sequent::rules::rule_display_text;
use sequent::sequent::Sequent;
use sequent::sequent::sequent_eq;
use sequent::session::get_initial_state;
use sequent::session::insert_operator;
use sequent::session::insert_rule;
use sequent::session::insert_variable;
use sequent::session::next_field;
use sequent::session::previous_field;
use sequent::session::redo;
use sequent::session::restart;
use sequent::session::undo;

fn var(i: u32) -> Formula {
    Formula::Variable(i)
}

fn not(f: Formula) -> Formula {
    Formula::Operator(Operator {
        operator_type: OperatorType::Not,
        arg1: Some(Box::new(f)),
        arg2: None,
    })
}

fn imp(a: Formula, b: Formula) -> Formula {
    Formula::Operator(Operator {
        operator_type: OperatorType::Impl,
        arg1: Some(Box::new(a)),
        arg2: Some(Box::new(b)),
    })
}

fn and(a: Formula, b: Formula) -> Formula {
    Formula::Operator(Operator {
        operator_type: OperatorType::And,
        arg1: Some(Box::new(a)),
        arg2: Some(Box::new(b)),
    })
}

fn or(a: Formula, b: Formula) -> Formula {
    Formula::Operator(Operator {
        operator_type: OperatorType::Or,
        arg1: Some(Box::new(a)),
        arg2: Some(Box::new(b)),
    })
}

fn bottom() -> Formula {
    Formula::Operator(Operator { operator_type: OperatorType::Bottom, arg1: None, arg2: None })
}

fn top() -> Formula {
    Formula::Operator(Operator { operator_type: OperatorType::Top, arg1: None, arg2: None })
}

fn sq(before: Vec<Formula>, after: Vec<Formula>) -> Sequent {
    Sequent { before, after }
}

// Decision procedure soundness on fixed inputs.

#[test]
fn decision_excluded_middle_provable() {
    assert!(proof_or_fake(sq(vec![], vec![or(var(0), not(var(0)))])));
}

#[test]
fn decision_bare_variable_not_provable() {
    assert!(!proof_or_fake(sq(vec![], vec![var(0)])));
}

#[test]
fn decision_identity_provable() {
    assert!(proof_or_fake(sq(vec![var(0)], vec![var(0)])));
}

#[test]
fn decision_modus_ponens_provable() {
    assert!(proof_or_fake(sq(vec![var(0), imp(var(0), var(1))], vec![var(1)])));
}

#[test]
fn decision_bottom_not_provable() {
    assert!(!proof_or_fake(sq(vec![], vec![bottom()])));
}

#[test]
fn decision_more_formulas() {
    // Peirce's law holds classically.
    assert!(proof_or_fake(sq(vec![], vec![imp(imp(imp(var(0), var(1)), var(0)), var(0))])));
    // ⊤ is provable, A ∧ ¬A is not.
    assert!(proof_or_fake(sq(vec![], vec![top()])));
    assert!(!proof_or_fake(sq(vec![], vec![and(var(0), not(var(0)))])));
    // ⊥ on the left closes anything.
    assert!(proof_or_fake(sq(vec![bottom()], vec![var(3)])));
}

#[test]
fn step_on_empty_queue_reports_proved() {
    let mut queue: Vec<SequentCalc> = Vec::new();
    assert_eq!(step_one_calc(&mut queue), Some(true));
}

// The interactive scenario of spec'd behaviour: ⊢ A→A closed by →i then Ax.

#[test]
fn scenario_implication_identity() {
    let start = sq(vec![], vec![imp(var(0), var(0))]);
    let mut gs = get_initial_state(start);
    // Implication introduction: one sub-goal A ⊢ A.
    assert!(insert_rule(&mut gs, 2, false));
    assert_eq!(gs.state.proof.branches.len(), 1);
    let sub = &gs.state.proof.branches[0].root;
    assert!(sequent_eq(sub, &sq(vec![var(0)], vec![var(0)])));
    // Axiom: closes the goal with zero branches.
    assert!(insert_rule(&mut gs, 11, false));
    assert_eq!(gs.state.proof.branches[0].branches.len(), 0);
    // The proof is complete.
    assert!(get_first_unfinished_proof(&gs.state.proof).is_none());
}

// Navigation is idempotent while nothing mutates the tree.

#[test]
fn first_open_goal_is_stable() {
    let start = sq(vec![], vec![imp(var(0), var(1))]);
    let mut gs = get_initial_state(start);
    assert!(insert_rule(&mut gs, 2, false));
    let id1 = get_first_unfinished_proof(&gs.state.proof).unwrap().id;
    let id2 = get_first_unfinished_proof(&gs.state.proof).unwrap().id;
    assert_eq!(id1, id2);
    let a = get_first_unfinished_proof(&gs.state.proof).unwrap().clone();
    let b = get_first_unfinished_proof(&gs.state.proof).unwrap();
    assert!(proof_eq(&a, b));
}

// Undo after apply restores the pre-apply tree; redo restores the applied
// tree.

#[test]
fn undo_redo_round_trip() {
    let start = sq(vec![], vec![imp(var(0), var(0))]);
    let mut gs = get_initial_state(start);
    let before = gs.state.proof.clone();
    assert!(insert_rule(&mut gs, 2, false));
    let after = gs.state.proof.clone();
    assert!(!proof_eq(&before, &after));
    assert!(undo(&mut gs));
    assert!(proof_eq(&gs.state.proof, &before));
    assert!(redo(&mut gs));
    assert!(proof_eq(&gs.state.proof, &after));
    // undoing twice runs off the stack
    assert!(undo(&mut gs));
    assert!(!undo(&mut gs));
}

#[test]
fn redo_without_undo_is_rejected() {
    let start = sq(vec![], vec![var(0)]);
    let mut gs = get_initial_state(start);
    assert!(!redo(&mut gs));
}

#[test]
fn restart_returns_to_initial_sequent() {
    let start = sq(vec![], vec![imp(var(0), var(0))]);
    let mut gs = get_initial_state(start);
    assert!(insert_rule(&mut gs, 2, false));
    restart(&mut gs);
    assert!(sequent_eq(&gs.state.proof.root, &sq(vec![], vec![imp(var(0), var(0))])));
    assert_eq!(gs.state.proof.branches.len(), 0);
    // the restart itself can be undone
    assert!(undo(&mut gs));
    assert_eq!(gs.state.proof.branches.len(), 1);
}

// And-elimination synthesises its conjunction and reports success at
// creation time; the validity check only fails after the holes are filled.

#[test]
fn and_elimination_on_bare_variable_goal() {
    let start = sq(vec![], vec![var(0)]);
    let mut gs = get_initial_state(start);
    assert!(insert_rule(&mut gs, 5, false));
    // one sub-goal whose consequent is a two-hole conjunction
    assert_eq!(gs.state.proof.branches.len(), 1);
    let sub = &gs.state.proof.branches[0].root;
    match &sub.after[0] {
        Formula::Operator(o) => {
            assert_eq!(o.operator_type, OperatorType::And);
            assert!(matches!(**o.arg1.as_ref().unwrap(), Formula::NotCompleted(_)));
            assert!(matches!(**o.arg2.as_ref().unwrap(), Formula::NotCompleted(_)));
        },
        _ => panic!("expected a conjunction"),
    }
    assert!(gs.state.editing_formulas);
    assert_eq!(gs.state.formulas_position, Some(0));
    // fill both holes with the wrong variable: creation already succeeded,
    // the validity check fails only now and the node is marked
    assert!(insert_variable(&mut gs, 1));
    assert!(insert_variable(&mut gs, 1));
    assert!(gs.state.editing_formulas);
    assert_eq!(gs.state.formulas_position, None);
    assert!(gs.state.proof.is_rule_invalid);
    assert!(!rule_check_validity(RuleTag::AndElim, &gs.state.proof));
}

#[test]
fn and_elimination_valid_choice_passes() {
    let start = sq(vec![and(var(0), var(1))], vec![var(0)]);
    let mut gs = get_initial_state(start);
    assert!(insert_rule(&mut gs, 5, false));
    // fill the conjunction with A ∧ B, matching the goal A
    assert!(insert_variable(&mut gs, 0));
    assert!(insert_variable(&mut gs, 1));
    assert!(!gs.state.editing_formulas);
    assert!(!gs.state.proof.is_rule_invalid);
    assert!(rule_check_validity(RuleTag::AndElim, &gs.state.proof));
}

// The placeholder registry: filling a hole consumes its id everywhere, new
// holes are locatable and correctly linked.

#[test]
fn placing_operator_consumes_and_links_holes() {
    let start = sq(vec![], vec![var(0)]);
    let mut gs = get_initial_state(start);
    assert!(insert_rule(&mut gs, 5, false));
    // two linked holes 0 and 1
    let fields = search_fields_by_id_in_proof(&gs.state.proof, None);
    assert_eq!(fields.len(), 2);
    assert_eq!(fields[0], FormulaField { id: 0, next_id: 1, prev_id: 1 });
    assert_eq!(fields[1], FormulaField { id: 1, next_id: 0, prev_id: 0 });
    // place a conjunction into hole 0: holes 2 and 3 replace it
    assert!(insert_operator(&mut gs, OperatorType::And));
    assert_eq!(gs.state.formulas_position, Some(2));
    assert_eq!(search_fields_by_id_in_proof(&gs.state.proof, Some(0)).len(), 0);
    let f2 = search_fields_by_id_in_proof(&gs.state.proof, Some(2));
    let f3 = search_fields_by_id_in_proof(&gs.state.proof, Some(3));
    let f1 = search_fields_by_id_in_proof(&gs.state.proof, Some(1));
    assert_eq!(f2, vec![FormulaField { id: 2, next_id: 3, prev_id: 1 }]);
    assert_eq!(f3, vec![FormulaField { id: 3, next_id: 1, prev_id: 2 }]);
    assert_eq!(f1, vec![FormulaField { id: 1, next_id: 2, prev_id: 3 }]);
}

#[test]
fn placing_variable_consumes_hole_and_splices() {
    let start = sq(vec![], vec![var(0)]);
    let mut gs = get_initial_state(start);
    assert!(insert_rule(&mut gs, 5, false));
    assert!(insert_variable(&mut gs, 4));
    // hole 0 is gone, hole 1 links to itself
    assert_eq!(search_fields_by_id_in_proof(&gs.state.proof, Some(0)).len(), 0);
    let f1 = search_fields_by_id_in_proof(&gs.state.proof, Some(1));
    assert_eq!(f1, vec![FormulaField { id: 1, next_id: 1, prev_id: 1 }]);
}

#[test]
fn unary_operator_keeps_hole_id_and_links() {
    let start = sq(vec![], vec![var(0)]);
    let mut gs = get_initial_state(start);
    assert!(insert_rule(&mut gs, 5, false));
    assert!(insert_operator(&mut gs, OperatorType::Not));
    // the hole under the negation kept id 0 and its links
    assert_eq!(gs.state.formulas_position, Some(0));
    let f0 = search_fields_by_id_in_proof(&gs.state.proof, Some(0));
    assert_eq!(f0, vec![FormulaField { id: 0, next_id: 1, prev_id: 1 }]);
}

#[test]
fn field_navigation_follows_links() {
    let start = sq(vec![], vec![var(0)]);
    let mut gs = get_initial_state(start);
    assert!(insert_rule(&mut gs, 5, false));
    assert_eq!(gs.state.formulas_position, Some(0));
    assert!(next_field(&mut gs));
    assert_eq!(gs.state.formulas_position, Some(1));
    assert!(next_field(&mut gs));
    assert_eq!(gs.state.formulas_position, Some(0));
    assert!(previous_field(&mut gs));
    assert_eq!(gs.state.formulas_position, Some(1));
}

// A hole shared between branches is filled everywhere at once.

#[test]
fn shared_hole_filled_in_both_branches() {
    let start = sq(vec![var(0)], vec![var(1)]);
    let mut gs = get_initial_state(start);
    // Implication elimination: two branches share hole 0
    assert!(insert_rule(&mut gs, 3, false));
    let shared = search_fields_by_id_in_proof(&gs.state.proof, Some(0));
    assert_eq!(shared.len(), 2);
    assert!(insert_variable(&mut gs, 0));
    assert_eq!(search_fields_by_id_in_proof(&gs.state.proof, Some(0)).len(), 0);
    // both branches now mention A where the hole was
    let b0 = &gs.state.proof.branches[0].root;
    let b1 = &gs.state.proof.branches[1].root;
    assert!(sequent_eq(b0, &sq(vec![var(0)], vec![imp(var(0), var(1))])));
    assert!(sequent_eq(b1, &sq(vec![var(0)], vec![var(0)])));
}

// Rejected rules leave the tree unchanged.

#[test]
fn rejected_rule_changes_nothing() {
    let start = sq(vec![], vec![var(0)]);
    let mut gs = get_initial_state(start);
    let before = gs.state.proof.clone();
    // Implication introduction needs an implication on the right
    assert!(!insert_rule(&mut gs, 2, false));
    assert!(proof_eq(&gs.state.proof, &before));
    assert_eq!(gs.undo_stack.len(), 0);
    // Top introduction needs ⊤ on the right
    assert!(!insert_rule(&mut gs, 8, false));
    // Axiom needs a matching antecedent
    assert!(!insert_rule(&mut gs, 11, false));
}

// Direct rule-level checks.

#[test]
fn axiom_rule_closes_matching_goal() {
    let (branches, count) = Axiom {}.create_branches(&sq(vec![var(2)], vec![var(2)]));
    assert_eq!(count, 0);
    assert_eq!(branches.unwrap().len(), 0);
    let (rejected, _) = Axiom {}.create_branches(&sq(vec![var(1)], vec![var(2)]));
    assert!(rejected.is_none());
}

#[test]
fn impl_intro_rewrites_first_implication() {
    let root = sq(vec![var(5)], vec![imp(var(0), var(1))]);
    let (branches, count) = ImplI {}.create_branches(&root);
    assert_eq!(count, 0);
    let bs = branches.unwrap();
    assert_eq!(bs.len(), 1);
    assert!(sequent_eq(&bs[0], &sq(vec![var(0), var(5)], vec![var(1)])));
}

#[test]
fn and_elim_needs_a_consequent() {
    let (rejected, count) = AndE {}.create_branches(&sq(vec![var(0)], vec![]));
    assert!(rejected.is_none());
    assert_eq!(count, 0);
}

#[test]
fn rule_labels() {
    assert_eq!(rule_display_text(RuleTag::ImplIntro), "→i");
    assert_eq!(rule_display_text(RuleTag::AndElim), "∧e");
    assert_eq!(rule_display_text(RuleTag::Reductio), "RAA");
    assert_eq!(rule_display_text(RuleTag::AxiomRule), "Ax");
}

// Formula model basics.

#[test]
fn operator_tables() {
    assert_eq!(get_operator_arity(OperatorType::Not), 1);
    assert_eq!(get_operator_arity(OperatorType::Impl), 2);
    assert_eq!(get_operator_arity(OperatorType::Top), 0);
    assert_eq!(get_operator_symbol(OperatorType::And), "∧");
    assert_eq!(get_operator_symbol(OperatorType::Bottom), "⊥");
    assert_eq!(get_operator_priority(OperatorType::Top), 0);
    assert_eq!(get_operator_priority(OperatorType::Not), 1);
    assert_eq!(get_operator_priority(OperatorType::Impl), 3);
}

#[test]
fn structural_equality_is_exact() {
    assert!(formula_eq(&imp(var(0), var(1)), &imp(var(0), var(1))));
    assert!(!formula_eq(&imp(var(0), var(1)), &imp(var(1), var(0))));
    assert!(!formula_eq(&var(0), &not(var(0))));
    assert!(!formula_eq(&top(), &bottom()));
}

#[test]
fn uncompleted_operator_allocates_linked_holes() {
    let mut next: u32 = 7;
    let f = create_uncompleted_operator(OperatorType::And, &mut next);
    assert_eq!(next, 9);
    match f {
        Formula::Operator(o) => {
            assert_eq!(
                formula_as_field(&o.arg1.unwrap()),
                FormulaField { id: 7, next_id: 8, prev_id: 8 }
            );
            assert_eq!(
                formula_as_field(&o.arg2.unwrap()),
                FormulaField { id: 8, next_id: 7, prev_id: 7 }
            );
        },
        _ => panic!("expected an operator"),
    }
    let mut next1: u32 = 3;
    let g = create_uncompleted_operator(OperatorType::Not, &mut next1);
    assert_eq!(next1, 4);
    match g {
        Formula::Operator(o) => {
            assert_eq!(
                formula_as_field(&o.arg1.unwrap()),
                FormulaField { id: 3, next_id: 3, prev_id: 3 }
            );
            assert!(o.arg2.is_none());
        },
        _ => panic!("expected an operator"),
    }
}

#[test]
fn first_operator_scan_takes_leftmost() {
    let fs = vec![var(0), and(var(1), var(2)), and(var(3), var(4))];
    assert_eq!(execute_on_first_operator_of_type(&fs, OperatorType::And), Some(1));
    assert_eq!(execute_on_first_operator_of_type(&fs, OperatorType::Or), None);
}

// The remaining rules, checked one by one on small goals.

#[test]
fn impl_elim_builds_two_branches_with_shared_hole() {
    let (branches, count) = ImplE {}.create_branches(&sq(vec![], vec![var(1)]));
    assert_eq!(count, 1);
    let bs = branches.unwrap();
    assert_eq!(bs.len(), 2);
    match &bs[0].after[0] {
        Formula::Operator(o) => {
            assert_eq!(o.operator_type, OperatorType::Impl);
            assert!(matches!(**o.arg1.as_ref().unwrap(), Formula::NotCompleted(_)));
            assert!(formula_eq(o.arg2.as_ref().unwrap(), &var(1)));
        },
        _ => panic!("expected an implication"),
    }
    assert!(matches!(bs[1].after[0], Formula::NotCompleted(_)));
}

#[test]
fn and_intro_splits_conjunction() {
    let (branches, count) = AndI {}.create_branches(&sq(vec![], vec![and(var(0), var(1))]));
    assert_eq!(count, 0);
    let bs = branches.unwrap();
    assert_eq!(bs.len(), 2);
    assert!(sequent_eq(&bs[0], &sq(vec![], vec![var(0)])));
    assert!(sequent_eq(&bs[1], &sq(vec![], vec![var(1)])));
}

#[test]
fn not_intro_moves_argument_left() {
    let (branches, count) = NotI {}.create_branches(&sq(vec![], vec![not(var(0))]));
    assert_eq!(count, 0);
    let bs = branches.unwrap();
    assert_eq!(bs.len(), 1);
    assert!(sequent_eq(&bs[0], &sq(vec![var(0)], vec![bottom()])));
}

#[test]
fn not_elim_splits_bottom() {
    let (branches, count) = NotE {}.create_branches(&sq(vec![], vec![bottom()]));
    assert_eq!(count, 1);
    let bs = branches.unwrap();
    assert_eq!(bs.len(), 2);
    assert!(matches!(bs[0].after[0], Formula::NotCompleted(_)));
    match &bs[1].after[0] {
        Formula::Operator(o) => {
            assert_eq!(o.operator_type, OperatorType::Not);
            assert!(matches!(**o.arg1.as_ref().unwrap(), Formula::NotCompleted(_)));
        },
        _ => panic!("expected a negation"),
    }
}

#[test]
fn or_intro_replaces_disjunction_with_hole() {
    let (branches, count) = OrI {}.create_branches(&sq(vec![], vec![or(var(0), var(1))]));
    assert_eq!(count, 1);
    let bs = branches.unwrap();
    assert_eq!(bs.len(), 1);
    assert!(matches!(bs[0].after[0], Formula::NotCompleted(_)));
}

#[test]
fn or_elim_builds_three_branches() {
    let (branches, count) = OrE {}.create_branches(&sq(vec![var(5)], vec![var(0)]));
    assert_eq!(count, 2);
    let bs = branches.unwrap();
    assert_eq!(bs.len(), 3);
    assert!(matches!(bs[0].before[1], Formula::NotCompleted(_)));
    assert!(matches!(bs[1].before[1], Formula::NotCompleted(_)));
    match &bs[2].after[0] {
        Formula::Operator(o) => assert_eq!(o.operator_type, OperatorType::Or),
        _ => panic!("expected a disjunction"),
    }
}

#[test]
fn top_intro_closes_goal_with_top() {
    let (branches, count) = TopI {}.create_branches(&sq(vec![], vec![top()]));
    assert_eq!(count, 0);
    assert_eq!(branches.unwrap().len(), 0);
    let (rejected, _) = TopI {}.create_branches(&sq(vec![], vec![var(0)]));
    assert!(rejected.is_none());
}

#[test]
fn bottom_elim_replaces_goal_with_bottom() {
    let (branches, count) = BottomE {}.create_branches(&sq(vec![var(1)], vec![var(0)]));
    assert_eq!(count, 0);
    let bs = branches.unwrap();
    assert!(sequent_eq(&bs[0], &sq(vec![var(1)], vec![bottom()])));
}

#[test]
fn reductio_negates_the_goal() {
    let (branches, count) = RAA {}.create_branches(&sq(vec![], vec![var(0)]));
    assert_eq!(count, 0);
    let bs = branches.unwrap();
    assert!(sequent_eq(&bs[0], &sq(vec![not(var(0))], vec![bottom()])));
}

#[test]
fn empty_consequent_rejects_right_rules() {
    let goal = sq(vec![var(0)], vec![]);
    assert!(ImplE {}.create_branches(&goal).0.is_none());
    assert!(OrE {}.create_branches(&goal).0.is_none());
    assert!(BottomE {}.create_branches(&goal).0.is_none());
    assert!(RAA {}.create_branches(&goal).0.is_none());
}

// Placing a constant into the last hole leaves fill-in mode.

#[test]
fn placing_constant_in_last_hole_exits_fill_mode() {
    let start = sq(vec![], vec![var(0)]);
    let mut gs = get_initial_state(start);
    assert!(insert_rule(&mut gs, 5, false));
    assert!(insert_operator(&mut gs, OperatorType::Top));
    assert_eq!(gs.state.formulas_position, Some(1));
    assert!(insert_operator(&mut gs, OperatorType::Bottom));
    // no hole left: the pending validity check ran (⊤ ∧ ⊥ proves neither
    // conjunct equals A) and the node was marked invalid
    assert!(gs.state.proof.is_rule_invalid);
    assert_eq!(search_fields_by_id_in_proof(&gs.state.proof, None).len(), 0);
}

// A full interactive proof of A ∨ ¬A using reductio.

#[test]
fn scenario_excluded_middle_by_reductio() {
    let start = sq(vec![], vec![or(var(0), not(var(0)))]);
    assert!(proof_or_fake(sq(vec![], vec![or(var(0), not(var(0)))])));
    let mut gs = get_initial_state(start);
    // the oracle says provable, and the tree starts with one open goal
    assert!(get_first_unfinished_proof(&gs.state.proof).is_some());
    // reductio: ¬(A ∨ ¬A) ⊢ ⊥
    assert!(insert_rule(&mut gs, 10, false));
    let sub = &gs.state.proof.branches[0].root;
    assert!(sequent_eq(sub, &sq(vec![not(or(var(0), not(var(0))))], vec![bottom()])));
}

#[test]
fn step_discards_closed_item_and_keeps_rest() {
    // ⊥ on the left closes the branch: the item is discarded, nothing else
    // changes, and the emptied queue then reports the search as proved
    let closed = SequentCalc {
        before: vec![bottom()],
        before_var: vec![],
        after: vec![],
        after_var: vec![],
    };
    let mut queue = vec![closed];
    assert_eq!(step_one_calc(&mut queue), None);
    assert_eq!(queue.len(), 0);
    assert_eq!(step_one_calc(&mut queue), Some(true));
}

#[test]
fn step_reports_counter_model_on_saturated_item() {
    // nothing left to decompose and not closed: a counter-model witness
    let saturated = SequentCalc {
        before: vec![],
        before_var: vec![var(0)],
        after: vec![],
        after_var: vec![var(1)],
    };
    let mut queue = vec![saturated];
    assert_eq!(step_one_calc(&mut queue), Some(false));
}
