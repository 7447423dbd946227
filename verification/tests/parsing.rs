//! Tests for the level parser, the action names and bindings, and the
//! settings error messages.

use sequent::action::Action;
use sequent::action::KeyCode;
use sequent::action::get_action_name;
use sequent::action::get_binding;
use sequent::action::get_default_bindings;
use sequent::action::key_code_display;
use sequent::action::u32_to_string;
use sequent::calcul::proof_or_fake;
use sequent::formula::Formula;
use sequent::formula::Operator;
use sequent::formula::OperatorType;
use sequent::parser::Difficulty;
use sequent::parser::Level;
use sequent::parser::parse_ligne;
use sequent::parser::parse_sequent;
use sequent::parser::var_p;
use sequent::parser::var_r;
use sequent::sequent::Sequent;
use sequent::sequent::sequent_eq;
use sequent::settings::create_load_error;
use sequent::settings::create_save_error;

fn chars(s: &str) -> Vec<char> {
    s.chars().collect()
}

fn var(i: u32) -> Formula {
    Formula::Variable(i)
}

fn imp(a: Formula, b: Formula) -> Formula {
    Formula::Operator(Operator {
        operator_type: OperatorType::Impl,
        arg1: Some(Box::new(a)),
        arg2: Some(Box::new(b)),
    })
}

fn sq(before: Vec<Formula>, after: Vec<Formula>) -> Sequent {
    Sequent { before, after }
}

#[test]
fn parse_atom_and_negation() {
    let buff = chars("!a");
    let mut pos = 0;
    let mut vars = Vec::new();
    let f = var_p(&buff, &mut pos, &mut vars).unwrap();
    match f {
        Formula::Operator(o) => {
            assert_eq!(o.operator_type, OperatorType::Not);
            assert!(matches!(**o.arg1.as_ref().unwrap(), Formula::Variable(0)));
        },
        _ => panic!("expected a negation"),
    }
    assert_eq!(pos, 2);
    assert_eq!(vars, vec!['a']);
}

#[test]
fn parse_binary_reuses_variable_indices() {
    let buff = chars("a>b");
    let mut pos = 0;
    let mut vars = Vec::new();
    let f = var_r(&buff, &mut pos, &mut vars).unwrap();
    match f {
        Formula::Operator(o) => {
            assert_eq!(o.operator_type, OperatorType::Impl);
        },
        _ => panic!("expected an implication"),
    }
    let buff2 = chars("b&b");
    let mut pos2 = 0;
    let f2 = var_r(&buff2, &mut pos2, &mut vars).unwrap();
    match f2 {
        Formula::Operator(o) => {
            // `b` was already known under index 1
            assert!(matches!(**o.arg1.as_ref().unwrap(), Formula::Variable(1)));
            assert!(matches!(**o.arg2.as_ref().unwrap(), Formula::Variable(1)));
        },
        _ => panic!("expected a conjunction"),
    }
}

#[test]
fn parse_syntax_errors_are_rejected() {
    let mut vars = Vec::new();
    let mut pos = 0;
    assert!(var_p(&chars(""), &mut pos, &mut vars).is_none());
    let mut pos2 = 0;
    assert!(var_p(&chars("(a"), &mut pos2, &mut vars).is_none());
    let mut pos3 = 0;
    assert!(var_r(&chars("a)b"), &mut pos3, &mut vars).is_none());
}

#[test]
fn parse_sequent_round() {
    let s = parse_sequent(&chars("a,a>b-b")).unwrap();
    assert!(sequent_eq(&s, &sq(vec![var(0), imp(var(0), var(1))], vec![var(1)])));
    assert!(proof_or_fake(s));
}

#[test]
fn parse_sequent_empty_left_side() {
    let s = parse_sequent(&chars("-a>a")).unwrap();
    assert!(sequent_eq(&s, &sq(vec![], vec![imp(var(0), var(0))])));
    assert!(proof_or_fake(s));
}

#[test]
fn parse_sequent_needs_one_dash() {
    assert!(parse_sequent(&chars("a,b")).is_none());
    assert!(parse_sequent(&chars("a-b-c")).is_none());
    assert!(parse_sequent(&chars("a-")).is_none());
}

#[test]
fn parse_ligne_reads_all_fields() {
    let level = parse_ligne(&chars("12; \"Warm up\"; a-a; 2; 1; end")).unwrap();
    assert_eq!(level.id, 12);
    assert_eq!(level.name, "Warm up");
    assert!(sequent_eq(&level.seq, &sq(vec![var(0)], vec![var(0)])));
    assert_eq!(level.difficulty, Difficulty::Medium);
    assert!(level.raa);
}

#[test]
fn parse_ligne_defaults_on_bad_metadata() {
    let level = parse_ligne(&chars("x; name; -a; 9; 2; end")).unwrap();
    assert_eq!(level.id, 0);
    assert_eq!(level.difficulty, Difficulty::Immediate);
    assert!(!level.raa);
}

#[test]
fn parse_ligne_rejects_wrong_shape() {
    assert!(parse_ligne(&chars("1; name; a-a; 0; 0")).is_none());
    assert!(parse_ligne(&chars("1; name; a+); 0; 0; x")).is_none());
}

#[test]
fn level_empty_defaults() {
    let level = Level::empty();
    assert_eq!(level.id, 0);
    assert_eq!(level.name, "");
    assert_eq!(level.difficulty, Difficulty::Immediate);
    assert!(!level.raa);
    assert_eq!(level.seq.before.len(), 0);
    assert_eq!(level.seq.after.len(), 0);
}

#[test]
fn difficulty_names() {
    assert_eq!(Difficulty::Immediate.name(), "Immediate");
    assert_eq!(Difficulty::Hard.name(), "Hard");
}

#[test]
fn decimal_rendering() {
    assert_eq!(u32_to_string(0), "0");
    assert_eq!(u32_to_string(7), "7");
    assert_eq!(u32_to_string(105), "105");
    assert_eq!(u32_to_string(4294967295), "4294967295");
}

#[test]
fn action_names() {
    assert_eq!(get_action_name(Action::NoAc), "Nothing");
    assert_eq!(get_action_name(Action::InsertOperator(3)), "Insert operator 3");
    assert_eq!(get_action_name(Action::InsertVariable(12)), "Insert variable 12");
    assert_eq!(get_action_name(Action::InsertRule(0)), "Use rule 0");
    assert_eq!(get_action_name(Action::Undo), "Undo");
    assert_eq!(get_action_name(Action::Confirm), "Menus confirm");
}

#[test]
fn key_names() {
    assert_eq!(key_code_display(KeyCode::Escape), "Esc");
    assert_eq!(key_code_display(KeyCode::Back), "Backspace");
    assert_eq!(key_code_display(KeyCode::Q), "Q");
    assert_eq!(key_code_display(KeyCode::F1), "F1");
}

#[test]
fn default_bindings_layout() {
    let bindings = get_default_bindings();
    assert_eq!(bindings.len(), 44);
    assert_eq!(get_binding(&bindings, Action::Undo), Some(KeyCode::W));
    assert_eq!(get_binding(&bindings, Action::Redo), Some(KeyCode::X));
    assert_eq!(get_binding(&bindings, Action::InsertOperator(0)), Some(KeyCode::Q));
    assert_eq!(get_binding(&bindings, Action::InsertVariable(9)), Some(KeyCode::P));
    assert_eq!(get_binding(&bindings, Action::InsertRule(12)), Some(KeyCode::U));
    assert_eq!(get_binding(&bindings, Action::NoAc), None);
}

#[test]
fn settings_error_messages() {
    let e = create_save_error("disk full", "settings.ron");
    assert_eq!(e.message, "Error while saving settings file settings.ron: disk full");
    let e2 = create_load_error("no such file", "settings.ron");
    assert_eq!(e2.message, "Error while loading settings file settings.ron: no such file");
}
