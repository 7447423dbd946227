//! The formula model: propositional formulas built from a fixed connective
//! set, variables drawn from a bounded alphabet, and placeholder fields that
//! the player still has to fill in.

use vstd::prelude::*;

verus! {

/// Number of distinct variable letters a formula may use.
pub const MAX_VARIABLE_COUNT: u32 = 10;

/// The fixed connective set: the usual propositional connectives plus the
/// two nullary constants.
#[derive(Clone, Copy, Debug, PartialEq, Eq, Structural)]
pub enum OperatorType {
    Not,
    Impl,
    And,
    Or,
    Top,
    Bottom,
}

/// A placeholder ("hole") still to be filled by the player.
///
/// Every hole carries a globally unique `id` and the ids of the holes before
/// and after it in tab order; a hole with no neighbour links to itself.
#[derive(Clone, Copy, Debug, PartialEq, Eq, Structural)]
pub struct FormulaField {
    pub id: u32,
    pub next_id: u32,
    pub prev_id: u32,
}

/// A connective applied to its arguments.
///
/// `arg1` and `arg2` are `None` when the arity is 0 or 1; the constants
/// (Top, Bottom) are operators of arity 0.
pub struct Operator {
    pub operator_type: OperatorType,
    pub arg1: Option<Box<Formula>>,
    pub arg2: Option<Box<Formula>>,
}

/// A propositional formula: an operator application, a variable index into
/// the fixed alphabet, or a placeholder the player has yet to complete.
pub enum Formula {
    Operator(Operator),
    Variable(u32),
    NotCompleted(FormulaField),
}

/// Arity of each connective: 0 for the constants, 1 for negation, 2 for the
/// binary connectives.
pub open spec fn spec_operator_arity(op: OperatorType) -> u32 {
    match op {
        OperatorType::Not => 1,
        OperatorType::Impl => 2,
        OperatorType::And => 2,
        OperatorType::Or => 2,
        OperatorType::Top => 0,
        OperatorType::Bottom => 0,
    }
}

pub fn get_operator_arity(op: OperatorType) -> (r: u32)
    ensures
        r == spec_operator_arity(op),
{
    match op {
        OperatorType::Not => 1,
        OperatorType::Impl => 2,
        OperatorType::And => 2,
        OperatorType::Or => 2,
        OperatorType::Top => 0,
        OperatorType::Bottom => 0,
    }
}

/// The display symbol of each connective.
pub open spec fn spec_operator_symbol(op: OperatorType) -> Seq<char> {
    match op {
        OperatorType::Not => "¬"@,
        OperatorType::Impl => "→"@,
        OperatorType::And => "∧"@,
        OperatorType::Or => "∨"@,
        OperatorType::Top => "⊤"@,
        OperatorType::Bottom => "⊥"@,
    }
}

pub fn get_operator_symbol(op: OperatorType) -> (r: &'static str)
    ensures
        r@ == spec_operator_symbol(op),
{
    match op {
        OperatorType::Not => "¬",
        OperatorType::Impl => "→",
        OperatorType::And => "∧",
        OperatorType::Or => "∨",
        OperatorType::Top => "⊤",
        OperatorType::Bottom => "⊥",
    }
}

/// Display priority of each connective; a smaller number binds tighter, and
/// 0 is reserved for the nullary constants.  A sub-formula is parenthesised
/// when its own priority is not strictly lower than its parent's.
pub open spec fn spec_operator_priority(op: OperatorType) -> u32 {
    match op {
        OperatorType::Not => 1,
        OperatorType::Impl => 3,
        OperatorType::And => 2,
        OperatorType::Or => 2,
        OperatorType::Top => 0,
        OperatorType::Bottom => 0,
    }
}

pub fn get_operator_priority(op: OperatorType) -> (r: u32)
    ensures
        r == spec_operator_priority(op),
{
    match op {
        OperatorType::Not => 1,
        OperatorType::Impl => 3,
        OperatorType::And => 2,
        OperatorType::Or => 2,
        OperatorType::Top => 0,
        OperatorType::Bottom => 0,
    }
}

/// A formula is well formed when every operator node carries exactly the
/// children its arity asks for.
pub open spec fn formula_wf(f: Formula) -> bool
    decreases f,
{
    match f {
        Formula::Operator(op) => {
            &&& (spec_operator_arity(op.operator_type) >= 1 <==> op.arg1 is Some)
            &&& (spec_operator_arity(op.operator_type) >= 2 <==> op.arg2 is Some)
            &&& (op.arg1 is Some ==> formula_wf(*op.arg1->0))
            &&& (op.arg2 is Some ==> formula_wf(*op.arg2->0))
        },
        Formula::Variable(_) => true,
        Formula::NotCompleted(_) => true,
    }
}

/// The placeholder fields of a formula, collected left to right.
pub open spec fn formula_fields(f: Formula) -> Seq<FormulaField>
    decreases f,
{
    match f {
        Formula::Operator(op) => opt_fields(op.arg1) + opt_fields(op.arg2),
        Formula::Variable(_) => Seq::empty(),
        Formula::NotCompleted(ff) => seq![ff],
    }
}

pub open spec fn opt_fields(o: Option<Box<Formula>>) -> Seq<FormulaField>
    decreases o,
{
    match o {
        Option::Some(b) => formula_fields(*b),
        Option::None => Seq::empty(),
    }
}

/// A formula is complete when it holds no placeholder.
pub open spec fn formula_complete(f: Formula) -> bool {
    formula_fields(f).len() == 0
}

impl Clone for Formula {
    /// Deep structural copy.
    fn clone(&self) -> (res: Self)
        ensures
            res == *self,
        decreases *self,
    {
        match self {
            Formula::Operator(op) => {
                let arg1 = match &op.arg1 {
                    Option::Some(b) => Option::Some(Box::new((**b).clone())),
                    Option::None => Option::None,
                };
                let arg2 = match &op.arg2 {
                    Option::Some(b) => Option::Some(Box::new((**b).clone())),
                    Option::None => Option::None,
                };
                Formula::Operator(Operator { operator_type: op.operator_type, arg1, arg2 })
            },
            Formula::Variable(v) => Formula::Variable(*v),
            Formula::NotCompleted(ff) => Formula::NotCompleted(*ff),
        }
    }
}

impl Clone for Operator {
    fn clone(&self) -> (res: Self)
        ensures
            res == *self,
    {
        let arg1 = match &self.arg1 {
            Option::Some(b) => Option::Some(Box::new((**b).clone())),
            Option::None => Option::None,
        };
        let arg2 = match &self.arg2 {
            Option::Some(b) => Option::Some(Box::new((**b).clone())),
            Option::None => Option::None,
        };
        Operator { operator_type: self.operator_type, arg1, arg2 }
    }
}

/// Structural equality on formulas: same shape, same variable indices, same
/// placeholder records.
pub fn formula_eq(a: &Formula, b: &Formula) -> (r: bool)
    ensures
        r == (a == b),
    decreases *a,
{
    match (a, b) {
        (Formula::Operator(x), Formula::Operator(y)) => {
            if x.operator_type != y.operator_type {
                return false;
            }
            let args1 = match (&x.arg1, &y.arg1) {
                (Option::Some(xa), Option::Some(ya)) => formula_eq(&**xa, &**ya),
                (Option::None, Option::None) => true,
                _ => false,
            };
            if !args1 {
                return false;
            }
            match (&x.arg2, &y.arg2) {
                (Option::Some(xa), Option::Some(ya)) => formula_eq(&**xa, &**ya),
                (Option::None, Option::None) => true,
                _ => false,
            }
        },
        (Formula::Variable(x), Formula::Variable(y)) => x == y,
        (Formula::NotCompleted(x), Formula::NotCompleted(y)) => x == y,
        _ => false,
    }
}

/// Create an operator whose arguments are freshly allocated placeholders,
/// with ids drawn from the caller's monotonic counter.  The two holes of a
/// binary operator are linked to each other; a single hole links to itself.
pub fn create_uncompleted_operator(op: OperatorType, next_index: &mut u32) -> (res: Formula)
    requires
        *old(next_index) + 2 <= u32::MAX,
    ensures
        *final(next_index) == *old(next_index) + spec_operator_arity(op),
        formula_wf(res),
        res matches Formula::Operator(o) && o.operator_type == op,
        formula_fields(res) == fresh_operator_fields(op, *old(next_index)),
{
    let arity = get_operator_arity(op);
    let first = *next_index;
    let res = if arity == 0 {
        Formula::Operator(Operator { operator_type: op, arg1: Option::None, arg2: Option::None })
    } else if arity == 1 {
        Formula::Operator(
            Operator {
                operator_type: op,
                arg1: Option::Some(
                    Box::new(
                        Formula::NotCompleted(
                            FormulaField { id: first, next_id: first, prev_id: first },
                        ),
                    ),
                ),
                arg2: Option::None,
            },
        )
    } else {
        Formula::Operator(
            Operator {
                operator_type: op,
                arg1: Option::Some(
                    Box::new(
                        Formula::NotCompleted(
                            FormulaField { id: first, next_id: first + 1, prev_id: first + 1 },
                        ),
                    ),
                ),
                arg2: Option::Some(
                    Box::new(
                        Formula::NotCompleted(
                            FormulaField { id: first + 1, next_id: first, prev_id: first },
                        ),
                    ),
                ),
            },
        )
    };
    *next_index += arity;
    proof {
        reveal_with_fuel(formula_fields, 3);
        reveal_with_fuel(opt_fields, 3);
        reveal_with_fuel(formula_wf, 3);
        assert(formula_fields(res) =~= fresh_operator_fields(op, first));
        assert(formula_wf(res));
    }
    res
}

/// The placeholder records `create_uncompleted_operator` allocates when its
/// counter starts at `first`.
pub open spec fn fresh_operator_fields(op: OperatorType, first: u32) -> Seq<FormulaField> {
    if spec_operator_arity(op) == 0 {
        Seq::empty()
    } else if spec_operator_arity(op) == 1 {
        seq![FormulaField { id: first, next_id: first, prev_id: first }]
    } else {
        seq![
            FormulaField { id: first, next_id: (first + 1) as u32, prev_id: (first + 1) as u32 },
            FormulaField { id: (first + 1) as u32, next_id: first, prev_id: first },
        ]
    }
}

/// Does this formula start with the requested connective?
pub open spec fn is_op(f: Formula, op: OperatorType) -> bool {
    f matches Formula::Operator(o) && o.operator_type == op
}

pub open spec fn first_op_from(fs: Seq<Formula>, op: OperatorType, i: int) -> Option<int>
    decreases fs.len() - i,
{
    if !(0 <= i < fs.len()) {
        Option::None
    } else if is_op(fs[i], op) {
        Option::Some(i)
    } else {
        first_op_from(fs, op, i + 1)
    }
}

/// Index of the first operator node of the requested connective in a formula
/// list, scanning left to right.
pub open spec fn first_op_index(fs: Seq<Formula>, op: OperatorType) -> Option<int> {
    first_op_from(fs, op, 0)
}

/// Locate the first operator of the given connective in a formula list.
/// The caller then acts on that one occurrence only; rules never rewrite
/// more than one connective occurrence per application.
pub fn execute_on_first_operator_of_type(formulas: &Vec<Formula>, op_type: OperatorType) -> (r:
    Option<usize>)
    ensures
        match r {
            Option::Some(i) => first_op_index(formulas@, op_type) == Option::Some(i as int),
            Option::None => first_op_index(formulas@, op_type) is None,
        },
{
    proof {
        lemma_first_op_from_spec(formulas@, op_type, 0);
    }
    let n = formulas.len();
    let mut i: usize = 0;
    while i < n
        invariant
            0 <= i <= n,
            n == formulas@.len(),
            forall|j: int| 0 <= j < i ==> !is_op(#[trigger] formulas@[j], op_type),
            match first_op_index(formulas@, op_type) {
                Option::Some(k) => {
                    &&& 0 <= k < formulas@.len()
                    &&& is_op(formulas@[k], op_type)
                    &&& forall|j: int| 0 <= j < k ==> !is_op(#[trigger] formulas@[j], op_type)
                },
                Option::None => forall|j: int|
                    0 <= j < formulas@.len() ==> !is_op(#[trigger] formulas@[j], op_type),
            },
        decreases n - i,
    {
        match &formulas[i] {
            Formula::Operator(o) => {
                if o.operator_type == op_type {
                    return Option::Some(i);
                }
            },
            _ => {},
        }
        i += 1;
    }
    Option::None
}

/// `first_op_from` always returns a position at or after the cursor that
/// carries the connective, with no earlier occurrence past the cursor.
pub proof fn lemma_first_op_from_spec(fs: Seq<Formula>, op: OperatorType, i: int)
    requires
        0 <= i,
    ensures
        match first_op_from(fs, op, i) {
            Option::Some(k) => {
                &&& i <= k < fs.len()
                &&& is_op(fs[k], op)
                &&& forall|j: int| i <= j < k ==> !is_op(#[trigger] fs[j], op)
            },
            Option::None => forall|j: int| i <= j < fs.len() ==> !is_op(#[trigger] fs[j], op),
        },
    decreases fs.len() - i,
{
    if i < fs.len() && !is_op(fs[i], op) {
        lemma_first_op_from_spec(fs, op, i + 1);
    }
}

/// Runtime check of `formula_wf`: every operator node carries exactly the
/// children its arity asks for.
pub fn formula_is_wf(f: &Formula) -> (r: bool)
    ensures
        r == formula_wf(*f),
    decreases *f,
{
    match f {
        Formula::Operator(op) => {
            let arity = get_operator_arity(op.operator_type);
            let arg1_ok = match &op.arg1 {
                Option::Some(b) => arity >= 1 && formula_is_wf(&**b),
                Option::None => arity < 1,
            };
            if !arg1_ok {
                return false;
            }
            match &op.arg2 {
                Option::Some(b) => arity >= 2 && formula_is_wf(&**b),
                Option::None => arity < 2,
            }
        },
        Formula::Variable(_) => true,
        Formula::NotCompleted(_) => true,
    }
}

} // verus!
