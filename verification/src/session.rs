//! The interactive session: the live proof with its placeholder cursor and
//! id counters, and undo/redo by whole-value snapshots.  Every mutation is
//! preceded by pushing a deep copy of the live state onto the undo stack;
//! undoing swaps the live state with the top of that stack.

use vstd::prelude::*;

use crate::fields::fields_wf;
use crate::fields::has_id;
use crate::fields::place_variable;
use crate::fields::place_uncompleted_operator;
use crate::fields::record_of;
use crate::fields::search_fields_by_id_in_proof;
use crate::formula::FormulaField;
use crate::formula::MAX_VARIABLE_COUNT;
use crate::prooftree::Proof;
use crate::prooftree::first_open;
use crate::prooftree::find_node;
use crate::prooftree::get_first_unfinished_proof;
use crate::prooftree::get_proof_node_by_id;
use crate::prooftree::mark_rule_invalid;
use crate::prooftree::marked_rel;
use crate::prooftree::lemma_marked_props;
use crate::prooftree::proof_equal;
use crate::prooftree::proof_fields;
use crate::prooftree::proof_sequents_wf;
use crate::prooftree::sequent_as_empty_proof;
use crate::rules::LogicSystem;
use crate::rules::apply_rel;
use crate::rules::apply_rule;
use crate::rules::effective_tag;
use crate::rules::get_system;
use crate::rules::rule_check_validity;
use crate::rules::rule_field_count;
use crate::rules::rule_precondition;
use crate::rules::rule_valid;
use crate::sequent::Sequent;
use crate::sequent::sequent_equal;
use crate::sequent::sequent_fields;
use crate::sequent::sequent_wf;

verus! {

/// Everything a snapshot must capture: the proof tree, the fill-in cursor,
/// and the two monotonic id counters.
pub struct UndoState {
    pub proof: Proof,
    /// Is the player currently filling placeholder holes?
    pub editing_formulas: bool,
    /// Id of the focused placeholder hole, while filling.
    pub formulas_position: Option<u32>,
    /// Next placeholder id to hand out; every hole in the tree is below it.
    pub next_formula_index: u32,
    /// Next proof-node id to hand out; every node in the tree is below it.
    pub next_proof_index: u32,
    /// Node whose rule must pass its validity check once all its holes are
    /// filled.
    pub node_to_check_after_fields_completed: Option<u32>,
}

/// A whole session: the live state, the undo and redo stacks, and the fixed
/// configuration.
pub struct GameState {
    pub logic_system: LogicSystem,
    pub state: UndoState,
    pub undo_stack: Vec<UndoState>,
    pub redo_stack: Vec<UndoState>,
    pub initial_sequent: Sequent,
    pub finished_proof: bool,
}

/// Structural equality of snapshots.
pub open spec fn state_equal(a: UndoState, b: UndoState) -> bool {
    &&& proof_equal(a.proof, b.proof)
    &&& a.editing_formulas == b.editing_formulas
    &&& a.formulas_position == b.formulas_position
    &&& a.next_formula_index == b.next_formula_index
    &&& a.next_proof_index == b.next_proof_index
    &&& a.node_to_check_after_fields_completed == b.node_to_check_after_fields_completed
}

/// The engine invariant of a snapshot, cursor aside: the placeholder
/// registry forms disjoint cycles, every sequent is well formed, and every
/// hole id is below the id counter.
pub open spec fn state_wf_core(s: UndoState) -> bool {
    &&& fields_wf(proof_fields(s.proof))
    &&& proof_sequents_wf(s.proof)
    &&& forall|e: FormulaField|
        #[trigger] proof_fields(s.proof).contains(e) ==> e.id < s.next_formula_index
}

/// The full snapshot invariant: while filling, the focused hole exists.
pub open spec fn state_wf(s: UndoState) -> bool {
    &&& state_wf_core(s)
    &&& (s.editing_formulas ==> (s.formulas_position matches Option::Some(id) ==> has_id(
        proof_fields(s.proof),
        id,
    )))
}

pub open spec fn system_wf(ls: LogicSystem) -> bool {
    ls.special_rules@.len() == ls.rules@.len() && ls.rules@.len() <= 0xFFFF
}

/// The whole-session invariant: the live state and every snapshot on the
/// two stacks satisfy the snapshot invariant, and the starting sequent can
/// be restarted from.
pub open spec fn game_wf(gs: GameState) -> bool {
    &&& state_wf(gs.state)
    &&& system_wf(gs.logic_system)
    &&& (forall|i: int| 0 <= i < gs.undo_stack@.len() ==> state_wf(#[trigger] gs.undo_stack@[i]))
    &&& (forall|i: int| 0 <= i < gs.redo_stack@.len() ==> state_wf(#[trigger] gs.redo_stack@[i]))
    &&& sequent_wf(gs.initial_sequent)
    &&& sequent_fields(gs.initial_sequent).len() == 0
}

impl Clone for UndoState {
    /// Deep snapshot copy.
    fn clone(&self) -> (res: Self)
        ensures
            state_equal(res, *self),
    {
        UndoState {
            proof: self.proof.clone(),
            editing_formulas: self.editing_formulas,
            formulas_position: self.formulas_position,
            next_formula_index: self.next_formula_index,
            next_proof_index: self.next_proof_index,
            node_to_check_after_fields_completed: self.node_to_check_after_fields_completed,
        }
    }
}

/// Equal snapshots satisfy the invariant together.
pub proof fn lemma_state_equal_wf(a: UndoState, b: UndoState)
    requires
        state_equal(a, b),
        state_wf(a),
    ensures
        state_wf(b),
{
    crate::prooftree::lemma_proof_equal_fields(a.proof, b.proof);
    crate::prooftree::lemma_proof_equal_sequents_wf(a.proof, b.proof);
}

/// Push a snapshot onto the undo stack; any new action clears the redo
/// stack.
pub fn add_undo_entry(entry: UndoState, gs: &mut GameState)
    ensures
        final(gs).undo_stack@ == old(gs).undo_stack@.push(entry),
        final(gs).redo_stack@ == Seq::<UndoState>::empty(),
        final(gs).state == old(gs).state,
        final(gs).logic_system == old(gs).logic_system,
        final(gs).initial_sequent == old(gs).initial_sequent,
        final(gs).finished_proof == old(gs).finished_proof,
{
    gs.undo_stack.push(entry);
    gs.redo_stack = Vec::new();
}

/// Snapshot the live state before a mutation.
pub fn record_undo_entry(gs: &mut GameState)
    ensures
        final(gs).undo_stack@.len() == old(gs).undo_stack@.len() + 1,
        final(gs).undo_stack@.drop_last() == old(gs).undo_stack@,
        state_equal(final(gs).undo_stack@.last(), old(gs).state),
        final(gs).redo_stack@ == Seq::<UndoState>::empty(),
        final(gs).state == old(gs).state,
        final(gs).logic_system == old(gs).logic_system,
        final(gs).initial_sequent == old(gs).initial_sequent,
        final(gs).finished_proof == old(gs).finished_proof,
{
    let entry = gs.state.clone();
    add_undo_entry(entry, gs);
    proof {
        assert(final(gs).undo_stack@.drop_last() =~= old(gs).undo_stack@);
    }
}

/// What one undo step does: the live state swaps with the top of the undo
/// stack, which moves to the redo stack.
pub open spec fn undo_rel(a: GameState, b: GameState) -> bool {
    &&& a.undo_stack@.len() > 0
    &&& b.state == a.undo_stack@.last()
    &&& b.undo_stack@ == a.undo_stack@.drop_last()
    &&& b.redo_stack@ == a.redo_stack@.push(a.state)
    &&& b.logic_system == a.logic_system
    &&& b.initial_sequent == a.initial_sequent
    &&& b.finished_proof == a.finished_proof
}

/// What one redo step does: the mirror image of `undo_rel`.
pub open spec fn redo_rel(a: GameState, b: GameState) -> bool {
    &&& a.redo_stack@.len() > 0
    &&& b.state == a.redo_stack@.last()
    &&& b.redo_stack@ == a.redo_stack@.drop_last()
    &&& b.undo_stack@ == a.undo_stack@.push(a.state)
    &&& b.logic_system == a.logic_system
    &&& b.initial_sequent == a.initial_sequent
    &&& b.finished_proof == a.finished_proof
}

/// Undo the last action.  Returns false (and changes nothing) when there is
/// nothing to undo.
pub fn undo(gs: &mut GameState) -> (r: bool)
    requires
        game_wf(*old(gs)),
    ensures
        game_wf(*final(gs)),
        r == (old(gs).undo_stack@.len() > 0),
        r ==> undo_rel(*old(gs), *final(gs)),
        !r ==> {
            &&& final(gs).state == old(gs).state
            &&& final(gs).undo_stack@ == old(gs).undo_stack@
            &&& final(gs).redo_stack@ == old(gs).redo_stack@
            &&& final(gs).logic_system == old(gs).logic_system
            &&& final(gs).initial_sequent == old(gs).initial_sequent
            &&& final(gs).finished_proof == old(gs).finished_proof
        },
{
    match gs.undo_stack.pop() {
        Option::Some(mut last_state) => {
            core::mem::swap(&mut gs.state, &mut last_state);
            gs.redo_stack.push(last_state);
            proof {
                lemma_undo_wf(*old(gs), *gs);
            }
            true
        },
        Option::None => false,
    }
}

/// Redo the last undone action.  Returns false (and changes nothing) when
/// there is nothing to redo.
pub fn redo(gs: &mut GameState) -> (r: bool)
    requires
        game_wf(*old(gs)),
    ensures
        game_wf(*final(gs)),
        r == (old(gs).redo_stack@.len() > 0),
        r ==> redo_rel(*old(gs), *final(gs)),
        !r ==> {
            &&& final(gs).state == old(gs).state
            &&& final(gs).undo_stack@ == old(gs).undo_stack@
            &&& final(gs).redo_stack@ == old(gs).redo_stack@
            &&& final(gs).logic_system == old(gs).logic_system
            &&& final(gs).initial_sequent == old(gs).initial_sequent
            &&& final(gs).finished_proof == old(gs).finished_proof
        },
{
    match gs.redo_stack.pop() {
        Option::Some(mut last_state) => {
            core::mem::swap(&mut gs.state, &mut last_state);
            gs.undo_stack.push(last_state);
            proof {
                lemma_redo_wf(*old(gs), *gs);
            }
            true
        },
        Option::None => false,
    }
}

/// Undo after a recorded mutation restores a live state structurally equal
/// to the one before the mutation, whatever the mutation did.
pub proof fn lemma_undo_restores_snapshot(pre: GameState, post: GameState, post2: GameState)
    requires
        post.undo_stack@.len() == pre.undo_stack@.len() + 1,
        post.undo_stack@.drop_last() == pre.undo_stack@,
        state_equal(post.undo_stack@.last(), pre.state),
        undo_rel(post, post2),
    ensures
        state_equal(post2.state, pre.state),
        post2.undo_stack@ == pre.undo_stack@,
        post2.redo_stack@.last() == post.state,
{
}

/// Redo directly after undo restores exactly the state that was undone.
pub proof fn lemma_redo_after_undo(a: GameState, b: GameState, c: GameState)
    requires
        undo_rel(a, b),
        redo_rel(b, c),
    ensures
        c.state == a.state,
        c.undo_stack@ == a.undo_stack@,
        c.redo_stack@ == a.redo_stack@,
{
    assert(c.undo_stack@ =~= a.undo_stack@);
    assert(c.redo_stack@ =~= a.redo_stack@);
}

/// Undo keeps the session invariant.
proof fn lemma_undo_wf(a: GameState, b: GameState)
    requires
        game_wf(a),
        undo_rel(a, b),
    ensures
        game_wf(b),
{
    assert forall|i: int| 0 <= i < b.undo_stack@.len() implies state_wf(
        #[trigger] b.undo_stack@[i],
    ) by {
        assert(b.undo_stack@[i] == a.undo_stack@[i]);
    }
    assert forall|i: int| 0 <= i < b.redo_stack@.len() implies state_wf(
        #[trigger] b.redo_stack@[i],
    ) by {
        if i < a.redo_stack@.len() {
            assert(b.redo_stack@[i] == a.redo_stack@[i]);
        } else {
            assert(b.redo_stack@[i] == a.state);
        }
    }
}

/// Redo keeps the session invariant.
proof fn lemma_redo_wf(a: GameState, b: GameState)
    requires
        game_wf(a),
        redo_rel(a, b),
    ensures
        game_wf(b),
{
    assert forall|i: int| 0 <= i < b.redo_stack@.len() implies state_wf(
        #[trigger] b.redo_stack@[i],
    ) by {
        assert(b.redo_stack@[i] == a.redo_stack@[i]);
    }
    assert forall|i: int| 0 <= i < b.undo_stack@.len() implies state_wf(
        #[trigger] b.undo_stack@[i],
    ) by {
        if i < a.undo_stack@.len() {
            assert(b.undo_stack@[i] == a.undo_stack@[i]);
        } else {
            assert(b.undo_stack@[i] == a.state);
        }
    }
}

proof fn lemma_state_equal_sym(a: UndoState, b: UndoState)
    requires
        state_equal(a, b),
    ensures
        state_equal(b, a),
{
    crate::prooftree::lemma_proof_equal_sym(a.proof, b.proof);
}

/// The session invariant with the cursor clause set aside; placement
/// actions re-establish the full invariant before they return.
pub open spec fn game_wf_core(gs: GameState) -> bool {
    &&& state_wf_core(gs.state)
    &&& system_wf(gs.logic_system)
    &&& (forall|i: int| 0 <= i < gs.undo_stack@.len() ==> state_wf(#[trigger] gs.undo_stack@[i]))
    &&& (forall|i: int| 0 <= i < gs.redo_stack@.len() ==> state_wf(#[trigger] gs.redo_stack@[i]))
    &&& sequent_wf(gs.initial_sequent)
    &&& sequent_fields(gs.initial_sequent).len() == 0
}

/// The largest hole id in a field list (0 for the empty list).
pub open spec fn max_field_id(fs: Seq<FormulaField>) -> nat
    decreases fs.len(),
{
    if fs.len() == 0 {
        0
    } else if fs.last().id > max_field_id(fs.drop_last()) {
        fs.last().id as nat
    } else {
        max_field_id(fs.drop_last())
    }
}

proof fn lemma_max_field_id_ge(fs: Seq<FormulaField>)
    ensures
        forall|e: FormulaField| #[trigger] fs.contains(e) ==> e.id <= max_field_id(fs),
    decreases fs.len(),
{
    if fs.len() > 0 {
        lemma_max_field_id_ge(fs.drop_last());
        assert forall|e: FormulaField| #[trigger] fs.contains(e) implies e.id <= max_field_id(
            fs,
        ) by {
            let i = choose|i: int| 0 <= i < fs.len() && fs[i] == e;
            if i < fs.len() - 1 {
                assert(fs.drop_last()[i] == e);
                assert(fs.drop_last().contains(e));
            }
        }
    }
}

proof fn lemma_max_field_id_bound(fs: Seq<FormulaField>, bound: u32)
    requires
        bound > 0,
        forall|e: FormulaField| #[trigger] fs.contains(e) ==> e.id < bound,
    ensures
        max_field_id(fs) < bound,
    decreases fs.len(),
{
    if fs.len() > 0 {
        assert(fs.contains(fs.last()));
        assert forall|e: FormulaField| #[trigger] fs.drop_last().contains(e) implies fs.contains(
            e,
        ) by {
            let i = choose|i: int| 0 <= i < fs.drop_last().len() && fs.drop_last()[i] == e;
            assert(fs[i] == e);
        }
        lemma_max_field_id_bound(fs.drop_last(), bound);
    }
}

/// Wrap a starting sequent as a live state: a single open goal, with the
/// fill-in cursor on its first hole if it has any.
pub fn get_start_sequent_state(s: Sequent) -> (res: UndoState)
    requires
        sequent_wf(s),
        fields_wf(sequent_fields(s)),
        forall|e: FormulaField| #[trigger] sequent_fields(s).contains(e) ==> e.id < u32::MAX,
    ensures
        state_wf(res),
        sequent_equal(res.proof.root, s),
        res.proof.rule_id is None,
        res.proof.branches@.len() == 0,
        proof_fields(res.proof) == sequent_fields(s),
        res.editing_formulas == (sequent_fields(s).len() > 0),
        res.formulas_position == (if sequent_fields(s).len() > 0 {
            Option::Some(sequent_fields(s)[0].id)
        } else {
            Option::<u32>::None
        }),
        res.next_formula_index == (if sequent_fields(s).len() > 0 {
            max_field_id(sequent_fields(s)) + 1
        } else {
            0
        }),
        res.node_to_check_after_fields_completed is None,
        res.no_pending_check(),
        res.proof.id == 0,
        res.next_proof_index == 1,
{
    let mut next_proof_id: u32 = 0;
    let proof0 = sequent_as_empty_proof(s.clone(), &mut next_proof_id);
    proof {
        assert(sequent_fields(proof0.root) == sequent_fields(s));
    }
    let fields = search_fields_by_id_in_proof(&proof0, Option::None);
    proof {
        crate::fields::lemma_fields_filter_spec(proof_fields(proof0), Option::None);
    }
    if fields.len() == 0 {
        UndoState {
            editing_formulas: false,
            formulas_position: Option::None,
            next_formula_index: 0,
            proof: proof0,
            node_to_check_after_fields_completed: Option::None,
            next_proof_index: next_proof_id,
        }
    } else {
        let mut max_id: u32 = 0;
        let mut i: usize = 0;
        proof {
            assert(fields@.subrange(0, 0) =~= Seq::<FormulaField>::empty());
        }
        while i < fields.len()
            invariant
                0 <= i <= fields@.len(),
                max_id == max_field_id(fields@.subrange(0, i as int)),
                fields@ == proof_fields(proof0),
            decreases fields@.len() - i,
        {
            proof {
                let pre = fields@.subrange(0, i as int);
                assert(fields@.subrange(0, i + 1 as int) =~= pre.push(fields@[i as int]));
                assert(pre.push(fields@[i as int]).drop_last() =~= pre);
            }
            if fields[i].id > max_id {
                max_id = fields[i].id;
            }
            i += 1;
        }
        proof {
            assert(fields@.subrange(0, fields@.len() as int) =~= fields@);
            lemma_max_field_id_bound(fields@, u32::MAX);
            lemma_max_field_id_ge(fields@);
            assert(proof_fields(proof0).contains(fields@[0]));
        }
        UndoState {
            editing_formulas: true,
            formulas_position: Option::Some(fields[0].id),
            next_formula_index: max_id + 1,
            proof: proof0,
            node_to_check_after_fields_completed: Option::None,
            next_proof_index: next_proof_id,
        }
    }
}

impl UndoState {
    /// No rule-validity check is pending.
    pub open spec fn no_pending_check(self) -> bool {
        self.node_to_check_after_fields_completed is None
    }
}

/// Open a session on a starting sequent: the natural-deduction system, an
/// empty history, and a single open goal.
pub fn get_initial_state(start_seq: Sequent) -> (res: GameState)
    requires
        sequent_wf(start_seq),
        sequent_fields(start_seq).len() == 0,
    ensures
        game_wf(res),
        sequent_equal(res.state.proof.root, start_seq),
        res.state.proof.rule_id is None,
        res.state.proof.branches@.len() == 0,
        !res.state.editing_formulas,
        res.undo_stack@.len() == 0,
        res.redo_stack@.len() == 0,
        res.logic_system.rules@ == crate::rules::natural_rules(),
        sequent_equal(res.initial_sequent, start_seq),
        !res.finished_proof,
{
    let state = get_start_sequent_state(start_seq.clone());
    proof {
        assert(sequent_fields(start_seq) =~= Seq::<FormulaField>::empty());
    }
    GameState {
        logic_system: get_system(),
        undo_stack: Vec::new(),
        redo_stack: Vec::new(),
        state,
        initial_sequent: start_seq,
        finished_proof: false,
    }
}

/// Snapshot the current state and restart from the initial sequent.
pub fn restart(gs: &mut GameState)
    requires
        game_wf(*old(gs)),
    ensures
        game_wf(*final(gs)),
        final(gs).undo_stack@.len() == old(gs).undo_stack@.len() + 1,
        state_equal(final(gs).undo_stack@.last(), old(gs).state),
        sequent_equal(final(gs).state.proof.root, old(gs).initial_sequent),
        final(gs).state.proof.rule_id is None,
        final(gs).state.proof.branches@.len() == 0,
        proof_fields(final(gs).state.proof).len() == 0,
        !final(gs).state.editing_formulas,
        final(gs).state.formulas_position is None,
        final(gs).state.next_formula_index == 0,
        final(gs).state.next_proof_index == 1,
        final(gs).state.node_to_check_after_fields_completed is None,
{
    record_undo_entry(gs);
    let fresh = get_start_sequent_state(gs.initial_sequent.clone());
    gs.state = fresh;
    proof {
        assert forall|i: int| 0 <= i < final(gs).undo_stack@.len() implies state_wf(
            #[trigger] final(gs).undo_stack@[i],
        ) by {
            if i < old(gs).undo_stack@.len() {
                assert(final(gs).undo_stack@[i] == old(gs).undo_stack@[i]);
            } else {
                lemma_state_equal_sym(final(gs).undo_stack@.last(), old(gs).state);
                lemma_state_equal_wf(old(gs).state, final(gs).undo_stack@.last());
            }
        }
    }
}

/// Apply the rule at `rule_index` to the current goal.  On success a
/// snapshot of the pre-apply state is pushed for undo, the rule's fresh
/// holes (if any) start a fill-in phase, and the node is remembered for its
/// validity check.  A rejected rule leaves the session untouched.
pub fn insert_rule(gs: &mut GameState, rule_index: usize, special: bool) -> (r: bool)
    requires
        game_wf(*old(gs)),
        rule_index < old(gs).logic_system.rules@.len(),
    ensures
        game_wf(*final(gs)),
        ({
            let tag = effective_tag(old(gs).logic_system, rule_index as int, special);
            r == ({
                &&& !old(gs).state.editing_formulas
                &&& proof_fields(old(gs).state.proof).len() == 0
                &&& first_open(old(gs).state.proof) is Some
                &&& rule_precondition(tag, first_open(old(gs).state.proof)->0.root)
                &&& old(gs).state.next_proof_index <= u32::MAX - 3
            })
        }),
        ({
            let tag = effective_tag(old(gs).logic_system, rule_index as int, special);
            let count = rule_field_count(tag);
            r ==> {
                &&& first_open(old(gs).state.proof) is Some
                &&& rule_precondition(tag, first_open(old(gs).state.proof)->0.root)
                &&& apply_rel(
                    old(gs).state.proof,
                    final(gs).state.proof,
                    tag,
                    rule_index as u32,
                    old(gs).state.next_proof_index,
                )
                &&& final(gs).undo_stack@.len() == old(gs).undo_stack@.len() + 1
                &&& final(gs).undo_stack@.drop_last() == old(gs).undo_stack@
                &&& state_equal(final(gs).undo_stack@.last(), old(gs).state)
                &&& final(gs).redo_stack@.len() == 0
                &&& final(gs).state.editing_formulas == (count > 0)
                &&& (count > 0 ==> final(gs).state.formulas_position == Option::Some(0u32)
                    && final(gs).state.next_formula_index == count)
                &&& final(gs).state.node_to_check_after_fields_completed == Option::Some(
                    first_open(old(gs).state.proof)->0.id,
                )
            }
        }),
        !r ==> {
            &&& final(gs).state == old(gs).state
            &&& final(gs).undo_stack@ == old(gs).undo_stack@
            &&& final(gs).redo_stack@ == old(gs).redo_stack@
        },
{
    if gs.state.editing_formulas {
        return false;
    }
    if gs.state.next_proof_index > u32::MAX - 3 {
        return false;
    }
    let existing = search_fields_by_id_in_proof(&gs.state.proof, Option::None);
    proof {
        crate::fields::lemma_fields_filter_spec(proof_fields(gs.state.proof), Option::None);
    }
    if existing.len() > 0 {
        return false;
    }
    let goal_id = match get_first_unfinished_proof(&gs.state.proof) {
        Option::Some(goal) => goal.id,
        Option::None => {
            return false;
        },
    };
    let undo_entry = gs.state.clone();
    let applied = apply_rule(
        &mut gs.state.proof,
        rule_index,
        special,
        &gs.logic_system,
        &mut gs.state.next_proof_index,
    );
    match applied {
        Option::None => false,
        Option::Some(field_count) => {
            gs.state.node_to_check_after_fields_completed = Option::Some(goal_id);
            add_undo_entry(undo_entry, gs);
            if field_count > 0 {
                gs.state.next_formula_index = field_count;
                gs.state.formulas_position = Option::Some(0);
                gs.state.editing_formulas = true;
            }
            proof {
                let tag = effective_tag(old(gs).logic_system, rule_index as int, special);
                crate::rules::lemma_rule_fresh_count(tag);
                assert(final(gs).undo_stack@.drop_last() =~= old(gs).undo_stack@);
                lemma_state_equal_sym(final(gs).undo_stack@.last(), old(gs).state);
                lemma_state_equal_wf(old(gs).state, final(gs).undo_stack@.last());
                assert forall|i: int| 0 <= i < final(gs).undo_stack@.len() implies state_wf(
                    #[trigger] final(gs).undo_stack@[i],
                ) by {
                    if i < old(gs).undo_stack@.len() {
                        assert(final(gs).undo_stack@[i] == old(gs).undo_stack@[i]);
                    }
                }
            }
            true
        },
    }
}

/// Leave fill-in mode once no hole is left: if a rule application is
/// waiting for its validity check, run it; an invalid choice keeps the
/// session in fill-in mode with the node marked, to be undone explicitly.
pub fn exit_formula_mode(gs: &mut GameState)
    requires
        game_wf_core(*old(gs)),
    ensures
        game_wf(*final(gs)),
        final(gs).undo_stack@ == old(gs).undo_stack@,
        final(gs).redo_stack@ == old(gs).redo_stack@,
        final(gs).logic_system == old(gs).logic_system,
        final(gs).initial_sequent == old(gs).initial_sequent,
        final(gs).state.next_formula_index == old(gs).state.next_formula_index,
        final(gs).state.next_proof_index == old(gs).state.next_proof_index,
        proof_fields(final(gs).state.proof) == proof_fields(old(gs).state.proof),
        match old(gs).state.node_to_check_after_fields_completed {
            Option::None => {
                &&& final(gs).state.proof == old(gs).state.proof
                &&& !final(gs).state.editing_formulas
                &&& final(gs).state.formulas_position == old(gs).state.formulas_position
                &&& final(gs).state.node_to_check_after_fields_completed is None
            },
            Option::Some(nid) => {
                let found = find_node(old(gs).state.proof, nid);
                if found matches Option::Some(node) && node.rule_id matches Option::Some(rid)
                    && rid < old(gs).logic_system.rules@.len() {
                    if rule_valid(old(gs).logic_system.rules@[found->0.rule_id->0 as int], found->0) {
                        &&& final(gs).state.proof == old(gs).state.proof
                        &&& !final(gs).state.editing_formulas
                        &&& final(gs).state.formulas_position == old(gs).state.formulas_position
                        &&& final(gs).state.node_to_check_after_fields_completed is None
                    } else {
                        &&& marked_rel(old(gs).state.proof, final(gs).state.proof, nid)
                        &&& final(gs).state.editing_formulas == old(gs).state.editing_formulas
                        &&& final(gs).state.formulas_position is None
                        &&& final(gs).state.node_to_check_after_fields_completed == Option::Some(
                            nid,
                        )
                    }
                } else {
                    &&& final(gs).state.proof == old(gs).state.proof
                    &&& !final(gs).state.editing_formulas
                    &&& final(gs).state.formulas_position == old(gs).state.formulas_position
                    &&& final(gs).state.node_to_check_after_fields_completed is None
                }
            },
        },
{
    let pending = gs.state.node_to_check_after_fields_completed;
    match pending {
        Option::Some(proof_id) => {
            let mut checked = false;
            let mut ok = false;
            match get_proof_node_by_id(&gs.state.proof, proof_id) {
                Option::Some(node) => match node.rule_id {
                    Option::Some(rid) => {
                        if (rid as usize) < gs.logic_system.rules.len() {
                            checked = true;
                            ok = rule_check_validity(
                                gs.logic_system.rules[rid as usize],
                                node,
                            );
                        }
                    },
                    Option::None => {},
                },
                Option::None => {},
            }
            if !checked || ok {
                gs.state.node_to_check_after_fields_completed = Option::None;
                gs.state.editing_formulas = false;
            } else {
                gs.state.formulas_position = Option::None;
                let marked = mark_rule_invalid(&gs.state.proof, proof_id);
                proof {
                    lemma_marked_props(gs.state.proof, marked, proof_id);
                }
                gs.state.proof = marked;
            }
        },
        Option::None => {
            gs.state.editing_formulas = false;
        },
    }
}

/// Fill the focused hole with variable `var`, move the cursor to the next
/// hole, and leave fill-in mode when none is left.  Returns false when the
/// session is not in fill-in mode.
pub fn insert_variable(gs: &mut GameState, var: u32) -> (r: bool)
    requires
        game_wf(*old(gs)),
        var < MAX_VARIABLE_COUNT,
    ensures
        game_wf(*final(gs)),
        r == (old(gs).state.editing_formulas && old(gs).state.formulas_position is Some),
        r ==> {
            let pos = old(gs).state.formulas_position->0;
            let fs = proof_fields(old(gs).state.proof);
            let rec = record_of(fs, pos);
            &&& final(gs).undo_stack@.len() == old(gs).undo_stack@.len() + 1
            &&& final(gs).undo_stack@.drop_last() == old(gs).undo_stack@
            &&& state_equal(final(gs).undo_stack@.last(), old(gs).state)
            &&& final(gs).redo_stack@.len() == 0
            &&& !has_id(proof_fields(final(gs).state.proof), pos)
            &&& (rec.next_id != pos ==> {
                &&& crate::fields::place_rel(
                    old(gs).state.proof,
                    final(gs).state.proof,
                    crate::formula::Formula::Variable(var),
                    crate::fields::splice_out(rec),
                )
                &&& final(gs).state.formulas_position == Option::Some(rec.next_id)
                &&& final(gs).state.editing_formulas
            })
            &&& (rec.next_id == pos ==> exists|mid: Proof|
                {
                    &&& #[trigger] crate::fields::place_rel(
                        old(gs).state.proof,
                        mid,
                        crate::formula::Formula::Variable(var),
                        crate::fields::splice_out(rec),
                    )
                    &&& (final(gs).state.proof == mid || (
                    old(gs).state.node_to_check_after_fields_completed matches Option::Some(nid)
                        && marked_rel(mid, final(gs).state.proof, nid)))
                })
        },
        !r ==> {
            &&& final(gs).state == old(gs).state
            &&& final(gs).undo_stack@ == old(gs).undo_stack@
            &&& final(gs).redo_stack@ == old(gs).redo_stack@
        },
{
    if !gs.state.editing_formulas {
        return false;
    }
    let position = match gs.state.formulas_position {
        Option::Some(p) => p,
        Option::None => {
            return false;
        },
    };
    record_undo_entry(gs);
    let ghost fs = proof_fields(gs.state.proof);
    let ghost rec = record_of(fs, position);
    let next = place_variable(var, position, &mut gs.state.proof);
    proof {
        assert(fs.contains(rec));
        crate::fields::lemma_linked(fs, rec);
        crate::fields::lemma_place_rel_wf(
            old(gs).state.proof,
            gs.state.proof,
            crate::formula::Formula::Variable(var),
            crate::fields::splice_out(rec),
        );
        assert(gs.undo_stack@.drop_last() =~= old(gs).undo_stack@);
        lemma_state_equal_sym(gs.undo_stack@.last(), old(gs).state);
        lemma_state_equal_wf(old(gs).state, gs.undo_stack@.last());
        assert forall|i: int| 0 <= i < gs.undo_stack@.len() implies state_wf(
            #[trigger] gs.undo_stack@[i],
        ) by {
            if i < old(gs).undo_stack@.len() {
                assert(gs.undo_stack@[i] == old(gs).undo_stack@[i]);
            }
        }
        assert forall|e: FormulaField|
            #[trigger] proof_fields(gs.state.proof).contains(e) implies e.id
            < gs.state.next_formula_index by {
            assert(has_id(proof_fields(gs.state.proof), e.id));
            if has_id(fs, e.id) {
                let w = choose|w: FormulaField| #[trigger] fs.contains(w) && w.id == e.id;
            }
        }
    }
    match next {
        Option::Some(new_field) => {
            gs.state.formulas_position = Option::Some(new_field);
        },
        Option::None => {
            let ghost mid_proof = gs.state.proof;
            exit_formula_mode(gs);
            proof {
                assert(crate::fields::place_rel(
                    old(gs).state.proof,
                    mid_proof,
                    crate::formula::Formula::Variable(var),
                    crate::fields::splice_out(rec),
                ));
            }
        },
    }
    true
}

/// Fill the focused hole with an operator whose arguments are fresh holes,
/// focus the first of them, and leave fill-in mode when none is left.
/// Returns false when the session is not in fill-in mode or the id counter
/// would overflow.
pub fn insert_operator(gs: &mut GameState, op: crate::formula::OperatorType) -> (r: bool)
    requires
        game_wf(*old(gs)),
    ensures
        game_wf(*final(gs)),
        r == (old(gs).state.editing_formulas && old(gs).state.formulas_position is Some
            && old(gs).state.next_formula_index <= u32::MAX - 2),
        r ==> {
            let pos = old(gs).state.formulas_position->0;
            let fs = proof_fields(old(gs).state.proof);
            let rec = record_of(fs, pos);
            &&& old(gs).state.editing_formulas
            &&& old(gs).state.formulas_position is Some
            &&& final(gs).undo_stack@.len() == old(gs).undo_stack@.len() + 1
            &&& final(gs).undo_stack@.drop_last() == old(gs).undo_stack@
            &&& state_equal(final(gs).undo_stack@.last(), old(gs).state)
            &&& final(gs).redo_stack@.len() == 0
            &&& (crate::formula::spec_operator_arity(op) == 1 ==> {
                &&& crate::fields::place_rel(
                    old(gs).state.proof,
                    final(gs).state.proof,
                    crate::fields::unary_repl(op, rec),
                    crate::fields::splice_keep(rec),
                )
                &&& final(gs).state.formulas_position == Option::Some(pos)
                &&& proof_fields(final(gs).state.proof) == fs
            })
            &&& (crate::formula::spec_operator_arity(op) == 2 ==> {
                &&& crate::fields::place_rel(
                    old(gs).state.proof,
                    final(gs).state.proof,
                    crate::fields::binary_repl(op, rec, old(gs).state.next_formula_index),
                    crate::fields::splice_two(rec, old(gs).state.next_formula_index),
                )
                &&& final(gs).state.formulas_position == Option::Some(
                    old(gs).state.next_formula_index,
                )
                &&& final(gs).state.next_formula_index == old(gs).state.next_formula_index + 2
                &&& has_id(
                    proof_fields(final(gs).state.proof),
                    old(gs).state.next_formula_index,
                )
                &&& has_id(
                    proof_fields(final(gs).state.proof),
                    (old(gs).state.next_formula_index + 1) as u32,
                )
                &&& !has_id(proof_fields(final(gs).state.proof), pos)
            })
            &&& (crate::formula::spec_operator_arity(op) == 0 ==> {
                &&& !has_id(proof_fields(final(gs).state.proof), pos)
                &&& (rec.next_id != pos ==> {
                    &&& crate::fields::place_rel(
                        old(gs).state.proof,
                        final(gs).state.proof,
                        crate::fields::nullary_repl(op),
                        crate::fields::splice_out(rec),
                    )
                    &&& final(gs).state.formulas_position == Option::Some(rec.next_id)
                    &&& final(gs).state.editing_formulas
                })
                &&& (rec.next_id == pos ==> exists|mid: Proof|
                    {
                        &&& #[trigger] crate::fields::place_rel(
                            old(gs).state.proof,
                            mid,
                            crate::fields::nullary_repl(op),
                            crate::fields::splice_out(rec),
                        )
                        &&& (final(gs).state.proof == mid || (
                        old(gs).state.node_to_check_after_fields_completed matches Option::Some(
                            nid,
                        ) && marked_rel(mid, final(gs).state.proof, nid)))
                    })
            })
        },
        !r ==> {
            &&& final(gs).state == old(gs).state
            &&& final(gs).undo_stack@ == old(gs).undo_stack@
            &&& final(gs).redo_stack@ == old(gs).redo_stack@
        },
{
    if !gs.state.editing_formulas {
        return false;
    }
    let position = match gs.state.formulas_position {
        Option::Some(p) => p,
        Option::None => {
            return false;
        },
    };
    if gs.state.next_formula_index > u32::MAX - 2 {
        return false;
    }
    record_undo_entry(gs);
    let ghost fs = proof_fields(gs.state.proof);
    let ghost rec = record_of(fs, position);
    let next = place_uncompleted_operator(
        op,
        position,
        &mut gs.state.proof,
        &mut gs.state.next_formula_index,
    );
    proof {
        assert(fs.contains(rec));
        crate::fields::lemma_linked(fs, rec);
        reveal_with_fuel(crate::formula::formula_wf, 3);
        if crate::formula::spec_operator_arity(op) == 0 {
            crate::fields::lemma_place_rel_wf(
                old(gs).state.proof,
                gs.state.proof,
                crate::fields::nullary_repl(op),
                crate::fields::splice_out(rec),
            );
        } else if crate::formula::spec_operator_arity(op) == 1 {
            crate::fields::lemma_place_rel_wf(
                old(gs).state.proof,
                gs.state.proof,
                crate::fields::unary_repl(op, rec),
                crate::fields::splice_keep(rec),
            );
        } else {
            crate::fields::lemma_place_rel_wf(
                old(gs).state.proof,
                gs.state.proof,
                crate::fields::binary_repl(op, rec, old(gs).state.next_formula_index),
                crate::fields::splice_two(rec, old(gs).state.next_formula_index),
            );
        }
        assert(gs.undo_stack@.drop_last() =~= old(gs).undo_stack@);
        lemma_state_equal_sym(gs.undo_stack@.last(), old(gs).state);
        lemma_state_equal_wf(old(gs).state, gs.undo_stack@.last());
        assert forall|i: int| 0 <= i < gs.undo_stack@.len() implies state_wf(
            #[trigger] gs.undo_stack@[i],
        ) by {
            if i < old(gs).undo_stack@.len() {
                assert(gs.undo_stack@[i] == old(gs).undo_stack@[i]);
            }
        }
        assert forall|e: FormulaField|
            #[trigger] proof_fields(gs.state.proof).contains(e) implies e.id
            < gs.state.next_formula_index by {
            assert(has_id(proof_fields(gs.state.proof), e.id));
            if has_id(fs, e.id) {
                let w = choose|w: FormulaField| #[trigger] fs.contains(w) && w.id == e.id;
            }
        }
    }
    match next {
        Option::Some(new_field) => {
            gs.state.formulas_position = Option::Some(new_field);
        },
        Option::None => {
            let ghost mid_proof = gs.state.proof;
            exit_formula_mode(gs);
            proof {
                assert(crate::fields::place_rel(
                    old(gs).state.proof,
                    mid_proof,
                    crate::fields::nullary_repl(op),
                    crate::fields::splice_out(rec),
                ));
            }
        },
    }
    true
}

/// Move the fill-in cursor to the hole after the focused one in tab order.
pub fn next_field(gs: &mut GameState) -> (r: bool)
    requires
        game_wf(*old(gs)),
    ensures
        game_wf(*final(gs)),
        r == (old(gs).state.editing_formulas && old(gs).state.formulas_position is Some),
        r ==> {
            &&& final(gs).state.formulas_position == Option::Some(
                record_of(
                    proof_fields(old(gs).state.proof),
                    old(gs).state.formulas_position->0,
                ).next_id,
            )
            &&& final(gs).state.proof == old(gs).state.proof
            &&& final(gs).undo_stack@ == old(gs).undo_stack@
            &&& final(gs).redo_stack@ == old(gs).redo_stack@
        },
        !r ==> final(gs).state == old(gs).state && final(gs).undo_stack@ == old(gs).undo_stack@
            && final(gs).redo_stack@ == old(gs).redo_stack@,
{
    if !gs.state.editing_formulas {
        return false;
    }
    let position = match gs.state.formulas_position {
        Option::Some(p) => p,
        Option::None => {
            return false;
        },
    };
    let fields = search_fields_by_id_in_proof(&gs.state.proof, Option::Some(position));
    proof {
        crate::fields::lemma_fields_filter_spec(
            proof_fields(gs.state.proof),
            Option::Some(position),
        );
        crate::fields::lemma_record_of(proof_fields(gs.state.proof), fields@[0]);
        crate::fields::lemma_linked(proof_fields(gs.state.proof), fields@[0]);
    }
    gs.state.formulas_position = Option::Some(fields[0].next_id);
    true
}

/// Move the fill-in cursor to the hole before the focused one in tab order.
pub fn previous_field(gs: &mut GameState) -> (r: bool)
    requires
        game_wf(*old(gs)),
    ensures
        game_wf(*final(gs)),
        r == (old(gs).state.editing_formulas && old(gs).state.formulas_position is Some),
        r ==> {
            &&& final(gs).state.formulas_position == Option::Some(
                record_of(
                    proof_fields(old(gs).state.proof),
                    old(gs).state.formulas_position->0,
                ).prev_id,
            )
            &&& final(gs).state.proof == old(gs).state.proof
            &&& final(gs).undo_stack@ == old(gs).undo_stack@
            &&& final(gs).redo_stack@ == old(gs).redo_stack@
        },
        !r ==> final(gs).state == old(gs).state && final(gs).undo_stack@ == old(gs).undo_stack@
            && final(gs).redo_stack@ == old(gs).redo_stack@,
{
    if !gs.state.editing_formulas {
        return false;
    }
    let position = match gs.state.formulas_position {
        Option::Some(p) => p,
        Option::None => {
            return false;
        },
    };
    let fields = search_fields_by_id_in_proof(&gs.state.proof, Option::Some(position));
    proof {
        crate::fields::lemma_fields_filter_spec(
            proof_fields(gs.state.proof),
            Option::Some(position),
        );
        crate::fields::lemma_record_of(proof_fields(gs.state.proof), fields@[0]);
        crate::fields::lemma_linked(proof_fields(gs.state.proof), fields@[0]);
    }
    gs.state.formulas_position = Option::Some(fields[0].prev_id);
    true
}

} // verus!
