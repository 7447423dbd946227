//! The proof tree: every node owns a sequent, the branches a rule produced
//! for it, and the id of that rule once one has been applied.  A node with no
//! rule yet is an open goal.

use vstd::prelude::*;

use crate::formula::FormulaField;
use crate::sequent::Sequent;
use crate::sequent::sequent_eq;
use crate::sequent::sequent_equal;
use crate::sequent::sequent_fields;
use crate::sequent::sequent_wf;

verus! {

/// A proof tree node.
///
/// `rule_id = None` marks an open goal; `rule_id = Some(i)` records that rule
/// `i` produced exactly `branches`.  `id` is unique across the tree and
/// `is_rule_invalid` marks a node whose filled-in rule failed its validity
/// check (kept visible for the player rather than rolled back).
pub struct Proof {
    pub root: Sequent,
    pub branches: Vec<Proof>,
    pub rule_id: Option<u32>,
    pub id: u32,
    pub is_rule_invalid: bool,
}

/// The placeholder fields of a whole proof tree: the root sequent's fields,
/// then each branch's in order.
pub open spec fn proof_fields(p: Proof) -> Seq<FormulaField>
    decreases p,
{
    sequent_fields(p.root) + proofs_fields(p.branches@)
}

pub open spec fn proofs_fields(ps: Seq<Proof>) -> Seq<FormulaField>
    decreases ps,
{
    if ps.len() == 0 {
        Seq::empty()
    } else {
        proof_fields(ps[0]) + proofs_fields(ps.drop_first())
    }
}

/// Structural equality of proof trees, down to the applied rules, node ids
/// and validity marks.
pub open spec fn proof_equal(a: Proof, b: Proof) -> bool
    decreases a,
{
    &&& sequent_equal(a.root, b.root)
    &&& a.rule_id == b.rule_id
    &&& a.id == b.id
    &&& a.is_rule_invalid == b.is_rule_invalid
    &&& a.branches@.len() == b.branches@.len()
    &&& forall|i: int|
        0 <= i < a.branches@.len() ==> proof_equal(#[trigger] a.branches@[i], b.branches@[i])
}

pub proof fn lemma_proof_equal_sym(a: Proof, b: Proof)
    requires
        proof_equal(a, b),
    ensures
        proof_equal(b, a),
    decreases a,
{
    assert forall|i: int| 0 <= i < b.branches@.len() implies proof_equal(
        #[trigger] b.branches@[i],
        a.branches@[i],
    ) by {
        lemma_proof_equal_sym(a.branches@[i], b.branches@[i]);
    }
}

/// Structurally equal proofs carry the same placeholder fields.
pub proof fn lemma_proof_equal_fields(a: Proof, b: Proof)
    requires
        proof_equal(a, b),
    ensures
        proof_fields(a) == proof_fields(b),
    decreases a,
{
    lemma_proofs_equal_fields(a.branches@, b.branches@);
    assert(proof_fields(a) =~= proof_fields(b));
}

proof fn lemma_proofs_equal_fields(a: Seq<Proof>, b: Seq<Proof>)
    requires
        a.len() == b.len(),
        forall|i: int| 0 <= i < a.len() ==> proof_equal(#[trigger] a[i], b[i]),
    ensures
        proofs_fields(a) == proofs_fields(b),
    decreases a,
{
    if a.len() > 0 {
        lemma_proof_equal_fields(a[0], b[0]);
        assert(forall|j: int| 0 <= j < a.len() - 1 ==> #[trigger] a.drop_first()[j] == a[j + 1]);
        assert(forall|j: int| 0 <= j < b.len() - 1 ==> #[trigger] b.drop_first()[j] == b[j + 1]);
        lemma_proofs_equal_fields(a.drop_first(), b.drop_first());
        assert(proofs_fields(a) =~= proofs_fields(b));
    }
}

/// Fields of an extended branch list.
pub proof fn lemma_proofs_fields_push(ps: Seq<Proof>, p: Proof)
    ensures
        proofs_fields(ps.push(p)) == proofs_fields(ps) + proof_fields(p),
    decreases ps.len(),
{
    reveal_with_fuel(proofs_fields, 3);
    assert(ps.push(p)[0] == if ps.len() == 0 { p } else { ps[0] });
    if ps.len() == 0 {
        assert(ps.push(p).drop_first() =~= Seq::<Proof>::empty());
        assert(proofs_fields(ps.push(p)) =~= proofs_fields(ps) + proof_fields(p));
    } else {
        assert(ps.push(p).drop_first() =~= ps.drop_first().push(p));
        lemma_proofs_fields_push(ps.drop_first(), p);
        assert(proofs_fields(ps.push(p)) =~= proofs_fields(ps) + proof_fields(p));
    }
}

impl Clone for Proof {
    /// Deep structural copy; undo/redo snapshots rely on it.
    fn clone(&self) -> (res: Self)
        ensures
            proof_equal(res, *self),
        decreases *self,
    {
        let mut branches: Vec<Proof> = Vec::new();
        let mut i: usize = 0;
        while i < self.branches.len()
            invariant
                0 <= i <= self.branches.len(),
                branches@.len() == i,
                forall|j: int|
                    0 <= j < i ==> proof_equal(#[trigger] branches@[j], self.branches@[j]),
            decreases self.branches.len() - i,
        {
            branches.push(self.branches[i].clone());
            i += 1;
        }
        Proof {
            root: self.root.clone(),
            branches,
            rule_id: self.rule_id,
            id: self.id,
            is_rule_invalid: self.is_rule_invalid,
        }
    }
}

/// Structural equality test on proof trees.
pub fn proof_eq(a: &Proof, b: &Proof) -> (r: bool)
    ensures
        r == proof_equal(*a, *b),
    decreases *a,
{
    if !sequent_eq(&a.root, &b.root) {
        return false;
    }
    let rules_match = match (a.rule_id, b.rule_id) {
        (Option::Some(x), Option::Some(y)) => x == y,
        (Option::None, Option::None) => true,
        _ => false,
    };
    if !rules_match || a.id != b.id || a.is_rule_invalid != b.is_rule_invalid {
        return false;
    }
    if a.branches.len() != b.branches.len() {
        return false;
    }
    let mut i: usize = 0;
    while i < a.branches.len()
        invariant
            0 <= i <= a.branches@.len(),
            a.branches@.len() == b.branches@.len(),
            sequent_equal(a.root, b.root),
            a.rule_id == b.rule_id,
            a.id == b.id,
            a.is_rule_invalid == b.is_rule_invalid,
            forall|j: int|
                0 <= j < i ==> proof_equal(#[trigger] a.branches@[j], b.branches@[j]),
        decreases a.branches@.len() - i,
    {
        if !proof_eq(&a.branches[i], &b.branches[i]) {
            return false;
        }
        i += 1;
    }
    true
}

/// Wrap a sequent as a fresh open goal, drawing the node id from the
/// caller's monotonic counter.
pub fn sequent_as_empty_proof(s: Sequent, next_proof_index: &mut u32) -> (res: Proof)
    requires
        *old(next_proof_index) < u32::MAX,
    ensures
        *final(next_proof_index) == *old(next_proof_index) + 1,
        res.root == s,
        res.branches@.len() == 0,
        res.rule_id is None,
        res.id == *old(next_proof_index),
        !res.is_rule_invalid,
        proof_fields(res) == sequent_fields(s),
{
    let id = *next_proof_index;
    *next_proof_index += 1;
    let res = Proof {
        root: s,
        branches: Vec::new(),
        rule_id: Option::None,
        id,
        is_rule_invalid: false,
    };
    proof {
        assert(proof_fields(res) =~= sequent_fields(res.root));
    }
    res
}

/// The first open goal of a proof tree, in pre-order: a resolved node is
/// skipped in favour of its first unresolved branch.
pub open spec fn first_open(p: Proof) -> Option<Proof>
    decreases p, p.branches@.len() + 1,
{
    if p.rule_id is None {
        Option::Some(p)
    } else {
        first_open_in(p, 0)
    }
}

pub open spec fn first_open_in(p: Proof, i: int) -> Option<Proof>
    decreases p, p.branches@.len() - i,
{
    if !(0 <= i < p.branches@.len()) {
        Option::None
    } else {
        match first_open(p.branches@[i]) {
            Option::Some(q) => Option::Some(q),
            Option::None => first_open_in(p, i + 1),
        }
    }
}

/// Locate the first open goal.  The result is a pure function of the tree,
/// so two calls without an intervening mutation return the same node.
pub fn get_first_unfinished_proof(p: &Proof) -> (r: Option<&Proof>)
    ensures
        match r {
            Option::Some(q) => first_open(*p) == Option::Some(*q),
            Option::None => first_open(*p) is None,
        },
    decreases *p,
{
    if p.rule_id.is_none() {
        return Option::Some(p);
    }
    let n = p.branches.len();
    let mut i: usize = 0;
    while i < n
        invariant
            0 <= i <= n,
            n == p.branches@.len(),
            p.rule_id is Some,
            first_open_in(*p, 0) == first_open_in(*p, i as int),
        decreases n - i,
    {
        let sub = get_first_unfinished_proof(&p.branches[i]);
        if sub.is_some() {
            return sub;
        }
        i += 1;
    }
    Option::None
}

/// Every sequent in the tree is well formed.
pub open spec fn proof_sequents_wf(p: Proof) -> bool
    decreases p,
{
    &&& crate::sequent::sequent_wf(p.root)
    &&& forall|i: int| 0 <= i < p.branches@.len() ==> proof_sequents_wf(#[trigger] p.branches@[i])
}

/// In a field-free branch list every branch is field-free.
pub proof fn lemma_proofs_fields_parts(ps: Seq<Proof>)
    requires
        proofs_fields(ps).len() == 0,
    ensures
        forall|i: int| 0 <= i < ps.len() ==> proof_fields(#[trigger] ps[i]).len() == 0,
    decreases ps,
{
    if ps.len() > 0 {
        lemma_proofs_fields_parts(ps.drop_first());
        assert forall|i: int| 0 <= i < ps.len() implies proof_fields(
            #[trigger] ps[i],
        ).len() == 0 by {
            if i > 0 {
                assert(ps.drop_first()[i - 1] == ps[i]);
            }
        }
    }
}

/// When exactly one branch carries fields, the list's fields are that
/// branch's.
pub proof fn lemma_proofs_fields_single(ps: Seq<Proof>, k: int)
    requires
        0 <= k < ps.len(),
        forall|j: int| 0 <= j < ps.len() && j != k ==> proof_fields(#[trigger] ps[j]).len() == 0,
    ensures
        proofs_fields(ps) == proof_fields(ps[k]),
    decreases ps,
{
    assert forall|j: int| 0 <= j < ps.drop_first().len() && j != k - 1 implies proof_fields(
        #[trigger] ps.drop_first()[j],
    ).len() == 0 by {
        assert(ps.drop_first()[j] == ps[j + 1]);
    }
    if k == 0 {
        lemma_proofs_fields_all_empty(ps.drop_first());
        assert(proofs_fields(ps) =~= proof_fields(ps[0]));
    } else {
        assert(ps.drop_first()[k - 1] == ps[k]);
        lemma_proofs_fields_single(ps.drop_first(), k - 1);
        assert(proofs_fields(ps) =~= proof_fields(ps[k]));
    }
}

/// A list of field-free branches is field-free.
pub proof fn lemma_proofs_fields_all_empty(ps: Seq<Proof>)
    requires
        forall|j: int| 0 <= j < ps.len() ==> proof_fields(#[trigger] ps[j]).len() == 0,
    ensures
        proofs_fields(ps).len() == 0,
    decreases ps,
{
    if ps.len() > 0 {
        assert forall|j: int| 0 <= j < ps.drop_first().len() implies proof_fields(
            #[trigger] ps.drop_first()[j],
        ).len() == 0 by {
            assert(ps.drop_first()[j] == ps[j + 1]);
        }
        lemma_proofs_fields_all_empty(ps.drop_first());
    }
}

/// What `first_open_in` returns: the first branch at or past the cursor
/// that still holds an open goal, recursively resolved.
pub proof fn lemma_first_open_in_spec(p: Proof, i: int)
    requires
        0 <= i,
    ensures
        match first_open_in(p, i) {
            Option::Some(q) => exists|k: int|
                #![trigger p.branches@[k]]
                i <= k < p.branches@.len() && first_open(p.branches@[k]) == Option::Some(q) && (
                forall|j: int| i <= j < k ==> first_open(#[trigger] p.branches@[j]) is None),
            Option::None => forall|j: int|
                i <= j < p.branches@.len() ==> first_open(#[trigger] p.branches@[j]) is None,
        },
    decreases p.branches@.len() - i,
{
    if 0 <= i < p.branches@.len() {
        if first_open(p.branches@[i]) is Some {
        } else {
            lemma_first_open_in_spec(p, i + 1);
            if first_open_in(p, i + 1) is Some {
                let k = choose|k: int|
                    #![trigger p.branches@[k]]
                    i + 1 <= k < p.branches@.len() && first_open(p.branches@[k]) == Option::Some(
                        first_open_in(p, i + 1)->0,
                    ) && (forall|j: int|
                        i + 1 <= j < k ==> first_open(#[trigger] p.branches@[j]) is None);
                assert(i <= k < p.branches@.len() && first_open(p.branches@[k]) == Option::Some(
                    first_open_in(p, i)->0,
                ) && (forall|j: int|
                    i <= j < k ==> first_open(#[trigger] p.branches@[j]) is None));
            }
        }
    }
}

/// The first open goal of a resolved node is the first open goal of its
/// first branch that still has one.
pub proof fn lemma_first_open_at_branch(p: Proof, k: int)
    requires
        p.rule_id is Some,
        0 <= k < p.branches@.len(),
        first_open(p.branches@[k]) is Some,
        forall|j: int| 0 <= j < k ==> first_open(#[trigger] p.branches@[j]) is None,
    ensures
        first_open(p) == first_open(p.branches@[k]),
{
    lemma_first_open_skip(p, 0, k);
}

proof fn lemma_first_open_skip(p: Proof, i: int, k: int)
    requires
        0 <= i <= k < p.branches@.len(),
        first_open(p.branches@[k]) is Some,
        forall|j: int| i <= j < k ==> first_open(#[trigger] p.branches@[j]) is None,
    ensures
        first_open_in(p, i) == first_open(p.branches@[k]),
    decreases k - i,
{
    if i < k {
        lemma_first_open_skip(p, i + 1, k);
    }
}

/// The first open goal inherits the tree's invariants: its sequents are
/// well formed, and it is field-free when the tree is.
pub proof fn lemma_first_open_props(p: Proof)
    requires
        proof_sequents_wf(p),
    ensures
        first_open(p) matches Option::Some(q) ==> {
            &&& proof_sequents_wf(q)
            &&& crate::sequent::sequent_wf(q.root)
            &&& (proof_fields(p).len() == 0 ==> sequent_fields(q.root).len() == 0)
        },
    decreases p,
{
    if p.rule_id is None {
    } else {
        lemma_first_open_in_spec(p, 0);
        if first_open(p) is Some {
            let q = first_open(p)->0;
            let k = choose|k: int|
                #![trigger p.branches@[k]]
                0 <= k < p.branches@.len() && first_open(p.branches@[k]) == Option::Some(q) && (
                forall|j: int| 0 <= j < k ==> first_open(#[trigger] p.branches@[j]) is None);
            lemma_first_open_props(p.branches@[k]);
            if proof_fields(p).len() == 0 {
                lemma_proofs_fields_parts(p.branches@);
            }
        }
    }
}

/// Structurally equal trees have well-formed sequents together.
pub proof fn lemma_proof_equal_sequents_wf(a: Proof, b: Proof)
    requires
        proof_equal(a, b),
        proof_sequents_wf(a),
    ensures
        proof_sequents_wf(b),
    decreases a,
{
    assert forall|i: int| 0 <= i < b.branches@.len() implies proof_sequents_wf(
        #[trigger] b.branches@[i],
    ) by {
        lemma_proof_equal_sequents_wf(a.branches@[i], b.branches@[i]);
    }
}

/// The first node with this id, in pre-order.
pub open spec fn find_node(p: Proof, id: u32) -> Option<Proof>
    decreases p, p.branches@.len() + 1,
{
    if p.id == id {
        Option::Some(p)
    } else {
        find_node_in(p, id, 0)
    }
}

pub open spec fn find_node_in(p: Proof, id: u32, i: int) -> Option<Proof>
    decreases p, p.branches@.len() - i,
{
    if !(0 <= i < p.branches@.len()) {
        Option::None
    } else {
        match find_node(p.branches@[i], id) {
            Option::Some(q) => Option::Some(q),
            Option::None => find_node_in(p, id, i + 1),
        }
    }
}

/// Locate the node carrying `id`, in pre-order.
pub fn get_proof_node_by_id(p: &Proof, id: u32) -> (r: Option<&Proof>)
    ensures
        match r {
            Option::Some(q) => find_node(*p, id) == Option::Some(*q),
            Option::None => find_node(*p, id) is None,
        },
    decreases *p,
{
    if p.id == id {
        return Option::Some(p);
    }
    let n = p.branches.len();
    let mut i: usize = 0;
    while i < n
        invariant
            0 <= i <= n,
            n == p.branches@.len(),
            p.id != id,
            find_node_in(*p, id, 0) == find_node_in(*p, id, i as int),
        decreases n - i,
    {
        let sub = get_proof_node_by_id(&p.branches[i], id);
        if sub.is_some() {
            return sub;
        }
        i += 1;
    }
    Option::None
}

/// The tree after marking every node carrying `id` as rule-invalid:
/// everything else is unchanged, down to structural equality.
pub open spec fn marked_rel(a: Proof, b: Proof, id: u32) -> bool
    decreases a,
{
    &&& sequent_equal(b.root, a.root)
    &&& b.rule_id == a.rule_id
    &&& b.id == a.id
    &&& b.is_rule_invalid == (a.is_rule_invalid || a.id == id)
    &&& b.branches@.len() == a.branches@.len()
    &&& forall|i: int|
        0 <= i < a.branches@.len() ==> marked_rel(#[trigger] a.branches@[i], b.branches@[i], id)
}

/// Mark every node carrying `id` as rule-invalid.
pub fn mark_rule_invalid(p: &Proof, id: u32) -> (r: Proof)
    ensures
        marked_rel(*p, r, id),
    decreases *p,
{
    let mut branches: Vec<Proof> = Vec::new();
    let mut i: usize = 0;
    while i < p.branches.len()
        invariant
            0 <= i <= p.branches@.len(),
            branches@.len() == i,
            forall|j: int|
                0 <= j < i ==> marked_rel(#[trigger] p.branches@[j], branches@[j], id),
        decreases p.branches@.len() - i,
    {
        branches.push(mark_rule_invalid(&p.branches[i], id));
        i += 1;
    }
    Proof {
        root: p.root.clone(),
        branches,
        rule_id: p.rule_id,
        id: p.id,
        is_rule_invalid: p.is_rule_invalid || p.id == id,
    }
}

/// Marking changes no placeholder field and keeps the sequents well
/// formed; it does not move the first open goal either.
pub proof fn lemma_marked_props(a: Proof, b: Proof, id: u32)
    requires
        marked_rel(a, b, id),
    ensures
        proof_fields(b) == proof_fields(a),
        proof_sequents_wf(a) ==> proof_sequents_wf(b),
    decreases a,
{
    assert forall|i: int| 0 <= i < a.branches@.len() implies proof_fields(
        #[trigger] b.branches@[i],
    ) == proof_fields(a.branches@[i]) && (proof_sequents_wf(a.branches@[i])
        ==> proof_sequents_wf(b.branches@[i])) by {
        lemma_marked_props(a.branches@[i], b.branches@[i], id);
    }
    lemma_marked_fields_branches(a.branches@, b.branches@, id);
    assert(proof_fields(b) =~= proof_fields(a));
}

proof fn lemma_marked_fields_branches(a: Seq<Proof>, b: Seq<Proof>, id: u32)
    requires
        a.len() == b.len(),
        forall|i: int| 0 <= i < a.len() ==> marked_rel(#[trigger] a[i], b[i], id),
    ensures
        proofs_fields(b) == proofs_fields(a),
    decreases a,
{
    if a.len() > 0 {
        lemma_marked_props(a[0], b[0], id);
        assert(forall|j: int| 0 <= j < a.len() - 1 ==> #[trigger] a.drop_first()[j] == a[j + 1]);
        assert(forall|j: int| 0 <= j < b.len() - 1 ==> #[trigger] b.drop_first()[j] == b[j + 1]);
        lemma_marked_fields_branches(a.drop_first(), b.drop_first(), id);
        assert(proofs_fields(b) =~= proofs_fields(a));
    }
}

} // verus!
