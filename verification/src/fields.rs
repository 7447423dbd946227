//! The field registry: placeholder holes across the whole proof tree form
//! disjoint doubly-linked tab-order cycles.  Filling a hole replaces every
//! tree location that shares its id at once and repairs the links of its
//! neighbours.

use vstd::prelude::*;

use crate::formula::Formula;
use crate::formula::FormulaField;
use crate::formula::Operator;
use crate::formula::OperatorType;
use crate::formula::MAX_VARIABLE_COUNT;
use crate::formula::formula_fields;
use crate::formula::get_operator_arity;
use crate::formula::spec_operator_arity;
use crate::formula::opt_fields;
use crate::prooftree::Proof;
use crate::prooftree::proof_fields;
use crate::prooftree::proofs_fields;
use crate::sequent::Sequent;
use crate::sequent::formulas_fields;
use crate::sequent::sequent_fields;

verus! {

/// Is some hole with this id present?
pub open spec fn has_id(fs: Seq<FormulaField>, id: u32) -> bool {
    exists|x: FormulaField| #[trigger] fs.contains(x) && x.id == id
}

/// The shared record of the holes with this id (well defined when the
/// registry is consistent).
pub open spec fn record_of(fs: Seq<FormulaField>, id: u32) -> FormulaField {
    choose|x: FormulaField| #[trigger] fs.contains(x) && x.id == id
}

/// All occurrences of one id carry the same record: a hole duplicated into
/// several branches stays one logical hole.
pub open spec fn fields_consistent(fs: Seq<FormulaField>) -> bool {
    forall|x: FormulaField, y: FormulaField|
        #[trigger] fs.contains(x) && #[trigger] fs.contains(y) && x.id == y.id ==> x == y
}

/// Instantiation guard for the cycle invariant: the quantifier in
/// `fields_linked` triggers only on this marker, so a proof asks for the
/// invariant of one hole at a time (through `lemma_linked`) instead of
/// letting the solver chase links for ever.
pub open spec fn linked_at(fs: Seq<FormulaField>, x: FormulaField) -> bool {
    true
}

/// Every link lands on an existing hole, and `next`/`prev` are mutually
/// inverse: the holes decompose into disjoint cycles.
pub open spec fn fields_linked(fs: Seq<FormulaField>) -> bool {
    forall|x: FormulaField|
        fs.contains(x) && #[trigger] linked_at(fs, x) ==> {
            &&& has_id(fs, x.next_id)
            &&& has_id(fs, x.prev_id)
            &&& record_of(fs, x.next_id).prev_id == x.id
            &&& record_of(fs, x.prev_id).next_id == x.id
        }
}

/// The cycle invariant, read off for one hole.
pub proof fn lemma_linked(fs: Seq<FormulaField>, x: FormulaField)
    requires
        fields_linked(fs),
        fs.contains(x),
    ensures
        has_id(fs, x.next_id),
        has_id(fs, x.prev_id),
        record_of(fs, x.next_id).prev_id == x.id,
        record_of(fs, x.prev_id).next_id == x.id,
{
    assert(linked_at(fs, x));
}

/// The registry invariant over the field list of a proof tree.
pub open spec fn fields_wf(fs: Seq<FormulaField>) -> bool {
    fields_consistent(fs) && fields_linked(fs)
}

/// Under consistency, `record_of` returns the record of any occurrence.
pub proof fn lemma_record_of(fs: Seq<FormulaField>, x: FormulaField)
    requires
        fields_consistent(fs),
        fs.contains(x),
    ensures
        record_of(fs, x.id) == x,
        has_id(fs, x.id),
{
}

/// Membership in a concatenation.
pub proof fn lemma_contains_add<A>(a: Seq<A>, b: Seq<A>)
    ensures
        forall|x: A| #[trigger] (a + b).contains(x) <==> a.contains(x) || b.contains(x),
{
    assert forall|x: A| #[trigger] (a + b).contains(x) implies a.contains(x) || b.contains(x) by {
        let i = choose|i: int| 0 <= i < (a + b).len() && (a + b)[i] == x;
        if i < a.len() {
            assert(a[i] == x);
        } else {
            assert(b[i - a.len()] == x);
        }
    }
    assert forall|x: A| a.contains(x) || b.contains(x) implies #[trigger] (a + b).contains(x) by {
        if a.contains(x) {
            let i = choose|i: int| 0 <= i < a.len() && a[i] == x;
            assert((a + b)[i] == x);
        } else {
            let i = choose|i: int| 0 <= i < b.len() && b[i] == x;
            assert((a + b)[a.len() + i] == x);
        }
    }
}

/// How one placement rewires the registry: the hole `rec` disappears, the
/// hole after `rec`'s predecessor becomes `pn`, and the hole before `rec`'s
/// successor becomes `np`.
#[derive(Clone, Copy, Debug, PartialEq, Eq, Structural)]
pub struct Splice {
    pub rec: FormulaField,
    pub pn: u32,
    pub np: u32,
}

/// Rewire one surviving hole: the filled hole's neighbours point at the
/// splice targets, every other hole is untouched.
pub open spec fn adjust_field(e: FormulaField, sp: Splice) -> FormulaField {
    FormulaField {
        id: e.id,
        next_id: if e.id == sp.rec.prev_id {
            sp.pn
        } else {
            e.next_id
        },
        prev_id: if e.id == sp.rec.next_id {
            sp.np
        } else {
            e.prev_id
        },
    }
}

/// The field list after a placement: occurrences of the filled hole become
/// `repl` (the fields of the placed formula), every other hole is rewired by
/// `adjust_field`.
pub open spec fn fields_place(fs: Seq<FormulaField>, repl: Seq<FormulaField>, sp: Splice) -> Seq<
    FormulaField,
>
    decreases fs.len(),
{
    if fs.len() == 0 {
        Seq::empty()
    } else {
        (if fs[0].id == sp.rec.id {
            repl
        } else {
            seq![adjust_field(fs[0], sp)]
        }) + fields_place(fs.drop_first(), repl, sp)
    }
}

pub proof fn lemma_fields_place_concat(a: Seq<FormulaField>, b: Seq<FormulaField>, repl: Seq<
    FormulaField>, sp: Splice)
    ensures
        fields_place(a + b, repl, sp) == fields_place(a, repl, sp) + fields_place(b, repl, sp),
    decreases a.len(),
{
    reveal_with_fuel(fields_place, 2);
    if a.len() == 0 {
        assert(a + b =~= b);
        assert(fields_place(a + b, repl, sp) =~= fields_place(a, repl, sp) + fields_place(
            b,
            repl,
            sp,
        ));
    } else {
        assert((a + b)[0] == a[0]);
        assert((a + b).drop_first() =~= a.drop_first() + b);
        lemma_fields_place_concat(a.drop_first(), b, repl, sp);
        assert(fields_place(a + b, repl, sp) =~= fields_place(a, repl, sp) + fields_place(
            b,
            repl,
            sp,
        ));
    }
}

/// What the rewritten registry holds: the replacement fields (when the
/// filled hole existed) and the rewired survivors, and nothing else.
pub proof fn lemma_fields_place_membership(fs: Seq<FormulaField>, repl: Seq<FormulaField>, sp:
    Splice)
    ensures
        forall|x: FormulaField|
            #[trigger] fields_place(fs, repl, sp).contains(x) <==> ((has_id(fs, sp.rec.id)
                && repl.contains(x)) || (exists|e: FormulaField|
                #[trigger] fs.contains(e) && e.id != sp.rec.id && x == adjust_field(e, sp))),
    decreases fs.len(),
{
    let g = fields_place(fs, repl, sp);
    if fs.len() == 0 {
    } else {
        let head = fs[0];
        let tail = fs.drop_first();
        let headpart: Seq<FormulaField> = if head.id == sp.rec.id {
            repl
        } else {
            seq![adjust_field(head, sp)]
        };
        lemma_fields_place_membership(tail, repl, sp);
        lemma_contains_add(headpart, fields_place(tail, repl, sp));
        assert(fs.contains(head)) by {
            assert(fs[0] == head);
        }
        assert forall|e: FormulaField| #[trigger] tail.contains(e) implies fs.contains(e) by {
            let i = choose|i: int| 0 <= i < tail.len() && tail[i] == e;
            assert(fs[i + 1] == e);
        }
        assert forall|x: FormulaField| #[trigger] g.contains(x) implies ((has_id(fs, sp.rec.id)
            && repl.contains(x)) || (exists|e: FormulaField|
            #[trigger] fs.contains(e) && e.id != sp.rec.id && x == adjust_field(e, sp))) by {
            if headpart.contains(x) {
                if head.id == sp.rec.id {
                    assert(has_id(fs, sp.rec.id));
                } else {
                    assert(x == adjust_field(head, sp));
                }
            } else {
                assert(fields_place(tail, repl, sp).contains(x));
                if has_id(tail, sp.rec.id) {
                    let w = choose|w: FormulaField| #[trigger] tail.contains(w) && w.id
                        == sp.rec.id;
                    assert(fs.contains(w));
                }
            }
        }
        assert forall|x: FormulaField| ((has_id(fs, sp.rec.id) && repl.contains(x)) || (exists|
            e: FormulaField|
            #[trigger] fs.contains(e) && e.id != sp.rec.id && x == adjust_field(e, sp))) implies #[trigger] g.contains(
            x,
        ) by {
            if has_id(fs, sp.rec.id) && repl.contains(x) {
                if head.id == sp.rec.id {
                    assert(headpart.contains(x));
                } else {
                    let w = choose|w: FormulaField| #[trigger] fs.contains(w) && w.id == sp.rec.id;
                    let i = choose|i: int| 0 <= i < fs.len() && fs[i] == w;
                    assert(tail[i - 1] == w);
                    assert(tail.contains(w));
                    assert(has_id(tail, sp.rec.id));
                    assert(fields_place(tail, repl, sp).contains(x));
                }
            } else {
                let e = choose|e: FormulaField|
                    #[trigger] fs.contains(e) && e.id != sp.rec.id && x == adjust_field(e, sp);
                let i = choose|i: int| 0 <= i < fs.len() && fs[i] == e;
                if i == 0 {
                    assert(headpart.contains(x)) by {
                        assert(headpart[0] == x);
                    }
                } else {
                    assert(tail[i - 1] == e);
                    assert(tail.contains(e));
                    assert(fields_place(tail, repl, sp).contains(x));
                }
            }
        }
    }
}

/// Consequences of the cycle invariant around one hole `rec`: its id
/// determines its record, only its predecessor points forward at it, only
/// its successor points backward at it, and it is its own successor exactly
/// when it is its own predecessor (a singleton cycle).
#[verifier::rlimit(100)]
#[verifier::spinoff_prover]
pub proof fn lemma_wf_neighbours(fs: Seq<FormulaField>, rec: FormulaField)
    requires
        fields_wf(fs),
        fs.contains(rec),
    ensures
        record_of(fs, rec.id) == rec,
        has_id(fs, rec.next_id),
        has_id(fs, rec.prev_id),
        forall|e: FormulaField|
            #[trigger] fs.contains(e) ==> (e.next_id == rec.id <==> e.id == rec.prev_id),
        forall|e: FormulaField|
            #[trigger] fs.contains(e) ==> (e.prev_id == rec.id <==> e.id == rec.next_id),
        (rec.next_id == rec.id <==> rec.prev_id == rec.id),
{
    lemma_record_of(fs, rec);
    lemma_linked(fs, rec);
    assert forall|e: FormulaField| #[trigger] fs.contains(e) implies (e.next_id == rec.id <==> e.id
        == rec.prev_id) by {
        lemma_record_of(fs, e);
        lemma_linked(fs, e);
        if e.next_id == rec.id {
            assert(record_of(fs, e.next_id).prev_id == e.id);
        }
        if e.id == rec.prev_id {
            assert(record_of(fs, rec.prev_id).next_id == rec.id);
        }
    }
    assert forall|e: FormulaField| #[trigger] fs.contains(e) implies (e.prev_id == rec.id <==> e.id
        == rec.next_id) by {
        lemma_record_of(fs, e);
        lemma_linked(fs, e);
        if e.prev_id == rec.id {
            assert(record_of(fs, e.prev_id).next_id == e.id);
        }
        if e.id == rec.next_id {
            assert(record_of(fs, rec.next_id).prev_id == rec.id);
        }
    }
    assert(fs.contains(rec));
}

/// The `next` links of distinct holes land on distinct holes (and likewise
/// for `prev`): the cycles are disjoint.
pub proof fn lemma_wf_links_injective(fs: Seq<FormulaField>)
    requires
        fields_wf(fs),
    ensures
        forall|e1: FormulaField, e2: FormulaField|
            #[trigger] fs.contains(e1) && #[trigger] fs.contains(e2) && e1.next_id == e2.next_id
                ==> e1.id == e2.id,
        forall|e1: FormulaField, e2: FormulaField|
            #[trigger] fs.contains(e1) && #[trigger] fs.contains(e2) && e1.prev_id == e2.prev_id
                ==> e1.id == e2.id,
{
    assert forall|e1: FormulaField, e2: FormulaField|
        #[trigger] fs.contains(e1) && #[trigger] fs.contains(e2) && e1.next_id
            == e2.next_id implies e1.id == e2.id by {
        lemma_linked(fs, e1);
        lemma_linked(fs, e2);
        assert(record_of(fs, e1.next_id).prev_id == e1.id);
        assert(record_of(fs, e2.next_id).prev_id == e2.id);
    }
    assert forall|e1: FormulaField, e2: FormulaField|
        #[trigger] fs.contains(e1) && #[trigger] fs.contains(e2) && e1.prev_id
            == e2.prev_id implies e1.id == e2.id by {
        lemma_linked(fs, e1);
        lemma_linked(fs, e2);
        assert(record_of(fs, e1.prev_id).next_id == e1.id);
        assert(record_of(fs, e2.prev_id).next_id == e2.id);
    }
}

/// The splice that removes hole `rec` outright, tying its two neighbours to
/// each other (used when the hole is filled with a variable or a constant).
pub open spec fn splice_out(rec: FormulaField) -> Splice {
    Splice { rec, pn: rec.next_id, np: rec.prev_id }
}

/// Removing one hole and tying its neighbours together keeps the registry a
/// set of disjoint cycles over the remaining holes.
#[verifier::rlimit(100)]
#[verifier::spinoff_prover]
pub proof fn lemma_splice_out_wf(fs: Seq<FormulaField>, rec: FormulaField)
    requires
        fields_wf(fs),
        fs.contains(rec),
    ensures
        fields_wf(fields_place(fs, Seq::empty(), splice_out(rec))),
        forall|x: u32|
            #[trigger] has_id(fields_place(fs, Seq::empty(), splice_out(rec)), x) <==> (has_id(
                fs,
                x,
            ) && x != rec.id),
        rec.next_id != rec.id ==> record_of(
            fields_place(fs, Seq::empty(), splice_out(rec)),
            rec.next_id,
        ).id == rec.next_id,
{
    let sp = splice_out(rec);
    let g = fields_place(fs, Seq::empty(), sp);
    lemma_fields_place_membership(fs, Seq::empty(), sp);
    lemma_wf_neighbours(fs, rec);
    lemma_wf_links_injective(fs);
    // which ids survive
    assert forall|x: u32| #[trigger] has_id(g, x) implies (has_id(fs, x) && x != rec.id) by {
        let y = choose|y: FormulaField| #[trigger] g.contains(y) && y.id == x;
        let e = choose|e: FormulaField|
            #[trigger] fs.contains(e) && e.id != sp.rec.id && y == adjust_field(e, sp);
        assert(e.id == x);
    }
    assert forall|x: u32| has_id(fs, x) && x != rec.id implies #[trigger] has_id(g, x) by {
        let e = choose|e: FormulaField| #[trigger] fs.contains(e) && e.id == x;
        assert(g.contains(adjust_field(e, sp)));
    }
    // consistency survives: records are still determined by their id
    assert forall|y1: FormulaField, y2: FormulaField|
        #[trigger] g.contains(y1) && #[trigger] g.contains(y2) && y1.id == y2.id implies y1
        == y2 by {
        let e1 = choose|e: FormulaField|
            #[trigger] fs.contains(e) && e.id != sp.rec.id && y1 == adjust_field(e, sp);
        let e2 = choose|e: FormulaField|
            #[trigger] fs.contains(e) && e.id != sp.rec.id && y2 == adjust_field(e, sp);
        assert(e1 == e2);
    }
    // the links of every surviving hole still pair up
    assert forall|y: FormulaField| g.contains(y) && #[trigger] linked_at(g, y) implies {
        &&& has_id(g, y.next_id)
        &&& has_id(g, y.prev_id)
        &&& record_of(g, y.next_id).prev_id == y.id
        &&& record_of(g, y.prev_id).next_id == y.id
    } by {
        let e = choose|e: FormulaField|
            #[trigger] fs.contains(e) && e.id != sp.rec.id && y == adjust_field(e, sp);
        lemma_linked(fs, e);
        // forward link
        let tn: u32 = if e.id == rec.prev_id {
            rec.next_id
        } else {
            e.next_id
        };
        assert(y.next_id == tn);
        assert(tn != rec.id) by {
            if e.id == rec.prev_id {
                assert(rec.prev_id != rec.id);
            }
        }
        assert(has_id(fs, tn));
        let rn = record_of(fs, tn);
        assert(fs.contains(rn) && rn.id == tn);
        lemma_linked(fs, rn);
        let yn = adjust_field(rn, sp);
        assert(g.contains(yn));
        lemma_record_of(g, yn);
        assert(record_of(g, tn) == yn);
        assert(yn.prev_id == y.id) by {
            if e.id == rec.prev_id {
                assert(rn.id == rec.next_id);
                assert(yn.prev_id == rec.prev_id);
            } else {
                if rn.id == rec.next_id {
                    assert(e.next_id == rec.next_id);
                    assert(rec.next_id == rec.next_id && fs.contains(rec) && fs.contains(e));
                    assert(e.id == rec.id);
                }
                assert(yn.prev_id == rn.prev_id);
                assert(record_of(fs, e.next_id).prev_id == e.id);
            }
        }
        // backward link
        let tp: u32 = if e.id == rec.next_id {
            rec.prev_id
        } else {
            e.prev_id
        };
        assert(y.prev_id == tp);
        assert(tp != rec.id) by {
            if e.id == rec.next_id {
                assert(rec.next_id != rec.id);
            }
        }
        assert(has_id(fs, tp));
        let rp = record_of(fs, tp);
        assert(fs.contains(rp) && rp.id == tp);
        lemma_linked(fs, rp);
        let yp = adjust_field(rp, sp);
        assert(g.contains(yp));
        lemma_record_of(g, yp);
        assert(record_of(g, tp) == yp);
        assert(yp.next_id == y.id) by {
            if e.id == rec.next_id {
                assert(rp.id == rec.prev_id);
                assert(yp.next_id == rec.next_id);
            } else {
                if rp.id == rec.prev_id {
                    assert(e.prev_id == rec.prev_id);
                    assert(e.id == rec.id);
                }
                assert(yp.next_id == rp.next_id);
                assert(record_of(fs, e.prev_id).next_id == e.id);
            }
        }
    }
    if rec.next_id != rec.id {
        assert(has_id(g, rec.next_id));
        let w = choose|w: FormulaField| #[trigger] g.contains(w) && w.id == rec.next_id;
        lemma_record_of(g, w);
    }
}

/// The splice of a unary-operator placement: the filled hole's record is
/// reused unchanged inside the new operator, so no link moves.
pub open spec fn splice_keep(rec: FormulaField) -> Splice {
    Splice { rec, pn: rec.id, np: rec.id }
}

/// Reusing the filled hole's record leaves the registry exactly as it was.
#[verifier::rlimit(100)]
#[verifier::spinoff_prover]
pub proof fn lemma_splice_keep_identity(fs: Seq<FormulaField>, rec: FormulaField, all: Seq<
    FormulaField>)
    requires
        fields_wf(all),
        all.contains(rec),
        forall|e: FormulaField| #[trigger] fs.contains(e) ==> all.contains(e),
    ensures
        fields_place(fs, seq![rec], splice_keep(rec)) == fs,
    decreases fs.len(),
{
    let sp = splice_keep(rec);
    lemma_wf_neighbours(all, rec);
    if fs.len() > 0 {
        let head = fs[0];
        let tail = fs.drop_first();
        assert(fs.contains(head)) by {
            assert(fs[0] == head);
        }
        assert forall|e: FormulaField| #[trigger] tail.contains(e) implies fs.contains(e) by {
            let i = choose|i: int| 0 <= i < tail.len() && tail[i] == e;
            assert(fs[i + 1] == e);
        }
        lemma_splice_keep_identity(tail, rec, all);
        if head.id == sp.rec.id {
            assert(head == rec);
            assert(seq![rec] + fields_place(tail, seq![rec], sp) =~= fs);
        } else {
            lemma_linked(all, head);
            lemma_record_of(all, head);
            assert(adjust_field(head, sp) == head) by {
                if head.id == rec.prev_id {
                    assert(record_of(all, rec.prev_id).next_id == rec.id);
                }
                if head.id == rec.next_id {
                    assert(record_of(all, rec.next_id).prev_id == rec.id);
                }
            }
            assert(seq![adjust_field(head, sp)] + fields_place(tail, seq![rec], sp) =~= fs);
        }
    }
}

/// The splice of a binary-operator placement: the filled hole is replaced by
/// two fresh holes `a` and `a + 1`, linked to each other and spliced into the
/// position the filled hole occupied.
pub open spec fn splice_two(rec: FormulaField, a: u32) -> Splice {
    Splice { rec, pn: a, np: (a + 1) as u32 }
}

/// First fresh hole of a binary-operator placement.
pub open spec fn two_first(rec: FormulaField, a: u32) -> FormulaField {
    FormulaField {
        id: a,
        next_id: (a + 1) as u32,
        prev_id: if rec.prev_id == rec.id {
            (a + 1) as u32
        } else {
            rec.prev_id
        },
    }
}

/// Second fresh hole of a binary-operator placement.
pub open spec fn two_second(rec: FormulaField, a: u32) -> FormulaField {
    FormulaField {
        id: (a + 1) as u32,
        next_id: if rec.next_id == rec.id {
            a
        } else {
            rec.next_id
        },
        prev_id: a,
    }
}

/// The two fresh holes of a binary-operator placement.
pub open spec fn two_repl(rec: FormulaField, a: u32) -> Seq<FormulaField> {
    seq![two_first(rec, a), two_second(rec, a)]
}

/// Replacing one hole by two fresh linked holes keeps the registry a set of
/// disjoint cycles; the fresh holes are locatable under their new ids.
#[verifier::rlimit(100)]
#[verifier::spinoff_prover]
pub proof fn lemma_splice_two_wf(fs: Seq<FormulaField>, rec: FormulaField, a: u32)
    requires
        fields_wf(fs),
        fs.contains(rec),
        a + 1 <= u32::MAX,
        forall|e: FormulaField| #[trigger] fs.contains(e) ==> e.id < a,
    ensures
        fields_wf(fields_place(fs, two_repl(rec, a), splice_two(rec, a))),
        forall|x: u32|
            #[trigger] has_id(
                fields_place(fs, two_repl(rec, a), splice_two(rec, a)),
                x,
            ) <==> ((has_id(fs, x) && x != rec.id) || x == a || x == a + 1),
        record_of(
            fields_place(fs, two_repl(rec, a), splice_two(rec, a)),
            a,
        ) == two_first(rec, a),
        record_of(
            fields_place(fs, two_repl(rec, a), splice_two(rec, a)),
            (a + 1) as u32,
        ) == two_second(rec, a),
{
    let sp = splice_two(rec, a);
    let n1 = two_first(rec, a);
    let n2 = two_second(rec, a);
    let repl = two_repl(rec, a);
    assert(repl =~= seq![n1, n2]);
    let g = fields_place(fs, repl, sp);
    lemma_fields_place_membership(fs, repl, sp);
    lemma_wf_neighbours(fs, rec);
    lemma_wf_links_injective(fs);
    assert(rec.id < a);
    assert(repl.contains(n1)) by {
        assert(repl[0] == n1);
    }
    assert(repl.contains(n2)) by {
        assert(repl[1] == n2);
    }
    assert(g.contains(n1));
    assert(g.contains(n2));
    // which ids exist afterwards
    assert forall|x: u32| #[trigger] has_id(g, x) implies ((has_id(fs, x) && x != rec.id) || x == a
        || x == a + 1) by {
        let y = choose|y: FormulaField| #[trigger] g.contains(y) && y.id == x;
        if !repl.contains(y) {
            let e = choose|e: FormulaField|
                #[trigger] fs.contains(e) && e.id != sp.rec.id && y == adjust_field(e, sp);
            assert(e.id == x);
        } else {
            assert(y == n1 || y == n2) by {
                if repl[0] == y {
                } else {
                    assert(repl[1] == y);
                }
            }
        }
    }
    assert forall|x: u32| ((has_id(fs, x) && x != rec.id) || x == a || x == a + 1) implies #[trigger] has_id(
        g,
        x,
    ) by {
        if has_id(fs, x) && x != rec.id {
            let e = choose|e: FormulaField| #[trigger] fs.contains(e) && e.id == x;
            assert(g.contains(adjust_field(e, sp)));
        } else if x == a {
            assert(g.contains(n1) && n1.id == a);
        } else {
            assert(g.contains(n2) && n2.id == x);
        }
    }
    // consistency: fresh ids are above every surviving id
    assert forall|y1: FormulaField, y2: FormulaField|
        #[trigger] g.contains(y1) && #[trigger] g.contains(y2) && y1.id == y2.id implies y1
        == y2 by {
        if repl.contains(y1) && repl.contains(y2) {
            assert(y1 == n1 || y1 == n2) by {
                if repl[0] == y1 {
                } else {
                    assert(repl[1] == y1);
                }
            }
            assert(y2 == n1 || y2 == n2) by {
                if repl[0] == y2 {
                } else {
                    assert(repl[1] == y2);
                }
            }
        } else if repl.contains(y1) {
            let e2 = choose|e: FormulaField|
                #[trigger] fs.contains(e) && e.id != sp.rec.id && y2 == adjust_field(e, sp);
            assert(y2.id < a);
            assert(y1 == n1 || y1 == n2) by {
                if repl[0] == y1 {
                } else {
                    assert(repl[1] == y1);
                }
            }
        } else if repl.contains(y2) {
            let e1 = choose|e: FormulaField|
                #[trigger] fs.contains(e) && e.id != sp.rec.id && y1 == adjust_field(e, sp);
            assert(y1.id < a);
            assert(y2 == n1 || y2 == n2) by {
                if repl[0] == y2 {
                } else {
                    assert(repl[1] == y2);
                }
            }
        } else {
            let e1 = choose|e: FormulaField|
                #[trigger] fs.contains(e) && e.id != sp.rec.id && y1 == adjust_field(e, sp);
            let e2 = choose|e: FormulaField|
                #[trigger] fs.contains(e) && e.id != sp.rec.id && y2 == adjust_field(e, sp);
            assert(e1 == e2);
        }
    }
    lemma_record_of(g, n1);
    lemma_record_of(g, n2);
    // links pair up
    assert forall|y: FormulaField| g.contains(y) && #[trigger] linked_at(g, y) implies {
        &&& has_id(g, y.next_id)
        &&& has_id(g, y.prev_id)
        &&& record_of(g, y.next_id).prev_id == y.id
        &&& record_of(g, y.prev_id).next_id == y.id
    } by {
        if y == n1 {
            // n1 -> n2, and n1's predecessor is rec's old predecessor (or n2)
            assert(record_of(g, n1.next_id) == n2);
            if rec.prev_id == rec.id {
                assert(record_of(g, n1.prev_id) == n2);
            } else {
                let rp = record_of(fs, rec.prev_id);
                assert(fs.contains(rp) && rp.id == rec.prev_id);
                lemma_linked(fs, rp);
                let yp = adjust_field(rp, sp);
                assert(g.contains(yp));
                lemma_record_of(g, yp);
                assert(rp.id != rec.id);
                assert(yp.next_id == a);
                assert(record_of(g, n1.prev_id) == yp);
            }
        } else if y == n2 {
            assert(record_of(g, n2.prev_id) == n1);
            if rec.next_id == rec.id {
                assert(record_of(g, n2.next_id) == n1);
            } else {
                let rn = record_of(fs, rec.next_id);
                assert(fs.contains(rn) && rn.id == rec.next_id);
                lemma_linked(fs, rn);
                let yn = adjust_field(rn, sp);
                assert(g.contains(yn));
                lemma_record_of(g, yn);
                assert(yn.prev_id == (a + 1) as u32);
                assert(record_of(g, n2.next_id) == yn);
            }
        } else {
            let e = choose|e: FormulaField|
                #[trigger] fs.contains(e) && e.id != sp.rec.id && y == adjust_field(e, sp);
            lemma_linked(fs, e);
            // forward link
            if e.id == rec.prev_id {
                assert(y.next_id == a);
                assert(record_of(g, a).prev_id == n1.prev_id);
                assert(rec.prev_id != rec.id);
                assert(n1.prev_id == e.id);
            } else {
                assert(y.next_id == e.next_id);
                assert(e.next_id != rec.id);
                let rn = record_of(fs, e.next_id);
                assert(fs.contains(rn) && rn.id == e.next_id);
                lemma_linked(fs, rn);
                let yn = adjust_field(rn, sp);
                assert(g.contains(yn));
                lemma_record_of(g, yn);
                assert(record_of(g, y.next_id) == yn);
                if rn.id == rec.next_id {
                    assert(e.next_id == rec.next_id);
                    assert(e.id == rec.id);
                }
                assert(yn.prev_id == rn.prev_id);
                assert(record_of(fs, e.next_id).prev_id == e.id);
            }
            // backward link
            if e.id == rec.next_id {
                assert(y.prev_id == (a + 1) as u32);
                assert(record_of(g, (a + 1) as u32).next_id == n2.next_id);
                assert(rec.next_id != rec.id);
                assert(n2.next_id == e.id);
            } else {
                assert(y.prev_id == e.prev_id);
                assert(e.prev_id != rec.id);
                let rp = record_of(fs, e.prev_id);
                assert(fs.contains(rp) && rp.id == e.prev_id);
                lemma_linked(fs, rp);
                let yp = adjust_field(rp, sp);
                assert(g.contains(yp));
                lemma_record_of(g, yp);
                assert(record_of(g, y.prev_id) == yp);
                if rp.id == rec.prev_id {
                    assert(e.prev_id == rec.prev_id);
                    assert(e.id == rec.id);
                }
                assert(yp.next_id == rp.next_id);
                assert(record_of(fs, e.prev_id).next_id == e.id);
            }
        }
    }
}

/// One placement, applied to a formula: placeholders with the filled id
/// become the placed formula, every other placeholder is rewired.
pub open spec fn place_formula(f: Formula, repl: Formula, sp: Splice) -> Formula
    decreases f,
{
    match f {
        Formula::Operator(op) => Formula::Operator(
            Operator {
                operator_type: op.operator_type,
                arg1: place_opt(op.arg1, repl, sp),
                arg2: place_opt(op.arg2, repl, sp),
            },
        ),
        Formula::Variable(v) => Formula::Variable(v),
        Formula::NotCompleted(ff) => if ff.id == sp.rec.id {
            repl
        } else {
            Formula::NotCompleted(adjust_field(ff, sp))
        },
    }
}

pub open spec fn place_opt(o: Option<Box<Formula>>, repl: Formula, sp: Splice) -> Option<
    Box<Formula>,
>
    decreases o,
{
    match o {
        Option::Some(b) => Option::Some(Box::new(place_formula(*b, repl, sp))),
        Option::None => Option::None,
    }
}

/// The fields of a placed formula are the placed fields of the formula.
pub proof fn lemma_place_formula_fields(f: Formula, repl: Formula, sp: Splice)
    ensures
        formula_fields(place_formula(f, repl, sp)) == fields_place(
            formula_fields(f),
            formula_fields(repl),
            sp,
        ),
    decreases f,
{
    reveal_with_fuel(fields_place, 3);
    match f {
        Formula::Operator(op) => {
            match op.arg1 {
                Option::Some(b) => {
                    lemma_place_formula_fields(*b, repl, sp);
                },
                Option::None => {},
            }
            match op.arg2 {
                Option::Some(b) => {
                    lemma_place_formula_fields(*b, repl, sp);
                },
                Option::None => {},
            }
            lemma_fields_place_concat(
                opt_fields(op.arg1),
                opt_fields(op.arg2),
                formula_fields(repl),
                sp,
            );
        },
        Formula::Variable(_) => {
            assert(formula_fields(place_formula(f, repl, sp)) =~= fields_place(
                formula_fields(f),
                formula_fields(repl),
                sp,
            ));
        },
        Formula::NotCompleted(ff) => {
            if ff.id == sp.rec.id {
                assert(formula_fields(f) =~= seq![ff]);
                assert(formula_fields(f).drop_first() =~= Seq::<FormulaField>::empty());
                assert(fields_place(formula_fields(f), formula_fields(repl), sp)
                    =~= formula_fields(repl));
            } else {
                assert(fields_place(formula_fields(f), formula_fields(repl), sp) =~= seq![
                    adjust_field(ff, sp),
                ]);
            }
        },
    }
}

/// One placement, applied to a formula list.
pub open spec fn place_formulas(fs: Seq<Formula>, repl: Formula, sp: Splice) -> Seq<Formula> {
    fs.map_values(|f: Formula| place_formula(f, repl, sp))
}

pub proof fn lemma_place_formulas_fields(fs: Seq<Formula>, repl: Formula, sp: Splice)
    ensures
        formulas_fields(place_formulas(fs, repl, sp)) == fields_place(
            formulas_fields(fs),
            formula_fields(repl),
            sp,
        ),
    decreases fs.len(),
{
    let lhs = formulas_fields(place_formulas(fs, repl, sp));
    if fs.len() == 0 {
        assert(place_formulas(fs, repl, sp).len() == 0);
        assert(lhs =~= fields_place(formulas_fields(fs), formula_fields(repl), sp));
    } else {
        lemma_place_formula_fields(fs[0], repl, sp);
        lemma_place_formulas_fields(fs.drop_first(), repl, sp);
        lemma_fields_place_concat(
            formula_fields(fs[0]),
            formulas_fields(fs.drop_first()),
            formula_fields(repl),
            sp,
        );
        assert(place_formulas(fs, repl, sp)[0] == place_formula(fs[0], repl, sp));
        assert(place_formulas(fs, repl, sp).drop_first() =~= place_formulas(
            fs.drop_first(),
            repl,
            sp,
        ));
        assert(lhs =~= fields_place(formulas_fields(fs), formula_fields(repl), sp));
    }
}

/// One placement, applied to both sides of a sequent.
pub open spec fn placed_sequent(a: Sequent, b: Sequent, repl: Formula, sp: Splice) -> bool {
    b.before@ == place_formulas(a.before@, repl, sp) && b.after@ == place_formulas(
        a.after@,
        repl,
        sp,
    )
}

/// One placement, applied to every sequent of a proof tree; everything else
/// about the tree is unchanged.
pub open spec fn place_rel(a: Proof, b: Proof, repl: Formula, sp: Splice) -> bool
    decreases a,
{
    &&& placed_sequent(a.root, b.root, repl, sp)
    &&& b.rule_id == a.rule_id
    &&& b.id == a.id
    &&& b.is_rule_invalid == a.is_rule_invalid
    &&& b.branches@.len() == a.branches@.len()
    &&& forall|i: int|
        0 <= i < a.branches@.len() ==> place_rel(
            #[trigger] a.branches@[i],
            b.branches@[i],
            repl,
            sp,
        )
}

pub proof fn lemma_placed_sequent_fields(a: Sequent, b: Sequent, repl: Formula, sp: Splice)
    requires
        placed_sequent(a, b, repl, sp),
    ensures
        sequent_fields(b) == fields_place(sequent_fields(a), formula_fields(repl), sp),
{
    lemma_place_formulas_fields(a.before@, repl, sp);
    lemma_place_formulas_fields(a.after@, repl, sp);
    lemma_fields_place_concat(
        formulas_fields(a.before@),
        formulas_fields(a.after@),
        formula_fields(repl),
        sp,
    );
}

/// The fields of a placed proof tree are the placed fields of the tree.
pub proof fn lemma_place_rel_fields(a: Proof, b: Proof, repl: Formula, sp: Splice)
    requires
        place_rel(a, b, repl, sp),
    ensures
        proof_fields(b) == fields_place(proof_fields(a), formula_fields(repl), sp),
    decreases a,
{
    lemma_placed_sequent_fields(a.root, b.root, repl, sp);
    lemma_place_rel_fields_branches(a.branches@, b.branches@, repl, sp);
    lemma_fields_place_concat(
        sequent_fields(a.root),
        proofs_fields(a.branches@),
        formula_fields(repl),
        sp,
    );
    assert(proof_fields(b) =~= fields_place(proof_fields(a), formula_fields(repl), sp));
}

proof fn lemma_place_rel_fields_branches(a: Seq<Proof>, b: Seq<Proof>, repl: Formula, sp: Splice)
    requires
        a.len() == b.len(),
        forall|i: int| 0 <= i < a.len() ==> place_rel(#[trigger] a[i], b[i], repl, sp),
    ensures
        proofs_fields(b) == fields_place(proofs_fields(a), formula_fields(repl), sp),
    decreases a,
{
    if a.len() == 0 {
        assert(proofs_fields(b) =~= fields_place(proofs_fields(a), formula_fields(repl), sp));
    } else {
        lemma_place_rel_fields(a[0], b[0], repl, sp);
        assert(forall|j: int| 0 <= j < a.len() - 1 ==> #[trigger] a.drop_first()[j] == a[j + 1]);
        assert(forall|j: int| 0 <= j < b.len() - 1 ==> #[trigger] b.drop_first()[j] == b[j + 1]);
        lemma_place_rel_fields_branches(a.drop_first(), b.drop_first(), repl, sp);
        lemma_fields_place_concat(
            proof_fields(a[0]),
            proofs_fields(a.drop_first()),
            formula_fields(repl),
            sp,
        );
        assert(proofs_fields(b) =~= fields_place(proofs_fields(a), formula_fields(repl), sp));
    }
}

/// Apply one placement to a formula.
pub fn place_in_formula(f: &Formula, repl: &Formula, sp: &Splice) -> (r: Formula)
    ensures
        r == place_formula(*f, *repl, *sp),
    decreases *f,
{
    match f {
        Formula::Operator(op) => {
            let arg1 = match &op.arg1 {
                Option::Some(b) => Option::Some(Box::new(place_in_formula(&**b, repl, sp))),
                Option::None => Option::None,
            };
            let arg2 = match &op.arg2 {
                Option::Some(b) => Option::Some(Box::new(place_in_formula(&**b, repl, sp))),
                Option::None => Option::None,
            };
            Formula::Operator(Operator { operator_type: op.operator_type, arg1, arg2 })
        },
        Formula::Variable(v) => Formula::Variable(*v),
        Formula::NotCompleted(ff) => {
            if ff.id == sp.rec.id {
                repl.clone()
            } else {
                Formula::NotCompleted(
                    FormulaField {
                        id: ff.id,
                        next_id: if ff.id == sp.rec.prev_id {
                            sp.pn
                        } else {
                            ff.next_id
                        },
                        prev_id: if ff.id == sp.rec.next_id {
                            sp.np
                        } else {
                            ff.prev_id
                        },
                    },
                )
            }
        },
    }
}

/// Apply one placement to a formula list.
pub fn place_in_formulas(v: &Vec<Formula>, repl: &Formula, sp: &Splice) -> (r: Vec<Formula>)
    ensures
        r@ == place_formulas(v@, *repl, *sp),
{
    let mut r: Vec<Formula> = Vec::new();
    let mut i: usize = 0;
    while i < v.len()
        invariant
            0 <= i <= v@.len(),
            r@ =~= place_formulas(v@.subrange(0, i as int), *repl, *sp),
        decreases v@.len() - i,
    {
        r.push(place_in_formula(&v[i], repl, sp));
        proof {
            assert(v@.subrange(0, i + 1 as int) =~= v@.subrange(0, i as int).push(v@[i as int]));
            assert(r@ =~= place_formulas(v@.subrange(0, i + 1 as int), *repl, *sp));
        }
        i += 1;
    }
    proof {
        assert(v@.subrange(0, v@.len() as int) =~= v@);
    }
    r
}

/// Apply one placement to every sequent of a proof tree.
pub fn place_in_proof(p: &Proof, repl: &Formula, sp: &Splice) -> (r: Proof)
    ensures
        place_rel(*p, r, *repl, *sp),
    decreases *p,
{
    let root = Sequent {
        before: place_in_formulas(&p.root.before, repl, sp),
        after: place_in_formulas(&p.root.after, repl, sp),
    };
    let mut branches: Vec<Proof> = Vec::new();
    let mut i: usize = 0;
    while i < p.branches.len()
        invariant
            0 <= i <= p.branches@.len(),
            branches@.len() == i,
            forall|j: int|
                0 <= j < i ==> place_rel(#[trigger] p.branches@[j], branches@[j], *repl, *sp),
        decreases p.branches@.len() - i,
    {
        branches.push(place_in_proof(&p.branches[i], repl, sp));
        i += 1;
    }
    Proof {
        root,
        branches,
        rule_id: p.rule_id,
        id: p.id,
        is_rule_invalid: p.is_rule_invalid,
    }
}

/// Restrict a field list to the requested id (`None` keeps everything).
pub open spec fn fields_filter(fs: Seq<FormulaField>, index: Option<u32>) -> Seq<FormulaField>
    decreases fs.len(),
{
    if fs.len() == 0 {
        Seq::empty()
    } else {
        (if index is None || fs[0].id == index->0 {
            seq![fs[0]]
        } else {
            Seq::empty()
        }) + fields_filter(fs.drop_first(), index)
    }
}

pub proof fn lemma_fields_filter_concat(a: Seq<FormulaField>, b: Seq<FormulaField>, index: Option<
    u32>)
    ensures
        fields_filter(a + b, index) == fields_filter(a, index) + fields_filter(b, index),
    decreases a.len(),
{
    reveal_with_fuel(fields_filter, 2);
    if a.len() == 0 {
        assert(a + b =~= b);
        assert(fields_filter(a + b, index) =~= fields_filter(a, index) + fields_filter(b, index));
    } else {
        assert((a + b)[0] == a[0]);
        assert((a + b).drop_first() =~= a.drop_first() + b);
        lemma_fields_filter_concat(a.drop_first(), b, index);
        assert(fields_filter(a + b, index) =~= fields_filter(a, index) + fields_filter(b, index));
    }
}

/// Everything the filter keeps comes from the list and matches the id, and
/// a present id is never filtered down to nothing.
pub proof fn lemma_fields_filter_spec(fs: Seq<FormulaField>, index: Option<u32>)
    ensures
        forall|k: int|
            0 <= k < fields_filter(fs, index).len() ==> fs.contains(
                #[trigger] fields_filter(fs, index)[k],
            ) && (index is Some ==> fields_filter(fs, index)[k].id == index->0),
        index is Some && has_id(fs, index->0) ==> fields_filter(fs, index).len() > 0,
        index is None ==> fields_filter(fs, index) == fs,
    decreases fs.len(),
{
    let g = fields_filter(fs, index);
    if fs.len() == 0 {
        assert(index is Some && has_id(fs, index->0) ==> g.len() > 0) by {
            if index is Some && has_id(fs, index->0) {
                let w = choose|w: FormulaField| #[trigger] fs.contains(w) && w.id == index->0;
            }
        }
        assert(index is None ==> g =~= fs);
    } else {
        let tail = fs.drop_first();
        lemma_fields_filter_spec(tail, index);
        assert(fs.contains(fs[0])) by {
            assert(fs[0] == fs[0]);
        }
        assert forall|e: FormulaField| #[trigger] tail.contains(e) implies fs.contains(e) by {
            let i = choose|i: int| 0 <= i < tail.len() && tail[i] == e;
            assert(fs[i + 1] == e);
        }
        let headpart: Seq<FormulaField> = if index is None || fs[0].id == index->0 {
            seq![fs[0]]
        } else {
            Seq::empty()
        };
        assert forall|k: int| 0 <= k < g.len() implies fs.contains(#[trigger] g[k]) && (index
            is Some ==> g[k].id == index->0) by {
            if k < headpart.len() {
                assert(g[k] == fs[0]);
            } else {
                assert(g[k] == fields_filter(tail, index)[k - headpart.len()]);
            }
        }
        if index is Some && has_id(fs, index->0) {
            let w = choose|w: FormulaField| #[trigger] fs.contains(w) && w.id == index->0;
            let i = choose|i: int| 0 <= i < fs.len() && fs[i] == w;
            if i == 0 {
                assert(headpart.len() > 0);
            } else {
                assert(tail[i - 1] == w);
                assert(tail.contains(w));
                assert(has_id(tail, index->0));
            }
        }
        if index is None {
            assert(g =~= fs);
        }
    }
}

/// Collect the placeholder fields of a formula, keeping those that match
/// `index` (all of them when `index` is `None`), in traversal order.
pub fn search_field_id_in_formula(f: &Formula, index: Option<u32>, res: &mut Vec<FormulaField>)
    ensures
        final(res)@ == old(res)@ + fields_filter(formula_fields(*f), index),
    decreases *f,
{
    match f {
        Formula::Operator(op) => {
            match &op.arg1 {
                Option::Some(b) => search_field_id_in_formula(&**b, index, res),
                Option::None => {},
            }
            match &op.arg2 {
                Option::Some(b) => search_field_id_in_formula(&**b, index, res),
                Option::None => {},
            }
            proof {
                lemma_fields_filter_concat(opt_fields(op.arg1), opt_fields(op.arg2), index);
                assert(final(res)@ =~= old(res)@ + fields_filter(formula_fields(*f), index));
            }
        },
        Formula::Variable(_) => {
            proof {
                assert(final(res)@ =~= old(res)@ + fields_filter(formula_fields(*f), index));
            }
        },
        Formula::NotCompleted(ff) => {
            let keep = match index {
                Option::Some(id) => ff.id == id,
                Option::None => true,
            };
            if keep {
                res.push(*ff);
            }
            proof {
                reveal_with_fuel(fields_filter, 2);
                assert(formula_fields(*f) =~= seq![*ff]);
                assert(final(res)@ =~= old(res)@ + fields_filter(formula_fields(*f), index));
            }
        },
    }
}

fn search_field_id_in_formulas(v: &Vec<Formula>, index: Option<u32>, res: &mut Vec<FormulaField>)
    ensures
        final(res)@ == old(res)@ + fields_filter(formulas_fields(v@), index),
{
    let mut i: usize = 0;
    while i < v.len()
        invariant
            0 <= i <= v@.len(),
            res@ =~= old(res)@ + fields_filter(formulas_fields(v@.subrange(0, i as int)), index),
        decreases v@.len() - i,
    {
        proof {
            assert(formulas_fields(v@.subrange(0, 0)).len() == 0);
        }
        let ghost pre = res@;
        search_field_id_in_formula(&v[i], index, res);
        proof {
            assert(v@.subrange(0, i + 1 as int) =~= v@.subrange(0, i as int).push(v@[i as int]));
            crate::sequent::lemma_formulas_fields_push(v@.subrange(0, i as int), v@[i as int]);
            lemma_fields_filter_concat(
                formulas_fields(v@.subrange(0, i as int)),
                formula_fields(v@[i as int]),
                index,
            );
            assert(res@ =~= old(res)@ + fields_filter(
                formulas_fields(v@.subrange(0, i + 1 as int)),
                index,
            ));
        }
        i += 1;
    }
    proof {
        assert(v@.subrange(0, v@.len() as int) =~= v@);
    }
}

fn search_field_id_in_sequent(s: &Sequent, index: Option<u32>, res: &mut Vec<FormulaField>)
    ensures
        final(res)@ == old(res)@ + fields_filter(sequent_fields(*s), index),
{
    search_field_id_in_formulas(&s.before, index, res);
    search_field_id_in_formulas(&s.after, index, res);
    proof {
        lemma_fields_filter_concat(
            formulas_fields(s.before@),
            formulas_fields(s.after@),
            index,
        );
        assert(final(res)@ =~= old(res)@ + fields_filter(sequent_fields(*s), index));
    }
}

fn search_fields_in_proof_rec(p: &Proof, index: Option<u32>, res: &mut Vec<FormulaField>)
    ensures
        final(res)@ == old(res)@ + fields_filter(proof_fields(*p), index),
    decreases *p,
{
    search_field_id_in_sequent(&p.root, index, res);
    let mut i: usize = 0;
    while i < p.branches.len()
        invariant
            0 <= i <= p.branches@.len(),
            res@ =~= old(res)@ + fields_filter(sequent_fields(p.root), index) + fields_filter(
                proofs_fields(p.branches@.subrange(0, i as int)),
                index,
            ),
        decreases p.branches@.len() - i,
    {
        proof {
            assert(proofs_fields(p.branches@.subrange(0, 0)).len() == 0);
            assert(res@ =~= old(res)@ + fields_filter(sequent_fields(p.root), index)
                + fields_filter(proofs_fields(p.branches@.subrange(0, i as int)), index));
        }
        search_fields_in_proof_rec(&p.branches[i], index, res);
        proof {
            assert(p.branches@.subrange(0, i + 1 as int) =~= p.branches@.subrange(
                0,
                i as int,
            ).push(p.branches@[i as int]));
            crate::prooftree::lemma_proofs_fields_push(
                p.branches@.subrange(0, i as int),
                p.branches@[i as int],
            );
            lemma_fields_filter_concat(
                proofs_fields(p.branches@.subrange(0, i as int)),
                proof_fields(p.branches@[i as int]),
                index,
            );
        }
        i += 1;
    }
    proof {
        assert(p.branches@.subrange(0, p.branches@.len() as int) =~= p.branches@);
        lemma_fields_filter_concat(
            sequent_fields(p.root),
            proofs_fields(p.branches@),
            index,
        );
        assert(final(res)@ =~= old(res)@ + fields_filter(proof_fields(*p), index));
    }
}

/// Collect the placeholder fields of the whole proof tree whose id matches
/// `index` (all fields when `index` is `None`), in traversal order.  A hole
/// duplicated into several branches shows up once per occurrence.
pub fn search_fields_by_id_in_proof(p: &Proof, index: Option<u32>) -> (res: Vec<FormulaField>)
    ensures
        res@ == fields_filter(proof_fields(*p), index),
{
    let mut res: Vec<FormulaField> = Vec::new();
    search_fields_in_proof_rec(p, index, &mut res);
    proof {
        assert(res@ =~= fields_filter(proof_fields(*p), index));
    }
    res
}

/// Read the field record of a placeholder formula.  Calling this on anything
/// but a placeholder is a caller bug, which the precondition rules out.
pub fn formula_as_field(f: &Formula) -> (r: FormulaField)
    requires
        *f matches Formula::NotCompleted(_),
    ensures
        *f == Formula::NotCompleted(r),
{
    match f {
        Formula::NotCompleted(ff) => *ff,
        _ => FormulaField { id: 0, next_id: 0, prev_id: 0 },
    }
}

/// An operator of arity 0, placed into a hole.
pub open spec fn nullary_repl(op: OperatorType) -> Formula {
    Formula::Operator(Operator { operator_type: op, arg1: Option::None, arg2: Option::None })
}

/// An operator of arity 1, placed into a hole: the single child hole reuses
/// the filled hole's record, so the cursor position is preserved.
pub open spec fn unary_repl(op: OperatorType, rec: FormulaField) -> Formula {
    Formula::Operator(
        Operator {
            operator_type: op,
            arg1: Option::Some(Box::new(Formula::NotCompleted(rec))),
            arg2: Option::None,
        },
    )
}

/// An operator of arity 2, placed into a hole: two fresh linked holes.
pub open spec fn binary_repl(op: OperatorType, rec: FormulaField, a: u32) -> Formula {
    Formula::Operator(
        Operator {
            operator_type: op,
            arg1: Option::Some(Box::new(Formula::NotCompleted(two_first(rec, a)))),
            arg2: Option::Some(Box::new(Formula::NotCompleted(two_second(rec, a)))),
        },
    )
}

/// Fetch the shared record of the hole `field_id`.
fn find_field_record(proof: &Proof, field_id: u32) -> (rec: FormulaField)
    requires
        fields_consistent(proof_fields(*proof)),
        has_id(proof_fields(*proof), field_id),
    ensures
        rec == record_of(proof_fields(*proof), field_id),
        proof_fields(*proof).contains(rec),
        rec.id == field_id,
{
    let fields = search_fields_by_id_in_proof(proof, Option::Some(field_id));
    proof {
        lemma_fields_filter_spec(proof_fields(*proof), Option::Some(field_id));
        assert(fields@.len() > 0);
        assert(proof_fields(*proof).contains(fields@[0]) && fields@[0].id == field_id);
        lemma_record_of(proof_fields(*proof), fields@[0]);
    }
    fields[0]
}

/// Fill the hole `field_id`, in every branch where it occurs at once, with
/// the variable `var`, and splice the hole's neighbours together.  Returns
/// the id of the hole to focus next, or `None` when no hole is left.
pub fn place_variable(var: u32, field_id: u32, proof: &mut Proof) -> (next: Option<u32>)
    requires
        fields_wf(proof_fields(*old(proof))),
        has_id(proof_fields(*old(proof)), field_id),
        var < MAX_VARIABLE_COUNT,
    ensures
        place_rel(
            *old(proof),
            *final(proof),
            Formula::Variable(var),
            splice_out(record_of(proof_fields(*old(proof)), field_id)),
        ),
        proof_fields(*final(proof)) == fields_place(
            proof_fields(*old(proof)),
            Seq::empty(),
            splice_out(record_of(proof_fields(*old(proof)), field_id)),
        ),
        fields_wf(proof_fields(*final(proof))),
        forall|x: u32|
            #[trigger] has_id(proof_fields(*final(proof)), x) <==> (has_id(
                proof_fields(*old(proof)),
                x,
            ) && x != field_id),
        next == (if record_of(proof_fields(*old(proof)), field_id).next_id == field_id {
            Option::<u32>::None
        } else {
            Option::Some(record_of(proof_fields(*old(proof)), field_id).next_id)
        }),
{
    let ghost fs = proof_fields(*proof);
    let rec = find_field_record(proof, field_id);
    let repl = Formula::Variable(var);
    let sp = Splice { rec, pn: rec.next_id, np: rec.prev_id };
    proof {
        assert(sp == splice_out(rec));
    }
    let newp = place_in_proof(proof, &repl, &sp);
    proof {
        lemma_place_rel_fields(*proof, newp, repl, sp);
        assert(formula_fields(repl) =~= Seq::<FormulaField>::empty());
        lemma_splice_out_wf(fs, rec);
    }
    *proof = newp;
    if rec.next_id == field_id {
        Option::None
    } else {
        Option::Some(rec.next_id)
    }
}

/// Fill the hole `field_id` with an operator whose arguments are fresh
/// holes.  A unary operator's child hole inherits the filled hole's id and
/// links; a binary operator draws two new ids from `next_index` and links
/// them into the position the filled hole occupied.  Returns the id of the
/// hole to focus next, or `None` when no hole is left.
pub fn place_uncompleted_operator(
    op: OperatorType,
    field_id: u32,
    proof: &mut Proof,
    next_index: &mut u32,
) -> (next: Option<u32>)
    requires
        fields_wf(proof_fields(*old(proof))),
        has_id(proof_fields(*old(proof)), field_id),
        forall|e: FormulaField|
            #[trigger] proof_fields(*old(proof)).contains(e) ==> e.id < *old(next_index),
        *old(next_index) + 2 <= u32::MAX,
    ensures
        fields_wf(proof_fields(*final(proof))),
        spec_operator_arity(op) == 0 ==> {
            &&& place_rel(
                *old(proof),
                *final(proof),
                nullary_repl(op),
                splice_out(record_of(proof_fields(*old(proof)), field_id)),
            )
            &&& proof_fields(*final(proof)) == fields_place(
                proof_fields(*old(proof)),
                Seq::empty(),
                splice_out(record_of(proof_fields(*old(proof)), field_id)),
            )
            &&& (forall|x: u32|
                #[trigger] has_id(proof_fields(*final(proof)), x) <==> (has_id(
                    proof_fields(*old(proof)),
                    x,
                ) && x != field_id))
            &&& next == (if record_of(proof_fields(*old(proof)), field_id).next_id == field_id {
                Option::<u32>::None
            } else {
                Option::Some(record_of(proof_fields(*old(proof)), field_id).next_id)
            })
            &&& *final(next_index) == *old(next_index)
        },
        spec_operator_arity(op) == 1 ==> {
            &&& place_rel(
                *old(proof),
                *final(proof),
                unary_repl(op, record_of(proof_fields(*old(proof)), field_id)),
                splice_keep(record_of(proof_fields(*old(proof)), field_id)),
            )
            &&& proof_fields(*final(proof)) == proof_fields(*old(proof))
            &&& next == Option::Some(field_id)
            &&& *final(next_index) == *old(next_index)
        },
        spec_operator_arity(op) == 2 ==> {
            &&& place_rel(
                *old(proof),
                *final(proof),
                binary_repl(op, record_of(proof_fields(*old(proof)), field_id), *old(next_index)),
                splice_two(record_of(proof_fields(*old(proof)), field_id), *old(next_index)),
            )
            &&& proof_fields(*final(proof)) == fields_place(
                proof_fields(*old(proof)),
                two_repl(record_of(proof_fields(*old(proof)), field_id), *old(next_index)),
                splice_two(record_of(proof_fields(*old(proof)), field_id), *old(next_index)),
            )
            &&& (forall|x: u32|
                #[trigger] has_id(proof_fields(*final(proof)), x) <==> ((has_id(
                    proof_fields(*old(proof)),
                    x,
                ) && x != field_id) || x == *old(next_index) || x == *old(next_index) + 1))
            &&& next == Option::Some(*old(next_index))
            &&& *final(next_index) == *old(next_index) + 2
        },
{
    let ghost fs = proof_fields(*proof);
    let arity = get_operator_arity(op);
    let rec = find_field_record(proof, field_id);
    if arity == 0 {
        let repl = Formula::Operator(
            Operator { operator_type: op, arg1: Option::None, arg2: Option::None },
        );
        let sp = Splice { rec, pn: rec.next_id, np: rec.prev_id };
        let newp = place_in_proof(proof, &repl, &sp);
        proof {
            assert(sp == splice_out(rec));
            assert(repl == nullary_repl(op));
            lemma_place_rel_fields(*proof, newp, repl, sp);
            reveal_with_fuel(formula_fields, 3);
            reveal_with_fuel(opt_fields, 3);
            assert(formula_fields(repl) =~= Seq::<FormulaField>::empty());
            lemma_splice_out_wf(fs, rec);
        }
        *proof = newp;
        if rec.next_id == field_id {
            Option::None
        } else {
            Option::Some(rec.next_id)
        }
    } else if arity == 1 {
        let repl = Formula::Operator(
            Operator {
                operator_type: op,
                arg1: Option::Some(Box::new(Formula::NotCompleted(rec))),
                arg2: Option::None,
            },
        );
        let sp = Splice { rec, pn: rec.id, np: rec.id };
        let newp = place_in_proof(proof, &repl, &sp);
        proof {
            assert(sp == splice_keep(rec));
            assert(repl == unary_repl(op, rec));
            lemma_place_rel_fields(*proof, newp, repl, sp);
            reveal_with_fuel(formula_fields, 3);
            reveal_with_fuel(opt_fields, 3);
            assert(formula_fields(repl) =~= seq![rec]);
            lemma_splice_keep_identity(fs, rec, fs);
        }
        *proof = newp;
        Option::Some(field_id)
    } else {
        let a = *next_index;
        let n1 = FormulaField {
            id: a,
            next_id: a + 1,
            prev_id: if rec.prev_id == rec.id {
                a + 1
            } else {
                rec.prev_id
            },
        };
        let n2 = FormulaField {
            id: a + 1,
            next_id: if rec.next_id == rec.id {
                a
            } else {
                rec.next_id
            },
            prev_id: a,
        };
        let repl = Formula::Operator(
            Operator {
                operator_type: op,
                arg1: Option::Some(Box::new(Formula::NotCompleted(n1))),
                arg2: Option::Some(Box::new(Formula::NotCompleted(n2))),
            },
        );
        let sp = Splice { rec, pn: a, np: a + 1 };
        let newp = place_in_proof(proof, &repl, &sp);
        proof {
            assert(n1 == two_first(rec, a));
            assert(n2 == two_second(rec, a));
            assert(sp == splice_two(rec, a));
            assert(repl == binary_repl(op, rec, a));
            lemma_place_rel_fields(*proof, newp, repl, sp);
            reveal_with_fuel(formula_fields, 3);
            reveal_with_fuel(opt_fields, 3);
            assert(formula_fields(repl) =~= two_repl(rec, a));
            lemma_splice_two_wf(fs, rec, a);
        }
        *proof = newp;
        *next_index += 2;
        Option::Some(a)
    }
}

/// The tab-order graph of a well-formed registry decomposes into disjoint
/// cycles covering exactly the existing holes: every hole's links land on
/// existing holes, `next` and `prev` are mutually inverse, and distinct
/// holes never share a link target.
pub proof fn lemma_registry_disjoint_cycles(fs: Seq<FormulaField>)
    requires
        fields_wf(fs),
    ensures
        forall|x: FormulaField|
            #[trigger] fs.contains(x) ==> has_id(fs, x.next_id) && has_id(fs, x.prev_id),
        forall|x: FormulaField|
            #[trigger] fs.contains(x) ==> record_of(fs, x.next_id).prev_id == x.id && record_of(
                fs,
                x.prev_id,
            ).next_id == x.id,
        forall|e1: FormulaField, e2: FormulaField|
            #[trigger] fs.contains(e1) && #[trigger] fs.contains(e2) && e1.next_id == e2.next_id
                ==> e1.id == e2.id,
        forall|e1: FormulaField, e2: FormulaField|
            #[trigger] fs.contains(e1) && #[trigger] fs.contains(e2) && e1.prev_id == e2.prev_id
                ==> e1.id == e2.id,
{
    assert forall|x: FormulaField| #[trigger] fs.contains(x) implies has_id(fs, x.next_id)
        && has_id(fs, x.prev_id) && record_of(fs, x.next_id).prev_id == x.id && record_of(
        fs,
        x.prev_id,
    ).next_id == x.id by {
        lemma_linked(fs, x);
    }
    lemma_wf_links_injective(fs);
}

/// A consumed hole id locates nothing: once no hole carries the id, a
/// search for it returns the empty list.
pub proof fn lemma_search_consumed(fs: Seq<FormulaField>, id: u32)
    requires
        !has_id(fs, id),
    ensures
        fields_filter(fs, Option::Some(id)).len() == 0,
{
    lemma_fields_filter_spec(fs, Option::Some(id));
    if fields_filter(fs, Option::Some(id)).len() > 0 {
        assert(fs.contains(fields_filter(fs, Option::Some(id))[0]));
    }
}

/// Placement preserves formula well-formedness when the placed formula is
/// well formed.
pub proof fn lemma_place_formula_wf(f: Formula, repl: Formula, sp: Splice)
    requires
        crate::formula::formula_wf(f),
        crate::formula::formula_wf(repl),
    ensures
        crate::formula::formula_wf(place_formula(f, repl, sp)),
    decreases f,
{
    match f {
        Formula::Operator(op) => {
            match op.arg1 {
                Option::Some(b) => {
                    lemma_place_formula_wf(*b, repl, sp);
                },
                Option::None => {},
            }
            match op.arg2 {
                Option::Some(b) => {
                    lemma_place_formula_wf(*b, repl, sp);
                },
                Option::None => {},
            }
        },
        _ => {},
    }
}

/// Placement keeps every sequent of the tree well formed.
pub proof fn lemma_place_rel_wf(a: Proof, b: Proof, repl: Formula, sp: Splice)
    requires
        place_rel(a, b, repl, sp),
        crate::prooftree::proof_sequents_wf(a),
        crate::formula::formula_wf(repl),
    ensures
        crate::prooftree::proof_sequents_wf(b),
    decreases a,
{
    assert forall|i: int|
        0 <= i < b.root.before@.len() implies crate::formula::formula_wf(
        #[trigger] b.root.before@[i],
    ) by {
        assert(b.root.before@[i] == place_formula(a.root.before@[i], repl, sp));
        lemma_place_formula_wf(a.root.before@[i], repl, sp);
    }
    assert forall|i: int|
        0 <= i < b.root.after@.len() implies crate::formula::formula_wf(
        #[trigger] b.root.after@[i],
    ) by {
        assert(b.root.after@[i] == place_formula(a.root.after@[i], repl, sp));
        lemma_place_formula_wf(a.root.after@[i], repl, sp);
    }
    assert forall|i: int| 0 <= i < b.branches@.len() implies crate::prooftree::proof_sequents_wf(
        #[trigger] b.branches@[i],
    ) by {
        lemma_place_rel_wf(a.branches@[i], b.branches@[i], repl, sp);
    }
}

} // verus!
