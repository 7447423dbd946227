//! Sequents: an ordered list of antecedent formulas and an ordered list of
//! consequent formulas.  Both sides are lists so the model stays open to
//! logics with several formulas per side.

use vstd::prelude::*;

use crate::formula::Formula;
use crate::formula::FormulaField;
use crate::formula::formula_eq;
use crate::formula::formula_fields;
use crate::formula::formula_wf;

verus! {

/// A sequent: `before ⊢ after`.
pub struct Sequent {
    pub before: Vec<Formula>,
    pub after: Vec<Formula>,
}

/// The placeholder fields of a formula list, collected left to right.
pub open spec fn formulas_fields(fs: Seq<Formula>) -> Seq<FormulaField>
    decreases fs.len(),
{
    if fs.len() == 0 {
        Seq::empty()
    } else {
        formula_fields(fs[0]) + formulas_fields(fs.drop_first())
    }
}

/// The placeholder fields of a sequent: antecedents first, then consequents.
pub open spec fn sequent_fields(s: Sequent) -> Seq<FormulaField> {
    formulas_fields(s.before@) + formulas_fields(s.after@)
}

/// Structural equality of sequents: both sides match formula for formula.
pub open spec fn sequent_equal(a: Sequent, b: Sequent) -> bool {
    a.before@ == b.before@ && a.after@ == b.after@
}

pub open spec fn formulas_wf(fs: Seq<Formula>) -> bool {
    forall|i: int| 0 <= i < fs.len() ==> formula_wf(#[trigger] fs[i])
}

pub open spec fn sequent_wf(s: Sequent) -> bool {
    formulas_wf(s.before@) && formulas_wf(s.after@)
}

/// Deep copy of a formula list.
pub fn clone_formulas(v: &Vec<Formula>) -> (res: Vec<Formula>)
    ensures
        res@ == v@,
{
    let mut res: Vec<Formula> = Vec::new();
    let mut i: usize = 0;
    while i < v.len()
        invariant
            0 <= i <= v.len(),
            res@ =~= v@.subrange(0, i as int),
        decreases v.len() - i,
    {
        res.push(v[i].clone());
        i += 1;
    }
    proof {
        assert(res@ =~= v@);
    }
    res
}

impl Clone for Sequent {
    /// Deep structural copy.
    fn clone(&self) -> (res: Self)
        ensures
            sequent_equal(res, *self),
    {
        Sequent { before: clone_formulas(&self.before), after: clone_formulas(&self.after) }
    }
}

/// Structural equality test on formula lists.
pub fn formulas_eq(a: &Vec<Formula>, b: &Vec<Formula>) -> (r: bool)
    ensures
        r == (a@ == b@),
{
    if a.len() != b.len() {
        return false;
    }
    let mut i: usize = 0;
    while i < a.len()
        invariant
            0 <= i <= a.len(),
            a.len() == b.len(),
            forall|j: int| 0 <= j < i ==> a@[j] == b@[j],
        decreases a.len() - i,
    {
        if !formula_eq(&a[i], &b[i]) {
            return false;
        }
        i += 1;
    }
    proof {
        assert(a@ =~= b@);
    }
    true
}

/// Structural equality test on sequents.
pub fn sequent_eq(a: &Sequent, b: &Sequent) -> (r: bool)
    ensures
        r == sequent_equal(*a, *b),
{
    formulas_eq(&a.before, &b.before) && formulas_eq(&a.after, &b.after)
}

/// Fields of a pushed list: the new formula's fields go to the end.
pub proof fn lemma_formulas_fields_push(fs: Seq<Formula>, f: Formula)
    ensures
        formulas_fields(fs.push(f)) == formulas_fields(fs) + formula_fields(f),
    decreases fs.len(),
{
    reveal_with_fuel(formulas_fields, 3);
    assert(fs.push(f)[0] == if fs.len() == 0 { f } else { fs[0] });
    if fs.len() == 0 {
        assert(fs.push(f).drop_first() =~= Seq::<Formula>::empty());
        assert(formulas_fields(fs.push(f)) =~= formulas_fields(fs) + formula_fields(f));
    } else {
        assert(fs.push(f).drop_first() =~= fs.drop_first().push(f));
        lemma_formulas_fields_push(fs.drop_first(), f);
        assert(formulas_fields(fs.push(f)) =~= formulas_fields(fs) + formula_fields(f));
    }
}

/// A formula list made of complete well-formed formulas has no fields.
pub proof fn lemma_formulas_fields_empty(fs: Seq<Formula>)
    requires
        forall|i: int| 0 <= i < fs.len() ==> formula_fields(#[trigger] fs[i]).len() == 0,
    ensures
        formulas_fields(fs).len() == 0,
    decreases fs.len(),
{
    if fs.len() > 0 {
        assert(forall|j: int|
            0 <= j < fs.len() - 1 ==> #[trigger] fs.drop_first()[j] == fs[j + 1]);
        lemma_formulas_fields_empty(fs.drop_first());
    }
}

/// A sequent is complete when no formula in it holds a placeholder.
pub open spec fn sequent_complete(s: Sequent) -> bool {
    sequent_fields(s).len() == 0
}

/// Fields of a concatenated list.
pub proof fn lemma_formulas_fields_concat(a: Seq<Formula>, b: Seq<Formula>)
    ensures
        formulas_fields(a + b) == formulas_fields(a) + formulas_fields(b),
    decreases a.len(),
{
    reveal_with_fuel(formulas_fields, 2);
    if a.len() == 0 {
        assert(a + b =~= b);
        assert(formulas_fields(a + b) =~= formulas_fields(a) + formulas_fields(b));
    } else {
        assert((a + b)[0] == a[0]);
        assert((a + b).drop_first() =~= a.drop_first() + b);
        lemma_formulas_fields_concat(a.drop_first(), b);
        assert(formulas_fields(a + b) =~= formulas_fields(a) + formulas_fields(b));
    }
}

/// In a field-free formula list every single formula is field-free.
pub proof fn lemma_formulas_fields_parts(fs: Seq<Formula>)
    requires
        formulas_fields(fs).len() == 0,
    ensures
        forall|i: int| 0 <= i < fs.len() ==> formula_fields(#[trigger] fs[i]).len() == 0,
    decreases fs.len(),
{
    if fs.len() > 0 {
        lemma_formulas_fields_parts(fs.drop_first());
        assert forall|i: int| 0 <= i < fs.len() implies formula_fields(
            #[trigger] fs[i],
        ).len() == 0 by {
            if i > 0 {
                assert(fs.drop_first()[i - 1] == fs[i]);
            }
        }
    }
}

/// Updating one slot of a field-free list leaves exactly the new formula's
/// fields.
pub proof fn lemma_formulas_fields_update_complete(fs: Seq<Formula>, i: int, f: Formula)
    requires
        formulas_fields(fs).len() == 0,
        0 <= i < fs.len(),
    ensures
        formulas_fields(fs.update(i, f)) == formula_fields(f),
{
    lemma_formulas_fields_parts(fs);
    assert(fs.update(i, f) =~= fs.subrange(0, i) + (seq![f] + fs.subrange(i + 1, fs.len() as int)));
    lemma_formulas_fields_concat(fs.subrange(0, i), seq![f] + fs.subrange(i + 1, fs.len() as int));
    lemma_formulas_fields_concat(seq![f], fs.subrange(i + 1, fs.len() as int));
    assert forall|j: int| 0 <= j < fs.subrange(0, i).len() implies formula_fields(
        #[trigger] fs.subrange(0, i)[j],
    ).len() == 0 by {
        assert(fs.subrange(0, i)[j] == fs[j]);
    }
    lemma_formulas_fields_empty(fs.subrange(0, i));
    assert forall|j: int| 0 <= j < fs.subrange(i + 1, fs.len() as int).len() implies formula_fields(
        #[trigger] fs.subrange(i + 1, fs.len() as int)[j],
    ).len() == 0 by {
        assert(fs.subrange(i + 1, fs.len() as int)[j] == fs[j + i + 1]);
    }
    lemma_formulas_fields_empty(fs.subrange(i + 1, fs.len() as int));
    reveal_with_fuel(formulas_fields, 2);
    assert(formulas_fields(seq![f]) =~= formula_fields(f));
    assert(formulas_fields(fs.update(i, f)) =~= formula_fields(f));
}

/// Dropping the head of a field-free list leaves it field-free, and pushing
/// onto a field-free list leaves exactly the new formula's fields.
pub proof fn lemma_formulas_fields_complete_ops(fs: Seq<Formula>, f: Formula)
    requires
        formulas_fields(fs).len() == 0,
    ensures
        fs.len() > 0 ==> formulas_fields(fs.drop_first()).len() == 0,
        formulas_fields(fs.push(f)) == formula_fields(f),
        fs.len() > 0 ==> formulas_fields(fs.drop_first().push(f)) == formula_fields(f),
{
    lemma_formulas_fields_parts(fs);
    lemma_formulas_fields_push(fs, f);
    assert(formulas_fields(fs.push(f)) =~= formula_fields(f));
    if fs.len() > 0 {
        assert forall|j: int| 0 <= j < fs.drop_first().len() implies formula_fields(
            #[trigger] fs.drop_first()[j],
        ).len() == 0 by {
            assert(fs.drop_first()[j] == fs[j + 1]);
        }
        lemma_formulas_fields_empty(fs.drop_first());
        lemma_formulas_fields_push(fs.drop_first(), f);
        assert(formulas_fields(fs.drop_first().push(f)) =~= formula_fields(f));
    }
}

/// A field-free well-formed list stays well formed under the rewrites the
/// rules perform.
pub proof fn lemma_formulas_wf_ops(fs: Seq<Formula>, f: Formula)
    requires
        formulas_wf(fs),
        formula_wf(f),
    ensures
        formulas_wf(fs.push(f)),
        fs.len() > 0 ==> formulas_wf(fs.drop_first()),
        fs.len() > 0 ==> formulas_wf(fs.drop_first().push(f)),
        seq![f].len() == 1 && formulas_wf(seq![f]),
        formulas_wf(seq![f] + fs),
        forall|i: int| 0 <= i < fs.len() ==> formulas_wf(#[trigger] fs.update(i, f)),
{
    assert forall|j: int| 0 <= j < fs.push(f).len() implies formula_wf(
        #[trigger] fs.push(f)[j],
    ) by {
        if j < fs.len() {
            assert(fs.push(f)[j] == fs[j]);
        }
    }
    if fs.len() > 0 {
        assert forall|j: int| 0 <= j < fs.drop_first().len() implies formula_wf(
            #[trigger] fs.drop_first()[j],
        ) by {
            assert(fs.drop_first()[j] == fs[j + 1]);
        }
        assert forall|j: int| 0 <= j < fs.drop_first().push(f).len() implies formula_wf(
            #[trigger] fs.drop_first().push(f)[j],
        ) by {
            if j < fs.len() - 1 {
                assert(fs.drop_first().push(f)[j] == fs[j + 1]);
            }
        }
    }
    assert forall|j: int| 0 <= j < (seq![f] + fs).len() implies formula_wf(
        #[trigger] (seq![f] + fs)[j],
    ) by {
        if j > 0 {
            assert((seq![f] + fs)[j] == fs[j - 1]);
        }
    }
    assert forall|i: int| 0 <= i < fs.len() implies formulas_wf(#[trigger] fs.update(i, f)) by {
        assert forall|j: int| 0 <= j < fs.update(i, f).len() implies formula_wf(
            #[trigger] fs.update(i, f)[j],
        ) by {
            if j != i {
                assert(fs.update(i, f)[j] == fs[j]);
            }
        }
    }
}

/// Runtime check of `sequent_wf`.
pub fn sequent_is_wf(s: &Sequent) -> (r: bool)
    ensures
        r == sequent_wf(*s),
{
    let mut i: usize = 0;
    while i < s.before.len()
        invariant
            0 <= i <= s.before@.len(),
            forall|j: int| 0 <= j < i ==> formula_wf(#[trigger] s.before@[j]),
        decreases s.before@.len() - i,
    {
        if !crate::formula::formula_is_wf(&s.before[i]) {
            return false;
        }
        i += 1;
    }
    let mut k: usize = 0;
    while k < s.after.len()
        invariant
            0 <= k <= s.after@.len(),
            formulas_wf(s.before@),
            forall|j: int| 0 <= j < k ==> formula_wf(#[trigger] s.after@[j]),
        decreases s.after@.len() - k,
    {
        if !crate::formula::formula_is_wf(&s.after[k]) {
            return false;
        }
        k += 1;
    }
    true
}

} // verus!
