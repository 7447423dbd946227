//! The level-file parser: a compact ASCII notation for sequents
//! (`!` not, `&` and, `|` or, `>` implies, `_` bottom, `°` top, one letter
//! per variable) and the semicolon-separated level lines built from it.
//! A syntax error is a normal `None` result, never a crash.

use vstd::prelude::*;

use crate::formula::Formula;
use crate::formula::Operator;
use crate::formula::OperatorType;
use crate::formula::formula_fields;
use crate::formula::formula_wf;
use crate::sequent::Sequent;
use crate::sequent::sequent_complete;
use crate::sequent::sequent_wf;

verus! {

/// Difficulty rating of a level.
#[derive(Clone, Copy, Debug, PartialEq, Eq, Structural)]
pub enum Difficulty {
    Immediate,
    Easy,
    Medium,
    Hard,
}

impl Difficulty {
    /// The display name of the rating.
    pub fn name(&self) -> (r: &'static str)
        ensures
            r@ == (match *self {
                Difficulty::Immediate => "Immediate"@,
                Difficulty::Easy => "Easy"@,
                Difficulty::Medium => "Medium"@,
                Difficulty::Hard => "Hard"@,
            }),
    {
        match self {
            Difficulty::Immediate => "Immediate",
            Difficulty::Easy => "Easy",
            Difficulty::Medium => "Medium",
            Difficulty::Hard => "Hard",
        }
    }
}

/// One puzzle: a starting sequent with its metadata.
pub struct Level {
    pub id: usize,
    pub name: String,
    pub seq: Sequent,
    pub difficulty: Difficulty,
    pub raa: bool,
}

impl Level {
    /// A level with no content, used as the default while parsing.
    pub fn empty() -> (r: Level)
        ensures
            r.id == 0,
            r.name@.len() == 0,
            r.seq.before@.len() == 0,
            r.seq.after@.len() == 0,
            r.difficulty == Difficulty::Immediate,
            !r.raa,
    {
        Level {
            id: 0,
            name: String::new(),
            seq: Sequent { before: Vec::new(), after: Vec::new() },
            difficulty: Difficulty::Immediate,
            raa: false,
        }
    }
}

/// Relies on `String::from_iter` for `char` items: the string holds exactly
/// the characters of the vector, in order.
#[verifier::external_body]
fn chars_to_string(v: Vec<char>) -> (r: String)
    ensures
        r@ == v@,
{
    String::from_iter(v)
}

/// A parsed formula is fully built: well formed, hole-free, and the cursor
/// moved forward without leaving the input.
pub open spec fn parse_ok(r: Option<Formula>) -> bool {
    r matches Option::Some(f) ==> formula_wf(f) && formula_fields(f).len() == 0
}

/// Every variable index in the formula is below `n` (the size of the
/// variable table it was parsed against).
pub open spec fn formula_vars_lt(f: Formula, n: int) -> bool
    decreases f,
{
    match f {
        Formula::Operator(op) => {
            &&& (op.arg1 matches Option::Some(a) ==> formula_vars_lt(*a, n))
            &&& (op.arg2 matches Option::Some(b) ==> formula_vars_lt(*b, n))
        },
        Formula::Variable(v) => v < n,
        Formula::NotCompleted(_) => true,
    }
}

/// Larger variable tables keep every index valid.
pub proof fn lemma_formula_vars_lt_mono(f: Formula, n: int, m: int)
    requires
        formula_vars_lt(f, n),
        n <= m,
    ensures
        formula_vars_lt(f, m),
    decreases f,
{
    match f {
        Formula::Operator(op) => {
            match op.arg1 {
                Option::Some(a) => {
                    lemma_formula_vars_lt_mono(*a, n, m);
                },
                Option::None => {},
            }
            match op.arg2 {
                Option::Some(b) => {
                    lemma_formula_vars_lt_mono(*b, n, m);
                },
                Option::None => {},
            }
        },
        _ => {},
    }
}

/// Position of the first occurrence of `c` in the variable table, at or
/// past the cursor.
pub open spec fn char_find(vars: Seq<char>, c: char, i: int) -> Option<int>
    decreases vars.len() - i,
{
    if !(0 <= i < vars.len()) {
        Option::None
    } else if vars[i] == c {
        Option::Some(i)
    } else {
        char_find(vars, c, i + 1)
    }
}

/// The denotation of the formula grammar, defined over the raw characters:
/// what `var_p` parses from `buff` at `pos` with variable table `vars`,
/// together with the cursor and table it leaves behind.
pub open spec fn spec_var_p(buff: Seq<char>, pos: int, vars: Seq<char>) -> (
    Option<Formula>,
    int,
    Seq<char>,
)
    decreases buff.len() - pos, 0int,
{
    if !(0 <= pos < buff.len()) {
        (Option::None, pos, vars)
    } else {
        let c = buff[pos];
        let p1 = pos + 1;
        if c == '(' {
            let t = spec_var_r(buff, p1, vars);
            match t.0 {
                Option::Some(f) => if t.1 < buff.len() {
                    if buff[t.1] == ')' {
                        (Option::Some(f), t.1 + 1, t.2)
                    } else {
                        (Option::None, t.1 + 1, t.2)
                    }
                } else {
                    (Option::None, t.1, t.2)
                },
                Option::None => (Option::None, t.1, t.2),
            }
        } else if c == '!' {
            let t = spec_var_p(buff, p1, vars);
            match t.0 {
                Option::Some(f) => (
                    Option::Some(
                        Formula::Operator(
                            Operator {
                                operator_type: OperatorType::Not,
                                arg1: Option::Some(Box::new(f)),
                                arg2: Option::None,
                            },
                        ),
                    ),
                    t.1,
                    t.2,
                ),
                Option::None => (Option::None, t.1, t.2),
            }
        } else if c == '_' {
            (
                Option::Some(
                    Formula::Operator(
                        Operator {
                            operator_type: OperatorType::Bottom,
                            arg1: Option::None,
                            arg2: Option::None,
                        },
                    ),
                ),
                p1,
                vars,
            )
        } else if c == '\u{b0}' {
            (
                Option::Some(
                    Formula::Operator(
                        Operator {
                            operator_type: OperatorType::Top,
                            arg1: Option::None,
                            arg2: Option::None,
                        },
                    ),
                ),
                p1,
                vars,
            )
        } else {
            match char_find(vars, c, 0) {
                Option::Some(j) => if j <= u32::MAX as int {
                    (Option::Some(Formula::Variable(j as u32)), p1, vars)
                } else {
                    (Option::None, p1, vars)
                },
                Option::None => if vars.len() >= u32::MAX as int {
                    (Option::None, p1, vars)
                } else {
                    (Option::Some(Formula::Variable(vars.len() as u32)), p1, vars.push(c))
                },
            }
        }
    }
}

/// What `var_r` parses: an atom, optionally followed by one binary
/// connective and a second atom.
pub open spec fn spec_var_r(buff: Seq<char>, pos: int, vars: Seq<char>) -> (
    Option<Formula>,
    int,
    Seq<char>,
)
    decreases buff.len() - pos, 1int,
{
    let t = spec_var_p(buff, pos, vars);
    match t.0 {
        Option::None => (Option::None, t.1, t.2),
        Option::Some(left) => if !(pos <= t.1) {
            // the cursor never moves backward; this guard only keeps the
            // recursion well founded
            (Option::None, t.1, t.2)
        } else if !(t.1 < buff.len()) {
            (Option::Some(left), t.1, t.2)
        } else {
            let c = buff[t.1];
            let p1 = t.1 + 1;
            let op = if c == '&' {
                Option::Some(OperatorType::And)
            } else if c == '|' {
                Option::Some(OperatorType::Or)
            } else if c == '>' {
                Option::Some(OperatorType::Impl)
            } else {
                Option::None
            };
            match op {
                Option::None => (Option::None, p1, t.2),
                Option::Some(connective) => {
                    let t2 = spec_var_p(buff, p1, t.2);
                    match t2.0 {
                        Option::None => (Option::None, t2.1, t2.2),
                        Option::Some(right) => (
                            Option::Some(
                                Formula::Operator(
                                    Operator {
                                        operator_type: connective,
                                        arg1: Option::Some(Box::new(left)),
                                        arg2: Option::Some(Box::new(right)),
                                    },
                                ),
                            ),
                            t2.1,
                            t2.2,
                        ),
                    }
                },
            }
        },
    }
}

/// Parse a (possibly binary) formula: an atom, then optionally `&`, `|` or
/// `>` and a second atom.  `None` reports a syntax error.
pub fn var_r(buff: &Vec<char>, pos: &mut usize, vars: &mut Vec<char>) -> (r: Option<Formula>)
    requires
        *old(pos) <= buff@.len(),
    ensures
        *old(pos) <= *final(pos) <= buff@.len(),
        parse_ok(r),
        old(vars)@.is_prefix_of(final(vars)@),
        r matches Option::Some(f) ==> formula_vars_lt(f, final(vars)@.len() as int),
        (r, *final(pos) as int, final(vars)@) == spec_var_r(
            buff@,
            *old(pos) as int,
            old(vars)@,
        ),
    decreases buff@.len() - *old(pos), 1int,
{
    let left = match var_p(buff, pos, vars) {
        Option::Some(f) => f,
        Option::None => {
            return Option::None;
        },
    };
    if *pos >= buff.len() {
        return Option::Some(left);
    }
    let c = buff[*pos];
    *pos += 1;
    let op = if c == '&' {
        OperatorType::And
    } else if c == '|' {
        OperatorType::Or
    } else if c == '>' {
        OperatorType::Impl
    } else {
        // unexpected token
        return Option::None;
    };
    let ghost mid_vars = vars@.len();
    let right = match var_p(buff, pos, vars) {
        Option::Some(f) => f,
        Option::None => {
            return Option::None;
        },
    };
    let res = Formula::Operator(
        Operator {
            operator_type: op,
            arg1: Option::Some(Box::new(left)),
            arg2: Option::Some(Box::new(right)),
        },
    );
    proof {
        reveal_with_fuel(formula_wf, 2);
        reveal_with_fuel(formula_fields, 2);
        reveal_with_fuel(crate::formula::opt_fields, 2);
        lemma_formula_vars_lt_mono(left, mid_vars as int, vars@.len() as int);
    }
    Option::Some(res)
}

/// Parse an atom: a parenthesised formula, a negation, a constant, or a
/// variable letter (allocated an index on first sight).
pub fn var_p(buff: &Vec<char>, pos: &mut usize, vars: &mut Vec<char>) -> (r: Option<Formula>)
    requires
        *old(pos) <= buff@.len(),
    ensures
        *old(pos) <= *final(pos) <= buff@.len(),
        parse_ok(r),
        old(vars)@.is_prefix_of(final(vars)@),
        r matches Option::Some(f) ==> formula_vars_lt(f, final(vars)@.len() as int),
        (r, *final(pos) as int, final(vars)@) == spec_var_p(
            buff@,
            *old(pos) as int,
            old(vars)@,
        ),
    decreases buff@.len() - *old(pos), 0int,
{
    if *pos >= buff.len() {
        // expected a formula, found nothing
        return Option::None;
    }
    let c = buff[*pos];
    *pos += 1;
    if c == '(' {
        let r = match var_r(buff, pos, vars) {
            Option::Some(f) => f,
            Option::None => {
                return Option::None;
            },
        };
        if *pos < buff.len() {
            let close = buff[*pos];
            *pos += 1;
            if close == ')' {
                Option::Some(r)
            } else {
                Option::None
            }
        } else {
            Option::None
        }
    } else if c == '!' {
        let p = match var_p(buff, pos, vars) {
            Option::Some(f) => f,
            Option::None => {
                return Option::None;
            },
        };
        let res = Formula::Operator(
            Operator { operator_type: OperatorType::Not, arg1: Option::Some(Box::new(p)), arg2: Option::None },
        );
        proof {
            reveal_with_fuel(formula_wf, 2);
            reveal_with_fuel(formula_fields, 2);
            reveal_with_fuel(crate::formula::opt_fields, 2);
        }
        Option::Some(res)
    } else if c == '_' {
        Option::Some(
            Formula::Operator(
                Operator { operator_type: OperatorType::Bottom, arg1: Option::None, arg2: Option::None },
            ),
        )
    } else if c == '\u{b0}' {
        Option::Some(
            Formula::Operator(
                Operator { operator_type: OperatorType::Top, arg1: Option::None, arg2: Option::None },
            ),
        )
    } else {
        // a variable letter: reuse its index, or allocate the next one
        let mut i: usize = 0;
        let n = vars.len();
        while i < n
            invariant
                0 <= i <= n,
                n == vars@.len(),
                vars@ == old(vars)@,
                *pos == *old(pos) + 1,
                *old(pos) < buff@.len(),
                c == buff@[*old(pos) as int],
                c != '(' && c != '!' && c != '_' && c != '\u{b0}',
                char_find(vars@, c, 0) == char_find(vars@, c, i as int),
            decreases n - i,
        {
            if vars[i] == c {
                proof {
                    assert(char_find(vars@, c, i as int) == Option::Some(i as int));
                }
                if i <= u32::MAX as usize {
                    return Option::Some(Formula::Variable(i as u32));
                } else {
                    return Option::None;
                }
            }
            i += 1;
        }
        proof {
            assert(char_find(vars@, c, 0) is None);
        }
        if n >= u32::MAX as usize {
            return Option::None;
        }
        vars.push(c);
        Option::Some(Formula::Variable(n as u32))
    }
}

/// Split at every separator, cursor form: `cur` is the segment begun so
/// far.
pub open spec fn split_from(s: Seq<char>, sep: char, i: int, cur: Seq<char>) -> Seq<Seq<char>>
    decreases s.len() - i,
{
    if !(0 <= i < s.len()) {
        seq![cur]
    } else if s[i] == sep {
        seq![cur] + split_from(s, sep, i + 1, Seq::empty())
    } else {
        split_from(s, sep, i + 1, cur.push(s[i]))
    }
}

/// The segments of `s` between occurrences of `sep` (one more segment than
/// separators; empty segments are kept).
pub open spec fn spec_split(s: Seq<char>, sep: char) -> Seq<Seq<char>> {
    split_from(s, sep, 0, Seq::empty())
}

/// The character sequences of a list of character lists.
pub open spec fn views_of(segs: Seq<Vec<char>>) -> Seq<Seq<char>> {
    segs.map_values(|v: Vec<char>| v@)
}

/// Split a character list at every separator.
pub fn split_on(chars: &Vec<char>, sep: char) -> (r: Vec<Vec<char>>)
    ensures
        views_of(r@) == spec_split(chars@, sep),
        r@.len() > 0,
{
    let mut parts: Vec<Vec<char>> = Vec::new();
    let mut seg: Vec<char> = Vec::new();
    let mut i: usize = 0;
    while i < chars.len()
        invariant
            0 <= i <= chars@.len(),
            spec_split(chars@, sep) == views_of(parts@) + split_from(
                chars@,
                sep,
                i as int,
                seg@,
            ),
        decreases chars@.len() - i,
    {
        let c = chars[i];
        if c == sep {
            let ghost old_parts = parts@;
            parts.push(seg);
            proof {
                assert(views_of(parts@) =~= views_of(old_parts).push(seg@));
                assert(views_of(old_parts).push(seg@) + split_from(
                    chars@,
                    sep,
                    i + 1 as int,
                    Seq::empty(),
                ) =~= views_of(old_parts) + (seq![seg@] + split_from(
                    chars@,
                    sep,
                    i + 1 as int,
                    Seq::empty(),
                )));
            }
            seg = Vec::new();
        } else {
            seg.push(c);
        }
        i += 1;
    }
    let ghost old_parts = parts@;
    parts.push(seg);
    proof {
        assert(views_of(parts@) =~= views_of(old_parts).push(seg@));
        assert(views_of(old_parts).push(seg@) =~= views_of(old_parts) + seq![seg@]);
    }
    parts
}

/// Parse the segments from position `i` on, threading the variable table;
/// empty segments are skipped on the antecedent side.
pub open spec fn parse_segments_from(
    segs: Seq<Seq<char>>,
    i: int,
    vars: Seq<char>,
    skip_empty: bool,
) -> (Option<Seq<Formula>>, Seq<char>)
    decreases segs.len() - i,
{
    if !(0 <= i < segs.len()) {
        (Option::Some(Seq::empty()), vars)
    } else if skip_empty && segs[i].len() == 0 {
        parse_segments_from(segs, i + 1, vars, skip_empty)
    } else {
        let t = spec_var_r(segs[i], 0, vars);
        match t.0 {
            Option::None => (Option::None, t.2),
            Option::Some(f) => {
                let rest = parse_segments_from(segs, i + 1, t.2, skip_empty);
                match rest.0 {
                    Option::None => (Option::None, rest.1),
                    Option::Some(fs) => (Option::Some(seq![f] + fs), rest.1),
                }
            },
        }
    }
}

/// The denotation of the sequent notation: exactly one `-`, each side split
/// at the commas and parsed left to right with one shared variable table.
pub open spec fn spec_parse_sequent(s: Seq<char>) -> Option<(Seq<Formula>, Seq<Formula>)> {
    let sides = spec_split(s, '-');
    if sides.len() != 2 {
        Option::None
    } else {
        let b = parse_segments_from(spec_split(sides[0], ','), 0, Seq::empty(), true);
        match b.0 {
            Option::None => Option::None,
            Option::Some(bf) => {
                let a = parse_segments_from(spec_split(sides[1], ','), 0, b.1, false);
                match a.0 {
                    Option::None => Option::None,
                    Option::Some(af) => Option::Some((bf, af)),
                }
            },
        }
    }
}

/// Parse one side: the comma-separated segments, left to right.
fn parse_side(segs: &Vec<Vec<char>>, vars: &mut Vec<char>, skip_empty: bool) -> (r: Option<
    Vec<Formula>>)
    ensures
        ({
            let t = parse_segments_from(views_of(segs@), 0, old(vars)@, skip_empty);
            match r {
                Option::Some(fs) => t.0 == Option::Some(fs@) && t.1 == final(vars)@ && formulas_built(
                    fs@,
                ),
                Option::None => t.0 is None,
            }
        }),
{
    let ghost all = views_of(segs@);
    let ghost vars0 = vars@;
    let mut acc: Vec<Formula> = Vec::new();
    let mut i: usize = 0;
    while i < segs.len()
        invariant
            0 <= i <= segs@.len(),
            all == views_of(segs@),
            vars0 == old(vars)@,
            formulas_built(acc@),
            ({
                let whole = parse_segments_from(all, 0, vars0, skip_empty);
                let rest = parse_segments_from(all, i as int, vars@, skip_empty);
                match rest.0 {
                    Option::None => whole.0 is None,
                    Option::Some(fs) => whole.0 == Option::Some(acc@ + fs) && whole.1 == rest.1,
                }
            }),
        decreases segs@.len() - i,
    {
        let seg = &segs[i];
        let ghost vars_at = vars@;
        let ghost acc_at = acc@;
        proof {
            assert(all[i as int] == segs@[i as int]@);
        }
        if !(skip_empty && seg.len() == 0) {
            let mut pos: usize = 0;
            match var_r(seg, &mut pos, vars) {
                Option::Some(f) => {
                    acc.push(f);
                    proof {
                        let t = spec_var_r(all[i as int], 0, vars_at);
                        assert(t.0 == Option::Some(f) && t.2 == vars@);
                        let rest_next = parse_segments_from(
                            all,
                            i + 1 as int,
                            vars@,
                            skip_empty,
                        );
                        match rest_next.0 {
                            Option::None => {},
                            Option::Some(fs) => {
                                assert(acc_at + (seq![f] + fs) =~= acc@ + fs);
                            },
                        }
                    }
                },
                Option::None => {
                    proof {
                        let t = spec_var_r(all[i as int], 0, vars_at);
                        assert(t.0 is None);
                        assert(parse_segments_from(all, i as int, vars_at, skip_empty).0
                            is None);
                        assert(parse_segments_from(all, 0, vars0, skip_empty).0 is None);
                    }
                    return Option::None;
                },
            }
        }
        i += 1;
    }
    Option::Some(acc)
}

/// Parse the notation of a sequent: comma-separated antecedents, `-`,
/// comma-separated consequents.  Empty antecedent entries are skipped; the
/// input must hold exactly one `-`.  The result is the denotation of the
/// text, well formed and hole-free, ready to be proved.
pub fn parse_sequent(seq: &Vec<char>) -> (r: Option<Sequent>)
    ensures
        match r {
            Option::Some(s) => {
                &&& spec_parse_sequent(seq@) matches Option::Some(p) && s.before@ == p.0
                    && s.after@ == p.1
                &&& sequent_wf(s)
                &&& sequent_complete(s)
            },
            Option::None => spec_parse_sequent(seq@) is None,
        },
{
    let sides = split_on(seq, '-');
    if sides.len() != 2 {
        return Option::None;
    }
    let mut vars: Vec<char> = Vec::new();
    let before_segs = split_on(&sides[0], ',');
    let after_segs = split_on(&sides[1], ',');
    proof {
        assert(views_of(sides@)[0] == sides@[0]@);
        assert(views_of(sides@)[1] == sides@[1]@);
    }
    let before = match parse_side(&before_segs, &mut vars, true) {
        Option::Some(fs) => fs,
        Option::None => {
            return Option::None;
        },
    };
    let after = match parse_side(&after_segs, &mut vars, false) {
        Option::Some(fs) => fs,
        Option::None => {
            return Option::None;
        },
    };
    let s = Sequent { before, after };
    proof {
        crate::sequent::lemma_formulas_fields_empty(s.before@);
        crate::sequent::lemma_formulas_fields_empty(s.after@);
    }
    Option::Some(s)
}

/// Every formula in the list so far is well formed and hole-free.
pub open spec fn formulas_built(fs: Seq<Formula>) -> bool {
    forall|i: int|
        0 <= i < fs.len() ==> formula_wf(#[trigger] fs[i]) && formula_fields(fs[i]).len() == 0
}

/// The characters with every space removed.
pub open spec fn spec_strip_spaces(s: Seq<char>) -> Seq<char> {
    s.filter(|c: char| c != ' ')
}

pub open spec fn trim_start(s: Seq<char>, i: int) -> int
    decreases s.len() - i,
{
    if 0 <= i < s.len() && s[i] == ' ' {
        trim_start(s, i + 1)
    } else {
        i
    }
}

pub open spec fn trim_end(s: Seq<char>, e: int, floor: int) -> int
    decreases e - floor,
{
    if floor < e <= s.len() && s[e - 1] == ' ' {
        trim_end(s, e - 1, floor)
    } else {
        e
    }
}

/// The characters with every double quote removed.
pub open spec fn strip_quotes(s: Seq<char>) -> Seq<char> {
    s.filter(|c: char| c != '"')
}

/// The characters with leading and trailing spaces and every double quote
/// removed.
pub open spec fn spec_trim_quotes(s: Seq<char>) -> Seq<char> {
    let ts = trim_start(s, 0);
    let te = trim_end(s, s.len() as int, ts);
    strip_quotes(s.subrange(ts, te))
}

/// Decimal value accumulated left to right, with the overflow check of a
/// machine-sized counter; 10 stands for a non-digit.
pub open spec fn usize_from(s: Seq<char>, i: int, acc: int) -> Option<int>
    decreases s.len() - i,
{
    if !(0 <= i < s.len()) {
        Option::Some(acc)
    } else {
        let d = digit_val(s[i]) as int;
        if d > 9 {
            Option::None
        } else if acc > (usize::MAX - d) / 10 {
            Option::None
        } else {
            usize_from(s, i + 1, acc * 10 + d)
        }
    }
}

/// The number the text denotes: `None` on an empty input, a non-digit or
/// overflow.
pub open spec fn spec_parse_usize(s: Seq<char>) -> Option<int> {
    if s.len() == 0 {
        Option::None
    } else {
        usize_from(s, 0, 0)
    }
}

/// The difficulty a parsed rating denotes; anything out of range keeps the
/// default.
pub open spec fn spec_difficulty(o: Option<int>) -> Difficulty {
    match o {
        Option::Some(u) => if u == 1 {
            Difficulty::Easy
        } else if u == 2 {
            Difficulty::Medium
        } else if u == 3 {
            Difficulty::Hard
        } else {
            Difficulty::Immediate
        },
        Option::None => Difficulty::Immediate,
    }
}

/// Numeric value of a digit character, or 10 for anything else.
pub open spec fn digit_val(c: char) -> nat {
    if c == '0' {
        0
    } else if c == '1' {
        1
    } else if c == '2' {
        2
    } else if c == '3' {
        3
    } else if c == '4' {
        4
    } else if c == '5' {
        5
    } else if c == '6' {
        6
    } else if c == '7' {
        7
    } else if c == '8' {
        8
    } else if c == '9' {
        9
    } else {
        10
    }
}

/// Parse an unsigned decimal number; `None` on an empty input, a non-digit
/// or overflow.
fn parse_usize(chars: &Vec<char>) -> (r: Option<usize>)
    ensures
        match r {
            Option::Some(v) => spec_parse_usize(chars@) == Option::Some(v as int),
            Option::None => spec_parse_usize(chars@) is None,
        },
{
    if chars.len() == 0 {
        return Option::None;
    }
    let mut value: usize = 0;
    let mut i: usize = 0;
    while i < chars.len()
        invariant
            0 <= i <= chars@.len(),
            chars@.len() > 0,
            usize_from(chars@, 0, 0) == usize_from(chars@, i as int, value as int),
        decreases chars@.len() - i,
    {
        let c = chars[i];
        let d: usize = if c == '0' {
            0
        } else if c == '1' {
            1
        } else if c == '2' {
            2
        } else if c == '3' {
            3
        } else if c == '4' {
            4
        } else if c == '5' {
            5
        } else if c == '6' {
            6
        } else if c == '7' {
            7
        } else if c == '8' {
            8
        } else if c == '9' {
            9
        } else {
            proof {
                assert(digit_val(chars@[i as int]) == 10);
            }
            return Option::None;
        };
        proof {
            assert(digit_val(chars@[i as int]) == d);
        }
        if value > (usize::MAX - d) / 10 {
            return Option::None;
        }
        value = value * 10 + d;
        i += 1;
    }
    Option::Some(value)
}

/// Parse one level line: `id; "name"; sequent; difficulty; raa; comment`.
/// A malformed sequent is an error; malformed metadata falls back to the
/// defaults, as a best effort on hand-written files.
pub fn parse_ligne(ligne: &Vec<char>) -> (r: Option<Level>)
    ensures
        match r {
            Option::Some(level) => {
                let parts = spec_split(ligne@, ';');
                &&& parts.len() == 6
                &&& level.id as int == (match spec_parse_usize(spec_strip_spaces(parts[0])) {
                    Option::Some(u) => u,
                    Option::None => 0,
                })
                &&& level.name@ == spec_trim_quotes(parts[1])
                &&& (spec_parse_sequent(spec_strip_spaces(parts[2])) matches Option::Some(p)
                    && level.seq.before@ == p.0 && level.seq.after@ == p.1)
                &&& level.difficulty == spec_difficulty(
                    spec_parse_usize(spec_strip_spaces(parts[3])),
                )
                &&& level.raa == (spec_parse_usize(spec_strip_spaces(parts[4]))
                    == Option::Some(1int))
                &&& sequent_wf(level.seq)
                &&& sequent_complete(level.seq)
            },
            Option::None => spec_split(ligne@, ';').len() != 6 || spec_parse_sequent(
                spec_strip_spaces(spec_split(ligne@, ';')[2]),
            ) is None,
        },
{
    let parts = split_on(ligne, ';');
    if parts.len() != 6 {
        return Option::None;
    }
    proof {
        assert forall|k: int| 0 <= k < 6 implies #[trigger] views_of(parts@)[k]
            == parts@[k]@ by {}
    }
    let mut result = Level::empty();
    // level id: digits with the spaces removed
    let id_chars = strip_spaces(&parts[0]);
    match parse_usize(&id_chars) {
        Option::Some(u) => result.id = u,
        Option::None => {},
    }
    // name: spaces trimmed at both ends, double quotes removed
    result.name = chars_to_string(strip_quotes_and_trim(&parts[1]));
    // the sequent itself, with spaces removed
    let seq_chars = strip_spaces(&parts[2]);
    match parse_sequent(&seq_chars) {
        Option::Some(s) => result.seq = s,
        Option::None => {
            return Option::None;
        },
    }
    // difficulty rating 0..=3; anything else keeps the default
    let diff_chars = strip_spaces(&parts[3]);
    match parse_usize(&diff_chars) {
        Option::Some(u) => {
            if u == 1 {
                result.difficulty = Difficulty::Easy;
            } else if u == 2 {
                result.difficulty = Difficulty::Medium;
            } else if u == 3 {
                result.difficulty = Difficulty::Hard;
            }
        },
        Option::None => {},
    }
    // is reductio ad absurdum allowed?
    let raa_chars = strip_spaces(&parts[4]);
    match parse_usize(&raa_chars) {
        Option::Some(u) => result.raa = u == 1,
        Option::None => {},
    }
    Option::Some(result)
}

/// Copy the characters with every space removed.
fn strip_spaces(chars: &Vec<char>) -> (r: Vec<char>)
    ensures
        r@ == spec_strip_spaces(chars@),
{
    let mut r: Vec<char> = Vec::new();
    let mut i: usize = 0;
    while i < chars.len()
        invariant
            0 <= i <= chars@.len(),
            r@ == spec_strip_spaces(chars@.subrange(0, i as int)),
        decreases chars@.len() - i,
    {
        proof {
            let pre = chars@.subrange(0, i as int);
            assert(chars@.subrange(0, i + 1 as int) =~= pre.push(chars@[i as int]));
            assert(pre.push(chars@[i as int]).drop_last() =~= pre);
            reveal_with_fuel(Seq::filter, 2);
        }
        if chars[i] != ' ' {
            r.push(chars[i]);
        }
        i += 1;
    }
    proof {
        assert(chars@.subrange(0, chars@.len() as int) =~= chars@);
    }
    r
}

/// Copy the characters with leading and trailing spaces and every double
/// quote removed.
fn strip_quotes_and_trim(chars: &Vec<char>) -> (r: Vec<char>)
    ensures
        r@ == spec_trim_quotes(chars@),
{
    let mut start: usize = 0;
    let mut end: usize = chars.len();
    while start < end && chars[start] == ' '
        invariant
            0 <= start <= end <= chars@.len(),
            end == chars@.len(),
            trim_start(chars@, 0) == trim_start(chars@, start as int),
        decreases end - start,
    {
        start += 1;
    }
    proof {
        assert(trim_start(chars@, 0) == start as int);
    }
    while end > start && chars[end - 1] == ' '
        invariant
            0 <= start <= end <= chars@.len(),
            start as int == trim_start(chars@, 0),
            trim_end(chars@, chars@.len() as int, start as int) == trim_end(
                chars@,
                end as int,
                start as int,
            ),
        decreases end,
    {
        end -= 1;
    }
    proof {
        assert(trim_end(chars@, chars@.len() as int, start as int) == end as int);
    }
    let mut r: Vec<char> = Vec::new();
    let mut i: usize = start;
    while i < end
        invariant
            start <= i <= end <= chars@.len(),
            r@ == strip_quotes(chars@.subrange(start as int, i as int)),
        decreases end - i,
    {
        proof {
            let pre = chars@.subrange(start as int, i as int);
            assert(chars@.subrange(start as int, i + 1 as int) =~= pre.push(chars@[i as int]));
            assert(pre.push(chars@[i as int]).drop_last() =~= pre);
            reveal_with_fuel(Seq::filter, 2);
        }
        if chars[i] != '"' {
            r.push(chars[i]);
        }
        i += 1;
    }
    proof {
        assert(chars@.subrange(start as int, start as int) =~= Seq::<char>::empty());
        assert(r@ =~= spec_trim_quotes(chars@));
    }
    r
}

} // verus!
