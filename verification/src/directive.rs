//! Directives of the order language: which subcommand to run first, and how
//! to continue from its exit code. A directive is a command name together
//! with branches mapping exit-code operators to optional nested directives.
//! This module also parses the human-written directive text.

use vstd::prelude::*;
use vstd::string::*;
use crate::ops::{op_denotes, op_eq, BonesOperator};
use crate::strutil::contains_char;

verus! {

broadcast use vstd::std_specs::vec::axiom_vec_index_decreases, vstd::seq::axiom_seq_index_decreases;

/// One branch set: operators paired with what to do when they match first.
/// `Some(d)` continues with the nested directive `d`; `None` keeps the exit
/// code just observed.
pub type BonesBranches = Vec<(BonesOperator, Option<BonesDirective>)>;

/// A directive: the name of the subcommand to run, and the branches deciding
/// how to continue from its exit code. Branches are kept in source order and
/// are consulted first-match-first; a duplicate operator replaces the value
/// of the earlier branch, so the last duplicate wins.
#[derive(Debug, PartialEq, Eq)]
pub struct BonesDirective(pub String, pub BonesBranches);

/// Structural equality of directives: equal names, and branches equal
/// elementwise.
pub open spec fn directive_eq(a: BonesDirective, b: BonesDirective) -> bool
    decreases a,
{
    &&& a.0@ == b.0@
    &&& a.1@.len() == b.1@.len()
    &&& forall|i: int|
        0 <= i < a.1@.len() ==> op_eq((#[trigger] a.1@[i]).0, b.1@[i].0) && opt_directive_eq(
            a.1@[i].1,
            b.1@[i].1,
        )
}

/// Structural equality of optional directives.
pub open spec fn opt_directive_eq(a: Option<BonesDirective>, b: Option<BonesDirective>) -> bool
    decreases a,
{
    match (a, b) {
        (Option::None, Option::None) => true,
        (Option::Some(x), Option::Some(y)) => directive_eq(x, y),
        _ => false,
    }
}

/// No two branches carry structurally equal operators.
pub open spec fn branches_unique(branches: Seq<(BonesOperator, Option<BonesDirective>)>) -> bool {
    forall|i: int, j: int|
        0 <= i < j < branches.len() ==> !op_eq(
            (#[trigger] branches[i]).0,
            (#[trigger] branches[j]).0,
        )
}

/// A well-formed directive: every branch set has pairwise distinct operators.
pub open spec fn directive_wf(d: BonesDirective) -> bool
    decreases d,
{
    &&& branches_unique(d.1@)
    &&& forall|i: int|
        0 <= i < d.1@.len() ==> match (#[trigger] d.1@[i]).1 {
            Option::Some(nested) => directive_wf(nested),
            Option::None => true,
        }
}

/// Structural directive equality is reflexive.
pub proof fn lemma_directive_eq_refl(d: BonesDirective)
    ensures
        directive_eq(d, d),
    decreases d,
{
    assert forall|i: int| 0 <= i < d.1@.len() implies op_eq((#[trigger] d.1@[i]).0, d.1@[i].0)
        && opt_directive_eq(d.1@[i].1, d.1@[i].1) by {
        crate::ops::lemma_op_eq_refl(d.1@[i].0);
        match d.1@[i].1 {
            Option::Some(nested) => {
                lemma_directive_eq_refl(nested);
            },
            Option::None => {},
        }
    }
}

/// A directive structurally equal to a well-formed one is well-formed.
pub proof fn lemma_directive_eq_wf(a: BonesDirective, b: BonesDirective)
    requires
        directive_eq(a, b),
        directive_wf(b),
    ensures
        directive_wf(a),
    decreases a,
{
    assert forall|i: int, j: int| 0 <= i < j < a.1@.len() implies !op_eq(
        (#[trigger] a.1@[i]).0,
        (#[trigger] a.1@[j]).0,
    ) by {
        if op_eq(a.1@[i].0, a.1@[j].0) {
            crate::ops::lemma_op_eq_sym(a.1@[i].0, b.1@[i].0);
            crate::ops::lemma_op_eq_trans(b.1@[i].0, a.1@[i].0, a.1@[j].0);
            crate::ops::lemma_op_eq_trans(b.1@[i].0, a.1@[j].0, b.1@[j].0);
        }
    }
    assert forall|i: int| 0 <= i < a.1@.len() implies match (#[trigger] a.1@[i]).1 {
        Option::Some(nested) => directive_wf(nested),
        Option::None => true,
    } by {
        match (a.1@[i].1, b.1@[i].1) {
            (Option::Some(x), Option::Some(y)) => {
                lemma_directive_eq_wf(x, y);
            },
            _ => {},
        }
    }
}

impl BonesDirective {
    /// An exact structural copy of this directive.
    #[verifier::loop_isolation(false)]
    pub fn duplicate(&self) -> (r: BonesDirective)
        ensures
            directive_eq(r, *self),
            directive_wf(*self) ==> directive_wf(r),
        decreases *self,
    {
        let name = self.0.clone();
        let mut branches: BonesBranches = Vec::new();
        let mut i: usize = 0;
        while i < self.1.len()
            invariant
                0 <= i <= self.1@.len(),
                branches@.len() == i,
                forall|k: int|
                    0 <= k < i ==> op_eq((#[trigger] branches@[k]).0, self.1@[k].0)
                        && opt_directive_eq(branches@[k].1, self.1@[k].1),
            decreases self.1@.len() - i,
        {
            let op2 = self.1[i].0.duplicate();
            let val2 = match &self.1[i].1 {
                Option::Some(nested) => Option::Some(nested.duplicate()),
                Option::None => Option::None,
            };
            branches.push((op2, val2));
            i = i + 1;
        }
        let r = BonesDirective(name, branches);
        proof {
            assert(directive_eq(r, *self));
            if directive_wf(*self) {
                lemma_directive_eq_wf(r, *self);
            }
        }
        r
    }
}

/// A whitespace character of the directive language.
pub open spec fn is_ws_char(c: char) -> bool {
    c == ' ' || c == '\t' || c == '\r' || c == '\n'
}

/// The first position at or after `i` holding a non-whitespace character.
pub open spec fn skip_ws_s(s: Seq<char>, i: int) -> int
    decreases s.len() - i,
{
    if 0 <= i < s.len() && is_ws_char(s[i]) {
        skip_ws_s(s, i + 1)
    } else {
        i
    }
}

/// The first position at or after `i` holding neither a space nor a tab.
pub open spec fn skip_spaces_s(s: Seq<char>, i: int) -> int
    decreases s.len() - i,
{
    if 0 <= i < s.len() && (s[i] == ' ' || s[i] == '\t') {
        skip_spaces_s(s, i + 1)
    } else {
        i
    }
}

/// The first position at or after `i` holding `c`.
pub open spec fn find_char_s(s: Seq<char>, i: int, c: char) -> Option<int>
    decreases s.len() - i,
{
    if !(0 <= i < s.len()) {
        None
    } else if s[i] == c {
        Some(i)
    } else {
        find_char_s(s, i + 1, c)
    }
}

/// The first `=>` at or after `i`, stopping at a newline or brace.
pub open spec fn find_arrow_s(s: Seq<char>, i: int) -> Option<int>
    decreases s.len() - i,
{
    if !(0 <= i < s.len()) {
        None
    } else if s[i] == '\n' || s[i] == '{' || s[i] == '}' {
        None
    } else if s[i] == '=' && i + 1 < s.len() && s[i + 1] == '>' {
        Some(i)
    } else {
        find_arrow_s(s, i + 1)
    }
}

/// The first position at or after `i` where a branch target ends.
pub open spec fn find_target_end_s(s: Seq<char>, i: int) -> int
    decreases s.len() - i,
{
    if !(0 <= i < s.len()) {
        s.len() as int
    } else if s[i] == '{' || s[i] == '}' || s[i] == '\n' {
        i
    } else {
        find_target_end_s(s, i + 1)
    }
}

/// The first position at or after `a`, below `b`, holding non-whitespace.
pub open spec fn trim_l_s(s: Seq<char>, a: int, b: int) -> int
    decreases b - a,
{
    if a < b && 0 <= a < s.len() && is_ws_char(s[a]) {
        trim_l_s(s, a + 1, b)
    } else {
        a
    }
}

/// The position after the last non-whitespace character at or after `a`,
/// below `b`.
pub open spec fn trim_r_s(s: Seq<char>, a: int, b: int) -> int
    decreases b - a,
{
    if b > a && 0 <= b - 1 < s.len() && is_ws_char(s[b - 1]) {
        trim_r_s(s, a, b - 1)
    } else {
        b
    }
}

/// The text between `a` and `b` with surrounding whitespace removed.
pub open spec fn trimmed_s(s: Seq<char>, a: int, b: int) -> Seq<char> {
    s.subrange(trim_l_s(s, a, b), trim_r_s(s, trim_l_s(s, a, b), b))
}

fn skip_ws(s: &str, from: usize) -> (r: usize)
    requires
        from <= s@.len(),
    ensures
        from <= r <= s@.len(),
        r as int == skip_ws_s(s@, from as int),
{
    let n = s.unicode_len();
    let mut i: usize = from;
    while i < n
        invariant
            from <= i <= n,
            n == s@.len(),
            skip_ws_s(s@, from as int) == skip_ws_s(s@, i as int),
        decreases n - i,
    {
        let c = s.get_char(i);
        if !(c == ' ' || c == '\t' || c == '\r' || c == '\n') {
            return i;
        }
        i = i + 1;
    }
    n
}

fn skip_spaces(s: &str, from: usize) -> (r: usize)
    requires
        from <= s@.len(),
    ensures
        from <= r <= s@.len(),
        r as int == skip_spaces_s(s@, from as int),
{
    let n = s.unicode_len();
    let mut i: usize = from;
    while i < n
        invariant
            from <= i <= n,
            n == s@.len(),
            skip_spaces_s(s@, from as int) == skip_spaces_s(s@, i as int),
        decreases n - i,
    {
        let c = s.get_char(i);
        if !(c == ' ' || c == '\t') {
            return i;
        }
        i = i + 1;
    }
    n
}

/// The first position at or after `from` holding `target`.
fn find_char_from(s: &str, from: usize, target: char) -> (r: Option<usize>)
    requires
        from <= s@.len(),
    ensures
        r is Some ==> from <= r->Some_0 < s@.len(),
        match r {
            Option::Some(j) => find_char_s(s@, from as int, target) == Some(j as int),
            Option::None => find_char_s(s@, from as int, target) is None,
        },
{
    let n = s.unicode_len();
    let mut i: usize = from;
    while i < n
        invariant
            from <= i <= n,
            n == s@.len(),
            find_char_s(s@, from as int, target) == find_char_s(s@, i as int, target),
        decreases n - i,
    {
        if s.get_char(i) == target {
            return Some(i);
        }
        i = i + 1;
    }
    None
}

/// The first `=>` at or after `from`, stopping at a newline or brace.
fn find_arrow(s: &str, from: usize) -> (r: Option<usize>)
    requires
        from <= s@.len(),
    ensures
        r is Some ==> from <= r->Some_0 && r->Some_0 + 2 <= s@.len(),
        match r {
            Option::Some(j) => find_arrow_s(s@, from as int) == Some(j as int),
            Option::None => find_arrow_s(s@, from as int) is None,
        },
{
    let n = s.unicode_len();
    let mut i: usize = from;
    while i < n
        invariant
            from <= i <= n,
            n == s@.len(),
            find_arrow_s(s@, from as int) == find_arrow_s(s@, i as int),
        decreases n - i,
    {
        let c = s.get_char(i);
        if c == '\n' || c == '{' || c == '}' {
            return None;
        }
        if c == '=' && i + 1 < n && s.get_char(i + 1) == '>' {
            return Some(i);
        }
        i = i + 1;
    }
    None
}

/// The first position at or after `from` where a branch target ends: a brace,
/// a newline, or the end of the text.
fn find_target_end(s: &str, from: usize) -> (r: usize)
    requires
        from <= s@.len(),
    ensures
        from <= r <= s@.len(),
        r as int == find_target_end_s(s@, from as int),
{
    let n = s.unicode_len();
    let mut i: usize = from;
    while i < n
        invariant
            from <= i <= n,
            n == s@.len(),
            find_target_end_s(s@, from as int) == find_target_end_s(s@, i as int),
        decreases n - i,
    {
        let c = s.get_char(i);
        if c == '{' || c == '}' || c == '\n' {
            return i;
        }
        i = i + 1;
    }
    n
}

/// The text between `start` and `end` with surrounding whitespace removed.
fn trim_substring(s: &str, start: usize, end: usize) -> (r: String)
    requires
        start <= end <= s@.len(),
    ensures
        r@ == trimmed_s(s@, start as int, end as int),
{
    let mut a: usize = start;
    let mut more: bool = true;
    while more && a < end
        invariant
            start <= a <= end,
            end <= s@.len(),
            trim_l_s(s@, start as int, end as int) == (if more {
                trim_l_s(s@, a as int, end as int)
            } else {
                a as int
            }),
        decreases end - a + (if more { 1int } else { 0int }),
    {
        let c = s.get_char(a);
        if c == ' ' || c == '\t' || c == '\r' || c == '\n' {
            a = a + 1;
        } else {
            more = false;
        }
    }
    proof {
        assert(trim_l_s(s@, start as int, end as int) == a as int);
    }
    let mut b: usize = end;
    let mut more_r: bool = true;
    while more_r && b > a
        invariant
            a <= b <= end,
            end <= s@.len(),
            a as int == trim_l_s(s@, start as int, end as int),
            trim_r_s(s@, a as int, end as int) == (if more_r {
                trim_r_s(s@, a as int, b as int)
            } else {
                b as int
            }),
        decreases b + (if more_r { 1int } else { 0int }),
    {
        let c = s.get_char(b - 1);
        if c == ' ' || c == '\t' || c == '\r' || c == '\n' {
            b = b - 1;
        } else {
            more_r = false;
        }
    }
    proof {
        assert(trim_r_s(s@, a as int, end as int) == b as int);
    }
    s.substring_char(a, b).to_owned()
}

/// Whether some operator term denotes an operator.
pub open spec fn op_term_accepted(t: Seq<char>) -> bool {
    exists|op: BonesOperator| op_denotes(t, op)
}

/// The grammar of a branch block, from just after its opening brace:
/// `Some(e)` when the branch lines and the closing brace are well-formed,
/// with `e` the position just after the closing brace. Each line is
/// `<operator> => <target>`, the operator term denoting an operator and the
/// target non-empty, optionally followed on the same line by a nested
/// block.
pub open spec fn branches_accepted_from(s: Seq<char>, i: int) -> Option<int>
    decreases s.len() - i,
{
    if i < 0 {
        None
    } else {
        let j = skip_ws_s(s, i);
        if j >= s.len() {
            None
        } else if s[j] == '}' {
            Some(j + 1)
        } else {
            match find_arrow_s(s, j) {
                Option::None => None,
                Option::Some(k) => {
                    if !op_term_accepted(trimmed_s(s, j, k)) {
                        None
                    } else {
                        let aa = skip_spaces_s(s, k + 2);
                        let te = find_target_end_s(s, aa);
                        if trimmed_s(s, aa, te).len() == 0 {
                            None
                        } else {
                            let kk = skip_spaces_s(s, te);
                            if kk < s.len() && s[kk] == '{' {
                                if kk < i {
                                    // scanners only move forward; never taken
                                    None
                                } else {
                                    match branches_accepted_from(s, kk + 1) {
                                        Option::None => None,
                                        Option::Some(e2) => {
                                            if e2 > kk + 1 && e2 <= s.len() {
                                                branches_accepted_from(s, e2)
                                            } else {
                                                None
                                            }
                                        },
                                    }
                                }
                            } else {
                                if te <= i || te > s.len() {
                                    // scanners only move forward; never taken
                                    None
                                } else {
                                    branches_accepted_from(s, te)
                                }
                            }
                        }
                    }
                },
            }
        }
    }
}

/// The name of a block-form directive: the trimmed text before the first
/// brace.
pub open spec fn block_name(s: Seq<char>) -> Seq<char> {
    trimmed_s(s, skip_ws_s(s, 0), find_char_s(s, skip_ws_s(s, 0), '{')->Some_0)
}

/// The directive texts the parser accepts: the bare form (no brace; the
/// whole text is the command name), or a block `<name> { <branches> }` with
/// a non-empty name, well-formed branch lines, and nothing but whitespace
/// after the closing brace.
pub open spec fn directive_text_accepted(s: Seq<char>) -> bool {
    if !s.contains('{') {
        true
    } else {
        match find_char_s(s, skip_ws_s(s, 0), '{') {
            Option::None => false,
            Option::Some(brace) => {
                &&& trimmed_s(s, skip_ws_s(s, 0), brace).len() > 0
                &&& match branches_accepted_from(s, brace + 1) {
                    Option::None => false,
                    Option::Some(e) => skip_ws_s(s, e) >= s.len(),
                }
            },
        }
    }
}

/// The position in `branches` of the branch whose operator is structurally
/// equal to `op`, if any.
#[verifier::loop_isolation(false)]
fn find_branch(branches: &BonesBranches, op: &BonesOperator) -> (r: Option<usize>)
    ensures
        match r {
            Option::Some(j) => 0 <= j < branches@.len() && op_eq(branches@[j as int].0, *op),
            Option::None => forall|k: int|
                0 <= k < branches@.len() ==> !op_eq((#[trigger] branches@[k]).0, *op),
        },
{
    let mut i: usize = 0;
    while i < branches.len()
        invariant
            0 <= i <= branches@.len(),
            forall|k: int| 0 <= k < i ==> !op_eq((#[trigger] branches@[k]).0, *op),
        decreases branches@.len() - i,
    {
        if branches[i].0.same_as(op) {
            return Some(i);
        }
        i = i + 1;
    }
    None
}

/// Every nested directive of the branch set is well-formed.
pub open spec fn branches_wf(branches: Seq<(BonesOperator, Option<BonesDirective>)>) -> bool {
    forall|i: int|
        0 <= i < branches.len() ==> match (#[trigger] branches[i]).1 {
            Option::Some(nested) => directive_wf(nested),
            Option::None => true,
        }
}

/// Parses the branch lines of a block, starting just after its opening brace
/// and consuming its closing brace. Returns the branches and the position
/// just after the closing brace — exactly where the grammar
/// (`branches_accepted_from`) says the block ends, and succeeds exactly on
/// the blocks the grammar accepts. Branches keep source order; a duplicate
/// operator replaces the earlier branch's value in place.
#[verifier::loop_isolation(false)]
fn parse_branches(s: &str, start: usize) -> (r: Result<(BonesBranches, usize), String>)
    requires
        start <= s@.len(),
    ensures
        r matches Ok(p) ==> start < p.1 <= s@.len() && branches_unique(p.0@) && branches_wf(p.0@)
            && branches_accepted_from(s@, start as int) == Some(p.1 as int),
        r is Err ==> branches_accepted_from(s@, start as int) is None,
    decreases s@.len() - start,
{
    let n = s.unicode_len();
    let mut branches: BonesBranches = Vec::new();
    let mut i: usize = start;
    loop
        invariant
            start <= i <= n,
            n == s@.len(),
            branches_unique(branches@),
            branches_wf(branches@),
            branches_accepted_from(s@, start as int) == branches_accepted_from(s@, i as int),
        decreases n - i,
    {
        i = skip_ws(s, i);
        if i >= n {
            return Err(
                "Malformed Bones directive: a block was opened with '{' but never closed with '}'.".to_owned(),
            );
        }
        if s.get_char(i) == '}' {
            return Ok((branches, i + 1));
        }
        // One branch line: `<operator> => <target>`, optionally followed by a
        // nested block.
        let arrow = match find_arrow(s, i) {
            Some(k) => k,
            None => {
                return Err(
                    "Malformed Bones directive: expected an `<operator> => <target>` branch or a closing '}'.".to_owned(),
                );
            },
        };
        let op_text = trim_substring(s, i, arrow);
        let op = match BonesOperator::parse_str(op_text.as_str()) {
            Ok(op) => op,
            Err(e) => {
                proof {
                    assert(!op_term_accepted(trimmed_s(s@, i as int, arrow as int)));
                }
                return Err(e);
            },
        };
        proof {
            assert(op_term_accepted(trimmed_s(s@, i as int, arrow as int)));
        }
        let after_arrow = skip_spaces(s, arrow + 2);
        let t_end = find_target_end(s, after_arrow);
        let target = trim_substring(s, after_arrow, t_end);
        if target.as_str().unicode_len() == 0 {
            return Err(
                "Malformed Bones directive: a branch is missing its target command name.".to_owned(),
            );
        }
        let ghost i_before = i;
        let k = skip_spaces(s, t_end);
        let val: Option<BonesDirective>;
        if k < n && s.get_char(k) == '{' {
            match parse_branches(s, k + 1) {
                Ok((nested, np)) => {
                    val = Some(BonesDirective(target, nested));
                    i = np;
                },
                Err(e) => {
                    return Err(e);
                },
            }
        } else {
            val = Some(BonesDirective(target, Vec::new()));
            i = t_end;
        }
        proof {
            assert(i > i_before);
        }
        let ghost new_op = op;
        match find_branch(&branches, &op) {
            Some(j) => {
                let ghost old_branches = branches@;
                branches.remove(j);
                branches.insert(j, (op, val));
                proof {
                    assert(branches@.len() == old_branches.len());
                    assert(forall|k: int|
                        0 <= k < branches@.len() && k != j ==> #[trigger] branches@[k]
                            == old_branches[k]);
                    assert(branches@[j as int].0 == new_op);
                    assert(op_eq(old_branches[j as int].0, new_op));
                    // a clash with the replacing operator would have been a
                    // clash with the replaced one
                    assert forall|k1: int, k2: int| 0 <= k1 < k2 < branches@.len() implies !op_eq(
                        (#[trigger] branches@[k1]).0,
                        (#[trigger] branches@[k2]).0,
                    ) by {
                        if op_eq(branches@[k1].0, branches@[k2].0) {
                            if k1 == j {
                                crate::ops::lemma_op_eq_trans(
                                    old_branches[j as int].0,
                                    new_op,
                                    old_branches[k2].0,
                                );
                                assert(op_eq(old_branches[k1].0, old_branches[k2].0));
                            } else if k2 == j {
                                crate::ops::lemma_op_eq_sym(old_branches[j as int].0, new_op);
                                crate::ops::lemma_op_eq_trans(
                                    old_branches[k1].0,
                                    new_op,
                                    old_branches[j as int].0,
                                );
                                assert(op_eq(old_branches[k1].0, old_branches[k2].0));
                            } else {
                                assert(op_eq(old_branches[k1].0, old_branches[k2].0));
                            }
                        }
                    }
                }
            },
            None => {
                branches.push((op, val));
            },
        }
    }
}

/// Parses human-written directive text into a directive tree.
///
/// Text without any `{` is the bare form: the whole text is the command name
/// and there are no branches, pinned exactly. Otherwise the text must be a
/// block, `<name> { <operator> => <target> ... }`, with branches one per
/// line and nested blocks after a target name: parsing succeeds exactly on
/// the texts the grammar accepts (`directive_text_accepted`), and the
/// directive's name is the block's trimmed head. The returned directive is
/// well-formed: each branch set holds pairwise distinct operators, later
/// duplicates replacing the value of the earlier branch.
pub fn parse_directive_str(directive_str: &str) -> (r: Result<BonesDirective, String>)
    ensures
        r is Ok <==> directive_text_accepted(directive_str@),
        r matches Ok(d) ==> directive_wf(d),
        !directive_str@.contains('{') ==> (r matches Ok(d) && d.0@ == directive_str@ && d.1@.len()
            == 0),
        directive_str@.contains('{') ==> (r matches Ok(d) ==> d.0@ == block_name(directive_str@)),
{
    if !contains_char(directive_str, '{') {
        return Ok(BonesDirective(directive_str.to_owned(), Vec::new()));
    }
    let n = directive_str.unicode_len();
    let name_start = skip_ws(directive_str, 0);
    let brace = match find_char_from(directive_str, name_start, '{') {
        Some(j) => j,
        None => {
            return Err(
                "Malformed Bones directive: expected `<name> {` at the start of a block directive.".to_owned(),
            );
        },
    };
    let name = trim_substring(directive_str, name_start, brace);
    if name.as_str().unicode_len() == 0 {
        return Err(
            "Malformed Bones directive: the block is missing the name of the command to run.".to_owned(),
        );
    }
    let (branches, after) = match parse_branches(directive_str, brace + 1) {
        Ok(p) => p,
        Err(e) => {
            return Err(e);
        },
    };
    let trailing = skip_ws(directive_str, after);
    if trailing < n {
        return Err(
            "Malformed Bones directive: unexpected text after the closing '}' of the directive.".to_owned(),
        );
    }
    Ok(BonesDirective(name, branches))
}

} // verus!
