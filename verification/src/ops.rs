//! Exit-code operators of the directive language: predicates over the exit
//! code of a finished subcommand, with their textual forms.

use vstd::prelude::*;
use vstd::string::*;
use crate::strutil::{
    contains_char, is_i32_numeral, lemma_split_count, lemma_split_part_lt, parse_i32, spec_i32_val,
    spec_split, split_char, str_eq,
};

verus! {

broadcast use vstd::std_specs::vec::axiom_vec_index_decreases, vstd::seq::axiom_seq_index_decreases;

/// A predicate over exit codes. `Union` matches when any member matches,
/// `Intersection` when all do; `Never` (written `None` in directive text)
/// matches nothing.
#[derive(Debug, PartialEq, Eq, Hash)]
#[verifier::ext_equal]
pub enum BonesOperator {
    ExitCode(i32),
    NotExitCode(i32),
    Any,
    Never,
    Success,
    Failure,
    Union(Vec<BonesOperator>),
    Intersection(Vec<BonesOperator>),
}

/// Whether the operator accepts the exit code.
pub open spec fn spec_matches(op: BonesOperator, code: int) -> bool
    decreases op,
{
    match op {
        BonesOperator::Success => code == 0,
        BonesOperator::Failure => code != 0,
        BonesOperator::ExitCode(n) => code == n,
        BonesOperator::NotExitCode(n) => code != n,
        BonesOperator::Any => true,
        BonesOperator::Never => false,
        BonesOperator::Union(ops) => exists|i: int|
            0 <= i < ops@.len() && spec_matches(#[trigger] ops@[i], code),
        BonesOperator::Intersection(ops) => forall|i: int|
            0 <= i < ops@.len() ==> spec_matches(#[trigger] ops@[i], code),
    }
}

/// The denotation of one textual operator term: `op_denotes(s, op)` holds when
/// the term `s` names exactly the operator `op`. The forms are tried in a
/// fixed order: a decimal integer, `!` before a decimal integer, one of the
/// four named operators, a `|`-separated union, a `+`-separated intersection.
/// At most one operator is denoted by a given term.
pub open spec fn op_denotes(s: Seq<char>, op: BonesOperator) -> bool
    decreases s.len(), 1int, 0int,
{
    if is_i32_numeral(s) {
        op == BonesOperator::ExitCode(spec_i32_val(s) as i32)
    } else if s.len() > 0 && s[0] == '!' {
        is_i32_numeral(s.skip(1)) && op == BonesOperator::NotExitCode(
            spec_i32_val(s.skip(1)) as i32,
        )
    } else if s == "Any"@ {
        op == BonesOperator::Any
    } else if s == "None"@ {
        op == BonesOperator::Never
    } else if s == "Success"@ {
        op == BonesOperator::Success
    } else if s == "Failure"@ {
        op == BonesOperator::Failure
    } else if s.contains('|') {
        op matches BonesOperator::Union(ops) && ops_denote(spec_split(s, '|'), ops@, s.len())
    } else if s.contains('+') {
        op matches BonesOperator::Intersection(ops) && ops_denote(
            spec_split(s, '+'),
            ops@,
            s.len(),
        )
    } else {
        false
    }
}

/// Elementwise denotation of the pieces of a `|`- or `+`-separated term; every
/// piece is strictly shorter than the whole term, whose length `bound`
/// records.
pub open spec fn ops_denote(parts: Seq<Seq<char>>, ops: Seq<BonesOperator>, bound: nat) -> bool
    decreases bound, 0int, parts.len(),
{
    if parts.len() != ops.len() {
        false
    } else if parts.len() == 0 {
        true
    } else if parts[0].len() >= bound {
        false
    } else {
        op_denotes(parts[0], ops[0]) && ops_denote(parts.skip(1), ops.skip(1), bound)
    }
}

proof fn lemma_ops_denote_index(parts: Seq<Seq<char>>, ops: Seq<BonesOperator>, bound: nat, i: int)
    requires
        ops_denote(parts, ops, bound),
        0 <= i < parts.len(),
    ensures
        op_denotes(parts[i], ops[i]),
    decreases parts.len(),
{
    if i > 0 {
        lemma_ops_denote_index(parts.skip(1), ops.skip(1), bound, i - 1);
        assert(parts.skip(1)[i - 1] == parts[i]);
        assert(ops.skip(1)[i - 1] == ops[i]);
    }
}

proof fn lemma_ops_denote_build(parts: Seq<Seq<char>>, ops: Seq<BonesOperator>, bound: nat)
    requires
        parts.len() == ops.len(),
        forall|k: int| 0 <= k < parts.len() ==> (#[trigger] parts[k]).len() < bound,
        forall|k: int| 0 <= k < parts.len() ==> op_denotes(parts[k], #[trigger] ops[k]),
    ensures
        ops_denote(parts, ops, bound),
    decreases parts.len(),
{
    if parts.len() > 0 {
        assert(forall|k: int|
            0 <= k < parts.skip(1).len() ==> (#[trigger] parts.skip(1)[k]) == parts[k + 1]);
        assert(forall|k: int|
            0 <= k < ops.skip(1).len() ==> (#[trigger] ops.skip(1)[k]) == ops[k + 1]);
        lemma_ops_denote_build(parts.skip(1), ops.skip(1), bound);
    }
}

/// Structural equality of operators. Two operators are equal when they are
/// the same form with the same payload, membership lists compared
/// elementwise.
pub open spec fn op_eq(a: BonesOperator, b: BonesOperator) -> bool
    decreases a,
{
    match (a, b) {
        (BonesOperator::ExitCode(x), BonesOperator::ExitCode(y)) => x == y,
        (BonesOperator::NotExitCode(x), BonesOperator::NotExitCode(y)) => x == y,
        (BonesOperator::Any, BonesOperator::Any) => true,
        (BonesOperator::Never, BonesOperator::Never) => true,
        (BonesOperator::Success, BonesOperator::Success) => true,
        (BonesOperator::Failure, BonesOperator::Failure) => true,
        (BonesOperator::Union(x), BonesOperator::Union(y)) => {
            &&& x@.len() == y@.len()
            &&& forall|i: int| 0 <= i < x@.len() ==> op_eq(#[trigger] x@[i], y@[i])
        },
        (BonesOperator::Intersection(x), BonesOperator::Intersection(y)) => {
            &&& x@.len() == y@.len()
            &&& forall|i: int| 0 <= i < x@.len() ==> op_eq(#[trigger] x@[i], y@[i])
        },
        _ => false,
    }
}

/// Structural operator equality is reflexive.
pub proof fn lemma_op_eq_refl(a: BonesOperator)
    ensures
        op_eq(a, a),
    decreases a,
{
    match a {
        BonesOperator::Union(x) => {
            assert forall|i: int| 0 <= i < x@.len() implies op_eq(#[trigger] x@[i], x@[i]) by {
                lemma_op_eq_refl(x@[i]);
            }
        },
        BonesOperator::Intersection(x) => {
            assert forall|i: int| 0 <= i < x@.len() implies op_eq(#[trigger] x@[i], x@[i]) by {
                lemma_op_eq_refl(x@[i]);
            }
        },
        _ => {},
    }
}

/// Structural operator equality is symmetric.
pub proof fn lemma_op_eq_sym(a: BonesOperator, b: BonesOperator)
    requires
        op_eq(a, b),
    ensures
        op_eq(b, a),
    decreases a,
{
    match (a, b) {
        (BonesOperator::Union(x), BonesOperator::Union(y)) => {
            assert forall|i: int| 0 <= i < y@.len() implies op_eq(#[trigger] y@[i], x@[i]) by {
                lemma_op_eq_sym(x@[i], y@[i]);
            }
        },
        (BonesOperator::Intersection(x), BonesOperator::Intersection(y)) => {
            assert forall|i: int| 0 <= i < y@.len() implies op_eq(#[trigger] y@[i], x@[i]) by {
                lemma_op_eq_sym(x@[i], y@[i]);
            }
        },
        _ => {},
    }
}

/// Structural operator equality is transitive.
pub proof fn lemma_op_eq_trans(a: BonesOperator, b: BonesOperator, c: BonesOperator)
    requires
        op_eq(a, b),
        op_eq(b, c),
    ensures
        op_eq(a, c),
    decreases a,
{
    match (a, b, c) {
        (BonesOperator::Union(x), BonesOperator::Union(y), BonesOperator::Union(z)) => {
            assert forall|i: int| 0 <= i < x@.len() implies op_eq(#[trigger] x@[i], z@[i]) by {
                lemma_op_eq_trans(x@[i], y@[i], z@[i]);
            }
        },
        (
            BonesOperator::Intersection(x),
            BonesOperator::Intersection(y),
            BonesOperator::Intersection(z),
        ) => {
            assert forall|i: int| 0 <= i < x@.len() implies op_eq(#[trigger] x@[i], z@[i]) by {
                lemma_op_eq_trans(x@[i], y@[i], z@[i]);
            }
        },
        _ => {},
    }
}

/// Structurally equal operators accept exactly the same exit codes.
pub proof fn lemma_op_eq_matches(a: BonesOperator, b: BonesOperator, code: int)
    requires
        op_eq(a, b),
    ensures
        spec_matches(a, code) == spec_matches(b, code),
    decreases a,
{
    match (a, b) {
        (BonesOperator::Union(x), BonesOperator::Union(y)) => {
            assert forall|i: int| 0 <= i < x@.len() implies spec_matches(#[trigger] x@[i], code)
                == spec_matches(y@[i], code) by {
                lemma_op_eq_matches(x@[i], y@[i], code);
            }
            assert(spec_matches(a, code) ==> spec_matches(b, code)) by {
                if spec_matches(a, code) {
                    let i = choose|i: int| 0 <= i < x@.len() && spec_matches(#[trigger] x@[i], code);
                    assert(spec_matches(y@[i], code));
                }
            }
            assert(spec_matches(b, code) ==> spec_matches(a, code)) by {
                if spec_matches(b, code) {
                    let i = choose|i: int| 0 <= i < y@.len() && spec_matches(#[trigger] y@[i], code);
                    assert(spec_matches(x@[i], code));
                }
            }
        },
        (BonesOperator::Intersection(x), BonesOperator::Intersection(y)) => {
            assert forall|i: int| 0 <= i < x@.len() implies spec_matches(#[trigger] x@[i], code)
                == spec_matches(y@[i], code) by {
                lemma_op_eq_matches(x@[i], y@[i], code);
            }
            assert(spec_matches(a, code) ==> spec_matches(b, code)) by {
                if spec_matches(a, code) {
                    assert forall|i: int| 0 <= i < y@.len() implies spec_matches(
                        #[trigger] y@[i],
                        code,
                    ) by {
                        assert(spec_matches(x@[i], code));
                    }
                }
            }
            assert(spec_matches(b, code) ==> spec_matches(a, code)) by {
                if spec_matches(b, code) {
                    assert forall|i: int| 0 <= i < x@.len() implies spec_matches(
                        #[trigger] x@[i],
                        code,
                    ) by {
                        assert(spec_matches(y@[i], code));
                    }
                }
            }
        },
        _ => {},
    }
}

impl BonesOperator {
    /// Whether this operator accepts the given exit code.
    #[verifier::loop_isolation(false)]
    pub fn matches(&self, exit_code: &i32) -> (r: bool)
        ensures
            r == spec_matches(*self, *exit_code as int),
        decreases *self,
    {
        match self {
            BonesOperator::Success => *exit_code == 0,
            BonesOperator::Failure => *exit_code != 0,
            BonesOperator::ExitCode(n) => *exit_code == *n,
            BonesOperator::NotExitCode(n) => *exit_code != *n,
            BonesOperator::Any => true,
            BonesOperator::Never => false,
            BonesOperator::Union(ops) => {
                let mut i: usize = 0;
                while i < ops.len()
                    invariant
                        0 <= i <= ops@.len(),
                        forall|k: int|
                            0 <= k < i ==> !spec_matches(#[trigger] ops@[k], *exit_code as int),
                    decreases ops@.len() - i,
                {
                    if ops[i].matches(exit_code) {
                        proof {
                            assert(spec_matches(ops@[i as int], *exit_code as int));
                        }
                        return true;
                    }
                    i = i + 1;
                }
                false
            },
            BonesOperator::Intersection(ops) => {
                let mut i: usize = 0;
                while i < ops.len()
                    invariant
                        0 <= i <= ops@.len(),
                        forall|k: int|
                            0 <= k < i ==> spec_matches(#[trigger] ops@[k], *exit_code as int),
                    decreases ops@.len() - i,
                {
                    if !ops[i].matches(exit_code) {
                        proof {
                            assert(!spec_matches(ops@[i as int], *exit_code as int));
                        }
                        return false;
                    }
                    i = i + 1;
                }
                true
            },
        }
    }

    /// Parses one textual operator term. Succeeds exactly on the terms that
    /// denote an operator, and returns the denoted operator.
    #[verifier::loop_isolation(false)]
    pub fn parse_str(raw_operator: &str) -> (r: Result<BonesOperator, String>)
        ensures
            r is Ok <==> exists|op: BonesOperator| op_denotes(raw_operator@, op),
            r is Ok ==> op_denotes(raw_operator@, r->Ok_0),
        decreases raw_operator@.len(),
    {
        let ghost s = raw_operator@;
        match parse_i32(raw_operator) {
            Some(n) => {
                proof {
                    assert(op_denotes(s, BonesOperator::ExitCode(n)));
                }
                return Ok(BonesOperator::ExitCode(n));
            },
            None => {},
        }
        let n_chars = raw_operator.unicode_len();
        if n_chars > 0 && raw_operator.get_char(0) == '!' {
            let tail = raw_operator.substring_char(1, n_chars);
            assert(tail@ == s.skip(1));
            match parse_i32(tail) {
                Some(code) => {
                    proof {
                        assert(op_denotes(s, BonesOperator::NotExitCode(code)));
                    }
                    return Ok(BonesOperator::NotExitCode(code));
                },
                None => {
                    proof {
                        assert(forall|op: BonesOperator| !op_denotes(s, op));
                    }
                    let mut msg =
                        "Couldn't parse exit code as 32-bit integer from `NotExitCode` operator invocation '".to_owned();
                    msg.append(raw_operator);
                    msg.append("'.");
                    return Err(msg);
                },
            }
        }
        if str_eq(raw_operator, "Any") {
            proof {
                assert(op_denotes(s, BonesOperator::Any));
            }
            return Ok(BonesOperator::Any);
        }
        if str_eq(raw_operator, "None") {
            proof {
                assert(op_denotes(s, BonesOperator::Never));
            }
            return Ok(BonesOperator::Never);
        }
        if str_eq(raw_operator, "Success") {
            proof {
                assert(op_denotes(s, BonesOperator::Success));
            }
            return Ok(BonesOperator::Success);
        }
        if str_eq(raw_operator, "Failure") {
            proof {
                assert(op_denotes(s, BonesOperator::Failure));
            }
            return Ok(BonesOperator::Failure);
        }
        if contains_char(raw_operator, '|') {
            let parts = split_char(raw_operator, '|');
            let ghost pdv = parts.deep_view();
            proof {
                lemma_split_count(s, '|');
                lemma_split_part_lt(s, '|');
            }
            let mut ops: Vec<BonesOperator> = Vec::new();
            let mut i: usize = 0;
            while i < parts.len()
                invariant
                    0 <= i <= parts@.len(),
                    pdv == parts.deep_view(),
                    pdv =~= spec_split(s, '|'),
                    pdv.len() == parts@.len(),
                    ops@.len() == i,
                    forall|k: int| 0 <= k < pdv.len() ==> (#[trigger] pdv[k]).len() < s.len(),
                    forall|k: int| 0 <= k < i ==> op_denotes(pdv[k], #[trigger] ops@[k]),
                decreases parts@.len() - i,
            {
                assert(parts@[i as int]@ == pdv[i as int]);
                match Self::parse_str(parts[i].as_str()) {
                    Ok(op) => {
                        ops.push(op);
                    },
                    Err(e) => {
                        proof {
                            assert forall|op: BonesOperator| !op_denotes(s, op) by {
                                if op_denotes(s, op) {
                                    assert(op matches BonesOperator::Union(_));
                                    let inner = op->Union_0;
                                    assert(ops_denote(spec_split(s, '|'), inner@, s.len()));
                                    lemma_ops_denote_index(pdv, inner@, s.len(), i as int);
                                    assert(op_denotes(pdv[i as int], inner@[i as int]));
                                }
                            }
                        }
                        return Err(e);
                    },
                }
                i = i + 1;
            }
            proof {
                lemma_ops_denote_build(pdv, ops@, s.len());
                assert(op_denotes(s, BonesOperator::Union(ops)));
            }
            return Ok(BonesOperator::Union(ops));
        }
        if contains_char(raw_operator, '+') {
            let parts = split_char(raw_operator, '+');
            let ghost pdv = parts.deep_view();
            proof {
                lemma_split_count(s, '+');
                lemma_split_part_lt(s, '+');
            }
            let mut ops: Vec<BonesOperator> = Vec::new();
            let mut i: usize = 0;
            while i < parts.len()
                invariant
                    0 <= i <= parts@.len(),
                    pdv == parts.deep_view(),
                    pdv =~= spec_split(s, '+'),
                    pdv.len() == parts@.len(),
                    ops@.len() == i,
                    forall|k: int| 0 <= k < pdv.len() ==> (#[trigger] pdv[k]).len() < s.len(),
                    forall|k: int| 0 <= k < i ==> op_denotes(pdv[k], #[trigger] ops@[k]),
                decreases parts@.len() - i,
            {
                assert(parts@[i as int]@ == pdv[i as int]);
                match Self::parse_str(parts[i].as_str()) {
                    Ok(op) => {
                        ops.push(op);
                    },
                    Err(e) => {
                        proof {
                            assert forall|op: BonesOperator| !op_denotes(s, op) by {
                                if op_denotes(s, op) {
                                    assert(op matches BonesOperator::Intersection(_));
                                    let inner = op->Intersection_0;
                                    assert(ops_denote(spec_split(s, '+'), inner@, s.len()));
                                    lemma_ops_denote_index(pdv, inner@, s.len(), i as int);
                                    assert(op_denotes(pdv[i as int], inner@[i as int]));
                                }
                            }
                        }
                        return Err(e);
                    },
                }
                i = i + 1;
            }
            proof {
                lemma_ops_denote_build(pdv, ops@, s.len());
                assert(op_denotes(s, BonesOperator::Intersection(ops)));
            }
            return Ok(BonesOperator::Intersection(ops));
        }
        let mut msg = "Unrecognized operator '".to_owned();
        msg.append(raw_operator);
        msg.append("' in Bones directive.");
        Err(msg)
    }

    /// An exact copy of this operator.
    #[verifier::loop_isolation(false)]
    pub fn duplicate(&self) -> (r: BonesOperator)
        ensures
            op_eq(r, *self),
        decreases *self,
    {
        match self {
            BonesOperator::ExitCode(n) => BonesOperator::ExitCode(*n),
            BonesOperator::NotExitCode(n) => BonesOperator::NotExitCode(*n),
            BonesOperator::Any => BonesOperator::Any,
            BonesOperator::Never => BonesOperator::Never,
            BonesOperator::Success => BonesOperator::Success,
            BonesOperator::Failure => BonesOperator::Failure,
            BonesOperator::Union(ops) => {
                let mut out: Vec<BonesOperator> = Vec::new();
                let mut i: usize = 0;
                while i < ops.len()
                    invariant
                        0 <= i <= ops@.len(),
                        out@.len() == i,
                        forall|k: int| 0 <= k < i ==> op_eq(#[trigger] out@[k], ops@[k]),
                    decreases ops@.len() - i,
                {
                    out.push(ops[i].duplicate());
                    i = i + 1;
                }
                BonesOperator::Union(out)
            },
            BonesOperator::Intersection(ops) => {
                let mut out: Vec<BonesOperator> = Vec::new();
                let mut i: usize = 0;
                while i < ops.len()
                    invariant
                        0 <= i <= ops@.len(),
                        out@.len() == i,
                        forall|k: int| 0 <= k < i ==> op_eq(#[trigger] out@[k], ops@[k]),
                    decreases ops@.len() - i,
                {
                    out.push(ops[i].duplicate());
                    i = i + 1;
                }
                BonesOperator::Intersection(out)
            },
        }
    }

    /// Whether two operators are structurally equal.
    #[verifier::loop_isolation(false)]
    pub fn same_as(&self, other: &BonesOperator) -> (r: bool)
        ensures
            r == op_eq(*self, *other),
        decreases *self,
    {
        match (self, other) {
            (BonesOperator::ExitCode(x), BonesOperator::ExitCode(y)) => x == y,
            (BonesOperator::NotExitCode(x), BonesOperator::NotExitCode(y)) => x == y,
            (BonesOperator::Any, BonesOperator::Any) => true,
            (BonesOperator::Never, BonesOperator::Never) => true,
            (BonesOperator::Success, BonesOperator::Success) => true,
            (BonesOperator::Failure, BonesOperator::Failure) => true,
            (BonesOperator::Union(xs), BonesOperator::Union(ys)) => {
                if xs.len() != ys.len() {
                    return false;
                }
                let mut i: usize = 0;
                while i < xs.len()
                    invariant
                        0 <= i <= xs@.len(),
                        xs@.len() == ys@.len(),
                        forall|k: int| 0 <= k < i ==> op_eq(#[trigger] xs@[k], ys@[k]),
                    decreases xs@.len() - i,
                {
                    if !xs[i].same_as(&ys[i]) {
                        return false;
                    }
                    i = i + 1;
                }
                true
            },
            (BonesOperator::Intersection(xs), BonesOperator::Intersection(ys)) => {
                if xs.len() != ys.len() {
                    return false;
                }
                let mut i: usize = 0;
                while i < xs.len()
                    invariant
                        0 <= i <= xs@.len(),
                        xs@.len() == ys@.len(),
                        forall|k: int| 0 <= k < i ==> op_eq(#[trigger] xs@[k], ys@[k]),
                    decreases xs@.len() - i,
                {
                    if !xs[i].same_as(&ys[i]) {
                        return false;
                    }
                    i = i + 1;
                }
                true
            },
            _ => false,
        }
    }
}

} // verus!
