//! The execution runtime: a prepared plan (`Bone`) is run as a step machine.
//! The machine hands out one process invocation at a time; the embedding
//! program spawns it, waits, and feeds the observed exit code back with
//! `on_exit`. Ordered subcommands are driven by the directive tree: after a
//! subcommand finishes, the first branch whose operator matches its exit code
//! decides what runs next.

use vstd::prelude::*;
use vstd::string::*;
use crate::directive::{directive_eq, BonesBranches, BonesDirective};
use crate::ops::{spec_matches, BonesOperator};
use crate::strutil::{replace_all, spec_replace};

verus! {

broadcast use vstd::std_specs::vec::axiom_vec_index_decreases, vstd::seq::axiom_seq_index_decreases;

/// The smallest unit of execution: one fully-interpolated command string and
/// the shell template to run it in. The first shell element is the
/// executable; `{COMMAND}` in any element is replaced by the command string.
#[derive(Debug, Clone, PartialEq, Eq)]
pub struct BonesCore {
    pub cmd: String,
    pub shell: Vec<String>,
}

/// An execution plan: either a straight-line sequence of cores, or a
/// directive together with the plans of the subcommands it steers.
#[derive(Debug, PartialEq, Eq)]
pub enum Bone {
    Simple(Vec<BonesCore>),
    Complex(BonesCommand),
}

/// A directive together with a map from subcommand names to their plans.
#[derive(Debug, PartialEq, Eq)]
pub struct BonesCommand {
    pub cmds: Vec<(String, Bone)>,
    pub directive: BonesDirective,
}

/// Structural equality of cores, over their views.
pub open spec fn core_eq(a: BonesCore, b: BonesCore) -> bool {
    a.cmd@ == b.cmd@ && a.shell.deep_view() == b.shell.deep_view()
}

/// Structural equality of plans.
pub open spec fn bone_eq(a: Bone, b: Bone) -> bool
    decreases a,
{
    match (a, b) {
        (Bone::Simple(x), Bone::Simple(y)) => {
            &&& x@.len() == y@.len()
            &&& forall|i: int| 0 <= i < x@.len() ==> core_eq(#[trigger] x@[i], y@[i])
        },
        (Bone::Complex(p), Bone::Complex(q)) => {
            &&& directive_eq(p.directive, q.directive)
            &&& p.cmds@.len() == q.cmds@.len()
            &&& forall|i: int|
                0 <= i < p.cmds@.len() ==> (#[trigger] p.cmds@[i]).0@ == q.cmds@[i].0@ && bone_eq(
                    p.cmds@[i].1,
                    q.cmds@[i].1,
                )
        },
        _ => false,
    }
}

/// A well-formed core has a non-empty shell.
pub open spec fn core_wf(c: BonesCore) -> bool {
    c.shell@.len() > 0
}

/// A well-formed plan: every `Simple` holds at least one core, every core a
/// non-empty shell.
pub open spec fn bone_wf(b: Bone) -> bool
    decreases b,
{
    match b {
        Bone::Simple(cores) => cores@.len() > 0 && forall|i: int|
            0 <= i < cores@.len() ==> core_wf(#[trigger] cores@[i]),
        Bone::Complex(bc) => forall|i: int|
            0 <= i < bc.cmds@.len() ==> bone_wf((#[trigger] bc.cmds@[i]).1),
    }
}

/// Structural plan equality is reflexive.
pub proof fn lemma_bone_eq_refl(b: Bone)
    ensures
        bone_eq(b, b),
    decreases b,
{
    match b {
        Bone::Simple(x) => {},
        Bone::Complex(p) => {
            crate::directive::lemma_directive_eq_refl(p.directive);
            assert forall|i: int| 0 <= i < p.cmds@.len() implies (#[trigger] p.cmds@[i]).0@
                == p.cmds@[i].0@ && bone_eq(p.cmds@[i].1, p.cmds@[i].1) by {
                lemma_bone_eq_refl(p.cmds@[i].1);
            }
        },
    }
}

/// A plan structurally equal to a well-formed one is well-formed.
pub proof fn lemma_bone_eq_wf(a: Bone, b: Bone)
    requires
        bone_eq(a, b),
        bone_wf(b),
    ensures
        bone_wf(a),
    decreases a,
{
    match (a, b) {
        (Bone::Complex(p), Bone::Complex(q)) => {
            assert forall|i: int| 0 <= i < p.cmds@.len() implies bone_wf(
                (#[trigger] p.cmds@[i]).1,
            ) by {
                lemma_bone_eq_wf(p.cmds@[i].1, q.cmds@[i].1);
            }
        },
        (Bone::Simple(x), Bone::Simple(y)) => {
            assert forall|i: int| 0 <= i < x@.len() implies core_wf(#[trigger] x@[i]) by {
                assert(core_eq(x@[i], y@[i]));
                assert(x@[i].shell.deep_view().len() == x@[i].shell@.len());
                assert(y@[i].shell.deep_view().len() == y@[i].shell@.len());
            }
        },
        _ => {},
    }
}

impl BonesCore {
    /// An exact copy of this core.
    pub fn duplicate(&self) -> (r: BonesCore)
        ensures
            core_eq(r, *self),
            r.shell@.len() == self.shell@.len(),
    {
        let mut shell: Vec<String> = Vec::new();
        let mut i: usize = 0;
        while i < self.shell.len()
            invariant
                0 <= i <= self.shell@.len(),
                shell@.len() == i,
                forall|k: int| 0 <= k < i ==> (#[trigger] shell@[k])@ == self.shell@[k]@,
            decreases self.shell@.len() - i,
        {
            shell.push(self.shell[i].clone());
            i = i + 1;
        }
        let r = BonesCore { cmd: self.cmd.clone(), shell };
        proof {
            assert(r.shell.deep_view() =~= self.shell.deep_view());
        }
        r
    }
}

impl Bone {
    /// An exact structural copy of this plan.
    #[verifier::loop_isolation(false)]
    pub fn duplicate(&self) -> (r: Bone)
        ensures
            bone_eq(r, *self),
            bone_wf(*self) ==> bone_wf(r),
        decreases *self,
    {
        let r = match self {
            Bone::Simple(cores) => {
                let mut out: Vec<BonesCore> = Vec::new();
                let mut i: usize = 0;
                while i < cores.len()
                    invariant
                        0 <= i <= cores@.len(),
                        out@.len() == i,
                        forall|k: int| 0 <= k < i ==> core_eq(#[trigger] out@[k], cores@[k]),
                    decreases cores@.len() - i,
                {
                    out.push(cores[i].duplicate());
                    i = i + 1;
                }
                Bone::Simple(out)
            },
            Bone::Complex(bc) => {
                let mut out: Vec<(String, Bone)> = Vec::new();
                let mut i: usize = 0;
                while i < bc.cmds.len()
                    invariant
                        0 <= i <= bc.cmds@.len(),
                        out@.len() == i,
                        forall|k: int|
                            0 <= k < i ==> (#[trigger] out@[k]).0@ == bc.cmds@[k].0@ && bone_eq(
                                out@[k].1,
                                bc.cmds@[k].1,
                            ),
                    decreases bc.cmds@.len() - i,
                {
                    let name = bc.cmds[i].0.clone();
                    let sub = bc.cmds[i].1.duplicate();
                    out.push((name, sub));
                    i = i + 1;
                }
                Bone::Complex(BonesCommand { cmds: out, directive: bc.directive.duplicate() })
            },
        };
        proof {
            if bone_wf(*self) {
                lemma_bone_eq_wf(r, *self);
            }
        }
        r
    }
}

impl BonesCommand {
    /// Builds a full ordered-subcommand plan from a directive and the plans
    /// of its subcommands.
    pub fn new(directive: &BonesDirective, cmds: Vec<(String, Bone)>) -> (r: Self)
        ensures
            directive_eq(r.directive, *directive),
            r.cmds == cmds,
    {
        BonesCommand { directive: directive.duplicate(), cmds }
    }
}

/// What the embedding program must do next: spawn the given invocation and
/// report its exit code, or stop with the final exit code of the whole plan.
#[derive(Debug, PartialEq, Eq)]
pub enum RunAction {
    Spawn(Invocation),
    Finish(i32),
}

/// A ready process invocation: the executable and its arguments, with
/// `{COMMAND}` already substituted.
#[derive(Debug, PartialEq, Eq, Clone)]
pub struct Invocation {
    pub program: String,
    pub args: Vec<String>,
}

/// The invocation of one core: every shell element with `{COMMAND}` replaced
/// by the command string; the first element is the program, the rest its
/// arguments.
pub fn invocation_of(core: &BonesCore) -> (r: Invocation)
    requires
        core_wf(*core),
    ensures
        invocation_matches(r, *core),
        r.program@ == spec_replace(core.shell@[0]@, "{COMMAND}"@, core.cmd@),
        r.args@.len() == core.shell@.len() - 1,
        forall|i: int|
            0 <= i < r.args@.len() ==> (#[trigger] r.args@[i])@ == spec_replace(
                core.shell@[i + 1]@,
                "{COMMAND}"@,
                core.cmd@,
            ),
{
    proof {
        reveal_strlit("{COMMAND}");
    }
    let program = replace_all(self_str(&core.shell, 0), "{COMMAND}", core.cmd.as_str());
    let mut args: Vec<String> = Vec::new();
    let mut i: usize = 1;
    while i < core.shell.len()
        invariant
            1 <= i <= core.shell@.len(),
            args@.len() == i - 1,
            "{COMMAND}"@.len() > 0,
            forall|k: int|
                0 <= k < i - 1 ==> (#[trigger] args@[k])@ == spec_replace(
                    core.shell@[k + 1]@,
                    "{COMMAND}"@,
                    core.cmd@,
                ),
        decreases core.shell@.len() - i,
    {
        args.push(replace_all(self_str(&core.shell, i), "{COMMAND}", core.cmd.as_str()));
        i = i + 1;
    }
    Invocation { program, args }
}

/// The `i`-th string of `v` as a slice.
fn self_str(v: &Vec<String>, i: usize) -> (r: &str)
    requires
        i < v@.len(),
    ensures
        r@ == v@[i as int]@,
{
    v[i].as_str()
}

/// The position of the first entry of `cmds` named `name`.
#[verifier::loop_isolation(false)]
fn find_cmd(cmds: &Vec<(String, Bone)>, name: &str) -> (r: Option<usize>)
    ensures
        match r {
            Option::Some(j) => {
                &&& 0 <= j < cmds@.len()
                &&& cmds@[j as int].0@ == name@
                &&& forall|k: int| 0 <= k < j ==> (#[trigger] cmds@[k]).0@ != name@
                &&& spec_first_cmd(cmds@, name@, 0) == Some(cmds@[j as int].1)
            },
            Option::None => (forall|k: int|
                0 <= k < cmds@.len() ==> (#[trigger] cmds@[k]).0@ != name@) && spec_first_cmd(
                cmds@,
                name@,
                0,
            ) is None,
        },
{
    let mut i: usize = 0;
    while i < cmds.len()
        invariant
            0 <= i <= cmds@.len(),
            forall|k: int| 0 <= k < i ==> (#[trigger] cmds@[k]).0@ != name@,
            spec_first_cmd(cmds@, name@, 0) == spec_first_cmd(cmds@, name@, i as int),
        decreases cmds@.len() - i,
    {
        if crate::strutil::str_eq(cmds[i].0.as_str(), name) {
            return Some(i);
        }
        i = i + 1;
    }
    None
}

/// The position of the first branch whose operator matches `code`: branches
/// are consulted in order and the first match wins, so a branch is followed
/// only when no earlier branch matches.
#[verifier::loop_isolation(false)]
pub fn find_first_match(branches: &BonesBranches, code: i32) -> (r: Option<usize>)
    ensures
        match r {
            Option::Some(j) => {
                &&& 0 <= j < branches@.len()
                &&& spec_matches(branches@[j as int].0, code as int)
                &&& forall|k: int|
                    0 <= k < j ==> !spec_matches((#[trigger] branches@[k]).0, code as int)
                &&& spec_first_match(branches@, code as int, 0) == Some(j as int)
            },
            Option::None => (forall|k: int|
                0 <= k < branches@.len() ==> !spec_matches(
                    (#[trigger] branches@[k]).0,
                    code as int,
                )) && spec_first_match(branches@, code as int, 0) is None,
        },
{
    let mut i: usize = 0;
    while i < branches.len()
        invariant
            0 <= i <= branches@.len(),
            forall|k: int| 0 <= k < i ==> !spec_matches((#[trigger] branches@[k]).0, code as int),
            spec_first_match(branches@, code as int, 0) == spec_first_match(
                branches@,
                code as int,
                i as int,
            ),
        decreases branches@.len() - i,
    {
        if branches[i].0.matches(&code) {
            return Some(i);
        }
        i = i + 1;
    }
    None
}

/// The engine's reading of a finished child's exit status: the reported
/// code as-is; with no code, 0 for a successful status and 1 for a failed
/// one.
pub fn exit_code_of_status(code: Option<i32>, success: bool) -> (r: i32)
    ensures
        r == (match code {
            Option::Some(c) => c,
            Option::None => if success {
                0
            } else {
                1
            },
        }),
{
    match code {
        Option::Some(c) => c,
        Option::None => {
            if success {
                0
            } else {
                1
            }
        },
    }
}

/// A frame of the step machine. `Stages` runs the cores of a `Simple` plan
/// in order, awaiting the exit of `cores[next - 1]`; `Dispatch` awaits the
/// result of the subcommand a directive named, and holds the branch set and
/// the subcommand map to continue with.
pub enum Frame {
    Stages { cores: Vec<BonesCore>, next: usize },
    Dispatch { cmds: Vec<(String, Bone)>, branches: BonesBranches },
}

/// Well-formedness of a frame.
pub open spec fn frame_wf(f: Frame) -> bool {
    match f {
        Frame::Stages { cores, next } => {
            &&& cores@.len() > 0
            &&& 1 <= next <= cores@.len()
            &&& forall|i: int| 0 <= i < cores@.len() ==> core_wf(#[trigger] cores@[i])
        },
        Frame::Dispatch { cmds, branches } => forall|i: int|
            0 <= i < cmds@.len() ==> bone_wf((#[trigger] cmds@[i]).1),
    }
}

/// The running state of a plan: a stack of frames. Between steps the machine
/// is awaiting the exit code of exactly one spawned invocation.
pub struct BoneRunner {
    pub stack: Vec<Frame>,
}

impl BoneRunner {
    /// Every frame of the machine is well-formed.
    pub open spec fn inv(&self) -> bool {
        forall|i: int| 0 <= i < self.stack@.len() ==> frame_wf(#[trigger] self.stack@[i])
    }
}

/// The first entry of the subcommand map with the given name.
pub open spec fn spec_first_cmd(cmds: Seq<(String, Bone)>, name: Seq<char>, i: int) -> Option<Bone>
    decreases cmds.len() - i,
{
    if i < 0 || i >= cmds.len() {
        None
    } else if cmds[i].0@ == name {
        Some(cmds[i].1)
    } else {
        spec_first_cmd(cmds, name, i + 1)
    }
}

/// The core that starting a plan spawns first: descend through directives,
/// each time into the subcommand its head names, down to a `Simple`
/// sequence, whose first core runs. `None` when a directive names a missing
/// subcommand (or a sequence is empty, which well-formed plans exclude).
pub open spec fn spec_begin(b: Bone) -> Option<BonesCore>
    decreases b, 1int, 0int,
{
    match b {
        Bone::Simple(cores) => {
            if cores@.len() == 0 {
                None
            } else {
                Some(cores@[0])
            }
        },
        Bone::Complex(bc) => spec_begin_in(bc.cmds@, bc.directive.0@, 0),
    }
}

/// `spec_begin` of the subcommand the name selects, scanning from index `i`.
pub open spec fn spec_begin_in(cmds: Seq<(String, Bone)>, name: Seq<char>, i: int) -> Option<
    BonesCore,
>
    decreases cmds, 2int, cmds.len() - i,
{
    if i < 0 || i >= cmds.len() {
        None
    } else if cmds[i].0@ == name {
        spec_begin(cmds[i].1)
    } else {
        spec_begin_in(cmds, name, i + 1)
    }
}

/// The invocation is the one this core denotes: every shell element with
/// `{COMMAND}` replaced by the command string; first element the program.
pub open spec fn invocation_matches(inv: Invocation, core: BonesCore) -> bool {
    &&& core.shell@.len() > 0
    &&& inv.program@ == spec_replace(core.shell@[0]@, "{COMMAND}"@, core.cmd@)
    &&& inv.args@.len() == core.shell@.len() - 1
    &&& forall|i: int|
        0 <= i < inv.args@.len() ==> (#[trigger] inv.args@[i])@ == spec_replace(
            core.shell@[i + 1]@,
            "{COMMAND}"@,
            core.cmd@,
        )
}

/// Equal cores (by views) denote the same invocations.
pub proof fn lemma_core_eq_invocation(inv: Invocation, a: BonesCore, b: BonesCore)
    requires
        invocation_matches(inv, a),
        core_eq(a, b),
    ensures
        invocation_matches(inv, b),
{
    assert(a.shell.deep_view().len() == a.shell@.len());
    assert(b.shell.deep_view().len() == b.shell@.len());
    assert(forall|i: int|
        0 <= i < a.shell@.len() ==> (#[trigger] a.shell@[i])@ == a.shell.deep_view()[i]);
    assert(forall|i: int|
        0 <= i < b.shell@.len() ==> (#[trigger] b.shell@[i])@ == b.shell.deep_view()[i]);
}

proof fn lemma_bone_eq_begin_in(
    a: Seq<(String, Bone)>,
    b: Seq<(String, Bone)>,
    name: Seq<char>,
    i: int,
)
    requires
        a.len() == b.len(),
        forall|k: int| 0 <= k < a.len() ==> (#[trigger] a[k]).0@ == b[k].0@ && bone_eq(a[k].1, b[k].1),
    ensures
        (spec_begin_in(a, name, i) is Some <==> spec_begin_in(b, name, i) is Some),
        spec_begin_in(a, name, i) matches Some(ca) ==> core_eq(
            ca,
            spec_begin_in(b, name, i)->Some_0,
        ),
    decreases a, 2int, a.len() - i,
{
    if 0 <= i < a.len() {
        if a[i].0@ == name {
            lemma_bone_eq_begin(a[i].1, b[i].1);
        } else {
            lemma_bone_eq_begin_in(a, b, name, i + 1);
        }
    }
}

/// Structurally equal plans start with equal cores, or both fail to start.
pub proof fn lemma_bone_eq_begin(a: Bone, b: Bone)
    requires
        bone_eq(a, b),
    ensures
        (spec_begin(a) is Some <==> spec_begin(b) is Some),
        spec_begin(a) matches Some(ca) ==> core_eq(ca, spec_begin(b)->Some_0),
    decreases a, 1int, 0int,
{
    match (a, b) {
        (Bone::Complex(p), Bone::Complex(q)) => {
            assert(p.directive.0@ == q.directive.0@);
            assert forall|k: int| 0 <= k < p.cmds@.len() implies (#[trigger] p.cmds@[k]).0@
                == q.cmds@[k].0@ && bone_eq(p.cmds@[k].1, q.cmds@[k].1) by {}
            lemma_bone_eq_begin_in(p.cmds@, q.cmds@, p.directive.0@, 0);
        },
        _ => {},
    }
}

/// What delivering a finished subcommand's exit code through the frames
/// decides: the plan is finished with that code, or the first matching
/// branch of some dispatch frame launches its nested directive against that
/// frame's subcommand map, with the frames below it remaining.
pub enum Delivery {
    Finished(i32),
    Launch(Seq<Frame>, Vec<(String, Bone)>, BonesDirective),
}

/// The first branch at or after `i` whose operator accepts the code.
pub open spec fn spec_first_match(
    branches: Seq<(BonesOperator, Option<BonesDirective>)>,
    code: int,
    i: int,
) -> Option<int>
    decreases branches.len() - i,
{
    if i < 0 || i >= branches.len() {
        None
    } else if spec_matches(branches[i].0, code) {
        Some(i)
    } else {
        spec_first_match(branches, code, i + 1)
    }
}

/// Delivers the exit code `v` through the frame stack, top first: a dispatch
/// frame whose first matching branch has a nested directive launches it;
/// a branch without one, or no matching branch, passes the code on
/// unchanged; an empty stack finishes with the code.
pub open spec fn spec_deliver(stack: Seq<Frame>, v: i32) -> Delivery
    decreases stack.len(),
{
    if stack.len() == 0 {
        Delivery::Finished(v)
    } else {
        match stack.last() {
            Frame::Stages { cores, next } => spec_deliver(stack.drop_last(), v),
            Frame::Dispatch { cmds, branches } => {
                match spec_first_match(branches@, v as int, 0) {
                    None => spec_deliver(stack.drop_last(), v),
                    Some(j) => match branches@[j].1 {
                        Option::None => spec_deliver(stack.drop_last(), v),
                        Option::Some(d) => Delivery::Launch(stack.drop_last(), cmds, d),
                    },
                }
            },
        }
    }
}

/// Delivery never alters the code it carries: a finished delivery finishes
/// with exactly the code that was fed in.
pub proof fn lemma_deliver_keeps_code(stack: Seq<Frame>, v: i32)
    requires
        spec_deliver(stack, v) matches Delivery::Finished(_),
    ensures
        spec_deliver(stack, v)->Finished_0 == v,
    decreases stack.len(),
{
    if stack.len() > 0 {
        match stack.last() {
            Frame::Stages { cores, next } => {
                lemma_deliver_keeps_code(stack.drop_last(), v);
            },
            Frame::Dispatch { cmds, branches } => {
                match spec_first_match(branches@, v as int, 0) {
                    None => {
                        lemma_deliver_keeps_code(stack.drop_last(), v);
                    },
                    Some(j) => {
                        match branches@[j].1 {
                            Option::None => {
                                lemma_deliver_keeps_code(stack.drop_last(), v);
                            },
                            Option::Some(d) => {},
                        }
                    },
                }
            },
        }
    }
}

/// Whether the top frame is a stage sequence that continues after the code:
/// a zero exit with stages remaining.
pub open spec fn stage_continues(st: Seq<Frame>, code: i32) -> bool {
    st.len() > 0 && (st.last() matches Frame::Stages { cores, next }
        && code == 0 && (next as int) < cores@.len())
}

/// Elementwise view equality of subcommand maps.
pub open spec fn cmds_view_eq(a: Seq<(String, Bone)>, b: Seq<(String, Bone)>) -> bool {
    &&& a.len() == b.len()
    &&& forall|i: int| 0 <= i < a.len() ==> (#[trigger] a[i]).0@ == b[i].0@ && bone_eq(a[i].1, b[i].1)
}

/// What launching the nested directive `d` against `cmds` on top of the
/// remaining frames `rem` guarantees of the result and the new stack: the
/// frames below are untouched, the new dispatch frame carries `d`'s branches
/// and an equivalent map, the named plan's first core is spawned, and the
/// launch fails exactly when the name is missing or the named plan cannot
/// start.
pub open spec fn launch_clause(
    rem: Seq<Frame>,
    cmds: Vec<(String, Bone)>,
    d: BonesDirective,
    r: Result<RunAction, String>,
    new_st: Seq<Frame>,
) -> bool {
    &&& new_st.len() >= rem.len()
    &&& forall|i: int| 0 <= i < rem.len() ==> new_st[i] == rem[i]
    &&& match spec_first_cmd(cmds@, d.0@, 0) {
        Option::None => r is Err && new_st.len() == rem.len(),
        Option::Some(sub) => {
            &&& (r is Ok <==> spec_begin(sub) is Some)
            &&& (r matches Ok(act) ==> (act matches RunAction::Spawn(inv) && invocation_matches(
                inv,
                spec_begin(sub)->Some_0,
            )))
            &&& new_st.len() > rem.len()
            &&& (new_st[rem.len() as int] matches Frame::Dispatch { cmds: c2, branches: b2 }
                && b2 == d.1 && cmds_view_eq(c2@, cmds@))
        },
    }
}

/// What delivering `v` through the frames `st` guarantees of the result and
/// the new stack.
pub open spec fn deliver_clause(
    st: Seq<Frame>,
    v: i32,
    r: Result<RunAction, String>,
    new_st: Seq<Frame>,
) -> bool {
    match spec_deliver(st, v) {
        Delivery::Finished(u) => r == Ok::<RunAction, String>(RunAction::Finish(u)) && new_st.len() == 0,
        Delivery::Launch(rem, cmds, d) => launch_clause(rem, cmds, d, r, new_st),
    }
}

/// `spec_begin_in` scanned from the first matching name is `spec_begin` of
/// the found subcommand.
proof fn lemma_begin_in_unfold(cmds: Seq<(String, Bone)>, name: Seq<char>, i: int)
    ensures
        spec_begin_in(cmds, name, i) == (match spec_first_cmd(cmds, name, i) {
            Option::Some(sub) => spec_begin(sub),
            Option::None => None,
        }),
    decreases cmds.len() - i,
{
    if 0 <= i < cmds.len() && cmds[i].0@ != name {
        lemma_begin_in_unfold(cmds, name, i + 1);
    }
}

/// Starts the given plan: pushes the frames that running it requires and
/// returns the first invocation to spawn — the first core reached by
/// descending through the directives' heads (`spec_begin`). Fails exactly
/// when that descent hits a directive naming a missing subcommand. Frames
/// already on the stack are untouched.
#[verifier::loop_isolation(false)]
fn begin_bone(stack: &mut Vec<Frame>, bone: Bone) -> (r: Result<RunAction, String>)
    requires
        bone_wf(bone),
        forall|i: int| 0 <= i < old(stack)@.len() ==> frame_wf(#[trigger] old(stack)@[i]),
    ensures
        forall|i: int| 0 <= i < final(stack)@.len() ==> frame_wf(#[trigger] final(stack)@[i]),
        final(stack)@.len() >= old(stack)@.len(),
        forall|i: int| 0 <= i < old(stack)@.len() ==> final(stack)@[i] == old(stack)@[i],
        r is Ok <==> spec_begin(bone) is Some,
        r matches Ok(act) ==> (act matches RunAction::Spawn(inv) && invocation_matches(
            inv,
            spec_begin(bone)->Some_0,
        )),
{
    let mut current: Bone = bone;
    loop
        invariant
            bone_wf(current),
            forall|i: int| 0 <= i < stack@.len() ==> frame_wf(#[trigger] stack@[i]),
            stack@.len() >= old(stack)@.len(),
            forall|i: int| 0 <= i < old(stack)@.len() ==> stack@[i] == old(stack)@[i],
            spec_begin(bone) == spec_begin(current),
        decreases current,
    {
        let ghost cur0 = current;
        match current {
            Bone::Simple(cores) => {
                proof {
                    assert(spec_begin(cur0) == Some(cores@[0]));
                }
                let act = RunAction::Spawn(invocation_of(&cores[0]));
                stack.push(Frame::Stages { cores, next: 1 });
                return Ok(act);
            },
            Bone::Complex(bc) => {
                let ghost gcmds = bc.cmds@;
                let ghost ghead = bc.directive.0@;
                proof {
                    assert(spec_begin(cur0) == spec_begin_in(gcmds, ghead, 0));
                    lemma_begin_in_unfold(gcmds, ghead, 0);
                }
                let BonesCommand { mut cmds, directive } = bc;
                let BonesDirective(head, branches) = directive;
                let j = match find_cmd(&cmds, head.as_str()) {
                    Some(j) => j,
                    None => {
                        proof {
                            assert(spec_begin(bone) is None);
                        }
                        return Err(
                            "Error in executing Bones directive: a named subcommand was not found. This is probably a typo in your Bonnie configuration.".to_owned(),
                        );
                    },
                };
                proof {
                    assert(spec_first_cmd(gcmds, ghead, 0) == Some(gcmds[j as int].1));
                }
                let (sub_name, sub_bone) = cmds.remove(j);
                let sub_copy = sub_bone.duplicate();
                cmds.insert(j, (sub_name, sub_copy));
                proof {
                    assert(sub_bone == gcmds[j as int].1);
                    assert(spec_begin(cur0) == spec_begin(sub_bone));
                    assert(forall|i: int|
                        0 <= i < cmds@.len() ==> bone_wf((#[trigger] cmds@[i]).1));
                }
                stack.push(Frame::Dispatch { cmds, branches });
                current = sub_bone;
            },
        }
    }
}

impl Bone {
    /// Begins running this plan. Returns the machine and the first action:
    /// spawning the plan's first core — the one reached by descending
    /// through the directives' heads (`spec_begin`). Fails exactly when that
    /// descent hits a directive naming a missing subcommand.
    pub fn run(&self) -> (r: Result<(BoneRunner, RunAction), String>)
        requires
            bone_wf(*self),
        ensures
            r is Ok <==> spec_begin(*self) is Some,
            r matches Ok(p) ==> p.0.inv() && (p.1 matches RunAction::Spawn(inv)
                && invocation_matches(inv, spec_begin(*self)->Some_0)),
    {
        let mut stack: Vec<Frame> = Vec::new();
        let copy = self.duplicate();
        proof {
            lemma_bone_eq_begin(copy, *self);
        }
        match begin_bone(&mut stack, copy) {
            Ok(act) => {
                proof {
                    if spec_begin(copy) is Some && act matches RunAction::Spawn(_) {
                        lemma_core_eq_invocation(
                            act->Spawn_0,
                            spec_begin(copy)->Some_0,
                            spec_begin(*self)->Some_0,
                        );
                    }
                }
                Ok((BoneRunner { stack }, act))
            },
            Err(e) => Err(e),
        }
    }
}

impl BoneRunner {
    /// Advances the machine after the spawned invocation exited with `code`.
    ///
    /// The contract pins every step. A stage sequence whose last core exited
    /// 0 with cores remaining spawns its next core and advances in place; a
    /// non-zero code, or the end of the sequence, delivers the code through
    /// the dispatch frames below (`spec_deliver`): the first branch whose
    /// operator matches decides — a nested directive is launched against
    /// that frame's subcommand map, a leaf branch or no match passes the
    /// code on unchanged — and `Finish` is returned, carrying exactly the
    /// code fed in, precisely when no frame consumes it.
    #[verifier::loop_isolation(false)]
    pub fn on_exit(&mut self, code: i32) -> (r: Result<RunAction, String>)
        requires
            old(self).inv(),
        ensures
            final(self).inv(),
            r matches Ok(act) ==> (act matches RunAction::Finish(v) ==> v == code),
            old(self).stack@.len() == 0 ==> r == Ok::<RunAction, String>(RunAction::Finish(code))
                && final(self).stack@.len() == 0,
            ({
                let st = old(self).stack@;
                st.len() > 0 ==> match st.last() {
                    Frame::Stages { cores, next } => {
                        if code == 0 && (next as int) < cores@.len() {
                            &&& (r matches Ok(act) && act matches RunAction::Spawn(inv)
                                && invocation_matches(inv, cores@[next as int]))
                            &&& final(self).stack@.len() == st.len()
                            &&& (forall|i: int|
                                0 <= i < st.len() - 1 ==> final(self).stack@[i] == st[i])
                            &&& (final(self).stack@.last() matches Frame::Stages {
                                cores: c2,
                                next: n2,
                            } && c2 == cores && n2 == next + 1)
                        } else {
                            deliver_clause(st.drop_last(), code, r, final(self).stack@)
                        }
                    },
                    Frame::Dispatch { cmds, branches } => deliver_clause(
                        st,
                        code,
                        r,
                        final(self).stack@,
                    ),
                }
            }),
    {
        let ghost st0 = old(self).stack@;
        // Stage handling: the top frame, if it is a core sequence, either
        // continues with its next core (after a success) or finishes.
        match self.stack.pop() {
            Option::None => {
                return Ok(RunAction::Finish(code));
            },
            Option::Some(top) => {
                match top {
                    Frame::Stages { cores, next } => {
                        if code == 0 && next < cores.len() {
                            let act = RunAction::Spawn(invocation_of(&cores[next]));
                            let continued = Frame::Stages { cores, next: next + 1 };
                            self.stack.push(continued);
                            proof {
                                assert(self.stack@.len() == st0.len());
                                assert(forall|i: int|
                                    0 <= i < st0.len() - 1 ==> self.stack@[i] == st0[i]);
                            }
                            return Ok(act);
                        }
                        // sequence over: deliver `code` (zero after the last
                        // stage, or the first failing code)
                    },
                    Frame::Dispatch { cmds, branches } => {
                        // a directive head cannot itself be awaiting a spawn;
                        // put the frame back and deliver the code through it
                        self.stack.push(Frame::Dispatch { cmds, branches });
                        proof {
                            assert(self.stack@ =~= st0);
                        }
                    },
                }
            },
        }
        let ghost target = self.stack@;
        let v: i32 = code;
        // Deliver the finished subcommand's code through the dispatch frames.
        loop
            invariant
                self.inv(),
                spec_deliver(target, code) == spec_deliver(self.stack@, code),
            decreases self.stack@.len(),
        {
            let ghost before = self.stack@;
            match self.stack.pop() {
                Option::None => {
                    return Ok(RunAction::Finish(v));
                },
                Option::Some(frame) => {
                    match frame {
                        Frame::Stages { cores: _, next: _ } => {
                            // unreachable in a run started by `Bone::run`: a
                            // core sequence never sits below the awaited
                            // frame; deliver past it
                        },
                        Frame::Dispatch { cmds, mut branches } => {
                            let ghost bvec0 = branches;
                            let ghost branches0 = branches@;
                            proof {
                                assert(before.last() == Frame::Dispatch { cmds, branches: bvec0 });
                            }
                            match find_first_match(&branches, v) {
                                Option::None => {
                                    // no branch matched: the code stands
                                },
                                Option::Some(jm) => {
                                    let (_op, val) = branches.remove(jm);
                                    proof {
                                        assert(val == branches0[jm as int].1);
                                    }
                                    match val {
                                        Option::None => {
                                            // matched branch with no nested
                                            // directive: the code stands
                                        },
                                        Option::Some(nested) => {
                                            proof {
                                                assert(spec_deliver(before, code)
                                                    == Delivery::Launch(
                                                    before.drop_last(),
                                                    cmds,
                                                    nested,
                                                ));
                                            }
                                            return self.start_directive(cmds, nested);
                                        },
                                    }
                                },
                            }
                        },
                    }
                },
            }
        }
    }

    /// Starts a nested directive against the subcommand map of its dispatch
    /// frame: pushes the new dispatch frame and begins the named plan
    /// (`launch_clause`): the frames below stay, the pushed frame carries the
    /// directive's branches and an equivalent map, and the named plan's
    /// first core is spawned; the launch fails exactly when the directive
    /// names a missing subcommand or the named plan cannot start.
    fn start_directive(&mut self, cmds: Vec<(String, Bone)>, nested: BonesDirective) -> (r: Result<
        RunAction,
        String,
    >)
        requires
            old(self).inv(),
            forall|i: int| 0 <= i < cmds@.len() ==> bone_wf((#[trigger] cmds@[i]).1),
        ensures
            final(self).inv(),
            launch_clause(old(self).stack@, cmds, nested, r, final(self).stack@),
            r matches Ok(act) ==> act matches RunAction::Spawn(_),
    {
        let ghost rem = old(self).stack@;
        let ghost cmds0 = cmds@;
        let mut cmds = cmds;
        let ghost head0 = nested.0@;
        let ghost nbranches = nested.1;
        let BonesDirective(head, branches) = nested;
        let j = match find_cmd(&cmds, head.as_str()) {
            Some(j) => j,
            None => {
                return Err(
                    "Error in executing Bones directive: a named subcommand was not found. This is probably a typo in your Bonnie configuration.".to_owned(),
                );
            },
        };
        let ghost sub0 = cmds0[j as int].1;
        let (sub_name, sub_bone) = cmds.remove(j);
        let sub_copy = sub_bone.duplicate();
        cmds.insert(j, (sub_name, sub_copy));
        proof {
            assert(sub_bone == sub0);
            assert(cmds_view_eq(cmds@, cmds0)) by {
                assert forall|i: int| 0 <= i < cmds@.len() implies (#[trigger] cmds@[i]).0@
                    == cmds0[i].0@ && bone_eq(cmds@[i].1, cmds0[i].1) by {
                    if i == j {
                    } else {
                        assert(cmds@[i] == cmds0[i]);
                        lemma_bone_eq_refl(cmds@[i].1);
                    }
                }
            }
            assert(forall|i: int| 0 <= i < cmds@.len() ==> bone_wf((#[trigger] cmds@[i]).1));
        }
        self.stack.push(Frame::Dispatch { cmds, branches });
        proof {
            assert(self.stack@[rem.len() as int] matches Frame::Dispatch { cmds: c2, branches: b2 }
                && b2 == nbranches);
        }
        begin_bone(&mut self.stack, sub_bone)
    }
}

} // verus!
