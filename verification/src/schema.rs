//! The final configuration schema: the normalized, fully explicit form that
//! the runtime works on, together with the command resolver and the plan
//! builder (`prepare`).

use vstd::prelude::*;
use vstd::string::*;
use crate::bones::{bone_wf, core_wf, Bone, BonesCommand, BonesCore};
use crate::directive::BonesDirective;
use crate::interpolate::{
    interpolate_env_vars, interpolate_remaining_arguments, interpolate_specific_args,
    remaining_args, spec_interp_env, spec_stage_cmd,
};
use crate::strutil::{contains_seq, contains_sub, dup_string_vec, str_eq, u64_to_string};

verus! {

broadcast use vstd::std_specs::vec::axiom_vec_index_decreases, vstd::seq::axiom_seq_index_decreases;

/// A shell template: the executable followed by its arguments, one of which
/// holds the `{COMMAND}` substitution point.
pub type Shell = Vec<String>;

/// The scripts of a configuration, in a stable order with unique names.
pub type Scripts = Vec<(String, Command)>;

/// An environment snapshot: resolved variable values, handed to `prepare` so
/// that interpolation is a pure function of its inputs.
pub type EnvMap = Vec<(String, String)>;

/// The shell table used when a command does not name its own shell: a
/// required generic shell and per-target overrides.
#[derive(Debug, PartialEq, Eq)]
pub struct DefaultShell {
    pub generic: Shell,
    pub targets: Vec<(String, Shell)>,
}

/// The lowest level of a command: the command strings to run and an optional
/// shell override.
#[derive(Debug, PartialEq, Eq)]
pub struct CommandCore {
    pub execs: Vec<String>,
    pub shell: Option<Shell>,
}

/// Per-target command variants: the target's entry is used when present,
/// else `generic`.
#[derive(Debug, PartialEq, Eq)]
pub struct CommandWrapper {
    pub generic: CommandCore,
    pub targets: Vec<(String, CommandCore)>,
}

/// A node of the script tree.
#[derive(Debug, PartialEq, Eq)]
pub struct Command {
    pub args: Vec<String>,
    pub env_vars: Vec<String>,
    pub subcommands: Option<Scripts>,
    pub order: Option<BonesDirective>,
    pub cmd: Option<CommandWrapper>,
}

/// The root of the final schema.
#[derive(Debug, PartialEq, Eq)]
pub struct Config {
    pub default_shell: DefaultShell,
    pub scripts: Scripts,
    pub env_files: Vec<String>,
    pub version: String,
}

/// How many shell elements contain the `{COMMAND}` substitution point.
pub open spec fn shell_slot_count(sh: Seq<Seq<char>>) -> int
    decreases sh.len(),
{
    if sh.len() == 0 {
        0
    } else {
        shell_slot_count(sh.drop_last()) + if contains_seq(sh.last(), "{COMMAND}"@) {
            1int
        } else {
            0int
        }
    }
}

/// A well-formed shell: at least two elements, exactly one of which contains
/// `{COMMAND}`.
pub open spec fn shell_wf(sh: Seq<Seq<char>>) -> bool {
    sh.len() >= 2 && shell_slot_count(sh) == 1
}

/// A well-formed default-shell table.
pub open spec fn default_shell_wf(ds: DefaultShell) -> bool {
    &&& shell_wf(ds.generic.deep_view())
    &&& forall|i: int|
        0 <= i < ds.targets@.len() ==> shell_wf((#[trigger] ds.targets@[i]).1.deep_view())
}

/// A well-formed command core: at least one command string, and a well-formed
/// shell when one is named.
pub open spec fn ccore_wf(c: CommandCore) -> bool {
    &&& c.execs@.len() >= 1
    &&& match c.shell {
        Some(sh) => shell_wf(sh.deep_view()),
        None => true,
    }
}

/// A well-formed command wrapper: every variant is well-formed.
pub open spec fn wrapper_wf(w: CommandWrapper) -> bool {
    &&& ccore_wf(w.generic)
    &&& forall|i: int| 0 <= i < w.targets@.len() ==> ccore_wf((#[trigger] w.targets@[i]).1)
}

/// The invariants that finalization establishes on every node, with
/// `order_above` recording whether the parent carries an `order` directive:
/// a node without subcommands must carry `cmd` and no `order`; `order` and
/// `cmd` are mutually exclusive; a node with subcommands but no `order`
/// declares no `args`; subcommand-bearing descendants of an ordered node
/// carry `order` themselves; subscripts of an ordered node declare no
/// `args`.
pub open spec fn command_wf(c: Command, order_above: bool) -> bool
    decreases c,
{
    &&& match c.cmd {
        Some(w) => wrapper_wf(w),
        None => true,
    }
    &&& (order_above ==> c.args@.len() == 0)
    &&& match c.subcommands {
        None => c.cmd is Some && c.order is None,
        Some(subs) => {
            &&& (c.order is Some ==> c.cmd is None)
            &&& (c.order is None ==> c.args@.len() == 0)
            &&& (order_above ==> c.order is Some)
            &&& forall|i: int|
                0 <= i < subs@.len() ==> command_wf((#[trigger] subs@[i]).1, c.order is Some)
        },
    }
}

/// Well-formedness of a whole script table. Script names come from TOML
/// tables, whose keys are unique; lookups take the first entry with a name,
/// so uniqueness is not itself an invariant the runtime relies on.
pub open spec fn scripts_wf(ss: Seq<(String, Command)>) -> bool {
    forall|i: int| 0 <= i < ss.len() ==> command_wf((#[trigger] ss[i]).1, false)
}

/// Well-formedness of a final configuration.
pub open spec fn config_wf(c: Config) -> bool {
    default_shell_wf(c.default_shell) && scripts_wf(c.scripts@)
}

/// The first script with the given name.
pub open spec fn spec_lookup_script(ss: Seq<(String, Command)>, name: Seq<char>) -> Option<Command>
    decreases ss.len(),
{
    if ss.len() == 0 {
        None
    } else if ss[0].0@ == name {
        Some(ss[0].1)
    } else {
        spec_lookup_script(ss.skip(1), name)
    }
}

/// The error for a walk that ran out of arguments before naming a command.
pub open spec fn no_name_message(first: bool) -> Seq<char> {
    if first {
        "Please provide a command to run."@
    } else {
        "Please provide a subcommand to run."@
    }
}

/// The error for a name not found at its level of the script tree.
pub open spec fn unknown_message(name: Seq<char>, first: bool) -> Seq<char> {
    (if first {
        "Unknown command '"@
    } else {
        "Unknown subcommand '"@
    }) + name + "'."@
}

/// What resolving an argument vector against a script table yields: no
/// argument left to name a command, an unknown name, or the target command
/// with its canonical name and the arguments left for interpolation. The
/// boolean records whether the walk was still at the top level, which the
/// wording of the error messages reflects.
pub enum Resolution {
    NoName(bool),
    Unknown(Seq<char>, bool),
    Found(Command, Seq<char>, Seq<Seq<char>>),
}

/// The resolver: walk the arguments through the script tree. The head
/// argument names a node; a node with both `cmd` and subcommands is itself
/// the target when no arguments remain; a node with subcommands and no
/// `order` is walked into; any other node is the target, the remaining
/// arguments becoming the interpolation arguments.
pub open spec fn spec_resolve(
    scripts: Seq<(String, Command)>,
    args: Seq<Seq<char>>,
    first: bool,
) -> Resolution
    decreases args.len(),
{
    if args.len() == 0 {
        Resolution::NoName(first)
    } else {
        match spec_lookup_script(scripts, args[0]) {
            None => Resolution::Unknown(args[0], first),
            Some(c) => {
                if c.subcommands is Some && c.cmd is Some && args.len() == 1 {
                    Resolution::Found(c, args[0], args.skip(1))
                } else if c.subcommands is Some && c.order is None {
                    spec_resolve(c.subcommands->Some_0@, args.skip(1), false)
                } else {
                    Resolution::Found(c, args[0], args.skip(1))
                }
            },
        }
    }
}

/// The first script with the given name, as a reference.
#[verifier::loop_isolation(false)]
fn lookup_script<'a>(scripts: &'a Scripts, name: &str) -> (r: Option<&'a Command>)
    ensures
        match r {
            Option::Some(c) => spec_lookup_script(scripts@, name@) == Some(*c),
            Option::None => spec_lookup_script(scripts@, name@) is None,
        },
{
    proof {
        assert(scripts@.skip(0) =~= scripts@);
    }
    let mut i: usize = 0;
    while i < scripts.len()
        invariant
            0 <= i <= scripts@.len(),
            spec_lookup_script(scripts@, name@) == spec_lookup_script(
                scripts@.skip(i as int),
                name@,
            ),
        decreases scripts@.len() - i,
    {
        proof {
            assert(scripts@.skip(i as int)[0] == scripts@[i as int]);
            assert(scripts@.skip(i as int).skip(1) =~= scripts@.skip(i + 1));
        }
        if str_eq(scripts[i].0.as_str(), name) {
            return Some(&scripts[i].1);
        }
        i = i + 1;
    }
    proof {
        assert(scripts@.skip(scripts@.len() as int) =~= Seq::<(String, Command)>::empty());
    }
    None
}

/// The recursive walk behind `get_command_for_args`.
#[verifier::loop_isolation(false)]
fn resolve_in<'a>(scripts: &'a Scripts, args: &Vec<String>, from: usize, first_time: bool) -> (r:
    Result<(&'a Command, String, Vec<String>), String>)
    requires
        from <= args@.len(),
    ensures
        match spec_resolve(scripts@, args.deep_view().skip(from as int), first_time) {
            Resolution::Found(c, nm, rest) => {
                &&& r matches Ok(t)
                &&& *t.0 == c
                &&& t.1@ == nm
                &&& t.2.deep_view() == rest
            },
            Resolution::NoName(ft) => r matches Err(m) && m@ == no_name_message(ft),
            Resolution::Unknown(nm, ft) => r matches Err(m) && m@ == unknown_message(nm, ft),
        },
    decreases args@.len() - from,
{
    let ghost rest_args = args.deep_view().skip(from as int);
    if from >= args.len() {
        proof {
            assert(rest_args.len() == 0);
        }
        if first_time {
            return Err("Please provide a command to run.".to_owned());
        } else {
            return Err("Please provide a subcommand to run.".to_owned());
        }
    }
    proof {
        assert(rest_args[0] == args.deep_view()[from as int]);
        assert(args@[from as int]@ == args.deep_view()[from as int]);
    }
    let head = args[from].as_str();
    let command = match lookup_script(scripts, head) {
        Some(c) => c,
        None => {
            let mut msg = if first_time {
                "Unknown command '".to_owned()
            } else {
                "Unknown subcommand '".to_owned()
            };
            msg.append(head);
            msg.append("'.");
            return Err(msg);
        },
    };
    let has_more = from + 1 < args.len();
    if command.subcommands.is_some() && command.cmd.is_some() && !has_more {
        let rest = remaining_args(from + 1, args);
        proof {
            assert(rest.deep_view() =~= rest_args.skip(1));
        }
        return Ok((command, args[from].clone(), rest));
    }
    if command.subcommands.is_some() && command.order.is_none() {
        let subs = match &command.subcommands {
            Some(subs) => subs,
            None => {
                proof {
                    assert(false);
                }
                return Err(String::new());
            },
        };
        proof {
            assert(rest_args.skip(1) =~= args.deep_view().skip(from + 1));
        }
        return resolve_in(subs, args, from + 1, false);
    }
    let rest = remaining_args(from + 1, args);
    proof {
        assert(rest.deep_view() =~= rest_args.skip(1));
    }
    Ok((command, args[from].clone(), rest))
}

impl Config {
    /// Resolves the command the argument vector names: walks the arguments
    /// through the script tree and returns the target command, its canonical
    /// name, and the arguments left over for interpolation. Fails when no
    /// argument names a command, or a name is unknown at its level.
    pub fn get_command_for_args(&self, args: &Vec<String>) -> (r: Result<
        (&Command, String, Vec<String>),
        String,
    >)
        ensures
            match spec_resolve(self.scripts@, args.deep_view(), true) {
                Resolution::Found(c, nm, rest) => {
                    &&& r matches Ok(t)
                    &&& *t.0 == c
                    &&& t.1@ == nm
                    &&& t.2.deep_view() == rest
                },
                Resolution::NoName(ft) => r matches Err(m) && m@ == no_name_message(ft),
                Resolution::Unknown(nm, ft) => r matches Err(m) && m@ == unknown_message(nm, ft),
            },
    {
        proof {
            assert(args.deep_view().skip(0) =~= args.deep_view());
        }
        resolve_in(&self.scripts, args, 0, true)
    }
}

/// The first per-target command core for the given target.
pub open spec fn spec_lookup_core(ts: Seq<(String, CommandCore)>, t: Seq<char>) -> Option<
    CommandCore,
>
    decreases ts.len(),
{
    if ts.len() == 0 {
        None
    } else if ts[0].0@ == t {
        Some(ts[0].1)
    } else {
        spec_lookup_core(ts.skip(1), t)
    }
}

/// The first per-target shell for the given target.
pub open spec fn spec_lookup_shell(ts: Seq<(String, Shell)>, t: Seq<char>) -> Option<Shell>
    decreases ts.len(),
{
    if ts.len() == 0 {
        None
    } else if ts[0].0@ == t {
        Some(ts[0].1)
    } else {
        spec_lookup_shell(ts.skip(1), t)
    }
}

/// The command core a wrapper selects for a target: the target's own entry,
/// else the generic one.
pub open spec fn spec_select_core(w: CommandWrapper, target: Seq<char>) -> CommandCore {
    match spec_lookup_core(w.targets@, target) {
        Some(cc) => cc,
        None => w.generic,
    }
}

/// The shell a core runs in: its own, else the default table's entry for the
/// target, else the default generic shell.
pub open spec fn spec_select_shell(cc: CommandCore, ds: DefaultShell, target: Seq<char>) -> Shell {
    match cc.shell {
        Some(sh) => sh,
        None => match spec_lookup_shell(ds.targets@, target) {
            Some(sh) => sh,
            None => ds.generic,
        },
    }
}

/// Whether preparing the node succeeds: the target shape must carry `cmd`
/// (or be an ordered node), enough arguments must be given, and every
/// declared environment variable of every reached stage must be in the
/// snapshot. `top` is `None` at the invoked node and carries the inherited
/// argument list inside an ordered group.
pub open spec fn spec_prepare_ok(
    c: Command,
    prog: Seq<Seq<char>>,
    target: Seq<char>,
    env: Seq<(String, String)>,
    top: Option<Seq<Seq<char>>>,
) -> bool
    decreases c,
{
    let eff = match top {
        Some(a) => a,
        None => c.args.deep_view(),
    };
    if c.subcommands is None || c.cmd is Some {
        &&& c.cmd is Some
        &&& eff.len() <= prog.len()
        &&& forall|i: int|
            0 <= i < spec_select_core(c.cmd->Some_0, target).execs@.len() ==> spec_interp_env(
                (#[trigger] spec_select_core(c.cmd->Some_0, target).execs@[i])@,
                c.env_vars.deep_view(),
                env,
            ) is Ok
    } else if c.order is Some && c.subcommands is Some {
        &&& (top is Some || eff.len() <= prog.len())
        &&& forall|i: int|
            0 <= i < c.subcommands->Some_0@.len() ==> spec_prepare_ok(
                (#[trigger] c.subcommands->Some_0@[i]).1,
                prog,
                target,
                env,
                Some(eff),
            )
    } else {
        false
    }
}

/// The plan that preparing the node yields: for a plain node, one core per
/// command string of the selected variant, fully interpolated, all in the
/// selected shell; for an ordered node, the directive together with the
/// plans of its subcommands, prepared against the inherited argument list.
pub open spec fn spec_prepared_bone(
    c: Command,
    prog: Seq<Seq<char>>,
    ds: DefaultShell,
    target: Seq<char>,
    env: Seq<(String, String)>,
    top: Option<Seq<Seq<char>>>,
    b: Bone,
) -> bool
    decreases c,
{
    let eff = match top {
        Some(a) => a,
        None => c.args.deep_view(),
    };
    if c.subcommands is None || c.cmd is Some {
        match c.cmd {
            Some(w) => {
                let cc = spec_select_core(w, target);
                let sh = spec_select_shell(cc, ds, target).deep_view();
                &&& b matches Bone::Simple(cores)
                &&& b->Simple_0@.len() == cc.execs@.len()
                &&& forall|i: int|
                    0 <= i < cc.execs@.len() ==> (#[trigger] b->Simple_0@[i]).cmd@ == spec_stage_cmd(
                        cc.execs@[i]@,
                        c.env_vars.deep_view(),
                        env,
                        eff,
                        prog,
                    ) && b->Simple_0@[i].shell.deep_view() == sh
            },
            None => false,
        }
    } else if c.order is Some && c.subcommands is Some {
        let subs = c.subcommands->Some_0;
        &&& b matches Bone::Complex(_)
        &&& crate::directive::directive_eq(b->Complex_0.directive, c.order->Some_0)
        &&& b->Complex_0.cmds@.len() == subs@.len()
        &&& forall|i: int|
            0 <= i < subs@.len() ==> (#[trigger] b->Complex_0.cmds@[i]).0@ == subs@[i].0@
                && spec_prepared_bone(
                subs@[i].1,
                prog,
                ds,
                target,
                env,
                Some(eff),
                b->Complex_0.cmds@[i].1,
            )
    } else {
        false
    }
}

/// When preparing appends the over-supply warning: only at the invoked
/// (top-level) node, on the plain-command path, when more arguments are
/// given than declared and no stage of the selected variant holds a `%%`
/// block to absorb them.
pub open spec fn spec_over_supply_warns(
    c: Command,
    prog: Seq<Seq<char>>,
    target: Seq<char>,
    top: Option<Seq<Seq<char>>>,
) -> bool {
    let eff = match top {
        Some(a) => a,
        None => c.args.deep_view(),
    };
    &&& top is None
    &&& (c.subcommands is None || c.cmd is Some)
    &&& c.cmd is Some
    &&& eff.len() <= prog.len()
    &&& prog.len() > eff.len()
    &&& !(exists|i: int|
        0 <= i < spec_select_core(c.cmd->Some_0, target).execs@.len() && contains_seq(
            (#[trigger] spec_select_core(c.cmd->Some_0, target).execs@[i])@,
            "%%"@,
        ))
}

impl CommandWrapper {
    /// The command strings and shell this wrapper selects for the target,
    /// with the default-shell table filling in a missing shell.
    #[verifier::loop_isolation(false)]
    pub fn get_commands_and_shell(&self, default_shell: &DefaultShell, target: &str) -> (r: (
        Vec<String>,
        Shell,
    ))
        ensures
            r.0.deep_view() == spec_select_core(*self, target@).execs.deep_view(),
            r.1.deep_view() == spec_select_shell(
                spec_select_core(*self, target@),
                *default_shell,
                target@,
            ).deep_view(),
    {
        proof {
            assert(self.targets@.skip(0) =~= self.targets@);
        }
        let mut i: usize = 0;
        let mut chosen: Option<&CommandCore> = None;
        while i < self.targets.len()
            invariant
                0 <= i <= self.targets@.len(),
                chosen is None,
                spec_lookup_core(self.targets@, target@) == spec_lookup_core(
                    self.targets@.skip(i as int),
                    target@,
                ),
            decreases self.targets@.len() - i,
        {
            proof {
                assert(self.targets@.skip(i as int)[0] == self.targets@[i as int]);
                assert(self.targets@.skip(i as int).skip(1) =~= self.targets@.skip(i + 1));
            }
            if str_eq(self.targets[i].0.as_str(), target) {
                chosen = Some(&self.targets[i].1);
                break ;
            }
            i = i + 1;
        }
        proof {
            if chosen is None {
                assert(self.targets@.skip(self.targets@.len() as int) =~= Seq::<
                    (String, CommandCore),
                >::empty());
            }
        }
        let core: &CommandCore = match chosen {
            Some(cc) => cc,
            None => &self.generic,
        };
        let cmds = dup_string_vec(&core.execs);
        let sh: Shell = match &core.shell {
            Some(sh) => dup_string_vec(sh),
            None => {
                proof {
                    assert(default_shell.targets@.skip(0) =~= default_shell.targets@);
                }
                let mut j: usize = 0;
                let mut found: Option<&Shell> = None;
                while j < default_shell.targets.len()
                    invariant
                        0 <= j <= default_shell.targets@.len(),
                        found is None,
                        spec_lookup_shell(default_shell.targets@, target@) == spec_lookup_shell(
                            default_shell.targets@.skip(j as int),
                            target@,
                        ),
                    decreases default_shell.targets@.len() - j,
                {
                    proof {
                        assert(default_shell.targets@.skip(j as int)[0]
                            == default_shell.targets@[j as int]);
                        assert(default_shell.targets@.skip(j as int).skip(1)
                            =~= default_shell.targets@.skip(j + 1));
                    }
                    if str_eq(default_shell.targets[j].0.as_str(), target) {
                        found = Some(&default_shell.targets[j].1);
                        break ;
                    }
                    j = j + 1;
                }
                proof {
                    if found is None {
                        assert(default_shell.targets@.skip(default_shell.targets@.len() as int)
                            =~= Seq::<(String, Shell)>::empty());
                    }
                }
                match found {
                    Some(sh) => dup_string_vec(sh),
                    None => dup_string_vec(&default_shell.generic),
                }
            },
        };
        (cmds, sh)
    }
}

impl Command {
    /// Builds the execution plan for this command: selects the per-target
    /// variant and shell, interpolates environment variables, named
    /// arguments and the trailing block into every stage, and for ordered
    /// subcommands prepares each subscript against the shared argument list
    /// under the node's directive.
    ///
    /// Succeeds exactly when the node's shape admits preparation, enough
    /// arguments are given, and every declared environment variable is in
    /// the snapshot; the returned plan is then pinned by
    /// `spec_prepared_bone` and well-formed, ready for `Bone::run`. When
    /// more arguments are given than the invoked command declares and no
    /// stage holds a `%%` block, one warning is appended; warnings are
    /// otherwise untouched.
    pub fn prepare(
        &self,
        name: &str,
        prog_args: &Vec<String>,
        default_shell: &DefaultShell,
        target: &str,
        env: &EnvMap,
        warnings: &mut Vec<String>,
    ) -> (r: Result<Bone, String>)
        requires
            command_wf(*self, false),
            self.subcommands is None || self.cmd is Some || self.order is Some,
            default_shell_wf(*default_shell),
        ensures
            r is Ok <==> spec_prepare_ok(*self, prog_args.deep_view(), target@, env@, None),
            r matches Ok(b) ==> spec_prepared_bone(
                *self,
                prog_args.deep_view(),
                *default_shell,
                target@,
                env@,
                None,
                b,
            ) && bone_wf(b),
            spec_over_supply_warns(*self, prog_args.deep_view(), target@, None)
                ==> final(warnings)@.len() == old(warnings)@.len() + 1,
            !spec_over_supply_warns(*self, prog_args.deep_view(), target@, None)
                ==> final(warnings)@ == old(warnings)@,
            forall|i: int|
                0 <= i < old(warnings)@.len() ==> final(warnings)@[i] == old(warnings)@[i],
    {
        self.prepare_internal(name, prog_args, default_shell, target, env, None, warnings)
    }

    /// The recursive plan builder; `top_level_args` carries the argument
    /// list inherited from the `order`-owning ancestor, shared by every
    /// subscript of an ordered group.
    #[verifier::loop_isolation(false)]
    fn prepare_internal(
        &self,
        name: &str,
        prog_args: &Vec<String>,
        default_shell: &DefaultShell,
        target: &str,
        env: &EnvMap,
        top_level_args: Option<&Vec<String>>,
        warnings: &mut Vec<String>,
    ) -> (r: Result<Bone, String>)
        requires
            command_wf(
                *self,
                match top_level_args {
                    Some(_) => true,
                    None => false,
                },
            ),
            self.subcommands is None || self.cmd is Some || self.order is Some,
            default_shell_wf(*default_shell),
        ensures
            ({
                let top = match top_level_args {
                    Some(a) => Some(a.deep_view()),
                    None => None,
                };
                &&& (r is Ok <==> spec_prepare_ok(
                    *self,
                    prog_args.deep_view(),
                    target@,
                    env@,
                    top,
                ))
                &&& (r matches Ok(b) ==> spec_prepared_bone(
                    *self,
                    prog_args.deep_view(),
                    *default_shell,
                    target@,
                    env@,
                    top,
                    b,
                ) && bone_wf(b))
                &&& (spec_over_supply_warns(*self, prog_args.deep_view(), target@, top)
                    ==> final(warnings)@.len() == old(warnings)@.len() + 1)
                &&& (!spec_over_supply_warns(*self, prog_args.deep_view(), target@, top)
                    ==> final(warnings)@ == old(warnings)@)
            }),
            forall|i: int|
                0 <= i < old(warnings)@.len() ==> final(warnings)@[i] == old(warnings)@[i],
        decreases *self,
    {
        let ghost top = match top_level_args {
            Some(a) => Some(a.deep_view()),
            None => None::<Seq<Seq<char>>>,
        };
        let at_top_level = top_level_args.is_none();
        let eff_args: &Vec<String> = match top_level_args {
            Some(a) => a,
            None => &self.args,
        };
        let ghost eff = eff_args.deep_view();
        if self.subcommands.is_none() || self.cmd.is_some() {
            let wrapper = match &self.cmd {
                Some(w) => w,
                None => {
                    proof {
                        assert(false);
                    }
                    return Err(String::new());
                },
            };
            if eff_args.len() > prog_args.len() {
                return Err(too_few_arguments_message(name, eff_args.len(), prog_args.len()));
            }
            let (cmds, sh) = wrapper.get_commands_and_shell(default_shell, target);
            let ghost cc = spec_select_core(*wrapper, target@);
            let ghost shd = spec_select_shell(cc, *default_shell, target@).deep_view();
            proof {
                assert(cmds.deep_view().len() == cc.execs@.len());
                assert(wrapper_wf(*wrapper));
                if spec_lookup_core(wrapper.targets@, target@) is Some {
                    lemma_lookup_core_wf(wrapper.targets@, target@);
                }
                assert(ccore_wf(cc));
                assert(shd.len() > 0) by {
                    match cc.shell {
                        Some(s2) => {},
                        None => {
                            if spec_lookup_shell(default_shell.targets@, target@) is Some {
                                lemma_lookup_shell_wf(default_shell.targets@, target@);
                            }
                        },
                    }
                }
            }
            // over-supply warning, suppressed by any `%%` block
            if at_top_level && prog_args.len() > eff_args.len() {
                let mut any_block = false;
                let mut i: usize = 0;
                while i < cmds.len()
                    invariant
                        0 <= i <= cmds@.len(),
                        cmds.deep_view() == cc.execs.deep_view(),
                        any_block == exists|k: int|
                            0 <= k < i && contains_seq((#[trigger] cc.execs@[k])@, "%%"@),
                    decreases cmds@.len() - i,
                {
                    proof {
                        assert(cmds.deep_view()[i as int] == cmds@[i as int]@);
                        assert(cc.execs.deep_view()[i as int] == cc.execs@[i as int]@);
                        assert(cmds@[i as int]@ == cc.execs@[i as int]@);
                    }
                    if contains_sub(cmds[i].as_str(), "%%") {
                        any_block = true;
                    }
                    i = i + 1;
                }
                if !any_block {
                    warnings.push(over_supply_message(name));
                }
            }
            let mut cores: Vec<BonesCore> = Vec::new();
            let mut i: usize = 0;
            while i < cmds.len()
                invariant
                    0 <= i <= cmds@.len(),
                    cmds.deep_view() == cc.execs.deep_view(),
                    cmds.deep_view().len() == cc.execs@.len(),
                    eff == eff_args.deep_view(),
                    eff.len() <= prog_args.deep_view().len(),
                    cores@.len() == i,
                    forall|k: int|
                        0 <= k < i ==> spec_interp_env(
                            cc.execs@[k]@,
                            self.env_vars.deep_view(),
                            env@,
                        ) is Ok,
                    forall|k: int|
                        0 <= k < i ==> (#[trigger] cores@[k]).cmd@ == spec_stage_cmd(
                            cc.execs@[k]@,
                            self.env_vars.deep_view(),
                            env@,
                            eff,
                            prog_args.deep_view(),
                        ) && cores@[k].shell.deep_view() == shd,
                decreases cmds@.len() - i,
            {
                proof {
                    assert(cmds@[i as int]@ == cmds.deep_view()[i as int]);
                    assert(cc.execs@[i as int]@ == cc.execs.deep_view()[i as int]);
                }
                let with_env = match interpolate_env_vars(cmds[i].as_str(), &self.env_vars, env) {
                    Ok(s2) => s2,
                    Err(e) => {
                        return Err(e);
                    },
                };
                let with_args = interpolate_specific_args(with_env.as_str(), eff_args, prog_args);
                let rest = remaining_args(eff_args.len(), prog_args);
                let ready = interpolate_remaining_arguments(with_args.as_str(), &rest);
                let core = BonesCore { cmd: ready, shell: dup_string_vec(&sh) };
                proof {
                    assert(rest.deep_view() =~= prog_args.deep_view().skip(eff.len() as int));
                }
                cores.push(core);
                i = i + 1;
            }
            let b = Bone::Simple(cores);
            proof {
                assert(spec_prepare_ok(*self, prog_args.deep_view(), target@, env@, top));
                assert(spec_prepared_bone(
                    *self,
                    prog_args.deep_view(),
                    *default_shell,
                    target@,
                    env@,
                    top,
                    b,
                ));
                assert(bone_wf(b)) by {
                    assert(forall|k: int|
                        0 <= k < b->Simple_0@.len() ==> core_wf(#[trigger] b->Simple_0@[k]));
                }
            }
            Ok(b)
        } else {
            // ordered subcommands: `order` is present, `cmd` absent
            let directive = match &self.order {
                Some(d) => d,
                None => {
                    proof {
                        assert(false);
                    }
                    return Err(String::new());
                },
            };
            if at_top_level && eff_args.len() > prog_args.len() {
                return Err(too_few_arguments_message(name, eff_args.len(), prog_args.len()));
            }
            let subs = match &self.subcommands {
                Some(s2) => s2,
                None => {
                    proof {
                        assert(false);
                    }
                    return Err(String::new());
                },
            };
            let mut cmds: Vec<(String, Bone)> = Vec::new();
            let mut i: usize = 0;
            while i < subs.len()
                invariant
                    0 <= i <= subs@.len(),
                    eff == eff_args.deep_view(),
                    cmds@.len() == i,
                    warnings@ == old(warnings)@,
                    forall|k: int|
                        0 <= k < i ==> spec_prepare_ok(
                            (#[trigger] subs@[k]).1,
                            prog_args.deep_view(),
                            target@,
                            env@,
                            Some(eff),
                        ),
                    forall|k: int|
                        0 <= k < i ==> (#[trigger] cmds@[k]).0@ == subs@[k].0@ && spec_prepared_bone(
                            subs@[k].1,
                            prog_args.deep_view(),
                            *default_shell,
                            target@,
                            env@,
                            Some(eff),
                            cmds@[k].1,
                        ) && bone_wf(cmds@[k].1),
                decreases subs@.len() - i,
            {
                let sub_name = subs[i].0.clone();
                proof {
                    assert(command_wf(subs@[i as int].1, true));
                    assert(subs@[i as int].1.subcommands is None || subs@[i as int].1.cmd is Some
                        || subs@[i as int].1.order is Some);
                }
                let sub_bone = match subs[i].1.prepare_internal(
                    subs[i].0.as_str(),
                    prog_args,
                    default_shell,
                    target,
                    env,
                    Some(eff_args),
                    warnings,
                ) {
                    Ok(b) => b,
                    Err(e) => {
                        return Err(e);
                    },
                };
                cmds.push((sub_name, sub_bone));
                i = i + 1;
            }
            let b = Bone::Complex(BonesCommand::new(directive, cmds));
            proof {
                assert(spec_prepare_ok(*self, prog_args.deep_view(), target@, env@, top));
                assert(spec_prepared_bone(
                    *self,
                    prog_args.deep_view(),
                    *default_shell,
                    target@,
                    env@,
                    top,
                    b,
                ));
                assert(bone_wf(b));
            }
            Ok(b)
        }
    }
}

/// Every entry of a well-formed per-target core table is well-formed, so a
/// successful lookup is.
proof fn lemma_lookup_core_wf(ts: Seq<(String, CommandCore)>, t: Seq<char>)
    requires
        forall|i: int| 0 <= i < ts.len() ==> ccore_wf((#[trigger] ts[i]).1),
        spec_lookup_core(ts, t) is Some,
    ensures
        ccore_wf(spec_lookup_core(ts, t)->Some_0),
    decreases ts.len(),
{
    if ts.len() > 0 && ts[0].0@ != t {
        assert(forall|i: int| 0 <= i < ts.skip(1).len() ==> ts.skip(1)[i] == ts[i + 1]);
        lemma_lookup_core_wf(ts.skip(1), t);
    }
}

/// Every entry of a well-formed per-target shell table is well-formed, so a
/// successful lookup is.
proof fn lemma_lookup_shell_wf(ts: Seq<(String, Shell)>, t: Seq<char>)
    requires
        forall|i: int| 0 <= i < ts.len() ==> shell_wf((#[trigger] ts[i]).1.deep_view()),
        spec_lookup_shell(ts, t) is Some,
    ensures
        shell_wf(spec_lookup_shell(ts, t)->Some_0.deep_view()),
    decreases ts.len(),
{
    if ts.len() > 0 && ts[0].0@ != t {
        assert(forall|i: int| 0 <= i < ts.skip(1).len() ==> ts.skip(1)[i] == ts[i + 1]);
        lemma_lookup_shell_wf(ts.skip(1), t);
    }
}

/// The error for an invocation with fewer arguments than the command
/// declares.
fn too_few_arguments_message(name: &str, required: usize, given: usize) -> (r: String) {
    let mut msg = "The command '".to_owned();
    msg.append(name);
    msg.append("' requires ");
    msg.append(u64_to_string(required as u64).as_str());
    msg.append(" argument(s), but ");
    msg.append(u64_to_string(given as u64).as_str());
    msg.append(
        " argument(s) were provided (too few). Please provide all the required arguments.",
    );
    msg
}

/// The warning for an invocation with more arguments than the command
/// declares and no `%%` block to absorb them.
fn over_supply_message(name: &str) -> (r: String) {
    let mut msg = "The command '".to_owned();
    msg.append(name);
    msg.append(
        "' was given more arguments than it declares and has no '%%' block to take them; the extra arguments are unused.",
    );
    msg
}

proof fn lemma_lookup_script_member(ss: Seq<(String, Command)>, name: Seq<char>)
    requires
        spec_lookup_script(ss, name) is Some,
    ensures
        exists|i: int|
            0 <= i < ss.len() && spec_lookup_script(ss, name)->Some_0 == (#[trigger] ss[i]).1,
    decreases ss.len(),
{
    if ss.len() > 0 && ss[0].0@ != name {
        lemma_lookup_script_member(ss.skip(1), name);
        let i = choose|i: int|
            0 <= i < ss.skip(1).len() && spec_lookup_script(ss.skip(1), name)->Some_0 == (
            #[trigger] ss.skip(1)[i]).1;
        assert(ss.skip(1)[i] == ss[i + 1]);
    }
}

/// A command resolved from a well-formed script table is well-formed and has
/// a shape `prepare` accepts: it carries `cmd`, or an `order`, or no
/// subcommands at all.
pub proof fn lemma_resolve_found_preparable(
    scripts: Seq<(String, Command)>,
    args: Seq<Seq<char>>,
    first: bool,
)
    requires
        forall|i: int| 0 <= i < scripts.len() ==> command_wf((#[trigger] scripts[i]).1, false),
        spec_resolve(scripts, args, first) matches Resolution::Found(_, _, _),
    ensures
        command_wf(spec_resolve(scripts, args, first)->Found_0, false),
        ({
            let c = spec_resolve(scripts, args, first)->Found_0;
            c.subcommands is None || c.cmd is Some || c.order is Some
        }),
    decreases args.len(),
{
    let c = spec_lookup_script(scripts, args[0])->Some_0;
    lemma_lookup_script_member(scripts, args[0]);
    assert(command_wf(c, false));
    if c.subcommands is Some && c.cmd is Some && args.len() == 1 {
    } else if c.subcommands is Some && c.order is None {
        let subs = c.subcommands->Some_0;
        assert(forall|i: int| 0 <= i < subs@.len() ==> command_wf((#[trigger] subs@[i]).1, false));
        lemma_resolve_found_preparable(subs@, args.skip(1), false);
    } else {
        // the target either has no subcommands (then `cmd` is mandatory by
        // well-formedness) or carries an `order`
    }
}

/// Whether a shell value is well-formed, decided at runtime.
#[verifier::loop_isolation(false)]
fn shell_ok(sh: &Shell) -> (r: bool)
    ensures
        r == shell_wf(sh.deep_view()),
{
    let ghost dv = sh.deep_view();
    let mut count: usize = 0;
    let mut i: usize = 0;
    while i < sh.len()
        invariant
            0 <= i <= sh@.len(),
            dv == sh.deep_view(),
            dv.len() == sh@.len(),
            count <= i,
            count as int == shell_slot_count(dv.take(i as int)),
        decreases sh@.len() - i,
    {
        proof {
            let p = dv.take(i + 1);
            assert(p.drop_last() =~= dv.take(i as int));
            assert(p.last() == dv[i as int]);
            assert(sh@[i as int]@ == dv[i as int]);
        }
        if contains_sub(sh[i].as_str(), "{COMMAND}") {
            count = count + 1;
        }
        i = i + 1;
    }
    proof {
        assert(dv.take(dv.len() as int) =~= dv);
    }
    sh.len() >= 2 && count == 1
}

#[verifier::loop_isolation(false)]
fn ccore_ok(c: &CommandCore) -> (r: bool)
    ensures
        r == ccore_wf(*c),
{
    if c.execs.len() == 0 {
        return false;
    }
    match &c.shell {
        Some(sh) => shell_ok(sh),
        None => true,
    }
}

#[verifier::loop_isolation(false)]
fn wrapper_ok(w: &CommandWrapper) -> (r: bool)
    ensures
        r == wrapper_wf(*w),
{
    if !ccore_ok(&w.generic) {
        return false;
    }
    let mut i: usize = 0;
    while i < w.targets.len()
        invariant
            0 <= i <= w.targets@.len(),
            ccore_wf(w.generic),
            forall|k: int| 0 <= k < i ==> ccore_wf((#[trigger] w.targets@[k]).1),
        decreases w.targets@.len() - i,
    {
        if !ccore_ok(&w.targets[i].1) {
            return false;
        }
        i = i + 1;
    }
    true
}

/// Whether a command node satisfies the schema invariants, decided at
/// runtime.
#[verifier::loop_isolation(false)]
fn command_ok(c: &Command, order_above: bool) -> (r: bool)
    ensures
        r == command_wf(*c, order_above),
    decreases *c,
{
    let cmd_fine = match &c.cmd {
        Some(w) => wrapper_ok(w),
        None => true,
    };
    if !cmd_fine {
        return false;
    }
    if order_above && c.args.len() != 0 {
        return false;
    }
    match &c.subcommands {
        None => c.cmd.is_some() && c.order.is_none(),
        Some(subs) => {
            if c.order.is_some() && c.cmd.is_some() {
                return false;
            }
            if c.order.is_none() && c.args.len() != 0 {
                return false;
            }
            if order_above && c.order.is_none() {
                return false;
            }
            let mut i: usize = 0;
            while i < subs.len()
                invariant
                    0 <= i <= subs@.len(),
                    forall|k: int|
                        0 <= k < i ==> command_wf((#[trigger] subs@[k]).1, c.order is Some),
                decreases subs@.len() - i,
            {
                if !command_ok(&subs[i].1, c.order.is_some()) {
                    return false;
                }
                i = i + 1;
            }
            true
        },
    }
}

/// Whether a whole configuration satisfies the schema invariants, decided at
/// runtime: for configurations that arrive from outside a verified parse —
/// the cache — before they reach the resolver and the plan builder, whose
/// contracts assume well-formedness.
#[verifier::loop_isolation(false)]
pub fn config_is_wf(cfg: &Config) -> (r: bool)
    ensures
        r == config_wf(*cfg),
{
    if !shell_ok(&cfg.default_shell.generic) {
        return false;
    }
    let mut i: usize = 0;
    while i < cfg.default_shell.targets.len()
        invariant
            0 <= i <= cfg.default_shell.targets@.len(),
            shell_wf(cfg.default_shell.generic.deep_view()),
            forall|k: int|
                0 <= k < i ==> shell_wf((#[trigger] cfg.default_shell.targets@[k]).1.deep_view()),
        decreases cfg.default_shell.targets@.len() - i,
    {
        if !shell_ok(&cfg.default_shell.targets[i].1) {
            return false;
        }
        i = i + 1;
    }
    let mut j: usize = 0;
    while j < cfg.scripts.len()
        invariant
            0 <= j <= cfg.scripts@.len(),
            default_shell_wf(cfg.default_shell),
            forall|k: int| 0 <= k < j ==> command_wf((#[trigger] cfg.scripts@[k]).1, false),
        decreases cfg.scripts@.len() - j,
    {
        if !command_ok(&cfg.scripts[j].1, false) {
            return false;
        }
        j = j + 1;
    }
    true
}

/// Resolution is a function of the configuration and the argument vector
/// alone: two resolutions of the same inputs are the same.
pub proof fn lemma_resolver_deterministic(
    scripts: Seq<(String, Command)>,
    args: Seq<Seq<char>>,
    r1: Resolution,
    r2: Resolution,
)
    requires
        r1 == spec_resolve(scripts, args, true),
        r2 == spec_resolve(scripts, args, true),
    ensures
        r1 == r2,
{
}

} // verus!
