//! The raw configuration schema: the shape-permissive form a configuration
//! file is first read into, and its normalization into the final schema.
//! Reading the TOML text goes through the trusted parser; everything from the
//! raw tree onward is verified, and `to_final` establishes the schema
//! invariants that the resolver and the plan builder rely on.

use vstd::prelude::*;
use vstd::string::*;
use crate::directive::{directive_text_accepted, directive_wf, parse_directive_str, BonesDirective};
use crate::ext::{load_env_files, parse_toml_str, toml_accepts, toml_tree_of, TomlValue};
use crate::schema;
use crate::schema::{
    ccore_wf, command_wf, config_wf, default_shell_wf, shell_slot_count, shell_wf, wrapper_wf,
    Shell,
};
use crate::strutil::{contains_sub, dup_string_vec, str_eq};
use crate::version::{
    get_version_parts, spec_compat, spec_valid_version, spec_version_of, VersionCompatibility,
};

verus! {

broadcast use vstd::std_specs::vec::axiom_vec_index_decreases, vstd::seq::axiom_seq_index_decreases;

/// A command in its lowest raw form: one command string or a list of them.
#[derive(Debug, PartialEq)]
pub enum RawCommandBox {
    Single(String),
    MultiStage(Vec<String>),
}

/// A raw command core: a bare command box, or one together with a shell.
#[derive(Debug, PartialEq)]
pub enum RawCommandCore {
    Bare(RawCommandBox),
    WithShell { execs: RawCommandBox, shell: Option<Shell> },
}

/// A raw command wrapper: one core for every target, or per-target variants.
#[derive(Debug, PartialEq)]
pub enum RawCommandWrapper {
    Universal(RawCommandCore),
    Specific { generic: RawCommandCore, targets: Option<Vec<(String, RawCommandCore)>> },
}

/// A raw script entry: a bare command, or the full record.
#[derive(Debug, PartialEq)]
pub enum RawCommand {
    Shorthand(RawCommandWrapper),
    Full {
        args: Option<Vec<String>>,
        env_vars: Option<Vec<String>>,
        subcommands: Option<Vec<(String, RawCommand)>>,
        order: Option<String>,
        cmd: Option<RawCommandWrapper>,
    },
}

/// A raw default shell: a bare shell, or a generic shell with per-target
/// overrides.
#[derive(Debug, PartialEq)]
pub enum RawDefaultShell {
    Bare(Shell),
    WithTargets { generic: Shell, targets: Option<Vec<(String, Shell)>> },
}

/// The raw configuration, as the file gives it.
#[derive(Debug, PartialEq)]
pub struct Config {
    pub version: String,
    pub env_files: Option<Vec<String>>,
    pub default_shell: Option<RawDefaultShell>,
    pub scripts: Vec<(String, RawCommand)>,
}

// ------------------------------------------------------------------
// Normalization relations: what the final form of each raw shape is.
// ------------------------------------------------------------------

/// The command strings a raw box denotes.
pub open spec fn box_rel(b: RawCommandBox, out: Seq<Seq<char>>) -> bool {
    match b {
        RawCommandBox::Single(s) => out.len() == 1 && out[0] == s@,
        RawCommandBox::MultiStage(v) => out == v.deep_view(),
    }
}

/// The final core a raw core denotes.
pub open spec fn core_rel(c: RawCommandCore, out: schema::CommandCore) -> bool {
    match c {
        RawCommandCore::Bare(b) => box_rel(b, out.execs.deep_view()) && out.shell is None,
        RawCommandCore::WithShell { execs, shell } => {
            &&& box_rel(execs, out.execs.deep_view())
            &&& match (shell, out.shell) {
                (Option::None, Option::None) => true,
                (Option::Some(s1), Option::Some(s2)) => s1.deep_view() == s2.deep_view(),
                _ => false,
            }
        },
    }
}

/// The final wrapper a raw wrapper denotes.
pub open spec fn wrapper_rel(w: RawCommandWrapper, out: schema::CommandWrapper) -> bool {
    match w {
        RawCommandWrapper::Universal(c) => core_rel(c, out.generic) && out.targets@.len() == 0,
        RawCommandWrapper::Specific { generic, targets } => {
            &&& core_rel(generic, out.generic)
            &&& match targets {
                Option::None => out.targets@.len() == 0,
                Option::Some(ts) => ts@.len() == out.targets@.len() && forall|i: int|
                    0 <= i < ts@.len() ==> (#[trigger] ts@[i]).0@ == out.targets@[i].0@ && core_rel(
                        ts@[i].1,
                        out.targets@[i].1,
                    ),
            }
        },
    }
}

/// The final command a raw command denotes, under a parent that does or does
/// not carry `order`. The directive of an `order` field is pinned to its
/// parsed, well-formed form; the bare form (text without `{`) is pinned
/// exactly.
pub open spec fn command_rel(rc: RawCommand, is_order_defined: bool, out: schema::Command) -> bool
    decreases rc,
{
    match rc {
        RawCommand::Shorthand(w) => {
            &&& out.args@.len() == 0
            &&& out.env_vars@.len() == 0
            &&& out.subcommands is None
            &&& out.order is None
            &&& out.cmd is Some
            &&& wrapper_rel(w, out.cmd->Some_0)
        },
        RawCommand::Full { args, env_vars, subcommands, order, cmd } => {
            &&& out.args.deep_view() == (if is_order_defined {
                Seq::<Seq<char>>::empty()
            } else {
                match args {
                    Option::Some(a) => a.deep_view(),
                    Option::None => Seq::<Seq<char>>::empty(),
                }
            })
            &&& out.env_vars.deep_view() == (match env_vars {
                Option::Some(e) => e.deep_view(),
                Option::None => Seq::<Seq<char>>::empty(),
            })
            &&& match (subcommands, out.subcommands) {
                (Option::None, Option::None) => true,
                (Option::Some(ss), Option::Some(os)) => ss@.len() == os@.len() && forall|i: int|
                    0 <= i < ss@.len() ==> (#[trigger] ss@[i]).0@ == os@[i].0@ && command_rel(
                        ss@[i].1,
                        order is Some,
                        os@[i].1,
                    ),
                _ => false,
            }
            &&& match (order, out.order) {
                (Option::None, Option::None) => true,
                (Option::Some(text), Option::Some(d)) => directive_wf(d) && (!text@.contains('{')
                    ==> d.0@ == text@ && d.1@.len() == 0),
                _ => false,
            }
            &&& match (cmd, out.cmd) {
                (Option::None, Option::None) => true,
                (Option::Some(w), Option::Some(ow)) => wrapper_rel(w, ow),
                _ => false,
            }
        },
    }
}

/// The final default-shell table a raw one denotes; a missing table denotes
/// the compiled-in default.
pub open spec fn default_shell_rel(d: Option<RawDefaultShell>, out: schema::DefaultShell) -> bool {
    match d {
        Option::None => crate::default_shells::builtin_default_shell(out),
        Option::Some(RawDefaultShell::Bare(sh)) => out.generic.deep_view() == sh.deep_view()
            && out.targets@.len() == 0,
        Option::Some(RawDefaultShell::WithTargets { generic, targets }) => {
            &&& out.generic.deep_view() == generic.deep_view()
            &&& match targets {
                Option::None => out.targets@.len() == 0,
                Option::Some(ts) => ts@.len() == out.targets@.len() && forall|i: int|
                    0 <= i < ts@.len() ==> (#[trigger] ts@[i]).0@ == out.targets@[i].0@
                        && ts@[i].1.deep_view() == out.targets@[i].1.deep_view(),
            }
        },
    }
}

/// The final configuration a raw one denotes.
pub open spec fn config_rel(raw: Config, out: schema::Config) -> bool {
    &&& out.version@ == raw.version@
    &&& out.env_files.deep_view() == (match raw.env_files {
        Option::Some(e) => e.deep_view(),
        Option::None => Seq::<Seq<char>>::empty(),
    })
    &&& default_shell_rel(raw.default_shell, out.default_shell)
    &&& raw.scripts@.len() == out.scripts@.len()
    &&& forall|i: int|
        0 <= i < raw.scripts@.len() ==> (#[trigger] raw.scripts@[i]).0@ == out.scripts@[i].0@
            && command_rel(raw.scripts@[i].1, false, out.scripts@[i].1)
}

// ------------------------------------------------------------------
// When finalization succeeds: the structural invariants, the shell and
// command-list checks, and acceptance of every `order` text.
// ------------------------------------------------------------------

/// A raw command box that finalizes: a multi-stage list must be non-empty.
pub open spec fn box_finalizable(b: RawCommandBox) -> bool {
    match b {
        RawCommandBox::Single(_) => true,
        RawCommandBox::MultiStage(v) => v@.len() >= 1,
    }
}

/// A raw core that finalizes: its box does, and a named shell is
/// well-formed.
pub open spec fn core_finalizable(c: RawCommandCore) -> bool {
    match c {
        RawCommandCore::Bare(b) => box_finalizable(b),
        RawCommandCore::WithShell { execs, shell } => box_finalizable(execs) && match shell {
            Option::Some(sh) => shell_wf(sh.deep_view()),
            Option::None => true,
        },
    }
}

/// A raw wrapper that finalizes: every variant's core does.
pub open spec fn wrapper_finalizable(w: RawCommandWrapper) -> bool {
    match w {
        RawCommandWrapper::Universal(c) => core_finalizable(c),
        RawCommandWrapper::Specific { generic, targets } => core_finalizable(generic)
            && match targets {
            Option::None => true,
            Option::Some(ts) => forall|i: int|
                0 <= i < ts@.len() ==> core_finalizable((#[trigger] ts@[i]).1),
        },
    }
}

/// A raw command that finalizes under a parent with or without `order`: the
/// structural invariants hold, every subcommand finalizes, every `order`
/// text is accepted by the directive grammar, and the command bodies check.
pub open spec fn command_finalizable(rc: RawCommand, is_order_defined: bool) -> bool
    decreases rc,
{
    match rc {
        RawCommand::Shorthand(w) => wrapper_finalizable(w),
        RawCommand::Full { args, env_vars, subcommands, order, cmd } => {
            &&& !(subcommands is Some && order is None && args is Some)
            &&& !(is_order_defined && args is Some)
            &&& !(cmd is Some && order is Some)
            &&& !(subcommands is None && cmd is None)
            &&& !(subcommands is None && order is Some)
            &&& !(is_order_defined && subcommands is Some && order is None)
            &&& match subcommands {
                Option::Some(ss) => forall|i: int|
                    0 <= i < ss@.len() ==> command_finalizable(
                        (#[trigger] ss@[i]).1,
                        order is Some,
                    ),
                Option::None => true,
            }
            &&& match order {
                Option::Some(text) => directive_text_accepted(text@),
                Option::None => true,
            }
            &&& match cmd {
                Option::Some(w) => wrapper_finalizable(w),
                Option::None => true,
            }
        },
    }
}

/// A raw default shell that finalizes: every shell in it is well-formed.
pub open spec fn default_shell_finalizable(d: Option<RawDefaultShell>) -> bool {
    match d {
        Option::None => true,
        Option::Some(RawDefaultShell::Bare(sh)) => shell_wf(sh.deep_view()),
        Option::Some(RawDefaultShell::WithTargets { generic, targets }) => shell_wf(
            generic.deep_view(),
        ) && match targets {
            Option::None => true,
            Option::Some(ts) => forall|i: int|
                0 <= i < ts@.len() ==> shell_wf((#[trigger] ts@[i]).1.deep_view()),
        },
    }
}

/// Whether the version gate passes: both version strings are well-formed
/// and their compatibility is neither a major difference nor a pre-1.0
/// difference.
pub open spec fn version_gate_ok(tool: Seq<char>, cfg: Seq<char>) -> bool {
    &&& spec_valid_version(tool)
    &&& spec_valid_version(cfg)
    &&& !(spec_compat(spec_version_of(tool), spec_version_of(cfg))
        matches VersionCompatibility::DifferentMajor(_))
    &&& !(spec_compat(spec_version_of(tool), spec_version_of(cfg))
        matches VersionCompatibility::DifferentBetaVersion(_))
}

/// Whether the version gate passes with a warning: a minor or patch skew.
pub open spec fn version_gate_warns(tool: Seq<char>, cfg: Seq<char>) -> bool {
    &&& spec_valid_version(tool)
    &&& spec_valid_version(cfg)
    &&& (spec_compat(spec_version_of(tool), spec_version_of(cfg))
        matches VersionCompatibility::DifferentMinor(_) || spec_compat(
        spec_version_of(tool),
        spec_version_of(cfg),
    ) matches VersionCompatibility::DifferentPatch(_))
}

/// A raw configuration that finalizes: its default shell and every script
/// do.
pub open spec fn config_finalizable(raw: Config) -> bool {
    &&& default_shell_finalizable(raw.default_shell)
    &&& forall|i: int|
        0 <= i < raw.scripts@.len() ==> command_finalizable((#[trigger] raw.scripts@[i]).1, false)
}

// ------------------------------------------------------------------
// Finalization: raw form to final form, with the invariant checks.
// ------------------------------------------------------------------

/// Checks that a shell is well-formed: at least two elements, exactly one of
/// which contains the `{COMMAND}` substitution point.
#[verifier::loop_isolation(false)]
fn check_shell(sh: &Shell, context: &str) -> (r: Result<(), String>)
    ensures
        r is Ok <==> shell_wf(sh.deep_view()),
{
    let ghost dv = sh.deep_view();
    let mut count: usize = 0;
    let mut i: usize = 0;
    while i < sh.len()
        invariant
            0 <= i <= sh@.len(),
            dv == sh.deep_view(),
            dv.len() == sh@.len(),
            count <= i,
            count as int == shell_slot_count(dv.take(i as int)),
        decreases sh@.len() - i,
    {
        proof {
            let p = dv.take(i + 1);
            assert(p.drop_last() =~= dv.take(i as int));
            assert(p.last() == dv[i as int]);
            assert(sh@[i as int]@ == dv[i as int]);
        }
        if contains_sub(sh[i].as_str(), "{COMMAND}") {
            count = count + 1;
        }
        i = i + 1;
    }
    proof {
        assert(dv.take(dv.len() as int) =~= dv);
    }
    if sh.len() < 2 || count != 1 {
        let mut msg =
            "Error in parsing Bonnie configuration file: a shell must have at least two elements and exactly one element containing '{COMMAND}'. This error occurred in the '".to_owned();
        msg.append(context);
        msg.append("' definition.");
        return Err(msg);
    }
    Ok(())
}

fn finalize_box(b: &RawCommandBox, context: &str) -> (r: Result<Vec<String>, String>)
    ensures
        r is Ok <==> box_finalizable(*b),
        r matches Ok(v) ==> box_rel(*b, v.deep_view()) && v@.len() >= 1,
{
    match b {
        RawCommandBox::Single(s) => {
            let mut out: Vec<String> = Vec::new();
            out.push(s.clone());
            proof {
                assert(out.deep_view() =~= seq![s@]);
            }
            Ok(out)
        },
        RawCommandBox::MultiStage(v) => {
            if v.len() == 0 {
                let mut msg =
                    "Error in parsing Bonnie configuration file: a multi-stage command must hold at least one command string. This error occurred in the '".to_owned();
                msg.append(context);
                msg.append("' definition.");
                return Err(msg);
            }
            Ok(dup_string_vec(v))
        },
    }
}

fn finalize_core(c: &RawCommandCore, context: &str) -> (r: Result<schema::CommandCore, String>)
    ensures
        r is Ok <==> core_finalizable(*c),
        r matches Ok(out) ==> core_rel(*c, out) && ccore_wf(out),
{
    match c {
        RawCommandCore::Bare(b) => {
            let execs = match finalize_box(b, context) {
                Ok(v) => v,
                Err(e) => {
                    return Err(e);
                },
            };
            Ok(schema::CommandCore { execs, shell: None })
        },
        RawCommandCore::WithShell { execs, shell } => {
            let out_execs = match finalize_box(execs, context) {
                Ok(v) => v,
                Err(e) => {
                    return Err(e);
                },
            };
            let out_shell: Option<Shell> = match shell {
                Some(sh) => {
                    match check_shell(sh, context) {
                        Ok(()) => {},
                        Err(e) => {
                            return Err(e);
                        },
                    }
                    Some(dup_string_vec(sh))
                },
                None => None,
            };
            Ok(schema::CommandCore { execs: out_execs, shell: out_shell })
        },
    }
}

#[verifier::loop_isolation(false)]
fn finalize_wrapper(w: &RawCommandWrapper, context: &str) -> (r: Result<
    schema::CommandWrapper,
    String,
>)
    ensures
        r is Ok <==> wrapper_finalizable(*w),
        r matches Ok(out) ==> wrapper_rel(*w, out) && wrapper_wf(out),
{
    match w {
        RawCommandWrapper::Universal(c) => {
            let generic = match finalize_core(c, context) {
                Ok(cc) => cc,
                Err(e) => {
                    return Err(e);
                },
            };
            Ok(schema::CommandWrapper { generic, targets: Vec::new() })
        },
        RawCommandWrapper::Specific { generic, targets } => {
            let out_generic = match finalize_core(generic, context) {
                Ok(cc) => cc,
                Err(e) => {
                    return Err(e);
                },
            };
            let mut out_targets: Vec<(String, schema::CommandCore)> = Vec::new();
            match targets {
                Some(ts) => {
                    let mut i: usize = 0;
                    while i < ts.len()
                        invariant
                            0 <= i <= ts@.len(),
                            out_targets@.len() == i,
                            forall|k: int| 0 <= k < i ==> core_finalizable((#[trigger] ts@[k]).1),
                            forall|k: int|
                                0 <= k < i ==> ((#[trigger] out_targets@[k]).0@ == ts@[k].0@
                                    && core_rel(ts@[k].1, out_targets@[k].1) && ccore_wf(
                                    out_targets@[k].1,
                                )),
                        decreases ts@.len() - i,
                    {
                        let cc = match finalize_core(&ts[i].1, context) {
                            Ok(cc) => cc,
                            Err(e) => {
                                proof {
                                    assert(!core_finalizable(ts@[i as int].1));
                                }
                                return Err(e);
                            },
                        };
                        out_targets.push((ts[i].0.clone(), cc));
                        i = i + 1;
                    }
                },
                None => {},
            }
            Ok(schema::CommandWrapper { generic: out_generic, targets: out_targets })
        },
    }
}

/// Normalizes one raw script entry, checking the structural invariants:
/// subcommands without `order` forbid `args`; subscripts of an ordered node
/// forbid `args`; subcommand-bearing subscripts of an ordered node must carry
/// `order`; `cmd` and `order` are mutually exclusive; without subcommands,
/// `cmd` is mandatory.
#[verifier::loop_isolation(false)]
fn finalize_command(rc: &RawCommand, is_order_defined: bool, script_name: &str) -> (r: Result<
    schema::Command,
    String,
>)
    ensures
        r is Ok <==> command_finalizable(*rc, is_order_defined),
        r matches Ok(out) ==> command_rel(*rc, is_order_defined, out) && command_wf(
            out,
            is_order_defined,
        ),
    decreases *rc,
{
    match rc {
        RawCommand::Shorthand(w) => {
            let wrapper = match finalize_wrapper(w, script_name) {
                Ok(ow) => ow,
                Err(e) => {
                    return Err(e);
                },
            };
            Ok(
                schema::Command {
                    args: Vec::new(),
                    env_vars: Vec::new(),
                    subcommands: None,
                    order: None,
                    cmd: Some(wrapper),
                },
            )
        },
        RawCommand::Full { args, env_vars, subcommands, order, cmd } => {
            if subcommands.is_some() && order.is_none() && args.is_some() {
                let mut msg =
                    "Error in parsing Bonnie configuration file: if `subcommands` is specified without `order`, `args` cannot be specified. This error occurred in the '".to_owned();
                msg.append(script_name);
                msg.append("' script/subscript.");
                return Err(msg);
            }
            if is_order_defined && args.is_some() {
                let mut msg =
                    "Error in parsing Bonnie configuration file: if `order` is specified, subscripts cannot specify `args`; arguments of an ordered group are declared once, at the level that specifies `order`. This error occurred in the '".to_owned();
                msg.append(script_name);
                msg.append("' script/subscript.");
                return Err(msg);
            }
            if cmd.is_some() && order.is_some() {
                let mut msg =
                    "Error in parsing Bonnie configuration file: both `cmd` and `order` were specified. This would lead to problems of ambiguous execution, so a script can have either a `cmd` or ordered subcommands, not both. This error occurred in the '".to_owned();
                msg.append(script_name);
                msg.append("' script/subscript.");
                return Err(msg);
            }
            if subcommands.is_none() && cmd.is_none() {
                let mut msg =
                    "Error in parsing Bonnie configuration file: if `subcommands` is not specified, `cmd` is mandatory. This error occurred in the '".to_owned();
                msg.append(script_name);
                msg.append("' script/subscript.");
                return Err(msg);
            }
            if subcommands.is_none() && order.is_some() {
                let mut msg =
                    "Error in parsing Bonnie configuration file: `order` requires `subcommands` to steer. This error occurred in the '".to_owned();
                msg.append(script_name);
                msg.append("' script/subscript.");
                return Err(msg);
            }
            if is_order_defined && subcommands.is_some() && order.is_none() {
                let mut msg =
                    "Error in parsing Bonnie configuration file: if `order` is specified, all further nested subcommand groups must also specify `order`. This occurred in the '".to_owned();
                msg.append(script_name);
                msg.append("' script/subscript.");
                return Err(msg);
            }
            let out_args: Vec<String> = if is_order_defined {
                Vec::new()
            } else {
                match args {
                    Some(a) => dup_string_vec(a),
                    None => Vec::new(),
                }
            };
            let out_env_vars: Vec<String> = match env_vars {
                Some(e) => dup_string_vec(e),
                None => Vec::new(),
            };
            let out_subcommands: Option<schema::Scripts> = match subcommands {
                Some(ss) => {
                    let mut out_ss: schema::Scripts = Vec::new();
                    let mut i: usize = 0;
                    while i < ss.len()
                        invariant
                            0 <= i <= ss@.len(),
                            out_ss@.len() == i,
                            forall|k: int|
                                0 <= k < i ==> command_finalizable(
                                    (#[trigger] ss@[k]).1,
                                    order is Some,
                                ),
                            forall|k: int|
                                0 <= k < i ==> ((#[trigger] out_ss@[k]).0@ == ss@[k].0@
                                    && command_rel(ss@[k].1, order is Some, out_ss@[k].1)
                                    && command_wf(out_ss@[k].1, order is Some)),
                        decreases ss@.len() - i,
                    {
                        let sub = match finalize_command(&ss[i].1, order.is_some(), ss[i].0.as_str()) {
                            Ok(c) => c,
                            Err(e) => {
                                proof {
                                    assert(!command_finalizable(ss@[i as int].1, order is Some));
                                }
                                return Err(e);
                            },
                        };
                        out_ss.push((ss[i].0.clone(), sub));
                        i = i + 1;
                    }
                    Some(out_ss)
                },
                None => None,
            };
            let out_order: Option<BonesDirective> = match order {
                Some(text) => {
                    match parse_directive_str(text.as_str()) {
                        Ok(d) => Some(d),
                        Err(e) => {
                            return Err(e);
                        },
                    }
                },
                None => None,
            };
            let out_cmd: Option<schema::CommandWrapper> = match cmd {
                Some(w) => {
                    match finalize_wrapper(w, script_name) {
                        Ok(ow) => Some(ow),
                        Err(e) => {
                            return Err(e);
                        },
                    }
                },
                None => None,
            };
            proof {
                if out_args@.len() == 0 {
                    assert(out_args.deep_view() =~= Seq::<Seq<char>>::empty());
                }
                if out_env_vars@.len() == 0 {
                    assert(out_env_vars.deep_view() =~= Seq::<Seq<char>>::empty());
                }
            }
            let out = schema::Command {
                args: out_args,
                env_vars: out_env_vars,
                subcommands: out_subcommands,
                order: out_order,
                cmd: out_cmd,
            };
            proof {
                assert(command_rel(*rc, is_order_defined, out));
                assert(command_wf(out, is_order_defined));
            }
            Ok(out)
        },
    }
}

#[verifier::loop_isolation(false)]
fn finalize_default_shell(d: &Option<RawDefaultShell>) -> (r: Result<schema::DefaultShell, String>)
    ensures
        r is Ok <==> default_shell_finalizable(*d),
        r matches Ok(out) ==> default_shell_rel(*d, out) && default_shell_wf(out),
{
    match d {
        None => Ok(crate::default_shells::get_default_shells()),
        Some(RawDefaultShell::Bare(sh)) => {
            match check_shell(sh, "default_shell") {
                Ok(()) => {},
                Err(e) => {
                    return Err(e);
                },
            }
            Ok(schema::DefaultShell { generic: dup_string_vec(sh), targets: Vec::new() })
        },
        Some(RawDefaultShell::WithTargets { generic, targets }) => {
            match check_shell(generic, "default_shell.generic") {
                Ok(()) => {},
                Err(e) => {
                    return Err(e);
                },
            }
            let mut out_targets: Vec<(String, Shell)> = Vec::new();
            match targets {
                Some(ts) => {
                    let mut i: usize = 0;
                    while i < ts.len()
                        invariant
                            0 <= i <= ts@.len(),
                            out_targets@.len() == i,
                            forall|k: int| 0 <= k < i ==> shell_wf((#[trigger] ts@[k]).1.deep_view()),
                            forall|k: int|
                                0 <= k < i ==> ((#[trigger] out_targets@[k]).0@ == ts@[k].0@
                                    && out_targets@[k].1.deep_view() == ts@[k].1.deep_view()
                                    && shell_wf(out_targets@[k].1.deep_view())),
                        decreases ts@.len() - i,
                    {
                        match check_shell(&ts[i].1, "default_shell.targets") {
                            Ok(()) => {},
                            Err(e) => {
                                proof {
                                    assert(!shell_wf(ts@[i as int].1.deep_view()));
                                }
                                return Err(e);
                            },
                        }
                        out_targets.push((ts[i].0.clone(), dup_string_vec(&ts[i].1)));
                        i = i + 1;
                    }
                },
                None => {},
            }
            Ok(schema::DefaultShell { generic: dup_string_vec(generic), targets: out_targets })
        },
    }
}

// ------------------------------------------------------------------
// Finalization idempotence: a final configuration, read back as a raw
// one, normalizes to itself.
// ------------------------------------------------------------------

/// View equality of final cores.
pub open spec fn core_view_eq(a: schema::CommandCore, b: schema::CommandCore) -> bool {
    &&& a.execs.deep_view() == b.execs.deep_view()
    &&& match (a.shell, b.shell) {
        (Option::None, Option::None) => true,
        (Option::Some(x), Option::Some(y)) => x.deep_view() == y.deep_view(),
        _ => false,
    }
}

/// View equality of final wrappers.
pub open spec fn wrapper_view_eq(a: schema::CommandWrapper, b: schema::CommandWrapper) -> bool {
    &&& core_view_eq(a.generic, b.generic)
    &&& a.targets@.len() == b.targets@.len()
    &&& forall|i: int|
        0 <= i < a.targets@.len() ==> (#[trigger] a.targets@[i]).0@ == b.targets@[i].0@
            && core_view_eq(a.targets@[i].1, b.targets@[i].1)
}

/// View equality of final commands, directives compared structurally.
pub open spec fn command_view_eq(a: schema::Command, b: schema::Command) -> bool
    decreases a,
{
    &&& a.args.deep_view() == b.args.deep_view()
    &&& a.env_vars.deep_view() == b.env_vars.deep_view()
    &&& match (a.subcommands, b.subcommands) {
        (Option::None, Option::None) => true,
        (Option::Some(x), Option::Some(y)) => x@.len() == y@.len() && forall|i: int|
            0 <= i < x@.len() ==> (#[trigger] x@[i]).0@ == y@[i].0@ && command_view_eq(
                x@[i].1,
                y@[i].1,
            ),
        _ => false,
    }
    &&& match (a.order, b.order) {
        (Option::None, Option::None) => true,
        (Option::Some(x), Option::Some(y)) => crate::directive::directive_eq(x, y),
        _ => false,
    }
    &&& match (a.cmd, b.cmd) {
        (Option::None, Option::None) => true,
        (Option::Some(x), Option::Some(y)) => wrapper_view_eq(x, y),
        _ => false,
    }
}

/// The canonical raw reading of a final core.
pub open spec fn embeds_core(cc: schema::CommandCore, rc: RawCommandCore) -> bool {
    match rc {
        RawCommandCore::WithShell { execs: RawCommandBox::MultiStage(v), shell } => {
            &&& v.deep_view() == cc.execs.deep_view()
            &&& match (cc.shell, shell) {
                (Option::None, Option::None) => true,
                (Option::Some(x), Option::Some(y)) => x.deep_view() == y.deep_view(),
                _ => false,
            }
        },
        _ => false,
    }
}

/// The canonical raw reading of a final wrapper.
pub open spec fn embeds_wrapper(w: schema::CommandWrapper, rw: RawCommandWrapper) -> bool {
    match rw {
        RawCommandWrapper::Specific { generic, targets: Option::Some(ts) } => {
            &&& embeds_core(w.generic, generic)
            &&& ts@.len() == w.targets@.len()
            &&& forall|i: int|
                0 <= i < ts@.len() ==> (#[trigger] ts@[i]).0@ == w.targets@[i].0@ && embeds_core(
                    w.targets@[i].1,
                    ts@[i].1,
                )
        },
        _ => false,
    }
}

/// The canonical raw reading of a final command. Only branch-free
/// directives can be read back as text (their bare form), and a directive
/// name may not contain `{`.
pub open spec fn embeds_command(c: schema::Command, rc: RawCommand) -> bool
    decreases c,
{
    match rc {
        RawCommand::Full { args, env_vars, subcommands, order, cmd } => {
            &&& (match args {
                Option::Some(a) => c.args@.len() > 0 && a.deep_view() == c.args.deep_view(),
                Option::None => c.args@.len() == 0,
            })
            &&& env_vars matches Option::Some(e) && e.deep_view() == c.env_vars.deep_view()
            &&& match (c.subcommands, subcommands) {
                (Option::None, Option::None) => true,
                (Option::Some(x), Option::Some(y)) => x@.len() == y@.len() && forall|i: int|
                    0 <= i < x@.len() ==> (#[trigger] x@[i]).0@ == y@[i].0@ && embeds_command(
                        x@[i].1,
                        y@[i].1,
                    ),
                _ => false,
            }
            &&& match (c.order, order) {
                (Option::None, Option::None) => true,
                (Option::Some(d), Option::Some(text)) => d.1@.len() == 0 && text@ == d.0@
                    && !text@.contains('{'),
                _ => false,
            }
            &&& match (c.cmd, cmd) {
                (Option::None, Option::None) => true,
                (Option::Some(w), Option::Some(rw)) => embeds_wrapper(w, rw),
                _ => false,
            }
        },
        _ => false,
    }
}

/// The canonical raw reading of a final configuration.
pub open spec fn embeds_config(c: schema::Config, raw: Config) -> bool {
    &&& raw.version@ == c.version@
    &&& raw.env_files matches Option::Some(e) && e.deep_view() == c.env_files.deep_view()
    &&& match raw.default_shell {
        Option::Some(RawDefaultShell::WithTargets { generic, targets: Option::Some(ts) }) => {
            &&& generic.deep_view() == c.default_shell.generic.deep_view()
            &&& ts@.len() == c.default_shell.targets@.len()
            &&& forall|i: int|
                0 <= i < ts@.len() ==> (#[trigger] ts@[i]).0@ == c.default_shell.targets@[i].0@
                    && ts@[i].1.deep_view() == c.default_shell.targets@[i].1.deep_view()
        },
        _ => false,
    }
    &&& raw.scripts@.len() == c.scripts@.len()
    &&& forall|i: int|
        0 <= i < raw.scripts@.len() ==> (#[trigger] raw.scripts@[i]).0@ == c.scripts@[i].0@
            && embeds_command(c.scripts@[i].1, raw.scripts@[i].1)
}

proof fn lemma_core_idempotent(cc: schema::CommandCore, rc: RawCommandCore, out: schema::CommandCore)
    requires
        embeds_core(cc, rc),
        core_rel(rc, out),
    ensures
        core_view_eq(out, cc),
{
}

proof fn lemma_wrapper_idempotent(
    w: schema::CommandWrapper,
    rw: RawCommandWrapper,
    out: schema::CommandWrapper,
)
    requires
        embeds_wrapper(w, rw),
        wrapper_rel(rw, out),
    ensures
        wrapper_view_eq(out, w),
{
    match rw {
        RawCommandWrapper::Specific { generic, targets: Option::Some(ts) } => {
            lemma_core_idempotent(w.generic, generic, out.generic);
            assert forall|i: int| 0 <= i < out.targets@.len() implies (
            #[trigger] out.targets@[i]).0@ == w.targets@[i].0@ && core_view_eq(
                out.targets@[i].1,
                w.targets@[i].1,
            ) by {
                lemma_core_idempotent(w.targets@[i].1, ts@[i].1, out.targets@[i].1);
            }
        },
        _ => {},
    }
}

/// Law (finalization idempotence): a well-formed final command, read back as
/// a raw one in the canonical way, normalizes to a command with exactly the
/// same content.
pub proof fn lemma_command_finalize_idempotent(
    c: schema::Command,
    rc: RawCommand,
    flag: bool,
    out: schema::Command,
)
    requires
        command_wf(c, flag),
        embeds_command(c, rc),
        command_rel(rc, flag, out),
    ensures
        command_view_eq(out, c),
    decreases c,
{
    match rc {
        RawCommand::Full { args, env_vars, subcommands, order, cmd } => {
            match args {
                Option::None => {
                    assert(c.args@.len() == 0);
                    assert(c.args.deep_view() =~= Seq::<Seq<char>>::empty());
                },
                Option::Some(a) => {
                    if flag {
                        assert(c.args@.len() == 0);
                        assert(false);
                    }
                },
            }
            match (c.subcommands, subcommands, out.subcommands) {
                (Option::Some(x), Option::Some(y), Option::Some(z)) => {
                    assert forall|i: int| 0 <= i < z@.len() implies (#[trigger] z@[i]).0@
                        == x@[i].0@ && command_view_eq(z@[i].1, x@[i].1) by {
                        assert(command_wf(x@[i].1, c.order is Some));
                        assert(embeds_command(x@[i].1, y@[i].1));
                        assert(command_rel(y@[i].1, order is Some, z@[i].1));
                        lemma_command_finalize_idempotent(
                            x@[i].1,
                            y@[i].1,
                            c.order is Some,
                            z@[i].1,
                        );
                    }
                },
                _ => {},
            }
            match (c.order, order, out.order) {
                (Option::Some(d), Option::Some(text), Option::Some(d2)) => {
                    assert(crate::directive::directive_eq(d2, d));
                },
                _ => {},
            }
            match (c.cmd, cmd, out.cmd) {
                (Option::Some(w), Option::Some(rw), Option::Some(ow)) => {
                    lemma_wrapper_idempotent(w, rw, ow);
                },
                _ => {},
            }
        },
        _ => {},
    }
}

/// Law (finalization idempotence): a well-formed final configuration, read
/// back as a raw configuration in the canonical way, normalizes to a
/// configuration with exactly the same content. Together with the cache
/// codec reading back what it wrote, a cached configuration reloads as
/// itself.
pub proof fn lemma_config_finalize_idempotent(c: schema::Config, raw: Config, out: schema::Config)
    requires
        config_wf(c),
        embeds_config(c, raw),
        config_rel(raw, out),
    ensures
        out.version@ == c.version@,
        out.env_files.deep_view() == c.env_files.deep_view(),
        out.default_shell.generic.deep_view() == c.default_shell.generic.deep_view(),
        out.default_shell.targets@.len() == c.default_shell.targets@.len(),
        forall|i: int|
            0 <= i < out.default_shell.targets@.len() ==> (
            #[trigger] out.default_shell.targets@[i]).0@ == c.default_shell.targets@[i].0@
                && out.default_shell.targets@[i].1.deep_view()
                == c.default_shell.targets@[i].1.deep_view(),
        out.scripts@.len() == c.scripts@.len(),
        forall|i: int|
            0 <= i < out.scripts@.len() ==> (#[trigger] out.scripts@[i]).0@ == c.scripts@[i].0@
                && command_view_eq(out.scripts@[i].1, c.scripts@[i].1),
{
    match raw.default_shell {
        Option::Some(RawDefaultShell::WithTargets { generic, targets: Option::Some(ts) }) => {
            assert forall|i: int| 0 <= i < out.default_shell.targets@.len() implies (
            #[trigger] out.default_shell.targets@[i]).0@ == c.default_shell.targets@[i].0@
                && out.default_shell.targets@[i].1.deep_view()
                == c.default_shell.targets@[i].1.deep_view() by {
                assert(ts@[i].0@ == out.default_shell.targets@[i].0@);
                assert(ts@[i].0@ == c.default_shell.targets@[i].0@);
                assert(ts@[i].1.deep_view() == out.default_shell.targets@[i].1.deep_view());
                assert(ts@[i].1.deep_view() == c.default_shell.targets@[i].1.deep_view());
            }
        },
        _ => {},
    }
    assert forall|i: int| 0 <= i < out.scripts@.len() implies (#[trigger] out.scripts@[i]).0@
        == c.scripts@[i].0@ && command_view_eq(out.scripts@[i].1, c.scripts@[i].1) by {
        assert(command_wf(c.scripts@[i].1, false));
        assert(embeds_command(c.scripts@[i].1, raw.scripts@[i].1));
        assert(command_rel(raw.scripts@[i].1, false, out.scripts@[i].1));
        lemma_command_finalize_idempotent(
            c.scripts@[i].1,
            raw.scripts@[i].1,
            false,
            out.scripts@[i].1,
        );
    }
}

// ------------------------------------------------------------------
// What extraction reads out of the parsed tree: for each field, which
// shapes are accepted and what raw value they denote.
// ------------------------------------------------------------------

/// The index of the first table entry with the given key, scanning from `i`.
pub open spec fn table_first_index(t: Seq<(String, TomlValue)>, key: Seq<char>, i: int) -> Option<
    int,
>
    decreases t.len() - i,
{
    if !(0 <= i < t.len()) {
        None
    } else if t[i].0@ == key {
        Some(i)
    } else {
        table_first_index(t, key, i + 1)
    }
}

/// The first table entry with the given key.
pub open spec fn table_get_s(t: Seq<(String, TomlValue)>, key: Seq<char>) -> Option<TomlValue> {
    match table_first_index(t, key, 0) {
        Option::Some(k) => Some(t[k].1),
        Option::None => None,
    }
}

/// A list of strings.
pub open spec fn string_list_extractable(v: TomlValue) -> bool {
    v matches TomlValue::List(items) && forall|i: int|
        0 <= i < items@.len() ==> (#[trigger] items@[i]) matches TomlValue::Text(_)
}

/// The strings such a list denotes.
pub open spec fn string_list_ext_rel(v: TomlValue, out: Seq<Seq<char>>) -> bool {
    v matches TomlValue::List(items) && items@.len() == out.len() && forall|i: int|
        0 <= i < out.len() ==> ((#[trigger] items@[i]) matches TomlValue::Text(sv) && sv@ == out[i])
}

/// A command box: one string or a list of strings.
pub open spec fn box_extractable(v: TomlValue) -> bool {
    match v {
        TomlValue::Text(_) => true,
        TomlValue::List(_) => string_list_extractable(v),
        _ => false,
    }
}

/// The raw box such a value denotes.
pub open spec fn box_ext_rel(v: TomlValue, b: RawCommandBox) -> bool {
    match v {
        TomlValue::Text(sv) => b matches RawCommandBox::Single(s2) && s2@ == sv@,
        TomlValue::List(_) => b matches RawCommandBox::MultiStage(l) && string_list_ext_rel(
            v,
            l.deep_view(),
        ),
        _ => false,
    }
}

/// A command core: a box, or a table with an `exec` box and an optional
/// `shell` list.
pub open spec fn core_extractable(v: TomlValue) -> bool {
    match v {
        TomlValue::Text(_) | TomlValue::List(_) => box_extractable(v),
        TomlValue::Table(t) => match table_get_s(t@, "exec"@) {
            Option::Some(ev) => box_extractable(ev) && match table_get_s(t@, "shell"@) {
                Option::Some(sv) => string_list_extractable(sv),
                Option::None => true,
            },
            Option::None => false,
        },
        _ => false,
    }
}

/// The raw core such a value denotes.
pub open spec fn core_ext_rel(v: TomlValue, c: RawCommandCore) -> bool {
    match v {
        TomlValue::Text(_) | TomlValue::List(_) => c matches RawCommandCore::Bare(b) && box_ext_rel(
            v,
            b,
        ),
        TomlValue::Table(t) => c matches RawCommandCore::WithShell { execs, shell } && (table_get_s(
            t@,
            "exec"@,
        ) matches Option::Some(ev) && box_ext_rel(ev, execs)) && (match (
            table_get_s(t@, "shell"@),
            shell,
        ) {
            (Option::None, Option::None) => true,
            (Option::Some(sv), Option::Some(sh)) => string_list_ext_rel(sv, sh.deep_view()),
            _ => false,
        }),
        _ => false,
    }
}

/// A command wrapper: a box; a table with `exec` (a core); or a per-target
/// table with a mandatory `generic` and an optional `targets` table of
/// cores.
pub open spec fn wrapper_extractable(v: TomlValue) -> bool {
    match v {
        TomlValue::Text(_) | TomlValue::List(_) => box_extractable(v),
        TomlValue::Table(t) => {
            if table_get_s(t@, "exec"@) is Some {
                core_extractable(v)
            } else {
                match table_get_s(t@, "generic"@) {
                    Option::None => false,
                    Option::Some(gv) => core_extractable(gv) && match table_get_s(t@, "targets"@) {
                        Option::None => true,
                        Option::Some(TomlValue::Table(ts)) => forall|i: int|
                            0 <= i < ts@.len() ==> core_extractable((#[trigger] ts@[i]).1),
                        Option::Some(_) => false,
                    },
                }
            }
        },
        _ => false,
    }
}

/// The raw wrapper such a value denotes.
pub open spec fn wrapper_ext_rel(v: TomlValue, w: RawCommandWrapper) -> bool {
    match v {
        TomlValue::Text(_) | TomlValue::List(_) => w matches RawCommandWrapper::Universal(
            RawCommandCore::Bare(b),
        ) && box_ext_rel(v, b),
        TomlValue::Table(t) => {
            if table_get_s(t@, "exec"@) is Some {
                w matches RawCommandWrapper::Universal(cc) && core_ext_rel(v, cc)
            } else {
                w matches RawCommandWrapper::Specific { generic, targets } && (table_get_s(
                    t@,
                    "generic"@,
                ) matches Option::Some(gv) && core_ext_rel(gv, generic)) && (match (
                    table_get_s(t@, "targets"@),
                    targets,
                ) {
                    (Option::None, Option::None) => true,
                    (Option::Some(TomlValue::Table(ts)), Option::Some(ots)) => ts@.len()
                        == ots@.len() && forall|i: int|
                        0 <= i < ts@.len() ==> (#[trigger] ts@[i]).0@ == ots@[i].0@ && core_ext_rel(
                            ts@[i].1,
                            ots@[i].1,
                        ),
                    _ => false,
                })
            }
        },
        _ => false,
    }
}

/// A script entry: a wrapper shorthand (a box, or a table with `exec`,
/// `generic` or `targets`), or the full record with its optional fields;
/// unknown keys are ignored.
pub open spec fn command_extractable(v: TomlValue) -> bool
    decreases v,
{
    match v {
        TomlValue::Text(_) | TomlValue::List(_) => box_extractable(v),
        TomlValue::Table(t) => {
            if table_get_s(t@, "exec"@) is Some || table_get_s(t@, "generic"@) is Some
                || table_get_s(t@, "targets"@) is Some {
                wrapper_extractable(v)
            } else {
                &&& match table_get_s(t@, "args"@) {
                    Option::Some(av) => string_list_extractable(av),
                    Option::None => true,
                }
                &&& match table_get_s(t@, "env_vars"@) {
                    Option::Some(ev) => string_list_extractable(ev),
                    Option::None => true,
                }
                &&& match table_first_index(t@, "subcommands"@, 0) {
                    Option::Some(k) => 0 <= k < t@.len() && match t@[k].1 {
                        TomlValue::Table(ss) => forall|i: int|
                            0 <= i < ss@.len() ==> command_extractable((#[trigger] ss@[i]).1),
                        _ => false,
                    },
                    Option::None => true,
                }
                &&& match table_get_s(t@, "order"@) {
                    Option::Some(ov) => ov matches TomlValue::Text(_),
                    Option::None => true,
                }
                &&& match table_get_s(t@, "cmd"@) {
                    Option::Some(cv) => wrapper_extractable(cv),
                    Option::None => true,
                }
            }
        },
        _ => false,
    }
}

/// The raw script entry such a value denotes.
pub open spec fn command_ext_rel(v: TomlValue, rc: RawCommand) -> bool
    decreases v,
{
    match v {
        TomlValue::Text(_) | TomlValue::List(_) => rc matches RawCommand::Shorthand(w)
            && wrapper_ext_rel(v, w),
        TomlValue::Table(t) => {
            if table_get_s(t@, "exec"@) is Some || table_get_s(t@, "generic"@) is Some
                || table_get_s(t@, "targets"@) is Some {
                rc matches RawCommand::Shorthand(w) && wrapper_ext_rel(v, w)
            } else {
                rc matches RawCommand::Full { args, env_vars, subcommands, order, cmd } && ({
                    &&& match (table_get_s(t@, "args"@), args) {
                        (Option::None, Option::None) => true,
                        (Option::Some(av), Option::Some(al)) => string_list_ext_rel(
                            av,
                            al.deep_view(),
                        ),
                        _ => false,
                    }
                    &&& match (table_get_s(t@, "env_vars"@), env_vars) {
                        (Option::None, Option::None) => true,
                        (Option::Some(ev), Option::Some(el)) => string_list_ext_rel(
                            ev,
                            el.deep_view(),
                        ),
                        _ => false,
                    }
                    &&& match (table_first_index(t@, "subcommands"@, 0), subcommands) {
                        (Option::None, Option::None) => true,
                        (Option::Some(k), Option::Some(oss)) => 0 <= k < t@.len() && match t@[k].1 {
                            TomlValue::Table(ss) => ss@.len() == oss@.len() && forall|i: int|
                                0 <= i < ss@.len() ==> (#[trigger] ss@[i]).0@ == oss@[i].0@
                                    && command_ext_rel(ss@[i].1, oss@[i].1),
                            _ => false,
                        },
                        _ => false,
                    }
                    &&& match (table_get_s(t@, "order"@), order) {
                        (Option::None, Option::None) => true,
                        (Option::Some(ov), Option::Some(os)) => ov matches TomlValue::Text(sv)
                            && sv@ == os@,
                        _ => false,
                    }
                    &&& match (table_get_s(t@, "cmd"@), cmd) {
                        (Option::None, Option::None) => true,
                        (Option::Some(cv), Option::Some(cw)) => wrapper_ext_rel(cv, cw),
                        _ => false,
                    }
                })
            }
        },
        _ => false,
    }
}

/// A default shell: a list (the bare shell), or a table with a mandatory
/// `generic` list and an optional `targets` table of lists.
pub open spec fn dsh_extractable(v: TomlValue) -> bool {
    match v {
        TomlValue::List(_) => string_list_extractable(v),
        TomlValue::Table(t) => match table_get_s(t@, "generic"@) {
            Option::None => false,
            Option::Some(gv) => string_list_extractable(gv) && match table_get_s(t@, "targets"@) {
                Option::None => true,
                Option::Some(TomlValue::Table(ts)) => forall|i: int|
                    0 <= i < ts@.len() ==> string_list_extractable((#[trigger] ts@[i]).1),
                Option::Some(_) => false,
            },
        },
        _ => false,
    }
}

/// The raw default shell such a value denotes.
pub open spec fn dsh_ext_rel(v: TomlValue, d: RawDefaultShell) -> bool {
    match v {
        TomlValue::List(_) => d matches RawDefaultShell::Bare(sh) && string_list_ext_rel(
            v,
            sh.deep_view(),
        ),
        TomlValue::Table(t) => d matches RawDefaultShell::WithTargets { generic, targets }
            && (table_get_s(t@, "generic"@) matches Option::Some(gv) && string_list_ext_rel(
            gv,
            generic.deep_view(),
        )) && (match (table_get_s(t@, "targets"@), targets) {
            (Option::None, Option::None) => true,
            (Option::Some(TomlValue::Table(ts)), Option::Some(ots)) => ts@.len() == ots@.len()
                && forall|i: int|
                0 <= i < ts@.len() ==> (#[trigger] ts@[i]).0@ == ots@[i].0@ && string_list_ext_rel(
                    ts@[i].1,
                    ots@[i].1.deep_view(),
                ),
            _ => false,
        }),
        _ => false,
    }
}

/// A configuration document: a table with a string `version` (mandatory),
/// an optional `env_files` list, an optional `default_shell`, and a
/// mandatory `scripts` table of script entries; unknown keys are ignored.
pub open spec fn config_extractable(v: TomlValue) -> bool {
    match v {
        TomlValue::Table(t) => {
            &&& (table_get_s(t@, "version"@) matches Option::Some(TomlValue::Text(_)))
            &&& match table_get_s(t@, "env_files"@) {
                Option::Some(ev) => string_list_extractable(ev),
                Option::None => true,
            }
            &&& match table_get_s(t@, "default_shell"@) {
                Option::Some(dv) => dsh_extractable(dv),
                Option::None => true,
            }
            &&& match table_first_index(t@, "scripts"@, 0) {
                Option::Some(k) => match t@[k].1 {
                    TomlValue::Table(ss) => forall|i: int|
                        0 <= i < ss@.len() ==> command_extractable((#[trigger] ss@[i]).1),
                    _ => false,
                },
                Option::None => false,
            }
        },
        _ => false,
    }
}

/// The raw configuration such a document denotes.
pub open spec fn config_ext_rel(v: TomlValue, c: Config) -> bool {
    match v {
        TomlValue::Table(t) => {
            &&& (table_get_s(t@, "version"@) matches Option::Some(TomlValue::Text(sv)) && sv@
                == c.version@)
            &&& match (table_get_s(t@, "env_files"@), c.env_files) {
                (Option::None, Option::None) => true,
                (Option::Some(ev), Option::Some(el)) => string_list_ext_rel(ev, el.deep_view()),
                _ => false,
            }
            &&& match (table_get_s(t@, "default_shell"@), c.default_shell) {
                (Option::None, Option::None) => true,
                (Option::Some(dv), Option::Some(d)) => dsh_ext_rel(dv, d),
                _ => false,
            }
            &&& match table_first_index(t@, "scripts"@, 0) {
                Option::Some(k) => match t@[k].1 {
                    TomlValue::Table(ss) => ss@.len() == c.scripts@.len() && forall|i: int|
                        0 <= i < ss@.len() ==> (#[trigger] ss@[i]).0@ == c.scripts@[i].0@
                            && command_ext_rel(ss@[i].1, c.scripts@[i].1),
                    _ => false,
                },
                Option::None => false,
            }
        },
        _ => false,
    }
}

// ------------------------------------------------------------------
// Extraction: reading the raw form out of the parsed TOML tree. The
// accepted shapes per field follow the documentation: a script may be a
// bare string, a list of strings, a per-target table, an `exec`/`shell`
// table, or the full record; unknown keys are ignored.
// ------------------------------------------------------------------

/// The first entry of the table with the given key.
#[verifier::loop_isolation(false)]
fn table_get<'a>(t: &'a Vec<(String, TomlValue)>, key: &str) -> (r: Option<&'a TomlValue>)
    ensures
        match r {
            Option::Some(x) => {
                &&& table_get_s(t@, key@) == Some(*x)
                &&& (table_first_index(t@, key@, 0) matches Option::Some(k) && 0 <= k < t@.len()
                    && *x == t@[k].1)
            },
            Option::None => table_get_s(t@, key@) is None && table_first_index(t@, key@, 0) is None,
        },
{
    let mut i: usize = 0;
    while i < t.len()
        invariant
            0 <= i <= t@.len(),
            table_first_index(t@, key@, 0) == table_first_index(t@, key@, i as int),
        decreases t@.len() - i,
    {
        if str_eq(t[i].0.as_str(), key) {
            return Some(&t[i].1);
        }
        i = i + 1;
    }
    None
}

fn field_error(field: &str, expected: &str) -> (r: String) {
    let mut msg = "Invalid Bonnie configuration file: the field '".to_owned();
    msg.append(field);
    msg.append("' must be ");
    msg.append(expected);
    msg.append(".");
    msg
}

fn extract_string(v: &TomlValue, field: &str) -> (r: Result<String, String>)
    ensures
        r is Ok <==> v matches TomlValue::Text(_),
        r matches Ok(out) ==> (v matches TomlValue::Text(sv) && out@ == sv@),
{
    match v {
        TomlValue::Text(s) => Ok(s.clone()),
        _ => Err(field_error(field, "a string")),
    }
}

#[verifier::loop_isolation(false)]
fn extract_string_list(v: &TomlValue, field: &str) -> (r: Result<Vec<String>, String>)
    ensures
        r is Ok <==> string_list_extractable(*v),
        r matches Ok(out) ==> string_list_ext_rel(*v, out.deep_view()),
{
    match v {
        TomlValue::List(items) => {
            let mut out: Vec<String> = Vec::new();
            let mut i: usize = 0;
            while i < items.len()
                invariant
                    0 <= i <= items@.len(),
                    out@.len() == i,
                    forall|k: int|
                        0 <= k < i ==> ((#[trigger] items@[k]) matches TomlValue::Text(sv) && sv@
                            == out@[k]@),
                decreases items@.len() - i,
            {
                match &items[i] {
                    TomlValue::Text(s) => {
                        out.push(s.clone());
                    },
                    _ => {
                        proof {
                            assert(!(items@[i as int] matches TomlValue::Text(_)));
                        }
                        return Err(field_error(field, "a list of strings"));
                    },
                }
                i = i + 1;
            }
            proof {
                assert(forall|k: int|
                    0 <= k < out@.len() ==> out.deep_view()[k] == (#[trigger] out@[k])@);
            }
            Ok(out)
        },
        _ => Err(field_error(field, "a list of strings")),
    }
}

fn extract_box(v: &TomlValue, field: &str) -> (r: Result<RawCommandBox, String>)
    ensures
        r is Ok <==> box_extractable(*v),
        r matches Ok(b) ==> box_ext_rel(*v, b),
{
    match v {
        TomlValue::Text(s) => Ok(RawCommandBox::Single(s.clone())),
        TomlValue::List(_) => {
            match extract_string_list(v, field) {
                Ok(items) => Ok(RawCommandBox::MultiStage(items)),
                Err(e) => Err(e),
            }
        },
        _ => Err(field_error(field, "a command string or a list of command strings")),
    }
}

fn extract_core(v: &TomlValue, field: &str) -> (r: Result<RawCommandCore, String>)
    ensures
        r is Ok <==> core_extractable(*v),
        r matches Ok(c) ==> core_ext_rel(*v, c),
{
    match v {
        TomlValue::Text(_) | TomlValue::List(_) => {
            match extract_box(v, field) {
                Ok(b) => Ok(RawCommandCore::Bare(b)),
                Err(e) => Err(e),
            }
        },
        TomlValue::Table(t) => {
            let execs_val = match table_get(t, "exec") {
                Some(x) => x,
                None => {
                    return Err(
                        field_error(
                            field,
                            "a command string, a list of command strings, or a table with an `exec` key",
                        ),
                    );
                },
            };
            let execs = match extract_box(execs_val, field) {
                Ok(b) => b,
                Err(e) => {
                    return Err(e);
                },
            };
            let shell: Option<Shell> = match table_get(t, "shell") {
                Some(sv) => {
                    match extract_string_list(sv, "shell") {
                        Ok(sh) => Some(sh),
                        Err(e) => {
                            return Err(e);
                        },
                    }
                },
                None => None,
            };
            Ok(RawCommandCore::WithShell { execs, shell })
        },
        TomlValue::Other => Err(
            field_error(field, "a command string, a list of command strings, or a table"),
        ),
    }
}

#[verifier::loop_isolation(false)]
fn extract_wrapper(v: &TomlValue, field: &str) -> (r: Result<RawCommandWrapper, String>)
    ensures
        r is Ok <==> wrapper_extractable(*v),
        r matches Ok(w) ==> wrapper_ext_rel(*v, w),
{
    match v {
        TomlValue::Text(_) | TomlValue::List(_) => {
            match extract_box(v, field) {
                Ok(b) => Ok(RawCommandWrapper::Universal(RawCommandCore::Bare(b))),
                Err(e) => Err(e),
            }
        },
        TomlValue::Table(t) => {
            if table_get(t, "exec").is_some() {
                match extract_core(v, field) {
                    Ok(cc) => {
                        return Ok(RawCommandWrapper::Universal(cc));
                    },
                    Err(e) => {
                        return Err(e);
                    },
                }
            }
            // the per-target form: `generic` is mandatory once either
            // per-target key appears
            let generic_val = match table_get(t, "generic") {
                Some(x) => x,
                None => {
                    return Err(
                        field_error(
                            field,
                            "given with a `generic` variant (a per-target command must name the fallback to use on other targets)",
                        ),
                    );
                },
            };
            let generic = match extract_core(generic_val, field) {
                Ok(cc) => cc,
                Err(e) => {
                    return Err(e);
                },
            };
            let targets: Option<Vec<(String, RawCommandCore)>> = match table_get(t, "targets") {
                Some(TomlValue::Table(ts)) => {
                    let mut out: Vec<(String, RawCommandCore)> = Vec::new();
                    let mut i: usize = 0;
                    while i < ts.len()
                        invariant
                            0 <= i <= ts@.len(),
                            out@.len() == i,
                            forall|k: int| 0 <= k < i ==> core_extractable((#[trigger] ts@[k]).1),
                            forall|k: int|
                                0 <= k < i ==> ((#[trigger] out@[k]).0@ == ts@[k].0@ && core_ext_rel(
                                    ts@[k].1,
                                    out@[k].1,
                                )),
                        decreases ts@.len() - i,
                    {
                        let cc = match extract_core(&ts[i].1, "targets") {
                            Ok(cc) => cc,
                            Err(e) => {
                                proof {
                                    assert(!core_extractable(ts@[i as int].1));
                                }
                                return Err(e);
                            },
                        };
                        out.push((ts[i].0.clone(), cc));
                        i = i + 1;
                    }
                    Some(out)
                },
                Some(_) => {
                    return Err(field_error("targets", "a table of per-target commands"));
                },
                None => None,
            };
            Ok(RawCommandWrapper::Specific { generic, targets })
        },
        TomlValue::Other => Err(
            field_error(field, "a command string, a list of command strings, or a table"),
        ),
    }
}

#[verifier::loop_isolation(false)]
fn extract_command(v: &TomlValue, script_name: &str) -> (r: Result<RawCommand, String>)
    ensures
        r is Ok <==> command_extractable(*v),
        r matches Ok(rc) ==> command_ext_rel(*v, rc),
    decreases *v,
{
    match v {
        TomlValue::Text(_) | TomlValue::List(_) => {
            match extract_wrapper(v, script_name) {
                Ok(w) => Ok(RawCommand::Shorthand(w)),
                Err(e) => Err(e),
            }
        },
        TomlValue::Table(t) => {
            // the wrapper shorthands, tried first: an `exec` table or a
            // per-target table
            if table_get(t, "exec").is_some() || table_get(t, "generic").is_some() || table_get(
                t,
                "targets",
            ).is_some() {
                match extract_wrapper(v, script_name) {
                    Ok(w) => {
                        return Ok(RawCommand::Shorthand(w));
                    },
                    Err(e) => {
                        return Err(e);
                    },
                }
            }
            // the full record
            let args: Option<Vec<String>> = match table_get(t, "args") {
                Some(x) => {
                    match extract_string_list(x, "args") {
                        Ok(l) => Some(l),
                        Err(e) => {
                            return Err(e);
                        },
                    }
                },
                None => None,
            };
            let env_vars: Option<Vec<String>> = match table_get(t, "env_vars") {
                Some(x) => {
                    match extract_string_list(x, "env_vars") {
                        Ok(l) => Some(l),
                        Err(e) => {
                            return Err(e);
                        },
                    }
                },
                None => None,
            };
            let subcommands: Option<Vec<(String, RawCommand)>> = match table_get(t, "subcommands") {
                Some(sub_val) => {
                    let ss = match sub_val {
                        TomlValue::Table(ss) => ss,
                        _ => {
                            return Err(field_error("subcommands", "a table of scripts"));
                        },
                    };
                    proof {
                        let j = table_first_index(t@, "subcommands"@, 0)->Some_0;
                        assert(t@[j].1 == TomlValue::Table(*ss));
                    }
                    let mut out: Vec<(String, RawCommand)> = Vec::new();
                    let mut i: usize = 0;
                    while i < ss.len()
                        invariant
                            0 <= i <= ss@.len(),
                            out@.len() == i,
                            forall|k: int|
                                0 <= k < i ==> command_extractable((#[trigger] ss@[k]).1),
                            forall|k: int|
                                0 <= k < i ==> ((#[trigger] out@[k]).0@ == ss@[k].0@
                                    && command_ext_rel(ss@[k].1, out@[k].1)),
                        decreases ss@.len() - i,
                    {
                        let sub = match extract_command(&ss[i].1, ss[i].0.as_str()) {
                            Ok(c) => c,
                            Err(e) => {
                                proof {
                                    assert(!command_extractable(ss@[i as int].1));
                                }
                                return Err(e);
                            },
                        };
                        out.push((ss[i].0.clone(), sub));
                        i = i + 1;
                    }
                    Some(out)
                },
                None => None,
            };
            let order: Option<String> = match table_get(t, "order") {
                Some(x) => {
                    match extract_string(x, "order") {
                        Ok(s2) => Some(s2),
                        Err(e) => {
                            return Err(e);
                        },
                    }
                },
                None => None,
            };
            let cmd: Option<RawCommandWrapper> = match table_get(t, "cmd") {
                Some(x) => {
                    match extract_wrapper(x, "cmd") {
                        Ok(w) => Some(w),
                        Err(e) => {
                            return Err(e);
                        },
                    }
                },
                None => None,
            };
            Ok(RawCommand::Full { args, env_vars, subcommands, order, cmd })
        },
        TomlValue::Other => Err(
            field_error(script_name, "a command string, a list of command strings, or a table"),
        ),
    }
}

#[verifier::loop_isolation(false)]
fn extract_default_shell(v: &TomlValue) -> (r: Result<RawDefaultShell, String>)
    ensures
        r is Ok <==> dsh_extractable(*v),
        r matches Ok(d) ==> dsh_ext_rel(*v, d),
{
    match v {
        TomlValue::List(_) => {
            match extract_string_list(v, "default_shell") {
                Ok(sh) => Ok(RawDefaultShell::Bare(sh)),
                Err(e) => Err(e),
            }
        },
        TomlValue::Table(t) => {
            let generic_val = match table_get(t, "generic") {
                Some(x) => x,
                None => {
                    return Err(
                        field_error("default_shell", "given with a `generic` shell"),
                    );
                },
            };
            let generic = match extract_string_list(generic_val, "default_shell.generic") {
                Ok(sh) => sh,
                Err(e) => {
                    return Err(e);
                },
            };
            let targets: Option<Vec<(String, Shell)>> = match table_get(t, "targets") {
                Some(TomlValue::Table(ts)) => {
                    let mut out: Vec<(String, Shell)> = Vec::new();
                    let mut i: usize = 0;
                    while i < ts.len()
                        invariant
                            0 <= i <= ts@.len(),
                            out@.len() == i,
                            forall|k: int|
                                0 <= k < i ==> string_list_extractable((#[trigger] ts@[k]).1),
                            forall|k: int|
                                0 <= k < i ==> ((#[trigger] out@[k]).0@ == ts@[k].0@
                                    && string_list_ext_rel(ts@[k].1, out@[k].1.deep_view())),
                        decreases ts@.len() - i,
                    {
                        let sh = match extract_string_list(&ts[i].1, "default_shell.targets") {
                            Ok(sh) => sh,
                            Err(e) => {
                                proof {
                                    assert(!string_list_extractable(ts@[i as int].1));
                                }
                                return Err(e);
                            },
                        };
                        out.push((ts[i].0.clone(), sh));
                        i = i + 1;
                    }
                    Some(out)
                },
                Some(_) => {
                    return Err(field_error("default_shell.targets", "a table of shells"));
                },
                None => None,
            };
            Ok(RawDefaultShell::WithTargets { generic, targets })
        },
        _ => Err(field_error("default_shell", "a shell or a table with a `generic` shell")),
    }
}

impl Config {
    /// Reads a configuration string into its raw form: the TOML text is
    /// parsed by the trusted parser, and the permissive shapes of every
    /// field are read off the resulting tree (`toml_tree_of`). Succeeds
    /// exactly when the text is TOML and the tree has the accepted document
    /// shape; the `version` key is mandatory; unknown keys are ignored.
    #[verifier::loop_isolation(false)]
    pub fn new(cfg_string: &str) -> (r: Result<Self, String>)
        ensures
            r is Ok <==> toml_accepts(cfg_string@) && config_extractable(
                toml_tree_of(cfg_string@),
            ),
            r matches Ok(c) ==> config_ext_rel(toml_tree_of(cfg_string@), c),
    {
        let tree = match parse_toml_str(cfg_string) {
            Ok(t) => t,
            Err(e) => {
                let mut msg = "Invalid Bonnie configuration file. Error: '".to_owned();
                msg.append(e.as_str());
                msg.append("'");
                return Err(msg);
            },
        };
        let top = match &tree {
            TomlValue::Table(t) => t,
            _ => {
                return Err(
                    "Invalid Bonnie configuration file: the top level must be a table.".to_owned(),
                );
            },
        };
        let version = match table_get(top, "version") {
            Some(v) => {
                match extract_string(v, "version") {
                    Ok(s2) => s2,
                    Err(e) => {
                        return Err(e);
                    },
                }
            },
            None => {
                let mut msg =
                    "Your Bonnie configuration file appears to be missing a 'version' key. From Bonnie 0.2.0 onwards, this key is mandatory for compatibility reasons. Please add `version = \"".to_owned();
                msg.append(crate::version::BONNIE_VERSION);
                msg.append("\"` to the top of your Bonnie configuration file.");
                return Err(msg);
            },
        };
        let env_files: Option<Vec<String>> = match table_get(top, "env_files") {
            Some(v) => {
                match extract_string_list(v, "env_files") {
                    Ok(l) => Some(l),
                    Err(e) => {
                        return Err(e);
                    },
                }
            },
            None => None,
        };
        let default_shell: Option<RawDefaultShell> = match table_get(top, "default_shell") {
            Some(v) => {
                match extract_default_shell(v) {
                    Ok(d) => Some(d),
                    Err(e) => {
                        return Err(e);
                    },
                }
            },
            None => None,
        };
        let scripts: Vec<(String, RawCommand)> = match table_get(top, "scripts") {
            Some(TomlValue::Table(ss)) => {
                proof {
                    let j = table_first_index(top@, "scripts"@, 0)->Some_0;
                    assert(top@[j].1 == TomlValue::Table(*ss));
                }
                let mut out: Vec<(String, RawCommand)> = Vec::new();
                let mut i: usize = 0;
                while i < ss.len()
                    invariant
                        0 <= i <= ss@.len(),
                        out@.len() == i,
                        forall|k: int| 0 <= k < i ==> command_extractable((#[trigger] ss@[k]).1),
                        forall|k: int|
                            0 <= k < i ==> ((#[trigger] out@[k]).0@ == ss@[k].0@ && command_ext_rel(
                                ss@[k].1,
                                out@[k].1,
                            )),
                    decreases ss@.len() - i,
                {
                    let c = match extract_command(&ss[i].1, ss[i].0.as_str()) {
                        Ok(c) => c,
                        Err(e) => {
                            proof {
                                assert(!command_extractable(ss@[i as int].1));
                            }
                            return Err(e);
                        },
                    };
                    out.push((ss[i].0.clone(), c));
                    i = i + 1;
                }
                out
            },
            Some(_) => {
                return Err(field_error("scripts", "a table of scripts"));
            },
            None => {
                return Err(
                    "Invalid Bonnie configuration file: a `[scripts]` table is required.".to_owned(),
                );
            },
        };
        Ok(Config { version, env_files, default_shell, scripts })
    }

    /// Normalizes the raw configuration into the final schema, filling
    /// defaults and enforcing the structural invariants; the result is
    /// well-formed and related to the raw form by `config_rel`.
    #[verifier::loop_isolation(false)]
    pub fn parse(&self) -> (r: Result<schema::Config, String>)
        ensures
            r is Ok <==> config_finalizable(*self),
            r matches Ok(out) ==> config_rel(*self, out) && config_wf(out),
    {
        let default_shell = match finalize_default_shell(&self.default_shell) {
            Ok(ds) => ds,
            Err(e) => {
                return Err(e);
            },
        };
        let mut scripts: schema::Scripts = Vec::new();
        let mut i: usize = 0;
        while i < self.scripts.len()
            invariant
                0 <= i <= self.scripts@.len(),
                scripts@.len() == i,
                forall|k: int|
                    0 <= k < i ==> command_finalizable((#[trigger] self.scripts@[k]).1, false),
                forall|k: int|
                    0 <= k < i ==> ((#[trigger] scripts@[k]).0@ == self.scripts@[k].0@
                        && command_rel(self.scripts@[k].1, false, scripts@[k].1) && command_wf(
                        scripts@[k].1,
                        false,
                    )),
            decreases self.scripts@.len() - i,
        {
            let c = match finalize_command(&self.scripts[i].1, false, self.scripts[i].0.as_str()) {
                Ok(c) => c,
                Err(e) => {
                    proof {
                        assert(!command_finalizable(self.scripts@[i as int].1, false));
                    }
                    return Err(e);
                },
            };
            scripts.push((self.scripts[i].0.clone(), c));
            i = i + 1;
        }
        let env_files: Vec<String> = match &self.env_files {
            Some(e) => dup_string_vec(e),
            None => Vec::new(),
        };
        proof {
            if env_files@.len() == 0 {
                assert(env_files.deep_view() =~= Seq::<Seq<char>>::empty());
            }
        }
        let out = schema::Config { default_shell, scripts, env_files, version: self.version.clone() };
        proof {
            assert(config_rel(*self, out));
            assert(config_wf(out));
        }
        Ok(out)
    }

    /// Compares the configuration's `version` against the running tool's
    /// version. Incompatible versions (a different major component, or any
    /// difference when either side is pre-1.0) are a hard error; a different
    /// minor or patch component appends exactly one warning; identical
    /// versions append none; malformed version strings are an error.
    pub fn parse_version_against_current(
        &self,
        bonnie_version_str: &str,
        warnings: &mut Vec<String>,
    ) -> (r: Result<(), String>)
        ensures
            r is Ok <==> version_gate_ok(bonnie_version_str@, self.version@),
            version_gate_warns(bonnie_version_str@, self.version@) ==> final(warnings)@.len()
                == old(warnings)@.len() + 1,
            !version_gate_warns(bonnie_version_str@, self.version@) ==> final(warnings)@ == old(
                warnings,
            )@,
            forall|i: int|
                0 <= i < old(warnings)@.len() ==> final(warnings)@[i] == old(warnings)@[i],
    {
        let bonnie_version = match get_version_parts(bonnie_version_str) {
            Ok(v) => v,
            Err(e) => {
                return Err(e);
            },
        };
        let cfg_version = match get_version_parts(self.version.as_str()) {
            Ok(v) => v,
            Err(e) => {
                return Err(e);
            },
        };
        let compat = bonnie_version.is_compatible_with(&cfg_version);
        match compat {
            VersionCompatibility::DifferentBetaVersion(_)
            | VersionCompatibility::DifferentMajor(_) => {
                let mut msg =
                    "The provided configuration file is incompatible with this version of Bonnie. You are running Bonnie v".to_owned();
                msg.append(bonnie_version_str);
                msg.append(", but the configuration file expects Bonnie v");
                msg.append(self.version.as_str());
                msg.append(
                    ". This can be fixed by updating Bonnie or the configuration file to matching versions.",
                );
                Err(msg)
            },
            VersionCompatibility::DifferentMinor(_) | VersionCompatibility::DifferentPatch(_) => {
                let mut msg =
                    "The provided configuration file is compatible with this version of Bonnie, but has a different minor or patch version. You are running Bonnie v".to_owned();
                msg.append(bonnie_version_str);
                msg.append(", but the configuration file expects Bonnie v");
                msg.append(self.version.as_str());
                msg.append(". You may want to update Bonnie or the configuration file.");
                warnings.push(msg);
                Ok(())
            },
            VersionCompatibility::Identical => Ok(()),
        }
    }

    /// Fully normalizes the raw configuration: gates on the version, loads
    /// the declared environment files into the process environment, and
    /// parses the rest into the final schema. On success the result is
    /// well-formed, related to the raw form by `config_rel`, and the version
    /// gate passed; an incompatible or malformed version is always an error.
    /// Whether the environment files load depends on the file system.
    pub fn to_final(&self, bonnie_version_str: &str, warnings: &mut Vec<String>) -> (r: Result<
        schema::Config,
        String,
    >)
        ensures
            r matches Ok(out) ==> config_rel(*self, out) && config_wf(out) && version_gate_ok(
                bonnie_version_str@,
                self.version@,
            ) && config_finalizable(*self),
            !version_gate_ok(bonnie_version_str@, self.version@) ==> r is Err,
            (self.env_files is None || self.env_files->Some_0@.len() == 0) ==> (r is Ok
                <==> version_gate_ok(bonnie_version_str@, self.version@) && config_finalizable(
                *self,
            )),
            final(warnings)@.len() >= old(warnings)@.len(),
            forall|i: int|
                0 <= i < old(warnings)@.len() ==> final(warnings)@[i] == old(warnings)@[i],
    {
        match self.parse_version_against_current(bonnie_version_str, warnings) {
            Ok(()) => {},
            Err(e) => {
                return Err(e);
            },
        }
        let load_result = match &self.env_files {
            Some(files) => load_env_files(files),
            None => Ok(()),
        };
        match load_result {
            Ok(()) => {},
            Err(e) => {
                return Err(e);
            },
        }
        self.parse()
    }
}

} // verus!
