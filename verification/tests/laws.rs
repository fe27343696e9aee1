// Concrete checks of the library's laws and error behaviour: version
// classification symmetry, finalization determinism, directive first-match,
// interpolation completeness, exit-code propagation, and one input for each
// error kind.

use bonnie::bones::{Bone, BonesCore, RunAction};
use bonnie::ops::BonesOperator;
use bonnie::version::{build_version, get_version_parts, Version, VersionCompatibility, VersionDifference};
use bonnie::BONNIE_VERSION;
use std::io::Write;

fn write_env_file(contents: &str) -> tempfile::NamedTempFile {
    let mut f = tempfile::NamedTempFile::new().expect("failed to create env file for test");
    f.write_all(contents.as_bytes())
        .expect("failed to write env file for test");
    f
}

fn finalize(cfg_str: &str) -> Result<bonnie::FinalConfig, String> {
    let raw = bonnie::Config::new(cfg_str)?;
    let mut warnings: Vec<String> = Vec::new();
    raw.to_final(BONNIE_VERSION, &mut warnings)
}

fn run_to_completion(bone: &Bone, trace: &mut Vec<String>) -> Result<i32, String> {
    let (mut runner, mut action) = bone.run()?;
    loop {
        match action {
            RunAction::Spawn(inv) => {
                trace.push(format!("{}, {:?}", inv.program, inv.args));
                let joined = inv.args.join(" ");
                let code = match joined.rfind("exit ") {
                    Some(pos) => {
                        let digits: String = joined[pos + 5..]
                            .chars()
                            .take_while(|c| c.is_ascii_digit())
                            .collect();
                        digits.parse::<i32>().unwrap_or(0)
                    }
                    None => 0,
                };
                action = runner.on_exit(code)?;
            }
            RunAction::Finish(code) => return Ok(code),
        }
    }
}

// Version comparison totality and swap symmetry on concrete values: the
// category is kept and the direction flipped when the arguments swap.
#[test]
fn version_swap_symmetry() {
    let a = build_version(vec![2, 3, 4]);
    let b = build_version(vec![2, 5, 0]);
    assert_eq!(
        a.is_compatible_with(&b),
        VersionCompatibility::DifferentMinor(VersionDifference::TooNew)
    );
    assert_eq!(
        b.is_compatible_with(&a),
        VersionCompatibility::DifferentMinor(VersionDifference::TooOld)
    );
    // the pre-1.0 promotion applies from either side
    let c = build_version(vec![0, 3, 4]);
    let d = build_version(vec![1, 3, 4]);
    assert_eq!(
        c.is_compatible_with(&d),
        VersionCompatibility::DifferentBetaVersion(VersionDifference::TooNew)
    );
    assert_eq!(
        d.is_compatible_with(&c),
        VersionCompatibility::DifferentBetaVersion(VersionDifference::TooOld)
    );
}

#[test]
fn version_parse_exact_values() {
    assert_eq!(
        get_version_parts("0.2.1"),
        Ok(Version { major: 0, minor: 2, patch: 1 })
    );
    assert!(get_version_parts("65536.0.0").is_err());
    assert!(get_version_parts("1.2.3.4").is_err());
    assert!(get_version_parts("").is_err());
}

// The version gate rejects an incompatible pre-1.0 configuration before any
// command could run.
#[test]
fn version_rejection_is_hard_error() {
    let res = finalize(
        r#"
        version = "0.1.0"
        [scripts]
        basic = "exit 0"
        "#,
    );
    assert!(res.is_err());
}

// A different patch version is accepted, with one warning appended.
#[test]
fn version_patch_skew_warns() {
    let raw = bonnie::Config::new(
        r#"
        version = "1.2.0"
        [scripts]
        basic = "exit 0"
        "#,
    )
    .unwrap();
    let mut warnings: Vec<String> = Vec::new();
    assert!(raw.to_final("1.2.1", &mut warnings).is_ok());
    assert_eq!(warnings.len(), 1);
}

// Finalization is deterministic: normalizing the same raw configuration
// twice yields the same final configuration.
#[test]
fn finalization_deterministic() {
    let cfg_str = r#"
        version = "0.2.1"
        [scripts]
        basic.subcommands.test = "exit 0"
        basic.subcommands.other = ["exit 1", "exit 2"]
        basic.order = "test"
        "#;
    let raw = bonnie::Config::new(cfg_str).unwrap();
    let first = raw.parse().unwrap();
    let second = raw.parse().unwrap();
    assert_eq!(first, second);
}

// The resolver is deterministic: resolving the same arguments twice yields
// the same command, name and argument split.
#[test]
fn resolver_deterministic() {
    let cfg = finalize(
        &format!(
            r#"
        version = "{}"
        [scripts]
        basic.subcommands.test = "exit 0"
        "#,
            BONNIE_VERSION
        ),
    )
    .unwrap();
    let args: Vec<String> = vec!["basic".to_string(), "test".to_string(), "x".to_string()];
    let (c1, n1, a1) = cfg.get_command_for_args(&args).unwrap();
    let (c2, n2, a2) = cfg.get_command_for_args(&args).unwrap();
    assert_eq!(c1, c2);
    assert_eq!(n1, n2);
    assert_eq!(a1, a2);
    assert_eq!(n1, "test");
    assert_eq!(a1, vec!["x".to_string()]);
}

// Directive first-match: when two branches match the exit code, only the
// first is followed.
#[test]
fn directive_first_match_wins() {
    let cfg = finalize(
        &format!(
            r#"
        version = "{}"
        [scripts]
        basic.subcommands.test = "exit 0"
        basic.subcommands.other = "exit 1"
        basic.order = """
        test {{
            Any => other
            0 => test
        }}
        """
        "#,
            BONNIE_VERSION
        ),
    )
    .unwrap();
    let args: Vec<String> = vec!["basic".to_string()];
    let (command, name, rest) = cfg.get_command_for_args(&args).unwrap();
    let env: Vec<(String, String)> = Vec::new();
    let mut warnings: Vec<String> = Vec::new();
    let bone = command
        .prepare(&name, &rest, &cfg.default_shell, "linux", &env, &mut warnings)
        .unwrap();
    let mut trace: Vec<String> = Vec::new();
    let code = run_to_completion(&bone, &mut trace).unwrap();
    // the `Any` branch ran `other` (exit 1); the `0 => test` branch did not
    // run `test` again
    assert_eq!(code, 1);
    assert_eq!(trace.len(), 2);
    assert!(trace[0].contains("exit 0"));
    assert!(trace[1].contains("exit 1"));
}

// Interpolation completeness on concrete values: no declared token remains
// after interpolation.
#[test]
fn interpolation_leaves_no_tokens() {
    let env_file = write_env_file("LAWSGREETING=Salut\n");
    let cfg = finalize(
        &format!(
            r#"
        version = "{}"
        env_files = ["{}"]
        [scripts]
        basic.cmd = "echo %LAWSGREETING %name && exit 0"
        basic.args = ["name"]
        basic.env_vars = ["LAWSGREETING"]
        "#,
            BONNIE_VERSION,
            env_file.path().to_str().unwrap()
        ),
    )
    .unwrap();
    let args: Vec<String> = vec!["basic".to_string(), "Ada".to_string()];
    let (command, name, rest) = cfg.get_command_for_args(&args).unwrap();
    let env = bonnie::ext::read_env_vars(&command.env_vars);
    let mut warnings: Vec<String> = Vec::new();
    let bone = command
        .prepare(&name, &rest, &cfg.default_shell, "linux", &env, &mut warnings)
        .unwrap();
    match &bone {
        Bone::Simple(cores) => {
            assert_eq!(cores.len(), 1);
            assert_eq!(cores[0].cmd, "echo Salut Ada && exit 0");
            assert!(!cores[0].cmd.contains("%name"));
            assert!(!cores[0].cmd.contains("%LAWSGREETING"));
        }
        _ => panic!("expected a straight-line plan"),
    }
}

// Exit-code propagation: the engine's final code is the exit code of the
// last child that ran.
#[test]
fn exit_code_propagates() {
    let cfg = finalize(
        &format!(
            r#"
        version = "{}"
        [scripts]
        basic = "exit 7"
        "#,
            BONNIE_VERSION
        ),
    )
    .unwrap();
    let args: Vec<String> = vec!["basic".to_string()];
    let (command, name, rest) = cfg.get_command_for_args(&args).unwrap();
    let env: Vec<(String, String)> = Vec::new();
    let mut warnings: Vec<String> = Vec::new();
    let bone = command
        .prepare(&name, &rest, &cfg.default_shell, "linux", &env, &mut warnings)
        .unwrap();
    let mut trace: Vec<String> = Vec::new();
    assert_eq!(run_to_completion(&bone, &mut trace), Ok(7));
}

// A hand-built plan: `{COMMAND}` is substituted into every shell element,
// and the reported code is the one fed back.
#[test]
fn engine_substitutes_command_token() {
    let core = BonesCore {
        cmd: "exit 3".to_string(),
        shell: vec!["sh".to_string(), "-c".to_string(), "{COMMAND}".to_string()],
    };
    let bone = Bone::Simple(vec![core]);
    let (mut runner, action) = bone.run().unwrap();
    match action {
        RunAction::Spawn(inv) => {
            assert_eq!(inv.program, "sh");
            assert_eq!(inv.args, vec!["-c".to_string(), "exit 3".to_string()]);
        }
        _ => panic!("expected an invocation"),
    }
    match runner.on_exit(3).unwrap() {
        RunAction::Finish(code) => assert_eq!(code, 3),
        _ => panic!("expected the run to finish"),
    }
}

// Operator parsing: exact forms, and matching semantics of the parsed
// operators.
#[test]
fn operator_parse_and_match() {
    let op = BonesOperator::parse_str("0|Success|2").unwrap();
    assert!(op.matches(&0));
    assert!(op.matches(&2));
    assert!(!op.matches(&3));
    let neg = BonesOperator::parse_str("!5").unwrap();
    assert!(neg.matches(&4));
    assert!(!neg.matches(&5));
    let both = BonesOperator::parse_str("0+Success").unwrap();
    assert!(both.matches(&0));
    assert!(!both.matches(&1));
    assert_eq!(BonesOperator::parse_str("7").unwrap(), BonesOperator::ExitCode(7));
    // the error names the offending text
    assert!(BonesOperator::parse_str("Sometimes")
        .unwrap_err()
        .contains("'Sometimes'"));
    assert!(BonesOperator::parse_str("!x").is_err());
}

// Directive parse errors: an unrecognized operator and an unclosed block.
#[test]
fn directive_parse_errors() {
    assert!(finalize(
        &format!(
            r#"
        version = "{}"
        [scripts]
        basic.subcommands.test = "exit 0"
        basic.order = """
        test {{
            Garbage => test
        }}
        """
        "#,
            BONNIE_VERSION
        ),
    )
    .is_err());
    assert!(finalize(
        &format!(
            r#"
        version = "{}"
        [scripts]
        basic.subcommands.test = "exit 0"
        basic.order = "test {{ Any => test"
        "#,
            BONNIE_VERSION
        ),
    )
    .is_err());
}

// Resolver errors: an unknown command, and no command at all.
#[test]
fn resolver_errors() {
    let cfg = finalize(
        &format!(
            r#"
        version = "{}"
        [scripts]
        test = "exit 0"
        "#,
            BONNIE_VERSION
        ),
    )
    .unwrap();
    let unknown: Vec<String> = vec!["trst".to_string()];
    assert_eq!(
        cfg.get_command_for_args(&unknown).unwrap_err(),
        "Unknown command 'trst'."
    );
    let none: Vec<String> = Vec::new();
    assert_eq!(
        cfg.get_command_for_args(&none).unwrap_err(),
        "Please provide a command to run."
    );
}

// A declared environment variable that is not set is an interpolation
// error.
#[test]
fn missing_env_var_is_error() {
    let cfg = finalize(
        &format!(
            r#"
        version = "{}"
        [scripts]
        basic.cmd = "echo %BONNIE_DEFINITELY_UNSET_VAR && exit 0"
        basic.env_vars = ["BONNIE_DEFINITELY_UNSET_VAR"]
        "#,
            BONNIE_VERSION
        ),
    )
    .unwrap();
    let args: Vec<String> = vec!["basic".to_string()];
    let (command, name, rest) = cfg.get_command_for_args(&args).unwrap();
    let env = bonnie::ext::read_env_vars(&command.env_vars);
    let mut warnings: Vec<String> = Vec::new();
    assert!(command
        .prepare(&name, &rest, &cfg.default_shell, "linux", &env, &mut warnings)
        .is_err());
}

// A configuration string that is not TOML is rejected by the parser.
#[test]
fn invalid_toml_is_rejected() {
    assert!(bonnie::Config::new("this is not [valid toml").is_err());
    assert!(bonnie::Config::new("[scripts]\nbasic = \"exit 0\"").is_err()); // no version
}

// The environment lookup hands back the variable's value, not its name:
// a value loaded from an env file comes back verbatim.
#[test]
fn env_lookup_reads_values() {
    let env_file = write_env_file("BONNIE_LAWS_PROBE=xyzzy\n");
    // loading happens through the same path `to_final` uses
    let cfg = finalize(
        &format!(
            r#"
        version = "{}"
        env_files = ["{}"]
        [scripts]
        basic = "exit 0"
        "#,
            BONNIE_VERSION,
            env_file.path().to_str().unwrap()
        ),
    );
    assert!(cfg.is_ok());
    let names: Vec<String> = vec!["BONNIE_LAWS_PROBE".to_string()];
    let env = bonnie::ext::read_env_vars(&names);
    assert_eq!(env.len(), 1);
    assert_eq!(env[0].0, "BONNIE_LAWS_PROBE");
    assert_eq!(env[0].1, "xyzzy");
}

// The helper pages name the current version, and the configuration path
// falls back to the default.
#[test]
fn help_and_paths() {
    assert!(bonnie::help::help().contains(BONNIE_VERSION));
    assert!(bonnie::help_page::get_help_page().contains(BONNIE_VERSION));
    assert_eq!(bonnie::logic::get_cfg_path(None), "./bonnie.toml");
    assert_eq!(
        bonnie::logic::get_cfg_path(Some("custom.toml".to_string())),
        "custom.toml"
    );
}

// The default shell table used when none is configured.
#[test]
fn default_shells_table() {
    let ds = bonnie::default_shells::get_default_shells();
    assert_eq!(ds.generic, vec!["sh", "-c", "{COMMAND}"]);
    assert_eq!(ds.targets.len(), 3);
    assert_eq!(ds.targets[0].0, "windows");
    assert_eq!(
        ds.targets[0].1,
        vec!["powershell", "-command", "{COMMAND}"]
    );
}

// An empty multi-stage command list is rejected at finalization.
#[test]
fn empty_multistage_is_rejected() {
    assert!(finalize(
        &format!(
            r#"
        version = "{}"
        [scripts]
        basic = []
        "#,
            BONNIE_VERSION
        ),
    )
    .is_err());
}

// A configured shell must have at least two elements and exactly one
// `{COMMAND}` slot.
#[test]
fn malformed_shell_is_rejected() {
    assert!(finalize(
        &format!(
            r#"
        version = "{}"
        default_shell = ["sh"]
        [scripts]
        basic = "exit 0"
        "#,
            BONNIE_VERSION
        ),
    )
    .is_err());
    assert!(finalize(
        &format!(
            r#"
        version = "{}"
        default_shell = ["sh", "-c"]
        [scripts]
        basic = "exit 0"
        "#,
            BONNIE_VERSION
        ),
    )
    .is_err());
}

// An unknown subcommand named inside a directive is an execution error.
#[test]
fn unknown_subcommand_in_directive() {
    let cfg = finalize(
        &format!(
            r#"
        version = "{}"
        [scripts]
        basic.subcommands.test = "exit 0"
        basic.order = "missing"
        "#,
            BONNIE_VERSION
        ),
    )
    .unwrap();
    let args: Vec<String> = vec!["basic".to_string()];
    let (command, name, rest) = cfg.get_command_for_args(&args).unwrap();
    let env: Vec<(String, String)> = Vec::new();
    let mut warnings: Vec<String> = Vec::new();
    let bone = command
        .prepare(&name, &rest, &cfg.default_shell, "linux", &env, &mut warnings)
        .unwrap();
    assert!(bone.run().is_err());
}

// Over-supplied arguments without a `%%` block produce a warning and still
// run.
#[test]
fn over_supply_warns() {
    let cfg = finalize(
        &format!(
            r#"
        version = "{}"
        [scripts]
        basic = "exit 0"
        "#,
            BONNIE_VERSION
        ),
    )
    .unwrap();
    let args: Vec<String> = vec!["basic".to_string(), "extra".to_string()];
    let (command, name, rest) = cfg.get_command_for_args(&args).unwrap();
    let env: Vec<(String, String)> = Vec::new();
    let mut warnings: Vec<String> = Vec::new();
    let bone = command
        .prepare(&name, &rest, &cfg.default_shell, "linux", &env, &mut warnings)
        .unwrap();
    assert_eq!(warnings.len(), 1);
    let mut trace: Vec<String> = Vec::new();
    assert_eq!(run_to_completion(&bone, &mut trace), Ok(0));
}
