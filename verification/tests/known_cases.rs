// End-to-end cases over the whole pipeline: a configuration string and an
// argument vector go through parsing, normalization, resolution and plan
// building, and the resulting step machine is driven by a small emulated
// shell that reads the `exit N` at the end of each command (the commands in
// these cases are all of that form). Each spawned invocation is recorded in
// the same `executable, [args]` form the runtime reports.

use bonnie::bones::RunAction;
use bonnie::BONNIE_VERSION;
use std::io::Write;

// The exit code `sh -c` would produce for the command strings used here:
// the value after the last `exit `, or 0 when none appears.
fn fake_exit_code(args: &Vec<String>) -> i32 {
    let joined = args.join(" ");
    match joined.rfind("exit ") {
        Some(pos) => {
            let rest = &joined[pos + 5..];
            let digits: String = rest.chars().take_while(|c| c.is_ascii_digit()).collect();
            digits.parse::<i32>().unwrap_or(0)
        }
        None => 0,
    }
}

fn collect_env_names(c: &bonnie::schema::Command, out: &mut Vec<String>) {
    for name in c.env_vars.iter() {
        out.push(name.clone());
    }
    if let Some(subs) = &c.subcommands {
        for (_, sub) in subs.iter() {
            collect_env_names(sub, out);
        }
    }
}

fn run_e2e_test(
    cfg_str: &str,
    prog_args: Vec<String>,
    version: &str,
    output: &mut Vec<String>,
) -> Result<i32, String> {
    let cfg = bonnie::Config::new(cfg_str)?;
    let mut warnings: Vec<String> = Vec::new();
    let final_cfg = cfg.to_final(version, &mut warnings)?;
    let (command, name, relevant_args) = final_cfg.get_command_for_args(&prog_args)?;
    let mut env_names: Vec<String> = Vec::new();
    collect_env_names(command, &mut env_names);
    let env = bonnie::ext::read_env_vars(&env_names);
    let bone = command.prepare(
        &name,
        &relevant_args,
        &final_cfg.default_shell,
        "linux",
        &env,
        &mut warnings,
    )?;
    let (mut runner, mut action) = bone.run()?;
    loop {
        match action {
            RunAction::Spawn(inv) => {
                output.push(format!("{}, {:?}", inv.program, inv.args));
                let code = fake_exit_code(&inv.args);
                action = runner.on_exit(code)?;
            }
            RunAction::Finish(code) => return Ok(code),
        }
    }
}

fn expect_exit_code(exit_code: i32, raw_cfg: &str, version: &str, args: &[&str]) -> Vec<String> {
    let mut output: Vec<String> = Vec::new();
    let prog_args: Vec<String> = args.iter().map(|s| s.to_string()).collect();
    let cfg_str = format!("version = \"{}\"\n{}", version, raw_cfg);
    let res = run_e2e_test(&cfg_str, prog_args, version, &mut output);
    println!("{:#?}", output);
    assert_eq!(res, Ok(exit_code));
    output
}

fn expect_error(raw_cfg: &str, version: &str, args: &[&str]) {
    let mut output: Vec<String> = Vec::new();
    let prog_args: Vec<String> = args.iter().map(|s| s.to_string()).collect();
    let cfg_str = format!("version = \"{}\"\n{}", version, raw_cfg);
    let res = run_e2e_test(&cfg_str, prog_args, version, &mut output);
    println!("{:#?}", res);
    assert!(res.is_err());
}

fn assert_contains_ordered(lines: &[String], elems: &[&str]) {
    let concat_vec = lines.join(" | ");
    let concat_checks = elems.join(" | ");
    assert!(
        concat_vec.contains(&concat_checks),
        "expected {:?} in order within {:?}",
        elems,
        lines
    );
}

fn assert_contains(lines: &[String], elems: &[&str]) {
    let mut contains = false;
    for check in elems.iter() {
        if lines.iter().any(|l| l == check) {
            contains = true;
        }
    }
    assert!(contains, "expected one of {:?} within {:?}", elems, lines);
}

// Writes an environment file for a test; the returned handle keeps the file
// alive and carries its path.
fn write_env_file(contents: &str) -> tempfile::NamedTempFile {
    let mut f = tempfile::NamedTempFile::new().expect("failed to create env file for test");
    f.write_all(contents.as_bytes())
        .expect("failed to write env file for test");
    f
}

#[test]
fn succeeds_with_kv_syntax() {
    let output = expect_exit_code(
        0,
        r#"
        [scripts]
        basic = "exit 0"
        "#,
        BONNIE_VERSION,
        &["basic"],
    );
    assert_contains(&output, &["sh, [\"-c\", \"exit 0\"]"]);
}

#[test]
fn succeeds_with_arg_interpolation() {
    let output = expect_exit_code(
        0,
        r#"
        [scripts]
        basic.cmd = "echo %name && exit 0"
        basic.args = ["name"]
        "#,
        BONNIE_VERSION,
        &["basic", "Name"],
    );
    assert_contains_ordered(&output, &["sh, [\"-c\", \"echo Name && exit 0\"]"]);
}

#[test]
fn known_cases_returns_error_on_too_few_args() {
    expect_error(
        r#"
        [scripts]
        basic.cmd = "echo %name && exit 0"
        basic.args = ["name"]
        "#,
        BONNIE_VERSION,
        &["basic"],
    );
}

#[test]
fn succeeds_with_mass_arg_interpolation_and_no_args() {
    let output = expect_exit_code(
        0,
        r#"
        [scripts]
        basic = "echo %% && exit 0"
        "#,
        BONNIE_VERSION,
        &["basic"],
    );
    // note the extra space from concatenation
    assert_contains_ordered(&output, &["sh, [\"-c\", \"echo  && exit 0\"]"]);
}

#[test]
fn succeeds_with_mass_arg_interpolation_and_one_arg() {
    let output = expect_exit_code(
        0,
        r#"
        [scripts]
        basic = "echo %% && exit 0"
        "#,
        BONNIE_VERSION,
        &["basic", "Test"],
    );
    assert_contains_ordered(&output, &["sh, [\"-c\", \"echo Test && exit 0\"]"]);
}

#[test]
fn succeeds_with_mass_arg_interpolation_and_many_args() {
    let output = expect_exit_code(
        0,
        r#"
        [scripts]
        basic = "echo %% && exit 0"
        "#,
        BONNIE_VERSION,
        &["basic", "foo", "bar"],
    );
    assert_contains_ordered(&output, &["sh, [\"-c\", \"echo foo bar && exit 0\"]"]);
}

#[test]
fn succeeds_with_mass_arg_interpolation_and_escaping() {
    let output = expect_exit_code(
        0,
        r#"
        [scripts]
        basic = "echo %% \\%% && exit 0"
        "#,
        BONNIE_VERSION,
        &["basic", "foo", "bar"],
    );
    assert_contains_ordered(&output, &["sh, [\"-c\", \"echo foo bar %% && exit 0\"]"]);
}

#[test]
fn succeeds_with_mass_arg_interpolation_and_specific_arg_interpolation() {
    let output = expect_exit_code(
        0,
        r#"
        [scripts]
        basic.cmd = "echo %name %% && exit 0"
        basic.args = ["name"]
        "#,
        BONNIE_VERSION,
        &["basic", "Name", "foo", "bar"],
    );
    assert_contains_ordered(&output, &["sh, [\"-c\", \"echo Name foo bar && exit 0\"]"]);
}

#[test]
fn known_cases_loads_env_files() {
    let env_file = write_env_file("SHORTGREETING=Hello\n");
    let cfg = format!(
        r#"
        env_files = ["{}"]
        [scripts]
        basic.cmd = "echo %SHORTGREETING && exit 0"
        basic.env_vars = ["SHORTGREETING"]
        "#,
        env_file.path().to_str().unwrap()
    );
    let output = expect_exit_code(0, &cfg, BONNIE_VERSION, &["basic"]);
    assert_contains_ordered(&output, &["sh, [\"-c\", \"echo Hello && exit 0\"]"]);
}

#[test]
fn returns_error_on_nonexistent_env_file() {
    expect_error(
        r#"
        env_files = ["/tmp/bonnie_known_cases_nonexistent.env"]
        [scripts]
        basic.cmd = "echo %SHORTGREETING && exit 0"
        basic.env_vars = ["SHORTGREETING"]
        "#,
        BONNIE_VERSION,
        &["basic"],
    );
}

#[test]
fn known_cases_returns_error_on_invalid_env_file() {
    // this file contains an unclosed quote, and is thus invalid
    let env_file = write_env_file("INVALID_VAR='Hello\n");
    let cfg = format!(
        r#"
        env_files = ["{}"]
        [scripts]
        basic.cmd = "echo %INVALID_VAR && exit 0"
        basic.env_vars = ["INVALID_VAR"]
        "#,
        env_file.path().to_str().unwrap()
    );
    expect_error(&cfg, BONNIE_VERSION, &["basic"]);
}

#[test]
fn succeeds_with_full_interpolation() {
    let env_file = write_env_file("SHORTGREETING=Hello\n");
    let cfg = format!(
        r#"
        env_files = ["{}"]
        [scripts]
        basic.cmd = "echo \"%SHORTGREETING %name %%\" && exit 0"
        basic.args = ["name"]
        basic.env_vars = ["SHORTGREETING"]
        "#,
        env_file.path().to_str().unwrap()
    );
    let output = expect_exit_code(0, &cfg, BONNIE_VERSION, &["basic", "Name", "(extra stuff)"]);
    assert_contains_ordered(
        &output,
        &["sh, [\"-c\", \"echo \\\"Hello Name (extra stuff)\\\" && exit 0\"]"],
    );
}

#[test]
fn succeeds_with_multistage() {
    let output = expect_exit_code(
        1,
        r#"
        [scripts]
        basic = ["exit 0", "exit 1"]
        "#,
        BONNIE_VERSION,
        &["basic"],
    );
    assert_contains_ordered(
        &output,
        &["sh, [\"-c\", \"exit 0\"]", "sh, [\"-c\", \"exit 1\"]"],
    );
}

#[test]
fn succeeds_with_multistage_with_interpolation() {
    let env_file = write_env_file("SHORTGREETING=Hello\n");
    let cfg = format!(
        r#"
        env_files = ["{}"]
        [scripts]
        basic.cmd = [
            "echo %SHORTGREETING %% && exit 0",
            "echo %name && exit 1"
        ]
        basic.args = ["name"]
        basic.env_vars = ["SHORTGREETING"]
        "#,
        env_file.path().to_str().unwrap()
    );
    let output = expect_exit_code(1, &cfg, BONNIE_VERSION, &["basic", "Name", "foo", "bar"]);
    assert_contains_ordered(
        &output,
        &[
            "sh, [\"-c\", \"echo Hello foo bar && exit 0\"]",
            "sh, [\"-c\", \"echo Name && exit 1\"]",
        ],
    );
}

#[test]
fn succeeds_with_kv_unordered_subcommands() {
    let cfg = r#"
    [scripts]
    basic.subcommands.test = "exit 0"
    basic.subcommands.other = "exit 1"
    "#;
    let output1 = expect_exit_code(0, cfg, BONNIE_VERSION, &["basic", "test"]);
    assert_contains_ordered(&output1, &["sh, [\"-c\", \"exit 0\"]"]);
    let output2 = expect_exit_code(1, cfg, BONNIE_VERSION, &["basic", "other"]);
    assert_contains_ordered(&output2, &["sh, [\"-c\", \"exit 1\"]"]);
}

#[test]
fn succeeds_with_multistage_and_interpolation_unordered_subcommands() {
    let env_file = write_env_file("SHORTGREETING=Hello\n");
    let cfg = format!(
        r#"
    env_files = ["{}"]
    [scripts]
    basic.subcommands.test.cmd = [
        "echo %SHORTGREETING %% && exit 0",
        "echo %name && exit 1"
    ]
    basic.subcommands.test.args = ["name"]
    basic.subcommands.test.env_vars = ["SHORTGREETING"]
    basic.subcommands.other = "exit 1"
    "#,
        env_file.path().to_str().unwrap()
    );
    let output1 = expect_exit_code(1, &cfg, BONNIE_VERSION, &["basic", "test", "Name", "foo bar"]);
    assert_contains_ordered(
        &output1,
        &[
            "sh, [\"-c\", \"echo Hello foo bar && exit 0\"]",
            "sh, [\"-c\", \"echo Name && exit 1\"]",
        ],
    );
    let output2 = expect_exit_code(1, &cfg, BONNIE_VERSION, &["basic", "other"]);
    assert_contains_ordered(&output2, &["sh, [\"-c\", \"exit 1\"]"]);
}

#[test]
fn succeeds_with_root_cmd_for_unordered_subcommands() {
    let cfg = r#"
    [scripts]
    basic.cmd = "exit 0"
    basic.subcommands.test = "exit 1"
    basic.subcommands.other = "exit 2"
    "#;
    let root_output = expect_exit_code(0, cfg, BONNIE_VERSION, &["basic"]);
    assert_contains_ordered(&root_output, &["sh, [\"-c\", \"exit 0\"]"]);
    let output1 = expect_exit_code(1, cfg, BONNIE_VERSION, &["basic", "test"]);
    assert_contains_ordered(&output1, &["sh, [\"-c\", \"exit 1\"]"]);
    let output2 = expect_exit_code(2, cfg, BONNIE_VERSION, &["basic", "other"]);
    assert_contains_ordered(&output2, &["sh, [\"-c\", \"exit 2\"]"]);
}

#[test]
fn returns_error_on_missing_cmd() {
    expect_error(
        r#"
        [scripts]
        basic.args = ["name"]
        "#,
        BONNIE_VERSION,
        &["basic", "Name"],
    );
}

#[test]
fn succeeds_with_os_specific_kv_cmd() {
    let output = expect_exit_code(
        0,
        r#"
        [scripts]
        basic.cmd.generic = "exit 1"
        basic.cmd.targets.linux = "exit 0"
        "#,
        BONNIE_VERSION,
        &["basic"],
    );
    assert_contains_ordered(&output, &["sh, [\"-c\", \"exit 0\"]"]);
}

#[test]
fn succeeds_with_os_specific_multistage_and_interpolation_cmd() {
    let env_file = write_env_file("SHORTGREETING=Hello\n");
    let cfg = format!(
        r#"
        env_files = ["{}"]
        [scripts]
        basic.cmd.generic = "exit 2"
        basic.cmd.targets.linux = [
            "echo %SHORTGREETING %% && exit 0",
            "echo %name && exit 1"
        ]
        basic.args = ["name"]
        basic.env_vars = ["SHORTGREETING"]
        "#,
        env_file.path().to_str().unwrap()
    );
    let output = expect_exit_code(1, &cfg, BONNIE_VERSION, &["basic", "Name", "foo", "bar"]);
    assert_contains_ordered(
        &output,
        &[
            "sh, [\"-c\", \"echo Hello foo bar && exit 0\"]",
            "sh, [\"-c\", \"echo Name && exit 1\"]",
        ],
    );
}

#[test]
fn succeeds_with_custom_shell() {
    let output = expect_exit_code(
        0,
        r#"
        [scripts]
        basic.cmd.exec = "exit 0"
        basic.cmd.shell = ["bash", "-c", "{COMMAND}"]
        "#,
        BONNIE_VERSION,
        &["basic"],
    );
    assert_contains_ordered(&output, &["bash, [\"-c\", \"exit 0\"]"]);
}

#[test]
fn succeeds_with_custom_shell_and_os_specificity_and_multistage_and_interpolation() {
    let env_file = write_env_file("SHORTGREETING=Hello\n");
    let cfg = format!(
        r#"
        env_files = ["{}"]
        [scripts]
        basic.cmd.generic = "exit 2"
        basic.cmd.targets.linux.exec = [
            "echo %SHORTGREETING %% && exit 0",
            "echo %name && exit 1"
        ]
        basic.cmd.targets.linux.shell = ["bash", "-c", "{{COMMAND}}"]
        basic.args = ["name"]
        basic.env_vars = ["SHORTGREETING"]
        "#,
        env_file.path().to_str().unwrap()
    );
    let output = expect_exit_code(1, &cfg, BONNIE_VERSION, &["basic", "Name", "foo", "bar"]);
    assert_contains_ordered(
        &output,
        &[
            "bash, [\"-c\", \"echo Hello foo bar && exit 0\"]",
            "bash, [\"-c\", \"echo Name && exit 1\"]",
        ],
    );
}

#[test]
fn returns_error_if_generic_os_specifier_not_given() {
    expect_error(
        r#"
        [scripts]
        basic.cmd.targets.linux = "exit 0"
        "#,
        BONNIE_VERSION,
        &["basic"],
    );
}

#[test]
fn uses_simple_default_shell() {
    let output = expect_exit_code(
        0,
        r#"
        default_shell = ["bash", "-c", "{COMMAND}"]
        [scripts]
        basic = "exit 0"
        "#,
        BONNIE_VERSION,
        &["basic"],
    );
    assert_contains_ordered(&output, &["bash, [\"-c\", \"exit 0\"]"]);
}

#[test]
fn uses_generic_default_shell() {
    let output = expect_exit_code(
        0,
        r#"
        default_shell.generic = ["bash", "-c", "{COMMAND}"]
        [scripts]
        basic = "exit 0"
        "#,
        BONNIE_VERSION,
        &["basic"],
    );
    assert_contains_ordered(&output, &["bash, [\"-c\", \"exit 0\"]"]);
}

#[test]
fn uses_os_specific_default_shell() {
    let output = expect_exit_code(
        0,
        r#"
        default_shell.generic = ["sh", "-c", "{COMMAND}"]
        default_shell.targets.linux = ["bash", "-c", "{COMMAND}"]
        [scripts]
        basic = "exit 0"
        "#,
        BONNIE_VERSION,
        &["basic"],
    );
    assert_contains_ordered(&output, &["bash, [\"-c\", \"exit 0\"]"]);
}

#[test]
fn succeeds_with_kv_simple_ordered_subcommands() {
    let output = expect_exit_code(
        0,
        r#"
        [scripts]
        basic.subcommands.test = "exit 0"
        basic.subcommands.other = "exit 1"
        basic.order = "test"
        "#,
        BONNIE_VERSION,
        &["basic"],
    );
    assert_contains_ordered(&output, &["sh, [\"-c\", \"exit 0\"]"]);
}

#[test]
fn succeeds_with_kv_complex_ordered_subcommands() {
    let output = expect_exit_code(
        1,
        r#"
        [scripts]
        basic.subcommands.test = "exit 0"
        basic.subcommands.other = "exit 1"
        basic.order = """
        test {
            Any => other
        }
        """
        "#,
        BONNIE_VERSION,
        &["basic"],
    );
    assert_contains_ordered(
        &output,
        &["sh, [\"-c\", \"exit 0\"]", "sh, [\"-c\", \"exit 1\"]"],
    );
}

#[test]
fn returns_error_on_non_global_args_for_ordered_subcommands() {
    expect_error(
        r#"
        [scripts]
        basic.subcommands.test = "echo %name && exit 0"
        basic.subcommands.test.args = ["name"] # This has to be `basic.args` instead
        basic.subcommands.other = "exit 1"
        basic.order = """
        test {
            Any => other
        }
        """
        "#,
        BONNIE_VERSION,
        &["basic"],
    );
}

#[test]
fn returns_error_on_unordered_nesting_in_order() {
    expect_error(
        r#"
        [scripts]
        basic.subcommands.test = "echo %name && exit 0"
        basic.subcommands.test.args = ["name"] # This has to be `basic.args` instead
        basic.subcommands.other = "exit 1"
        basic.subcommands.nested.subcommands.test = "exit 0"
        basic.subcommands.nested.subcommands.other = "exit 1"
        basic.order = """
        test {
            Any => other
        }
        """
        "#,
        BONNIE_VERSION,
        &["basic"],
    );
}

#[test]
fn returns_error_on_cmd_and_ordered_subcommands() {
    expect_error(
        r#"
        [scripts]
        basic.cmd = "exit 0"
        basic.subcommands.test = "exit 0"
        basic.subcommands.other = "exit 1"
        basic.order = """
        test {
            Any => other
        }
        """
        "#,
        BONNIE_VERSION,
        &["basic"],
    );
}

// This test should basically represent the most complex use-case in terms of
// syntax.
#[test]
fn succeeds_with_everything() {
    let env_file = write_env_file("SHORTGREETING=Hello\n");
    let cfg = format!(
        r#"
        env_files = ["{}"]
        default_env.generic = ["sh", "-c", "{{COMMAND}}"]
        default_env.targets.linux = ["bash", "-c", "{{COMMAND}}"]
        [scripts]
        basic.subcommands.test.cmd.generic = "exit 5"
        basic.subcommands.test.cmd.targets.linux.exec = [
            "echo %SHORTGREETING %% && exit 0",
            "echo %name && exit 1"
        ]
        basic.subcommands.test.env_vars = ["SHORTGREETING"]
        basic.subcommands.test.cmd.targets.linux.shell = ["sh", "-c", "{{COMMAND}}"]
        basic.subcommands.nested.subcommands.test = "exit 2"
        basic.subcommands.nested.subcommands.other = "exit 3"
        basic.subcommands.nested.order = """
        test {{
            Any => other
        }}
        """
        basic.args = ["name"]
        basic.order = """
        test {{
            Any => nested {{
                Any => test
            }}
        }}
        """
        "#,
        env_file.path().to_str().unwrap()
    );
    let output = expect_exit_code(1, &cfg, BONNIE_VERSION, &["basic", "Name", "foo", "bar"]);
    assert_contains_ordered(
        &output,
        &[
            "sh, [\"-c\", \"echo Hello foo bar && exit 0\"]",
            "sh, [\"-c\", \"echo Name && exit 1\"]",
            "sh, [\"-c\", \"exit 2\"]",
            "sh, [\"-c\", \"exit 3\"]",
            "sh, [\"-c\", \"echo Hello foo bar && exit 0\"]",
            "sh, [\"-c\", \"echo Name && exit 1\"]",
        ],
    );
}

#[test]
fn succeeds_with_success_failure_order_control() {
    let output1 = expect_exit_code(
        1,
        r#"
        [scripts]
        basic.subcommands.test = "exit 0"
        basic.subcommands.other = "exit 1"
        basic.order = """
        test {
            Success => other
        }
        """
        "#,
        BONNIE_VERSION,
        &["basic"],
    );
    assert_contains_ordered(
        &output1,
        &["sh, [\"-c\", \"exit 0\"]", "sh, [\"-c\", \"exit 1\"]"],
    );
    let output2 = expect_exit_code(
        0,
        r#"
        [scripts]
        basic.subcommands.test = "exit 1"
        basic.subcommands.other = "exit 0"
        basic.order = """
        test {
            Failure => other
        }
        """
        "#,
        BONNIE_VERSION,
        &["basic"],
    );
    assert_contains_ordered(
        &output2,
        &["sh, [\"-c\", \"exit 1\"]", "sh, [\"-c\", \"exit 0\"]"],
    );
}

#[test]
fn succeeds_with_exit_code_order_control() {
    let output1 = expect_exit_code(
        1,
        r#"
        [scripts]
        basic.subcommands.test = "exit 0"
        basic.subcommands.other = "exit 1"
        basic.order = """
        test {
            0 => other
        }
        """
        "#,
        BONNIE_VERSION,
        &["basic"],
    );
    assert_contains_ordered(
        &output1,
        &["sh, [\"-c\", \"exit 0\"]", "sh, [\"-c\", \"exit 1\"]"],
    );
    let output2 = expect_exit_code(
        0,
        r#"
        [scripts]
        basic.subcommands.test = "exit 1"
        basic.subcommands.other = "exit 0"
        basic.order = """
        test {
            1 => other
        }
        """
        "#,
        BONNIE_VERSION,
        &["basic"],
    );
    assert_contains_ordered(
        &output2,
        &["sh, [\"-c\", \"exit 1\"]", "sh, [\"-c\", \"exit 0\"]"],
    );
}

#[test]
fn succeeds_with_not_exit_code_order_control() {
    let output1 = expect_exit_code(
        1,
        r#"
        [scripts]
        basic.subcommands.test = "exit 0"
        basic.subcommands.other = "exit 1"
        basic.order = """
        test {
            !1 => other
        }
        """
        "#,
        BONNIE_VERSION,
        &["basic"],
    );
    assert_contains_ordered(
        &output1,
        &["sh, [\"-c\", \"exit 0\"]", "sh, [\"-c\", \"exit 1\"]"],
    );
    let output2 = expect_exit_code(
        0,
        r#"
        [scripts]
        basic.subcommands.test = "exit 1"
        basic.subcommands.other = "exit 0"
        basic.order = """
        test {
            !0 => other
        }
        """
        "#,
        BONNIE_VERSION,
        &["basic"],
    );
    assert_contains_ordered(
        &output2,
        &["sh, [\"-c\", \"exit 1\"]", "sh, [\"-c\", \"exit 0\"]"],
    );
}

#[test]
fn succeeds_with_any_none_order_control() {
    let output1 = expect_exit_code(
        1,
        r#"
        [scripts]
        basic.subcommands.test = "exit 0"
        basic.subcommands.other = "exit 1"
        basic.order = """
        test {
            Any => other
        }
        """
        "#,
        BONNIE_VERSION,
        &["basic"],
    );
    assert_contains_ordered(
        &output1,
        &["sh, [\"-c\", \"exit 0\"]", "sh, [\"-c\", \"exit 1\"]"],
    );
    let output2 = expect_exit_code(
        1,
        r#"
        [scripts]
        basic.subcommands.test = "exit 1"
        basic.subcommands.other = "exit 0"
        basic.order = """
        test {
            None => other
        }
        """
        "#,
        BONNIE_VERSION,
        &["basic"],
    );
    assert_contains_ordered(&output2, &["sh, [\"-c\", \"exit 1\"]"]);
}

#[test]
fn succeeds_with_union_order_control() {
    let output = expect_exit_code(
        1,
        r#"
        [scripts]
        basic.subcommands.test = "exit 0"
        basic.subcommands.other = "exit 1"
        basic.order = """
        test {
            0|Success|2 => other
        }
        """
        "#,
        BONNIE_VERSION,
        &["basic"],
    );
    assert_contains_ordered(
        &output,
        &["sh, [\"-c\", \"exit 0\"]", "sh, [\"-c\", \"exit 1\"]"],
    );
}

#[test]
fn succeeds_with_intersection_order_control() {
    let output = expect_exit_code(
        1,
        r#"
        [scripts]
        basic.subcommands.test = "exit 0"
        basic.subcommands.other = "exit 1"
        basic.order = """
        test {
            0+Success => other
        }
        """
        "#,
        BONNIE_VERSION,
        &["basic"],
    );
    assert_contains_ordered(
        &output,
        &["sh, [\"-c\", \"exit 0\"]", "sh, [\"-c\", \"exit 1\"]"],
    );
}
