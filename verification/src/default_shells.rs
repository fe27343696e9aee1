//! The compiled-in default shells, used when a configuration does not name a
//! `default_shell` of its own.

use vstd::prelude::*;
use vstd::string::*;
use crate::schema::{default_shell_wf, shell_slot_count, shell_wf, DefaultShell, Shell};
use crate::strutil::{contains_seq, match_at};

verus! {

/// The built-in table: `sh -c {COMMAND}` generically and on `macos` and
/// `linux`, `powershell -command {COMMAND}` on `windows`.
pub open spec fn builtin_default_shell(ds: DefaultShell) -> bool {
    &&& ds.generic.deep_view() =~= seq!["sh"@, "-c"@, "{COMMAND}"@]
    &&& ds.targets@.len() == 3
    &&& ds.targets@[0].0@ == "windows"@
    &&& ds.targets@[0].1.deep_view() =~= seq!["powershell"@, "-command"@, "{COMMAND}"@]
    &&& ds.targets@[1].0@ == "macos"@
    &&& ds.targets@[1].1.deep_view() =~= seq!["sh"@, "-c"@, "{COMMAND}"@]
    &&& ds.targets@[2].0@ == "linux"@
    &&& ds.targets@[2].1.deep_view() =~= seq!["sh"@, "-c"@, "{COMMAND}"@]
}

/// A three-element shell whose last element is exactly `{COMMAND}` and whose
/// first two do not contain it is well-formed.
proof fn lemma_three_part_shell_wf(sh: Seq<Seq<char>>)
    requires
        sh.len() == 3,
        !contains_seq(sh[0], "{COMMAND}"@),
        !contains_seq(sh[1], "{COMMAND}"@),
        sh[2] == "{COMMAND}"@,
    ensures
        shell_wf(sh),
{
    reveal_strlit("{COMMAND}");
    assert(contains_seq(sh[2], "{COMMAND}"@)) by {
        assert(sh[2].subrange(0, sh[2].len() as int) =~= sh[2]);
        assert(match_at(sh[2], "{COMMAND}"@, 0));
    }
    let s2 = sh.drop_last();
    let s1 = s2.drop_last();
    let s0 = s1.drop_last();
    assert(s0 =~= Seq::<Seq<char>>::empty());
    assert(shell_slot_count(s0) == 0);
    assert(s1.last() == sh[0]);
    assert(shell_slot_count(s1) == 0);
    assert(s2.last() == sh[1]);
    assert(shell_slot_count(s2) == 0);
    assert(sh.last() == sh[2]);
    assert(shell_slot_count(sh) == 1);
}

/// A string shorter than `{COMMAND}` cannot contain it.
proof fn lemma_short_no_slot(s: Seq<char>)
    requires
        s.len() < "{COMMAND}"@.len(),
    ensures
        !contains_seq(s, "{COMMAND}"@),
{
    if contains_seq(s, "{COMMAND}"@) {
        let i = choose|i: int| match_at(s, "{COMMAND}"@, i);
    }
}

fn sh_shell() -> (r: Shell)
    ensures
        r.deep_view() =~= seq!["sh"@, "-c"@, "{COMMAND}"@],
        shell_wf(r.deep_view()),
{
    let mut sh: Shell = Vec::new();
    sh.push("sh".to_owned());
    sh.push("-c".to_owned());
    sh.push("{COMMAND}".to_owned());
    proof {
        assert(sh.deep_view() =~= seq!["sh"@, "-c"@, "{COMMAND}"@]);
        reveal_strlit("sh");
        reveal_strlit("-c");
        reveal_strlit("{COMMAND}");
        lemma_short_no_slot("sh"@);
        lemma_short_no_slot("-c"@);
        lemma_three_part_shell_wf(sh.deep_view());
    }
    sh
}

fn powershell_shell() -> (r: Shell)
    ensures
        r.deep_view() =~= seq!["powershell"@, "-command"@, "{COMMAND}"@],
        shell_wf(r.deep_view()),
{
    let mut sh: Shell = Vec::new();
    sh.push("powershell".to_owned());
    sh.push("-command".to_owned());
    sh.push("{COMMAND}".to_owned());
    proof {
        assert(sh.deep_view() =~= seq!["powershell"@, "-command"@, "{COMMAND}"@]);
        reveal_strlit("powershell");
        reveal_strlit("-command");
        reveal_strlit("{COMMAND}");
        assert(!contains_seq("powershell"@, "{COMMAND}"@)) by {
            if contains_seq("powershell"@, "{COMMAND}"@) {
                let i = choose|i: int| match_at("powershell"@, "{COMMAND}"@, i);
                assert(0 <= i <= 1);
                assert("powershell"@.subrange(i, i + 9)[0] == "{COMMAND}"@[0]);
            }
        }
        lemma_short_no_slot("-command"@);
        lemma_three_part_shell_wf(sh.deep_view());
    }
    sh
}

/// The default shells: the compiled-in table used when a configuration
/// names no `default_shell` of its own.
pub fn get_default_shells() -> (r: DefaultShell)
    ensures
        builtin_default_shell(r),
        default_shell_wf(r),
{
    let mut targets: Vec<(String, Shell)> = Vec::new();
    targets.push(("windows".to_owned(), powershell_shell()));
    targets.push(("macos".to_owned(), sh_shell()));
    targets.push(("linux".to_owned(), sh_shell()));
    let r = DefaultShell { generic: sh_shell(), targets };
    proof {
        assert(r.targets@[0].0@ == "windows"@);
        assert(r.targets@[1].0@ == "macos"@);
        assert(r.targets@[2].0@ == "linux"@);
    }
    r
}

} // verus!
