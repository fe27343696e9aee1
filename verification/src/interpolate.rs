//! The interpolator: three pure passes over a command string, in fixed
//! order — environment variables, named positional arguments, and the `%%`
//! trailing block.

use vstd::prelude::*;
use vstd::string::*;
use crate::strutil::{
    contains_seq, join_spaces, match_at, replace_all, spec_join_spaces, spec_replace, str_eq,
};

verus! {

broadcast use vstd::std_specs::vec::axiom_vec_index_decreases, vstd::seq::axiom_seq_index_decreases;

/// The token standing for `name` in a command string: `%` followed by the
/// name.
pub open spec fn pct_token(name: Seq<char>) -> Seq<char> {
    seq!['%'] + name
}

/// The value bound to `name` in the environment snapshot: the first entry
/// with that name wins.
pub open spec fn env_lookup_s(env: Seq<(String, String)>, name: Seq<char>) -> Option<Seq<char>>
    decreases env.len(),
{
    if env.len() == 0 {
        None
    } else if env[0].0@ == name {
        Some(env[0].1@)
    } else {
        env_lookup_s(env.skip(1), name)
    }
}

/// The environment pass: each declared variable name, in order, is read from
/// the snapshot and every occurrence of its `%NAME` token is replaced by its
/// value. A name missing from the snapshot is an error carrying that name.
pub open spec fn spec_interp_env(
    s: Seq<char>,
    names: Seq<Seq<char>>,
    env: Seq<(String, String)>,
) -> Result<Seq<char>, Seq<char>>
    decreases names.len(),
{
    if names.len() == 0 {
        Ok(s)
    } else {
        match env_lookup_s(env, names[0]) {
            None => Err(names[0]),
            Some(v) => spec_interp_env(spec_replace(s, pct_token(names[0]), v), names.skip(1), env),
        }
    }
}

/// The named-argument pass: the `i`-th declared argument name's `%name`
/// token is replaced by the `i`-th given argument, in declaration order.
pub open spec fn spec_interp_args(
    s: Seq<char>,
    decl: Seq<Seq<char>>,
    given: Seq<Seq<char>>,
) -> Seq<char>
    decreases decl.len(),
{
    if decl.len() == 0 || given.len() == 0 {
        s
    } else {
        spec_interp_args(spec_replace(s, pct_token(decl[0]), given[0]), decl.skip(1), given.skip(1))
    }
}

/// The trailing pass: every unescaped `%%` is replaced by `joined`, and every
/// escaped `\%%` becomes a literal `%%`.
pub open spec fn spec_interp_tail(s: Seq<char>, joined: Seq<char>) -> Seq<char>
    decreases s.len(),
{
    if s.len() >= 3 && s[0] == '\\' && s[1] == '%' && s[2] == '%' {
        seq!['%', '%'] + spec_interp_tail(s.skip(3), joined)
    } else if s.len() >= 2 && s[0] == '%' && s[1] == '%' {
        joined + spec_interp_tail(s.skip(2), joined)
    } else if s.len() == 0 {
        s
    } else {
        seq![s[0]] + spec_interp_tail(s.skip(1), joined)
    }
}

/// The value bound to `name` in the snapshot, if any.
#[verifier::loop_isolation(false)]
pub fn env_value<'a>(env: &'a Vec<(String, String)>, name: &str) -> (r: Option<&'a String>)
    ensures
        match r {
            Option::Some(v) => env_lookup_s(env@, name@) == Some(v@),
            Option::None => env_lookup_s(env@, name@) is None,
        },
{
    proof {
        assert(env@.skip(0) =~= env@);
    }
    let mut i: usize = 0;
    while i < env.len()
        invariant
            0 <= i <= env@.len(),
            env_lookup_s(env@, name@) == env_lookup_s(env@.skip(i as int), name@),
        decreases env@.len() - i,
    {
        proof {
            assert(env@.skip(i as int)[0] == env@[i as int]);
            assert(env@.skip(i as int).skip(1) =~= env@.skip(i + 1));
        }
        if str_eq(env[i].0.as_str(), name) {
            return Some(&env[i].1);
        }
        i = i + 1;
    }
    proof {
        assert(env@.skip(env@.len() as int) =~= Seq::<(String, String)>::empty());
    }
    None
}

/// Substitutes the declared environment variables into `cmd_str`, reading
/// them from the snapshot. Fails, naming the variable, exactly when a
/// declared variable is missing from the snapshot.
#[verifier::loop_isolation(false)]
pub fn interpolate_env_vars(cmd_str: &str, env_vars: &Vec<String>, env: &Vec<(String, String)>) -> (r:
    Result<String, String>)
    ensures
        r matches Ok(out) ==> spec_interp_env(cmd_str@, env_vars.deep_view(), env@) == Ok::<Seq<char>, Seq<char>>(out@),
        r is Err ==> spec_interp_env(cmd_str@, env_vars.deep_view(), env@) is Err,
{
    let ghost names = env_vars.deep_view();
    proof {
        assert(names.skip(0) =~= names);
    }
    let mut cur: String = cmd_str.to_owned();
    let mut i: usize = 0;
    while i < env_vars.len()
        invariant
            0 <= i <= env_vars@.len(),
            names == env_vars.deep_view(),
            names.len() == env_vars@.len(),
            spec_interp_env(cmd_str@, names, env@) == spec_interp_env(
                cur@,
                names.skip(i as int),
                env@,
            ),
        decreases env_vars@.len() - i,
    {
        proof {
            assert(names.skip(i as int)[0] == names[i as int]);
            assert(names.skip(i as int).skip(1) =~= names.skip(i + 1));
            assert(env_vars@[i as int]@ == names[i as int]);
        }
        let value = match env_value(env, env_vars[i].as_str()) {
            Some(v) => v.clone(),
            None => {
                let mut msg = "The environment variable '".to_owned();
                msg.append(env_vars[i].as_str());
                msg.append(
                    "' couldn't be loaded. This means it either hasn't been defined (you may need to load another environment variable file) or contains invalid characters.",
                );
                return Err(msg);
            },
        };
        let mut token = "%".to_owned();
        token.append(env_vars[i].as_str());
        proof {
            reveal_strlit("%");
            assert(token@ =~= pct_token(names[i as int]));
        }
        cur = replace_all(cur.as_str(), token.as_str(), value.as_str());
        i = i + 1;
    }
    proof {
        assert(names.skip(names.len() as int) =~= Seq::<Seq<char>>::empty());
    }
    Ok(cur)
}

/// Substitutes the declared argument names into `cmd_str` positionally from
/// `given`.
#[verifier::loop_isolation(false)]
pub fn interpolate_specific_args(cmd_str: &str, decl: &Vec<String>, given: &Vec<String>) -> (r:
    String)
    requires
        decl@.len() <= given@.len(),
    ensures
        r@ == spec_interp_args(cmd_str@, decl.deep_view(), given.deep_view()),
{
    let ghost dd = decl.deep_view();
    let ghost gd = given.deep_view();
    proof {
        assert(dd.skip(0) =~= dd);
        assert(gd.skip(0) =~= gd);
    }
    let mut cur: String = cmd_str.to_owned();
    let mut i: usize = 0;
    while i < decl.len()
        invariant
            0 <= i <= decl@.len(),
            dd == decl.deep_view(),
            gd == given.deep_view(),
            dd.len() == decl@.len(),
            gd.len() == given@.len(),
            dd.len() <= gd.len(),
            spec_interp_args(cmd_str@, dd, gd) == spec_interp_args(
                cur@,
                dd.skip(i as int),
                gd.skip(i as int),
            ),
        decreases decl@.len() - i,
    {
        proof {
            assert(dd.skip(i as int)[0] == dd[i as int]);
            assert(gd.skip(i as int)[0] == gd[i as int]);
            assert(dd.skip(i as int).skip(1) =~= dd.skip(i + 1));
            assert(gd.skip(i as int).skip(1) =~= gd.skip(i + 1));
            assert(decl@[i as int]@ == dd[i as int]);
            assert(given@[i as int]@ == gd[i as int]);
        }
        let mut token = "%".to_owned();
        token.append(decl[i].as_str());
        proof {
            reveal_strlit("%");
            assert(token@ =~= pct_token(dd[i as int]));
        }
        cur = replace_all(cur.as_str(), token.as_str(), given[i].as_str());
        i = i + 1;
    }
    proof {
        assert(spec_interp_args(cur@, dd.skip(dd.len() as int), gd.skip(dd.len() as int)) == cur@);
    }
    cur
}

/// The arguments left over after the named pass: everything past the
/// declared count.
#[verifier::loop_isolation(false)]
pub fn remaining_args(decl_len: usize, given: &Vec<String>) -> (r: Vec<String>)
    requires
        decl_len <= given@.len(),
    ensures
        r.deep_view() == given.deep_view().skip(decl_len as int),
{
    let mut out: Vec<String> = Vec::new();
    let mut i: usize = decl_len;
    while i < given.len()
        invariant
            decl_len <= i <= given@.len(),
            out@.len() == i - decl_len,
            forall|k: int| 0 <= k < i - decl_len ==> (#[trigger] out@[k])@ == given@[decl_len + k]@,
        decreases given@.len() - i,
    {
        out.push(given[i].clone());
        i = i + 1;
    }
    proof {
        assert(out.deep_view() =~= given.deep_view().skip(decl_len as int));
    }
    out
}

/// Expands the trailing block: every unescaped `%%` becomes the given
/// arguments joined with spaces, every `\%%` a literal `%%`.
#[verifier::loop_isolation(false)]
pub fn interpolate_remaining_arguments(cmd_str: &str, prog_args: &Vec<String>) -> (r: String)
    ensures
        r@ == spec_interp_tail(cmd_str@, spec_join_spaces(prog_args.deep_view())),
{
    let joined = join_spaces(prog_args);
    let ghost jd = joined@;
    let n = cmd_str.unicode_len();
    let mut out = String::new();
    let mut i: usize = 0;
    proof {
        assert(cmd_str@.skip(0) =~= cmd_str@);
        assert(Seq::<char>::empty() + spec_interp_tail(cmd_str@, jd) =~= spec_interp_tail(
            cmd_str@,
            jd,
        ));
    }
    while i < n
        invariant
            0 <= i <= n,
            n == cmd_str@.len(),
            jd == joined@,
            out@ + spec_interp_tail(cmd_str@.skip(i as int), jd) == spec_interp_tail(cmd_str@, jd),
        decreases n - i,
    {
        let ghost t = cmd_str@.skip(i as int);
        let c = cmd_str.get_char(i);
        assert(c == t[0]);
        if c == '\\' && n - i > 2 && cmd_str.get_char(i + 1) == '%' && cmd_str.get_char(i + 2)
            == '%' {
            assert(t[1] == '%' && t[2] == '%');
            out.append("%%");
            proof {
                reveal_strlit("%%");
                crate::strutil::lemma_skip_skip(cmd_str@, i as int, 3);
                assert("%%"@ =~= seq!['%', '%']);
            }
            i = i + 3;
        } else if c == '%' && n - i > 1 && cmd_str.get_char(i + 1) == '%' {
            assert(t[1] == '%');
            out.append(joined.as_str());
            proof {
                crate::strutil::lemma_skip_skip(cmd_str@, i as int, 2);
            }
            i = i + 2;
        } else {
            let piece = cmd_str.substring_char(i, i + 1);
            out.append(piece);
            proof {
                crate::strutil::lemma_skip_skip(cmd_str@, i as int, 1);
                assert(piece@ =~= seq![t[0]]);
                if t.len() >= 3 && t[0] == '\\' && t[1] == '%' && t[2] == '%' {
                    assert(n - i > 2);
                    assert(false);
                }
                if t.len() >= 2 && t[0] == '%' && t[1] == '%' {
                    assert(n - i > 1);
                    assert(false);
                }
                assert(spec_interp_tail(t, jd) == seq![t[0]] + spec_interp_tail(
                    cmd_str@.skip(i + 1),
                    jd,
                ));
            }
            i = i + 1;
        }
        assert(out@ + spec_interp_tail(cmd_str@.skip(i as int), jd) == spec_interp_tail(
            cmd_str@,
            jd,
        ));
    }
    proof {
        assert(cmd_str@.skip(n as int) =~= Seq::<char>::empty());
        assert(out@ + Seq::<char>::empty() =~= out@);
    }
    out
}

// ------------------------------------------------------------------
// Interpolation completeness: after a pass, its token is gone, and no
// pass manufactures a token of another pass. These hold when the
// substituted values are non-empty and share no character with `%` or
// with any declared token; a value that itself contains a token (for
// example the value `%name` for the argument `name`) re-introduces
// tokens and is excluded.
// ------------------------------------------------------------------

/// The two-character trailing-block operator.
pub open spec fn pct_pct() -> Seq<char> {
    seq!['%', '%']
}

/// An occurrence in a suffix is an occurrence in the whole.
pub proof fn lemma_contains_skip(s: Seq<char>, q: Seq<char>, k: int)
    requires
        0 <= k <= s.len(),
        contains_seq(s.skip(k), q),
    ensures
        contains_seq(s, q),
{
    let p = choose|p: int| match_at(s.skip(k), q, p);
    assert(s.subrange(p + k, p + k + q.len() as int) =~= s.skip(k).subrange(
        p,
        p + q.len() as int,
    ));
    assert(match_at(s, q, p + k));
}

/// If the replaced form of `s` begins with `qp`, and no character of `qp`
/// occurs in the replacement, then `s` itself begins with `qp`.
proof fn lemma_replace_prefix(s: Seq<char>, pat: Seq<char>, rep: Seq<char>, qp: Seq<char>)
    requires
        pat.len() > 0,
        rep.len() > 0,
        qp.len() > 0,
        forall|j: int| 0 <= j < qp.len() ==> !rep.contains(#[trigger] qp[j]),
        match_at(spec_replace(s, pat, rep), qp, 0),
    ensures
        match_at(s, qp, 0),
    decreases s.len(),
{
    let r = spec_replace(s, pat, rep);
    assert(r.subrange(0, qp.len() as int) == qp);
    assert forall|j: int| 0 <= j < qp.len() implies r[j] == qp[j] by {
        assert(r.subrange(0, qp.len() as int)[j] == r[j]);
    }
    if s.len() == 0 {
        assert(r == s);
    } else if match_at(s, pat, 0) {
        assert(r == rep + spec_replace(s.skip(pat.len() as int), pat, rep));
        assert(r[0] == rep[0]);
        assert(rep.contains(qp[0])) by {
            assert(rep[0] == qp[0]);
        }
        assert(false);
    } else {
        assert(r == seq![s[0]] + spec_replace(s.skip(1), pat, rep));
        assert(qp[0] == s[0]);
        if qp.len() == 1 {
            assert(s.subrange(0, 1) =~= qp);
        } else {
            let r2 = spec_replace(s.skip(1), pat, rep);
            assert(match_at(r2, qp.skip(1), 0)) by {
                assert(qp.len() - 1 <= r2.len()) by {
                    assert(r.len() == 1 + r2.len());
                }
                assert(r2.subrange(0, qp.len() - 1) =~= qp.skip(1)) by {
                    assert forall|j: int| 0 <= j < qp.len() - 1 implies r2.subrange(
                        0,
                        qp.len() - 1,
                    )[j] == qp.skip(1)[j] by {
                        assert(r2[j] == r[j + 1]);
                    }
                }
            }
            assert forall|j: int| 0 <= j < qp.skip(1).len() implies !rep.contains(
                #[trigger] qp.skip(1)[j],
            ) by {
                assert(qp.skip(1)[j] == qp[j + 1]);
            }
            lemma_replace_prefix(s.skip(1), pat, rep, qp.skip(1));
            assert(s.subrange(0, qp.len() as int) =~= qp) by {
                assert(s.skip(1).subrange(0, qp.len() - 1) == qp.skip(1));
                assert forall|j: int| 0 <= j < qp.len() implies s.subrange(
                    0,
                    qp.len() as int,
                )[j] == qp[j] by {
                    if j >= 1 {
                        assert(s[j] == s.skip(1).subrange(0, qp.len() - 1)[j - 1]);
                        assert(qp.skip(1)[j - 1] == qp[j]);
                    }
                }
            }
        }
    }
}

/// A `%`-led pattern occurring in the replaced form of `s` already occurred
/// in `s`, when the replacement is non-empty, `%`-free, and shares no
/// character with the pattern, and `s` holds no `%%`.
pub proof fn lemma_replace_no_new_token(s: Seq<char>, pat: Seq<char>, rep: Seq<char>, q: Seq<char>)
    requires
        pat.len() > 0,
        q.len() > 0,
        q[0] == '%',
        rep.len() > 0,
        !rep.contains('%'),
        forall|j: int| 0 <= j < q.len() ==> !rep.contains(#[trigger] q[j]),
        contains_seq(spec_replace(s, pat, rep), q),
    ensures
        contains_seq(s, q),
    decreases s.len(),
{
    let r = spec_replace(s, pat, rep);
    let p = choose|p: int| match_at(r, q, p);
    if s.len() == 0 {
        assert(r == s);
    } else if match_at(s, pat, 0) {
        let rest = spec_replace(s.skip(pat.len() as int), pat, rep);
        assert(r == rep + rest);
        if p < rep.len() {
            assert(r[p] == rep[p]);
            assert(r.subrange(p, p + q.len() as int)[0] == q[0]);
            assert(rep.contains('%')) by {
                assert(rep[p] == '%');
            }
            assert(false);
        } else {
            assert(match_at(rest, q, p - rep.len())) by {
                assert(rest.subrange(p - rep.len(), p - rep.len() + q.len() as int)
                    =~= r.subrange(p, p + q.len() as int));
            }
            lemma_replace_no_new_token(s.skip(pat.len() as int), pat, rep, q);
            lemma_contains_skip(s, q, pat.len() as int);
        }
    } else {
        let rest = spec_replace(s.skip(1), pat, rep);
        assert(r == seq![s[0]] + rest);
        if p == 0 {
            lemma_replace_prefix(s, pat, rep, q);
        } else {
            assert(match_at(rest, q, p - 1)) by {
                assert(rest.subrange(p - 1, p - 1 + q.len() as int) =~= r.subrange(
                    p,
                    p + q.len() as int,
                ));
            }
            lemma_replace_no_new_token(s.skip(1), pat, rep, q);
            lemma_contains_skip(s, q, 1);
        }
    }
}

/// After replacing a `%`-led token by a non-empty value that is `%`-free and
/// shares no character with the token, no occurrence of the token remains.
pub proof fn lemma_replace_removes_token(s: Seq<char>, pat: Seq<char>, rep: Seq<char>)
    requires
        pat.len() > 0,
        pat[0] == '%',
        rep.len() > 0,
        !rep.contains('%'),
        forall|j: int| 0 <= j < pat.len() ==> !rep.contains(#[trigger] pat[j]),
    ensures
        !contains_seq(spec_replace(s, pat, rep), pat),
    decreases s.len(),
{
    let r = spec_replace(s, pat, rep);
    if contains_seq(r, pat) {
        let p = choose|p: int| match_at(r, pat, p);
        if s.len() == 0 {
            assert(r == s);
            assert(pat.len() <= 0);
        } else if match_at(s, pat, 0) {
            let rest = spec_replace(s.skip(pat.len() as int), pat, rep);
            assert(r == rep + rest);
            if p < rep.len() {
                assert(r[p] == rep[p]);
                assert(r.subrange(p, p + pat.len() as int)[0] == pat[0]);
                assert(rep.contains('%')) by {
                    assert(rep[p] == '%');
                }
            } else {
                assert(match_at(rest, pat, p - rep.len())) by {
                    assert(rest.subrange(p - rep.len(), p - rep.len() + pat.len() as int)
                        =~= r.subrange(p, p + pat.len() as int));
                }
                lemma_replace_removes_token(s.skip(pat.len() as int), pat, rep);
            }
        } else {
            let rest = spec_replace(s.skip(1), pat, rep);
            assert(r == seq![s[0]] + rest);
            if p == 0 {
                lemma_replace_prefix(s, pat, rep, pat);
                assert(match_at(s, pat, 0));
            } else {
                assert(match_at(rest, pat, p - 1)) by {
                    assert(rest.subrange(p - 1, p - 1 + pat.len() as int) =~= r.subrange(
                        p,
                        p + pat.len() as int,
                    ));
                }
                lemma_replace_removes_token(s.skip(1), pat, rep);
            }
        }
    }
}

/// A substituted value that cannot manufacture tokens: non-empty, free of
/// `%`, and sharing no character with any of the given tokens.
pub open spec fn value_avoids_tokens(v: Seq<char>, toks: Seq<Seq<char>>) -> bool {
    &&& v.len() > 0
    &&& !v.contains('%')
    &&& forall|k: int, j: int|
        0 <= k < toks.len() && 0 <= j < toks[k].len() ==> !v.contains(#[trigger] toks[k][j])
}

/// Every value of the environment snapshot avoids the given tokens.
pub open spec fn env_values_avoid_tokens(env: Seq<(String, String)>, toks: Seq<Seq<char>>) -> bool {
    forall|i: int| 0 <= i < env.len() ==> value_avoids_tokens(((#[trigger] env[i]).1)@, toks)
}

proof fn lemma_env_lookup_member(env: Seq<(String, String)>, name: Seq<char>)
    requires
        env_lookup_s(env, name) is Some,
    ensures
        exists|i: int| 0 <= i < env.len() && env_lookup_s(env, name)->Some_0 == ((#[trigger] env[i]).1)@,
    decreases env.len(),
{
    if env.len() > 0 && env[0].0@ != name {
        lemma_env_lookup_member(env.skip(1), name);
        let i = choose|i: int|
            0 <= i < env.skip(1).len() && env_lookup_s(env.skip(1), name)->Some_0 == ((
            #[trigger] env.skip(1)[i]).1)@;
        assert(env.skip(1)[i] == env[i + 1]);
    }
}

/// Through the environment pass, a `%`-led pattern that was absent stays
/// absent, and freedom from `%%` is preserved.
proof fn lemma_env_pass_preserves(
    s: Seq<char>,
    names: Seq<Seq<char>>,
    env: Seq<(String, String)>,
    q: Seq<char>,
)
    requires
        spec_interp_env(s, names, env) is Ok,
        !contains_seq(s, q),
        !contains_seq(s, pct_pct()),
        q.len() > 0,
        q[0] == '%',
        env_values_avoid_tokens(env, seq![q]),
    ensures
        !contains_seq(spec_interp_env(s, names, env)->Ok_0, q),
        !contains_seq(spec_interp_env(s, names, env)->Ok_0, pct_pct()),
    decreases names.len(),
{
    if names.len() > 0 {
        let v = env_lookup_s(env, names[0])->Some_0;
        lemma_env_lookup_member(env, names[0]);
        assert(value_avoids_tokens(v, seq![q]));
        let tok = pct_token(names[0]);
        let s1 = spec_replace(s, tok, v);
        assert(!contains_seq(s1, q)) by {
            if contains_seq(s1, q) {
                assert(forall|j: int| 0 <= j < q.len() ==> !v.contains(#[trigger] q[j])) by {
                    assert(forall|j: int| 0 <= j < q.len() ==> q[j] == seq![q][0][j]);
                }
                lemma_replace_no_new_token(s, tok, v, q);
            }
        }
        assert(!contains_seq(s1, pct_pct())) by {
            if contains_seq(s1, pct_pct()) {
                assert(forall|j: int|
                    0 <= j < pct_pct().len() ==> !v.contains(#[trigger] pct_pct()[j])) by {
                    assert(pct_pct()[0] == '%' && pct_pct()[1] == '%');
                }
                lemma_replace_no_new_token(s, tok, v, pct_pct());
            }
        }
        lemma_env_pass_preserves(s1, names.skip(1), env, q);
    }
}

/// After the environment pass, the token of every processed variable is
/// absent.
proof fn lemma_env_pass_removes(
    s: Seq<char>,
    names: Seq<Seq<char>>,
    env: Seq<(String, String)>,
    x: int,
)
    requires
        spec_interp_env(s, names, env) is Ok,
        !contains_seq(s, pct_pct()),
        0 <= x < names.len(),
        env_values_avoid_tokens(env, names.map_values(|n: Seq<char>| pct_token(n))),
    ensures
        !contains_seq(spec_interp_env(s, names, env)->Ok_0, pct_token(names[x])),
    decreases names.len(),
{
    let toks = names.map_values(|n: Seq<char>| pct_token(n));
    let v = env_lookup_s(env, names[0])->Some_0;
    lemma_env_lookup_member(env, names[0]);
    assert(value_avoids_tokens(v, toks));
    let tok = pct_token(names[0]);
    assert(toks[0] == tok);
    let s1 = spec_replace(s, tok, v);
    assert(!contains_seq(s1, pct_pct())) by {
        if contains_seq(s1, pct_pct()) {
            assert(forall|j: int|
                0 <= j < pct_pct().len() ==> !v.contains(#[trigger] pct_pct()[j])) by {
                assert(pct_pct()[0] == '%' && pct_pct()[1] == '%');
            }
            lemma_replace_no_new_token(s, tok, v, pct_pct());
        }
    }
    if x == 0 {
        lemma_replace_removes_token(s, tok, v);
        lemma_env_pass_preserves(s1, names.skip(1), env, tok);
    } else {
        let toks1 = names.skip(1).map_values(|n: Seq<char>| pct_token(n));
        assert(env_values_avoid_tokens(env, toks1)) by {
            assert forall|i: int| 0 <= i < env.len() implies value_avoids_tokens(
                ((#[trigger] env[i]).1)@,
                toks1,
            ) by {
                assert(value_avoids_tokens((env[i].1)@, toks));
                assert forall|k: int, j: int|
                    0 <= k < toks1.len() && 0 <= j < toks1[k].len() implies !(env[i].1)@.contains(
                    #[trigger] toks1[k][j],
                ) by {
                    assert(toks1[k] == pct_token(names.skip(1)[k]));
                    assert(names.skip(1)[k] == names[k + 1]);
                    assert(toks[k + 1] == pct_token(names[k + 1]));
                    assert(!(env[i].1)@.contains(toks[k + 1][j]));
                }
            }
        }
        lemma_env_pass_removes(s1, names.skip(1), env, x - 1);
        assert(names.skip(1)[x - 1] == names[x]);
    }
}

/// Through the named-argument pass, a `%`-led pattern that was absent stays
/// absent, and freedom from `%%` is preserved.
proof fn lemma_args_pass_preserves(
    s: Seq<char>,
    decl: Seq<Seq<char>>,
    given: Seq<Seq<char>>,
    q: Seq<char>,
)
    requires
        !contains_seq(s, q),
        !contains_seq(s, pct_pct()),
        q.len() > 0,
        q[0] == '%',
        forall|i: int| 0 <= i < given.len() ==> value_avoids_tokens(#[trigger] given[i], seq![q]),
    ensures
        !contains_seq(spec_interp_args(s, decl, given), q),
        !contains_seq(spec_interp_args(s, decl, given), pct_pct()),
    decreases decl.len(),
{
    if decl.len() > 0 && given.len() > 0 {
        let v = given[0];
        let tok = pct_token(decl[0]);
        let s1 = spec_replace(s, tok, v);
        assert(!contains_seq(s1, q)) by {
            if contains_seq(s1, q) {
                assert(forall|j: int| 0 <= j < q.len() ==> !v.contains(#[trigger] q[j])) by {
                    assert(forall|j: int| 0 <= j < q.len() ==> q[j] == seq![q][0][j]);
                }
                lemma_replace_no_new_token(s, tok, v, q);
            }
        }
        assert(!contains_seq(s1, pct_pct())) by {
            if contains_seq(s1, pct_pct()) {
                assert(forall|j: int|
                    0 <= j < pct_pct().len() ==> !v.contains(#[trigger] pct_pct()[j])) by {
                    assert(pct_pct()[0] == '%' && pct_pct()[1] == '%');
                }
                lemma_replace_no_new_token(s, tok, v, pct_pct());
            }
        }
        assert(forall|i: int|
            0 <= i < given.skip(1).len() ==> value_avoids_tokens(
                #[trigger] given.skip(1)[i],
                seq![q],
            )) by {
            assert(forall|i: int| 0 <= i < given.skip(1).len() ==> given.skip(1)[i] == given[i + 1]);
        }
        lemma_args_pass_preserves(s1, decl.skip(1), given.skip(1), q);
    }
}

/// After the named-argument pass, the token of every processed argument is
/// absent.
proof fn lemma_args_pass_removes(
    s: Seq<char>,
    decl: Seq<Seq<char>>,
    given: Seq<Seq<char>>,
    x: int,
)
    requires
        !contains_seq(s, pct_pct()),
        0 <= x < decl.len(),
        decl.len() <= given.len(),
        forall|i: int|
            0 <= i < given.len() ==> value_avoids_tokens(
                #[trigger] given[i],
                decl.map_values(|n: Seq<char>| pct_token(n)),
            ),
    ensures
        !contains_seq(spec_interp_args(s, decl, given), pct_token(decl[x])),
    decreases decl.len(),
{
    let toks = decl.map_values(|n: Seq<char>| pct_token(n));
    let v = given[0];
    assert(value_avoids_tokens(v, toks));
    let tok = pct_token(decl[0]);
    assert(toks[0] == tok);
    let s1 = spec_replace(s, tok, v);
    assert(!contains_seq(s1, pct_pct())) by {
        if contains_seq(s1, pct_pct()) {
            assert(forall|j: int|
                0 <= j < pct_pct().len() ==> !v.contains(#[trigger] pct_pct()[j])) by {
                assert(pct_pct()[0] == '%' && pct_pct()[1] == '%');
            }
            lemma_replace_no_new_token(s, tok, v, pct_pct());
        }
    }
    if x == 0 {
        lemma_replace_removes_token(s, tok, v);
        assert(forall|i: int|
            0 <= i < given.skip(1).len() ==> value_avoids_tokens(
                #[trigger] given.skip(1)[i],
                seq![tok],
            )) by {
            assert forall|i: int| 0 <= i < given.skip(1).len() implies value_avoids_tokens(
                #[trigger] given.skip(1)[i],
                seq![tok],
            ) by {
                assert(given.skip(1)[i] == given[i + 1]);
                assert(value_avoids_tokens(given[i + 1], toks));
                assert forall|j: int| 0 <= j < tok.len() implies !given[i + 1].contains(
                    #[trigger] seq![tok][0][j],
                ) by {
                    assert(toks[0][j] == tok[j]);
                }
            }
        }
        lemma_args_pass_preserves(s1, decl.skip(1), given.skip(1), tok);
    } else {
        let toks1 = decl.skip(1).map_values(|n: Seq<char>| pct_token(n));
        assert forall|i: int| 0 <= i < given.skip(1).len() implies value_avoids_tokens(
            #[trigger] given.skip(1)[i],
            toks1,
        ) by {
            assert(given.skip(1)[i] == given[i + 1]);
            assert(value_avoids_tokens(given[i + 1], toks));
            assert forall|k: int, j: int|
                0 <= k < toks1.len() && 0 <= j < toks1[k].len() implies !given[i + 1].contains(
                #[trigger] toks1[k][j],
            ) by {
                assert(toks1[k] == pct_token(decl.skip(1)[k]));
                assert(decl.skip(1)[k] == decl[k + 1]);
                assert(toks[k + 1] == pct_token(decl[k + 1]));
                assert(!given[i + 1].contains(toks[k + 1][j]));
            }
        }
        lemma_args_pass_removes(s1, decl.skip(1), given.skip(1), x - 1);
        assert(decl.skip(1)[x - 1] == decl[x]);
    }
}

/// The trailing pass leaves a string without `%%` unchanged.
pub proof fn lemma_tail_identity(s: Seq<char>, joined: Seq<char>)
    requires
        !contains_seq(s, pct_pct()),
    ensures
        spec_interp_tail(s, joined) == s,
    decreases s.len(),
{
    if s.len() >= 3 && s[0] == '\\' && s[1] == '%' && s[2] == '%' {
        assert(s.subrange(1, 3) =~= pct_pct());
        assert(match_at(s, pct_pct(), 1));
        assert(false);
    } else if s.len() >= 2 && s[0] == '%' && s[1] == '%' {
        assert(s.subrange(0, 2) =~= pct_pct());
        assert(match_at(s, pct_pct(), 0));
        assert(false);
    } else if s.len() == 0 {
    } else {
        assert(!contains_seq(s.skip(1), pct_pct())) by {
            if contains_seq(s.skip(1), pct_pct()) {
                lemma_contains_skip(s, pct_pct(), 1);
            }
        }
        lemma_tail_identity(s.skip(1), joined);
        assert(seq![s[0]] + s.skip(1) =~= s);
    }
}

/// Law: interpolation completeness. For a stage without a `%%` trailing
/// block, once every substituted value is non-empty, free of `%`, and shares
/// no character with any declared token, the fully interpolated stage holds
/// no `%NAME` token of any declared environment variable and no `%name`
/// token of any declared argument. (A value that itself carries `%` or
/// token characters — for instance the value `%name` for an argument named
/// `name` — can re-introduce a token and is excluded.)
pub proof fn lemma_interpolation_completeness(
    e: Seq<char>,
    names: Seq<Seq<char>>,
    env: Seq<(String, String)>,
    decl: Seq<Seq<char>>,
    given: Seq<Seq<char>>,
)
    requires
        spec_interp_env(e, names, env) is Ok,
        !contains_seq(e, pct_pct()),
        decl.len() <= given.len(),
        env_values_avoid_tokens(env, (names + decl).map_values(|n: Seq<char>| pct_token(n))),
        forall|i: int|
            0 <= i < given.len() ==> value_avoids_tokens(
                #[trigger] given[i],
                (names + decl).map_values(|n: Seq<char>| pct_token(n)),
            ),
    ensures
        forall|k: int|
            0 <= k < names.len() ==> !contains_seq(
                spec_stage_cmd(e, names, env, decl, given),
                pct_token(#[trigger] names[k]),
            ),
        forall|k: int|
            0 <= k < decl.len() ==> !contains_seq(
                spec_stage_cmd(e, names, env, decl, given),
                pct_token(#[trigger] decl[k]),
            ),
{
    let all_toks = (names + decl).map_values(|n: Seq<char>| pct_token(n));
    let name_toks = names.map_values(|n: Seq<char>| pct_token(n));
    let decl_toks = decl.map_values(|n: Seq<char>| pct_token(n));
    let s1 = spec_interp_env(e, names, env)->Ok_0;
    let s2 = spec_interp_args(s1, decl, given);
    // restrict the benignity hypotheses to each pass's tokens
    assert(env_values_avoid_tokens(env, name_toks)) by {
        assert forall|i: int| 0 <= i < env.len() implies value_avoids_tokens(
            ((#[trigger] env[i]).1)@,
            name_toks,
        ) by {
            assert(value_avoids_tokens((env[i].1)@, all_toks));
            assert forall|k: int, j: int|
                0 <= k < name_toks.len() && 0 <= j < name_toks[k].len() implies !(
            env[i].1)@.contains(#[trigger] name_toks[k][j]) by {
                assert((names + decl)[k] == names[k]);
                assert(all_toks[k] == pct_token(names[k]));
                assert(name_toks[k] == pct_token(names[k]));
                assert(!(env[i].1)@.contains(all_toks[k][j]));
            }
        }
    }
    assert forall|i: int| 0 <= i < given.len() implies value_avoids_tokens(
        #[trigger] given[i],
        decl_toks,
    ) by {
        assert(value_avoids_tokens(given[i], all_toks));
        assert forall|k: int, j: int|
            0 <= k < decl_toks.len() && 0 <= j < decl_toks[k].len() implies !given[i].contains(
            #[trigger] decl_toks[k][j],
        ) by {
            assert((names + decl)[names.len() + k] == decl[k]);
            assert(all_toks[names.len() + k] == pct_token(decl[k]));
            assert(decl_toks[k] == pct_token(decl[k]));
            assert(!given[i].contains(all_toks[names.len() + k][j]));
        }
    }
    // the environment pass keeps the string free of `%%`
    assert(!contains_seq(s1, pct_pct())) by {
        if names.len() > 0 {
            lemma_env_pass_removes(e, names, env, 0);
            // pp-freedom comes along the same induction; re-derive it directly
        }
        lemma_env_pass_pp_free(e, names, env);
    }
    // the environment tokens are gone after their pass and stay gone
    assert forall|k: int| 0 <= k < names.len() implies !contains_seq(
        s2,
        pct_token(#[trigger] names[k]),
    ) by {
        lemma_env_pass_removes(e, names, env, k);
        let tok = pct_token(names[k]);
        assert forall|i: int| 0 <= i < given.len() implies value_avoids_tokens(
            #[trigger] given[i],
            seq![tok],
        ) by {
            assert(value_avoids_tokens(given[i], all_toks));
            assert forall|j: int| 0 <= j < tok.len() implies !given[i].contains(
                #[trigger] seq![tok][0][j],
            ) by {
                assert((names + decl)[k] == names[k]);
                assert(all_toks[k] == tok);
                assert(!given[i].contains(all_toks[k][j]));
            }
        }
        lemma_args_pass_preserves(s1, decl, given, tok);
    }
    // the argument tokens are gone after their pass
    assert forall|k: int| 0 <= k < decl.len() implies !contains_seq(
        s2,
        pct_token(#[trigger] decl[k]),
    ) by {
        lemma_args_pass_removes(s1, decl, given, k);
    }
    // without `%%` in the string, the trailing pass is the identity
    assert(!contains_seq(s2, pct_pct())) by {
        if decl.len() > 0 && given.len() > 0 {
            lemma_args_pass_removes(s1, decl, given, 0);
        }
        lemma_args_pass_pp_free(s1, decl, given);
    }
    lemma_tail_identity(s2, spec_join_spaces(given.skip(decl.len() as int)));
}

/// The environment pass preserves freedom from `%%`.
proof fn lemma_env_pass_pp_free(s: Seq<char>, names: Seq<Seq<char>>, env: Seq<(String, String)>)
    requires
        spec_interp_env(s, names, env) is Ok,
        !contains_seq(s, pct_pct()),
        forall|i: int| 0 <= i < env.len() ==> ((#[trigger] env[i]).1)@.len() > 0 && !((env[i]).1)@.contains('%'),
    ensures
        !contains_seq(spec_interp_env(s, names, env)->Ok_0, pct_pct()),
    decreases names.len(),
{
    if names.len() > 0 {
        let v = env_lookup_s(env, names[0])->Some_0;
        lemma_env_lookup_member(env, names[0]);
        let tok = pct_token(names[0]);
        let s1 = spec_replace(s, tok, v);
        assert(!contains_seq(s1, pct_pct())) by {
            if contains_seq(s1, pct_pct()) {
                assert(forall|j: int|
                    0 <= j < pct_pct().len() ==> !v.contains(#[trigger] pct_pct()[j])) by {
                    assert(pct_pct()[0] == '%' && pct_pct()[1] == '%');
                }
                lemma_replace_no_new_token(s, tok, v, pct_pct());
            }
        }
        lemma_env_pass_pp_free(s1, names.skip(1), env);
    }
}

/// The named-argument pass preserves freedom from `%%`.
proof fn lemma_args_pass_pp_free(s: Seq<char>, decl: Seq<Seq<char>>, given: Seq<Seq<char>>)
    requires
        !contains_seq(s, pct_pct()),
        forall|i: int| 0 <= i < given.len() ==> (#[trigger] given[i]).len() > 0 && !given[i].contains('%'),
    ensures
        !contains_seq(spec_interp_args(s, decl, given), pct_pct()),
    decreases decl.len(),
{
    if decl.len() > 0 && given.len() > 0 {
        let v = given[0];
        let tok = pct_token(decl[0]);
        let s1 = spec_replace(s, tok, v);
        assert(!contains_seq(s1, pct_pct())) by {
            if contains_seq(s1, pct_pct()) {
                assert(forall|j: int|
                    0 <= j < pct_pct().len() ==> !v.contains(#[trigger] pct_pct()[j])) by {
                    assert(pct_pct()[0] == '%' && pct_pct()[1] == '%');
                }
                lemma_replace_no_new_token(s, tok, v, pct_pct());
            }
        }
        assert(forall|i: int|
            0 <= i < given.skip(1).len() ==> (#[trigger] given.skip(1)[i]).len() > 0 && !given.skip(
                1,
            )[i].contains('%')) by {
            assert(forall|i: int| 0 <= i < given.skip(1).len() ==> given.skip(1)[i] == given[i + 1]);
        }
        lemma_args_pass_pp_free(s1, decl.skip(1), given.skip(1));
    }
}

/// Law: every unescaped `%%` is expanded. When the command string holds no
/// `\%%` escape and no run of three `%`, and the joined arguments hold no
/// `%`, the trailing pass leaves no `%%` behind: every block was replaced
/// by the arguments.
pub proof fn lemma_trailing_blocks_expanded(s: Seq<char>, joined: Seq<char>)
    requires
        !contains_seq(s, seq!['\\', '%', '%']),
        !contains_seq(s, seq!['%', '%', '%']),
        !joined.contains('%'),
    ensures
        !contains_seq(spec_interp_tail(s, joined), pct_pct()),
    decreases s.len(),
{
    let r = spec_interp_tail(s, joined);
    let esc = seq!['\\', '%', '%'];
    let ppp = seq!['%', '%', '%'];
    if s.len() >= 1 {
        assert(!contains_seq(s.skip(1), esc) && !contains_seq(s.skip(1), ppp)) by {
            if contains_seq(s.skip(1), esc) {
                lemma_contains_skip(s, esc, 1);
            }
            if contains_seq(s.skip(1), ppp) {
                lemma_contains_skip(s, ppp, 1);
            }
        }
    }
    if s.len() >= 3 && s[0] == '\\' && s[1] == '%' && s[2] == '%' {
        assert(s.subrange(0, 3) =~= esc);
        assert(match_at(s, esc, 0));
        assert(false);
    } else if s.len() >= 2 && s[0] == '%' && s[1] == '%' {
        assert(!contains_seq(s.skip(2), esc) && !contains_seq(s.skip(2), ppp)) by {
            if contains_seq(s.skip(2), esc) {
                lemma_contains_skip(s, esc, 2);
            }
            if contains_seq(s.skip(2), ppp) {
                lemma_contains_skip(s, ppp, 2);
            }
        }
        lemma_trailing_blocks_expanded(s.skip(2), joined);
        let rest = spec_interp_tail(s.skip(2), joined);
        assert(r == joined + rest);
        if contains_seq(r, pct_pct()) {
            let p = choose|p: int| match_at(r, pct_pct(), p);
            if p < joined.len() {
                assert(r[p] == joined[p]);
                assert(r.subrange(p, p + 2)[0] == '%');
                assert(joined.contains('%')) by {
                    assert(joined[p] == '%');
                }
            } else {
                assert(match_at(rest, pct_pct(), p - joined.len())) by {
                    assert(rest.subrange(p - joined.len(), p - joined.len() + 2) =~= r.subrange(
                        p,
                        p + 2,
                    ));
                }
            }
            assert(false);
        }
    } else if s.len() == 0 {
    } else {
        lemma_trailing_blocks_expanded(s.skip(1), joined);
        let rest = spec_interp_tail(s.skip(1), joined);
        assert(r == seq![s[0]] + rest);
        if contains_seq(r, pct_pct()) {
            let p = choose|p: int| match_at(r, pct_pct(), p);
            if p == 0 {
                assert(s[0] == '%');
                assert(r[1] == '%');
                assert(rest[0] == '%') by {
                    assert(r.subrange(0, 2)[1] == '%');
                }
                // the head of the transformed tail starts with `%`: it is a
                // copied character (an expansion head would be a `%`-free
                // joined or an escape's `%%`, both excluded)
                let t = s.skip(1);
                if t.len() >= 3 && t[0] == '\\' && t[1] == '%' && t[2] == '%' {
                    assert(rest[0] == '%');
                    assert(s.subrange(1, 4) =~= esc);
                    assert(match_at(s, esc, 1));
                    assert(false);
                } else if t.len() >= 2 && t[0] == '%' && t[1] == '%' {
                    assert(s.subrange(0, 3) =~= ppp);
                    assert(match_at(s, ppp, 0));
                    assert(false);
                } else if t.len() == 0 {
                    assert(rest.len() == 0);
                    assert(false);
                } else {
                    assert(rest[0] == t[0]);
                    assert(s[1] == '%');
                    // `s` then begins `%%`, which the scan would have taken
                    assert(false);
                }
            } else {
                assert(match_at(rest, pct_pct(), p - 1)) by {
                    assert(rest.subrange(p - 1, p + 1) =~= r.subrange(p, p + 2));
                }
                assert(false);
            }
        }
    }
}

/// One fully-interpolated stage: the environment pass, the named-argument
/// pass on the first `decl.len()` given arguments, then the trailing pass on
/// the rest. Defined when every declared variable is in the snapshot.
pub open spec fn spec_stage_cmd(
    e: Seq<char>,
    names: Seq<Seq<char>>,
    env: Seq<(String, String)>,
    decl: Seq<Seq<char>>,
    given: Seq<Seq<char>>,
) -> Seq<char> {
    let with_env = spec_interp_env(e, names, env)->Ok_0;
    let with_args = spec_interp_args(with_env, decl, given);
    spec_interp_tail(with_args, spec_join_spaces(given.skip(decl.len() as int)))
}

} // verus!
