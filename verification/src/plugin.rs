//! User-configured plugins: the descriptor a registry entry carries, and
//! the planning of a plugin's command line — splitting the configured
//! command into argv tokens, substituting temp-file paths for the
//! configured placeholders (longest token first), and validating the
//! configuration before anything is spawned. Spawning itself is the
//! caller's work.
use vstd::prelude::*;
use vstd::string::StringSliceAdditionalSpecFns;

use crate::{InputType, KvError};

verus! {

/// One registered plugin: the extensions and magic-byte signatures it
/// claims, the command to run, the optional placeholder tokens its
/// arguments carry for the input and output temp files, and the type its
/// output is interpreted as.
pub struct Plugin {
    /// The extensions this plugin claims.
    pub extensions: Vec<String>,
    /// Hex-encoded magic-byte prefixes this plugin claims, if any.
    pub magic_bytes: Option<Vec<String>>,
    /// How the plugin's output re-enters the resolver.
    pub output: InputType,
    /// The command string, shell-word-split before running.
    pub path: String,
    /// The token substituted by the input temp file's path; without one
    /// the input is piped to the child's stdin.
    pub placeholder: Option<String>,
    /// The token substituted by the output temp file's path; without one
    /// the child's stdout is captured.
    pub output_placeholder: Option<String>,
}

/// The plugin registry, in registration order: first match wins.
pub struct PluginConfig {
    pub plugins: Vec<(String, Plugin)>,
}


/// Substring containment: some position of `s` starts an occurrence of
/// `pat`.
pub open spec fn contains_sub(s: Seq<u8>, pat: Seq<u8>) -> bool {
    exists|i: int| 0 <= i <= s.len() - pat.len() && #[trigger] s.subrange(i, i + pat.len()) == pat
}

/// `s` with every non-overlapping occurrence of `pat` replaced by `rep`,
/// left to right; `pat` must be nonempty.
pub open spec fn replace_all(s: Seq<u8>, pat: Seq<u8>, rep: Seq<u8>) -> Seq<u8>
    decreases s.len(),
{
    if pat.len() == 0 || s.len() < pat.len() {
        s
    } else if pat.is_prefix_of(s) {
        rep + replace_all(s.skip(pat.len() as int), pat, rep)
    } else {
        seq![s[0]] + replace_all(s.drop_first(), pat, rep)
    }
}

/// Replace every occurrence of `pat` in `s` by `rep` and report whether
/// any occurred, exactly as `replace_all` and `contains_sub` say.
fn replace_bytes(s: &[u8], pat: &[u8], rep: &[u8]) -> (r: (Vec<u8>, bool))
    requires
        pat@.len() > 0,
    ensures
        r.0@ == replace_all(s@, pat@, rep@),
        r.1 == contains_sub(s@, pat@),
{
    let mut out: Vec<u8> = Vec::new();
    let mut found: bool = false;
    let mut i: usize = 0;
    proof {
        assert(s@.subrange(0, s@.len() as int) =~= s@);
        assert(Seq::<u8>::empty() + replace_all(s@, pat@, rep@) =~= replace_all(s@, pat@, rep@));
    }
    while i < s.len()
        invariant
            pat@.len() > 0,
            0 <= i <= s@.len(),
            replace_all(s@, pat@, rep@) == out@ + replace_all(
                s@.subrange(i as int, s@.len() as int),
                pat@,
                rep@,
            ),
            found ==> contains_sub(s@, pat@),
            !found ==> forall|j: int|
                0 <= j < i ==> #[trigger] s@.subrange(j, j + pat@.len()) != pat@,
        decreases s@.len() - i,
    {
        let ghost rem = s@.subrange(i as int, s@.len() as int);
        let suffix = &s[i..s.len()];
        if crate::util::starts_with(suffix, pat) {
            proof {
                assert(rem.subrange(0, pat@.len() as int) =~= s@.subrange(
                    i as int,
                    i + pat@.len(),
                ));
                assert(s@.subrange(i as int, i + pat@.len()) == pat@);
                assert(contains_sub(s@, pat@));
                assert(rem.skip(pat@.len() as int) =~= s@.subrange(
                    i + pat@.len(),
                    s@.len() as int,
                ));
                assert((out@ + rep@) + replace_all(
                    s@.subrange(i + pat@.len(), s@.len() as int),
                    pat@,
                    rep@,
                ) =~= out@ + (rep@ + replace_all(
                    s@.subrange(i + pat@.len(), s@.len() as int),
                    pat@,
                    rep@,
                )));
            }
            crate::send::append_bytes(&mut out, rep);
            found = true;
            i = i + pat.len();
        } else {
            proof {
                if pat@.len() <= rem.len() {
                    assert(rem.subrange(0, pat@.len() as int) =~= s@.subrange(
                        i as int,
                        i + pat@.len(),
                    ));
                }
                assert(rem.drop_first() =~= s@.subrange(i + 1, s@.len() as int));
                assert((out@ + seq![s@[i as int]]) + replace_all(
                    s@.subrange(i + 1, s@.len() as int),
                    pat@,
                    rep@,
                ) =~= out@ + (seq![s@[i as int]] + replace_all(
                    s@.subrange(i + 1, s@.len() as int),
                    pat@,
                    rep@,
                )));

            }
            if s.len() - i < pat.len() {
                let tail = &s[i..s.len()];
                crate::send::append_bytes(&mut out, tail);
                proof {
                    assert(!contains_sub(s@, pat@) || found) by {
                        if !found {
                            assert forall|j: int|
                                0 <= j <= s@.len() - pat@.len() implies #[trigger] s@.subrange(
                                j,
                                j + pat@.len(),
                            ) != pat@ by {
                                assert(j >= i ==> rem.len() >= pat@.len() || j + pat@.len()
                                    > s@.len());
                            }
                        }
                    }
                }
                return (out, found);
            }
            out.push(s[i]);
            i = i + 1;
        }
    }
    proof {
        assert(s@.subrange(i as int, s@.len() as int) =~= Seq::<u8>::empty());
        if !found {
            assert forall|j: int| 0 <= j <= s@.len() - pat@.len() implies #[trigger] s@.subrange(
                j,
                j + pat@.len(),
            ) != pat@ by {
                assert(j < i || pat@.len() == 0 || j + pat@.len() > s@.len());
            }
        }
    }
    (out, found)
}


/// What shell_words::split makes of a command string: its argv tokens, or
/// `None` on a parse error (a mismatched quote; a trailing backslash is
/// kept literally). The
/// result depends on the string alone.
pub uninterp spec fn shell_split_of(s: Seq<char>) -> Option<Seq<Seq<char>>>;

/// Relies on shell_words::split: POSIX-shell word splitting of the
/// configured command string; its parse failure is a plugin
/// configuration error.
#[verifier::external_body]
fn split_command(s: &str) -> (r: Result<Vec<String>, KvError>)
    ensures
        match r {
            Ok(v) => shell_split_of(s@) == Some(v.deep_view()),
            Err(e) => shell_split_of(s@) is None && e == KvError::PluginConfigError,
        },
{
    match shell_words::split(s) {
        Ok(v) => Ok(v),
        Err(_) => Err(KvError::PluginConfigError),
    }
}

/// A plugin invocation, fully planned: the program, its arguments with
/// every placeholder substituted, and how the input enters and the output
/// leaves the child process.
#[derive(Debug)]
pub struct PluginInvocation {
    /// The program to spawn.
    pub program: String,
    /// Its arguments, placeholders substituted.
    pub args: Vec<Vec<u8>>,
    /// The input bytes go to the child's stdin (no input placeholder was
    /// configured).
    pub pipe_stdin: bool,
    /// The output is read back from the reserved output file (an output
    /// placeholder was configured); otherwise stdout is captured.
    pub output_to_file: bool,
}

/// The ordered substitution list: the configured placeholders paired with
/// the input and output temp paths, the longer token first so that a
/// placeholder that is a substring of the other is never partially
/// matched; at equal lengths the input pair keeps its place ahead.
pub open spec fn spec_pairs(p: Plugin, inp: Seq<u8>, outp: Seq<u8>) -> Seq<(Seq<u8>, Seq<u8>)> {
    match (p.placeholder, p.output_placeholder) {
        (Option::None, Option::None) => seq![],
        (Option::Some(a), Option::None) => seq![(crate::resolve::str_bytes(a@), inp)],
        (Option::None, Option::Some(b)) => seq![(crate::resolve::str_bytes(b@), outp)],
        (Option::Some(a), Option::Some(b)) => if crate::resolve::str_bytes(b@).len()
            > crate::resolve::str_bytes(a@).len() {
            seq![(crate::resolve::str_bytes(b@), outp), (crate::resolve::str_bytes(a@), inp)]
        } else {
            seq![(crate::resolve::str_bytes(a@), inp), (crate::resolve::str_bytes(b@), outp)]
        },
    }
}

/// Which pair of `spec_pairs` carries the input placeholder.
pub open spec fn input_pair_index(p: Plugin) -> int {
    match (p.placeholder, p.output_placeholder) {
        (Option::Some(a), Option::Some(b)) => if crate::resolve::str_bytes(b@).len()
            > crate::resolve::str_bytes(a@).len() {
            1
        } else {
            0
        },
        _ => 0,
    }
}

/// Which pair of `spec_pairs` carries the output placeholder.
pub open spec fn output_pair_index(p: Plugin) -> int {
    match (p.placeholder, p.output_placeholder) {
        (Option::Some(a), Option::Some(b)) => if crate::resolve::str_bytes(b@).len()
            > crate::resolve::str_bytes(a@).len() {
            0
        } else {
            1
        },
        _ => 0,
    }
}

/// An argument with the substitution list applied in order, each pair's
/// replacement running over the text the earlier pairs produced.
pub open spec fn apply_pairs(arg: Seq<u8>, pairs: Seq<(Seq<u8>, Seq<u8>)>) -> Seq<u8>
    decreases pairs.len(),
{
    if pairs.len() == 0 {
        arg
    } else {
        apply_pairs(replace_all(arg, pairs[0].0, pairs[0].1), pairs.drop_first())
    }
}

/// Whether pair `k` finds its token in the argument, at the point where
/// the earlier pairs have already been applied.
pub open spec fn pair_hit(arg: Seq<u8>, pairs: Seq<(Seq<u8>, Seq<u8>)>, k: int) -> bool {
    contains_sub(apply_pairs(arg, pairs.subrange(0, k)), pairs[k].0)
}

/// Whether pair `k` finds its token in any argument after the program.
pub open spec fn some_arg_hits(ws: Seq<Seq<char>>, pairs: Seq<(Seq<u8>, Seq<u8>)>, k: int) -> bool {
    exists|t: int|
        1 <= t < ws.len() && pair_hit(crate::resolve::str_bytes(#[trigger] ws[t]), pairs, k)
}

/// Whether a plugin's configuration is rejected before its command line is
/// even split against the substitution list: an empty placeholder token,
/// or two placeholders spelled the same.
pub open spec fn bad_placeholders(p: Plugin) -> bool {
    ||| (p.placeholder matches Some(a) && crate::resolve::str_bytes(a@).len() == 0)
    ||| (p.output_placeholder matches Some(b) && crate::resolve::str_bytes(b@).len() == 0)
    ||| (p.placeholder matches Some(a) && p.output_placeholder matches Some(b)
        && crate::resolve::str_bytes(a@) == crate::resolve::str_bytes(b@))
}

/// Plan a plugin's command line: split the configured command into argv
/// tokens, substitute the reserved input and output temp paths for the
/// configured placeholders in every argument (longest token first), and
/// reject — before anything is spawned — an unsplittable or empty
/// command, an empty or duplicated placeholder, and a configured
/// placeholder that appears in no argument.
pub fn plan_plugin_command(plugin: &Plugin, input_path: &str, output_path: &str) -> (r: Result<
    PluginInvocation,
    KvError,
>)
    ensures
        ({
            let ws_opt = shell_split_of(plugin.path@);
            let inp = input_path.spec_bytes();
            let outp = output_path.spec_bytes();
            match ws_opt {
                Option::None => r == Err::<PluginInvocation, KvError>(KvError::PluginConfigError),
                Option::Some(ws) => {
                    let pairs = spec_pairs(*plugin, inp, outp);
                    if ws.len() == 0 || bad_placeholders(*plugin) {
                        r == Err::<PluginInvocation, KvError>(KvError::PluginConfigError)
                    } else if (plugin.placeholder is Some && !some_arg_hits(
                        ws,
                        pairs,
                        input_pair_index(*plugin),
                    )) || (plugin.output_placeholder is Some && !some_arg_hits(
                        ws,
                        pairs,
                        output_pair_index(*plugin),
                    )) {
                        r == Err::<PluginInvocation, KvError>(KvError::PluginConfigError)
                    } else {
                        r matches Ok(inv) && inv.program@ == ws[0] && inv.args@.len() == ws.len()
                            - 1 && (forall|t: int|
                            0 <= t < inv.args@.len() ==> (#[trigger] inv.args@[t])@ == apply_pairs(
                                crate::resolve::str_bytes(ws[t + 1]),
                                pairs,
                            )) && inv.pipe_stdin == (plugin.placeholder is None)
                            && inv.output_to_file == (plugin.output_placeholder is Some)
                    }
                },
            }
        }),
{
    let mut ws = match split_command(plugin.path.as_str()) {
        Ok(v) => v,
        Err(e) => {
            return Err(e);
        },
    };
    let ghost gws = ws.deep_view();
    if ws.len() == 0 {
        return Err(KvError::PluginConfigError);
    }
    match (&plugin.placeholder, &plugin.output_placeholder) {
        (Some(a), Some(b)) => {
            if a.as_str().as_bytes().len() == 0 || b.as_str().as_bytes().len() == 0 || crate::util::bytes_eq(
                a.as_str().as_bytes(),
                b.as_str().as_bytes(),
            ) {
                return Err(KvError::PluginConfigError);
            }
        },
        (Some(a), None) => {
            if a.as_str().as_bytes().len() == 0 {
                return Err(KvError::PluginConfigError);
            }
        },
        (None, Some(b)) => {
            if b.as_str().as_bytes().len() == 0 {
                return Err(KvError::PluginConfigError);
            }
        },
        (None, None) => {},
    }
    let ghost pairs = spec_pairs(*plugin, input_path.spec_bytes(), output_path.spec_bytes());
    let mut pats: Vec<(Vec<u8>, Vec<u8>)> = Vec::new();
    match (&plugin.placeholder, &plugin.output_placeholder) {
        (Some(a), Some(b)) => {
            let av = vstd::slice::slice_to_vec(a.as_str().as_bytes());
            let bv = vstd::slice::slice_to_vec(b.as_str().as_bytes());
            let iv = vstd::slice::slice_to_vec(input_path.as_bytes());
            let ov = vstd::slice::slice_to_vec(output_path.as_bytes());
            if bv.len() > av.len() {
                pats.push((bv, ov));
                pats.push((av, iv));
            } else {
                pats.push((av, iv));
                pats.push((bv, ov));
            }
        },
        (Some(a), None) => {
            let av = vstd::slice::slice_to_vec(a.as_str().as_bytes());
            let iv = vstd::slice::slice_to_vec(input_path.as_bytes());
            pats.push((av, iv));
        },
        (None, Some(b)) => {
            let bv = vstd::slice::slice_to_vec(b.as_str().as_bytes());
            let ov = vstd::slice::slice_to_vec(output_path.as_bytes());
            pats.push((bv, ov));
        },
        (None, None) => {},
    }
    proof {
        assert(pats@.len() == pairs.len());
        assert(forall|k: int|
            0 <= k < pairs.len() ==> ((#[trigger] pats@[k]).0@, pats@[k].1@) == pairs[k]);
        assert(forall|k: int| 0 <= k < pairs.len() ==> (#[trigger] pairs[k]).0.len() > 0);
    }
    let program = ws.remove(0);
    let mut args: Vec<Vec<u8>> = Vec::new();
    let mut hit0: bool = false;
    let mut hit1: bool = false;
    let mut t: usize = 0;
    while t < ws.len()
        invariant
            gws == ws.deep_view().insert(0, program@),
            gws.len() == ws@.len() + 1,
            0 <= t <= ws@.len(),
            pats@.len() == pairs.len() <= 2,
            forall|k: int|
                0 <= k < pairs.len() ==> ((#[trigger] pats@[k]).0@, pats@[k].1@) == pairs[k],
            forall|k: int| 0 <= k < pairs.len() ==> (#[trigger] pairs[k]).0.len() > 0,
            args@.len() == t,
            forall|q: int|
                0 <= q < t ==> (#[trigger] args@[q])@ == apply_pairs(
                    crate::resolve::str_bytes(gws[q + 1]),
                    pairs,
                ),
            hit0 == (pairs.len() >= 1 && exists|q: int|
                1 <= q < t + 1 && pair_hit(crate::resolve::str_bytes(#[trigger] gws[q]), pairs, 0)),
            hit1 == (pairs.len() >= 2 && exists|q: int|
                1 <= q < t + 1 && pair_hit(crate::resolve::str_bytes(#[trigger] gws[q]), pairs, 1)),
        decreases ws@.len() - t,
    {
        let ghost arg0 = crate::resolve::str_bytes(gws[t + 1]);
        let mut cur: Vec<u8> = vstd::slice::slice_to_vec(ws[t].as_str().as_bytes());
        proof {
            assert(ws.deep_view()[t as int] == ws@[t as int]@);
            assert(gws[t + 1] == ws.deep_view()[t as int]);
            assert(cur@ == arg0);
            assert(pairs.subrange(0, 0) =~= Seq::<(Seq<u8>, Seq<u8>)>::empty());
            assert(apply_pairs(arg0, pairs.subrange(0, 0)) == arg0);
        }
        if pats.len() >= 1 {
            let (c2, h) = replace_bytes(cur.as_slice(), pats[0].0.as_slice(), pats[0].1.as_slice());
            proof {
                assert(pair_hit(arg0, pairs, 0) == h);
            }
            cur = c2;
            hit0 = hit0 || h;
            proof {
                reveal_with_fuel(apply_pairs, 3);
                assert(pairs.subrange(0, 1) =~= seq![pairs[0]]);
                assert(seq![pairs[0]].drop_first() =~= Seq::<(Seq<u8>, Seq<u8>)>::empty());
                assert(apply_pairs(arg0, pairs.subrange(0, 1)) == replace_all(
                    arg0,
                    pairs[0].0,
                    pairs[0].1,
                ));
                assert(cur@ == apply_pairs(arg0, pairs.subrange(0, 1)));
            }
        }
        if pats.len() >= 2 {
            let (c2, h) = replace_bytes(cur.as_slice(), pats[1].0.as_slice(), pats[1].1.as_slice());
            proof {
                assert(pair_hit(arg0, pairs, 1) == h);
            }
            cur = c2;
            hit1 = hit1 || h;
            proof {
                reveal_with_fuel(apply_pairs, 4);
                assert(pairs.subrange(0, 2) =~= seq![pairs[0], pairs[1]]);
                assert(seq![pairs[0], pairs[1]].drop_first() =~= seq![pairs[1]]);
                assert(seq![pairs[1]].drop_first() =~= Seq::<(Seq<u8>, Seq<u8>)>::empty());
                assert(apply_pairs(arg0, pairs.subrange(0, 2)) == replace_all(
                    replace_all(arg0, pairs[0].0, pairs[0].1),
                    pairs[1].0,
                    pairs[1].1,
                ));
                assert(cur@ == apply_pairs(arg0, pairs.subrange(0, 2)));
            }
        }
        proof {
            assert(pairs.subrange(0, pairs.len() as int) =~= pairs);
            assert(cur@ == apply_pairs(arg0, pairs));
        }
        args.push(cur);
        t = t + 1;
    }
    let input_found: bool = match (&plugin.placeholder, &plugin.output_placeholder) {
        (Some(_), Some(_)) => {
            if pats[0].0.len() > 0 && input_pair_is_first(plugin) {
                hit0
            } else {
                hit1
            }
        },
        (Some(_), None) => hit0,
        _ => true,
    };
    let output_found: bool = match (&plugin.placeholder, &plugin.output_placeholder) {
        (Some(_), Some(_)) => {
            if input_pair_is_first(plugin) {
                hit1
            } else {
                hit0
            }
        },
        (None, Some(_)) => hit0,
        _ => true,
    };
    if !input_found || !output_found {
        return Err(KvError::PluginConfigError);
    }
    Ok(
        PluginInvocation {
            program,
            args,
            pipe_stdin: plugin.placeholder.is_none(),
            output_to_file: plugin.output_placeholder.is_some(),
        },
    )
}

/// Whether the input placeholder's pair stands first in the substitution
/// order (it does unless the output token is strictly longer).
fn input_pair_is_first(plugin: &Plugin) -> (r: bool)
    ensures
        r == (input_pair_index(*plugin) == 0),
{
    match (&plugin.placeholder, &plugin.output_placeholder) {
        (Some(a), Some(b)) => b.as_str().as_bytes().len() <= a.as_str().as_bytes().len(),
        _ => true,
    }
}


/// Judge a finished plugin process: a non-zero exit is an execution error
/// reporting the code, empty captured output (from stdout or the output
/// file) is an execution error too, and otherwise the captured bytes come
/// back for routing by the plugin's declared output type.
pub fn plugin_outcome(exit_success: bool, exit_code: Option<i32>, output: Vec<u8>) -> (r: Result<
    Vec<u8>,
    KvError,
>)
    ensures
        !exit_success ==> r == Err::<Vec<u8>, KvError>(KvError::PluginExecutionError { exit_code }),
        exit_success && output@.len() == 0 ==> r == Err::<Vec<u8>, KvError>(
            KvError::PluginExecutionError { exit_code: None },
        ),
        exit_success && output@.len() > 0 ==> (r matches Ok(v) && v@ == output@),
{
    if !exit_success {
        return Err(KvError::PluginExecutionError { exit_code });
    }
    if output.len() == 0 {
        return Err(KvError::PluginExecutionError { exit_code: None });
    }
    Ok(output)
}

} // verus!
