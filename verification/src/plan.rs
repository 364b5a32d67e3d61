//! Assembling the command plan.
//!
//! From the invoker's arguments and two environment values the shim decides
//! the invocation mode, translates and (in interactive mode) quotes each
//! argument, joins the git command line, and fixes the stdin and output
//! policies. Everything here is pure; the caller reads the environment and
//! runs the child.

use vstd::prelude::*;
use crate::ascii::lower_char;
use crate::ascii::char_to_lower;
use crate::winpath::{unix_of, escaped, translate_path_to_unix, shell_escape};

verus! {

/// The views of a vector of strings, one character sequence per element.
pub open spec fn views_of(v: Seq<String>) -> Seq<Seq<char>> {
    v.map_values(|s: String| s@)
}

/// The number of characters before the first `:` (or all of them when none
/// occurs): the length of the first `WSLENV` segment.
pub open spec fn first_seg_len(s: Seq<char>) -> nat
    decreases s.len(),
{
    if s.len() == 0 {
        0
    } else if s[0] == ':' {
        0
    } else {
        (1 + first_seg_len(s.skip(1))) as nat
    }
}

/// A segment equal to `BASH_ENV` under ASCII case-insensitive comparison.
pub open spec fn seg_is_bash_env(s: Seq<char>) -> bool {
    &&& s.len() == 8
    &&& lower_char(s[0]) == 'b'
    &&& lower_char(s[1]) == 'a'
    &&& lower_char(s[2]) == 's'
    &&& lower_char(s[3]) == 'h'
    &&& lower_char(s[4]) == '_'
    &&& lower_char(s[5]) == 'e'
    &&& lower_char(s[6]) == 'n'
    &&& lower_char(s[7]) == 'v'
}

/// Does some `:`-separated segment of the value name `BASH_ENV`?
pub open spec fn wslenv_names_bash_env(s: Seq<char>) -> bool
    decreases s.len(),
{
    let k = first_seg_len(s);
    if k >= s.len() {
        seg_is_bash_env(s)
    } else {
        seg_is_bash_env(s.take(k as int)) || wslenv_names_bash_env(s.skip(k as int + 1))
    }
}

/// The view of an optional environment value.
pub open spec fn env_view(o: &Option<String>) -> Option<Seq<char>> {
    match o {
        Some(w) => Some(w@),
        None => None,
    }
}

/// Direct mode asks for both: `BASH_ENV` defined, and a `WSLENV` segment
/// naming it. Everything else stays interactive.
pub open spec fn direct_mode(bash_env_set: bool, wslenv: Option<Seq<char>>) -> bool {
    bash_env_set && match wslenv {
        Some(w) => wslenv_names_bash_env(w),
        None => false,
    }
}

/// A position with no `:` before it and a `:` (or the end) at it is exactly
/// the first segment's length.
proof fn lemma_first_seg_len_is(s: Seq<char>, k: int)
    requires
        0 <= k <= s.len(),
        forall|m: int| 0 <= m < k ==> s[m] != ':',
        k < s.len() ==> s[k] == ':',
    ensures
        first_seg_len(s) == k,
    decreases s.len(),
{
    if k == 0 {
    } else {
        assert(s[0] != ':');
        lemma_first_seg_len_is(s.skip(1), k - 1);
    }
}

/// Find the end of the `WSLENV` segment that starts at `start`.
fn seg_end(w: &str, start: usize) -> (j: usize)
    requires
        start <= w@.len(),
    ensures
        start <= j <= w@.len(),
        forall|m: int| start <= m < j ==> w@[m] != ':',
        j < w@.len() ==> w@[j as int] == ':',
{
    let n = w.unicode_len();
    let mut j = start;
    while j < n
        invariant
            start <= j <= n,
            n == w@.len(),
            forall|m: int| start <= m < j ==> w@[m] != ':',
        decreases n - j,
    {
        if w.get_char(j) == ':' {
            return j;
        }
        j += 1;
    }
    j
}

/// Is the segment `w[i..j]` equal to `BASH_ENV`, case-insensitively?
fn seg_matches_bash_env(w: &str, i: usize, j: usize) -> (r: bool)
    requires
        i <= j <= w@.len(),
    ensures
        r == seg_is_bash_env(w@.subrange(i as int, j as int)),
{
    if j - i != 8 {
        return false;
    }
    char_to_lower(w.get_char(i)) == 'b' && char_to_lower(w.get_char(i + 1)) == 'a'
        && char_to_lower(w.get_char(i + 2)) == 's' && char_to_lower(w.get_char(i + 3)) == 'h'
        && char_to_lower(w.get_char(i + 4)) == '_' && char_to_lower(w.get_char(i + 5)) == 'e'
        && char_to_lower(w.get_char(i + 6)) == 'n' && char_to_lower(w.get_char(i + 7)) == 'v'
}

/// Scan a `WSLENV` value for a segment naming `BASH_ENV`.
pub fn wslenv_contains_bash_env(w: &str) -> (r: bool)
    ensures
        r == wslenv_names_bash_env(w@),
{
    let n = w.unicode_len();
    let mut i: usize = 0;
    proof {
        assert(w@.skip(0) =~= w@);
    }
    loop
        invariant
            0 <= i <= n,
            n == w@.len(),
            wslenv_names_bash_env(w@) == wslenv_names_bash_env(w@.skip(i as int)),
        decreases n - i,
    {
        let ghost s = w@.skip(i as int);
        let j = seg_end(w, i);
        proof {
            assert forall|m: int| 0 <= m < j - i implies s[m] != ':' by {
                assert(s[m] == w@[i + m]);
            }
            if j < n {
                assert(s[j - i] == w@[j as int]);
            }
            lemma_first_seg_len_is(s, j - i);
            assert(s.take(j - i) =~= w@.subrange(i as int, j as int));
        }
        let matched = seg_matches_bash_env(w, i, j);
        if matched {
            proof {
                if j >= n {
                    assert(s =~= w@.subrange(i as int, n as int));
                }
            }
            return true;
        }
        if j >= n {
            proof {
                assert(s =~= w@.subrange(i as int, n as int));
                assert(first_seg_len(s) >= s.len());
            }
            return false;
        }
        proof {
            assert(s.skip(j - i + 1) =~= w@.skip(j + 1));
        }
        i = j + 1;
    }
}

/// Decide the invocation mode from the two environment values.
pub fn direct_mode_requested(bash_env_set: bool, wslenv: &Option<String>) -> (r: bool)
    ensures
        r == direct_mode(bash_env_set, env_view(wslenv)),
{
    if !bash_env_set {
        return false;
    }
    match wslenv {
        Some(w) => wslenv_contains_bash_env(w.as_str()),
        None => false,
    }
}

/// One assembled git argument: translated, and quoted in interactive mode.
pub open spec fn arg_of(a: Seq<char>, interactive: bool) -> Seq<char> {
    if interactive {
        escaped(unix_of(a))
    } else {
        unix_of(a)
    }
}

/// The git-argument sequence: the literal `git`, then each invoker argument
/// assembled.
pub open spec fn git_args_of(args: Seq<Seq<char>>, interactive: bool) -> Seq<Seq<char>> {
    seq![seq!['g', 'i', 't']] + args.map_values(|a: Seq<char>| arg_of(a, interactive))
}

/// The parts joined with single ASCII spaces.
pub open spec fn join_spaces(parts: Seq<Seq<char>>) -> Seq<char>
    decreases parts.len(),
{
    if parts.len() == 0 {
        Seq::<char>::empty()
    } else if parts.len() == 1 {
        parts[0]
    } else {
        parts[0] + seq![' '] + join_spaces(parts.skip(1))
    }
}

/// The command line ends with the literal `--version`.
pub open spec fn ends_with_version(s: Seq<char>) -> bool {
    s.len() >= 9 && s.skip(s.len() - 9) == seq!['-', '-', 'v', 'e', 'r', 's', 'i', 'o', 'n']
}

/// A subcommand whose output is opaque bytes and must not be rewritten.
/// Today the set holds `show` alone.
pub open spec fn no_translate(sub: Seq<char>) -> bool {
    sub == seq!['s', 'h', 'o', 'w']
}

/// Output translation runs when a subcommand exists and is not denylisted.
pub open spec fn wants_translation(git_args: Seq<Seq<char>>) -> bool {
    git_args.len() > 1 && !no_translate(git_args[1])
}

/// Build the git-argument sequence from the invoker's arguments.
pub fn build_git_args(args: &Vec<String>, interactive: bool) -> (r: Vec<String>)
    ensures
        views_of(r@) == git_args_of(views_of(args@), interactive),
{
    let mut r: Vec<String> = Vec::new();
    r.push(String::from_str("git"));
    proof {
        reveal_strlit("git");
        assert("git"@ =~= seq!['g', 'i', 't']);
        assert(views_of(r@) =~= git_args_of(views_of(args@).take(0), interactive));
    }
    let mut i: usize = 0;
    while i < args.len()
        invariant
            0 <= i <= args@.len(),
            views_of(r@) == git_args_of(views_of(args@).take(i as int), interactive),
        decreases args@.len() - i,
    {
        let translated = translate_path_to_unix(args[i].clone());
        let assembled = if interactive {
            shell_escape(translated)
        } else {
            translated
        };
        let ghost prev = r@;
        let ghost va = views_of(args@);
        r.push(assembled);
        proof {
            assert(va[i as int] == args@[i as int]@);
            assert(assembled@ == arg_of(va[i as int], interactive));
            assert(views_of(r@) =~= views_of(prev).push(assembled@));
            assert(git_args_of(va.take(i + 1), interactive) =~= git_args_of(
                va.take(i as int),
                interactive,
            ).push(arg_of(va[i as int], interactive)));
        }
        i += 1;
    }
    proof {
        assert(views_of(args@).take(args@.len() as int) =~= views_of(args@));
    }
    r
}

/// Joining one more part appends a space and the part.
proof fn lemma_join_snoc(parts: Seq<Seq<char>>, i: int)
    requires
        1 <= i < parts.len(),
    ensures
        join_spaces(parts.take(i + 1)) == join_spaces(parts.take(i)) + seq![' '] + parts[i],
    decreases i,
{
    if i == 1 {
        assert(parts.take(2)[0] == parts[0]);
        assert(parts.take(2).skip(1) =~= seq![parts[1]]);
        assert(join_spaces(seq![parts[1]]) == parts[1]);
        assert(join_spaces(parts.take(2)) == parts[0] + seq![' '] + parts[1]);
        assert(parts.take(1) =~= seq![parts[0]]);
        assert(join_spaces(seq![parts[0]]) == parts[0]);
        assert(join_spaces(parts.take(1)) + seq![' '] + parts[1] =~= parts[0] + seq![' ']
            + parts[1]);
    } else {
        lemma_join_snoc(parts.skip(1), i - 1);
        assert(parts.take(i + 1).skip(1) =~= parts.skip(1).take(i));
        assert(parts.take(i).skip(1) =~= parts.skip(1).take(i - 1));
        assert(parts.skip(1)[i - 1] == parts[i]);
        assert(join_spaces(parts.take(i + 1)) == parts[0] + seq![' '] + join_spaces(
            parts.skip(1).take(i),
        ));
        assert(join_spaces(parts.take(i)) == parts[0] + seq![' '] + join_spaces(
            parts.skip(1).take(i - 1),
        ));
        assert(join_spaces(parts.take(i + 1)) =~= join_spaces(parts.take(i)) + seq![' ']
            + parts[i]);
    }
}

/// Join the git-argument sequence into the git command line.
pub fn join_command_line(parts: &Vec<String>) -> (r: String)
    ensures
        r@ == join_spaces(views_of(parts@)),
{
    if parts.len() == 0 {
        let r = String::new();
        return r;
    }
    let mut out = parts[0].clone();
    proof {
        assert(views_of(parts@).take(1) =~= seq![parts@[0]@]);
        assert(join_spaces(views_of(parts@).take(1)) == parts@[0]@);
    }
    let mut i: usize = 1;
    while i < parts.len()
        invariant
            1 <= i <= parts@.len(),
            out@ == join_spaces(views_of(parts@).take(i as int)),
        decreases parts@.len() - i,
    {
        out.push(' ');
        out.append(parts[i].as_str());
        proof {
            lemma_join_snoc(views_of(parts@), i as int);
        }
        i += 1;
    }
    proof {
        assert(views_of(parts@).take(parts@.len() as int) =~= views_of(parts@));
    }
    out
}

/// Does the command line end with `--version`?
pub fn command_ends_with_version(s: &str) -> (r: bool)
    ensures
        r == ends_with_version(s@),
{
    let n = s.unicode_len();
    if n < 9 {
        return false;
    }
    let r = s.get_char(n - 9) == '-' && s.get_char(n - 8) == '-' && s.get_char(n - 7) == 'v'
        && s.get_char(n - 6) == 'e' && s.get_char(n - 5) == 'r' && s.get_char(n - 4) == 's'
        && s.get_char(n - 3) == 'i' && s.get_char(n - 2) == 'o' && s.get_char(n - 1) == 'n';
    proof {
        let t = seq!['-', '-', 'v', 'e', 'r', 's', 'i', 'o', 'n'];
        if r {
            assert(s@.skip(n - 9) =~= t);
        }
        if s@.skip(n - 9) == t {
            assert forall|m: int| 0 <= m < 9 implies s@[n - 9 + m] == t[m] by {
                assert(s@.skip(n - 9)[m] == s@[n - 9 + m]);
            }
        }
    }
    r
}

/// Does the assembled argument list call for output translation?
pub fn output_translation_active(git_args: &Vec<String>) -> (r: bool)
    ensures
        r == wants_translation(views_of(git_args@)),
{
    if git_args.len() <= 1 {
        return false;
    }
    let show = String::from_str("show");
    let is_show = git_args[1] == show;
    proof {
        reveal_strlit("show");
        assert("show"@ =~= seq!['s', 'h', 'o', 'w']);
    }
    !is_show
}

/// The full plan for one invocation: the argument vector handed to the
/// launcher, the reconstructed git command line, and the two policies.
pub struct CommandPlan {
    pub cmd_args: Vec<String>,
    pub git_cmd: String,
    pub stdin_null: bool,
    pub translate_output: bool,
}

/// What a well-formed plan for the given arguments and mode holds: the
/// joined command line, the stdin policy from its `--version` suffix, the
/// output policy from the subcommand, and the launcher arguments — `bash
/// -ic <line>` interactively, the git-argument sequence directly.
pub open spec fn plan_wf(p: CommandPlan, args: Seq<Seq<char>>, interactive: bool) -> bool {
    let gargs = git_args_of(args, interactive);
    let cmd = join_spaces(gargs);
    &&& p.git_cmd@ == cmd
    &&& p.stdin_null == ends_with_version(cmd)
    &&& p.translate_output == wants_translation(gargs)
    &&& if interactive {
        views_of(p.cmd_args@) == seq![seq!['b', 'a', 's', 'h'], seq!['-', 'i', 'c'], cmd]
    } else {
        views_of(p.cmd_args@) == gargs
    }
}

/// Assemble the whole plan from the invoker's arguments and the mode.
pub fn make_plan(args: &Vec<String>, interactive: bool) -> (p: CommandPlan)
    ensures
        plan_wf(p, views_of(args@), interactive),
{
    let git_args = build_git_args(args, interactive);
    let git_cmd = join_command_line(&git_args);
    let stdin_null = command_ends_with_version(git_cmd.as_str());
    let translate_output = output_translation_active(&git_args);
    let cmd_args = if interactive {
        let mut v: Vec<String> = Vec::new();
        v.push(String::from_str("bash"));
        v.push(String::from_str("-ic"));
        v.push(git_cmd.clone());
        proof {
            reveal_strlit("bash");
            reveal_strlit("-ic");
            assert("bash"@ =~= seq!['b', 'a', 's', 'h']);
            assert("-ic"@ =~= seq!['-', 'i', 'c']);
            assert(views_of(v@) =~= seq![
                seq!['b', 'a', 's', 'h'],
                seq!['-', 'i', 'c'],
                git_cmd@,
            ]);
        }
        v
    } else {
        git_args
    };
    CommandPlan { cmd_args, git_cmd, stdin_null, translate_output }
}

} // verus!
