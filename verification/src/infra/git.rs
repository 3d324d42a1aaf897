//! The Git command lines `grf` runs, and how their output is read.
use vstd::prelude::*;

use crate::domain::git_url::decimal;
use crate::text::{chars_eq, chars_of, concat, owned, push_string, string_from_chars};

verus! {

/// How a repository is cloned.
#[derive(Debug, Clone)]
pub struct CloneOptions {
    pub branch: Option<String>,
    pub shallow: bool,
    pub depth: Option<u32>,
}

impl Default for CloneOptions {
    fn default() -> (o: Self)
        ensures
            o.branch is None,
            !o.shallow,
            o.depth is None,
    {
        CloneOptions { branch: None, shallow: false, depth: None }
    }
}

/// The decimal digits of `n`.
pub fn u64_decimal(n: u64) -> (r: Vec<char>)
    ensures
        r@ == decimal(n as nat),
    decreases n,
{
    let d = (n % 10) as u8;
    let c = (48u8 + d) as char;
    if n < 10 {
        let mut r: Vec<char> = Vec::new();
        r.push(c);
        assert(r@ =~= seq![c]);
        r
    } else {
        let mut r = u64_decimal(n / 10);
        r.push(c);
        r
    }
}

/// The arguments of `git clone`: `--depth N` when shallow (1 unless a depth is
/// given), `--branch B` when a branch is given, then the URL and the destination.
pub open spec fn clone_args_spec(
    url: Seq<char>,
    dest: Seq<char>,
    branch: Option<Seq<char>>,
    shallow: bool,
    depth: Option<u32>,
) -> Seq<Seq<char>> {
    let depth_args: Seq<Seq<char>> = if shallow {
        seq!["--depth"@, decimal(
            match depth {
                Some(d) => d as nat,
                None => 1,
            },
        )]
    } else {
        seq![]
    };
    let branch_args: Seq<Seq<char>> = match branch {
        Some(b) => seq!["--branch"@, b],
        None => seq![],
    };
    seq!["clone"@] + depth_args + branch_args + seq![url, dest]
}

pub fn clone_args(url: &str, dest: &str, options: &CloneOptions) -> (args: Vec<String>)
    ensures
        args.deep_view() == clone_args_spec(
            url@,
            dest@,
            options.branch.deep_view(),
            options.shallow,
            options.depth,
        ),
{
    let mut args: Vec<String> = Vec::new();
    push_string(&mut args, owned("clone"));
    let ghost a0 = args.deep_view();
    if options.shallow {
        push_string(&mut args, owned("--depth"));
        let depth: u32 = match options.depth {
            Some(d) => d,
            None => 1,
        };
        push_string(&mut args, string_from_chars(&u64_decimal(depth as u64)));
    }
    let ghost a1 = args.deep_view();
    if let Some(branch) = &options.branch {
        push_string(&mut args, owned("--branch"));
        push_string(&mut args, branch.clone());
    }
    let ghost a2 = args.deep_view();
    push_string(&mut args, owned(url));
    push_string(&mut args, owned(dest));
    proof {
        let spec = clone_args_spec(url@, dest@, options.branch.deep_view(), options.shallow, options.depth);
        assert(args.deep_view() =~= spec);
    }
    args
}

/// Arguments joined by single spaces.
pub open spec fn join_spaced(args: Seq<Seq<char>>) -> Seq<char>
    decreases args.len(),
{
    if args.len() == 0 {
        seq![]
    } else if args.len() == 1 {
        args[0]
    } else {
        join_spaced(args.drop_last()) + seq![' '] + args.last()
    }
}

/// How a Git command line is shown: `git` followed by its arguments.
pub open spec fn render_command_spec(args: Seq<Seq<char>>) -> Seq<char> {
    if args.len() == 0 {
        "git"@
    } else {
        "git "@ + join_spaced(args)
    }
}

pub fn render_command(args: &[String]) -> (s: String)
    ensures
        s@ == render_command_spec(args@.map_values(|a: String| a@)),
{
    let ghost v = args@.map_values(|a: String| a@);
    if args.len() == 0 {
        return owned("git");
    }
    let mut out = chars_of("git ");
    let mut i: usize = 0;
    let ghost prefix = out@;
    proof { reveal_strlit("git "); }
    while i < args.len()
        invariant
            i <= args@.len(),
            args@.len() > 0,
            v == args@.map_values(|a: String| a@),
            prefix == "git "@,
            i == 0 ==> out@ == prefix,
            i > 0 ==> out@ == prefix + join_spaced(v.take(i as int)),
        decreases args@.len() - i,
    {
        let ghost before = out@;
        if i > 0 {
            out.push(' ');
        }
        out = concat(&out, &chars_of(args[i].as_str()));
        proof {
            assert(v[i as int] == args@[i as int]@);
            if i == 0 {
                assert(v.take(1) =~= seq![v[0]]);
            } else {
                assert(v.take(i + 1).drop_last() =~= v.take(i as int));
                assert(v.take(i + 1).last() == v[i as int]);
                assert(out@ =~= prefix + join_spaced(v.take(i + 1)));
            }
        }
        i += 1;
    }
    assert(v.take(i as int) =~= v);
    string_from_chars(&out)
}

/// What `git rev-parse --abbrev-ref HEAD` printed, read as a branch: `HEAD` means
/// none (a detached head).
pub fn branch_from_abbrev_ref(output: &str) -> (b: Option<String>)
    ensures
        output@ == "HEAD"@ ==> b is None,
        output@ != "HEAD"@ ==> (b matches Some(s) && s@ == output@),
{
    if chars_eq(&chars_of(output), &chars_of("HEAD")) {
        None
    } else {
        Some(owned(output))
    }
}

/// The revision range counted to find updates: `HEAD..origin/<branch>`, with
/// `HEAD` standing in for a detached head's branch.
pub fn update_range(branch: &Option<String>) -> (r: String)
    ensures
        r@ == "HEAD..origin/"@ + match branch {
            Some(b) => b@,
            None => "HEAD"@,
        },
{
    let name = match branch {
        Some(b) => chars_of(b.as_str()),
        None => chars_of("HEAD"),
    };
    string_from_chars(&concat(&chars_of("HEAD..origin/"), &name))
}

pub open spec fn is_digit(c: char) -> bool {
    '0' <= c && c <= '9'
}

/// The value of a string of decimal digits.
pub open spec fn digits_value(s: Seq<char>) -> nat
    decreases s.len(),
{
    if s.len() == 0 {
        0
    } else {
        digits_value(s.drop_last()) * 10 + ((s.last() as u32) - 48) as nat
    }
}

/// The digits of an unsigned number: the text less one leading `+`.
pub open spec fn unsigned_digits(s: Seq<char>) -> Seq<char> {
    if s.len() > 0 && s[0] == '+' {
        s.drop_first()
    } else {
        s
    }
}

/// What `str::parse::<u32>` gives: an optional `+`, then at least one decimal
/// digit, the value fitting in `u32`; `None` for anything else.
pub open spec fn parse_u32_spec(s: Seq<char>) -> Option<u32> {
    let digits = unsigned_digits(s);
    if digits.len() > 0 && (forall|i: int| 0 <= i < digits.len() ==> is_digit(#[trigger] digits[i]))
        && digits_value(digits) <= u32::MAX {
        Some(digits_value(digits) as u32)
    } else {
        None
    }
}

/// Reads a count printed by `git rev-list --count` the way `str::parse::<u32>` does.
pub fn parse_u32(s: &str) -> (r: Option<u32>)
    ensures
        r == parse_u32_spec(s@),
{
    let v = chars_of(s);
    let start: usize = if v.len() > 0 && v[0] == '+' { 1 } else { 0 };
    let ghost digits = unsigned_digits(s@);
    assert(digits =~= v@.skip(start as int));
    if start >= v.len() {
        return None;
    }
    let mut value: u64 = 0;
    let mut i: usize = start;
    while i < v.len()
        invariant
            start <= i <= v.len(),
            v@ == s@,
            digits == v@.skip(start as int),
            digits == unsigned_digits(s@),
            forall|j: int| start <= j < i ==> is_digit(#[trigger] v@[j]),
            value == digits_value(v@.subrange(start as int, i as int)),
            value <= u32::MAX,
        decreases v.len() - i,
    {
        let c = v[i];
        if !('0' <= c && c <= '9') {
            assert(digits[i - start] == v@[i as int]);
            assert(!is_digit(digits[i - start]));
            assert(!(forall|j: int| 0 <= j < digits.len() ==> is_digit(#[trigger] digits[j])));
            return None;
        }
        let d = (c as u32 - 48) as u64;
        assert(v@.subrange(start as int, i + 1).drop_last() =~= v@.subrange(start as int, i as int));
        assert(v@.subrange(start as int, i + 1).last() == c);
        if value > (u32::MAX as u64 - d) / 10 {
            proof { lemma_digits_grow(v@.subrange(start as int, v.len() as int), (i + 1 - start) as int); }
            assert(v@.subrange(start as int, v.len() as int).take((i + 1 - start) as int) =~= v@.subrange(start as int, i + 1));
            assert(digits_value(v@.subrange(start as int, i + 1)) == value * 10 + d);
            assert(value * 10 + d > u32::MAX) by (nonlinear_arith)
                requires
                    value > (u32::MAX as u64 - d) / 10,
                    d <= 9,
            ;
            assert(v@.subrange(start as int, v.len() as int) =~= digits);
            return None;
        }
        value = value * 10 + d;
        i += 1;
    }
    assert(v@.subrange(start as int, v.len() as int) =~= digits);
    assert forall|j: int| 0 <= j < digits.len() implies is_digit(#[trigger] digits[j]) by {
        assert(digits[j] == v@[j + start]);
    }
    Some(value as u32)
}

/// A prefix's value never exceeds the whole digit string's value.
proof fn lemma_digits_grow(s: Seq<char>, k: int)
    requires
        0 <= k <= s.len(),
    ensures
        digits_value(s.take(k)) <= digits_value(s),
    decreases s.len() - k,
{
    if k < s.len() {
        lemma_digits_grow(s, k + 1);
        assert(s.take(k + 1).drop_last() =~= s.take(k));
    } else {
        assert(s.take(k) =~= s);
    }
}

/// Whether the count printed by `git rev-list --count` is above zero (an
/// unreadable count counts as zero).
pub fn count_shows_updates(count: &str) -> (b: bool)
    ensures
        b == (match parse_u32_spec(count@) {
            Some(n) => n > 0,
            None => false,
        }),
{
    match parse_u32(count) {
        Some(n) => n > 0,
        None => false,
    }
}

/// The three commands that move a repository to `branch`: widen the fetch refspec,
/// fetch the branch, and check it out as a local branch tracking `origin/<branch>`.
pub fn switch_branch_commands(branch: &str) -> (cmds: Vec<Vec<String>>)
    ensures
        cmds@.len() == 3,
        cmds@[0].deep_view() == seq![
            "config"@,
            "remote.origin.fetch"@,
            "+refs/heads/*:refs/remotes/origin/*"@,
        ],
        cmds@[1].deep_view() == seq!["fetch"@, "origin"@, branch@],
        cmds@[2].deep_view() == seq!["checkout"@, "-B"@, branch@, "origin/"@ + branch@],
{
    let mut a: Vec<String> = Vec::new();
    push_string(&mut a, owned("config"));
    push_string(&mut a, owned("remote.origin.fetch"));
    push_string(&mut a, owned("+refs/heads/*:refs/remotes/origin/*"));
    let mut b: Vec<String> = Vec::new();
    push_string(&mut b, owned("fetch"));
    push_string(&mut b, owned("origin"));
    push_string(&mut b, owned(branch));
    let mut c: Vec<String> = Vec::new();
    push_string(&mut c, owned("checkout"));
    push_string(&mut c, owned("-B"));
    push_string(&mut c, owned(branch));
    push_string(&mut c, string_from_chars(&concat(&chars_of("origin/"), &chars_of(branch))));
    let mut cmds: Vec<Vec<String>> = Vec::new();
    cmds.push(a);
    cmds.push(b);
    cmds.push(c);
    assert(cmds@[0].deep_view() =~= seq![
        "config"@,
        "remote.origin.fetch"@,
        "+refs/heads/*:refs/remotes/origin/*"@,
    ]);
    assert(cmds@[1].deep_view() =~= seq!["fetch"@, "origin"@, branch@]);
    assert(cmds@[2].deep_view() =~= seq!["checkout"@, "-B"@, branch@, "origin/"@ + branch@]);
    cmds
}

} // verus!
