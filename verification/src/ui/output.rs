//! What the `list` tables show.
use vstd::prelude::*;

use crate::domain::model::{LoadingEntry, RepoRecord};
use crate::text::{chars_of, owned, push_string, slice_chars, string_from_chars};

verus! {

/// Bytes in the UTF-8 encoding of `c`.
pub open spec fn utf8_len(c: char) -> int {
    if (c as u32) < 0x80 {
        1
    } else if (c as u32) < 0x800 {
        2
    } else if (c as u32) < 0x10000 {
        3
    } else {
        4
    }
}

/// The leading characters of `s` that take exactly `n` bytes in UTF-8; `None` when
/// no prefix does (`s` is shorter, or byte `n` falls inside a character).
pub open spec fn byte_prefix(s: Seq<char>, n: int) -> Option<Seq<char>>
    decreases s.len(),
{
    if n == 0 {
        Some(seq![])
    } else if s.len() == 0 || utf8_len(s[0]) > n {
        None
    } else {
        match byte_prefix(s.drop_first(), n - utf8_len(s[0])) {
            Some(p) => Some(seq![s[0]] + p),
            None => None,
        }
    }
}

/// `commit.get(..7)`, or the whole commit when that is not a character boundary.
pub open spec fn short_commit_spec(commit: Seq<char>) -> Seq<char> {
    match byte_prefix(commit, 7) {
        Some(p) => p,
        None => commit,
    }
}

proof fn lemma_byte_prefix_is_prefix(s: Seq<char>, n: int)
    ensures
        byte_prefix(s, n) matches Some(p) ==> p.len() <= s.len() && s.take(p.len() as int) == p,
    decreases s.len(),
{
    if n != 0 && s.len() > 0 && utf8_len(s[0]) <= n {
        lemma_byte_prefix_is_prefix(s.drop_first(), n - utf8_len(s[0]));
        if let Some(p) = byte_prefix(s.drop_first(), n - utf8_len(s[0])) {
            assert(s.take(p.len() as int + 1) =~= seq![s[0]] + s.drop_first().take(p.len() as int));
        }
    } else if n == 0 {
        assert(s.take(0) =~= Seq::<char>::empty());
    }
}

/// A short commit id is a prefix of the commit id.
pub proof fn law_short_commit_is_prefix(commit: Seq<char>)
    ensures
        short_commit_spec(commit).len() <= commit.len(),
        commit.take(short_commit_spec(commit).len() as int) == short_commit_spec(commit),
{
    lemma_byte_prefix_is_prefix(commit, 7);
    if byte_prefix(commit, 7) is None {
        assert(commit.take(commit.len() as int) =~= commit);
    }
}

fn utf8_len_exec(c: char) -> (n: usize)
    ensures
        n == utf8_len(c),
{
    if (c as u32) < 0x80 {
        1
    } else if (c as u32) < 0x800 {
        2
    } else if (c as u32) < 0x10000 {
        3
    } else {
        4
    }
}

/// The first seven bytes of a commit id (the whole id when they do not end on a
/// character boundary).
pub fn short_commit(commit: &str) -> (s: String)
    ensures
        s@ == short_commit_spec(commit@),
{
    let v = chars_of(commit);
    let mut i: usize = 0;
    let mut used: usize = 0;
    assert(v@.skip(0) =~= v@);
    assert(v@.take(0) =~= Seq::<char>::empty());
    while i < v.len() && used < 7 && used + utf8_len_exec(v[i]) <= 7
        invariant
            i <= v.len(),
            used <= 7,
            v@ == commit@,
            byte_prefix(v@, 7) == match byte_prefix(v@.skip(i as int), 7 - used) {
                Some(p) => Some(v@.take(i as int) + p),
                None => None,
            },
        decreases v.len() - i,
    {
        let ghost rest = v@.skip(i as int);
        assert(rest[0] == v@[i as int]);
        assert(rest.drop_first() =~= v@.skip(i + 1));
        assert(v@.take(i + 1) =~= v@.take(i as int) + seq![v@[i as int]]);
        proof {
            match byte_prefix(rest.drop_first(), 7 - used - utf8_len(v@[i as int])) {
                Some(p) => {
                    assert(v@.take(i as int) + (seq![v@[i as int]] + p) =~= v@.take(i + 1) + p);
                },
                None => {},
            }
        }
        used = used + utf8_len_exec(v[i]);
        i += 1;
    }
    if used == 7 {
        assert(byte_prefix(v@.skip(i as int), 0) == Some(Seq::<char>::empty()));
        assert(v@.take(i as int) + Seq::<char>::empty() =~= v@.take(i as int));
        string_from_chars(&slice_chars(&v, 0, i))
    } else {
        assert(byte_prefix(v@.skip(i as int), 7 - used) is None) by {
            if i < v.len() {
                assert(v@.skip(i as int)[0] == v@[i as int]);
            } else {
                assert(v@.skip(i as int).len() == 0);
            }
        }
        owned(commit)
    }
}

/// The branch column: the branch, or `-` for none.
pub open spec fn branch_cell(b: Option<Seq<char>>) -> Seq<char> {
    match b {
        Some(s) => s,
        None => "-"@,
    }
}

fn branch_cell_exec(b: &Option<String>) -> (s: String)
    ensures
        s@ == branch_cell(b.deep_view()),
{
    match b {
        Some(s) => s.clone(),
        None => owned("-"),
    }
}

/// The headers of the repository table; the verbose table ends with `Updated`.
pub fn repo_table_header(verbose: bool) -> (h: Vec<String>)
    ensures
        verbose ==> h.deep_view() == seq!["Name"@, "Branch"@, "Commit"@, "Path"@, "Updated"@],
        !verbose ==> h.deep_view() == seq!["Name"@, "Branch"@, "Commit"@],
{
    let mut h: Vec<String> = Vec::new();
    push_string(&mut h, owned("Name"));
    push_string(&mut h, owned("Branch"));
    push_string(&mut h, owned("Commit"));
    if verbose {
        push_string(&mut h, owned("Path"));
        push_string(&mut h, owned("Updated"));
    }
    h
}

/// A row of the repository table, without the `Updated` time of the verbose table
/// (the caller formats and appends it).
pub fn repo_table_row(repo: &RepoRecord, verbose: bool) -> (row: Vec<String>)
    ensures
        verbose ==> row.deep_view() == seq![
            repo.name@,
            branch_cell(repo.branch.deep_view()),
            short_commit_spec(repo.commit_id@),
            repo.path@,
        ],
        !verbose ==> row.deep_view() == seq![
            repo.name@,
            branch_cell(repo.branch.deep_view()),
            short_commit_spec(repo.commit_id@),
        ],
{
    let mut row: Vec<String> = Vec::new();
    push_string(&mut row, repo.name.clone());
    push_string(&mut row, branch_cell_exec(&repo.branch));
    push_string(&mut row, short_commit(repo.commit_id.as_str()));
    if verbose {
        push_string(&mut row, repo.path.clone());
    }
    row
}

/// The headers of the loaded-references table; the verbose table ends with
/// `Loaded At`.
pub fn loading_table_header(verbose: bool) -> (h: Vec<String>)
    ensures
        verbose ==> h.deep_view() == seq!["Repo"@, "Target"@, "Branch"@, "Commit"@, "Loaded At"@],
        !verbose ==> h.deep_view() == seq!["Repo"@, "Target"@, "Commit"@],
{
    let mut h: Vec<String> = Vec::new();
    push_string(&mut h, owned("Repo"));
    push_string(&mut h, owned("Target"));
    if verbose {
        push_string(&mut h, owned("Branch"));
    }
    push_string(&mut h, owned("Commit"));
    if verbose {
        push_string(&mut h, owned("Loaded At"));
    }
    h
}

/// A row of the loaded-references table, without the `Loaded At` time of the verbose
/// table (the caller formats and appends it).
pub fn loading_table_row(entry: &LoadingEntry, verbose: bool) -> (row: Vec<String>)
    ensures
        verbose ==> row.deep_view() == seq![
            entry.repo_name@,
            entry.target_path@,
            branch_cell(entry.branch.deep_view()),
            short_commit_spec(entry.commit_id@),
        ],
        !verbose ==> row.deep_view() == seq![
            entry.repo_name@,
            entry.target_path@,
            short_commit_spec(entry.commit_id@),
        ],
{
    let mut row: Vec<String> = Vec::new();
    push_string(&mut row, entry.repo_name.clone());
    push_string(&mut row, entry.target_path.clone());
    if verbose {
        push_string(&mut row, branch_cell_exec(&entry.branch));
    }
    push_string(&mut row, short_commit(entry.commit_id.as_str()));
    row
}

} // verus!
