//! Editing the `.gitignore` of a workspace: adding an entry under the
//! `# Added by grf` marker, and taking an entry out again.
//!
//! Both edits work on the file's text and say what the new text is; reading and
//! writing the file is left to the caller.
use vstd::prelude::*;

use crate::text::{
    chars_eq, chars_of, contains_char, lemma_lines_of_terminated, lemma_trim_idempotent,
    lemma_trim_strip_cr, lines, lines_from, lines_of, push_line, string_from_chars, strip_cr,
    terminated, terminated_chars, trim, trim_chars,
};

verus! {

/// The line under which `grf` adds its entries.
pub open spec fn comment_line() -> Seq<char> {
    "# Added by grf"@
}

/// Some line of `ls` trims to `t`.
pub open spec fn has_trimmed(ls: Seq<Seq<char>>, t: Seq<char>) -> bool {
    exists|i: int| 0 <= i < ls.len() && trim(#[trigger] ls[i]) == t
}

/// The first line of `ls` that trims to `t`.
pub open spec fn first_trimmed(ls: Seq<Seq<char>>, t: Seq<char>) -> Option<int>
    decreases ls.len(),
{
    if ls.len() == 0 {
        None
    } else if trim(ls[0]) == t {
        Some(0)
    } else {
        match first_trimmed(ls.drop_first(), t) {
            Some(i) => Some(i + 1),
            None => None,
        }
    }
}

/// The lines after the entry `n` is placed: right below the marker line, or, when
/// there is none, at the end under a new marker (after a blank line if the last
/// line is not empty).
pub open spec fn lines_with(ls: Seq<Seq<char>>, n: Seq<char>) -> Seq<Seq<char>> {
    match first_trimmed(ls, comment_line()) {
        Some(k) => ls.insert(k + 1, n),
        None => {
            let base = if ls.len() > 0 && ls.last().len() != 0 {
                ls.push(seq![])
            } else {
                ls
            };
            base.push(comment_line()).push(n)
        },
    }
}

/// The new text of a `.gitignore` holding `existing` once `entry` is ensured in
/// it; `None` when a line already trims to the trimmed entry (nothing to write).
pub open spec fn with_entry_spec(existing: Seq<char>, entry: Seq<char>) -> Option<Seq<char>> {
    let ls = lines(existing);
    let n = trim(entry);
    if has_trimmed(ls, n) {
        None
    } else {
        Some(terminated(lines_with(ls, n)))
    }
}

/// The lines of `ls` that do not trim to `t`.
pub open spec fn lines_without(ls: Seq<Seq<char>>, t: Seq<char>) -> Seq<Seq<char>>
    decreases ls.len(),
{
    if ls.len() == 0 {
        seq![]
    } else if trim(ls[0]) == t {
        lines_without(ls.drop_first(), t)
    } else {
        seq![ls[0]] + lines_without(ls.drop_first(), t)
    }
}

pub open spec fn is_blank(l: Seq<char>) -> bool {
    trim(l).len() == 0
}

/// `ls` without its leading blank lines.
pub open spec fn drop_blank_start(ls: Seq<Seq<char>>) -> Seq<Seq<char>>
    decreases ls.len(),
{
    if ls.len() > 0 && is_blank(ls[0]) {
        drop_blank_start(ls.drop_first())
    } else {
        ls
    }
}

/// `ls` without its trailing blank lines.
pub open spec fn drop_blank_end(ls: Seq<Seq<char>>) -> Seq<Seq<char>>
    decreases ls.len(),
{
    if ls.len() > 0 && is_blank(ls.last()) {
        drop_blank_end(ls.drop_last())
    } else {
        ls
    }
}

/// The new text of a `.gitignore` holding `existing` once every line that trims
/// to the trimmed `entry` is taken out, with blank lines trimmed from both ends;
/// `None` when no line matched (nothing to write).
pub open spec fn without_entry_spec(existing: Seq<char>, entry: Seq<char>) -> Option<Seq<char>> {
    let ls = lines(existing);
    let n = trim(entry);
    if has_trimmed(ls, n) {
        Some(terminated(drop_blank_end(drop_blank_start(lines_without(ls, n)))))
    } else {
        None
    }
}

/// The text after an edit that may have left the file as it was.
pub open spec fn after_edit(existing: Seq<char>, edit: Option<Seq<char>>) -> Seq<char> {
    match edit {
        Some(t) => t,
        None => existing,
    }
}

// ---------------------------------------------------------------------------
// Laws
// ---------------------------------------------------------------------------

proof fn lemma_lines_from_free_of_newline(s: Seq<char>, cur: Seq<char>)
    requires
        !contains_char(cur, '\n'),
    ensures
        forall|i: int|
            0 <= i < lines_from(s, cur).len() ==> !contains_char(#[trigger] lines_from(s, cur)[i], '\n'),
    decreases s.len(),
{
    if s.len() == 0 {
        if cur.len() > 0 {
            assert(lines_from(s, cur) == seq![cur]);
            assert(lines_from(s, cur)[0] == cur);
        } else {
            assert(lines_from(s, cur).len() == 0);
        }
    } else if s[0] == '\n' {
        lemma_lines_from_free_of_newline(s.drop_first(), seq![]);
        let l = strip_cr(cur);
        assert(lines_from(s, cur) == seq![l] + lines_from(s.drop_first(), seq![]));
        assert(!contains_char(l, '\n')) by {
            if contains_char(l, '\n') {
                let j = choose|j: int| 0 <= j < l.len() && l[j] == '\n';
                assert(cur[j] == '\n');
            }
        }
        let rest = lines_from(s.drop_first(), seq![]);
        assert forall|i: int| 0 <= i < (seq![l] + rest).len() implies !contains_char(
            #[trigger] (seq![l] + rest)[i],
            '\n',
        ) by {
            if i > 0 {
                assert((seq![l] + rest)[i] == rest[i - 1]);
            }
        }
    } else {
        let c2 = cur.push(s[0]);
        assert(!contains_char(c2, '\n')) by {
            if contains_char(c2, '\n') {
                let j = choose|j: int| 0 <= j < c2.len() && c2[j] == '\n';
                if j < cur.len() {
                    assert(cur[j] == '\n');
                }
            }
        }
        lemma_lines_from_free_of_newline(s.drop_first(), c2);
        assert(lines_from(s, cur) == lines_from(s.drop_first(), c2));
    }
}

/// No line that `str::lines` gives holds a line break.
pub proof fn lemma_lines_free_of_newline(s: Seq<char>)
    ensures
        forall|i: int| 0 <= i < lines(s).len() ==> !contains_char(#[trigger] lines(s)[i], '\n'),
{
    lemma_lines_from_free_of_newline(s, seq![]);
}

proof fn lemma_first_trimmed_some(ls: Seq<Seq<char>>, t: Seq<char>)
    ensures
        match first_trimmed(ls, t) {
            Some(k) => 0 <= k < ls.len() && trim(ls[k]) == t,
            None => !has_trimmed(ls, t),
        },
    decreases ls.len(),
{
    if ls.len() > 0 && trim(ls[0]) != t {
        lemma_first_trimmed_some(ls.drop_first(), t);
        if first_trimmed(ls.drop_first(), t) is None {
            assert forall|i: int| 0 <= i < ls.len() implies trim(#[trigger] ls[i]) != t by {
                if i > 0 {
                    assert(ls[i] == ls.drop_first()[i - 1]);
                }
            }
        }
    }
}

/// After the entry is ensured, the file has a line that trims to the trimmed entry
/// (for an entry that does not span lines).
pub proof fn law_entry_present_after_ensure(existing: Seq<char>, entry: Seq<char>)
    requires
        !contains_char(trim(entry), '\n'),
    ensures
        has_trimmed(lines(after_edit(existing, with_entry_spec(existing, entry))), trim(entry)),
{
    let ls = lines(existing);
    let n = trim(entry);
    if !has_trimmed(ls, n) {
        let nl = lines_with(ls, n);
        lemma_lines_free_of_newline(existing);
        reveal_strlit("# Added by grf");
        assert(!contains_char(comment_line(), '\n')) by {
            if contains_char(comment_line(), '\n') {
                let j = choose|j: int| 0 <= j < comment_line().len() && comment_line()[j] == '\n';
                assert(comment_line()[j] != '\n');
            }
        }
        assert(!contains_char(Seq::<char>::empty(), '\n'));
        let idx: int;
        lemma_first_trimmed_some(ls, comment_line());
        match first_trimmed(ls, comment_line()) {
            Some(k) => {
                idx = k + 1;
                assert(nl[idx] == n);
                assert forall|i: int| 0 <= i < nl.len() implies !contains_char(#[trigger] nl[i], '\n') by {
                    if i < k + 1 {
                        assert(nl[i] == ls[i]);
                    } else if i > k + 1 {
                        assert(nl[i] == ls[i - 1]);
                    }
                }
            },
            None => {
                idx = nl.len() - 1;
                assert(nl[idx] == n);
                assert forall|i: int| 0 <= i < nl.len() implies !contains_char(#[trigger] nl[i], '\n') by {
                    if i < ls.len() {
                        assert(nl[i] == ls[i]);
                    }
                }
            },
        }
        lemma_lines_of_terminated(nl);
        let out = lines(terminated(nl));
        assert(out[idx] == strip_cr(nl[idx]));
        lemma_trim_strip_cr(n);
        lemma_trim_idempotent(entry);
        assert(trim(out[idx]) == n);
    }
}

/// Ensuring an entry twice writes nothing the second time.
pub proof fn law_ensure_idempotent(existing: Seq<char>, entry: Seq<char>)
    requires
        !contains_char(trim(entry), '\n'),
    ensures
        with_entry_spec(after_edit(existing, with_entry_spec(existing, entry)), entry) is None,
{
    law_entry_present_after_ensure(existing, entry);
}

proof fn lemma_lines_without_spec(ls: Seq<Seq<char>>, t: Seq<char>)
    ensures
        !has_trimmed(lines_without(ls, t), t),
        forall|i: int|
            0 <= i < lines_without(ls, t).len() ==> exists|j: int|
                0 <= j < ls.len() && ls[j] == #[trigger] lines_without(ls, t)[i],
    decreases ls.len(),
{
    if ls.len() > 0 {
        lemma_lines_without_spec(ls.drop_first(), t);
        let rest = lines_without(ls.drop_first(), t);
        assert forall|i: int| 0 <= i < lines_without(ls, t).len() implies exists|j: int|
            0 <= j < ls.len() && ls[j] == #[trigger] lines_without(ls, t)[i] by {
            if trim(ls[0]) == t {
                let j = choose|j: int|
                    0 <= j < ls.drop_first().len() && ls.drop_first()[j] == rest[i];
                assert(ls[j + 1] == rest[i]);
            } else if i == 0 {
                assert(ls[0] == lines_without(ls, t)[0]);
            } else {
                assert(lines_without(ls, t)[i] == rest[i - 1]);
                let j = choose|j: int|
                    0 <= j < ls.drop_first().len() && ls.drop_first()[j] == rest[i - 1];
                assert(ls[j + 1] == rest[i - 1]);
            }
        }
        if trim(ls[0]) != t {
            assert forall|i: int| 0 <= i < lines_without(ls, t).len() implies trim(
                #[trigger] lines_without(ls, t)[i],
            ) != t by {
                if i > 0 {
                    assert(lines_without(ls, t)[i] == rest[i - 1]);
                }
            }
        }
    }
}

proof fn lemma_drop_blank_start_sub(ls: Seq<Seq<char>>)
    ensures
        forall|i: int|
            0 <= i < drop_blank_start(ls).len() ==> exists|j: int|
                0 <= j < ls.len() && ls[j] == #[trigger] drop_blank_start(ls)[i],
    decreases ls.len(),
{
    if ls.len() > 0 && is_blank(ls[0]) {
        lemma_drop_blank_start_sub(ls.drop_first());
        assert(drop_blank_start(ls) == drop_blank_start(ls.drop_first()));
        assert forall|i: int| 0 <= i < drop_blank_start(ls).len() implies exists|j: int|
            0 <= j < ls.len() && ls[j] == #[trigger] drop_blank_start(ls)[i] by {
            let j = choose|j: int|
                0 <= j < ls.drop_first().len() && ls.drop_first()[j] == drop_blank_start(ls)[i];
            assert(ls[j + 1] == drop_blank_start(ls)[i]);
        }
    } else {
        assert forall|i: int| 0 <= i < drop_blank_start(ls).len() implies exists|j: int|
            0 <= j < ls.len() && ls[j] == #[trigger] drop_blank_start(ls)[i] by {
            assert(ls[i] == drop_blank_start(ls)[i]);
        }
    }
}

proof fn lemma_drop_blank_end_sub(ls: Seq<Seq<char>>)
    ensures
        forall|i: int|
            0 <= i < drop_blank_end(ls).len() ==> exists|j: int|
                0 <= j < ls.len() && ls[j] == #[trigger] drop_blank_end(ls)[i],
    decreases ls.len(),
{
    if ls.len() > 0 && is_blank(ls.last()) {
        lemma_drop_blank_end_sub(ls.drop_last());
        assert(drop_blank_end(ls) == drop_blank_end(ls.drop_last()));
        assert forall|i: int| 0 <= i < drop_blank_end(ls).len() implies exists|j: int|
            0 <= j < ls.len() && ls[j] == #[trigger] drop_blank_end(ls)[i] by {
            let j = choose|j: int|
                0 <= j < ls.drop_last().len() && ls.drop_last()[j] == drop_blank_end(ls)[i];
            assert(ls[j] == drop_blank_end(ls)[i]);
        }
    } else {
        assert forall|i: int| 0 <= i < drop_blank_end(ls).len() implies exists|j: int|
            0 <= j < ls.len() && ls[j] == #[trigger] drop_blank_end(ls)[i] by {
            assert(ls[i] == drop_blank_end(ls)[i]);
        }
    }
}

/// After the entry is taken out, no line of the file trims to the trimmed entry.
pub proof fn law_entry_absent_after_remove(existing: Seq<char>, entry: Seq<char>)
    ensures
        !has_trimmed(
            lines(after_edit(existing, without_entry_spec(existing, entry))),
            trim(entry),
        ),
{
    let ls = lines(existing);
    let n = trim(entry);
    if has_trimmed(ls, n) {
        let kept = lines_without(ls, n);
        let a = drop_blank_start(kept);
        let fin = drop_blank_end(a);
        lemma_lines_without_spec(ls, n);
        lemma_drop_blank_start_sub(kept);
        lemma_drop_blank_end_sub(a);
        lemma_lines_free_of_newline(existing);
        assert forall|i: int| 0 <= i < fin.len() implies !contains_char(#[trigger] fin[i], '\n')
            && trim(fin[i]) != n by {
            let j = choose|j: int| 0 <= j < a.len() && a[j] == fin[i];
            let k = choose|k: int| 0 <= k < kept.len() && kept[k] == a[j];
            let m = choose|m: int| 0 <= m < ls.len() && ls[m] == kept[k];
            assert(!contains_char(ls[m], '\n'));
            assert(trim(kept[k]) != n);
        }
        lemma_lines_of_terminated(fin);
        let out = lines(terminated(fin));
        assert forall|i: int| 0 <= i < out.len() implies trim(#[trigger] out[i]) != n by {
            assert(out[i] == strip_cr(fin[i]));
            lemma_trim_strip_cr(fin[i]);
        }
    } else {
    }
}

// ---------------------------------------------------------------------------
// Executable code
// ---------------------------------------------------------------------------

fn first_trimmed_exec(ls: &Vec<Vec<char>>, t: &Vec<char>) -> (r: Option<usize>)
    ensures
        match r {
            Some(k) => first_trimmed(ls.deep_view(), t@) == Some(k as int) && k < ls.len(),
            None => first_trimmed(ls.deep_view(), t@) is None,
        },
{
    let mut i: usize = 0;
    assert(ls.deep_view().skip(0) =~= ls.deep_view());
    while i < ls.len()
        invariant
            i <= ls.len(),
            forall|j: int| 0 <= j < i ==> trim(#[trigger] ls.deep_view()[j]) != t@,
        decreases ls.len() - i,
    {
        let tl = trim_chars(&ls[i]);
        assert(ls.deep_view()[i as int] == ls[i as int]@);
        if chars_eq(&tl, t) {
            proof { lemma_first_trimmed_at(ls.deep_view(), t@, i as int); }
            return Some(i);
        }
        i += 1;
    }
    proof { lemma_first_trimmed_none(ls.deep_view(), t@); }
    None
}

proof fn lemma_first_trimmed_at(ls: Seq<Seq<char>>, t: Seq<char>, i: int)
    requires
        0 <= i < ls.len(),
        trim(ls[i]) == t,
        forall|j: int| 0 <= j < i ==> trim(#[trigger] ls[j]) != t,
    ensures
        first_trimmed(ls, t) == Some(i),
    decreases i,
{
    if i > 0 {
        assert forall|j: int| 0 <= j < i - 1 implies trim(#[trigger] ls.drop_first()[j]) != t by {
            assert(ls.drop_first()[j] == ls[j + 1]);
        }
        lemma_first_trimmed_at(ls.drop_first(), t, i - 1);
    }
}

proof fn lemma_first_trimmed_none(ls: Seq<Seq<char>>, t: Seq<char>)
    requires
        forall|j: int| 0 <= j < ls.len() ==> trim(#[trigger] ls[j]) != t,
    ensures
        first_trimmed(ls, t) is None,
    decreases ls.len(),
{
    if ls.len() > 0 {
        assert forall|j: int| 0 <= j < ls.drop_first().len() implies trim(#[trigger] ls.drop_first()[j]) != t by {
            assert(ls.drop_first()[j] == ls[j + 1]);
        }
        lemma_first_trimmed_none(ls.drop_first(), t);
    }
}

/// Inserts a line at position `k`.
fn insert_line(ls: &mut Vec<Vec<char>>, k: usize, line: Vec<char>)
    requires
        k <= old(ls).len(),
    ensures
        final(ls).deep_view() == old(ls).deep_view().insert(k as int, line@),
{
    let ghost before = ls.deep_view();
    let ghost l = line@;
    ls.insert(k, line);
    assert forall|i: int| 0 <= i < ls.len() implies #[trigger] ls.deep_view()[i] == before.insert(
        k as int,
        l,
    )[i] by {
        if i < k {
            assert(ls@[i] == old(ls)@[i]);
        } else if i > k {
            assert(ls@[i] == old(ls)@[i - 1]);
        }
    }
    assert(ls.deep_view() =~= before.insert(k as int, l));
}

/// The new text of a `.gitignore` holding `existing` once `entry` is ensured in it,
/// or `None` when the entry is already there.
pub fn with_entry(existing: &str, entry: &str) -> (r: Option<String>)
    ensures
        r.deep_view() == with_entry_spec(existing@, entry@),
{
    let mut ls = lines_of(&chars_of(existing));
    let normalized = trim_chars(&chars_of(entry));
    if let Some(_) = first_trimmed_exec(&ls, &normalized) {
        proof { lemma_first_trimmed_some(ls.deep_view(), normalized@); }
        return None;
    }
    proof { lemma_first_trimmed_some(ls.deep_view(), normalized@); }
    let comment = chars_of("# Added by grf");
    match first_trimmed_exec(&ls, &comment) {
        Some(index) => {
            insert_line(&mut ls, index + 1, normalized);
        },
        None => {
            if ls.len() > 0 && ls[ls.len() - 1].len() != 0 {
                assert(ls.deep_view().last() == ls[ls.len() - 1]@);
                push_line(&mut ls, Vec::new());
            } else if ls.len() > 0 {
                assert(ls.deep_view().last() == ls[ls.len() - 1]@);
            }
            push_line(&mut ls, comment);
            push_line(&mut ls, normalized);
        },
    }
    let text = terminated_chars(&ls);
    Some(string_from_chars(&text))
}

/// The new text of a `.gitignore` holding `existing` once `entry` is taken out, or
/// `None` when no line matched it.
pub fn without_entry(existing: &str, entry: &str) -> (r: Option<String>)
    ensures
        r.deep_view() == without_entry_spec(existing@, entry@),
{
    let ls = lines_of(&chars_of(existing));
    let normalized = trim_chars(&chars_of(entry));
    let mut removed = false;
    let mut kept: Vec<Vec<char>> = Vec::new();
    let mut i: usize = 0;
    assert(ls.deep_view().skip(0) =~= ls.deep_view());
    while i < ls.len()
        invariant
            i <= ls.len(),
            lines_without(ls.deep_view(), normalized@) == kept.deep_view() + lines_without(
                ls.deep_view().skip(i as int),
                normalized@,
            ),
            removed == has_trimmed(ls.deep_view().take(i as int), normalized@),
        decreases ls.len() - i,
    {
        let ghost rest = ls.deep_view().skip(i as int);
        assert(rest[0] == ls[i as int]@);
        assert(rest.drop_first() =~= ls.deep_view().skip(i + 1));
        let ghost prefix = ls.deep_view().take(i as int);
        assert(ls.deep_view().take(i + 1) =~= prefix.push(ls[i as int]@));
        let tl = trim_chars(&ls[i]);
        if chars_eq(&tl, &normalized) {
            removed = true;
            assert(has_trimmed(ls.deep_view().take(i + 1), normalized@)) by {
                assert(ls.deep_view().take(i + 1)[i as int] == ls[i as int]@);
            }
        } else {
            let line = slice_all(&ls[i]);
            let ghost before = kept.deep_view();
            push_line(&mut kept, line);
            assert(before + (seq![rest[0]] + lines_without(rest.drop_first(), normalized@))
                =~= kept.deep_view() + lines_without(rest.drop_first(), normalized@));
            assert(has_trimmed(ls.deep_view().take(i + 1), normalized@) == has_trimmed(
                prefix,
                normalized@,
            )) by {
                if has_trimmed(ls.deep_view().take(i + 1), normalized@) {
                    let j = choose|j: int|
                        0 <= j < i + 1 && trim(#[trigger] ls.deep_view().take(i + 1)[j])
                            == normalized@;
                    assert(j != i);
                    assert(prefix[j] == ls.deep_view().take(i + 1)[j]);
                }
                if has_trimmed(prefix, normalized@) {
                    let j = choose|j: int| 0 <= j < i && trim(#[trigger] prefix[j]) == normalized@;
                    assert(prefix[j] == ls.deep_view().take(i + 1)[j]);
                }
            }
        }
        i += 1;
    }
    assert(ls.deep_view().take(i as int) =~= ls.deep_view());
    assert(ls.deep_view().skip(i as int) =~= Seq::<Seq<char>>::empty());
    assert(kept.deep_view() + Seq::<Seq<char>>::empty() =~= kept.deep_view());
    if !removed {
        return None;
    }
    let stripped = strip_blank_ends(&kept);
    let text = terminated_chars(&stripped);
    Some(string_from_chars(&text))
}

fn slice_all(l: &Vec<char>) -> (r: Vec<char>)
    ensures
        r@ == l@,
{
    let r = crate::text::slice_chars(l, 0, l.len());
    assert(l@.subrange(0, l@.len() as int) =~= l@);
    r
}

fn is_blank_exec(l: &Vec<char>) -> (b: bool)
    ensures
        b == is_blank(l@),
{
    trim_chars(l).len() == 0
}

/// `ls` without blank lines at either end.
fn strip_blank_ends(ls: &Vec<Vec<char>>) -> (r: Vec<Vec<char>>)
    ensures
        r.deep_view() == drop_blank_end(drop_blank_start(ls.deep_view())),
{
    let mut i: usize = 0;
    assert(ls.deep_view().skip(0) =~= ls.deep_view());
    while i < ls.len() && is_blank_exec(&ls[i])
        invariant
            i <= ls.len(),
            drop_blank_start(ls.deep_view()) == drop_blank_start(ls.deep_view().skip(i as int)),
        decreases ls.len() - i,
    {
        assert(ls.deep_view()[i as int] == ls[i as int]@);
        assert(ls.deep_view().skip(i as int)[0] == ls.deep_view()[i as int]);
        assert(ls.deep_view().skip(i as int).drop_first() =~= ls.deep_view().skip(i + 1));
        i += 1;
    }
    assert(drop_blank_start(ls.deep_view()) == ls.deep_view().skip(i as int)) by {
        if i < ls.len() {
            assert(ls.deep_view()[i as int] == ls[i as int]@);
            assert(ls.deep_view().skip(i as int)[0] == ls.deep_view()[i as int]);
        }
    }
    let mut j: usize = ls.len();
    assert(ls.deep_view().skip(i as int) =~= ls.deep_view().subrange(i as int, j as int));
    while j > i && is_blank_exec(&ls[j - 1])
        invariant
            i <= j <= ls.len(),
            drop_blank_end(drop_blank_start(ls.deep_view())) == drop_blank_end(
                ls.deep_view().subrange(i as int, j as int),
            ),
        decreases j - i,
    {
        assert(ls.deep_view()[j - 1] == ls[j - 1]@);
        assert(ls.deep_view().subrange(i as int, j as int).last() == ls.deep_view()[j - 1]);
        assert(ls.deep_view().subrange(i as int, j as int).drop_last() =~= ls.deep_view().subrange(
            i as int,
            j - 1,
        ));
        j -= 1;
    }
    assert(drop_blank_end(ls.deep_view().subrange(i as int, j as int)) == ls.deep_view().subrange(
        i as int,
        j as int,
    )) by {
        if j > i {
            assert(ls.deep_view()[j - 1] == ls[j - 1]@);
            assert(ls.deep_view().subrange(i as int, j as int).last() == ls.deep_view()[j - 1]);
        }
    }
    let mut out: Vec<Vec<char>> = Vec::new();
    let mut k: usize = i;
    while k < j
        invariant
            i <= k <= j <= ls.len(),
            out.deep_view() == ls.deep_view().subrange(i as int, k as int),
        decreases j - k,
    {
        let line = slice_all(&ls[k]);
        let ghost before = out.deep_view();
        push_line(&mut out, line);
        assert(ls.deep_view()[k as int] == ls[k as int]@);
        assert(out.deep_view() =~= ls.deep_view().subrange(i as int, k + 1));
        k += 1;
    }
    out
}

} // verus!
