//! Character-level text helpers shared by the parsers and the `.gitignore` editor.
//!
//! Text is handled as sequences of `char`; every function states its result over
//! the `Seq<char>` view of its arguments.
use vstd::prelude::*;

verus! {

// ---------------------------------------------------------------------------
// Specifications
// ---------------------------------------------------------------------------

/// Unicode `White_Space`, the property behind `char::is_whitespace`.
pub open spec fn is_ws(c: char) -> bool {
    ||| ('\u{9}' <= c && c <= '\u{d}')
    ||| c == ' '
    ||| c == '\u{85}'
    ||| c == '\u{a0}'
    ||| c == '\u{1680}'
    ||| ('\u{2000}' <= c && c <= '\u{200a}')
    ||| c == '\u{2028}'
    ||| c == '\u{2029}'
    ||| c == '\u{202f}'
    ||| c == '\u{205f}'
    ||| c == '\u{3000}'
}

/// `s` with its leading whitespace removed.
pub open spec fn trim_start(s: Seq<char>) -> Seq<char>
    decreases s.len(),
{
    if s.len() > 0 && is_ws(s[0]) {
        trim_start(s.drop_first())
    } else {
        s
    }
}

/// `s` with its trailing whitespace removed.
pub open spec fn trim_end(s: Seq<char>) -> Seq<char>
    decreases s.len(),
{
    if s.len() > 0 && is_ws(s.last()) {
        trim_end(s.drop_last())
    } else {
        s
    }
}

/// `str::trim`: both ends stripped of whitespace.
pub open spec fn trim(s: Seq<char>) -> Seq<char> {
    trim_end(trim_start(s))
}

pub open spec fn starts_with(s: Seq<char>, p: Seq<char>) -> bool {
    p.len() <= s.len() && s.take(p.len() as int) == p
}

pub open spec fn ends_with(s: Seq<char>, p: Seq<char>) -> bool {
    p.len() <= s.len() && s.skip(s.len() - p.len()) == p
}

pub open spec fn contains_char(s: Seq<char>, c: char) -> bool {
    exists|i: int| 0 <= i < s.len() && s[i] == c
}

/// A line without the `'\r'` that may precede its `'\n'`.
pub open spec fn strip_cr(l: Seq<char>) -> Seq<char> {
    if l.len() > 0 && l.last() == '\r' {
        l.drop_last()
    } else {
        l
    }
}

/// The lines of `s` still to come, where `cur` is the part of the current line
/// already read.
pub open spec fn lines_from(s: Seq<char>, cur: Seq<char>) -> Seq<Seq<char>>
    decreases s.len(),
{
    if s.len() == 0 {
        if cur.len() == 0 {
            seq![]
        } else {
            seq![cur]
        }
    } else if s[0] == '\n' {
        seq![strip_cr(cur)] + lines_from(s.drop_first(), seq![])
    } else {
        lines_from(s.drop_first(), cur.push(s[0]))
    }
}

/// `str::lines`: split at `'\n'` (dropping a `'\r'` right before it); a final
/// line ending is optional.
pub open spec fn lines(s: Seq<char>) -> Seq<Seq<char>> {
    lines_from(s, seq![])
}

/// Each line followed by `'\n'`.
pub open spec fn terminated(ls: Seq<Seq<char>>) -> Seq<char>
    decreases ls.len(),
{
    if ls.len() == 0 {
        seq![]
    } else {
        ls[0] + seq!['\n'] + terminated(ls.drop_first())
    }
}

/// The non-empty pieces of `s` between occurrences of `sep`, where `cur` is the
/// piece being read.
pub open spec fn pieces_from(s: Seq<char>, sep: char, cur: Seq<char>) -> Seq<Seq<char>>
    decreases s.len(),
{
    if s.len() == 0 {
        if cur.len() == 0 {
            seq![]
        } else {
            seq![cur]
        }
    } else if s[0] == sep {
        (if cur.len() == 0 {
            seq![]
        } else {
            seq![cur]
        }) + pieces_from(s.drop_first(), sep, seq![])
    } else {
        pieces_from(s.drop_first(), sep, cur.push(s[0]))
    }
}

/// `s.split(sep).filter(|p| !p.is_empty())`.
pub open spec fn nonempty_pieces(s: Seq<char>, sep: char) -> Seq<Seq<char>> {
    pieces_from(s, sep, seq![])
}

/// Every occurrence of `from` replaced by `to`.
pub open spec fn replace_char(s: Seq<char>, from: char, to: char) -> Seq<char> {
    s.map_values(|c: char| if c == from { to } else { c })
}

// ---------------------------------------------------------------------------
// Lemmas
// ---------------------------------------------------------------------------

/// Reading a stretch `a` free of line breaks only extends the current line.
pub proof fn lemma_lines_from_no_newline(a: Seq<char>, b: Seq<char>, cur: Seq<char>)
    requires
        !contains_char(a, '\n'),
    ensures
        lines_from(a + b, cur) == lines_from(b, cur + a),
    decreases a.len(),
{
    if a.len() == 0 {
        assert(a + b =~= b);
        assert(cur + a =~= cur);
    } else {
        assert((a + b)[0] == a[0]);
        assert((a + b).drop_first() =~= a.drop_first() + b);
        assert(!contains_char(a.drop_first(), '\n')) by {
            if contains_char(a.drop_first(), '\n') {
                let i = choose|i: int| 0 <= i < a.drop_first().len() && a.drop_first()[i] == '\n';
                assert(a[i + 1] == '\n');
            }
        }
        lemma_lines_from_no_newline(a.drop_first(), b, cur.push(a[0]));
        assert(cur.push(a[0]) + a.drop_first() =~= cur + a);
    }
}

/// Lines free of `'\n'`, each written with a terminating `'\n'`, are read back as
/// themselves, less a `'\r'` that ended one of them.
pub proof fn lemma_lines_of_terminated(ls: Seq<Seq<char>>)
    requires
        forall|i: int| 0 <= i < ls.len() ==> !contains_char(#[trigger] ls[i], '\n'),
    ensures
        lines(terminated(ls)) == ls.map_values(|l: Seq<char>| strip_cr(l)),
    decreases ls.len(),
{
    if ls.len() == 0 {
        assert(lines(terminated(ls)) =~= ls.map_values(|l: Seq<char>| strip_cr(l)));
    } else {
        let rest = ls.drop_first();
        assert forall|i: int| 0 <= i < rest.len() implies !contains_char(#[trigger] rest[i], '\n') by {
            assert(rest[i] == ls[i + 1]);
        }
        lemma_lines_of_terminated(rest);
        let t = terminated(ls);
        assert(t == ls[0] + (seq!['\n'] + terminated(rest))) by {
            assert(ls[0] + seq!['\n'] + terminated(rest) =~= ls[0] + (seq!['\n']
                + terminated(rest)));
        }
        assert(!contains_char(ls[0], '\n'));
        lemma_lines_from_no_newline(ls[0], seq!['\n'] + terminated(rest), seq![]);
        let tail = seq!['\n'] + terminated(rest);
        assert(tail[0] == '\n');
        assert(tail.drop_first() =~= terminated(rest));
        assert(Seq::<char>::empty() + ls[0] =~= ls[0]);
        assert(lines(t) =~= seq![strip_cr(ls[0])] + lines(terminated(rest)));
        assert(lines(t) =~= ls.map_values(|l: Seq<char>| strip_cr(l)));
    }
}

/// Dropping a trailing `'\r'` does not change what the line trims to.
pub proof fn lemma_trim_strip_cr(l: Seq<char>)
    ensures
        trim(strip_cr(l)) == trim(l),
{
    if l.len() > 0 && l.last() == '\r' {
        lemma_trim_start_drop_last(l);
    }
}

/// When the last character is whitespace, trimming ignores it.
proof fn lemma_trim_start_drop_last(l: Seq<char>)
    requires
        l.len() > 0,
        is_ws(l.last()),
    ensures
        trim_end(trim_start(l.drop_last())) == trim_end(trim_start(l)),
    decreases l.len(),
{
    if is_ws(l[0]) {
        if l.len() == 1 {
            assert(l.drop_last() =~= Seq::<char>::empty());
            assert(trim_start(l) == trim_start(l.drop_first()));
            assert(l.drop_first() =~= Seq::<char>::empty());
        } else {
            assert(l.drop_last()[0] == l[0]);
            assert(l.drop_last().drop_first() =~= l.drop_first().drop_last());
            lemma_trim_start_drop_last(l.drop_first());
        }
    } else {
        assert(l.drop_last().len() == 0 || l.drop_last()[0] == l[0]);
        if l.len() == 1 {
            assert(l.drop_last() =~= Seq::<char>::empty());
        } else {
            assert(trim_start(l.drop_last()) == l.drop_last());
            assert(trim_start(l) == l);
        }
    }
}

/// Trimming is idempotent.
pub proof fn lemma_trim_idempotent(s: Seq<char>)
    ensures
        trim(trim(s)) == trim(s),
{
    lemma_trim_start_head(s);
    lemma_trim_start_of_trimmed(trim_start(s));
    lemma_trim_end_fixed(trim_start(s));
}

proof fn lemma_trim_start_fixed(s: Seq<char>)
    ensures
        trim_start(trim_start(s)) == trim_start(s),
    decreases s.len(),
{
    if s.len() > 0 && is_ws(s[0]) {
        lemma_trim_start_fixed(s.drop_first());
    }
}

proof fn lemma_trim_start_head(s: Seq<char>)
    ensures
        trim_start(s).len() == 0 || !is_ws(trim_start(s)[0]),
    decreases s.len(),
{
    if s.len() > 0 && is_ws(s[0]) {
        lemma_trim_start_head(s.drop_first());
    }
}

/// A sequence that starts with no whitespace still starts with none once its end
/// is trimmed.
proof fn lemma_trim_start_of_trimmed(s: Seq<char>)
    requires
        s.len() == 0 || !is_ws(s[0]),
    ensures
        trim_start(trim_end(s)) == trim_end(s),
    decreases s.len(),
{
    if s.len() > 0 && is_ws(s.last()) {
        if s.len() > 1 {
            assert(s.drop_last()[0] == s[0]);
        }
        lemma_trim_start_of_trimmed(s.drop_last());
    }
}

proof fn lemma_trim_end_fixed(s: Seq<char>)
    ensures
        trim_end(trim_end(s)) == trim_end(s),
    decreases s.len(),
{
    if s.len() > 0 && is_ws(s.last()) {
        lemma_trim_end_fixed(s.drop_last());
    }
}

// ---------------------------------------------------------------------------
// Executable helpers
// ---------------------------------------------------------------------------

/// The characters of a string slice, collected into a vector.
pub fn chars_of(s: &str) -> (out: Vec<char>)
    ensures
        out@ == s@,
{
    let mut out: Vec<char> = Vec::new();
    for c in it: s.chars()
        invariant
            out@ == it.seq().take(it.index() as int),
            it.seq() == s@,
    {
        out.push(c);
    }
    out
}

/// Builds a `String` holding exactly the given characters (std's `FromIterator<&char>`).
#[verifier::external_body]
pub fn string_from_chars(cs: &Vec<char>) -> (s: String)
    ensures
        s@ == cs@,
{
    cs.iter().collect()
}

/// A `String` holding the characters of a string literal or slice.
pub fn owned(s: &str) -> (r: String)
    ensures
        r@ == s@,
{
    s.to_owned()
}

pub fn is_whitespace(c: char) -> (b: bool)
    ensures
        b == is_ws(c),
{
    ('\u{9}' <= c && c <= '\u{d}') || c == ' ' || c == '\u{85}' || c == '\u{a0}' || c
        == '\u{1680}' || ('\u{2000}' <= c && c <= '\u{200a}') || c == '\u{2028}' || c
        == '\u{2029}' || c == '\u{202f}' || c == '\u{205f}' || c == '\u{3000}'
}

/// Characters `lo..hi` of `s`.
pub fn slice_chars(s: &Vec<char>, lo: usize, hi: usize) -> (r: Vec<char>)
    requires
        lo <= hi <= s.len(),
    ensures
        r@ == s@.subrange(lo as int, hi as int),
{
    let mut r: Vec<char> = Vec::new();
    let mut i: usize = lo;
    while i < hi
        invariant
            lo <= i <= hi <= s.len(),
            r@ == s@.subrange(lo as int, i as int),
        decreases hi - i,
    {
        r.push(s[i]);
        i += 1;
    }
    r
}

/// `a` followed by `b`.
pub fn concat(a: &Vec<char>, b: &Vec<char>) -> (r: Vec<char>)
    ensures
        r@ == a@ + b@,
{
    let mut r = slice_chars(a, 0, a.len());
    assert(a@.subrange(0, a@.len() as int) =~= a@);
    let mut i: usize = 0;
    while i < b.len()
        invariant
            i <= b.len(),
            r@ == a@ + b@.take(i as int),
        decreases b.len() - i,
    {
        r.push(b[i]);
        i += 1;
        assert(a@ + b@.take(i as int) =~= (a@ + b@.take(i - 1)).push(b@[i - 1]));
    }
    assert(b@.take(b@.len() as int) =~= b@);
    r
}

pub fn chars_eq(a: &Vec<char>, b: &Vec<char>) -> (r: bool)
    ensures
        r == (a@ == b@),
{
    if a.len() != b.len() {
        return false;
    }
    let mut i: usize = 0;
    while i < a.len()
        invariant
            a.len() == b.len(),
            i <= a.len(),
            forall|j: int| 0 <= j < i ==> a@[j] == b@[j],
        decreases a.len() - i,
    {
        if a[i] != b[i] {
            return false;
        }
        i += 1;
    }
    assert(a@ =~= b@);
    true
}

pub fn starts_with_chars(s: &Vec<char>, p: &Vec<char>) -> (r: bool)
    ensures
        r == starts_with(s@, p@),
{
    if p.len() > s.len() {
        return false;
    }
    let head = slice_chars(s, 0, p.len());
    chars_eq(&head, p)
}

pub fn ends_with_chars(s: &Vec<char>, p: &Vec<char>) -> (r: bool)
    ensures
        r == ends_with(s@, p@),
{
    if p.len() > s.len() {
        return false;
    }
    let tail = slice_chars(s, s.len() - p.len(), s.len());
    assert(s@.subrange(s.len() - p.len(), s.len() as int) =~= s@.skip(s.len() - p.len()));
    chars_eq(&tail, p)
}


/// `str::trim` on a character vector.
pub fn trim_chars(s: &Vec<char>) -> (r: Vec<char>)
    ensures
        r@ == trim(s@),
{
    let mut i: usize = 0;
    assert(s@.skip(0) =~= s@);
    while i < s.len() && is_whitespace(s[i])
        invariant
            i <= s.len(),
            trim_start(s@) == trim_start(s@.skip(i as int)),
        decreases s.len() - i,
    {
        assert(s@.skip(i as int)[0] == s@[i as int]);
        assert(s@.skip(i as int).drop_first() =~= s@.skip(i + 1));
        i += 1;
    }
    assert(trim_start(s@) == s@.skip(i as int)) by {
        if i < s.len() {
            assert(s@.skip(i as int)[0] == s@[i as int]);
        }
    }
    let mut j: usize = s.len();
    assert(s@.skip(i as int) =~= s@.subrange(i as int, j as int));
    while j > i && is_whitespace(s[j - 1])
        invariant
            i <= j <= s.len(),
            trim(s@) == trim_end(s@.subrange(i as int, j as int)),
        decreases j - i,
    {
        assert(s@.subrange(i as int, j as int).last() == s@[j - 1]);
        assert(s@.subrange(i as int, j as int).drop_last() =~= s@.subrange(i as int, j - 1));
        j -= 1;
    }
    assert(trim_end(s@.subrange(i as int, j as int)) == s@.subrange(i as int, j as int)) by {
        if j > i {
            assert(s@.subrange(i as int, j as int).last() == s@[j - 1]);
        }
    }
    slice_chars(s, i, j)
}

/// `str::lines` on a character vector.
pub fn lines_of(s: &Vec<char>) -> (r: Vec<Vec<char>>)
    ensures
        r.deep_view() == lines(s@),
{
    let mut out: Vec<Vec<char>> = Vec::new();
    let mut cur: Vec<char> = Vec::new();
    let mut i: usize = 0;
    assert(s@.skip(0) =~= s@);
    while i < s.len()
        invariant
            i <= s.len(),
            lines(s@) == out.deep_view() + lines_from(s@.skip(i as int), cur@),
        decreases s.len() - i,
    {
        let ghost rest = s@.skip(i as int);
        assert(rest[0] == s@[i as int]);
        assert(rest.drop_first() =~= s@.skip(i + 1));
        if s[i] == '\n' {
            let mut line = cur;
            if line.len() > 0 && line[line.len() - 1] == '\r' {
                line.pop();
            }
            assert(line@ == strip_cr(cur@));
            let ghost before = out.deep_view();
            push_line(&mut out, line);
            assert(out.deep_view() =~= before + seq![strip_cr(cur@)]);
            cur = Vec::new();
            assert(lines(s@) == out.deep_view() + lines_from(s@.skip(i + 1), cur@)) by {
                assert(before + (seq![strip_cr(cur@)] + lines_from(s@.skip(i + 1), seq![]))
                    =~= before + seq![strip_cr(cur@)] + lines_from(s@.skip(i + 1), seq![]));
            }
        } else {
            cur.push(s[i]);
        }
        i += 1;
    }
    if cur.len() > 0 {
        let ghost before = out.deep_view();
        let ghost last = cur@;
        push_line(&mut out, cur);
        assert(out.deep_view() =~= before + seq![last]);
    } else {
        assert(out.deep_view() =~= out.deep_view() + Seq::<Seq<char>>::empty());
    }
    out
}

/// Appends a string to a vector of strings.
pub fn push_string(out: &mut Vec<String>, item: String)
    ensures
        final(out).deep_view() == old(out).deep_view().push(item@),
{
    let ghost before = out.deep_view();
    let ghost l = item@;
    out.push(item);
    assert forall|k: int| 0 <= k < out.len() implies #[trigger] out.deep_view()[k]
        == before.push(l)[k] by {
        if k < before.len() {
            assert(out@[k] == old(out)@[k]);
        }
    }
    assert(out.deep_view() =~= before.push(l));
}

/// Appends one line to a vector of lines.
pub fn push_line(out: &mut Vec<Vec<char>>, line: Vec<char>)
    ensures
        final(out).deep_view() == old(out).deep_view().push(line@),
{
    let ghost before = out.deep_view();
    let ghost l = line@;
    out.push(line);
    assert forall|k: int| 0 <= k < out.len() implies #[trigger] out.deep_view()[k]
        == before.push(l)[k] by {
        if k < before.len() {
            assert(out@[k] == old(out)@[k]);
        }
    }
    assert(out.deep_view() =~= before.push(l));
}

/// Each line followed by `'\n'`, as one character vector.
pub fn terminated_chars(ls: &Vec<Vec<char>>) -> (r: Vec<char>)
    ensures
        r@ == terminated(ls.deep_view()),
{
    let mut r: Vec<char> = Vec::new();
    let mut k: usize = 0;
    assert(ls.deep_view().skip(0) =~= ls.deep_view());
    while k < ls.len()
        invariant
            k <= ls.len(),
            terminated(ls.deep_view()) == r@ + terminated(ls.deep_view().skip(k as int)),
        decreases ls.len() - k,
    {
        let ghost rest = ls.deep_view().skip(k as int);
        assert(rest[0] == ls[k as int]@);
        assert(rest.drop_first() =~= ls.deep_view().skip(k + 1));
        let line = &ls[k];
        let mut j: usize = 0;
        let ghost r0 = r@;
        while j < line.len()
            invariant
                j <= line.len(),
                r@ == r0 + line@.take(j as int),
            decreases line.len() - j,
        {
            r.push(line[j]);
            j += 1;
            assert(r0 + line@.take(j as int) =~= (r0 + line@.take(j - 1)).push(line@[j - 1]));
        }
        r.push('\n');
        assert(line@.take(line.len() as int) =~= line@);
        assert(r@ + terminated(ls.deep_view().skip(k + 1)) =~= r0 + (rest[0] + seq!['\n']
            + terminated(rest.drop_first())));
        k += 1;
    }
    assert(ls.deep_view().skip(k as int) =~= Seq::<Seq<char>>::empty());
    assert(r@ + Seq::<char>::empty() =~= r@);
    r
}

/// `str::split(sep)` with the empty pieces dropped.
pub fn nonempty_pieces_of(s: &Vec<char>, sep: char) -> (r: Vec<Vec<char>>)
    ensures
        r.deep_view() == nonempty_pieces(s@, sep),
{
    let mut out: Vec<Vec<char>> = Vec::new();
    let mut cur: Vec<char> = Vec::new();
    let mut i: usize = 0;
    assert(s@.skip(0) =~= s@);
    assert(out.deep_view() + pieces_from(s@, sep, cur@) =~= pieces_from(s@, sep, cur@));
    while i < s.len()
        invariant
            i <= s.len(),
            nonempty_pieces(s@, sep) == out.deep_view() + pieces_from(
                s@.skip(i as int),
                sep,
                cur@,
            ),
        decreases s.len() - i,
    {
        let ghost rest = s@.skip(i as int);
        assert(rest[0] == s@[i as int]);
        assert(rest.drop_first() =~= s@.skip(i + 1));
        if s[i] == sep {
            let ghost before = out.deep_view();
            let ghost piece = cur@;
            if cur.len() > 0 {
                push_line(&mut out, cur);
                assert(out.deep_view() =~= before + seq![piece]);
            } else {
                assert(before + Seq::<Seq<char>>::empty() =~= before);
            }
            cur = Vec::new();
            assert(nonempty_pieces(s@, sep) == out.deep_view() + pieces_from(
                s@.skip(i + 1),
                sep,
                cur@,
            )) by {
                let head: Seq<Seq<char>> = if piece.len() == 0 {
                    seq![]
                } else {
                    seq![piece]
                };
                assert(before + (head + pieces_from(s@.skip(i + 1), sep, seq![])) =~= (before
                    + head) + pieces_from(s@.skip(i + 1), sep, seq![]));
            }
        } else {
            cur.push(s[i]);
        }
        i += 1;
    }
    if cur.len() > 0 {
        let ghost before = out.deep_view();
        let ghost last = cur@;
        push_line(&mut out, cur);
        assert(out.deep_view() =~= before + seq![last]);
    } else {
        assert(out.deep_view() =~= out.deep_view() + Seq::<Seq<char>>::empty());
    }
    out
}

/// Every `from` replaced by `to`.
pub fn replace_char_exec(s: &Vec<char>, from: char, to: char) -> (r: Vec<char>)
    ensures
        r@ == replace_char(s@, from, to),
{
    let mut r: Vec<char> = Vec::new();
    let mut i: usize = 0;
    while i < s.len()
        invariant
            i <= s.len(),
            r@ == replace_char(s@.take(i as int), from, to),
        decreases s.len() - i,
    {
        r.push(if s[i] == from { to } else { s[i] });
        i += 1;
        assert(replace_char(s@.take(i as int), from, to) =~= replace_char(
            s@.take(i - 1),
            from,
            to,
        ).push(if s@[i - 1] == from { to } else { s@[i - 1] }));
    }
    assert(s@.take(s@.len() as int) =~= s@);
    r
}

} // verus!
