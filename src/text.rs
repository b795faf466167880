use vstd::prelude::*;

verus! {

pub open spec fn trim_start_char(s: Seq<char>, c: char) -> Seq<char>
    decreases s.len(),
{
    if s.len() > 0 && s[0] == c {
        trim_start_char(s.drop_first(), c)
    } else {
        s
    }
}

pub open spec fn trim_end_char(s: Seq<char>, c: char) -> Seq<char>
    decreases s.len(),
{
    if s.len() > 0 && s.last() == c {
        trim_end_char(s.drop_last(), c)
    } else {
        s
    }
}

/// `s` with every `c` at either end removed, as `str::trim_matches(c)` does.
pub open spec fn trim_char(s: Seq<char>, c: char) -> Seq<char> {
    trim_end_char(trim_start_char(s, c), c)
}

/// The characters with the Unicode `White_Space` property, as `char::is_whitespace` has them.
pub open spec fn is_ws(c: char) -> bool {
    ('\u{9}' <= c && c <= '\u{d}') || c == ' ' || c == '\u{85}' || c == '\u{a0}' || c
        == '\u{1680}' || ('\u{2000}' <= c && c <= '\u{200a}') || c == '\u{2028}' || c
        == '\u{2029}' || c == '\u{202f}' || c == '\u{205f}' || c == '\u{3000}'
}

pub open spec fn trim_start_ws(s: Seq<char>) -> Seq<char>
    decreases s.len(),
{
    if s.len() > 0 && is_ws(s[0]) {
        trim_start_ws(s.drop_first())
    } else {
        s
    }
}

pub open spec fn trim_end_ws(s: Seq<char>) -> Seq<char>
    decreases s.len(),
{
    if s.len() > 0 && is_ws(s.last()) {
        trim_end_ws(s.drop_last())
    } else {
        s
    }
}

/// `s` without whitespace at either end, as `str::trim` does.
pub open spec fn trim_ws(s: Seq<char>) -> Seq<char> {
    trim_end_ws(trim_start_ws(s))
}

/// The pieces of `s` between occurrences of `sep`, as `str::split(sep)` yields
/// them: one more piece than there are separators.
pub open spec fn split_on(s: Seq<char>, sep: char) -> Seq<Seq<char>>
    decreases s.len(),
{
    if s.len() == 0 {
        seq![Seq::empty()]
    } else {
        let p = split_on(s.drop_last(), sep);
        if s.last() == sep {
            p.push(Seq::empty())
        } else {
            p.update(p.len() - 1, p.last().push(s.last()))
        }
    }
}

pub open spec fn views(v: Seq<Vec<char>>) -> Seq<Seq<char>> {
    v.map_values(|x: Vec<char>| x@)
}

pub open spec fn string_views(v: Seq<String>) -> Seq<Seq<char>> {
    v.map_values(|x: String| x@)
}

pub fn is_whitespace(c: char) -> (r: bool)
    ensures
        r == is_ws(c),
{
    ('\u{9}' <= c && c <= '\u{d}') || c == ' ' || c == '\u{85}' || c == '\u{a0}' || c
        == '\u{1680}' || ('\u{2000}' <= c && c <= '\u{200a}') || c == '\u{2028}' || c
        == '\u{2029}' || c == '\u{202f}' || c == '\u{205f}' || c == '\u{3000}'
}

pub(crate) fn copy_range(s: &Vec<char>, start: usize, end: usize) -> (r: Vec<char>)
    requires
        start <= end <= s.len(),
    ensures
        r@ == s@.subrange(start as int, end as int),
{
    let mut out: Vec<char> = Vec::new();
    let mut k: usize = start;
    while k < end
        invariant
            start <= k <= end <= s.len(),
            out@ == s@.subrange(start as int, k as int),
        decreases end - k,
    {
        out.push(s[k]);
        assert(out@ =~= s@.subrange(start as int, k as int + 1));
        k = k + 1;
    }
    out
}

/// `s` with every `c` at either end removed.
pub fn trim_matching(s: &Vec<char>, c: char) -> (r: Vec<char>)
    ensures
        r@ == trim_char(s@, c),
{
    let mut start: usize = 0;
    assert(s@.subrange(0, s.len() as int) =~= s@);
    while start < s.len() && s[start] == c
        invariant
            start <= s.len(),
            trim_start_char(s@.subrange(start as int, s.len() as int), c) == trim_start_char(
                s@,
                c,
            ),
        decreases s.len() - start,
    {
        assert(s@.subrange(start as int, s.len() as int).drop_first() =~= s@.subrange(
            start as int + 1,
            s.len() as int,
        ));
        start = start + 1;
    }
    let ghost mid = s@.subrange(start as int, s.len() as int);
    let mut end: usize = s.len();
    while end > start && s[end - 1] == c
        invariant
            start <= end <= s.len(),
            trim_end_char(s@.subrange(start as int, end as int), c) == trim_end_char(mid, c),
        decreases end,
    {
        assert(s@.subrange(start as int, end as int).drop_last() =~= s@.subrange(
            start as int,
            end as int - 1,
        ));
        end = end - 1;
    }
    copy_range(s, start, end)
}

/// `s` without whitespace at either end.
pub fn trim_whitespace(s: &Vec<char>) -> (r: Vec<char>)
    ensures
        r@ == trim_ws(s@),
{
    let mut start: usize = 0;
    assert(s@.subrange(0, s.len() as int) =~= s@);
    while start < s.len() && is_whitespace(s[start])
        invariant
            start <= s.len(),
            trim_start_ws(s@.subrange(start as int, s.len() as int)) == trim_start_ws(s@),
        decreases s.len() - start,
    {
        assert(s@.subrange(start as int, s.len() as int).drop_first() =~= s@.subrange(
            start as int + 1,
            s.len() as int,
        ));
        start = start + 1;
    }
    let ghost mid = s@.subrange(start as int, s.len() as int);
    let mut end: usize = s.len();
    while end > start && is_whitespace(s[end - 1])
        invariant
            start <= end <= s.len(),
            trim_end_ws(s@.subrange(start as int, end as int)) == trim_end_ws(mid),
        decreases end,
    {
        assert(s@.subrange(start as int, end as int).drop_last() =~= s@.subrange(
            start as int,
            end as int - 1,
        ));
        end = end - 1;
    }
    copy_range(s, start, end)
}

proof fn lemma_split_nonempty(s: Seq<char>, sep: char)
    ensures
        split_on(s, sep).len() >= 1,
    decreases s.len(),
{
    if s.len() > 0 {
        lemma_split_nonempty(s.drop_last(), sep);
    }
}

/// The pieces of `s` between occurrences of `sep`.
pub fn split_chars(s: &Vec<char>, sep: char) -> (r: Vec<Vec<char>>)
    ensures
        views(r@) == split_on(s@, sep),
{
    let mut pieces: Vec<Vec<char>> = Vec::new();
    pieces.push(Vec::new());
    assert(views(pieces@) =~= split_on(s@.take(0), sep));
    let mut i: usize = 0;
    while i < s.len()
        invariant
            i <= s.len(),
            pieces.len() >= 1,
            views(pieces@) == split_on(s@.take(i as int), sep),
        decreases s.len() - i,
    {
        let c = s[i];
        let ghost before = split_on(s@.take(i as int), sep);
        assert(s@.take(i as int + 1).drop_last() =~= s@.take(i as int));
        if c == sep {
            pieces.push(Vec::new());
            assert(views(pieces@) =~= before.push(Seq::empty()));
        } else {
            let mut last = pieces.pop().unwrap();
            last.push(c);
            pieces.push(last);
            assert(views(pieces@) =~= before.update(before.len() - 1, before.last().push(c)));
        }
        i = i + 1;
    }
    assert(s@.take(s.len() as int) =~= s@);
    pieces
}

/// Whether two character sequences are equal.
pub fn same_chars(a: &Vec<char>, b: &Vec<char>) -> (r: bool)
    ensures
        r == (a@ == b@),
{
    if a.len() != b.len() {
        return false;
    }
    let mut i: usize = 0;
    while i < a.len()
        invariant
            i <= a.len() == b.len(),
            a@.take(i as int) == b@.take(i as int),
        decreases a.len() - i,
    {
        if a[i] != b[i] {
            assert(a@[i as int] != b@[i as int]);
            return false;
        }
        assert(a@.take(i as int + 1) =~= a@.take(i as int).push(a@[i as int]));
        assert(b@.take(i as int + 1) =~= b@.take(i as int).push(b@[i as int]));
        i = i + 1;
    }
    assert(a@ =~= a@.take(a.len() as int));
    assert(b@ =~= b@.take(b.len() as int));
    true
}

/// `s` without one `'\r'` at its end.
pub open spec fn strip_cr(s: Seq<char>) -> Seq<char> {
    if s.len() > 0 && s.last() == '\r' {
        s.drop_last()
    } else {
        s
    }
}

/// The lines of a text as `str::lines` yields them: split at `'\n'`, each
/// line without the `'\r'` of a `"\r\n"` ending, and no line after a final
/// line ending.
pub open spec fn lines_of(s: Seq<char>) -> Seq<Seq<char>> {
    let p = split_on(s, '\n');
    let ended = p.drop_last().map_values(|l: Seq<char>| strip_cr(l));
    if p.last().len() == 0 {
        ended
    } else {
        ended.push(p.last())
    }
}

/// The lines joined with `'\n'` between them.
pub open spec fn join_lines(ls: Seq<Seq<char>>) -> Seq<char>
    decreases ls.len(),
{
    if ls.len() == 0 {
        Seq::empty()
    } else if ls.len() == 1 {
        ls[0]
    } else {
        join_lines(ls.drop_last()) + seq!['\n'] + ls.last()
    }
}

/// Every occurrence of `p` in `s` removed, scanning from the left, as
/// `str::replace(p, "")` does for a non-empty `p`.
pub open spec fn remove_all(s: Seq<char>, p: Seq<char>) -> Seq<char>
    decreases s.len(),
{
    if p.len() == 0 || s.len() < p.len() {
        s
    } else if s.take(p.len() as int) == p {
        remove_all(s.skip(p.len() as int), p)
    } else {
        seq![s[0]] + remove_all(s.skip(1), p)
    }
}

fn strip_cr_exec(s: Vec<char>) -> (r: Vec<char>)
    ensures
        r@ == strip_cr(s@),
{
    let mut s = s;
    if s.len() > 0 && s[s.len() - 1] == '\r' {
        s.pop();
    }
    s
}

/// The lines of a text.
pub fn lines(s: &Vec<char>) -> (r: Vec<Vec<char>>)
    ensures
        views(r@) == lines_of(s@),
{
    let mut pieces = split_chars(s, '\n');
    proof {
        lemma_split_nonempty(s@, '\n');
    }
    let last = pieces.pop().unwrap();
    let ghost p = split_on(s@, '\n');
    assert(views(pieces@) =~= p.drop_last());
    let mut out: Vec<Vec<char>> = Vec::new();
    let mut i: usize = 0;
    while i < pieces.len()
        invariant
            i <= pieces.len(),
            views(pieces@) == p.drop_last(),
            views(out@) =~= p.drop_last().take(i as int).map_values(|l: Seq<char>| strip_cr(l)),
        decreases pieces.len() - i,
    {
        let line = strip_cr_exec(copy_range(&pieces[i], 0, pieces[i].len()));
        assert(pieces@[i as int]@.subrange(0, pieces@[i as int]@.len() as int) =~= pieces@[i as int]@);
        let ghost old_out = out@;
        let ghost q = p.drop_last();
        assert(q[i as int] == pieces@[i as int]@);
        out.push(line);
        assert(views(out@) =~= views(old_out).push(strip_cr(q[i as int])));
        assert(q.take(i as int + 1).map_values(|l: Seq<char>| strip_cr(l)) =~= q.take(
            i as int,
        ).map_values(|l: Seq<char>| strip_cr(l)).push(strip_cr(q[i as int])));
        assert(views(out@) =~= p.drop_last().take(i as int + 1).map_values(
            |l: Seq<char>| strip_cr(l),
        ));
        i = i + 1;
    }
    assert(p.drop_last().take(pieces.len() as int) =~= p.drop_last());
    if last.len() > 0 {
        out.push(last);
        assert(views(out@) =~= lines_of(s@));
    }
    out
}

/// The lines joined with `'\n'` between them.
pub fn join_with_newlines(ls: &Vec<Vec<char>>) -> (r: Vec<char>)
    ensures
        r@ == join_lines(views(ls@)),
{
    let mut out: Vec<char> = Vec::new();
    let mut i: usize = 0;
    while i < ls.len()
        invariant
            i <= ls.len(),
            out@ == join_lines(views(ls@).take(i as int)),
        decreases ls.len() - i,
    {
        let ghost before = out@;
        if i > 0 {
            out.push('\n');
        }
        let line = &ls[i];
        let mut k: usize = 0;
        while k < line.len()
            invariant
                k <= line.len(),
                i > 0 ==> out@ == before + seq!['\n'] + line@.take(k as int),
                i == 0 ==> out@ == before + line@.take(k as int),
            decreases line.len() - k,
        {
            out.push(line[k]);
            assert(line@.take(k as int + 1) =~= line@.take(k as int).push(line@[k as int]));
            assert(out@ =~= if i > 0 {
                before + seq!['\n'] + line@.take(k as int + 1)
            } else {
                before + line@.take(k as int + 1)
            });
            k = k + 1;
        }
        assert(line@.take(line.len() as int) =~= line@);
        let ghost t = views(ls@).take(i as int + 1);
        assert(t.drop_last() =~= views(ls@).take(i as int));
        assert(t.last() == line@);
        if i == 0 {
            assert(before =~= Seq::<char>::empty());
            assert(out@ =~= line@);
        }
        i = i + 1;
    }
    assert(views(ls@).take(ls.len() as int) =~= views(ls@));
    out
}

fn matches_at(s: &Vec<char>, i: usize, p: &Vec<char>) -> (r: bool)
    requires
        i <= s.len(),
    ensures
        r == (p.len() <= s.len() - i && s@.skip(i as int).take(p.len() as int) == p@),
{
    if p.len() > s.len() - i {
        return false;
    }
    let mut k: usize = 0;
    while k < p.len()
        invariant
            k <= p.len() <= s.len() - i,
            forall|j: int| 0 <= j < k ==> s@[i + j] == p@[j],
        decreases p.len() - k,
    {
        if s[i + k] != p[k] {
            assert(s@.skip(i as int).take(p.len() as int)[k as int] != p@[k as int]);
            return false;
        }
        k = k + 1;
    }
    assert(s@.skip(i as int).take(p.len() as int) =~= p@);
    true
}

/// `s` with every occurrence of `p` removed.
pub fn remove_every(s: &Vec<char>, p: &Vec<char>) -> (r: Vec<char>)
    ensures
        r@ == remove_all(s@, p@),
{
    let mut out: Vec<char> = Vec::new();
    let mut i: usize = 0;
    assert(s@.skip(0) =~= s@);
    while i < s.len()
        invariant
            i <= s.len(),
            out@ + remove_all(s@.skip(i as int), p@) == remove_all(s@, p@),
        decreases s.len() - i,
    {
        let ghost rest = s@.skip(i as int);
        if p.len() > 0 && matches_at(s, i, p) {
            assert(rest.skip(p.len() as int) =~= s@.skip(i + p.len()));
            i = i + p.len();
        } else {
            assert(rest.skip(1) =~= s@.skip(i as int + 1));
            proof {
                if p@.len() == 0 || rest.len() < p@.len() {
                    assert(remove_all(rest, p@) == rest);
                    if rest.len() > 0 {
                        assert(remove_all(rest.skip(1), p@) == rest.skip(1));
                        assert(rest =~= seq![rest[0]] + rest.skip(1));
                    }
                }
            }
            out.push(s[i]);
            assert(out@ + remove_all(s@.skip(i as int + 1), p@) =~= remove_all(s@, p@));
            i = i + 1;
        }
    }
    assert(s@.skip(s.len() as int) =~= Seq::<char>::empty());
    assert(out@ + Seq::<char>::empty() =~= out@);
    out
}

} // verus!
