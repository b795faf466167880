use vstd::prelude::*;
use crate::date::{DateTime, earlier, is_newer, newer};

verus! {

/// `a` comes strictly before `b` in code-point order, as `str`'s `<` has it.
pub open spec fn text_less(a: Seq<char>, b: Seq<char>) -> bool
    decreases a.len(),
{
    if a.len() == 0 {
        b.len() > 0
    } else if b.len() == 0 {
        false
    } else if a[0] != b[0] {
        a[0] < b[0]
    } else {
        text_less(a.drop_first(), b.drop_first())
    }
}

proof fn lemma_text_less_strict(a: Seq<char>, b: Seq<char>, c: Seq<char>)
    ensures
        !text_less(a, a),
        text_less(a, b) && text_less(b, c) ==> text_less(a, c),
        a != b ==> text_less(a, b) || text_less(b, a),
    decreases a.len(),
{
    if a.len() > 0 {
        lemma_text_less_strict(a.drop_first(), a.drop_first(), a.drop_first());
        if b.len() > 0 {
            let c2 = if c.len() > 0 {
                c.drop_first()
            } else {
                b.drop_first()
            };
            lemma_text_less_strict(a.drop_first(), b.drop_first(), c2);
        }
        if b.len() > 0 && a != b && a[0] == b[0] {
            assert(a.drop_first() != b.drop_first()) by {
                if a.drop_first() == b.drop_first() {
                    assert(a =~= seq![a[0]] + a.drop_first());
                    assert(b =~= seq![b[0]] + b.drop_first());
                }
            }
        }
    } else if b.len() == 0 {
        assert(a =~= b);
    }
}

/// Sort keys: one per item, with the order they are sorted in.
pub enum Keys {
    /// Newest first, undated items last.
    Dates(Vec<Option<DateTime>>),
    /// Largest count first.
    Counts(Vec<usize>),
    /// Names in ascending order.
    NamesAsc(Vec<Vec<char>>),
    /// Names in descending order.
    NamesDesc(Vec<Vec<char>>),
}

pub enum KeysView {
    Dates(Seq<Option<DateTime>>),
    Counts(Seq<int>),
    NamesAsc(Seq<Seq<char>>),
    NamesDesc(Seq<Seq<char>>),
}

impl View for Keys {
    type V = KeysView;

    open spec fn view(&self) -> KeysView {
        match self {
            Keys::Dates(d) => KeysView::Dates(d@),
            Keys::Counts(c) => KeysView::Counts(c@.map_values(|n: usize| n as int)),
            Keys::NamesAsc(n) => KeysView::NamesAsc(n@.map_values(|t: Vec<char>| t@)),
            Keys::NamesDesc(n) => KeysView::NamesDesc(n@.map_values(|t: Vec<char>| t@)),
        }
    }
}

impl KeysView {
    pub open spec fn len(self) -> int {
        match self {
            KeysView::Dates(d) => d.len() as int,
            KeysView::Counts(c) => c.len() as int,
            KeysView::NamesAsc(n) => n.len() as int,
            KeysView::NamesDesc(n) => n.len() as int,
        }
    }

    /// Item `a` goes strictly before item `b`.
    pub open spec fn ahead(self, a: int, b: int) -> bool {
        match self {
            KeysView::Dates(d) => newer(d[a], d[b]),
            KeysView::Counts(c) => c[a] > c[b],
            KeysView::NamesAsc(n) => text_less(n[a], n[b]),
            KeysView::NamesDesc(n) => text_less(n[b], n[a]),
        }
    }
}

/// `p` lists each of `0..n` once.
pub open spec fn is_permutation(p: Seq<int>, n: int) -> bool {
    &&& p.len() == n
    &&& forall|i: int| 0 <= i < p.len() ==> 0 <= #[trigger] p[i] < n
    &&& forall|i: int, j: int| 0 <= i < j < p.len() ==> p[i] != p[j]
}

/// Taking items in the order `p` puts none behind an item it goes before,
/// and keeps items that are level in the order they were given.
pub open spec fn stably_sorted(k: KeysView, p: Seq<int>) -> bool {
    forall|a: int, c: int|
        0 <= a < c < p.len() ==> !k.ahead(#[trigger] p[c], #[trigger] p[a]) && (!k.ahead(p[a], p[c])
            ==> p[a] < p[c])
}

pub open spec fn indices(v: Seq<usize>) -> Seq<int> {
    v.map_values(|i: usize| i as int)
}

proof fn lemma_weak_order(k: KeysView, a: int, b: int, c: int)
    requires
        0 <= a < k.len(),
        0 <= b < k.len(),
        0 <= c < k.len(),
    ensures
        !k.ahead(a, a),
        k.ahead(a, b) && k.ahead(b, c) ==> k.ahead(a, c),
        k.ahead(a, c) ==> k.ahead(a, b) || k.ahead(b, c),
{
    match k {
        KeysView::Dates(d) => {},
        KeysView::Counts(n) => {},
        KeysView::NamesAsc(n) => {
            lemma_text_less_strict(n[a], n[b], n[c]);
            lemma_text_less_strict(n[b], n[a], n[c]);
            lemma_text_less_strict(n[a], n[c], n[b]);
            lemma_text_less_strict(n[b], n[c], n[a]);
        },
        KeysView::NamesDesc(n) => {
            lemma_text_less_strict(n[c], n[b], n[a]);
            lemma_text_less_strict(n[b], n[a], n[c]);
            lemma_text_less_strict(n[c], n[a], n[b]);
            lemma_text_less_strict(n[b], n[c], n[a]);
            lemma_text_less_strict(n[a], n[a], n[a]);
        },
    }
}

fn chars_less(a: &Vec<char>, b: &Vec<char>) -> (r: bool)
    ensures
        r == text_less(a@, b@),
{
    let mut i: usize = 0;
    assert(a@.skip(0) =~= a@);
    assert(b@.skip(0) =~= b@);
    while i < a.len() && i < b.len() && a[i] == b[i]
        invariant
            i <= a.len(),
            i <= b.len(),
            text_less(a@, b@) == text_less(a@.skip(i as int), b@.skip(i as int)),
        decreases a.len() - i,
    {
        assert(a@.skip(i as int).drop_first() =~= a@.skip(i as int + 1));
        assert(b@.skip(i as int).drop_first() =~= b@.skip(i as int + 1));
        i = i + 1;
    }
    if i == a.len() {
        i < b.len()
    } else if i == b.len() {
        false
    } else {
        a[i] < b[i]
    }
}

fn key_len(k: &Keys) -> (r: usize)
    ensures
        r == k@.len(),
{
    match k {
        Keys::Dates(d) => d.len(),
        Keys::Counts(c) => c.len(),
        Keys::NamesAsc(n) => n.len(),
        Keys::NamesDesc(n) => n.len(),
    }
}

fn is_ahead(k: &Keys, a: usize, b: usize) -> (r: bool)
    requires
        a < k@.len(),
        b < k@.len(),
    ensures
        r == k@.ahead(a as int, b as int),
{
    match k {
        Keys::Dates(d) => is_newer(d[a], d[b]),
        Keys::Counts(c) => c[a] > c[b],
        Keys::NamesAsc(n) => chars_less(&n[a], &n[b]),
        Keys::NamesDesc(n) => chars_less(&n[b], &n[a]),
    }
}

proof fn lemma_insert_sorted(k: KeysView, p: Seq<int>, pos: int, x: int)
    requires
        0 <= pos <= p.len(),
        0 <= x < k.len(),
        forall|i: int| 0 <= i < p.len() ==> 0 <= #[trigger] p[i] < x,
        stably_sorted(k, p),
        forall|a: int| 0 <= a < pos ==> !k.ahead(x, #[trigger] p[a]),
        pos < p.len() ==> k.ahead(x, p[pos]),
    ensures
        stably_sorted(k, p.insert(pos, x)),
{
    let q = p.insert(pos, x);
    assert forall|a: int, c: int| 0 <= a < c < q.len() implies !k.ahead(
        #[trigger] q[c],
        #[trigger] q[a],
    ) && (!k.ahead(q[a], q[c]) ==> q[a] < q[c]) by {
        if c == pos {
            assert(q[a] == p[a]);
        } else if a == pos {
            assert(q[c] == p[c - 1]);
            assert(pos < p.len());
            lemma_weak_order(k, x, p[c - 1], p[pos]);
            lemma_weak_order(k, p[c - 1], x, p[pos]);
            if c - 1 > pos {
                assert(!k.ahead(p[c - 1], p[pos]));
            }
        } else {
            let a2 = if a < pos { a } else { a - 1 };
            let c2 = if c < pos { c } else { c - 1 };
            assert(q[a] == p[a2] && q[c] == p[c2]);
        }
    }
}

/// The order that sorts the items by their keys, keeping level items in
/// the order they were given.
pub fn stable_order(k: &Keys) -> (r: Vec<usize>)
    ensures
        is_permutation(indices(r@), k@.len()),
        stably_sorted(k@, indices(r@)),
{
    let n = key_len(k);
    let mut ord: Vec<usize> = Vec::new();
    let mut x: usize = 0;
    while x < n
        invariant
            x <= n == k@.len(),
            ord.len() == x,
            forall|i: int| 0 <= i < x ==> 0 <= #[trigger] indices(ord@)[i] < x,
            forall|i: int, j: int| 0 <= i < j < x ==> indices(ord@)[i] != indices(ord@)[j],
            stably_sorted(k@, indices(ord@)),
        decreases n - x,
    {
        proof {
            assert forall|i: int| 0 <= i < x implies #[trigger] ord@[i] < x by {
                assert(indices(ord@)[i] < x);
            }
        }
        let mut pos: usize = 0;
        while pos < ord.len() && !is_ahead(k, x, ord[pos])
            invariant
                pos <= ord.len() == x < n == k@.len(),
                forall|i: int| 0 <= i < x ==> 0 <= #[trigger] indices(ord@)[i] < x,
                forall|i: int| 0 <= i < x ==> #[trigger] ord@[i] < x,
                forall|a: int| 0 <= a < pos ==> !k@.ahead(x as int, #[trigger] indices(ord@)[a]),
            decreases ord.len() - pos,
        {
            pos = pos + 1;
        }
        let ghost p = indices(ord@);
        proof {
            lemma_insert_sorted(k@, p, pos as int, x as int);
        }
        ord.insert(pos, x);
        assert(indices(ord@) =~= p.insert(pos as int, x as int));
        x = x + 1;
    }
    ord
}

} // verus!
