use vstd::prelude::*;
use crate::chars::chars_of;
use crate::content::{Content, same_record};
use crate::date::DateTime;
use crate::order::{Keys, KeysView, indices, is_permutation, stable_order, stably_sorted};

verus! {

/// What documents are grouped by, which also decides the order of groups.
#[derive(Clone, Copy, Debug, PartialEq, Eq, Structural)]
pub enum Kind {
    Tag,
    Archive,
    Author,
    Stream,
}

/// Documents grouped under keys, in the order the keys were first used.
pub struct GroupedContent {
    pub kind: Kind,
    pub map: Vec<(String, Vec<Content>)>,
}

pub open spec fn group_keys(m: Seq<(String, Vec<Content>)>) -> Seq<Seq<char>> {
    m.map_values(|e: (String, Vec<Content>)| e.0@)
}

/// The first position from `i` that holds `key`.
pub open spec fn key_index_from(ks: Seq<Seq<char>>, key: Seq<char>, i: int) -> Option<int>
    decreases ks.len() - i,
{
    if i < 0 || i >= ks.len() {
        None
    } else if ks[i] == key {
        Some(i)
    } else {
        key_index_from(ks, key, i + 1)
    }
}

/// The dates of a group's documents.
pub open spec fn date_keys(b: Seq<Content>) -> KeysView {
    KeysView::Dates(b.map_values(|c: Content| c.date))
}

/// How the groups are ordered: tags by size, largest first; archive periods
/// by name, descending; authors and streams by name, ascending.
pub open spec fn group_order(kind: Kind, m: Seq<(String, Vec<Content>)>) -> KeysView {
    match kind {
        Kind::Tag => KeysView::Counts(m.map_values(|e: (String, Vec<Content>)| e.1@.len() as int)),
        Kind::Archive => KeysView::NamesDesc(group_keys(m)),
        _ => KeysView::NamesAsc(group_keys(m)),
    }
}

/// `r` is `m` sorted for reading: the groups taken in order `p`, and the
/// documents of group `g` in order `q[g]`, newest first.
pub open spec fn sorted_groups(
    kind: Kind,
    m: Seq<(String, Vec<Content>)>,
    r: Seq<(String, Vec<Content>)>,
    p: Seq<int>,
    q: Seq<Seq<int>>,
) -> bool {
    &&& is_permutation(p, m.len() as int)
    &&& stably_sorted(group_order(kind, m), p)
    &&& r.len() == m.len()
    &&& q.len() == m.len()
    &&& forall|g: int|
        0 <= g < r.len() ==> {
            let b = #[trigger] m[p[g]].1@;
            &&& r[g].0@ == m[p[g]].0@
            &&& r[g].1@.len() == b.len()
            &&& is_permutation(q[g], b.len() as int)
            &&& stably_sorted(date_keys(b), q[g])
            &&& forall|k: int| 0 <= k < b.len() ==> same_record(#[trigger] r[g].1@[k], b[q[g][k]])
        }
}

impl GroupedContent {
    /// Keys are not repeated.
    pub open spec fn wf(&self) -> bool {
        forall|a: int, b: int|
            0 <= a < b < self.map@.len() ==> group_keys(self.map@)[a] != group_keys(self.map@)[b]
    }

    /// An empty grouping of the given kind.
    pub fn new(kind: Kind) -> (r: Self)
        ensures
            r.kind == kind,
            r.map@.len() == 0,
            r.wf(),
    {
        GroupedContent { kind, map: Vec::new() }
    }

    /// Adds a document under `key`, starting a new group at the end if the
    /// key is new.
    pub fn entry(&mut self, key: String, content: Content)
        requires
            old(self).wf(),
        ensures
            final(self).wf(),
            final(self).kind == old(self).kind,
            key_index_from(group_keys(old(self).map@), key@, 0) matches Some(i) ==> {
                &&& final(self).map@.len() == old(self).map@.len()
                &&& final(self).map@[i].0 == old(self).map@[i].0
                &&& final(self).map@[i].1@ == old(self).map@[i].1@.push(content)
                &&& forall|j: int|
                    0 <= j < old(self).map@.len() && j != i ==> #[trigger] final(self).map@[j]
                        == old(self).map@[j]
            },
            key_index_from(group_keys(old(self).map@), key@, 0) is None ==> {
                &&& final(self).map@.len() == old(self).map@.len() + 1
                &&& final(self).map@.last().0 == key
                &&& final(self).map@.last().1@ == seq![content]
                &&& forall|j: int|
                    0 <= j < old(self).map@.len() ==> #[trigger] final(self).map@[j]
                        == old(self).map@[j]
            },
    {
        let ghost ks = group_keys(self.map@);
        let ghost before = self.map@;
        let mut i: usize = 0;
        while i < self.map.len()
            invariant
                i <= self.map.len(),
                self.map@ == before,
                before == old(self).map@,
                old(self).wf(),
                self.kind == old(self).kind,
                ks == group_keys(self.map@),
                key_index_from(ks, key@, 0) == key_index_from(ks, key@, i as int),
            decreases self.map.len() - i,
        {
            if self.map[i].0 == key {
                assert(ks[i as int] == key@);
                let (k, mut bucket) = self.map.remove(i);
                let ghost old_bucket = bucket@;
                bucket.push(content);
                let ghost entry = (k, bucket);
                self.map.insert(i, (k, bucket));
                assert(self.map@ =~= before.update(i as int, entry));
                assert(group_keys(self.map@) =~= ks);
                assert(ks == group_keys(old(self).map@));
                assert(old(self).wf());
                assert(self.wf());
                return;
            }
            i = i + 1;
        }
        let mut bucket: Vec<Content> = Vec::new();
        bucket.push(content);
        self.map.push((key, bucket));
        assert(group_keys(self.map@) =~= ks.push(key@));
        proof {
            assert forall|a: int| 0 <= a < ks.len() implies ks[a] != key@ by {
                lemma_key_absent(ks, key@, 0, a);
            }
        }
    }
}

/// The documents of a group in newest-first order, with the order taken.
fn sorted_bucket(b: &Vec<Content>) -> (r: (Vec<Content>, Ghost<Seq<int>>))
    ensures
        r.0@.len() == b@.len(),
        is_permutation(r.1@, b@.len() as int),
        stably_sorted(date_keys(b@), r.1@),
        forall|k: int| 0 <= k < b@.len() ==> same_record(#[trigger] r.0@[k], b@[r.1@[k]]),
{
    let mut dates: Vec<Option<DateTime>> = Vec::new();
    let mut i: usize = 0;
    while i < b.len()
        invariant
            i <= b.len(),
            dates@ =~= b@.take(i as int).map_values(|c: Content| c.date),
        decreases b.len() - i,
    {
        dates.push(b[i].date);
        assert(b@.take(i as int + 1).map_values(|c: Content| c.date) =~= b@.take(
            i as int,
        ).map_values(|c: Content| c.date).push(b@[i as int].date));
        i = i + 1;
    }
    assert(b@.take(b.len() as int) =~= b@);
    let keys = Keys::Dates(dates);
    assert(keys@ == date_keys(b@));
    let ord = stable_order(&keys);
    let ghost q = indices(ord@);
    let mut out: Vec<Content> = Vec::new();
    let mut k: usize = 0;
    while k < ord.len()
        invariant
            k <= ord.len() == b.len(),
            q == indices(ord@),
            is_permutation(q, b@.len() as int),
            out@.len() == k,
            forall|j: int| 0 <= j < k ==> same_record(#[trigger] out@[j], b@[q[j]]),
        decreases ord.len() - k,
    {
        assert(0 <= q[k as int] < b@.len());
        out.push(b[ord[k]].copy());
        k = k + 1;
    }
    (out, Ghost(q))
}

impl GroupedContent {
    fn order_keys(&self) -> (r: Keys)
        ensures
            r@ == group_order(self.kind, self.map@),
    {
        match self.kind {
            Kind::Tag => {
                let mut counts: Vec<usize> = Vec::new();
                let mut i: usize = 0;
                while i < self.map.len()
                    invariant
                        i <= self.map.len(),
                        self.kind == Kind::Tag,
                        counts@.map_values(|n: usize| n as int) =~= self.map@.take(
                            i as int,
                        ).map_values(|e: (String, Vec<Content>)| e.1@.len() as int),
                    decreases self.map.len() - i,
                {
                    counts.push(self.map[i].1.len());
                    assert(self.map@.take(i as int + 1).map_values(
                        |e: (String, Vec<Content>)| e.1@.len() as int,
                    ) =~= self.map@.take(i as int).map_values(
                        |e: (String, Vec<Content>)| e.1@.len() as int,
                    ).push(self.map@[i as int].1@.len() as int));
                    i = i + 1;
                }
                assert(self.map@.take(self.map.len() as int) =~= self.map@);
                Keys::Counts(counts)
            },
            _ => {
                let mut names: Vec<Vec<char>> = Vec::new();
                let mut i: usize = 0;
                while i < self.map.len()
                    invariant
                        i <= self.map.len(),
                        names@.map_values(|t: Vec<char>| t@) =~= group_keys(
                            self.map@.take(i as int),
                        ),
                    decreases self.map.len() - i,
                {
                    names.push(chars_of(self.map[i].0.as_str()));
                    assert(group_keys(self.map@.take(i as int + 1)) =~= group_keys(
                        self.map@.take(i as int),
                    ).push(self.map@[i as int].0@));
                    i = i + 1;
                }
                assert(self.map@.take(self.map.len() as int) =~= self.map@);
                if self.kind == Kind::Archive {
                    Keys::NamesDesc(names)
                } else {
                    Keys::NamesAsc(names)
                }
            },
        }
    }

    /// The groups in reading order with their documents newest first
    /// (undated last, ties kept in insertion order). Tags come largest group
    /// first, archive periods by name descending, authors and streams by name
    /// ascending; groups that are level keep the order their keys were first
    /// used in.
    pub fn iter(&self) -> (r: Vec<(String, Vec<Content>)>)
        ensures
            exists|p: Seq<int>, q: Seq<Seq<int>>| sorted_groups(self.kind, self.map@, r@, p, q),
    {
        let keys = self.order_keys();
        let gord = stable_order(&keys);
        let ghost p = indices(gord@);
        let ghost m = self.map@;
        let mut out: Vec<(String, Vec<Content>)> = Vec::new();
        let ghost mut qs: Seq<Seq<int>> = Seq::empty();
        let mut g: usize = 0;
        while g < gord.len()
            invariant
                g <= gord.len() == m.len(),
                m == self.map@,
                p == indices(gord@),
                is_permutation(p, m.len() as int),
                out@.len() == g,
                qs.len() == g,
                forall|h: int|
                    0 <= h < g ==> {
                        let b = #[trigger] m[p[h]].1@;
                        &&& out@[h].0@ == m[p[h]].0@
                        &&& out@[h].1@.len() == b.len()
                        &&& is_permutation(qs[h], b.len() as int)
                        &&& stably_sorted(date_keys(b), qs[h])
                        &&& forall|k: int|
                            0 <= k < b.len() ==> same_record(#[trigger] out@[h].1@[k], b[qs[h][k]])
                    },
            decreases gord.len() - g,
        {
            let gi = gord[g];
            assert(0 <= p[g as int] < m.len());
            let (sorted, Ghost(qg)) = sorted_bucket(&self.map[gi].1);
            let name = self.map[gi].0.clone();
            out.push((name, sorted));
            proof {
                qs = qs.push(qg);
            }
            g = g + 1;
        }
        assert(sorted_groups(self.kind, m, out@, p, qs));
        out
    }
}

proof fn lemma_key_absent(ks: Seq<Seq<char>>, key: Seq<char>, i: int, a: int)
    requires
        0 <= i <= a < ks.len(),
        key_index_from(ks, key, i) is None,
    ensures
        ks[a] != key,
    decreases a - i,
{
    if i < a {
        lemma_key_absent(ks, key, i + 1, a);
    }
}

} // verus!
