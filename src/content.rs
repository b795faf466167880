use vstd::prelude::*;
use crate::date::DateTime;

verus! {

/// The resolved metadata of one document.
#[derive(Debug, Clone)]
pub struct Content {
    pub title: String,
    pub description: Option<String>,
    pub slug: String,
    pub html: String,
    pub tags: Vec<String>,
    pub date: Option<DateTime>,
    pub extra: Option<frontmatter_gen::Value>,
    pub links_to: Option<Vec<String>>,
    /// The slugs of the records that link here, filled in once all records are known.
    pub back_links: Vec<String>,
    pub card_image: Option<String>,
    pub banner_image: Option<String>,
    pub authors: Vec<String>,
    pub stream: Option<String>,
}

/// Two records that agree on title, slug, body and date.
pub open spec fn same_record(a: Content, b: Content) -> bool {
    &&& a.title@ == b.title@
    &&& a.slug@ == b.slug@
    &&& a.html@ == b.html@
    &&& a.date == b.date
}

impl Content {
    /// A copy of the record that keeps title, slug, body and date exactly.
    pub fn copy(&self) -> (r: Content)
        ensures
            same_record(r, *self),
    {
        Content {
            title: self.title.clone(),
            description: self.description.clone(),
            slug: self.slug.clone(),
            html: self.html.clone(),
            tags: self.tags.clone(),
            date: self.date,
            extra: self.extra.clone(),
            links_to: self.links_to.clone(),
            back_links: self.back_links.clone(),
            card_image: self.card_image.clone(),
            banner_image: self.banner_image.clone(),
            authors: self.authors.clone(),
            stream: self.stream.clone(),
        }
    }
}

pub open spec fn slugs_of(contents: Seq<&Content>) -> Seq<Seq<char>> {
    contents.map_values(|c: &Content| c.slug@)
}

/// The first slug, scanning from `j`, that an earlier entry already has.
pub open spec fn first_repeat_from(s: Seq<Seq<char>>, j: int) -> Option<Seq<char>>
    decreases s.len() - j,
{
    if j < 0 || j >= s.len() {
        None
    } else if s.take(j).contains(s[j]) {
        Some(s[j])
    } else {
        first_repeat_from(s, j + 1)
    }
}

/// Fails with the first slug that an earlier record already has, scanning in
/// order; succeeds where all slugs differ.
pub fn check_for_duplicate_slugs(contents: &Vec<&Content>) -> (r: Result<(), String>)
    ensures
        r is Ok <==> first_repeat_from(slugs_of(contents@), 0) is None,
        r matches Err(e) ==> first_repeat_from(slugs_of(contents@), 0) == Some(e@),
{
    let ghost s = slugs_of(contents@);
    let mut j: usize = 0;
    while j < contents.len()
        invariant
            j <= contents.len(),
            s == slugs_of(contents@),
            first_repeat_from(s, 0) == first_repeat_from(s, j as int),
        decreases contents.len() - j,
    {
        let mut k: usize = 0;
        while k < j
            invariant
                k <= j < contents.len(),
                s == slugs_of(contents@),
                first_repeat_from(s, 0) == first_repeat_from(s, j as int),
                forall|a: int| 0 <= a < k ==> s[a] != s[j as int],
            decreases j - k,
        {
            if contents[k].slug == contents[j].slug {
                assert(s[k as int] == contents@[k as int].slug@);
                assert(s[j as int] == contents@[j as int].slug@);
                assert(s.take(j as int)[k as int] == s[j as int]);
                assert(s.take(j as int).contains(s[j as int]));
                return Err(contents[j].slug.clone());
            }
            k = k + 1;
        }
        assert(!s.take(j as int).contains(s[j as int]));
        j = j + 1;
    }
    Ok(())
}

/// Where exactly two records share a slug, the check reports that slug;
/// where all slugs differ, it succeeds.
pub proof fn lemma_duplicate_detection(s: Seq<Seq<char>>, i: int, j: int)
    requires
        0 <= i < j < s.len(),
        s[i] == s[j],
        forall|a: int, b: int|
            0 <= a < b < s.len() && !(a == i && b == j) ==> s[a] != s[b],
    ensures
        first_repeat_from(s, 0) == Some(s[i]),
{
    assert(s.take(j)[i] == s[j]);
    assert forall|b: int| 0 <= b < j implies !s.take(b).contains(s[b]) by {
        if s.take(b).contains(s[b]) {
            let a = choose|a: int| 0 <= a < s.take(b).len() && s.take(b)[a] == s[b];
            assert(s[a] == s[b]);
        }
    }
    lemma_no_repeat_before(s, 0, j);
}

proof fn lemma_no_repeat_before(s: Seq<Seq<char>>, k: int, j: int)
    requires
        0 <= k <= j < s.len(),
        s.take(j).contains(s[j]),
        forall|b: int| k <= b < j ==> !s.take(b).contains(s[b]),
    ensures
        first_repeat_from(s, k) == Some(s[j]),
    decreases j - k,
{
    if k < j {
        lemma_no_repeat_before(s, k + 1, j);
    }
}

/// Where all slugs differ, the check succeeds.
pub proof fn lemma_distinct_slugs_pass(s: Seq<Seq<char>>)
    requires
        forall|a: int, b: int| 0 <= a < b < s.len() ==> s[a] != s[b],
    ensures
        first_repeat_from(s, 0) is None,
{
    lemma_no_repeat_from(s, 0);
}

proof fn lemma_no_repeat_from(s: Seq<Seq<char>>, k: int)
    requires
        0 <= k,
        forall|a: int, b: int| 0 <= a < b < s.len() ==> s[a] != s[b],
    ensures
        first_repeat_from(s, k) is None,
    decreases s.len() - k,
{
    if k < s.len() {
        if s.take(k).contains(s[k]) {
            let a = choose|a: int| 0 <= a < s.take(k).len() && s.take(k)[a] == s[k];
            assert(s[a] == s[k]);
        }
        lemma_no_repeat_from(s, k + 1);
    }
}

} // verus!
