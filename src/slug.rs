use vstd::prelude::*;
use vstd::utf8::is_ascii_chars;
use crate::chars::{chars_of, string_from};
use crate::text::{trim_char, trim_end_char, trim_start_char, trim_matching};

verus! {

/// What canonical decomposition (NFD) makes of a text.
pub uninterp spec fn nfd_of(s: Seq<char>) -> Seq<char>;

/// What `str::to_lowercase` makes of a text.
pub uninterp spec fn lowercase_of(s: Seq<char>) -> Seq<char>;

pub open spec fn is_slug_char(c: char) -> bool {
    ('a' <= c && c <= 'z') || ('0' <= c && c <= '9')
}

pub open spec fn ascii_lower_char(c: char) -> char {
    if 'A' <= c && c <= 'Z' {
        (((c as u8) + 32) as u8) as char
    } else {
        c
    }
}

pub open spec fn ascii_lower(s: Seq<char>) -> Seq<char> {
    s.map_values(|c: char| ascii_lower_char(c))
}

/// Each maximal run of characters outside `[a-z0-9]` replaced by one hyphen.
pub open spec fn collapse_runs(s: Seq<char>) -> Seq<char>
    decreases s.len(),
{
    if s.len() == 0 {
        Seq::empty()
    } else if is_slug_char(s.last()) {
        collapse_runs(s.drop_last()).push(s.last())
    } else if s.len() >= 2 && !is_slug_char(s[s.len() - 2]) {
        collapse_runs(s.drop_last())
    } else {
        collapse_runs(s.drop_last()).push('-')
    }
}

/// The slug of a text that is already decomposed and lowercased.
pub open spec fn slug_text(s: Seq<char>) -> Seq<char> {
    trim_char(collapse_runs(s), '-')
}

/// The slug of any text.
pub open spec fn slug_of(s: Seq<char>) -> Seq<char> {
    if is_ascii_chars(s) {
        slug_text(ascii_lower(s))
    } else {
        slug_text(lowercase_of(nfd_of(s)))
    }
}

/// Relies on `UnicodeNormalization::nfd` of unicode-normalization: the result
/// depends on the characters alone.
#[verifier::external_body]
fn decompose(s: &str) -> (r: String)
    ensures
        r@ == nfd_of(s@),
{
    unicode_normalization::UnicodeNormalization::nfd(s).collect::<String>()
}

/// Relies on `str::to_lowercase`: the result depends on the characters alone.
#[verifier::external_body]
fn lowercase(s: &str) -> (r: String)
    ensures
        r@ == lowercase_of(s@),
{
    s.to_lowercase()
}

proof fn lemma_collapse_step(s: Seq<char>, i: int)
    requires
        0 <= i < s.len(),
    ensures
        collapse_runs(s.take(i + 1)) == if is_slug_char(s[i]) {
            collapse_runs(s.take(i)).push(s[i])
        } else if i >= 1 && !is_slug_char(s[i - 1]) {
            collapse_runs(s.take(i))
        } else {
            collapse_runs(s.take(i)).push('-')
        },
{
    assert(s.take(i + 1).drop_last() =~= s.take(i));
}

fn collapse(s: &Vec<char>) -> (r: Vec<char>)
    ensures
        r@ == collapse_runs(s@),
{
    let mut out: Vec<char> = Vec::new();
    let mut i: usize = 0;
    while i < s.len()
        invariant
            i <= s.len(),
            out@ == collapse_runs(s@.take(i as int)),
        decreases s.len() - i,
    {
        let c = s[i];
        proof {
            lemma_collapse_step(s@, i as int);
        }
        if ('a' <= c && c <= 'z') || ('0' <= c && c <= '9') {
            out.push(c);
        } else if i >= 1 && !(('a' <= s[i - 1] && s[i - 1] <= 'z') || ('0' <= s[i - 1] && s[i
            - 1] <= '9')) {
        } else {
            out.push('-');
        }
        i = i + 1;
    }
    assert(s@.take(s.len() as int) =~= s@);
    out
}

fn ascii_lowercase(s: &Vec<char>) -> (r: Vec<char>)
    ensures
        r@ == ascii_lower(s@),
{
    let mut out: Vec<char> = Vec::new();
    let mut i: usize = 0;
    while i < s.len()
        invariant
            i <= s.len(),
            out@ == ascii_lower(s@.take(i as int)),
        decreases s.len() - i,
    {
        let c = s[i];
        let l = if 'A' <= c && c <= 'Z' {
            let b: u8 = c as u8;
            (b + 32) as char
        } else {
            c
        };
        out.push(l);
        assert(out@ =~= ascii_lower(s@.take(i as int + 1)));
        i = i + 1;
    }
    assert(s@.take(s.len() as int) =~= s@);
    out
}

pub open spec fn slug_alphabet(s: Seq<char>) -> bool {
    forall|i: int| 0 <= i < s.len() ==> is_slug_char(#[trigger] s[i]) || s[i] == '-'
}

pub open spec fn no_double_hyphen(s: Seq<char>) -> bool {
    forall|i: int| 0 <= i < s.len() - 1 ==> !(#[trigger] s[i] == '-' && s[i + 1] == '-')
}

/// A well-formed slug: ASCII lowercase letters, digits and single hyphens,
/// with no hyphen at either end.
pub open spec fn is_slug(s: Seq<char>) -> bool {
    &&& slug_alphabet(s)
    &&& no_double_hyphen(s)
    &&& s.len() > 0 ==> s[0] != '-' && s.last() != '-'
}

proof fn lemma_collapse_shape(s: Seq<char>)
    ensures
        slug_alphabet(collapse_runs(s)),
        no_double_hyphen(collapse_runs(s)),
        s.len() > 0 && is_slug_char(s.last()) ==> collapse_runs(s).len() > 0
            && collapse_runs(s).last() == s.last(),
        collapse_runs(s).len() == 0 ==> s.len() == 0,
    decreases s.len(),
{
    if s.len() > 0 {
        let t = s.drop_last();
        lemma_collapse_shape(t);
        let c = collapse_runs(t);
        if is_slug_char(s.last()) {
        } else if s.len() >= 2 && !is_slug_char(s[s.len() - 2]) {
            assert(t.len() > 0);
        } else {
            if s.len() >= 2 {
                assert(t.last() == s[s.len() - 2]);
            }
            let r = c.push('-');
            assert forall|i: int| 0 <= i < r.len() - 1 implies !(#[trigger] r[i] == '-' && r[i
                + 1] == '-') by {
                if i == r.len() - 2 {
                    assert(r[i] == c.last());
                }
            }
        }
    }
}

proof fn lemma_trim_start_shape(s: Seq<char>)
    requires
        slug_alphabet(s),
        no_double_hyphen(s),
    ensures
        slug_alphabet(trim_start_char(s, '-')),
        no_double_hyphen(trim_start_char(s, '-')),
        trim_start_char(s, '-').len() > 0 ==> trim_start_char(s, '-')[0] != '-',
    decreases s.len(),
{
    if s.len() > 0 && s[0] == '-' {
        let t = s.drop_first();
        assert forall|i: int| 0 <= i < t.len() - 1 implies !(#[trigger] t[i] == '-' && t[i + 1]
            == '-') by {
            assert(t[i] == s[i + 1] && t[i + 1] == s[i + 2]);
        }
        lemma_trim_start_shape(t);
    }
}

proof fn lemma_trim_end_shape(s: Seq<char>)
    requires
        slug_alphabet(s),
        no_double_hyphen(s),
        s.len() > 0 ==> s[0] != '-',
    ensures
        is_slug(trim_end_char(s, '-')),
    decreases s.len(),
{
    if s.len() > 0 && s.last() == '-' {
        let t = s.drop_last();
        lemma_trim_end_shape(t);
    }
}

proof fn lemma_collapse_of_slug(s: Seq<char>)
    requires
        slug_alphabet(s),
        no_double_hyphen(s),
    ensures
        collapse_runs(s) == s,
    decreases s.len(),
{
    if s.len() > 0 {
        let t = s.drop_last();
        lemma_collapse_of_slug(t);
        if !is_slug_char(s.last()) && s.len() >= 2 {
            assert(s[s.len() - 2] != '-');
        }
        assert(t.push(s.last()) =~= s);
    }
}

/// Every slug is a well-formed slug: only `a-z`, `0-9` and `-`, no two
/// hyphens in a row, and none at either end.
pub proof fn lemma_slug_alphabet(x: Seq<char>)
    ensures
        is_slug(slug_of(x)),
{
    let l = if is_ascii_chars(x) {
        ascii_lower(x)
    } else {
        lowercase_of(nfd_of(x))
    };
    lemma_collapse_shape(l);
    lemma_trim_start_shape(collapse_runs(l));
    lemma_trim_end_shape(trim_start_char(collapse_runs(l), '-'));
}

/// Slugifying a slug gives it back unchanged.
pub proof fn lemma_slugify_idempotent(x: Seq<char>)
    ensures
        slug_of(slug_of(x)) == slug_of(x),
{
    let y = slug_of(x);
    lemma_slug_alphabet(x);
    assert(is_ascii_chars(y)) by {
        assert forall|i: int| 0 <= i < y.len() implies '\0' <= #[trigger] y[i] <= '\u{7f}' by {
            assert(is_slug_char(y[i]) || y[i] == '-');
        }
    }
    assert(ascii_lower(y) =~= y) by {
        assert forall|i: int| 0 <= i < y.len() implies #[trigger] ascii_lower(y)[i] == y[i] by {
            assert(is_slug_char(y[i]) || y[i] == '-');
        }
    }
    lemma_collapse_of_slug(y);
}

/// The slug of a text that is already decomposed and lowercased: each run of
/// characters outside `[a-z0-9]` becomes one hyphen, and hyphens at either end
/// are dropped.
pub fn slugify_lowered(text: &str) -> (r: String)
    ensures
        r@ == slug_text(text@),
{
    let cs = chars_of(text);
    let collapsed = collapse(&cs);
    let trimmed = trim_matching(&collapsed, '-');
    string_from(&trimmed)
}

/// Turns any text into a URL-safe slug. The text is decomposed (NFD) and
/// lowercased, so accents fall away as marks outside `[a-z0-9]`. ASCII text
/// is left as it is by decomposition and lowercased letter by letter.
pub fn slugify(text: &str) -> (r: String)
    ensures
        r@ == slug_of(text@),
{
    if text.is_ascii() {
        let cs = chars_of(text);
        let lowered = ascii_lowercase(&cs);
        let collapsed = collapse(&lowered);
        let trimmed = trim_matching(&collapsed, '-');
        string_from(&trimmed)
    } else {
        let decomposed = decompose(text);
        let lowered = lowercase(decomposed.as_str());
        slugify_lowered(lowered.as_str())
    }
}

} // verus!
