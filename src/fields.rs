use vstd::prelude::*;
use crate::chars::{chars_of, string_from};
use crate::date::{
    DateTime, at_midnight, calendar_day_at, date_shape_at, date_text_value,
    extract_date_from_filename, first_date_from, lemma_first_date_unique, number_at, path_date,
    try_to_parse_date,
};
use crate::meta::{Field, field_at, lookup};
use crate::slug::{slug_of, slugify};
use crate::text::{
    join_lines, join_with_newlines, lines, lines_of, remove_all, remove_every, same_chars,
    split_chars, split_on, string_views, trim_char, trim_matching, trim_start_char, trim_whitespace,
    trim_ws, views,
};

verus! {

/// What `Path::file_stem` gives for a path: its last component without the
/// extension, if it has a last component.
pub uninterp spec fn stem_of(path: Seq<char>) -> Option<Seq<char>>;

/// Relies on `std::path::Path::file_stem`: the result depends on the text of
/// the path alone.
#[verifier::external_body]
fn file_stem(path: &str) -> (r: Option<String>)
    ensures
        r matches Some(s) ==> stem_of(path@) == Some(s@),
        r is None ==> stem_of(path@) is None,
{
    std::path::Path::new(path).file_stem().and_then(|s| s.to_str()).map(|s| s.to_string())
}

// ---------------------------------------------------------------- title

/// The first line that is not empty, or the empty text.
pub open spec fn first_nonempty(ls: Seq<Seq<char>>) -> Seq<char>
    decreases ls.len(),
{
    if ls.len() == 0 {
        Seq::empty()
    } else if ls[0].len() > 0 {
        ls[0]
    } else {
        first_nonempty(ls.drop_first())
    }
}

/// A line that goes with the title at the top of the body: blank, a heading
/// whose text is the title, or the title itself.
pub open spec fn is_title_line(line: Seq<char>, title: Seq<char>) -> bool {
    let t = trim_ws(line);
    ||| t.len() == 0
    ||| (t[0] == '#' && trim_ws(trim_start_char(line, '#')) == title)
    ||| t == title
}

/// The lines left once the leading title lines are skipped.
pub open spec fn skip_title_lines(ls: Seq<Seq<char>>, title: Seq<char>) -> Seq<Seq<char>>
    decreases ls.len(),
{
    if ls.len() > 0 && is_title_line(ls[0], title) {
        skip_title_lines(ls.drop_first(), title)
    } else {
        ls
    }
}

/// The title: the front-matter `title` string, else the first non-empty line
/// of the body without its leading `#` marks and surrounding whitespace.
pub open spec fn title_of(fm: frontmatter_gen::Frontmatter, markdown: Seq<char>) -> Seq<char> {
    match field_at(fm, "title"@) {
        Some(Field::Text { value, .. }) => value@,
        _ => trim_ws(trim_start_char(first_nonempty(lines_of(markdown)), '#')),
    }
}

/// The body with the leading title lines taken out.
pub open spec fn body_without_title(markdown: Seq<char>, title: Seq<char>) -> Seq<char> {
    join_lines(skip_title_lines(lines_of(markdown), title))
}

fn title_line(line: &Vec<char>, title: &Vec<char>) -> (r: bool)
    ensures
        r == is_title_line(line@, title@),
{
    let t = trim_whitespace(line);
    if t.len() == 0 {
        return true;
    }
    if t[0] == '#' {
        let unmarked = trim_matching_start(line, '#');
        let inner = trim_whitespace(&unmarked);
        if same_chars(&inner, title) {
            return true;
        }
    }
    same_chars(&t, title)
}

fn trim_matching_start(s: &Vec<char>, c: char) -> (r: Vec<char>)
    ensures
        r@ == trim_start_char(s@, c),
{
    let mut start: usize = 0;
    assert(s@.subrange(0, s.len() as int) =~= s@);
    while start < s.len() && s[start] == c
        invariant
            start <= s.len(),
            trim_start_char(s@.subrange(start as int, s.len() as int), c) == trim_start_char(
                s@,
                c,
            ),
        decreases s.len() - start,
    {
        assert(s@.subrange(start as int, s.len() as int).drop_first() =~= s@.subrange(
            start as int + 1,
            s.len() as int,
        ));
        start = start + 1;
    }
    crate::text::copy_range(s, start, s.len())
}

fn copy_line(ls: &Vec<Vec<char>>, i: usize) -> (r: Vec<char>)
    requires
        i < ls.len(),
    ensures
        r@ == ls@[i as int]@,
{
    assert(ls@[i as int]@.subrange(0, ls@[i as int]@.len() as int) =~= ls@[i as int]@);
    crate::text::copy_range(&ls[i], 0, ls[i].len())
}

fn first_nonempty_line(ls: &Vec<Vec<char>>) -> (r: Vec<char>)
    ensures
        r@ == first_nonempty(views(ls@)),
{
    let mut i: usize = 0;
    assert(views(ls@).skip(0) =~= views(ls@));
    while i < ls.len()
        invariant
            i <= ls.len(),
            first_nonempty(views(ls@)) == first_nonempty(views(ls@).skip(i as int)),
        decreases ls.len() - i,
    {
        assert(views(ls@).skip(i as int).drop_first() =~= views(ls@).skip(i as int + 1));
        if ls[i].len() > 0 {
            return copy_line(ls, i);
        }
        i = i + 1;
    }
    assert(views(ls@).skip(i as int).len() == 0);
    Vec::new()
}

fn lines_after_title(ls: &Vec<Vec<char>>, title: &Vec<char>) -> (r: Vec<Vec<char>>)
    ensures
        views(r@) == skip_title_lines(views(ls@), title@),
{
    let mut k: usize = 0;
    assert(views(ls@).skip(0) =~= views(ls@));
    while k < ls.len() && title_line(&ls[k], title)
        invariant
            k <= ls.len(),
            skip_title_lines(views(ls@), title@) == skip_title_lines(
                views(ls@).skip(k as int),
                title@,
            ),
        decreases ls.len() - k,
    {
        assert(views(ls@).skip(k as int).drop_first() =~= views(ls@).skip(k as int + 1));
        k = k + 1;
    }
    let mut rest: Vec<Vec<char>> = Vec::new();
    let mut j: usize = k;
    while j < ls.len()
        invariant
            k <= j <= ls.len(),
            views(rest@) =~= views(ls@).subrange(k as int, j as int),
        decreases ls.len() - j,
    {
        let line = copy_line(ls, j);
        let ghost before = rest@;
        rest.push(line);
        assert(views(rest@) =~= views(before).push(ls@[j as int]@));
        assert(views(rest@) =~= views(ls@).subrange(k as int, j as int + 1));
        j = j + 1;
    }
    assert(views(ls@).skip(k as int) =~= views(ls@).subrange(k as int, ls.len() as int));
    rest
}

/// The title of a document and its body without the title, as
/// `(title, body)`. The title is the front-matter `title` string if there is
/// one, else the first non-empty line of the body without its leading `#`
/// marks and surrounding whitespace, else empty. The body drops its leading
/// blank lines and the lines that repeat the title, as a heading or as is.
pub fn get_title(frontmatter: &frontmatter_gen::Frontmatter, markdown: &str) -> (r: (String, String))
    ensures
        r.0@ == title_of(*frontmatter, markdown@),
        r.1@ == body_without_title(markdown@, r.0@),
{
    proof {
        reveal_strlit("title");
    }
    let md = chars_of(markdown);
    let ls = lines(&md);
    let title: Vec<char> = match lookup(frontmatter, "title") {
        Some(Field::Text { value, .. }) => chars_of(value.as_str()),
        _ => {
            let first = first_nonempty_line(&ls);
            let unmarked = trim_matching_start(&first, '#');
            trim_whitespace(&unmarked)
        },
    };
    let rest = lines_after_title(&ls, &title);
    let body = join_with_newlines(&rest);
    (string_from(&title), string_from(&body))
}

// ---------------------------------------------------------------- other fields

/// The front-matter `description`, shown as it is written there.
pub open spec fn description_of(fm: frontmatter_gen::Frontmatter) -> Option<Seq<char>> {
    match field_at(fm, "description"@) {
        Some(f) => Some(f.shown_text()),
        None => None,
    }
}

/// The front-matter `description` as it is written there (a string keeps
/// its quotes), or `None`.
pub fn get_description(frontmatter: &frontmatter_gen::Frontmatter) -> (r: Option<String>)
    ensures
        r is Some <==> description_of(*frontmatter) is Some,
        r matches Some(d) ==> Some(d@) == description_of(*frontmatter),
{
    proof {
        reveal_strlit("description");
    }
    match lookup(frontmatter, "description") {
        Some(Field::Text { shown, .. }) => Some(shown),
        Some(Field::List { shown, .. }) => Some(shown),
        Some(Field::Other { shown }) => Some(shown),
        None => None,
    }
}

/// The stream: the front-matter `stream` without surrounding quote marks,
/// else `"index"`.
pub open spec fn stream_of(fm: frontmatter_gen::Frontmatter) -> Seq<char> {
    match field_at(fm, "stream"@) {
        Some(Field::Text { value, .. }) => trim_char(value@, '"'),
        Some(f) => trim_char(f.shown_text(), '"'),
        None => "index"@,
    }
}

/// The stream a document belongs to: the front-matter `stream` without
/// surrounding quote marks, or `"index"` where it has none. A value that is
/// no string is read as it is shown.
pub fn get_stream(frontmatter: &frontmatter_gen::Frontmatter) -> (r: Option<String>)
    ensures
        r matches Some(s) && s@ == stream_of(*frontmatter),
{
    proof {
        reveal_strlit("stream");
        reveal_strlit("index");
    }
    let text = match lookup(frontmatter, "stream") {
        Some(Field::Text { value, .. }) => value,
        Some(Field::List { shown, .. }) => shown,
        Some(Field::Other { shown }) => shown,
        None => {
            return Some(String::from_str("index"));
        },
    };
    let cs = chars_of(text.as_str());
    let trimmed = trim_matching(&cs, '"');
    Some(string_from(&trimmed))
}

/// A list field: an array gives each item as shown without surrounding quote
/// marks; a string gives its comma-separated pieces, trimmed; anything else
/// gives nothing.
pub open spec fn list_of(f: Option<Field>) -> Seq<Seq<char>> {
    match f {
        Some(Field::List { items, .. }) => string_views(items@).map_values(
            |t: Seq<char>| trim_char(t, '"'),
        ),
        Some(Field::Text { value, .. }) => split_on(value@, ',').map_values(
            |t: Seq<char>| trim_ws(t),
        ),
        _ => Seq::empty(),
    }
}

fn read_list(f: Option<Field>) -> (r: Vec<String>)
    ensures
        string_views(r@) == list_of(f),
{
    let mut out: Vec<String> = Vec::new();
    match f {
        Some(Field::List { items, .. }) => {
            let mut i: usize = 0;
            while i < items.len()
                invariant
                    i <= items.len(),
                    string_views(out@) =~= string_views(items@).take(i as int).map_values(
                        |t: Seq<char>| trim_char(t, '"'),
                    ),
                decreases items.len() - i,
            {
                let cs = chars_of(items[i].as_str());
                let t = string_from(&trim_matching(&cs, '"'));
                let ghost before = out@;
                out.push(t);
                assert(string_views(out@) =~= string_views(before).push(
                    trim_char(items@[i as int]@, '"'),
                ));
                assert(string_views(items@).take(i as int + 1) =~= string_views(items@).take(
                    i as int,
                ).push(items@[i as int]@));
                i = i + 1;
            }
            assert(string_views(items@).take(items.len() as int) =~= string_views(items@));
        },
        Some(Field::Text { value, .. }) => {
            let cs = chars_of(value.as_str());
            let pieces = split_chars(&cs, ',');
            let mut i: usize = 0;
            while i < pieces.len()
                invariant
                    i <= pieces.len(),
                    views(pieces@) == split_on(value@, ','),
                    string_views(out@) =~= views(pieces@).take(i as int).map_values(
                        |t: Seq<char>| trim_ws(t),
                    ),
                decreases pieces.len() - i,
            {
                let t = string_from(&trim_whitespace(&pieces[i]));
                let ghost before = out@;
                out.push(t);
                assert(string_views(out@) =~= string_views(before).push(
                    trim_ws(pieces@[i as int]@),
                ));
                assert(views(pieces@).take(i as int + 1) =~= views(pieces@).take(i as int).push(
                    pieces@[i as int]@,
                ));
                i = i + 1;
            }
            assert(views(pieces@).take(pieces.len() as int) =~= views(pieces@));
        },
        _ => {
            assert(string_views(out@) =~= Seq::<Seq<char>>::empty());
        },
    }
    out
}

/// The tags: the front-matter `tags` as an array (each item without
/// surrounding quote marks) or as a comma-separated string (each piece
/// trimmed); empty for anything else.
pub fn get_tags(frontmatter: &frontmatter_gen::Frontmatter) -> (r: Vec<String>)
    ensures
        string_views(r@) == list_of(field_at(*frontmatter, "tags"@)),
{
    proof {
        reveal_strlit("tags");
    }
    read_list(lookup(frontmatter, "tags"))
}

/// The authors, read from the front-matter `authors` as tags are.
pub fn get_authors(frontmatter: &frontmatter_gen::Frontmatter) -> (r: Vec<String>)
    ensures
        string_views(r@) == list_of(field_at(*frontmatter, "authors"@)),
{
    proof {
        reveal_strlit("authors");
    }
    read_list(lookup(frontmatter, "authors"))
}

// ---------------------------------------------------------------- date

/// A front-matter `date` that no accepted format reads: the text as written,
/// the path of the document that holds it, and why the last format failed.
/// No content can be made for such a document.
#[derive(Debug)]
pub struct DateError {
    pub value: String,
    pub path: String,
    pub reason: String,
}

/// The front-matter `date`, where it is a string.
pub open spec fn date_field(fm: frontmatter_gen::Frontmatter) -> Option<Seq<char>> {
    match field_at(fm, "date"@) {
        Some(Field::Text { value, .. }) => Some(value@),
        _ => None,
    }
}

/// The date a document resolves to; `None` where its front-matter `date`
/// cannot be read.
pub open spec fn date_outcome(fm: frontmatter_gen::Frontmatter, path: Seq<char>) -> Option<
    Option<DateTime>,
> {
    match date_field(fm) {
        Some(v) => match date_text_value(v) {
            Some(d) => Some(Some(d)),
            None => None,
        },
        None => Some(path_date(path)),
    }
}

/// The date of a document: the front-matter `date` string if there is one,
/// read as `YYYY-MM-DD HH:MM:SS`, `YYYY-MM-DD HH:MM` or `YYYY-MM-DD`; an error
/// where it is there and none of these fits. Without it, the first
/// `YYYY-MM-DD` in the path at midnight, if any.
pub fn get_date(frontmatter: &frontmatter_gen::Frontmatter, path: &str) -> (r: Result<
    Option<DateTime>,
    DateError,
>)
    ensures
        date_field(*frontmatter) matches Some(v) ==> (if date_text_value(v) is Some {
            r == Ok::<Option<DateTime>, DateError>(date_text_value(v))
        } else {
            r matches Err(e) && e.value@ == v && e.path@ == path@
        }),
        date_field(*frontmatter) is None ==> r == Ok::<Option<DateTime>, DateError>(
            path_date(path@),
        ),
        r is Ok <==> date_outcome(*frontmatter, path@) is Some,
        r matches Ok(d) ==> date_outcome(*frontmatter, path@) == Some(d),
{
    proof {
        reveal_strlit("date");
    }
    if let Some(Field::Text { value, .. }) = lookup(frontmatter, "date") {
        return match try_to_parse_date(value.as_str()) {
            Ok(d) => Ok(Some(d)),
            Err(reason) => Err(DateError { value, path: String::from_str(path), reason }),
        };
    }
    Ok(extract_date_from_filename(path))
}

/// A readable front-matter `date` string decides the date, whatever date
/// the path holds.
pub proof fn lemma_date_precedence(fm: frontmatter_gen::Frontmatter, path: Seq<char>)
    requires
        date_field(fm) is Some,
        date_text_value(date_field(fm)->0) is Some,
    ensures
        date_outcome(fm, path) == Some(date_text_value(date_field(fm)->0)),
{
}

/// Without a front-matter `date`, a path holding exactly one `YYYY-MM-DD`
/// that names a calendar day resolves to that day at midnight.
pub proof fn lemma_filename_date(fm: frontmatter_gen::Frontmatter, path: Seq<char>, i: int)
    requires
        date_field(fm) is None,
        date_shape_at(path, i),
        forall|j: int| j != i ==> !date_shape_at(path, j),
        calendar_day_at(path, i) is Some,
    ensures
        date_outcome(fm, path) == Some(
            Some(
                at_midnight(
                    number_at(path, i, 4) as i32,
                    number_at(path, i + 5, 2) as u32,
                    number_at(path, i + 8, 2) as u32,
                ),
            ),
        ),
{
    lemma_first_date_unique(path, 0, i);
}

// ---------------------------------------------------------------- slug

/// The file name without its extension, with the path's date and the hyphen
/// after it taken out wherever they occur.
pub open spec fn stem_slug(path: Seq<char>) -> Seq<char> {
    let stem = match stem_of(path) {
        Some(s) => s,
        None => Seq::empty(),
    };
    match first_date_from(path, 0) {
        Some(i) => if path_date(path) is Some {
            remove_all(stem, path.subrange(i, i + 10).push('-'))
        } else {
            stem
        },
        None => stem,
    }
}

/// The slug before the stream: from the front-matter `slug`, else from the
/// front-matter `title`, each as shown, else from the file name.
pub open spec fn base_slug(fm: frontmatter_gen::Frontmatter, path: Seq<char>) -> Seq<char> {
    match field_at(fm, "slug"@) {
        Some(f) => slug_of(f.shown_text()),
        None => match field_at(fm, "title"@) {
            Some(f) => slug_of(f.shown_text()),
            None => stem_slug(path),
        },
    }
}

/// The slug of a document: its base slug, after `"{stream}-"` where the
/// stream is not `"index"`.
pub open spec fn slug_for(fm: frontmatter_gen::Frontmatter, path: Seq<char>) -> Seq<char> {
    if stream_of(fm) == "index"@ {
        base_slug(fm, path)
    } else {
        stream_of(fm) + "-"@ + base_slug(fm, path)
    }
}

fn shown(f: &Field) -> (r: &String)
    ensures
        r@ == f.shown_text(),
{
    match f {
        Field::Text { shown, .. } => shown,
        Field::List { shown, .. } => shown,
        Field::Other { shown } => shown,
    }
}

fn slug_from_path(path: &str) -> (r: Vec<char>)
    ensures
        r@ == stem_slug(path@),
{
    let stem = match file_stem(path) {
        Some(s) => chars_of(s.as_str()),
        None => Vec::new(),
    };
    if extract_date_from_filename(path).is_none() {
        return stem;
    }
    let cs = chars_of(path);
    match crate::date::find_date(&cs) {
        Some(i) => {
            let mut date = crate::text::copy_range(&cs, i, i + 10);
            date.push('-');
            remove_every(&stem, &date)
        },
        None => stem,
    }
}

/// The slug of a document: the front-matter `slug`, else the front-matter
/// `title`, each slugified as shown; else the file name without extension and
/// without its `YYYY-MM-DD-`. A stream other than `"index"` goes in front as
/// `"{stream}-"`.
pub fn get_slug(frontmatter: &frontmatter_gen::Frontmatter, path: &str) -> (r: String)
    ensures
        r@ == slug_for(*frontmatter, path@),
{
    proof {
        reveal_strlit("slug");
        reveal_strlit("title");
        reveal_strlit("index");
        reveal_strlit("-");
    }
    let stream = get_stream(frontmatter).unwrap();
    let base: Vec<char> = match lookup(frontmatter, "slug") {
        Some(f) => chars_of(slugify(shown(&f).as_str()).as_str()),
        None => match lookup(frontmatter, "title") {
            Some(f) => chars_of(slugify(shown(&f).as_str()).as_str()),
            None => slug_from_path(path),
        },
    };
    let st = chars_of(stream.as_str());
    let index = chars_of("index");
    if same_chars(&st, &index) {
        return string_from(&base);
    }
    let mut out = st;
    out.push('-');
    let mut k: usize = 0;
    let ghost head = out@;
    while k < base.len()
        invariant
            k <= base.len(),
            out@ == head + base@.take(k as int),
        decreases base.len() - k,
    {
        out.push(base[k]);
        assert(base@.take(k as int + 1) =~= base@.take(k as int).push(base@[k as int]));
        k = k + 1;
    }
    assert(base@.take(base.len() as int) =~= base@);
    assert(head =~= stream_of(*frontmatter) + "-"@);
    string_from(&out)
}

} // verus!
