use content_meta::{
    check_for_duplicate_slugs, get_authors, get_date, get_description, get_slug, get_stream,
    get_tags, get_title, slugify, try_to_parse_date, Content, DateTime, GroupedContent, Kind,
};
use frontmatter_gen::{Frontmatter, Value};

fn dated(slug: &str, date: Option<DateTime>) -> Content {
    Content {
        title: slug.to_string(),
        description: None,
        slug: slug.to_string(),
        html: String::new(),
        tags: vec![],
        date,
        extra: None,
        links_to: None,
        back_links: vec![],
        card_image: None,
        banner_image: None,
        authors: vec![],
        stream: None,
    }
}

fn day(year: i32, month: u32, day: u32) -> DateTime {
    DateTime { year, month, day, hour: 0, minute: 0, second: 0 }
}

fn with(key: &str, value: &str) -> Frontmatter {
    let mut fm = Frontmatter::new();
    fm.insert(key.to_string(), Value::String(value.to_string()));
    fm
}

#[test]
fn slugify_twice_changes_nothing() {
    for text in ["Hello, World!", "  --a--b--  ", "Téxt wíth Áccénts", "ÉCOLE 42", ""] {
        let once = slugify(text);
        assert_eq!(slugify(&once), once);
    }
}

#[test]
fn slug_uses_only_letters_digits_and_single_hyphens() {
    for text in ["--Hello__World--", "a!!b??c", "Ünïcödé Straße 9", "***"] {
        let s = slugify(text);
        assert!(s.chars().all(|c| c.is_ascii_lowercase() || c.is_ascii_digit() || c == '-'));
        assert!(!s.starts_with('-') && !s.ends_with('-'));
        assert!(!s.contains("--"));
    }
    assert_eq!(slugify("--Hello__World--"), "hello-world");
    assert_eq!(slugify("***"), "");
}

#[test]
fn slugify_lowercases_non_ascii_text() {
    assert_eq!(slugify("ÉCOLE Été"), "e-cole-e-te");
}

#[test]
fn front_matter_date_wins_over_path() {
    let fm = with("date", "2023-05-06 07:08");
    let date = get_date(&fm, "posts/2024-01-01-hello.md").unwrap();
    assert_eq!(date, Some(DateTime { year: 2023, month: 5, day: 6, hour: 7, minute: 8, second: 0 }));
}

#[test]
fn unreadable_front_matter_date_is_an_error() {
    let fm = with("date", "yesterday");
    let err = get_date(&fm, "posts/2024-01-01-hello.md").unwrap_err();
    assert_eq!(err.value, "yesterday");
    assert_eq!(err.path, "posts/2024-01-01-hello.md");
    assert!(!err.reason.is_empty());
}

#[test]
fn path_date_is_used_without_front_matter_date() {
    let fm = Frontmatter::new();
    assert_eq!(get_date(&fm, "blog/2020-02-29-leap.md").unwrap(), Some(day(2020, 2, 29)));
    assert_eq!(get_date(&fm, "blog/2021-02-29-no-leap.md").unwrap(), None);
}

#[test]
fn date_formats_are_tried_in_order() {
    assert_eq!(
        try_to_parse_date("2024-03-04 05:06:07"),
        Ok(DateTime { year: 2024, month: 3, day: 4, hour: 5, minute: 6, second: 7 })
    );
    assert_eq!(
        try_to_parse_date("2024-03-04 05:06"),
        Ok(DateTime { year: 2024, month: 3, day: 4, hour: 5, minute: 6, second: 0 })
    );
    assert_eq!(try_to_parse_date("2024-03-04"), Ok(day(2024, 3, 4)));
    assert!(try_to_parse_date("04/03/2024").is_err());
}

#[test]
fn stream_goes_in_front_of_the_slug() {
    let mut fm = with("title", "Hello World");
    fm.insert("stream".to_string(), Value::String("notes".to_string()));
    assert_eq!(get_slug(&fm, "x.md"), "notes-hello-world");

    let mut fm = with("title", "Hello World");
    fm.insert("stream".to_string(), Value::String("index".to_string()));
    assert_eq!(get_slug(&fm, "x.md"), "hello-world");
    assert_eq!(get_slug(&with("title", "Hello World"), "x.md"), "hello-world");
}

#[test]
fn stream_defaults_to_index_and_loses_quotes() {
    assert_eq!(get_stream(&Frontmatter::new()), Some("index".to_string()));
    assert_eq!(get_stream(&with("stream", "\"news\"")), Some("news".to_string()));
}

#[test]
fn slug_from_file_name_in_a_directory() {
    let fm = Frontmatter::new();
    assert_eq!(get_slug(&fm, "content/2024-05-06-first-post.md"), "first-post");
    assert_eq!(get_slug(&fm, "content/2024-13-06-odd.md"), "2024-13-06-odd");
}

#[test]
fn duplicate_in_the_middle_is_reported() {
    let a = dated("a", None);
    let b = dated("b", None);
    let c = dated("c", None);
    let b2 = dated("b", None);
    let d = dated("d", None);
    let contents = vec![&a, &b, &c, &b2, &d];
    assert_eq!(check_for_duplicate_slugs(&contents), Err("b".to_string()));
    let distinct = vec![&a, &b, &c, &d];
    assert_eq!(check_for_duplicate_slugs(&distinct), Ok(()));
}

#[test]
fn tag_groups_largest_first_and_newest_first() {
    let mut g = GroupedContent::new(Kind::Tag);
    g.entry("b".to_string(), dated("b1", Some(day(2024, 6, 1))));
    g.entry("a".to_string(), dated("a1", Some(day(2021, 1, 1))));
    g.entry("a".to_string(), dated("a2", Some(day(2023, 1, 1))));
    g.entry("a".to_string(), dated("a3", Some(day(2022, 1, 1))));
    let groups = g.iter();
    assert_eq!(groups.len(), 2);
    assert_eq!(groups[0].0, "a");
    assert_eq!(groups[1].0, "b");
    let slugs: Vec<&str> = groups[0].1.iter().map(|c| c.slug.as_str()).collect();
    assert_eq!(slugs, vec!["a2", "a3", "a1"]);
}

#[test]
fn undated_documents_come_last_in_their_group() {
    let mut g = GroupedContent::new(Kind::Author);
    g.entry("x".to_string(), dated("none1", None));
    g.entry("x".to_string(), dated("old", Some(day(2000, 1, 1))));
    g.entry("x".to_string(), dated("none2", None));
    g.entry("x".to_string(), dated("new", Some(day(2010, 1, 1))));
    let groups = g.iter();
    let slugs: Vec<&str> = groups[0].1.iter().map(|c| c.slug.as_str()).collect();
    assert_eq!(slugs, vec!["new", "old", "none1", "none2"]);
}

#[test]
fn archive_groups_by_name_descending() {
    let mut g = GroupedContent::new(Kind::Archive);
    for year in ["2022", "2024", "2023"] {
        g.entry(year.to_string(), dated(year, None));
    }
    let names: Vec<String> = g.iter().into_iter().map(|(k, _)| k).collect();
    assert_eq!(names, vec!["2024", "2023", "2022"]);
}

#[test]
fn author_and_stream_groups_by_name_ascending() {
    for kind in [Kind::Author, Kind::Stream] {
        let mut g = GroupedContent::new(kind);
        for name in ["carol", "alice", "bob"] {
            g.entry(name.to_string(), dated(name, None));
        }
        let names: Vec<String> = g.iter().into_iter().map(|(k, _)| k).collect();
        assert_eq!(names, vec!["alice", "bob", "carol"]);
    }
}

#[test]
fn title_is_taken_out_of_the_body() {
    let (title, body) = get_title(&Frontmatter::new(), "# First Title\nSecond Title\n");
    assert_eq!(title, "First Title");
    assert_eq!(body, "Second Title");
}

#[test]
fn body_keeps_lines_after_the_title() {
    let (title, body) = get_title(&Frontmatter::new(), "\n\n## Intro\r\nIntro\nText\r\nMore");
    assert_eq!(title, "Intro");
    assert_eq!(body, "Text\nMore");
    let (title, body) = get_title(&Frontmatter::new(), "");
    assert_eq!(title, "");
    assert_eq!(body, "");
}

#[test]
fn tags_and_authors_from_strings_and_arrays() {
    assert_eq!(get_tags(&with("tags", "a,  b ,c")), vec!["a", "b", "c"]);
    assert_eq!(get_tags(&with("tags", "")), vec![""]);
    let mut fm = Frontmatter::new();
    fm.insert(
        "authors".to_string(),
        Value::Array(vec![Value::String("Ann".to_string()), Value::Boolean(true)]),
    );
    assert_eq!(get_authors(&fm), vec!["Ann", "true"]);
    assert_eq!(get_authors(&with("authors", "Ann, Bo")), vec!["Ann", "Bo"]);
    let mut fm = Frontmatter::new();
    fm.insert("tags".to_string(), Value::Boolean(false));
    assert!(get_tags(&fm).is_empty());
}

#[test]
fn description_of_an_array_is_shown_as_written() {
    let mut fm = Frontmatter::new();
    fm.insert(
        "description".to_string(),
        Value::Array(vec![Value::String("a".to_string()), Value::String("b".to_string())]),
    );
    assert_eq!(get_description(&fm), Some("[\"a\", \"b\"]".to_string()));
}
