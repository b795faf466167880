use content_meta::{
    check_for_duplicate_slugs, extract_date_from_filename, get_date, get_description, get_slug,
    get_tags, get_title, slugify, Content, DateTime,
};
use frontmatter_gen::{Frontmatter, Value};

fn record(title: &str, slug: &str) -> Content {
    Content {
        title: title.to_string(),
        description: None,
        slug: slug.to_string(),
        html: String::new(),
        tags: vec![],
        date: None,
        extra: None,
        links_to: None,
        back_links: vec![],
        card_image: None,
        banner_image: None,
        authors: vec![],
        stream: None,
    }
}

fn at(year: i32, month: u32, day: u32, hour: u32, minute: u32, second: u32) -> DateTime {
    DateTime { year, month, day, hour, minute, second }
}

#[test]
fn test_get_title_from_frontmatter() {
    let mut frontmatter = Frontmatter::new();
    frontmatter.insert("title".to_string(), Value::String("Test Title".to_string()));
    let markdown = "# HTML Title";

    let (title, markdown) = get_title(&frontmatter, markdown);
    assert_eq!(title, "Test Title");
    assert!(markdown.contains("HTML Title"));
}

#[test]
fn test_get_title_from_html() {
    let frontmatter = Frontmatter::new();
    let markdown = "# HTML Title";

    let (title, markdown) = get_title(&frontmatter, markdown);
    assert_eq!(title, "HTML Title");
    assert!(!markdown.contains("HTML Title"));
}

#[test]
fn test_get_title_from_html_with_no_title_tag() {
    let frontmatter = Frontmatter::new();
    let markdown = "title here";

    let (title, markdown) = get_title(&frontmatter, markdown);
    assert_eq!(title, "title here");
    assert!(!markdown.contains("title here"));
}

#[test]
fn test_get_title_from_html_with_multiple_lines() {
    let frontmatter = Frontmatter::new();
    let markdown = "
# First Title
Second Title
        ";

    let (title, markdown) = get_title(&frontmatter, markdown);
    assert_eq!(title, "First Title");
    assert!(!markdown.contains("First Title"));
    assert!(markdown.contains("Second Title"));
}

#[test]
fn test_get_description_from_frontmatter() {
    let mut frontmatter = Frontmatter::new();
    frontmatter.insert(
        "description".to_string(),
        Value::String("Test Description".to_string()),
    );

    let description = get_description(&frontmatter);
    assert_eq!(description, Some("\"Test Description\"".to_string()));
}

#[test]
fn test_get_description_from_empty_frontmatter() {
    let frontmatter = Frontmatter::new();

    let description = get_description(&frontmatter);
    assert_eq!(description, None);
}

#[test]
fn test_get_slug_from_frontmatter() {
    let mut frontmatter = Frontmatter::new();
    frontmatter.insert("slug".to_string(), Value::String("test-slug".to_string()));
    let path = "2024-01-01-myfile.md";

    let slug = get_slug(&frontmatter, path);
    assert_eq!(slug, "test-slug");
}

#[test]
fn test_get_slug_from_title() {
    let mut frontmatter = Frontmatter::new();
    frontmatter.insert("title".to_string(), Value::String("Test Title".to_string()));
    let path = "2024-01-01-myfile.md";

    let slug = get_slug(&frontmatter, path);
    assert_eq!(slug, "test-title");
}

#[test]
fn test_get_slug_from_filename() {
    let frontmatter = Frontmatter::new();
    let path = "2024-01-01-myfile.md";

    let slug = get_slug(&frontmatter, path);
    assert_eq!(slug, "myfile");
}

#[test]
fn test_get_slug_from_filename_without_date() {
    let frontmatter = Frontmatter::new();
    let path = "myfile.md";

    let slug = get_slug(&frontmatter, path);
    assert_eq!(slug, "myfile");
}

#[test]
fn test_get_slug_with_special_characters() {
    let mut frontmatter = Frontmatter::new();
    frontmatter.insert(
        "title".to_string(),
        Value::String("Test Title with Special Characters!@#".to_string()),
    );
    let path = "2024-01-01-myfile.md";

    let slug = get_slug(&frontmatter, path);
    assert_eq!(slug, "test-title-with-special-characters");
}

#[test]
fn test_get_tags_from_frontmatter_array() {
    let mut frontmatter = Frontmatter::new();
    frontmatter.insert(
        "tags".to_string(),
        Value::Array(vec![
            Value::String("tag1".to_string()),
            Value::String("tag2".to_string()),
        ]),
    );

    let tags = get_tags(&frontmatter);
    assert_eq!(tags, vec!["tag1", "tag2"]);
}

#[test]
fn test_get_tags_from_frontmatter_string() {
    let mut frontmatter = Frontmatter::new();
    frontmatter.insert("tags".to_string(), Value::String("tag1, tag2".to_string()));

    let tags = get_tags(&frontmatter);
    assert_eq!(tags, vec!["tag1", "tag2"]);
}

#[test]
fn test_get_tags_with_no_tags() {
    let frontmatter = Frontmatter::new();

    let tags = get_tags(&frontmatter);
    assert!(tags.is_empty());
}

#[test]
fn test_get_date_from_frontmatter() {
    let mut frontmatter = Frontmatter::new();
    frontmatter.insert(
        "date".to_string(),
        Value::String("2024-01-01 15:40:56".to_string()),
    );
    let path = "myfile.md";

    let date = get_date(&frontmatter, path).unwrap().unwrap();
    assert_eq!(date, at(2024, 1, 1, 15, 40, 56));
}

#[test]
fn test_get_date_from_frontmatter_without_time() {
    let mut frontmatter = Frontmatter::new();
    frontmatter.insert("date".to_string(), Value::String("2024-01-01".to_string()));
    let path = "myfile.md";

    let date = get_date(&frontmatter, path).unwrap().unwrap();
    assert_eq!(date, at(2024, 1, 1, 0, 0, 0));
}

#[test]
fn test_get_date_from_filename() {
    let frontmatter = Frontmatter::new();
    let path = "2024-01-01-myfile.md";

    let date = get_date(&frontmatter, path).unwrap().unwrap();
    assert_eq!(date, at(2024, 1, 1, 0, 0, 0));
}

#[test]
fn test_get_date_no_date() {
    let frontmatter = Frontmatter::new();
    let path = "myfile.md";

    let date = get_date(&frontmatter, path).unwrap();
    assert!(date.is_none());
}

#[test]
fn test_slugify_simple_text() {
    let text = "Simple Text";
    let slug = slugify(text);
    assert_eq!(slug, "simple-text");
}

#[test]
fn test_slugify_with_special_characters() {
    let text = "Text with Special Characters!@#";
    let slug = slugify(text);
    assert_eq!(slug, "text-with-special-characters");
}

#[test]
fn test_slugify_with_accents() {
    let text = "Téxt wíth Áccénts";
    let slug = slugify(text);
    assert_eq!(slug, "te-xt-wi-th-a-cce-nts");
}

#[test]
fn test_slugify_with_multiple_spaces() {
    let text = "Text    with    multiple    spaces";
    let slug = slugify(text);
    assert_eq!(slug, "text-with-multiple-spaces");
}

#[test]
fn test_slugify_with_underscores() {
    let text = "Text_with_underscores";
    let slug = slugify(text);
    assert_eq!(slug, "text-with-underscores");
}

#[test]
fn test_slugify_with_numbers() {
    let text = "Text with numbers 123";
    let slug = slugify(text);
    assert_eq!(slug, "text-with-numbers-123");
}

#[test]
fn test_slugify_empty_string() {
    let text = "";
    let slug = slugify(text);
    assert_eq!(slug, "");
}

#[test]
fn test_check_for_duplicate_slugs_no_duplicates() {
    let content1 = record("Title 1", "slug-1");
    let content2 = record("Title 2", "slug-2");
    let contents = vec![&content1, &content2];
    let result = check_for_duplicate_slugs(&contents);
    assert!(result.is_ok());
}

#[test]
fn test_check_for_duplicate_slugs_with_duplicates() {
    let content1 = record("Title 1", "duplicate-slug");
    let content2 = record("Title 2", "duplicate-slug");
    let contents = vec![&content1, &content2];

    let result = check_for_duplicate_slugs(&contents);
    assert!(result.is_err());
    assert_eq!(result.err().unwrap(), "duplicate-slug".to_string());
}

#[test]
fn test_check_for_duplicate_slugs_empty_list() {
    let contents: Vec<&Content> = vec![];

    let result = check_for_duplicate_slugs(&contents);
    assert!(result.is_ok());
}

#[test]
fn test_extract_date_from_filename_valid_date() {
    let path = "2024-01-01-myfile.md";
    let date = extract_date_from_filename(path).unwrap();
    assert_eq!(date, at(2024, 1, 1, 0, 0, 0));
}

#[test]
fn test_extract_date_from_filename_invalid_date() {
    let path = "not-a-date-myfile.md";
    let date = extract_date_from_filename(path);
    assert!(date.is_none());
}

#[test]
fn test_extract_date_from_filename_empty() {
    let path = "";
    let date = extract_date_from_filename(path);
    assert!(date.is_none());
}

#[test]
fn test_extract_date_from_filename_with_time() {
    let path = "2024-01-01-15-30-myfile.md";
    let date = extract_date_from_filename(path).unwrap();
    assert_eq!(date, at(2024, 1, 1, 0, 0, 0));
}

#[test]
fn test_extract_date_from_filename_with_multiple_dates() {
    let path = "2024-01-01-2025-02-02-myfile.md";
    let date = extract_date_from_filename(path).unwrap();
    assert_eq!(date, at(2024, 1, 1, 0, 0, 0));
}
