use vstd::prelude::*;

verus! {

#[verifier::external_type_specification]
#[verifier::external_body]
pub struct ExFrontmatter(frontmatter_gen::Frontmatter);

#[verifier::external_type_specification]
#[verifier::external_body]
pub struct ExValue(frontmatter_gen::Value);

/// A front-matter value as the field extractors read it.
pub enum Field {
    /// A string, and how it is shown (quoted).
    Text { value: String, shown: String },
    /// An array: how each item is shown, and how the whole array is shown.
    List { items: Vec<String>, shown: String },
    /// Any other value, and how it is shown.
    Other { shown: String },
}

impl Field {
    pub open spec fn shown_text(self) -> Seq<char> {
        match self {
            Field::Text { shown, .. } => shown@,
            Field::List { shown, .. } => shown@,
            Field::Other { shown } => shown@,
        }
    }
}

/// What a front-matter holds, key by key, as the extractors read it.
pub uninterp spec fn fields_of(fm: frontmatter_gen::Frontmatter) -> Map<Seq<char>, Field>;

/// The value under `key`, if the front-matter has that key.
pub open spec fn field_at(fm: frontmatter_gen::Frontmatter, key: Seq<char>) -> Option<Field> {
    if fields_of(fm).contains_key(key) {
        Some(fields_of(fm)[key])
    } else {
        None
    }
}

/// Relies on `Frontmatter::get` of frontmatter-gen, which looks the key up in
/// its map, and on `Display` for its `Value`, which shows how a value is written.
#[verifier::external_body]
pub(crate) fn lookup(fm: &frontmatter_gen::Frontmatter, key: &str) -> (r: Option<Field>)
    ensures
        r == (if fields_of(*fm).contains_key(key@) {
            Some(fields_of(*fm)[key@])
        } else {
            None
        }),
        r == field_at(*fm, key@),
{
    fm.get(key).map(
        |v| match v {
            frontmatter_gen::Value::String(s) => Field::Text { value: s.clone(), shown: v.to_string() },
            frontmatter_gen::Value::Array(a) => Field::List {
                items: a.iter().map(|i| i.to_string()).collect(),
                shown: v.to_string(),
            },
            _ => Field::Other { shown: v.to_string() },
        },
    )
}

} // verus!
