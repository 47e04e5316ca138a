//! What a configuration type says of itself: header comments, and for each
//! field its name, key, comments, environment variable and whether it is left
//! out.

use vstd::prelude::*;

verus! {

/// The contents of a [`FieldMetadata`].
pub struct FieldView {
    pub name: Seq<char>,
    pub key: Option<Seq<char>>,
    pub comments: Seq<Seq<char>>,
    pub env_var: Option<Seq<char>>,
    pub exclude: bool,
}

/// The contents of a [`ConfigMetadata`].
pub struct MetadataView {
    pub struct_comments: Seq<Seq<char>>,
    pub fields: Seq<FieldView>,
}

/// The contents of each string of `v`.
pub open spec fn strings_view(v: Seq<String>) -> Seq<Seq<char>> {
    v.map_values(|s: String| s@)
}

/// The contents of an optional string.
pub open spec fn opt_view(o: Option<String>) -> Option<Seq<char>> {
    match o {
        Some(s) => Some(s@),
        None => None,
    }
}

/// What a configuration type says of itself.
#[derive(Debug, Clone)]
pub struct ConfigMetadata {
    pub struct_comments: Vec<String>,
    pub fields: Vec<FieldMetadata>,
}

/// What a configuration type says of one of its fields.
#[derive(Debug, Clone)]
pub struct FieldMetadata {
    pub name: String,
    pub key: Option<String>,
    pub comments: Vec<String>,
    pub env_var: Option<String>,
    pub exclude: bool,
}

impl View for FieldMetadata {
    type V = FieldView;

    open spec fn view(&self) -> FieldView {
        FieldView {
            name: self.name@,
            key: opt_view(self.key),
            comments: strings_view(self.comments@),
            env_var: opt_view(self.env_var),
            exclude: self.exclude,
        }
    }
}

impl View for ConfigMetadata {
    type V = MetadataView;

    open spec fn view(&self) -> MetadataView {
        MetadataView {
            struct_comments: strings_view(self.struct_comments@),
            fields: self.fields@.map_values(|f: FieldMetadata| f@),
        }
    }
}

impl Default for ConfigMetadata {
    fn default() -> (r: Self)
        ensures
            r.struct_comments@.len() == 0,
            r.fields@.len() == 0,
    {
        ConfigMetadata { struct_comments: Vec::new(), fields: Vec::new() }
    }
}

impl FieldMetadata {
    /// A field called `name`, with no custom key, comments or environment
    /// variable, not left out.
    pub fn new(name: &str) -> (r: Self)
        ensures
            r@ == (FieldView {
                name: name@,
                key: None,
                comments: seq![],
                env_var: None,
                exclude: false,
            }),
    {
        let r = FieldMetadata {
            name: name.to_string(),
            key: None,
            comments: Vec::new(),
            env_var: None,
            exclude: false,
        };
        assert(strings_view(r.comments@) =~= seq![]);
        r
    }

    /// The field with the custom key `key`.
    pub fn with_key(self, key: &str) -> (r: Self)
        ensures
            r@ == (FieldView { key: Some(key@), ..self@ }),
    {
        let mut r = self;
        r.key = Some(key.to_string());
        r
    }

    /// The field with `comment` added after its other comments.
    pub fn with_comment(self, comment: &str) -> (r: Self)
        ensures
            r@ == (FieldView { comments: self@.comments.push(comment@), ..self@ }),
    {
        let mut r = self;
        r.comments.push(comment.to_string());
        proof {
            assert(strings_view(r.comments@) == strings_view(self.comments@).push(comment@));
        }
        r
    }

    /// The field with its comments replaced by `comments`.
    pub fn with_comments(self, comments: Vec<String>) -> (r: Self)
        ensures
            r@ == (FieldView { comments: strings_view(comments@), ..self@ }),
    {
        let mut r = self;
        r.comments = comments;
        r
    }

    /// The field read from the environment variable `env_var`.
    pub fn with_env_var(self, env_var: &str) -> (r: Self)
        ensures
            r@ == (FieldView { env_var: Some(env_var@), ..self@ }),
    {
        let mut r = self;
        r.env_var = Some(env_var.to_string());
        r
    }

    /// The field, left out of the written file when `exclude` holds.
    pub fn with_exclude(self, exclude: bool) -> (r: Self)
        ensures
            r@ == (FieldView { exclude: exclude, ..self@ }),
    {
        let mut r = self;
        r.exclude = exclude;
        r
    }
}

} // verus!
