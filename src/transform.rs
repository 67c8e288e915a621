use crate::flatten::{flat, flatten};
use crate::json::{json_text, module_text, process_json, process_ts};
use crate::render::{css_text, process_css, process_scss, scss_text};
use crate::token::Token;
use vstd::prelude::*;
use vstd::string::{StrSliceExecFns, StringExecFns};

verus! {

/// An output format.
#[derive(Debug, Clone, Copy, PartialEq, Eq, Structural)]
pub enum Transform {
    Css,
    Scss,
    Json,
    Ts,
}

/// A requested output format that is not recognized.
#[derive(Debug)]
pub struct UnsupportedFormat {
    pub format: String,
}

/// The formats, in their default order.
pub open spec fn all_transforms() -> Seq<Transform> {
    seq![Transform::Css, Transform::Scss, Transform::Json, Transform::Ts]
}

/// The format named `s`, if any.
pub open spec fn transform_named(s: Seq<char>) -> Option<Transform> {
    if s == "css"@ {
        Some(Transform::Css)
    } else if s == "scss"@ {
        Some(Transform::Scss)
    } else if s == "json"@ {
        Some(Transform::Json)
    } else if s == "ts"@ {
        Some(Transform::Ts)
    } else {
        None
    }
}

/// Whether `r` is what recognizing the format name `s` gives.
pub open spec fn recognized_as(r: Result<Transform, UnsupportedFormat>, s: Seq<char>) -> bool {
    match r {
        Ok(t) => transform_named(s) == Some(t),
        Err(e) => transform_named(s) is None && e.format@ == s,
    }
}

/// Whether `a` and `b` hold the same characters.
fn same_text(a: &str, b: &str) -> (r: bool)
    ensures
        r == (a@ == b@),
{
    let n = a.unicode_len();
    if n != b.unicode_len() {
        return false;
    }
    let mut i: usize = 0;
    while i < n
        invariant
            n == a@.len(),
            n == b@.len(),
            i <= n,
            forall|j: int| 0 <= j < i ==> a@[j] == b@[j],
        decreases n - i,
    {
        if a.get_char(i) != b.get_char(i) {
            return false;
        }
        i += 1;
    }
    assert(a@ =~= b@);
    true
}

impl Transform {
    /// The format's name, which is also its file extension.
    pub open spec fn name_of(self) -> Seq<char> {
        match self {
            Transform::Css => "css"@,
            Transform::Scss => "scss"@,
            Transform::Json => "json"@,
            Transform::Ts => "ts"@,
        }
    }

    /// The format's name, which is also its file extension.
    pub fn name(&self) -> (r: String)
        ensures
            r@ == self.name_of(),
    {
        match self {
            Transform::Css => "css".to_owned(),
            Transform::Scss => "scss".to_owned(),
            Transform::Json => "json".to_owned(),
            Transform::Ts => "ts".to_owned(),
        }
    }

    /// The names of all formats, in their default order.
    pub fn variant_names() -> (r: Vec<String>)
        ensures
            r@.len() == 4,
            forall|i: int| 0 <= i < 4 ==> #[trigger] r@[i]@ == all_transforms()[i].name_of(),
    {
        let mut r: Vec<String> = Vec::new();
        r.push(Transform::Css.name());
        r.push(Transform::Scss.name());
        r.push(Transform::Json.name());
        r.push(Transform::Ts.name());
        r
    }

    /// The format named `name`; names are lower case and matched exactly.
    pub fn from_name(name: &str) -> (r: Result<Transform, UnsupportedFormat>)
        ensures
            recognized_as(r, name@),
    {
        if same_text(name, "css") {
            Ok(Transform::Css)
        } else if same_text(name, "scss") {
            Ok(Transform::Scss)
        } else if same_text(name, "json") {
            Ok(Transform::Json)
        } else if same_text(name, "ts") {
            Ok(Transform::Ts)
        } else {
            Err(UnsupportedFormat { format: name.to_owned() })
        }
    }
}

/// The formats to produce for the names `requested`: every format, in the
/// default order, when none is named; otherwise one result per name, in
/// order, an error for each name that is not recognized.
pub fn requested_transforms(requested: &Vec<String>) -> (r: Vec<Result<Transform, UnsupportedFormat>>)
    ensures
        requested@.len() == 0 ==> r@.len() == 4 && forall|i: int|
            0 <= i < 4 ==> #[trigger] r@[i] == Ok::<Transform, UnsupportedFormat>(
                all_transforms()[i],
            ),
        requested@.len() > 0 ==> r@.len() == requested@.len() && forall|i: int|
            0 <= i < requested@.len() ==> recognized_as(#[trigger] r@[i], requested@[i]@),
{
    let mut r: Vec<Result<Transform, UnsupportedFormat>> = Vec::new();
    if requested.len() == 0 {
        r.push(Ok(Transform::Css));
        r.push(Ok(Transform::Scss));
        r.push(Ok(Transform::Json));
        r.push(Ok(Transform::Ts));
        return r;
    }
    let mut i: usize = 0;
    while i < requested.len()
        invariant
            i <= requested.len(),
            r@.len() == i,
            forall|j: int| 0 <= j < i ==> recognized_as(#[trigger] r@[j], requested@[j]@),
        decreases requested.len() - i,
    {
        r.push(Transform::from_name(requested[i].as_str()));
        i += 1;
    }
    r
}

/// Renders a token tree in an output format.
pub trait Process {
    /// The text rendered from `contents`.
    spec fn rendered(&self, contents: Token) -> Seq<char>;

    fn process(&self, contents: &Token) -> (r: Result<String, serde_json::Error>)
        ensures
            r is Ok,
            r->Ok_0@ == self.rendered(*contents),
    ;
}

impl Process for Transform {
    open spec fn rendered(&self, contents: Token) -> Seq<char> {
        match self {
            Transform::Css => css_text(flat(contents, seq![])),
            Transform::Scss => scss_text(flat(contents, seq![])),
            Transform::Json => json_text(contents, seq![]),
            Transform::Ts => module_text(json_text(contents, seq![])),
        }
    }

    fn process(&self, contents: &Token) -> (r: Result<String, serde_json::Error>) {
        match self {
            Transform::Json => process_json(contents),
            Transform::Ts => process_ts(contents),
            Transform::Scss => {
                let flat_token_list = flatten(contents);
                Ok(process_scss(&flat_token_list))
            },
            Transform::Css => {
                let flat_token_list = flatten(contents);
                Ok(process_css(&flat_token_list))
            },
        }
    }
}

/// Each format is recognized by its own name, so the names are distinct.
pub proof fn lemma_name_round_trip(t: Transform)
    ensures
        transform_named(t.name_of()) == Some(t),
{
    reveal_strlit("css");
    reveal_strlit("scss");
    reveal_strlit("json");
    reveal_strlit("ts");
    assert("css"@.len() != "scss"@.len());
    assert("css"@.len() != "json"@.len());
    assert("css"@.len() != "ts"@.len());
    assert("scss"@.len() != "ts"@.len());
    assert("json"@.len() != "ts"@.len());
    assert("scss"@[0] != "json"@[0]);
}

/// The output of `t` for `contents` as a pair of file extension and text.
fn output_pair(t: Transform, contents: &Token) -> (r: Result<(String, String), serde_json::Error>)
    ensures
        r is Ok,
        r->Ok_0.0@ == t.name_of() && r->Ok_0.1@ == t.rendered(*contents),
{
    match t.process(contents) {
        Ok(text) => Ok((t.name(), text)),
        Err(e) => Err(e),
    }
}

/// The JSON output of `contents`, with its file extension.
pub fn transform_to_json(contents: &Token) -> (r: Result<(String, String), serde_json::Error>)
    ensures
        r is Ok,
        r->Ok_0.0@ == "json"@ && r->Ok_0.1@ == json_text(*contents, seq![]),
{
    output_pair(Transform::Json, contents)
}

/// The typed module output of `contents`, with its file extension.
pub fn transform_to_typescript(contents: &Token) -> (r: Result<(String, String), serde_json::Error>)
    ensures
        r is Ok,
        r->Ok_0.0@ == "ts"@ && r->Ok_0.1@ == module_text(json_text(*contents, seq![])),
{
    output_pair(Transform::Ts, contents)
}

/// The CSS output of `contents`, with its file extension.
pub fn transform_to_css_variables(contents: &Token) -> (r: Result<
    (String, String),
    serde_json::Error,
>)
    ensures
        r is Ok,
        r->Ok_0.0@ == "css"@ && r->Ok_0.1@ == css_text(flat(*contents, seq![])),
{
    output_pair(Transform::Css, contents)
}

/// The SCSS output of `contents`, with its file extension.
pub fn transform_to_scss_variables(contents: &Token) -> (r: Result<
    (String, String),
    serde_json::Error,
>)
    ensures
        r is Ok,
        r->Ok_0.0@ == "scss"@ && r->Ok_0.1@ == scss_text(flat(*contents, seq![])),
{
    output_pair(Transform::Scss, contents)
}

} // verus!

