use crate::token::{bool_text, Token};
use vstd::prelude::*;
use vstd::string::StringExecFns;

verus! {

#[verifier::external_type_specification]
#[verifier::external_body]
pub struct ExJsonError(serde_json::Error);

/// The JSON string literal of a text: quoted, with JSON escapes.
pub uninterp spec fn json_quoted(s: Seq<char>) -> Seq<char>;

/// Relies on `serde_json::to_string` applied to a `str`: the JSON string
/// literal of the text. A `str` is serialized into a `Vec<u8>` with
/// `format_escaped_str`, and writing into a `Vec` cannot fail, so the
/// result is always `Ok`.
#[verifier::external_body]
fn quote(s: &str) -> (r: Result<String, serde_json::Error>)
    ensures
        r is Ok,
        r->Ok_0@ == json_quoted(s@),
{
    serde_json::to_string(s)
}

/// The indentation added for each nesting level.
pub open spec fn indent_step() -> Seq<char> {
    "  "@
}

/// Pretty-printed JSON of `t`, whose first line is already placed and whose
/// other lines start with `indent`.
pub open spec fn json_text(t: Token, indent: Seq<char>) -> Seq<char>
    decreases t, 0nat,
{
    match t {
        Token::Null => "null"@,
        Token::Bool(b) => bool_text(b),
        Token::Number(n) => n@,
        Token::Str(s) => json_quoted(s@),
        Token::Array(items) => if items@.len() == 0 {
            "[]"@
        } else {
            "["@ + json_items(items@, indent + indent_step(), items@.len()) + "\n"@ + indent + "]"@
        },
        Token::Object(members) => if members@.len() == 0 {
            "{}"@
        } else {
            "{"@ + json_members(members@, indent + indent_step(), members@.len()) + "\n"@ + indent
                + "}"@
        },
    }
}

/// The separator written before element `n - 1` of a container.
pub open spec fn separator(n: nat) -> Seq<char> {
    if n == 1 {
        "\n"@
    } else {
        ",\n"@
    }
}

/// The first `n` array elements, each on its own line starting with `indent`.
pub open spec fn json_items(items: Seq<Token>, indent: Seq<char>, n: nat) -> Seq<char>
    decreases items, n,
{
    if n == 0 || n > items.len() {
        seq![]
    } else {
        json_items(items, indent, (n - 1) as nat) + separator(n) + indent + json_text(
            items[n - 1],
            indent,
        )
    }
}

/// The first `n` object members as `"key": value`, each on its own line
/// starting with `indent`.
pub open spec fn json_members(members: Seq<(String, Token)>, indent: Seq<char>, n: nat) -> Seq<
    char,
>
    decreases members, n,
{
    if n == 0 || n > members.len() {
        seq![]
    } else {
        json_members(members, indent, (n - 1) as nat) + separator(n) + indent + json_quoted(
            members[n - 1].0@,
        ) + ": "@ + json_text(members[n - 1].1, indent)
    }
}

/// Appends to `out` the pretty-printed JSON of `t`, continuation lines
/// starting with `indent`.
fn write_json(t: &Token, indent: &String, out: String) -> (r: Result<String, serde_json::Error>)
    ensures
        r is Ok,
        r->Ok_0@ == out@ + json_text(*t, indent@),
    decreases t,
{
    let ghost start = out@;
    let mut out = out;
    match t {
        Token::Null => {
            out.append("null");
            Ok(out)
        },
        Token::Bool(b) => {
            if *b {
                out.append("true");
            } else {
                out.append("false");
            }
            Ok(out)
        },
        Token::Number(n) => {
            out.append(n.as_str());
            Ok(out)
        },
        Token::Str(s) => {
            match quote(s.as_str()) {
                Ok(q) => {
                    out.append(q.as_str());
                    Ok(out)
                },
                Err(e) => Err(e),
            }
        },
        Token::Array(items) => {
            if items.len() == 0 {
                out.append("[]");
                return Ok(out);
            }
            assert(decreases_to!(*t => *items));
            let mut inner = indent.clone();
            inner.append("  ");
            out.append("[");
            let mut i: usize = 0;
            while i < items.len()
                invariant
                    i <= items.len(),
                    out@ == start + "["@ + json_items(items@, inner@, i as nat),
                    inner@ == indent@ + indent_step(),
                    *t == Token::Array(*items),
                    decreases_to!(*t => *items),
                decreases items.len() - i,
            {
                if i == 0 {
                    out.append("\n");
                } else {
                    out.append(",\n");
                }
                out.append(inner.as_str());
                proof {
                    broadcast use vstd::std_specs::vec::axiom_vec_index_decreases;

                    assert(decreases_to!(*items => items@[i as int]));
                }
                match write_json(&items[i], &inner, out) {
                    Ok(s) => {
                        out = s;
                    },
                    Err(e) => {
                        return Err(e);
                    },
                }
                assert(out@ =~= start + "["@ + json_items(items@, inner@, (i + 1) as nat));
                i += 1;
            }
            out.append("\n");
            out.append(indent.as_str());
            out.append("]");
            Ok(out)
        },
        Token::Object(members) => {
            if members.len() == 0 {
                out.append("{}");
                return Ok(out);
            }
            assert(decreases_to!(*t => *members));
            let mut inner = indent.clone();
            inner.append("  ");
            out.append("{");
            let mut i: usize = 0;
            while i < members.len()
                invariant
                    i <= members.len(),
                    out@ == start + "{"@ + json_members(members@, inner@, i as nat),
                    inner@ == indent@ + indent_step(),
                    *t == Token::Object(*members),
                    decreases_to!(*t => *members),
                decreases members.len() - i,
            {
                if i == 0 {
                    out.append("\n");
                } else {
                    out.append(",\n");
                }
                out.append(inner.as_str());
                match quote(members[i].0.as_str()) {
                    Ok(q) => {
                        out.append(q.as_str());
                    },
                    Err(e) => {
                        return Err(e);
                    },
                }
                out.append(": ");
                proof {
                    broadcast use vstd::std_specs::vec::axiom_vec_index_decreases;

                    assert(decreases_to!(*members => members@[i as int]));
                    assert(decreases_to!(members@[i as int] => members@[i as int].1));
                }
                match write_json(&members[i].1, &inner, out) {
                    Ok(s) => {
                        out = s;
                    },
                    Err(e) => {
                        return Err(e);
                    },
                }
                assert(out@ =~= start + "{"@ + json_members(members@, inner@, (i + 1) as nat));
                i += 1;
            }
            out.append("\n");
            out.append(indent.as_str());
            out.append("}");
            Ok(out)
        },
    }
}

/// The pretty-printed JSON of `tree`: two spaces of indentation per level,
/// one element or member per line, members in their order.
pub fn process_json(tree: &Token) -> (r: Result<String, serde_json::Error>)
    ensures
        r is Ok,
        r->Ok_0@ == json_text(*tree, seq![]),
{
    let indent = String::new();
    let r = write_json(tree, &indent, String::new());
    assert(r->Ok_0@ =~= json_text(*tree, seq![]));
    r
}

/// The text of the typed module constant wrapped around `json`.
pub open spec fn module_text(json: Seq<char>) -> Seq<char> {
    "\nexport const themeData = "@ + json + " as const;\n\nexport type ThemeType = typeof themeData;\n  "@
}

/// `tree` as a read-only module constant `themeData`, with the type alias
/// `ThemeType` of its shape.
pub fn process_ts(tree: &Token) -> (r: Result<String, serde_json::Error>)
    ensures
        r is Ok,
        r->Ok_0@ == module_text(json_text(*tree, seq![])),
{
    match process_json(tree) {
        Ok(json) => {
            let mut r = String::new();
            r.append("\nexport const themeData = ");
            r.append(json.as_str());
            r.append(" as const;\n\nexport type ThemeType = typeof themeData;\n  ");
            Ok(r)
        },
        Err(e) => Err(e),
    }
}

} // verus!
