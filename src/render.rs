use crate::flatten::{entries_view, entry_view, FlatTokenListItem};
use crate::naming::{no_newline, variable_name, variable_name_of};
use vstd::prelude::*;
use vstd::string::StringExecFns;

verus! {

/// `lines` joined by newlines, with no newline after the last one.
pub open spec fn joined_lines(lines: Seq<Seq<char>>) -> Seq<char>
    decreases lines.len(),
{
    if lines.len() == 0 {
        seq![]
    } else if lines.len() == 1 {
        lines[0]
    } else {
        joined_lines(lines.drop_last()) + "\n"@ + lines.last()
    }
}

/// The number of newline characters in `s`.
pub open spec fn newline_count(s: Seq<char>) -> nat
    decreases s.len(),
{
    if s.len() == 0 {
        0
    } else {
        newline_count(s.drop_last()) + if s.last() == '\n' {
            1nat
        } else {
            0nat
        }
    }
}

proof fn lemma_newline_concat(a: Seq<char>, b: Seq<char>)
    ensures
        newline_count(a + b) == newline_count(a) + newline_count(b),
    decreases b.len(),
{
    if b.len() == 0 {
        assert(a + b =~= a);
    } else {
        assert((a + b).drop_last() =~= a + b.drop_last());
        lemma_newline_concat(a, b.drop_last());
    }
}

proof fn lemma_no_newline_count(s: Seq<char>)
    requires
        no_newline(s),
    ensures
        newline_count(s) == 0,
    decreases s.len(),
{
    if s.len() > 0 {
        lemma_no_newline_count(s.drop_last());
    }
}

proof fn lemma_joined_count(lines: Seq<Seq<char>>)
    requires
        lines.len() > 0,
        forall|k: int| 0 <= k < lines.len() ==> no_newline(#[trigger] lines[k]),
    ensures
        newline_count(joined_lines(lines)) == lines.len() - 1,
    decreases lines.len(),
{
    reveal_strlit("\n");
    if lines.len() == 1 {
        lemma_no_newline_count(lines[0]);
    } else {
        let rest = lines.drop_last();
        assert forall|k: int| 0 <= k < rest.len() implies no_newline(#[trigger] rest[k]) by {
            assert(rest[k] == lines[k]);
        }
        lemma_joined_count(rest);
        assert(no_newline(lines[lines.len() - 1]));
        lemma_no_newline_count(lines.last());
        assert("\n"@ == seq!['\n']);
        lemma_newline_concat(joined_lines(rest), "\n"@);
        lemma_newline_concat(joined_lines(rest) + "\n"@, lines.last());
        assert("\n"@.drop_last() =~= seq![]);
        assert(newline_count("\n"@.drop_last()) == 0);
        assert(newline_count("\n"@) == 1);
    }
}

/// The CSS declaration of one entry: `  --<name>: <value>;`.
pub open spec fn css_line(e: (Seq<Seq<char>>, Seq<char>)) -> Seq<char> {
    "  --"@ + variable_name_of(e.0) + ": "@ + e.1 + ";"@
}

/// The SCSS declaration of one entry: `$<name>: <value>;`.
pub open spec fn scss_line(e: (Seq<Seq<char>>, Seq<char>)) -> Seq<char> {
    "$"@ + variable_name_of(e.0) + ": "@ + e.1 + ";"@
}

/// The CSS text of a flattened list: one declaration per entry, in list
/// order, inside a `:root` block.
pub open spec fn css_text(entries: Seq<(Seq<Seq<char>>, Seq<char>)>) -> Seq<char> {
    "\n:root { \n"@ + joined_lines(entries.map_values(|e: (Seq<Seq<char>>, Seq<char>)| css_line(e)))
        + "\n}\n"@
}

/// The SCSS text of a flattened list: one declaration per entry, in list
/// order, with no enclosing block.
pub open spec fn scss_text(entries: Seq<(Seq<Seq<char>>, Seq<char>)>) -> Seq<char> {
    joined_lines(entries.map_values(|e: (Seq<Seq<char>>, Seq<char>)| scss_line(e)))
}

/// One declaration per entry, CSS or SCSS, separated by newlines.
fn declarations(flat_token_list: &Vec<FlatTokenListItem>, css: bool) -> (r: String)
    ensures
        css ==> r@ == joined_lines(
            entries_view(flat_token_list@).map_values(
                |e: (Seq<Seq<char>>, Seq<char>)| css_line(e),
            ),
        ),
        !css ==> r@ == scss_text(entries_view(flat_token_list@)),
        forall|k: int|
            0 <= k < flat_token_list@.len() ==> no_newline(
                variable_name_of(#[trigger] entries_view(flat_token_list@)[k].0),
            ),
{
    let ghost line = |e: (Seq<Seq<char>>, Seq<char>)|
        if css {
            css_line(e)
        } else {
            scss_line(e)
        };
    let mut r = String::new();
    let mut i: usize = 0;
    while i < flat_token_list.len()
        invariant
            i <= flat_token_list.len(),
            r@ == joined_lines(entries_view(flat_token_list@.take(i as int)).map_values(line)),
            forall|k: int|
                0 <= k < i ==> no_newline(
                    variable_name_of(#[trigger] entries_view(flat_token_list@)[k].0),
                ),
            line == (|e: (Seq<Seq<char>>, Seq<char>)|
                if css {
                    css_line(e)
                } else {
                    scss_line(e)
                }),
        decreases flat_token_list.len() - i,
    {
        let name = variable_name(&flat_token_list[i].0);
        if i > 0 {
            r.append("\n");
        }
        if css {
            r.append("  --");
        } else {
            r.append("$");
        }
        r.append(name.as_str());
        r.append(": ");
        r.append(flat_token_list[i].1.as_str());
        r.append(";");
        let ghost before = entries_view(flat_token_list@.take(i as int)).map_values(line);
        let ghost after = entries_view(flat_token_list@.take(i + 1)).map_values(line);
        assert(after.drop_last() =~= before);
        assert(after.last() == line(entry_view(flat_token_list@[i as int])));
        i += 1;
    }
    assert(flat_token_list@.take(i as int) =~= flat_token_list@);
    assert(entries_view(flat_token_list@).map_values(line) =~= entries_view(
        flat_token_list@,
    ).map_values(|e: (Seq<Seq<char>>, Seq<char>)| css_line(e)) || !css);
    assert(entries_view(flat_token_list@).map_values(line) =~= entries_view(
        flat_token_list@,
    ).map_values(|e: (Seq<Seq<char>>, Seq<char>)| scss_line(e)) || css);
    r
}

/// CSS custom properties for a flattened list. When no value holds a
/// newline, the text has one line per entry besides the three lines of the
/// enclosing block.
pub fn process_css(flat_token_list: &Vec<FlatTokenListItem>) -> (r: String)
    ensures
        r@ == css_text(entries_view(flat_token_list@)),
        flat_token_list@.len() > 0 && (forall|k: int|
            0 <= k < flat_token_list@.len() ==> no_newline(#[trigger] flat_token_list@[k].1@))
            ==> newline_count(r@) == flat_token_list@.len() + 3,
{
    let body = declarations(flat_token_list, true);
    proof {
        let entries = entries_view(flat_token_list@);
        let lines = entries.map_values(|e: (Seq<Seq<char>>, Seq<char>)| css_line(e));
        if flat_token_list@.len() > 0 && (forall|k: int|
            0 <= k < flat_token_list@.len() ==> no_newline(#[trigger] flat_token_list@[k].1@)) {
            reveal_strlit("  --");
            reveal_strlit(": ");
            reveal_strlit(";");
            reveal_strlit("\n:root { \n");
            reveal_strlit("\n}\n");
            assert forall|k: int| 0 <= k < lines.len() implies no_newline(#[trigger] lines[k]) by {
                assert(no_newline(flat_token_list@[k].1@));
                assert(no_newline(variable_name_of(entries[k].0)));
                assert(entries[k].1 == flat_token_list@[k].1@);
                let l = lines[k];
                assert forall|c: int| 0 <= c < l.len() implies #[trigger] l[c] != '\n' by {}
            }
            lemma_joined_count(lines);
            let head = "\n:root { \n"@;
            let tail = "\n}\n"@;
            reveal_with_fuel(newline_count, 11);
            assert(newline_count(head) == 2);
            assert(newline_count(tail) == 2);
            lemma_newline_concat(head, joined_lines(lines));
            lemma_newline_concat(head + joined_lines(lines), tail);
        }
    }
    let mut r = String::new();
    r.append("\n:root { \n");
    r.append(body.as_str());
    r.append("\n}\n");
    r
}

/// SCSS variables for a flattened list.
pub fn process_scss(flat_token_list: &Vec<FlatTokenListItem>) -> (r: String)
    ensures
        r@ == scss_text(entries_view(flat_token_list@)),
{
    declarations(flat_token_list, false)
}

} // verus!
