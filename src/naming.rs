use crate::flatten::path_view;
use vstd::prelude::*;
use vstd::string::{StrSliceExecFns, StringExecFns};

verus! {

/// The singular form of an English word, as the singularization rules give it.
pub uninterp spec fn singular_of(s: Seq<char>) -> Seq<char>;

/// The kebab-case form of a word: lower case, words separated by `-`.
pub uninterp spec fn kebab_of(s: Seq<char>) -> Seq<char>;

/// Relies on `inflector::string::singularize::to_singular`, whose result
/// depends on the text alone.
#[verifier::external_body]
fn singular(s: &str) -> (r: String)
    ensures
        r@ == singular_of(s@),
{
    inflector::string::singularize::to_singular(s)
}

/// Relies on `inflector::cases::kebabcase::to_kebab_case`, whose result
/// depends on the text alone. Characters that are not alphanumeric are
/// dropped or replaced by `-`, and the others pass through
/// `to_ascii_lowercase`, so the result holds no newline.
#[verifier::external_body]
fn kebab(s: &str) -> (r: String)
    ensures
        r@ == kebab_of(s@),
        no_newline(r@),
{
    inflector::cases::kebabcase::to_kebab_case(s)
}

/// `s` holds no newline character.
pub open spec fn no_newline(s: Seq<char>) -> bool {
    forall|i: int| 0 <= i < s.len() ==> #[trigger] s[i] != '\n'
}

/// A segment made of decimal digits only, such as an array index.
pub open spec fn is_index_segment(s: Seq<char>) -> bool {
    s.len() > 0 && forall|i: int| 0 <= i < s.len() ==> '0' <= #[trigger] s[i] <= '9'
}

/// The identifier form of one path segment: index segments are kept as
/// they are, other segments are singularized and then put in kebab case.
pub open spec fn identifier_of(s: Seq<char>) -> Seq<char> {
    if is_index_segment(s) {
        s
    } else {
        kebab_of(singular_of(s))
    }
}

/// The variable name of a path: the identifiers of its segments joined by `-`.
pub open spec fn variable_name_of(path: Seq<Seq<char>>) -> Seq<char>
    decreases path.len(),
{
    if path.len() == 0 {
        seq![]
    } else if path.len() == 1 {
        identifier_of(path[0])
    } else {
        variable_name_of(path.drop_last()) + "-"@ + identifier_of(path.last())
    }
}

/// Whether `segment` consists of decimal digits only.
pub fn is_index(segment: &str) -> (r: bool)
    ensures
        r == is_index_segment(segment@),
{
    let n = segment.unicode_len();
    if n == 0 {
        return false;
    }
    let mut i: usize = 0;
    while i < n
        invariant
            n == segment@.len(),
            i <= n,
            forall|j: int| 0 <= j < i ==> '0' <= #[trigger] segment@[j] <= '9',
        decreases n - i,
    {
        let c = segment.get_char(i);
        if !('0' <= c && c <= '9') {
            return false;
        }
        i += 1;
    }
    true
}

/// The identifier form of one path segment.
pub fn to_identifier(segment: &str) -> (r: String)
    ensures
        r@ == identifier_of(segment@),
        no_newline(r@),
{
    if is_index(segment) {
        assert(no_newline(segment@)) by {
            assert forall|i: int| 0 <= i < segment@.len() implies #[trigger] segment@[i] != '\n' by {
                assert('0' <= segment@[i] <= '9');
            }
        }
        segment.to_owned()
    } else {
        let one = singular(segment);
        kebab(one.as_str())
    }
}

/// The variable name of `path`: segment identifiers joined by `-`.
pub fn variable_name(path: &Vec<String>) -> (r: String)
    ensures
        r@ == variable_name_of(path_view(path@)),
        no_newline(r@),
{
    proof {
        reveal_strlit("-");
    }
    let mut r = String::new();
    let mut i: usize = 0;
    while i < path.len()
        invariant
            i <= path.len(),
            r@ == variable_name_of(path_view(path@.take(i as int))),
            no_newline(r@),
            "-"@ == seq!['-'],
        decreases path.len() - i,
    {
        let ident = to_identifier(path[i].as_str());
        let ghost before = path_view(path@.take(i as int));
        let ghost after = path_view(path@.take(i + 1));
        assert(after.drop_last() =~= before);
        assert(after.last() == path@[i as int]@);
        if i > 0 {
            r.append("-");
        }
        r.append(ident.as_str());
        i += 1;
    }
    assert(path@.take(i as int) =~= path@);
    r
}

/// Naming leaves a segment unchanged when the segment is already singular
/// and already in kebab case, so naming such a segment twice gives the
/// same result as naming it once.
pub proof fn lemma_identifier_idempotent(s: Seq<char>)
    requires
        singular_of(s) == s,
        kebab_of(s) == s,
    ensures
        identifier_of(s) == s,
        identifier_of(identifier_of(s)) == identifier_of(s),
{
}

/// Index segments are never renamed.
pub proof fn lemma_index_identifier(s: Seq<char>)
    requires
        is_index_segment(s),
    ensures
        identifier_of(s) == s,
{
}

/// The segments of `path` joined by `-`, unchanged.
pub open spec fn dash_joined(path: Seq<Seq<char>>) -> Seq<char>
    decreases path.len(),
{
    if path.len() == 0 {
        seq![]
    } else if path.len() == 1 {
        path[0]
    } else {
        dash_joined(path.drop_last()) + "-"@ + path.last()
    }
}

/// Naming is idempotent over whole paths: when every segment is an index
/// or already singular and in kebab case, the variable name is the
/// segments joined by `-`, and naming the named segments again gives the
/// same name.
pub proof fn lemma_variable_name_idempotent(path: Seq<Seq<char>>)
    requires
        forall|k: int|
            0 <= k < path.len() ==> is_index_segment(#[trigger] path[k]) || (singular_of(path[k])
                == path[k] && kebab_of(path[k]) == path[k]),
    ensures
        variable_name_of(path) == dash_joined(path),
        variable_name_of(path.map_values(|s: Seq<char>| identifier_of(s))) == variable_name_of(path),
    decreases path.len(),
{
    assert(path.map_values(|s: Seq<char>| identifier_of(s)) =~= path);
    if path.len() > 1 {
        let rest = path.drop_last();
        assert forall|k: int| 0 <= k < rest.len() implies is_index_segment(#[trigger] rest[k]) || (
        singular_of(rest[k]) == rest[k] && kebab_of(rest[k]) == rest[k]) by {
            assert(rest[k] == path[k]);
        }
        lemma_variable_name_idempotent(rest);
        assert(is_index_segment(path[path.len() - 1]) || singular_of(path[path.len() - 1])
            == path[path.len() - 1]);
    } else if path.len() == 1 {
        assert(is_index_segment(path[0]) || singular_of(path[0]) == path[0]);
    }
}

} // verus!

