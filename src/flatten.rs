use crate::token::{bool_text, leaf_text, Token};
use vstd::prelude::*;
use vstd::string::StringExecFns;

verus! {

/// One flattened leaf: the path from the root and the leaf's text.
pub type FlatTokenListItem = (Vec<String>, String);

/// A path of segments, as character sequences.
pub open spec fn path_view(p: Seq<String>) -> Seq<Seq<char>> {
    p.map_values(|s: String| s@)
}

/// A flattened entry, as character sequences.
pub open spec fn entry_view(e: FlatTokenListItem) -> (Seq<Seq<char>>, Seq<char>) {
    (path_view(e.0@), e.1@)
}

pub open spec fn entries_view(v: Seq<FlatTokenListItem>) -> Seq<(Seq<Seq<char>>, Seq<char>)> {
    v.map_values(|e: FlatTokenListItem| entry_view(e))
}

/// The digit character for `d < 10`.
pub open spec fn digit_char(d: nat) -> char {
    ((d + 48) as u8) as char
}

/// Decimal text of a natural number, without leading zeros.
pub open spec fn decimal_text(n: nat) -> Seq<char>
    decreases n,
{
    if n < 10 {
        seq![digit_char(n)]
    } else {
        decimal_text(n / 10).push(digit_char(n % 10))
    }
}

/// The entries of the tree `t`, reached under `prefix`, in traversal order.
pub open spec fn flat(t: Token, prefix: Seq<Seq<char>>) -> Seq<(Seq<Seq<char>>, Seq<char>)>
    decreases t, 0nat,
{
    match t {
        Token::Null => seq![],
        Token::Bool(b) => seq![(prefix, bool_text(b))],
        Token::Number(n) => seq![(prefix, n@)],
        Token::Str(s) => seq![(prefix, s@)],
        Token::Array(items) => flat_items(items@, prefix, items@.len()),
        Token::Object(members) => flat_members(members@, prefix, members@.len()),
    }
}

/// The entries of the first `n` array elements; element `i` is reached
/// through the segment `i + 1`.
pub open spec fn flat_items(items: Seq<Token>, prefix: Seq<Seq<char>>, n: nat) -> Seq<
    (Seq<Seq<char>>, Seq<char>),
>
    decreases items, n,
{
    if n == 0 || n > items.len() {
        seq![]
    } else {
        flat_items(items, prefix, (n - 1) as nat) + flat(
            items[n - 1],
            prefix.push(decimal_text(n)),
        )
    }
}

/// The entries of the first `n` object members, each reached through its key.
pub open spec fn flat_members(
    members: Seq<(String, Token)>,
    prefix: Seq<Seq<char>>,
    n: nat,
) -> Seq<(Seq<Seq<char>>, Seq<char>)>
    decreases members, n,
{
    if n == 0 || n > members.len() {
        seq![]
    } else {
        flat_members(members, prefix, (n - 1) as nat) + flat(
            members[n - 1].1,
            prefix.push(members[n - 1].0@),
        )
    }
}

/// The text of a single decimal digit.
fn digit_str(d: usize) -> (r: &'static str)
    requires
        d < 10,
    ensures
        r@ == seq![digit_char(d as nat)],
{
    proof {
        reveal_strlit("0");
        reveal_strlit("1");
        reveal_strlit("2");
        reveal_strlit("3");
        reveal_strlit("4");
        reveal_strlit("5");
        reveal_strlit("6");
        reveal_strlit("7");
        reveal_strlit("8");
        reveal_strlit("9");
    }
    let r = match d {
        0 => "0",
        1 => "1",
        2 => "2",
        3 => "3",
        4 => "4",
        5 => "5",
        6 => "6",
        7 => "7",
        8 => "8",
        _ => "9",
    };
    assert(r@ =~= seq![digit_char(d as nat)]);
    r
}

/// Decimal text of `n`.
pub fn decimal(n: usize) -> (r: String)
    ensures
        r@ == decimal_text(n as nat),
    decreases n,
{
    if n < 10 {
        digit_str(n).to_owned()
    } else {
        let mut r = decimal(n / 10);
        r.append(digit_str(n % 10));
        assert(r@ =~= decimal_text(n as nat));
        r
    }
}

/// `prefix` followed by `segment`.
fn extend_path(prefix: &Vec<String>, segment: String) -> (r: Vec<String>)
    ensures
        path_view(r@) == path_view(prefix@).push(segment@),
{
    let mut r: Vec<String> = Vec::new();
    let mut i: usize = 0;
    while i < prefix.len()
        invariant
            i <= prefix.len(),
            r.len() == i,
            forall|j: int| 0 <= j < i ==> #[trigger] r@[j]@ == prefix@[j]@,
        decreases prefix.len() - i,
    {
        let segment_i = prefix[i].clone();
        r.push(segment_i);
        i += 1;
    }
    r.push(segment);
    assert(path_view(r@) =~= path_view(prefix@).push(segment@));
    r
}

proof fn lemma_entries_push(v: Seq<FlatTokenListItem>, e: FlatTokenListItem)
    ensures
        entries_view(v.push(e)) == entries_view(v) + seq![entry_view(e)],
{
    assert(entries_view(v.push(e)) =~= entries_view(v) + seq![entry_view(e)]);
}

/// Appends to `value_list` the entries of the tree `value`, each path
/// starting with `prefix_list`.
pub fn convert_to_flat_list(
    value: &Token,
    value_list: Vec<FlatTokenListItem>,
    prefix_list: Vec<String>,
) -> (r: Vec<FlatTokenListItem>)
    ensures
        entries_view(r@) == entries_view(value_list@) + flat(*value, path_view(prefix_list@)),
    decreases value,
{
    let ghost start = entries_view(value_list@);
    let ghost prefix = path_view(prefix_list@);
    let mut out = value_list;
    match value {
        Token::Null => {
            assert(start + flat(*value, prefix) =~= start);
        },
        Token::Bool(b) => {
            let text = if *b {
                "true".to_owned()
            } else {
                "false".to_owned()
            };
            let item = (prefix_list, text);
            proof {
                lemma_entries_push(out@, item);
            }
            out.push(item);
        },
        Token::Number(n) => {
            let item = (prefix_list, n.clone());
            proof {
                lemma_entries_push(out@, item);
            }
            out.push(item);
        },
        Token::Str(s) => {
            let item = (prefix_list, s.clone());
            proof {
                lemma_entries_push(out@, item);
            }
            out.push(item);
        },
        Token::Array(items) => {
            assert(decreases_to!(*value => *items));
            let mut i: usize = 0;
            while i < items.len()
                invariant
                    i <= items.len(),
                    entries_view(out@) == start + flat_items(items@, prefix, i as nat),
                    prefix == path_view(prefix_list@),
                    *value == Token::Array(*items),
                    decreases_to!(*value => *items),
                decreases items.len() - i,
            {
                let segment = decimal(i + 1);
                let path = extend_path(&prefix_list, segment);
                proof {
                    broadcast use vstd::std_specs::vec::axiom_vec_index_decreases;

                    assert(decreases_to!(*items => items@[i as int]));
                    assert(decreases_to!(*value => items@[i as int]));
                }
                out = convert_to_flat_list(&items[i], out, path);
                assert(start + flat_items(items@, prefix, (i + 1) as nat) =~= start + flat_items(
                    items@,
                    prefix,
                    i as nat,
                ) + flat(items@[i as int], prefix.push(decimal_text((i + 1) as nat))));
                i += 1;
            }
        },
        Token::Object(members) => {
            assert(decreases_to!(*value => *members));
            let mut i: usize = 0;
            while i < members.len()
                invariant
                    i <= members.len(),
                    entries_view(out@) == start + flat_members(members@, prefix, i as nat),
                    prefix == path_view(prefix_list@),
                    *value == Token::Object(*members),
                    decreases_to!(*value => *members),
                decreases members.len() - i,
            {
                let path = extend_path(&prefix_list, members[i].0.clone());
                proof {
                    broadcast use vstd::std_specs::vec::axiom_vec_index_decreases;

                    assert(decreases_to!(*members => members@[i as int]));
                    assert(decreases_to!(members@[i as int] => members@[i as int].1));
                    assert(decreases_to!(*value => members@[i as int].1));
                }
                out = convert_to_flat_list(&members[i].1, out, path);
                assert(start + flat_members(members@, prefix, (i + 1) as nat) =~= start
                    + flat_members(members@, prefix, i as nat) + flat(
                    members@[i as int].1,
                    prefix.push(members@[i as int].0@),
                ));
                i += 1;
            }
        },
    }
    out
}

/// The flattened entries of `tree`, in traversal order: object members in
/// their order, array elements by index, `Null` leaves left out.
pub fn flatten(tree: &Token) -> (r: Vec<FlatTokenListItem>)
    ensures
        entries_view(r@) == flat(*tree, seq![]),
{
    let r = convert_to_flat_list(tree, Vec::new(), Vec::new());
    assert(path_view(Seq::<String>::empty()) =~= seq![]);
    assert(entries_view(Seq::<FlatTokenListItem>::empty()) + flat(*tree, seq![]) =~= flat(*tree, seq![]));
    r
}

/// The scalar leaves of `t` other than `Null`, in traversal order.
pub open spec fn scalar_leaves(t: Token) -> Seq<Token>
    decreases t, 0nat,
{
    match t {
        Token::Null => seq![],
        Token::Array(items) => item_leaves(items@, items@.len()),
        Token::Object(members) => member_leaves(members@, members@.len()),
        _ => seq![t],
    }
}

/// The scalar leaves of the first `n` array elements.
pub open spec fn item_leaves(items: Seq<Token>, n: nat) -> Seq<Token>
    decreases items, n,
{
    if n == 0 || n > items.len() {
        seq![]
    } else {
        item_leaves(items, (n - 1) as nat) + scalar_leaves(items[n - 1])
    }
}

/// The scalar leaves of the first `n` object members.
pub open spec fn member_leaves(members: Seq<(String, Token)>, n: nat) -> Seq<Token>
    decreases members, n,
{
    if n == 0 || n > members.len() {
        seq![]
    } else {
        member_leaves(members, (n - 1) as nat) + scalar_leaves(members[n - 1].1)
    }
}

/// Entry `i` of `entries` carries the text of leaf `i` of `leaves`, and its
/// path starts with `prefix`.
pub open spec fn entries_match_leaves(
    entries: Seq<(Seq<Seq<char>>, Seq<char>)>,
    leaves: Seq<Token>,
    prefix: Seq<Seq<char>>,
) -> bool {
    &&& entries.len() == leaves.len()
    &&& forall|i: int|
        0 <= i < entries.len() ==> leaf_text(leaves[i]) == Some(#[trigger] entries[i].1)
            && prefix.len() <= entries[i].0.len() && entries[i].0.subrange(0, prefix.len() as int)
            == prefix
}

proof fn lemma_concat_match(
    e1: Seq<(Seq<Seq<char>>, Seq<char>)>,
    l1: Seq<Token>,
    e2: Seq<(Seq<Seq<char>>, Seq<char>)>,
    l2: Seq<Token>,
    prefix: Seq<Seq<char>>,
    inner: Seq<Seq<char>>,
)
    requires
        entries_match_leaves(e1, l1, prefix),
        entries_match_leaves(e2, l2, inner),
        prefix.len() < inner.len(),
        inner.subrange(0, prefix.len() as int) == prefix,
    ensures
        entries_match_leaves(e1 + e2, l1 + l2, prefix),
{
    assert forall|i: int| 0 <= i < (e1 + e2).len() implies leaf_text((l1 + l2)[i]) == Some(
        #[trigger] (e1 + e2)[i].1,
    ) && prefix.len() <= (e1 + e2)[i].0.len() && (e1 + e2)[i].0.subrange(0, prefix.len() as int)
        == prefix by {
        if i < e1.len() {
            assert(leaf_text(l1[i]) == Some(e1[i].1));
        } else {
            let k = i - e1.len();
            assert(leaf_text(l2[k]) == Some(e2[k].1));
            let path = e2[k].0;
            assert(path.subrange(0, inner.len() as int) == inner);
            assert(path.subrange(0, prefix.len() as int) =~= inner.subrange(
                0,
                prefix.len() as int,
            ));
        }
    }
}

/// Flattening gives one entry per scalar leaf other than `Null`, in
/// traversal order; each entry carries that leaf's text, and its path
/// starts with `prefix`.
pub proof fn lemma_flat_leaves(t: Token, prefix: Seq<Seq<char>>)
    ensures
        entries_match_leaves(flat(t, prefix), scalar_leaves(t), prefix),
    decreases t, 0nat,
{
    match t {
        Token::Array(items) => {
            lemma_flat_item_leaves(items@, prefix, items@.len());
        },
        Token::Object(members) => {
            lemma_flat_member_leaves(members@, prefix, members@.len());
        },
        _ => {
            assert(prefix.subrange(0, prefix.len() as int) =~= prefix);
        },
    }
}

pub(crate) proof fn lemma_flat_item_leaves(items: Seq<Token>, prefix: Seq<Seq<char>>, n: nat)
    ensures
        entries_match_leaves(flat_items(items, prefix, n), item_leaves(items, n), prefix),
    decreases items, n,
{
    if n > 0 && n <= items.len() {
        let inner = prefix.push(decimal_text(n));
        lemma_flat_item_leaves(items, prefix, (n - 1) as nat);
        lemma_flat_leaves(items[n - 1], inner);
        assert(inner.subrange(0, prefix.len() as int) =~= prefix);
        lemma_concat_match(
            flat_items(items, prefix, (n - 1) as nat),
            item_leaves(items, (n - 1) as nat),
            flat(items[n - 1], inner),
            scalar_leaves(items[n - 1]),
            prefix,
            inner,
        );
    }
}

pub(crate) proof fn lemma_flat_member_leaves(members: Seq<(String, Token)>, prefix: Seq<Seq<char>>, n: nat)
    ensures
        entries_match_leaves(flat_members(members, prefix, n), member_leaves(members, n), prefix),
    decreases members, n,
{
    if n > 0 && n <= members.len() {
        let inner = prefix.push(members[n - 1].0@);
        lemma_flat_member_leaves(members, prefix, (n - 1) as nat);
        lemma_flat_leaves(members[n - 1].1, inner);
        assert(inner.subrange(0, prefix.len() as int) =~= prefix);
        lemma_concat_match(
            flat_members(members, prefix, (n - 1) as nat),
            member_leaves(members, (n - 1) as nat),
            flat(members[n - 1].1, inner),
            scalar_leaves(members[n - 1].1),
            prefix,
            inner,
        );
    }
}

/// No entry comes from a `Null` leaf: the value of every entry is the text
/// of a leaf that is a boolean, a number or a string.
pub proof fn lemma_flatten_skips_null(tree: Token)
    ensures
        forall|i: int|
            0 <= i < flat(tree, seq![]).len() ==> !(#[trigger] scalar_leaves(tree)[i] is Null)
                && leaf_text(scalar_leaves(tree)[i]) == Some(flat(tree, seq![])[i].1),
{
    let root: Seq<Seq<char>> = seq![];
    lemma_flat_leaves(tree, root);
    assert forall|i: int| 0 <= i < flat(tree, root).len() implies !(#[trigger] scalar_leaves(
        tree,
    )[i] is Null) && leaf_text(scalar_leaves(tree)[i]) == Some(flat(tree, root)[i].1) by {
        assert(leaf_text(scalar_leaves(tree)[i]) == Some(flat(tree, root)[i].1));
    }
}

/// The number of entries equals the number of scalar leaves other than `Null`.
pub proof fn lemma_flatten_count(tree: Token)
    ensures
        flat(tree, seq![]).len() == scalar_leaves(tree).len(),
{
    lemma_flat_leaves(tree, seq![]);
}

/// Flattening is deterministic: two runs on the same tree give the same
/// ordered list.
pub proof fn lemma_flatten_deterministic(
    tree: Token,
    first: Seq<FlatTokenListItem>,
    second: Seq<FlatTokenListItem>,
)
    requires
        entries_view(first) == flat(tree, seq![]),
        entries_view(second) == flat(tree, seq![]),
    ensures
        entries_view(first) == entries_view(second),
{
}

proof fn lemma_flat_items_extend(items: Seq<Token>, prefix: Seq<Seq<char>>, m: nat, n: nat)
    requires
        m <= n <= items.len(),
    ensures
        flat_items(items, prefix, m).len() <= flat_items(items, prefix, n).len(),
        forall|i: int|
            0 <= i < flat_items(items, prefix, m).len() ==> #[trigger] flat_items(
                items,
                prefix,
                n,
            )[i] == flat_items(items, prefix, m)[i],
    decreases n,
{
    if m < n {
        lemma_flat_items_extend(items, prefix, m, (n - 1) as nat);
    }
}

/// Array elements are numbered from 1 in paths: every entry that comes from
/// the first element has `"1"` as the segment after the array's own path.
pub proof fn lemma_first_element_segment(items: Vec<Token>, prefix: Seq<Seq<char>>)
    requires
        items.len() > 0,
    ensures
        forall|i: int|
            0 <= i < flat(items@[0], prefix.push("1"@)).len() ==> (#[trigger] flat(
                Token::Array(items),
                prefix,
            )[i]).0[prefix.len() as int] == "1"@,
{
    reveal_strlit("1");
    assert(digit_char(1) == '1');
    assert(decimal_text(1) =~= "1"@);
    let inner = prefix.push("1"@);
    lemma_flat_leaves(items@[0], inner);
    lemma_flat_items_extend(items@, prefix, 1, items@.len());
    assert(flat_items(items@, prefix, 0) =~= seq![]);
    assert(prefix.push(decimal_text(1)) == inner);
    assert(flat_items(items@, prefix, 1) =~= flat(items@[0], inner));
    assert forall|i: int| 0 <= i < flat(items@[0], inner).len() implies (#[trigger] flat(
        Token::Array(items),
        prefix,
    )[i]).0[prefix.len() as int] == "1"@ by {
        assert(leaf_text(scalar_leaves(items@[0])[i]) == Some(flat(items@[0], inner)[i].1));
        let path = flat(items@[0], inner)[i].0;
        assert(path.subrange(0, inner.len() as int) == inner);
        assert(path[prefix.len() as int] == path.subrange(0, inner.len() as int)[prefix.len() as int]);
    }
}

/// The decimal text of a positive number never starts with `0`; in
/// particular it is never `"0"`.
pub proof fn lemma_decimal_no_leading_zero(n: nat)
    requires
        n >= 1,
    ensures
        decimal_text(n).len() >= 1,
        decimal_text(n)[0] != '0',
    decreases n,
{
    if n >= 10 {
        lemma_decimal_no_leading_zero(n / 10);
    }
}

/// Array elements are numbered from 1 in paths: the entries of element `k`
/// form one block of the array's entries, in order, and each of them has
/// the decimal text of `k + 1`, never `"0"`, as the segment after the
/// array's own path.
pub proof fn lemma_element_segments(items: Vec<Token>, prefix: Seq<Seq<char>>, k: int)
    requires
        0 <= k < items.len(),
    ensures
        decimal_text((k + 1) as nat) != "0"@,
        forall|j: int|
            0 <= j < flat(items@[k], prefix.push(decimal_text((k + 1) as nat))).len() ==> {
                let e = flat(Token::Array(items), prefix)[flat_items(items@, prefix, k as nat).len()
                    + j];
                &&& e == #[trigger] flat(items@[k], prefix.push(decimal_text((k + 1) as nat)))[j]
                &&& e.0[prefix.len() as int] == decimal_text((k + 1) as nat)
            },
{
    reveal_strlit("0");
    lemma_decimal_no_leading_zero((k + 1) as nat);
    assert(decimal_text((k + 1) as nat)[0] != "0"@[0]);
    let inner = prefix.push(decimal_text((k + 1) as nat));
    let before = flat_items(items@, prefix, k as nat);
    lemma_flat_leaves(items@[k], inner);
    lemma_flat_items_extend(items@, prefix, (k + 1) as nat, items@.len());
    assert(flat_items(items@, prefix, (k + 1) as nat) == before + flat(items@[k], inner));
    assert forall|j: int| 0 <= j < flat(items@[k], inner).len() implies {
        let e = flat(Token::Array(items), prefix)[before.len() + j];
        &&& e == #[trigger] flat(items@[k], inner)[j]
        &&& e.0[prefix.len() as int] == decimal_text((k + 1) as nat)
    } by {
        assert(flat_items(items@, prefix, (k + 1) as nat)[before.len() + j] == flat(
            items@[k],
            inner,
        )[j]);
        assert(leaf_text(scalar_leaves(items@[k])[j]) == Some(flat(items@[k], inner)[j].1));
        let path = flat(items@[k], inner)[j].0;
        assert(path.subrange(0, inner.len() as int) == inner);
        assert(path[prefix.len() as int] == path.subrange(0, inner.len() as int)[prefix.len() as int]);
    }
}

} // verus!

