use crate::flatten::{
    decimal_text, digit_char, flat, flat_items, flat_members, item_leaves, lemma_flat_leaves,
    member_leaves, scalar_leaves, lemma_flat_item_leaves, lemma_flat_member_leaves,
};
use crate::token::{
    distinct_keys, items_keys_unique, keys_unique, leaf_text, members_keys_unique, Token,
};
use vstd::prelude::*;

verus! {

proof fn lemma_digit_injective(a: nat, b: nat)
    requires
        a < 10,
        b < 10,
        digit_char(a) == digit_char(b),
    ensures
        a == b,
{
}

proof fn lemma_decimal_len(n: nat)
    ensures
        decimal_text(n).len() >= 1,
        n >= 10 ==> decimal_text(n).len() >= 2,
    decreases n,
{
    if n >= 10 {
        lemma_decimal_len(n / 10);
    }
}

/// Different numbers have different decimal texts.
pub proof fn lemma_decimal_injective(a: nat, b: nat)
    requires
        decimal_text(a) == decimal_text(b),
    ensures
        a == b,
    decreases a,
{
    lemma_decimal_len(a);
    lemma_decimal_len(b);
    if a >= 10 && b >= 10 {
        let da = decimal_text(a);
        let db = decimal_text(b);
        assert(da.last() == db.last());
        lemma_digit_injective(a % 10, b % 10);
        assert(da.drop_last() =~= decimal_text(a / 10));
        assert(db.drop_last() =~= decimal_text(b / 10));
        lemma_decimal_injective(a / 10, b / 10);
    } else if a < 10 && b < 10 {
        assert(decimal_text(a) == seq![digit_char(a)]);
        assert(decimal_text(b) == seq![digit_char(b)]);
        assert(seq![digit_char(a)][0] == seq![digit_char(b)][0]);
        lemma_digit_injective(a, b);
    }
}

/// The array element named by the segment `seg` among the first `n`: the
/// one whose 1-based index has the decimal text `seg`.
pub open spec fn item_named(items: Seq<Token>, seg: Seq<char>, n: nat) -> Option<Token>
    decreases n,
{
    if n == 0 || n > items.len() {
        None
    } else if decimal_text(n) == seg {
        Some(items[n - 1])
    } else {
        item_named(items, seg, (n - 1) as nat)
    }
}

/// The value of the member with key `key` among the first `n` members.
pub open spec fn member_named(members: Seq<(String, Token)>, key: Seq<char>, n: nat) -> Option<
    Token,
>
    decreases n,
{
    if n == 0 || n > members.len() {
        None
    } else if members[n - 1].0@ == key {
        Some(members[n - 1].1)
    } else {
        member_named(members, key, (n - 1) as nat)
    }
}

/// The node of `t` that `path` leads to: object members by key, array
/// elements by 1-based index.
pub open spec fn node_at(t: Token, path: Seq<Seq<char>>) -> Option<Token>
    decreases path.len(),
{
    if path.len() == 0 {
        Some(t)
    } else {
        let child = match t {
            Token::Array(items) => item_named(items@, path[0], items@.len()),
            Token::Object(members) => member_named(members@, path[0], members@.len()),
            _ => None,
        };
        match child {
            Some(c) => node_at(c, path.drop_first()),
            None => None,
        }
    }
}

proof fn lemma_item_named(items: Seq<Token>, k: int, n: nat)
    requires
        0 <= k < n <= items.len(),
    ensures
        item_named(items, decimal_text((k + 1) as nat), n) == Some(items[k]),
    decreases n,
{
    if n - 1 != k {
        if decimal_text(n) == decimal_text((k + 1) as nat) {
            lemma_decimal_injective(n, (k + 1) as nat);
        }
        lemma_item_named(items, k, (n - 1) as nat);
    }
}

proof fn lemma_member_named(members: Seq<(String, Token)>, k: int, n: nat)
    requires
        0 <= k < n <= members.len(),
        distinct_keys(members),
    ensures
        member_named(members, members[k].0@, n) == Some(members[k].1),
    decreases n,
{
    if n - 1 != k {
        assert(members[k].0@ != members[n - 1].0@);
        lemma_member_named(members, k, (n - 1) as nat);
    }
}

proof fn lemma_items_keys_unique(items: Seq<Token>, n: nat, i: int)
    requires
        n <= items.len(),
        0 <= i < n,
        items_keys_unique(items, n),
    ensures
        keys_unique(items[i]),
    decreases n,
{
    if i < n - 1 {
        lemma_items_keys_unique(items, (n - 1) as nat, i);
    }
}

proof fn lemma_members_keys_unique(members: Seq<(String, Token)>, n: nat, i: int)
    requires
        n <= members.len(),
        0 <= i < n,
        members_keys_unique(members, n),
    ensures
        keys_unique(members[i].1),
    decreases n,
{
    if i < n - 1 {
        lemma_members_keys_unique(members, (n - 1) as nat, i);
    }
}

/// The part of `path` after its first `k` segments.
pub open spec fn path_after(path: Seq<Seq<char>>, k: int) -> Seq<Seq<char>> {
    path.subrange(k, path.len() as int)
}

/// In a tree whose objects have distinct keys, the path of each entry, past
/// `prefix`, leads to leaf `i` of the tree's scalar leaves.
pub proof fn lemma_flat_paths(t: Token, prefix: Seq<Seq<char>>)
    requires
        keys_unique(t),
    ensures
        forall|i: int|
            0 <= i < flat(t, prefix).len() ==> node_at(
                t,
                path_after(#[trigger] flat(t, prefix)[i].0, prefix.len() as int),
            ) == Some(scalar_leaves(t)[i]),
    decreases t, 0nat,
{
    lemma_flat_leaves(t, prefix);
    match t {
        Token::Array(items) => {
            lemma_flat_item_paths(items@, prefix, items@.len());
            assert forall|i: int| 0 <= i < flat(t, prefix).len() implies node_at(
                t,
                path_after(#[trigger] flat(t, prefix)[i].0, prefix.len() as int),
            ) == Some(scalar_leaves(t)[i]) by {
                let s = path_after(flat(t, prefix)[i].0, prefix.len() as int);
                assert(s.len() >= 1);
            }
        },
        Token::Object(members) => {
            lemma_flat_member_paths(members@, prefix, members@.len());
            assert forall|i: int| 0 <= i < flat(t, prefix).len() implies node_at(
                t,
                path_after(#[trigger] flat(t, prefix)[i].0, prefix.len() as int),
            ) == Some(scalar_leaves(t)[i]) by {
                let s = path_after(flat(t, prefix)[i].0, prefix.len() as int);
                assert(s.len() >= 1);
            }
        },
        Token::Null => {},
        _ => {
            assert(path_after(prefix, prefix.len() as int) =~= seq![]);
        },
    }
}

proof fn lemma_flat_item_paths(items: Seq<Token>, prefix: Seq<Seq<char>>, n: nat)
    requires
        n <= items.len(),
        items_keys_unique(items, items.len()),
    ensures
        forall|i: int|
            0 <= i < flat_items(items, prefix, n).len() ==> {
                let s = path_after(
                    #[trigger] flat_items(items, prefix, n)[i].0,
                    prefix.len() as int,
                );
                &&& s.len() >= 1
                &&& item_named(items, s[0], items.len()) is Some
                &&& node_at(item_named(items, s[0], items.len())->0, s.drop_first()) == Some(
                    item_leaves(items, n)[i],
                )
            },
    decreases items, n,
{
    if n > 0 {
        let k = n - 1;
        let inner = prefix.push(decimal_text(n));
        let before = flat_items(items, prefix, k as nat);
        let block = flat(items[k], inner);
        lemma_flat_item_paths(items, prefix, k as nat);
        lemma_items_keys_unique(items, items.len(), k);
        lemma_flat_paths(items[k], inner);
        lemma_flat_leaves(items[k], inner);
        lemma_item_named(items, k, items.len());
        lemma_flat_item_leaves(items, prefix, k as nat);
        assert(flat_items(items, prefix, n) == before + block);
        assert(item_leaves(items, n) == item_leaves(items, k as nat) + scalar_leaves(items[k]));
        assert forall|i: int| 0 <= i < flat_items(items, prefix, n).len() implies {
            let s = path_after(#[trigger] flat_items(items, prefix, n)[i].0, prefix.len() as int);
            &&& s.len() >= 1
            &&& item_named(items, s[0], items.len()) is Some
            &&& node_at(item_named(items, s[0], items.len())->0, s.drop_first()) == Some(
                item_leaves(items, n)[i],
            )
        } by {
            if i < before.len() {
                assert(flat_items(items, prefix, n)[i] == before[i]);
                assert(item_leaves(items, n)[i] == item_leaves(items, k as nat)[i]);
            } else {
                let j = i - before.len();
                assert(flat_items(items, prefix, n)[i] == block[j]);
                assert(item_leaves(items, n)[i] == scalar_leaves(items[k])[j]);
                assert(leaf_text(scalar_leaves(items[k])[j]) == Some(block[j].1));
                let path = block[j].0;
                assert(path.subrange(0, inner.len() as int) == inner);
                assert(path[prefix.len() as int] == path.subrange(0, inner.len() as int)[prefix.len() as int]);
                let s = path_after(path, prefix.len() as int);
                assert(s[0] == decimal_text(n));
                assert(s.drop_first() =~= path_after(path, inner.len() as int));
            }
        }
    }
}

proof fn lemma_flat_member_paths(members: Seq<(String, Token)>, prefix: Seq<Seq<char>>, n: nat)
    requires
        n <= members.len(),
        distinct_keys(members),
        members_keys_unique(members, members.len()),
    ensures
        forall|i: int|
            0 <= i < flat_members(members, prefix, n).len() ==> {
                let s = path_after(
                    #[trigger] flat_members(members, prefix, n)[i].0,
                    prefix.len() as int,
                );
                &&& s.len() >= 1
                &&& member_named(members, s[0], members.len()) is Some
                &&& node_at(member_named(members, s[0], members.len())->0, s.drop_first())
                    == Some(member_leaves(members, n)[i])
            },
    decreases members, n,
{
    if n > 0 {
        let k = n - 1;
        let inner = prefix.push(members[k].0@);
        let before = flat_members(members, prefix, k as nat);
        let block = flat(members[k].1, inner);
        lemma_flat_member_paths(members, prefix, k as nat);
        lemma_members_keys_unique(members, members.len(), k);
        lemma_flat_paths(members[k].1, inner);
        lemma_flat_leaves(members[k].1, inner);
        lemma_member_named(members, k, members.len());
        lemma_flat_member_leaves(members, prefix, k as nat);
        assert(flat_members(members, prefix, n) == before + block);
        assert(member_leaves(members, n) == member_leaves(members, k as nat) + scalar_leaves(
            members[k].1,
        ));
        assert forall|i: int| 0 <= i < flat_members(members, prefix, n).len() implies {
            let s = path_after(
                #[trigger] flat_members(members, prefix, n)[i].0,
                prefix.len() as int,
            );
            &&& s.len() >= 1
            &&& member_named(members, s[0], members.len()) is Some
            &&& node_at(member_named(members, s[0], members.len())->0, s.drop_first()) == Some(
                member_leaves(members, n)[i],
            )
        } by {
            if i < before.len() {
                assert(flat_members(members, prefix, n)[i] == before[i]);
                assert(member_leaves(members, n)[i] == member_leaves(members, k as nat)[i]);
            } else {
                let j = i - before.len();
                assert(flat_members(members, prefix, n)[i] == block[j]);
                assert(member_leaves(members, n)[i] == scalar_leaves(members[k].1)[j]);
                assert(leaf_text(scalar_leaves(members[k].1)[j]) == Some(block[j].1));
                let path = block[j].0;
                assert(path.subrange(0, inner.len() as int) == inner);
                assert(path[prefix.len() as int] == path.subrange(0, inner.len() as int)[prefix.len() as int]);
                let s = path_after(path, prefix.len() as int);
                assert(s[0] == members[k].0@);
                assert(s.drop_first() =~= path_after(path, inner.len() as int));
            }
        }
    }
}

/// In a tree whose objects have distinct keys, every flattened entry's path
/// leads to a leaf that is a boolean, a number or a string, never `Null`
/// nor a container, and the entry carries that leaf's text; a `Null` leaf
/// therefore contributes no entry.
pub proof fn lemma_entry_reaches_leaf(tree: Token)
    requires
        keys_unique(tree),
    ensures
        forall|i: int|
            0 <= i < flat(tree, seq![]).len() ==> {
                let node = node_at(tree, (#[trigger] flat(tree, seq![])[i]).0);
                &&& node is Some
                &&& leaf_text(node->0) == Some(flat(tree, seq![])[i].1)
            },
{
    let root: Seq<Seq<char>> = seq![];
    lemma_flat_paths(tree, root);
    lemma_flat_leaves(tree, root);
    assert forall|i: int| 0 <= i < flat(tree, root).len() implies {
        let node = node_at(tree, (#[trigger] flat(tree, root)[i]).0);
        &&& node is Some
        &&& leaf_text(node->0) == Some(flat(tree, root)[i].1)
    } by {
        let path = flat(tree, root)[i].0;
        assert(path_after(path, 0) =~= path);
        assert(leaf_text(scalar_leaves(tree)[i]) == Some(flat(tree, root)[i].1));
    }
}

/// Following `q` and then `r` reaches the node that `r` reaches from the
/// node at `q`.
pub proof fn lemma_node_at_append(t: Token, q: Seq<Seq<char>>, r: Seq<Seq<char>>)
    requires
        node_at(t, q) is Some,
    ensures
        node_at(t, q + r) == node_at(node_at(t, q)->0, r),
    decreases q.len(),
{
    if q.len() == 0 {
        assert(q + r =~= r);
    } else {
        let child = match t {
            Token::Array(items) => item_named(items@, q[0], items@.len()),
            Token::Object(members) => member_named(members@, q[0], members@.len()),
            _ => None,
        };
        assert((q + r)[0] == q[0]);
        assert((q + r).drop_first() =~= q.drop_first() + r);
        lemma_node_at_append(child->0, q.drop_first(), r);
    }
}

proof fn lemma_item_named_index(items: Seq<Token>, seg: Seq<char>, n: nat)
    requires
        item_named(items, seg, n) is Some,
    ensures
        exists|m: nat| 1 <= m <= n && #[trigger] decimal_text(m) == seg,
    decreases n,
{
    if decimal_text(n) != seg {
        lemma_item_named_index(items, seg, (n - 1) as nat);
    }
}

/// Array elements are numbered from 1 at any depth: where an entry's path
/// passes through an array at the sub-path `q`, the next segment is the
/// decimal text of a number from 1 to the array's length.
pub proof fn lemma_nested_element_segment(
    tree: Token,
    items: Vec<Token>,
    q: Seq<Seq<char>>,
    i: int,
)
    requires
        keys_unique(tree),
        node_at(tree, q) == Some(Token::Array(items)),
        0 <= i < flat(tree, seq![]).len(),
        flat(tree, seq![])[i].0.len() > q.len(),
        flat(tree, seq![])[i].0.subrange(0, q.len() as int) == q,
    ensures
        exists|m: nat|
            1 <= m <= items.len() && #[trigger] decimal_text(m) == flat(tree, seq![])[i].0[q.len() as int],
{
    let path = flat(tree, seq![])[i].0;
    let r = path_after(path, q.len() as int);
    lemma_entry_reaches_leaf(tree);
    assert(node_at(tree, flat(tree, seq![])[i].0) is Some);
    assert(path =~= q + r);
    lemma_node_at_append(tree, q, r);
    assert(r[0] == path[q.len() as int]);
    lemma_item_named_index(items@, r[0], items@.len());
}

} // verus!

