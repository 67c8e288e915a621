use vstd::prelude::*;

verus! {

/// A node of a design-token document.
///
/// Object members keep the order in which they were read. A document read
/// as a mapping has distinct keys in each object, which `keys_unique`
/// states; flattening and rendering accept any tree.
#[derive(Debug, PartialEq, Eq)]
pub enum Token {
    Null,
    Bool(bool),
    /// A number, kept in the textual form it was written in.
    Number(String),
    Str(String),
    Array(Vec<Token>),
    Object(Vec<(String, Token)>),
}

/// The text of a boolean leaf.
pub open spec fn bool_text(b: bool) -> Seq<char> {
    if b {
        "true"@
    } else {
        "false"@
    }
}

/// The text a scalar leaf contributes; `None` for `Null` and containers.
pub open spec fn leaf_text(t: Token) -> Option<Seq<char>> {
    match t {
        Token::Bool(b) => Some(bool_text(b)),
        Token::Number(n) => Some(n@),
        Token::Str(s) => Some(s@),
        _ => None,
    }
}

/// The keys of `members` are pairwise distinct.
pub open spec fn distinct_keys(members: Seq<(String, Token)>) -> bool {
    forall|i: int, j: int|
        #![trigger members[i], members[j]]
        0 <= i < j < members.len() ==> members[i].0@ != members[j].0@
}

/// Every object of the tree, at any depth, has pairwise distinct keys, as a
/// mapping from keys to tokens does.
pub open spec fn keys_unique(t: Token) -> bool
    decreases t, 0nat,
{
    match t {
        Token::Array(items) => items_keys_unique(items@, items@.len()),
        Token::Object(members) => distinct_keys(members@) && members_keys_unique(
            members@,
            members@.len(),
        ),
        _ => true,
    }
}

/// The first `n` array elements all have distinct keys throughout.
pub open spec fn items_keys_unique(items: Seq<Token>, n: nat) -> bool
    decreases items, n,
{
    if n == 0 || n > items.len() {
        true
    } else {
        items_keys_unique(items, (n - 1) as nat) && keys_unique(items[n - 1])
    }
}

/// The values of the first `n` object members all have distinct keys
/// throughout.
pub open spec fn members_keys_unique(members: Seq<(String, Token)>, n: nat) -> bool
    decreases members, n,
{
    if n == 0 || n > members.len() {
        true
    } else {
        members_keys_unique(members, (n - 1) as nat) && keys_unique(members[n - 1].1)
    }
}

} // verus!

