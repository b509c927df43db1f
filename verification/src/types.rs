//! Identifier types shared by every store: a list is keyed by the chat it
//! lives in, an item by a globally unique id.

use vstd::prelude::*;

verus! {

/// Identifier for a chat (one shared list per chat).
#[derive(Debug, Clone, Copy, PartialEq, Eq, Structural, Hash, PartialOrd, Ord)]
pub struct ChatKey(pub i64);

/// Identifier for an item.  Ids are assigned monotonically and never reused.
#[derive(Debug, Clone, Copy, PartialEq, Eq, Structural, Hash, PartialOrd, Ord)]
pub struct ItemId(pub i64);

impl From<i64> for ChatKey {
    fn from(id: i64) -> (r: Self)
        ensures
            r.0 == id,
    {
        ChatKey(id)
    }
}

impl vstd::std_specs::convert::FromSpecImpl<i64> for ChatKey {
    open spec fn obeys_from_spec() -> bool {
        true
    }

    open spec fn from_spec(id: i64) -> Self {
        ChatKey(id)
    }
}

impl From<ChatKey> for i64 {
    fn from(key: ChatKey) -> (r: Self)
        ensures
            r == key.0,
    {
        key.0
    }
}

impl vstd::std_specs::convert::FromSpecImpl<ChatKey> for i64 {
    open spec fn obeys_from_spec() -> bool {
        true
    }

    open spec fn from_spec(key: ChatKey) -> Self {
        key.0
    }
}

impl From<i64> for ItemId {
    fn from(id: i64) -> (r: Self)
        ensures
            r.0 == id,
    {
        ItemId(id)
    }
}

impl vstd::std_specs::convert::FromSpecImpl<i64> for ItemId {
    open spec fn obeys_from_spec() -> bool {
        true
    }

    open spec fn from_spec(id: i64) -> Self {
        ItemId(id)
    }
}

impl From<ItemId> for i64 {
    fn from(id: ItemId) -> (r: Self)
        ensures
            r == id.0,
    {
        id.0
    }
}

impl vstd::std_specs::convert::FromSpecImpl<ItemId> for i64 {
    open spec fn obeys_from_spec() -> bool {
        true
    }

    open spec fn from_spec(id: ItemId) -> Self {
        id.0
    }
}

} // verus!
