//! The three persisted record types: items, aliases, and stock units.

use vstd::prelude::*;

verus! {

/// Whether an item is a store-bought good with a real barcode, or a
/// home-made / bulk good identified only by its internal id.
#[derive(Clone, Copy, PartialEq, Eq, Structural, Debug)]
pub enum ItemKind {
    Bought,
    Custom,
}

/// A distinct trackable good.  Created once, never mutated, never deleted.
#[derive(Debug, PartialEq)]
pub struct Item {
    pub id: i32,
    pub name: String,
    pub kind: ItemKind,
    pub ean: Option<String>,
}

impl Item {
    /// An item carries a barcode exactly when it is bought, and its id is
    /// a positive assigned identifier.
    pub open spec fn wf(self) -> bool {
        &&& self.id >= 1
        &&& (self.ean is Some <==> self.kind == ItemKind::Bought)
    }
}

impl Clone for Item {
    fn clone(&self) -> (r: Item)
        ensures
            r == *self,
    {
        Item {
            id: self.id,
            name: self.name.clone(),
            kind: self.kind,
            ean: match &self.ean {
                Some(code) => Some(code.clone()),
                None => None,
            },
        }
    }
}

/// A redirect from one scanned code to another item's canonical code.
/// Chains are exactly one level deep: the target is always the canonical
/// code of an item, never the code of another alias.
#[derive(Debug, PartialEq)]
pub struct Alias {
    pub ean: String,
    pub alias_for: String,
}

impl Clone for Alias {
    fn clone(&self) -> (r: Alias)
        ensures
            r == *self,
    {
        Alias { ean: self.ean.clone(), alias_for: self.alias_for.clone() }
    }
}

/// One physical instance of an item, currently or formerly on hand.
///
/// Lifecycle: added, then optionally opened, then removed; removal is
/// terminal.  Timestamps are logical instants handed out by the store's
/// clock.
#[derive(Clone, Copy, PartialEq, Eq, Structural, Debug)]
pub struct Stock {
    pub id: i32,
    pub item_id: i32,
    pub added_dt: u64,
    pub opened_dt: Option<u64>,
    pub removed_dt: Option<u64>,
}

impl Stock {
    /// The unit's timestamps are ordered along its lifecycle.
    pub open spec fn wf(self) -> bool {
        &&& self.id >= 1
        &&& (self.opened_dt is Some ==> self.opened_dt->0 >= self.added_dt)
        &&& (self.removed_dt is Some ==> self.removed_dt->0 >= self.added_dt)
        &&& (self.opened_dt is Some && self.removed_dt is Some ==> self.removed_dt->0
            >= self.opened_dt->0)
    }

    /// Still on hand: not yet removed.
    pub open spec fn is_available(self) -> bool {
        self.removed_dt is None
    }

    /// On hand and never opened.
    pub open spec fn is_unopened(self) -> bool {
        self.removed_dt is None && self.opened_dt is None
    }

    /// Opened and still on hand.
    pub open spec fn is_open(self) -> bool {
        self.removed_dt is None && self.opened_dt is Some
    }
}

impl ItemKind {
    /// The stored label for the kind.
    pub fn label(&self) -> (r: &'static str)
        ensures
            *self == ItemKind::Bought ==> r@ == "bought"@,
            *self == ItemKind::Custom ==> r@ == "custom"@,
    {
        match self {
            ItemKind::Bought => "bought",
            ItemKind::Custom => "custom",
        }
    }

    /// The kind a stored label denotes, if any.
    pub fn from_label(s: &str) -> (r: Option<ItemKind>)
        ensures
            r == (if s@ == "bought"@ {
                Some(ItemKind::Bought)
            } else if s@ == "custom"@ {
                Some(ItemKind::Custom)
            } else {
                None::<ItemKind>
            }),
    {
        if crate::text::str_eq(s, "bought") {
            Some(ItemKind::Bought)
        } else if crate::text::str_eq(s, "custom") {
            Some(ItemKind::Custom)
        } else {
            None
        }
    }
}

} // verus!
