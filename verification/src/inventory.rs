//! The inventory ledger rows the core reserves stock against.
//!
//! The core only ever decrements a row's stock (when a draw is created
//! against it) or increments it (when a still-pending draw is deleted); it
//! never creates, prices or lists items beyond seeding rows for itself.

use vstd::prelude::*;

verus! {

/// One inventory row: a stock count owned by a seller.
pub struct InventoryItem {
    /// Identity, assigned by the store.
    pub id: u64,
    /// Units in stock; never negative.
    pub count: i64,
    pub price: String,
    pub name: String,
    pub seller: String,
    pub location: String,
}

/// Mathematical model of an inventory row.
#[verifier::ext_equal]
pub struct ItemView {
    pub id: int,
    pub count: int,
    pub price: Seq<char>,
    pub name: Seq<char>,
    pub seller: Seq<char>,
    pub location: Seq<char>,
}

impl View for InventoryItem {
    type V = ItemView;

    open spec fn view(&self) -> ItemView {
        ItemView {
            id: self.id as int,
            count: self.count as int,
            price: self.price@,
            name: self.name@,
            seller: self.seller@,
            location: self.location@,
        }
    }
}

impl InventoryItem {
    /// Copy of the row with a new stock count; other fields kept.
    pub fn with_count(&self, count: i64) -> (r: InventoryItem)
        ensures
            r@ == (ItemView { count: count as int, ..self@ }),
    {
        let r = InventoryItem {
            id: self.id,
            count,
            price: self.price.clone(),
            name: self.name.clone(),
            seller: self.seller.clone(),
            location: self.location.clone(),
        };
        proof {
            assert(r@ =~= (ItemView { count: count as int, ..self@ }));
        }
        r
    }

    /// Copy of the row, equal in content.
    pub fn duplicate(&self) -> (r: InventoryItem)
        ensures
            r@ == self@,
    {
        let r = self.with_count(self.count);
        proof {
            assert(r@ =~= self@);
        }
        r
    }
}

} // verus!
