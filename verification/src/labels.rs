//! What gets printed on a label: the rendering payload handed to the
//! external label-printing collaborator.

use vstd::prelude::*;

use crate::models::{Item, Stock};
use crate::scan::{custom_code_of, format_custom_code};

verus! {

/// One label's content: a display name, a short date text, and the
/// machine-readable code.
#[derive(Debug)]
pub struct LabelContent {
    pub name: String,
    pub date: String,
    pub code: String,
}

impl Clone for LabelContent {
    fn clone(&self) -> (r: LabelContent)
        ensures
            r == *self,
    {
        LabelContent { name: self.name.clone(), date: self.date.clone(), code: self.code.clone() }
    }
}

impl LabelContent {
    /// The label for one stock unit of an item: the item's name, the
    /// given date text, and the unit's removal-reference code, so that
    /// scanning the label later removes exactly this unit.
    pub fn from_item_stock(item: &Item, stock: &Stock, date: &str) -> (r: LabelContent)
        requires
            item.id >= 0,
            stock.id >= 0,
            stock.item_id == item.id,
        ensures
            r.name@ == item.name@,
            r.date@ == date@,
            r.code@ == custom_code_of(stock.item_id as int, stock.id as int),
    {
        LabelContent {
            name: item.name.clone(),
            date: date.to_owned(),
            code: format_custom_code(stock.item_id, stock.id),
        }
    }

    /// A label from its three parts.
    pub fn new(name: &str, code: &str, date: &str) -> (r: LabelContent)
        ensures
            r.name@ == name@,
            r.date@ == date@,
            r.code@ == code@,
    {
        LabelContent { name: name.to_owned(), date: date.to_owned(), code: code.to_owned() }
    }
}

} // verus!
