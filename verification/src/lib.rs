//! Inventory tracking driven by barcode scans.
//!
//! Physical goods ("items") are identified by barcodes; each physical
//! instance of an item on hand is a stock unit with an
//! added / opened / removed lifecycle.  The library holds the three
//! relations (items, aliases, stock units) in a [`store::Store`], offers
//! the resolver and stock-lifecycle operations on it, and interprets a
//! stream of scanned strings as commands against the store.

pub mod models;
pub mod text;
pub mod store;
pub mod stock;
pub mod scan;
pub mod labels;
pub mod interp;
