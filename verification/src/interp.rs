//! The scan command interpreter: a state machine over incoming scan
//! strings.  Mode tokens switch the current mode, the custom-item
//! action and removal-reference codes act regardless of the mode, and
//! ordinary barcodes dispatch to the resolver and the stock engine
//! under the current mode.
//!
//! Interactive branching is modelled as an explicit request/response
//! interface: the answers an operator would give stand in an
//! [`OperatorInput`] value, handed in alongside each scan, and the
//! contracts say exactly what happens for every combination of store
//! state and answers.

use vstd::prelude::*;

use crate::labels::LabelContent;
use crate::models::{Item, ItemKind, Stock};
use crate::scan::{spec_classify, token_mode, Scan, ScanOp};
use crate::stock::StockError;
use crate::store::{
    custom_match, custom_matches_of, first_name_match_at, has_code, name_matches, no_name_match,
    Store,
};

verus! {

/// What to do with the candidate list in the custom-item flow.
#[derive(Clone, Copy, PartialEq, Eq, Structural, Debug)]
pub enum CustomChoice {
    /// Create a new custom item under the entered name.
    CreateNew,
    /// Use the candidate at this position in the listed order.
    Pick(usize),
    /// Abort the flow.
    Cancel,
}

/// The operator's answers to the prompts a scan's handling may raise.
/// The boundary that talks to the operator fills this in; the
/// interpreter consults only the fields its path needs.
pub struct OperatorInput {
    /// Register flow: the display name for a new item, from the product
    /// lookup or manual entry; `None` when none was provided.
    pub provided_name: Option<String>,
    /// Register flow: create an alias when the name collides with an
    /// existing coded item?
    pub confirm_alias: bool,
    /// Custom flow: the name entered for the custom item.
    pub custom_name: Option<String>,
    /// Custom flow: what to do with the listed candidates.
    pub custom_choice: CustomChoice,
    /// Custom flow: create a new item when nothing matched?
    pub confirm_create: bool,
    /// Custom flow: how many units to add.
    pub custom_count: u8,
}

/// A usable name was provided: present and non-empty.
pub open spec fn provided_name_ok(input: OperatorInput) -> bool {
    input.provided_name is Some && input.provided_name->0@.len() > 0
}

/// Why registration failed.
#[derive(Clone, Copy, PartialEq, Eq, Structural, Debug)]
pub enum RegisterError {
    /// No display name was provided for the new item.
    NoName,
    /// The name collides with a custom item, which has no canonical
    /// code to alias to.
    CustomNameCollision,
    /// The name collides with a coded item and the operator declined
    /// the alias.
    UnresolvedConflict,
}

/// How registration ended.
pub enum RegisterOutcome {
    /// The barcode already resolves to this item; nothing was done.
    AlreadyRegistered(Item),
    /// A new bought item was created for the barcode.
    Created(Item),
    /// The name collided with this coded item, so the barcode became an
    /// alias for its code.
    AliasCreated(Item),
}

/// What registration does to the item and alias relations.  The stock
/// relation, the clock and the stock id counter are never touched; the
/// caller states that separately, which lets the add flow chain a unit
/// addition after a registration.
pub open spec fn register_items_effect(
    pre: Store,
    post: Store,
    code: Seq<char>,
    input: OperatorInput,
    r: Result<RegisterOutcome, RegisterError>,
) -> bool {
    match r {
        Ok(RegisterOutcome::AlreadyRegistered(it)) => {
            &&& pre.spec_resolve(code) is Some
            &&& it == pre.items@[pre.spec_resolve(code)->0]
            &&& post.items@ == pre.items@
            &&& post.aliases@ == pre.aliases@
            &&& post.next_item_id == pre.next_item_id
        },
        Ok(RegisterOutcome::Created(it)) => {
            &&& pre.spec_resolve(code) is None
            &&& provided_name_ok(input)
            &&& no_name_match(pre.items@, input.provided_name->0@)
            &&& it.id == pre.next_item_id
            &&& it.name@ == input.provided_name->0@
            &&& it.kind == ItemKind::Bought
            &&& it.ean is Some && it.ean->0@ == code
            &&& post.items@ == pre.items@.push(it)
            &&& post.aliases@ == pre.aliases@
            &&& post.next_item_id == pre.next_item_id + 1
        },
        Ok(RegisterOutcome::AliasCreated(it)) => {
            &&& pre.spec_resolve(code) is None
            &&& provided_name_ok(input)
            &&& input.confirm_alias
            &&& exists|i: int|
                #[trigger] first_name_match_at(pre.items@, input.provided_name->0@, i) && it
                    == pre.items@[i]
            &&& it.ean is Some
            &&& post.aliases@.len() == pre.aliases@.len() + 1
            &&& post.aliases@ == pre.aliases@.push(post.aliases@.last())
            &&& post.aliases@.last().ean@ == code
            &&& post.aliases@.last().alias_for@ == it.ean->0@
            &&& post.items@ == pre.items@
            &&& post.next_item_id == pre.next_item_id
        },
        Err(RegisterError::NoName) => {
            &&& pre.spec_resolve(code) is None
            &&& !provided_name_ok(input)
            &&& post.items@ == pre.items@
            &&& post.aliases@ == pre.aliases@
            &&& post.next_item_id == pre.next_item_id
        },
        Err(RegisterError::CustomNameCollision) => {
            &&& pre.spec_resolve(code) is None
            &&& provided_name_ok(input)
            &&& exists|i: int|
                #[trigger] first_name_match_at(pre.items@, input.provided_name->0@, i)
                    && pre.items@[i].ean is None
            &&& post.items@ == pre.items@
            &&& post.aliases@ == pre.aliases@
            &&& post.next_item_id == pre.next_item_id
        },
        Err(RegisterError::UnresolvedConflict) => {
            &&& pre.spec_resolve(code) is None
            &&& provided_name_ok(input)
            &&& !input.confirm_alias
            &&& exists|i: int|
                #[trigger] first_name_match_at(pre.items@, input.provided_name->0@, i)
                    && pre.items@[i].ean is Some
            &&& post.items@ == pre.items@
            &&& post.aliases@ == pre.aliases@
            &&& post.next_item_id == pre.next_item_id
        },
    }
}

/// Registers a scanned barcode: reports an already-registered item,
/// or records a new bought item under the provided display name — as
/// an alias to an existing coded item when the name collides with one.
///
/// A collision with a custom item cannot be aliased (it has no code)
/// and a declined alias leaves an unresolved conflict; both abort
/// without changing anything.
pub fn register(store: &mut Store, barcode: &str, input: &OperatorInput) -> (r: Result<
    RegisterOutcome,
    RegisterError,
>)
    requires
        old(store).wf(),
        old(store).next_item_id < i32::MAX,
    ensures
        final(store).wf(),
        register_items_effect(*old(store), *final(store), barcode@, *input, r),
        final(store).stock@ == old(store).stock@,
        final(store).clock == old(store).clock,
        final(store).next_stock_id == old(store).next_stock_id,
{
    let existing = store.query_item_by_ean(barcode);
    match existing {
        Some(it) => Ok(RegisterOutcome::AlreadyRegistered(it)),
        None => {
            let name_ok = match &input.provided_name {
                Some(n) => !n.as_str().is_empty(),
                None => false,
            };
            if !name_ok {
                return Err(RegisterError::NoName);
            }
            let name = match &input.provided_name {
                Some(n) => n.as_str(),
                None => "",
            };
            let collision = store.query_item_by_name(name);
            match collision {
                Some(coll) => {
                    let conflict_ean = match &coll.ean {
                        None => {
                            return Err(RegisterError::CustomNameCollision);
                        },
                        Some(e) => e.as_str(),
                    };
                    if !input.confirm_alias {
                        return Err(RegisterError::UnresolvedConflict);
                    }
                    proof {
                        // the unresolved barcode is neither an alias code
                        // nor an item code, and the target is the
                        // colliding item's own code
                        if store.has_alias(barcode@) {
                            assert(store.has_item_code(store.resolved_code(barcode@)));
                        }
                        let i = choose|i: int|
                            first_name_match_at(store.items@, name@, i) && coll == store.items@[i];
                        assert(has_code(store.items@[i], conflict_ean@));
                        assert(store.has_item_code(conflict_ean@));
                    }
                    let created = store.create_alias(barcode, conflict_ean);
                    match created {
                        Ok(_) => Ok(RegisterOutcome::AliasCreated(coll)),
                        Err(_) => {
                            proof {
                                assert(false);
                            }
                            Err(RegisterError::UnresolvedConflict)
                        },
                    }
                },
                None => {
                    proof {
                        if store.has_alias(barcode@) {
                            assert(store.has_item_code(store.resolved_code(barcode@)));
                        }
                    }
                    let created = store.create_item(Some(barcode), name);
                    match created {
                        Ok(it) => Ok(RegisterOutcome::Created(it)),
                        Err(_) => {
                            proof {
                                assert(false);
                            }
                            Err(RegisterError::NoName)
                        },
                    }
                },
            }
        },
    }
}

/// The item, alias and item-id-counter state is untouched.
pub open spec fn items_unchanged(pre: Store, post: Store) -> bool {
    &&& post.items@ == pre.items@
    &&& post.aliases@ == pre.aliases@
    &&& post.next_item_id == pre.next_item_id
}

/// The stock, clock and stock-id-counter state is untouched.
pub open spec fn stock_unchanged(pre: Store, post: Store) -> bool {
    &&& post.stock@ == pre.stock@
    &&& post.clock == pre.clock
    &&& post.next_stock_id == pre.next_stock_id
}

/// One unit `u` of item `iid` was added: stamped with the clock, id
/// from the counter, unopened and on hand.
pub open spec fn unit_added(pre: Store, post: Store, iid: i32, u: Stock) -> bool {
    &&& u == (Stock {
        id: pre.next_stock_id,
        item_id: iid,
        added_dt: pre.clock,
        opened_dt: None,
        removed_dt: None,
    })
    &&& post.stock@ == pre.stock@.push(u)
    &&& post.clock == pre.clock + 1
    &&& post.next_stock_id == pre.next_stock_id + 1
}

/// The oldest on-hand unopened unit of item `iid` was marked removed.
pub open spec fn removed_oldest(pre: Store, post: Store, iid: i32) -> bool {
    &&& exists|i: int|
        #[trigger] crate::stock::is_first_unopened(pre.stock@, iid, i) && post.stock@
            == pre.stock@.update(i, crate::stock::with_removed(pre.stock@[i], pre.clock))
    &&& post.clock == pre.clock + 1
    &&& post.next_stock_id == pre.next_stock_id
}

/// The oldest on-hand unopened unit of item `iid` was marked opened;
/// no unit of the item was open before.
pub open spec fn opened_oldest(pre: Store, post: Store, iid: i32) -> bool {
    &&& !crate::stock::exists_open(pre.stock@, iid)
    &&& exists|i: int|
        #[trigger] crate::stock::is_first_unopened(pre.stock@, iid, i) && post.stock@
            == pre.stock@.update(i, crate::stock::with_opened(pre.stock@[i], pre.clock))
    &&& post.clock == pre.clock + 1
    &&& post.next_stock_id == pre.next_stock_id
}

/// The item's open unit was marked removed.
pub open spec fn finished_open(pre: Store, post: Store, iid: i32) -> bool {
    &&& exists|i: int|
        0 <= i < pre.stock@.len() && crate::stock::open_for(#[trigger] pre.stock@[i], iid)
            && post.stock@ == pre.stock@.update(
            i,
            crate::stock::with_removed(pre.stock@[i], pre.clock),
        )
    &&& post.clock == pre.clock + 1
    &&& post.next_stock_id == pre.next_stock_id
}

/// Why handling an ordinary barcode failed.
#[derive(Clone, Copy, PartialEq, Eq, Structural, Debug)]
pub enum ScanError {
    /// The barcode resolves to no item.
    NotFound,
    /// The register flow failed.
    Register(RegisterError),
    /// The stock engine refused the operation.
    Stock(StockError),
}

/// What handling an ordinary barcode did.
pub enum ScanOutcome {
    /// Idle mode: the item the barcode resolves to, if any; nothing
    /// was mutated either way.
    Checked(Option<Item>),
    /// Register mode: how registration ended.
    Registered(RegisterOutcome),
    /// Add mode: this unit of this item is now on hand.
    Added(Item, Stock),
    /// Remove mode: the oldest unopened unit was removed.
    Removed,
    /// Open mode: the oldest unopened unit was opened.
    Opened,
    /// Finish mode: the open unit was removed.
    Finished,
}

/// What dispatching one ordinary barcode under a mode does to the
/// store, for every combination of mode, store state and operator
/// answers.
pub open spec fn scanned_post(
    pre: Store,
    post: Store,
    op: ScanOp,
    code: Seq<char>,
    input: OperatorInput,
    r: Result<ScanOutcome, ScanError>,
) -> bool {
    match op {
        ScanOp::Idle => post == pre && match r {
            Ok(ScanOutcome::Checked(found)) => match found {
                Some(it) => pre.spec_resolve(code) is Some && it == pre.items@[pre.spec_resolve(
                    code,
                )->0],
                None => pre.spec_resolve(code) is None,
            },
            _ => false,
        },
        ScanOp::Register => match r {
            Ok(ScanOutcome::Registered(ro)) => register_items_effect(pre, post, code, input, Ok(ro))
                && stock_unchanged(pre, post),
            Err(ScanError::Register(e)) => register_items_effect(pre, post, code, input, Err(e))
                && stock_unchanged(pre, post),
            _ => false,
        },
        ScanOp::Add => match r {
            Ok(ScanOutcome::Added(it, u)) => {
                &&& (if pre.spec_resolve(code) is Some {
                    it == pre.items@[pre.spec_resolve(code)->0] && items_unchanged(pre, post)
                } else {
                    register_items_effect(pre, post, code, input, Ok(RegisterOutcome::Created(it)))
                        || register_items_effect(
                        pre,
                        post,
                        code,
                        input,
                        Ok(RegisterOutcome::AliasCreated(it)),
                    )
                })
                &&& unit_added(pre, post, it.id, u)
            },
            Err(ScanError::Register(e)) => pre.spec_resolve(code) is None && register_items_effect(
                pre,
                post,
                code,
                input,
                Err(e),
            ) && stock_unchanged(pre, post),
            _ => false,
        },
        ScanOp::Remove => match r {
            Ok(ScanOutcome::Removed) => pre.spec_resolve(code) is Some && removed_oldest(
                pre,
                post,
                pre.items@[pre.spec_resolve(code)->0].id,
            ) && items_unchanged(pre, post),
            Err(ScanError::NotFound) => pre.spec_resolve(code) is None && post == pre,
            Err(ScanError::Stock(e)) => pre.spec_resolve(code) is Some && post == pre && e
                == StockError::NotInStock && !crate::stock::exists_unopened(
                pre.stock@,
                pre.items@[pre.spec_resolve(code)->0].id,
            ),
            _ => false,
        },
        ScanOp::Open => match r {
            Ok(ScanOutcome::Opened) => pre.spec_resolve(code) is Some && opened_oldest(
                pre,
                post,
                pre.items@[pre.spec_resolve(code)->0].id,
            ) && items_unchanged(pre, post),
            Err(ScanError::NotFound) => pre.spec_resolve(code) is None && post == pre,
            Err(ScanError::Stock(e)) => {
                let iid = pre.items@[pre.spec_resolve(code)->0].id;
                &&& pre.spec_resolve(code) is Some
                &&& post == pre
                &&& (if crate::stock::exists_open(pre.stock@, iid) {
                    e == StockError::AlreadyOpen
                } else {
                    e == StockError::NotInStock && !crate::stock::exists_unopened(pre.stock@, iid)
                })
            },
            _ => false,
        },
        ScanOp::Finish => match r {
            Ok(ScanOutcome::Finished) => pre.spec_resolve(code) is Some && finished_open(
                pre,
                post,
                pre.items@[pre.spec_resolve(code)->0].id,
            ) && items_unchanged(pre, post),
            Err(ScanError::NotFound) => pre.spec_resolve(code) is None && post == pre,
            Err(ScanError::Stock(e)) => pre.spec_resolve(code) is Some && post == pre && e
                == StockError::NotOpen && !crate::stock::exists_open(
                pre.stock@,
                pre.items@[pre.spec_resolve(code)->0].id,
            ),
            _ => false,
        },
    }
}

/// Dispatches one ordinary barcode under the current mode: Idle only
/// reports, Register records the item, Add falls back to registering
/// an unknown barcode before adding a unit, and Remove / Open / Finish
/// resolve the barcode and call the corresponding engine operation.
/// A failed dispatch never corrupts the store: on every error the
/// store is as it was, except that the Add fallback's registration
/// stands on its own.
#[verifier::rlimit(80)]
pub fn scanned(store: &mut Store, op: ScanOp, barcode: &str, input: &OperatorInput) -> (r: Result<
    ScanOutcome,
    ScanError,
>)
    requires
        old(store).wf(),
        old(store).next_item_id < i32::MAX,
        old(store).next_stock_id < i32::MAX,
        old(store).clock < u64::MAX,
    ensures
        final(store).wf(),
        scanned_post(*old(store), *final(store), op, barcode@, *input, r),
{
    match op {
        ScanOp::Idle => {
            let found = store.query_item_by_ean(barcode);
            Ok(ScanOutcome::Checked(found))
        },
        ScanOp::Register => {
            match register(store, barcode, input) {
                Ok(ro) => Ok(ScanOutcome::Registered(ro)),
                Err(e) => Err(ScanError::Register(e)),
            }
        },
        ScanOp::Add => {
            let existing = store.query_item_by_ean(barcode);
            let item = match existing {
                Some(it) => it,
                None => {
                    let registered = register(store, barcode, input);
                    match registered {
                        Ok(RegisterOutcome::Created(it)) => it,
                        Ok(RegisterOutcome::AliasCreated(it)) => it,
                        Ok(RegisterOutcome::AlreadyRegistered(it)) => {
                            proof {
                                assert(false);
                            }
                            it
                        },
                        Err(e) => {
                            return Err(ScanError::Register(e));
                        },
                    }
                },
            };
            proof {
                let pre = *old(store);
                if pre.spec_resolve(barcode@) is Some {
                    let idx = pre.spec_resolve(barcode@)->0;
                    assert(store.items@[idx].id == item.id);
                    assert(store.has_item_id(item.id));
                } else {
                    if store.items@ == pre.items@.push(item) {
                        assert(store.items@[store.items@.len() - 1] == item);
                        assert(store.has_item_id(item.id));
                    } else {
                        let i = choose|i: int|
                            first_name_match_at(pre.items@, input.provided_name->0@, i) && item
                                == pre.items@[i];
                        assert(store.items@[i] == item);
                        assert(store.has_item_id(item.id));
                    }
                }
            }
            let u = store.add_to_stock(item.id);
            Ok(ScanOutcome::Added(item, u))
        },
        ScanOp::Remove => {
            let existing = store.query_item_by_ean(barcode);
            match existing {
                None => Err(ScanError::NotFound),
                Some(it) => {
                    match store.remove_from_stock(it.id, None) {
                        Ok(()) => Ok(ScanOutcome::Removed),
                        Err(e) => Err(ScanError::Stock(e)),
                    }
                },
            }
        },
        ScanOp::Open => {
            let existing = store.query_item_by_ean(barcode);
            match existing {
                None => Err(ScanError::NotFound),
                Some(it) => {
                    match store.open_from_stock(it.id) {
                        Ok(()) => Ok(ScanOutcome::Opened),
                        Err(e) => Err(ScanError::Stock(e)),
                    }
                },
            }
        },
        ScanOp::Finish => {
            let existing = store.query_item_by_ean(barcode);
            match existing {
                None => Err(ScanError::NotFound),
                Some(it) => {
                    match store.finish_from_stock(it.id) {
                        Ok(()) => Ok(ScanOutcome::Finished),
                        Err(e) => Err(ScanError::Stock(e)),
                    }
                },
            }
        },
    }
}

/// A usable custom-item name was entered: present and non-empty.
pub open spec fn custom_name_ok(input: OperatorInput) -> bool {
    input.custom_name is Some && input.custom_name->0@.len() > 0
}

/// The one candidate matches the entered name exactly
/// (case-insensitively), so it is taken without asking.
pub open spec fn single_exact_candidate(pre: Store, cname: Seq<char>) -> bool {
    let cands = custom_matches_of(pre.items@, cname);
    cands.len() == 1 && name_matches(cands[0], cname)
}

/// A new custom item `it` was created under `cname`.
pub open spec fn created_custom(pre: Store, post: Store, cname: Seq<char>, it: Item) -> bool {
    &&& it.id == pre.next_item_id
    &&& it.name@ == cname
    &&& it.kind == ItemKind::Custom
    &&& it.ean is None
    &&& post.items@ == pre.items@.push(it)
    &&& post.aliases@ == pre.aliases@
    &&& post.next_item_id == pre.next_item_id + 1
}

/// How the custom flow settled on its item, and what that did to the
/// item relation: a single exact match is taken as is; with candidates
/// on the table the operator picks one or asks for a new item; with
/// none, a new item is created on confirmation.  Constrains only the
/// item-side state, never the stock side.
pub open spec fn custom_selection(pre: Store, post: Store, input: OperatorInput, it: Item) -> bool {
    let cname = input.custom_name->0@;
    let cands = custom_matches_of(pre.items@, cname);
    &&& custom_name_ok(input)
    &&& if single_exact_candidate(pre, cname) {
        it == cands[0] && post.items@ == pre.items@ && post.aliases@ == pre.aliases@
            && post.next_item_id == pre.next_item_id
    } else if cands.len() > 0 {
        match input.custom_choice {
            CustomChoice::CreateNew => created_custom(pre, post, cname, it),
            CustomChoice::Pick(k) => k < cands.len() && custom_match(it, cname) && (exists|w: int|
                0 <= w < pre.items@.len() && it == pre.items@[w]) && post.items@ == pre.items@
                && post.aliases@ == pre.aliases@ && post.next_item_id == pre.next_item_id,
            CustomChoice::Cancel => false,
        }
    } else {
        input.confirm_create && created_custom(pre, post, cname, it)
    }
}

/// Why the custom flow aborted without settling on an item.
#[derive(Clone, Copy, PartialEq, Eq, Structural, Debug)]
pub enum CustomError {
    /// No name was entered.
    NoName,
    /// The operator cancelled, or declined to create a new item.
    Aborted,
    /// The picked candidate position is out of range.
    InvalidChoice,
    /// A count of zero units leaves nothing to add to stock.
    NothingToAdd,
}

/// Why the custom flow refused, before any unit was added.
pub open spec fn custom_refusal(pre: Store, input: OperatorInput, e: CustomError) -> bool {
    let cname = input.custom_name->0@;
    let cands = custom_matches_of(pre.items@, cname);
    match e {
        CustomError::NoName => !custom_name_ok(input),
        CustomError::Aborted => custom_name_ok(input) && !single_exact_candidate(pre, cname) && (
        if cands.len() > 0 {
            input.custom_choice == CustomChoice::Cancel
        } else {
            !input.confirm_create
        }),
        CustomError::InvalidChoice => custom_name_ok(input) && !single_exact_candidate(pre, cname)
            && cands.len() > 0 && (match input.custom_choice {
            CustomChoice::Pick(k) => k >= cands.len(),
            _ => false,
        }),
        CustomError::NothingToAdd => false,
    }
}

/// The units appended by adding `count` units of item `iid` in a row,
/// ids and timestamps handed out consecutively.
pub open spec fn added_units(iid: i32, first_id: i32, first_t: u64, count: int) -> Seq<Stock>
    decreases count,
{
    if count <= 0 {
        Seq::empty()
    } else {
        added_units(iid, first_id, first_t, count - 1).push(
            Stock {
                id: (first_id + count - 1) as i32,
                item_id: iid,
                added_dt: (first_t + count - 1) as u64,
                opened_dt: None,
                removed_dt: None,
            },
        )
    }
}

/// What the custom flow produced: the item (found or created) and one
/// label per unit added.
pub struct CustomOutcome {
    pub item: Item,
    pub labels: Vec<LabelContent>,
}

/// What the whole custom flow does, for every combination of store
/// state and operator answers.
pub open spec fn custom_post(
    pre: Store,
    post: Store,
    input: OperatorInput,
    date: Seq<char>,
    r: Result<CustomOutcome, CustomError>,
) -> bool {
    match r {
        Ok(out) => {
            &&& input.custom_count >= 1
            &&& custom_selection(pre, post, input, out.item)
            &&& post.stock@ == pre.stock@ + added_units(
                out.item.id,
                pre.next_stock_id,
                pre.clock,
                input.custom_count as int,
            )
            &&& post.clock == pre.clock + input.custom_count
            &&& post.next_stock_id == pre.next_stock_id + input.custom_count
            &&& out.labels@.len() == input.custom_count
            &&& forall|k: int|
                0 <= k < out.labels@.len() ==> (#[trigger] out.labels@[k]).name@
                    == out.item.name@ && out.labels@[k].date@ == date && out.labels@[k].code@
                    == crate::scan::custom_code_of(out.item.id as int, pre.next_stock_id + k)
        },
        Err(CustomError::NothingToAdd) => {
            &&& input.custom_count == 0
            &&& (exists|it: Item| custom_selection(pre, post, input, it))
            &&& stock_unchanged(pre, post)
        },
        Err(e) => custom_refusal(pre, input, e) && post == pre,
    }
}

/// The interactive custom-item flow: settles on a custom item under
/// the entered name — taking a single exact match, or the operator's
/// pick among the candidates, or creating a new item — then adds the
/// asked-for number of units as one atomic batch and returns one label
/// per unit, each carrying the unit's removal-reference code.
///
/// A zero count aborts after the item was settled (a created item
/// stays), adding no units.
#[verifier::rlimit(60)]
pub fn create_custom(store: &mut Store, input: &OperatorInput, date: &str) -> (r: Result<
    CustomOutcome,
    CustomError,
>)
    requires
        old(store).wf(),
        old(store).next_item_id < i32::MAX,
        old(store).next_stock_id <= i32::MAX - 255,
        old(store).clock <= u64::MAX - 255,
    ensures
        final(store).wf(),
        custom_post(*old(store), *final(store), *input, date@, r),
{
    let ghost pre = *old(store);
    let name_ok = match &input.custom_name {
        Some(n) => !n.as_str().is_empty(),
        None => false,
    };
    if !name_ok {
        return Err(CustomError::NoName);
    }
    let name = match &input.custom_name {
        Some(n) => n.as_str(),
        None => "",
    };
    let cands = store.search_custom_items_by_name(name);
    let ghost spec_cands = custom_matches_of(pre.items@, name@);
    proof {
        broadcast use vstd::seq_lib::group_to_multiset_ensures;

        assert(cands@.to_multiset().len() == cands@.len());
        assert(spec_cands.to_multiset().len() == spec_cands.len());
        assert(cands@.len() == spec_cands.len());
    }
    let item: Item;
    let single = cands.len() == 1;
    if single && crate::text::eq_lower(cands[0].name.as_str(), name) {
        proof {
            broadcast use vstd::seq_lib::group_to_multiset_ensures;

            assert(spec_cands.contains(spec_cands[0]));
            assert(cands@.to_multiset().count(spec_cands[0]) > 0);
            assert(cands@.contains(spec_cands[0]));
            let w = choose|w: int| 0 <= w < cands@.len() && cands@[w] == spec_cands[0];
            assert(cands@[0] == spec_cands[0]);
            assert(single_exact_candidate(pre, name@));
            lemma_custom_matches_member(pre.items@, name@, 0);
        }
        item = cands[0].clone();
    } else if cands.len() > 0 {
        proof {
            if single_exact_candidate(pre, name@) {
                broadcast use vstd::seq_lib::group_to_multiset_ensures;

                assert(spec_cands.contains(spec_cands[0]));
                assert(cands@.to_multiset().count(spec_cands[0]) > 0);
                assert(cands@.contains(spec_cands[0]));
                let w = choose|w: int| 0 <= w < cands@.len() && cands@[w] == spec_cands[0];
                assert(cands@[0] == spec_cands[0]);
                assert(false);
            }
        }
        match input.custom_choice {
            CustomChoice::CreateNew => {
                let created = store.create_item(None, name);
                match created {
                    Ok(it) => {
                        item = it;
                    },
                    Err(_) => {
                        proof {
                            assert(false);
                        }
                        return Err(CustomError::Aborted);
                    },
                }
            },
            CustomChoice::Pick(k) => {
                if k >= cands.len() {
                    return Err(CustomError::InvalidChoice);
                }
                proof {
                    broadcast use vstd::seq_lib::group_to_multiset_ensures;
                    broadcast use vstd::seq_lib::group_filter_ensures;

                    assert(cands@.contains(cands@[k as int]));
                    assert(cands@.to_multiset().count(cands@[k as int]) > 0);
                    assert(spec_cands.contains(cands@[k as int]));
                    let i = choose|i: int|
                        0 <= i < spec_cands.len() && spec_cands[i] == cands@[k as int];
                    assert(custom_match(spec_cands[i], name@));
                    lemma_custom_matches_member(pre.items@, name@, i);
                }
                item = cands[k].clone();
            },
            CustomChoice::Cancel => {
                return Err(CustomError::Aborted);
            },
        }
    } else {
        proof {
            if single_exact_candidate(pre, name@) {
                assert(spec_cands.len() == 1);
            }
        }
        if !input.confirm_create {
            return Err(CustomError::Aborted);
        }
        let created = store.create_item(None, name);
        match created {
            Ok(it) => {
                item = it;
            },
            Err(_) => {
                proof {
                    assert(false);
                }
                return Err(CustomError::Aborted);
            },
        }
    }
    proof {
        assert(custom_selection(pre, *store, *input, item));
        assert(store.has_item_id(item.id)) by {
            if store.items@ == pre.items@.push(item) {
                assert(store.items@[store.items@.len() - 1] == item);
            } else {
                let w = choose|w: int| 0 <= w < pre.items@.len() && pre.items@[w] == item;
                assert(store.items@[w] == item);
            }
        }
    }
    let count = input.custom_count;
    if count == 0 {
        return Err(CustomError::NothingToAdd);
    }
    let ghost mid = *store;
    let mut labels: Vec<LabelContent> = Vec::new();
    let mut k: u8 = 0;
    while k < count
        invariant
            store.wf(),
            k <= count,
            store.has_item_id(item.id),
            item.id >= 1,
            mid.clock == pre.clock,
            mid.next_stock_id == pre.next_stock_id,
            mid.stock@ == pre.stock@,
            pre.next_stock_id <= i32::MAX - 255,
            pre.clock <= u64::MAX - 255,
            pre.next_stock_id >= 1,
            count <= 255,
            store.items@ == mid.items@,
            store.aliases@ == mid.aliases@,
            store.next_item_id == mid.next_item_id,
            store.stock@ == pre.stock@ + added_units(item.id, pre.next_stock_id, pre.clock, k as int),
            store.clock == pre.clock + k,
            store.next_stock_id == pre.next_stock_id + k,
            labels@.len() == k,
            forall|j: int|
                0 <= j < k ==> (#[trigger] labels@[j]).name@ == item.name@ && labels@[j].date@
                    == date@ && labels@[j].code@ == crate::scan::custom_code_of(
                    item.id as int,
                    pre.next_stock_id + j,
                ),
        decreases count - k,
    {
        let u = store.add_to_stock(item.id);
        let lab = LabelContent::from_item_stock(&item, &u, date);
        labels.push(lab);
        k = k + 1;
        proof {
            assert(store.stock@ =~= pre.stock@ + added_units(
                item.id,
                pre.next_stock_id,
                pre.clock,
                k as int,
            ));
        }
    }
    proof {
        assert(custom_selection(pre, *store, *input, item));
    }
    Ok(CustomOutcome { item, labels })
}

/// A member of the filtered candidate list is a member of the item
/// relation.
proof fn lemma_custom_matches_member(items: Seq<Item>, q: Seq<char>, i: int)
    requires
        0 <= i < custom_matches_of(items, q).len(),
    ensures
        exists|w: int| 0 <= w < items.len() && items[w] == custom_matches_of(items, q)[i],
    decreases items.len(),
{
    reveal(Seq::filter);
    if items.len() > 0 {
        let sub = custom_matches_of(items.drop_last(), q);
        assert(items.drop_last().filter(|it: Item| custom_match(it, q)) == sub);
        if i < sub.len() {
            lemma_custom_matches_member(items.drop_last(), q, i);
            let w = choose|w: int| 0 <= w < items.drop_last().len() && items.drop_last()[w] == sub[i];
            assert(items[w] == custom_matches_of(items, q)[i]);
        } else {
            assert(custom_matches_of(items, q)[i] == items.last());
            assert(items[items.len() - 1] == custom_matches_of(items, q)[i]);
        }
    }
}

/// Why a scanned removal-reference code could not be honoured.
#[derive(Clone, Copy, PartialEq, Eq, Structural, Debug)]
pub enum RemoveRefError {
    /// No item has the referenced id.
    ItemNotFound,
    /// The referenced unit does not belong to the item or is already
    /// removed.
    NotInStock,
}

/// What honouring a removal-reference code does: the exact referenced
/// unit is removed, or nothing changes.
pub open spec fn remove_ref_post(
    pre: Store,
    post: Store,
    item_id: i32,
    stock_id: i32,
    r: Result<(), RemoveRefError>,
) -> bool {
    match r {
        Ok(()) => {
            &&& pre.has_item_id(item_id)
            &&& exists|i: int|
                #[trigger] crate::stock::removable_at(pre.stock@, item_id, stock_id, i)
                    && post.stock@ == pre.stock@.update(
                    i,
                    crate::stock::with_removed(pre.stock@[i], pre.clock),
                )
            &&& post.clock == pre.clock + 1
            &&& post.next_stock_id == pre.next_stock_id
            &&& items_unchanged(pre, post)
        },
        Err(RemoveRefError::ItemNotFound) => !pre.has_item_id(item_id) && post == pre,
        Err(RemoveRefError::NotInStock) => pre.has_item_id(item_id) && crate::stock::no_removable(
            pre.stock@,
            item_id,
            stock_id,
        ) && post == pre,
    }
}

/// Honours a removal-reference code from a printed label: removes the
/// exact referenced unit, iff it exists, belongs to the referenced
/// item, and is still on hand.
pub fn remove_custom(store: &mut Store, item_id: i32, stock_id: i32) -> (r: Result<
    (),
    RemoveRefError,
>)
    requires
        old(store).wf(),
        old(store).clock < u64::MAX,
    ensures
        final(store).wf(),
        remove_ref_post(*old(store), *final(store), item_id, stock_id, r),
{
    let item = store.query_item_by_id(item_id);
    match item {
        None => Err(RemoveRefError::ItemNotFound),
        Some(_) => {
            match store.remove_from_stock(item_id, Some(stock_id)) {
                Ok(()) => Ok(()),
                Err(_) => Err(RemoveRefError::NotInStock),
            }
        },
    }
}

/// Product lookup gave no usable name even though it found the
/// product.
#[derive(Clone, Copy, PartialEq, Eq, Structural, Debug)]
pub enum LookupError {
    /// The found product record carries no name in any language.
    NoProductName,
}

/// The one barcode whose public-database record is known to be wrong;
/// lookup is skipped for it and the operator enters the name by hand.
pub fn lookup_skipped(ean: &str) -> (r: bool)
    ensures
        r == (ean@ == "4061463732958"@),
{
    crate::text::str_eq(ean, "4061463732958")
}

/// Decides what a product-lookup response means: a missing product is
/// a normal miss, a found product's name is taken preferring the local
/// language, and a found product without any name is an error.  The
/// boundary that speaks to the lookup provider extracts the three
/// fields and leaves the decision here.
pub fn extract_product_name(status: i64, name_local: Option<String>, name_any: Option<String>) -> (r:
    Result<Option<String>, LookupError>)
    ensures
        match r {
            Ok(found) => match found {
                Some(n) => status == 1 && (match name_local {
                    Some(d) => n@ == d@,
                    None => name_any is Some && n@ == name_any->0@,
                }),
                None => status != 1,
            },
            Err(e) => status == 1 && name_local is None && name_any is None && e
                == LookupError::NoProductName,
        },
{
    if status != 1 {
        return Ok(None);
    }
    match name_local {
        Some(d) => Ok(Some(d)),
        None => match name_any {
            Some(n) => Ok(Some(n)),
            None => Err(LookupError::NoProductName),
        },
    }
}

/// The interpreter's state: the current mode, initially idle.
pub struct Interpreter {
    pub mode: ScanOp,
}

/// The mode after one scanned string: a mode token selects its mode;
/// anything else leaves the mode alone.
pub open spec fn mode_after(m: ScanOp, line: Seq<char>) -> ScanOp {
    match token_mode(line) {
        Some(op) => op,
        None => m,
    }
}

/// Mode tokens are idempotent: feeding the same token again leaves the
/// mode exactly where the first one put it (and a token never touches
/// the store or reaches the resolver or the engine — `handle_scan`
/// promises the store unchanged on every token).
pub proof fn lemma_mode_token_idempotent(m: ScanOp, line: Seq<char>)
    requires
        token_mode(line) is Some,
    ensures
        mode_after(mode_after(m, line), line) == mode_after(m, line),
{
}

/// What one handled scan returned.
pub enum Outcome {
    /// The string was a mode token: the mode is set, nothing else
    /// happened.
    ModeSet(ScanOp),
    /// The string was the custom-item action token.
    Custom(Result<CustomOutcome, CustomError>),
    /// The string was a removal-reference code.
    RemovedRef(Result<(), RemoveRefError>),
    /// The string was an ordinary barcode, dispatched under the mode.
    Scanned(Result<ScanOutcome, ScanError>),
}

impl Interpreter {
    /// A fresh interpreter, in the idle mode.
    pub fn new() -> (r: Interpreter)
        ensures
            r.mode == ScanOp::Idle,
    {
        Interpreter { mode: ScanOp::Idle }
    }

    /// The idle-timeout safety net: when no scan arrives within the
    /// timeout window, the mode reverts to idle on its own, so a
    /// forgotten mode token cannot silently reinterpret unrelated
    /// future scans.  Nothing else happens: no resolver or engine call,
    /// no store access.
    pub fn on_timeout(&mut self)
        ensures
            final(self).mode == ScanOp::Idle,
    {
        self.mode = ScanOp::Idle;
    }

    /// Handles one scanned string, in priority order: a mode token sets
    /// the mode and consumes the input, the custom-item action token
    /// runs the custom flow, a removal-reference code removes the exact
    /// referenced unit, and anything else is a barcode dispatched under
    /// the current mode.  Only a mode token moves the mode; a failed
    /// dispatch never corrupts interpreter state.
    pub fn handle_scan(
        &mut self,
        store: &mut Store,
        line: &str,
        input: &OperatorInput,
        date: &str,
    ) -> (r: Outcome)
        requires
            old(store).wf(),
            old(store).next_item_id < i32::MAX,
            old(store).next_stock_id <= i32::MAX - 255,
            old(store).clock <= u64::MAX - 255,
        ensures
            final(store).wf(),
            final(self).mode == mode_after(old(self).mode, line@),
            match spec_classify(line@) {
                Scan::Token(op) => r == Outcome::ModeSet(op) && *final(store) == *old(store),
                Scan::CustomAction => match r {
                    Outcome::Custom(res) => custom_post(
                        *old(store),
                        *final(store),
                        *input,
                        date@,
                        res,
                    ),
                    _ => false,
                },
                Scan::RemovalRef(item_id, stock_id) => match r {
                    Outcome::RemovedRef(res) => remove_ref_post(
                        *old(store),
                        *final(store),
                        item_id,
                        stock_id,
                        res,
                    ),
                    _ => false,
                },
                Scan::Barcode => match r {
                    Outcome::Scanned(res) => scanned_post(
                        *old(store),
                        *final(store),
                        old(self).mode,
                        line@,
                        *input,
                        res,
                    ),
                    _ => false,
                },
            },
    {
        let scan = crate::scan::classify(line);
        match scan {
            Scan::Token(op) => {
                self.mode = op;
                Outcome::ModeSet(op)
            },
            Scan::CustomAction => Outcome::Custom(create_custom(store, input, date)),
            Scan::RemovalRef(item_id, stock_id) => Outcome::RemovedRef(
                remove_custom(store, item_id, stock_id),
            ),
            Scan::Barcode => Outcome::Scanned(scanned(store, self.mode, line, input)),
        }
    }
}

} // verus!
