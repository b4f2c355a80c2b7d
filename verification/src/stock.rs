//! The stock lifecycle engine: atomic add / remove / open / finish on
//! stock units, with oldest-first selection.
//!
//! Every operation is one atomic step on the store: it selects at most
//! one unit and marks it, or fails and changes nothing.

use vstd::prelude::*;

use crate::models::Stock;
use crate::store::Store;

verus! {

/// Why a stock operation was refused.
#[derive(Clone, Copy, PartialEq, Eq, Structural, Debug)]
pub enum StockError {
    /// No unit of the item is eligible: nothing on hand to remove or
    /// open.
    NotInStock,
    /// A unit of the item is already open; at most one unit per item
    /// may be open at a time.
    AlreadyOpen,
    /// No unit of the item is currently open, so none can be finished.
    NotOpen,
}

/// The unit belongs to the item, is on hand, and was never opened.
pub open spec fn eligible_unopened(u: Stock, item_id: i32) -> bool {
    u.item_id == item_id && u.is_unopened()
}

/// The unit belongs to the item and is currently open.
pub open spec fn open_for(u: Stock, item_id: i32) -> bool {
    u.item_id == item_id && u.is_open()
}

/// The unit with id `sid` sits at index `i`, belongs to the item, and
/// is not yet removed.
pub open spec fn removable_at(s: Seq<Stock>, item_id: i32, sid: i32, i: int) -> bool {
    0 <= i < s.len() && s[i].id == sid && s[i].item_id == item_id && s[i].removed_dt is None
}

/// No unit with id `sid` belongs to the item and is still on hand.
pub open spec fn no_removable(s: Seq<Stock>, item_id: i32, sid: i32) -> bool {
    forall|i: int| !removable_at(s, item_id, sid, i)
}

/// Index `i` holds the first unit of the item, in order of addition,
/// that is on hand and unopened.
pub open spec fn is_first_unopened(s: Seq<Stock>, item_id: i32, i: int) -> bool {
    &&& 0 <= i < s.len()
    &&& eligible_unopened(s[i], item_id)
    &&& forall|j: int| 0 <= j < i ==> !eligible_unopened(#[trigger] s[j], item_id)
}

/// Some unit of the item is on hand and unopened.
pub open spec fn exists_unopened(s: Seq<Stock>, item_id: i32) -> bool {
    exists|i: int| 0 <= i < s.len() && eligible_unopened(#[trigger] s[i], item_id)
}

/// Some unit of the item is currently open.
pub open spec fn exists_open(s: Seq<Stock>, item_id: i32) -> bool {
    exists|i: int| 0 <= i < s.len() && open_for(#[trigger] s[i], item_id)
}

/// The unit, marked removed at `t`.
pub open spec fn with_removed(u: Stock, t: u64) -> Stock {
    Stock { removed_dt: Some(t), ..u }
}

/// The unit, marked opened at `t`.
pub open spec fn with_opened(u: Stock, t: u64) -> Stock {
    Stock { opened_dt: Some(t), ..u }
}

impl Store {
    /// Inserts a new unit of the item: added now, unopened, on hand.
    /// Addition always succeeds.
    pub fn add_to_stock(&mut self, item_id: i32) -> (u: Stock)
        requires
            old(self).wf(),
            old(self).has_item_id(item_id),
            old(self).clock < u64::MAX,
            old(self).next_stock_id < i32::MAX,
        ensures
            final(self).wf(),
            u == (Stock {
                id: old(self).next_stock_id,
                item_id: item_id,
                added_dt: old(self).clock,
                opened_dt: None,
                removed_dt: None,
            }),
            final(self).stock@ == old(self).stock@.push(u),
            final(self).clock == old(self).clock + 1,
            final(self).next_stock_id == old(self).next_stock_id + 1,
            final(self).items@ == old(self).items@,
            final(self).aliases@ == old(self).aliases@,
            final(self).next_item_id == old(self).next_item_id,
    {
        let u = Stock {
            id: self.next_stock_id,
            item_id: item_id,
            added_dt: self.clock,
            opened_dt: None,
            removed_dt: None,
        };
        let ghost old_stock = self.stock@;
        self.stock.push(u);
        self.next_stock_id = self.next_stock_id + 1;
        self.clock = self.clock + 1;
        proof {
            let s = *self;
            let olds = *old(self);
            assert forall|i: int| 0 <= i < s.stock@.len() implies (#[trigger] s.stock@[i]).wf()
                && s.stock@[i].id < s.next_stock_id by {
                if i < old_stock.len() {
                    assert(s.stock@[i] == olds.stock@[i]);
                }
            }
            assert forall|i: int, j: int| 0 <= i < j < s.stock@.len() implies (
            #[trigger] s.stock@[i]).id != (#[trigger] s.stock@[j]).id by {
                if j < old_stock.len() {
                } else {
                    assert(s.stock@[i] == olds.stock@[i]);
                }
            }
            assert forall|i: int| 0 <= i < s.stock@.len() implies s.has_item_id(
                (#[trigger] s.stock@[i]).item_id,
            ) by {
                if i < old_stock.len() {
                    assert(s.stock@[i] == olds.stock@[i]);
                    let w = choose|w: int|
                        0 <= w < olds.items@.len() && olds.items@[w].id == olds.stock@[i].item_id;
                    assert(s.items@[w].id == s.stock@[i].item_id);
                } else {
                    let w = choose|w: int|
                        0 <= w < olds.items@.len() && olds.items@[w].id == item_id;
                    assert(s.items@[w].id == s.stock@[i].item_id);
                }
            }
            assert forall|i: int, j: int| 0 <= i < j < s.stock@.len() implies (
            #[trigger] s.stock@[i]).added_dt < (#[trigger] s.stock@[j]).added_dt by {
                if j < old_stock.len() {
                } else {
                    assert(s.stock@[i] == olds.stock@[i]);
                }
            }
        }
        u
    }

    /// Index of the first on-hand unopened unit of the item, scanning
    /// in order of addition.
    fn find_first_unopened(&self, item_id: i32) -> (r: Option<usize>)
        ensures
            match r {
                Some(i) => is_first_unopened(self.stock@, item_id, i as int),
                None => !exists_unopened(self.stock@, item_id),
            },
    {
        let n = self.stock.len();
        let mut i: usize = 0;
        while i < n
            invariant
                i <= n,
                n == self.stock@.len(),
                forall|j: int| 0 <= j < i ==> !eligible_unopened(#[trigger] self.stock@[j], item_id),
            decreases n - i,
        {
            let u = self.stock[i];
            if u.item_id == item_id && u.opened_dt.is_none() && u.removed_dt.is_none() {
                return Some(i);
            }
            i = i + 1;
        }
        None
    }

    /// Index of some currently open unit of the item.  Under the store
    /// invariant there is at most one.
    fn find_open(&self, item_id: i32) -> (r: Option<usize>)
        ensures
            match r {
                Some(i) => 0 <= i < self.stock@.len() && open_for(self.stock@[i as int], item_id),
                None => !exists_open(self.stock@, item_id),
            },
    {
        let n = self.stock.len();
        let mut i: usize = 0;
        while i < n
            invariant
                i <= n,
                n == self.stock@.len(),
                forall|j: int| 0 <= j < i ==> !open_for(#[trigger] self.stock@[j], item_id),
            decreases n - i,
        {
            let u = self.stock[i];
            if u.item_id == item_id && u.opened_dt.is_some() && u.removed_dt.is_none() {
                return Some(i);
            }
            i = i + 1;
        }
        None
    }

    /// Marks the unit at `i` with the given replacement and advances the
    /// clock.  The replacement differs from the old unit only in its
    /// `opened_dt` / `removed_dt` marks, which the callers set to the
    /// old clock; all well-formedness obligations are discharged here.
    fn mark_unit(&mut self, i: usize, u: Stock)
        requires
            old(self).wf(),
            old(self).clock < u64::MAX,
            i < old(self).stock@.len(),
            u.id == old(self).stock@[i as int].id,
            u.item_id == old(self).stock@[i as int].item_id,
            u.added_dt == old(self).stock@[i as int].added_dt,
            u.wf(),
            (u.opened_dt is Some ==> u.opened_dt->0 < old(self).clock + 1),
            (u.removed_dt is Some ==> u.removed_dt->0 < old(self).clock + 1),
            u.is_open() ==> !exists_open(old(self).stock@, u.item_id) || open_for(
                old(self).stock@[i as int],
                u.item_id,
            ),
        ensures
            final(self).wf(),
            final(self).stock@ == old(self).stock@.update(i as int, u),
            final(self).clock == old(self).clock + 1,
            final(self).items@ == old(self).items@,
            final(self).aliases@ == old(self).aliases@,
            final(self).next_item_id == old(self).next_item_id,
            final(self).next_stock_id == old(self).next_stock_id,
    {
        self.stock.set(i, u);
        self.clock = self.clock + 1;
        proof {
            let s = *self;
            let olds = *old(self);
            assert forall|k: int| 0 <= k < s.stock@.len() implies (#[trigger] s.stock@[k]).wf()
                && s.stock@[k].id < s.next_stock_id by {
                if k != i {
                    assert(s.stock@[k] == olds.stock@[k]);
                }
            }
            assert forall|k: int, j: int| 0 <= k < j < s.stock@.len() implies (
            #[trigger] s.stock@[k]).id != (#[trigger] s.stock@[j]).id by {
                assert(olds.stock@[k].id != olds.stock@[j].id);
            }
            assert forall|k: int| 0 <= k < s.stock@.len() implies s.has_item_id(
                (#[trigger] s.stock@[k]).item_id,
            ) by {
                let w = choose|w: int|
                    0 <= w < olds.items@.len() && olds.items@[w].id == olds.stock@[k].item_id;
                assert(s.items@[w].id == s.stock@[k].item_id);
            }
            assert forall|k: int, j: int| 0 <= k < j < s.stock@.len() implies (
            #[trigger] s.stock@[k]).added_dt < (#[trigger] s.stock@[j]).added_dt by {
                assert(olds.stock@[k].added_dt == s.stock@[k].added_dt);
                assert(olds.stock@[j].added_dt == s.stock@[j].added_dt);
            }
            assert forall|k: int, j: int|
                0 <= k < s.stock@.len() && 0 <= j < s.stock@.len() && k != j && (
                #[trigger] s.stock@[k]).is_open() && (#[trigger] s.stock@[j]).is_open() implies
                s.stock@[k].item_id != s.stock@[j].item_id by {
                if k != i && j != i {
                    assert(olds.stock@[k].is_open() && olds.stock@[j].is_open());
                } else {
                    let o = if k == i { j } else { k };
                    assert(s.stock@[o] == olds.stock@[o]);
                    if u.is_open() && s.stock@[o].item_id == u.item_id {
                        assert(open_for(olds.stock@[o], u.item_id));
                        assert(exists_open(olds.stock@, u.item_id));
                        assert(!open_for(olds.stock@[i as int], u.item_id));
                        assert(false);
                    }
                }
            }
        }
    }

    /// Removes a unit of the item from stock.
    ///
    /// With `stock_id` given, that exact unit is removed iff it belongs
    /// to the item and is not already removed.  Without it, the oldest
    /// on-hand unopened unit goes — use what has been sitting longest
    /// before opening anything new.  Fails with `NotInStock` when no
    /// unit qualifies, changing nothing.
    pub fn remove_from_stock(&mut self, item_id: i32, stock_id: Option<i32>) -> (r: Result<
        (),
        StockError,
    >)
        requires
            old(self).wf(),
            old(self).clock < u64::MAX,
        ensures
            final(self).wf(),
            match stock_id {
                Some(sid) => match r {
                    Ok(()) => exists|i: int|
                        #[trigger] removable_at(old(self).stock@, item_id, sid, i) && final(self).stock@ == old(self).stock@.update(
                            i,
                            with_removed(old(self).stock@[i], old(self).clock),
                        ) && final(self).clock == old(self).clock + 1,
                    Err(e) => e == StockError::NotInStock && no_removable(
                        old(self).stock@,
                        item_id,
                        sid,
                    ) && *final(self) == *old(self),
                },
                None => match r {
                    Ok(()) => exists|i: int|
                        #[trigger] is_first_unopened(old(self).stock@, item_id, i) && final(self).stock@ == old(self).stock@.update(
                            i,
                            with_removed(old(self).stock@[i], old(self).clock),
                        ) && final(self).clock == old(self).clock + 1,
                    Err(e) => e == StockError::NotInStock && !exists_unopened(
                        old(self).stock@,
                        item_id,
                    ) && *final(self) == *old(self),
                },
            },
            final(self).items@ == old(self).items@,
            final(self).aliases@ == old(self).aliases@,
            final(self).next_item_id == old(self).next_item_id,
            final(self).next_stock_id == old(self).next_stock_id,
    {
        match stock_id {
            Some(sid) => {
                let found = self.find_removable(item_id, sid);
                match found {
                    Some(i) => {
                        let u = self.stock[i];
                        let marked = Stock {
                            id: u.id,
                            item_id: u.item_id,
                            added_dt: u.added_dt,
                            opened_dt: u.opened_dt,
                            removed_dt: Some(self.clock),
                        };
                        proof {
                            assert(marked == with_removed(self.stock@[i as int], self.clock));
                        }
                        self.mark_unit(i, marked);
                        Ok(())
                    },
                    None => Err(StockError::NotInStock),
                }
            },
            None => {
                let found = self.find_first_unopened(item_id);
                match found {
                    Some(i) => {
                        let u = self.stock[i];
                        let marked = Stock {
                            id: u.id,
                            item_id: u.item_id,
                            added_dt: u.added_dt,
                            opened_dt: u.opened_dt,
                            removed_dt: Some(self.clock),
                        };
                        proof {
                            assert(marked == with_removed(self.stock@[i as int], self.clock));
                        }
                        self.mark_unit(i, marked);
                        Ok(())
                    },
                    None => Err(StockError::NotInStock),
                }
            },
        }
    }

    /// Index of the unit with id `sid`, belonging to the item and not
    /// yet removed.
    fn find_removable(&self, item_id: i32, sid: i32) -> (r: Option<usize>)
        ensures
            match r {
                Some(i) => removable_at(self.stock@, item_id, sid, i as int),
                None => no_removable(self.stock@, item_id, sid),
            },
    {
        let n = self.stock.len();
        let mut i: usize = 0;
        while i < n
            invariant
                i <= n,
                n == self.stock@.len(),
                forall|j: int| 0 <= j < i ==> !removable_at(self.stock@, item_id, sid, j),
            decreases n - i,
        {
            let u = self.stock[i];
            if u.id == sid && u.item_id == item_id && u.removed_dt.is_none() {
                return Some(i);
            }
            proof {
                assert(!removable_at(self.stock@, item_id, sid, i as int));
            }
            i = i + 1;
        }
        None
    }

    /// Opens a unit of the item: the oldest on-hand unopened one.
    ///
    /// Fails with `AlreadyOpen` when a unit of the item is already open
    /// — at most one unit per item may be open at a time — and with
    /// `NotInStock` when nothing unopened is on hand.  On failure
    /// nothing changes.
    pub fn open_from_stock(&mut self, item_id: i32) -> (r: Result<(), StockError>)
        requires
            old(self).wf(),
            old(self).clock < u64::MAX,
        ensures
            final(self).wf(),
            match r {
                Ok(()) => !exists_open(old(self).stock@, item_id) && exists|i: int|
                    #[trigger] is_first_unopened(old(self).stock@, item_id, i) && final(self).stock@ == old(self).stock@.update(
                        i,
                        with_opened(old(self).stock@[i], old(self).clock),
                    ) && final(self).clock == old(self).clock + 1,
                Err(e) => *final(self) == *old(self) && (if exists_open(
                    old(self).stock@,
                    item_id,
                ) {
                    e == StockError::AlreadyOpen
                } else {
                    e == StockError::NotInStock && !exists_unopened(old(self).stock@, item_id)
                }),
            },
            final(self).items@ == old(self).items@,
            final(self).aliases@ == old(self).aliases@,
            final(self).next_item_id == old(self).next_item_id,
            final(self).next_stock_id == old(self).next_stock_id,
    {
        let already = self.find_open(item_id);
        if already.is_some() {
            proof {
                assert(exists_open(self.stock@, item_id));
            }
            return Err(StockError::AlreadyOpen);
        }
        let found = self.find_first_unopened(item_id);
        match found {
            Some(i) => {
                let u = self.stock[i];
                let marked = Stock {
                    id: u.id,
                    item_id: u.item_id,
                    added_dt: u.added_dt,
                    opened_dt: Some(self.clock),
                    removed_dt: u.removed_dt,
                };
                proof {
                    assert(marked == with_opened(self.stock@[i as int], self.clock));
                }
                self.mark_unit(i, marked);
                Ok(())
            },
            None => Err(StockError::NotInStock),
        }
    }

    /// Finishes the item's currently open unit, removing it from stock.
    /// Fails with `NotOpen`, changing nothing, when no unit of the item
    /// is open.
    pub fn finish_from_stock(&mut self, item_id: i32) -> (r: Result<(), StockError>)
        requires
            old(self).wf(),
            old(self).clock < u64::MAX,
        ensures
            final(self).wf(),
            match r {
                Ok(()) => exists|i: int|
                    0 <= i < old(self).stock@.len() && open_for(
                        #[trigger] old(self).stock@[i],
                        item_id,
                    ) && final(self).stock@ == old(self).stock@.update(
                        i,
                        with_removed(old(self).stock@[i], old(self).clock),
                    ) && final(self).clock == old(self).clock + 1,
                Err(e) => e == StockError::NotOpen && !exists_open(old(self).stock@, item_id)
                    && *final(self) == *old(self),
            },
            final(self).items@ == old(self).items@,
            final(self).aliases@ == old(self).aliases@,
            final(self).next_item_id == old(self).next_item_id,
            final(self).next_stock_id == old(self).next_stock_id,
    {
        let found = self.find_open(item_id);
        match found {
            Some(i) => {
                let u = self.stock[i];
                let marked = Stock {
                    id: u.id,
                    item_id: u.item_id,
                    added_dt: u.added_dt,
                    opened_dt: u.opened_dt,
                    removed_dt: Some(self.clock),
                };
                proof {
                    assert(marked == with_removed(self.stock@[i as int], self.clock));
                }
                self.mark_unit(i, marked);
                Ok(())
            },
            None => Err(StockError::NotOpen),
        }
    }
}

/// How many units of the item are currently open.
pub open spec fn count_open(s: Seq<Stock>, item_id: i32) -> nat
    decreases s.len(),
{
    if s.len() == 0 {
        0
    } else {
        count_open(s.drop_last(), item_id) + if open_for(s.last(), item_id) {
            1nat
        } else {
            0
        }
    }
}

proof fn lemma_count_open_none(s: Seq<Stock>, item_id: i32)
    requires
        forall|i: int| 0 <= i < s.len() ==> !open_for(#[trigger] s[i], item_id),
    ensures
        count_open(s, item_id) == 0,
    decreases s.len(),
{
    if s.len() > 0 {
        assert forall|i: int| 0 <= i < s.drop_last().len() implies !open_for(
            #[trigger] s.drop_last()[i],
            item_id,
        ) by {
            assert(s.drop_last()[i] == s[i]);
        }
        lemma_count_open_none(s.drop_last(), item_id);
        assert(!open_for(s.last(), item_id));
    }
}

proof fn lemma_count_open_pairwise(s: Seq<Stock>, item_id: i32)
    requires
        forall|i: int, j: int|
            0 <= i < s.len() && 0 <= j < s.len() && i != j ==> !(open_for(
                #[trigger] s[i],
                item_id,
            ) && open_for(#[trigger] s[j], item_id)),
    ensures
        count_open(s, item_id) <= 1,
    decreases s.len(),
{
    if s.len() > 0 {
        let d = s.drop_last();
        assert forall|i: int, j: int|
            0 <= i < d.len() && 0 <= j < d.len() && i != j implies !(open_for(
            #[trigger] d[i],
            item_id,
        ) && open_for(#[trigger] d[j], item_id)) by {
            assert(d[i] == s[i] && d[j] == s[j]);
        }
        lemma_count_open_pairwise(d, item_id);
        if open_for(s.last(), item_id) {
            assert forall|i: int| 0 <= i < d.len() implies !open_for(#[trigger] d[i], item_id) by {
                assert(d[i] == s[i]);
                assert(!(open_for(s[i], item_id) && open_for(s[s.len() - 1], item_id)));
            }
            lemma_count_open_none(d, item_id);
        }
    }
}

/// At any time, for every item, the number of units that are opened
/// and not yet removed is at most one.
pub proof fn lemma_at_most_one_open(s: Store, item_id: i32)
    requires
        s.wf(),
    ensures
        count_open(s.stock@, item_id) <= 1,
{
    assert forall|i: int, j: int|
        0 <= i < s.stock@.len() && 0 <= j < s.stock@.len() && i != j implies !(open_for(
        #[trigger] s.stock@[i],
        item_id,
    ) && open_for(#[trigger] s.stock@[j], item_id)) by {
        if open_for(s.stock@[i], item_id) && open_for(s.stock@[j], item_id) {
            assert(s.stock@[i].is_open() && s.stock@[j].is_open());
            assert(s.stock@[i].item_id != s.stock@[j].item_id);
        }
    }
    lemma_count_open_pairwise(s.stock@, item_id);
}

/// The unit that oldest-first selection picks was added no later than
/// any other on-hand unopened unit of the item: removal and opening
/// consume stock strictly in order of addition.
pub proof fn lemma_first_unopened_is_oldest(s: Store, item_id: i32, i: int)
    requires
        s.wf(),
        is_first_unopened(s.stock@, item_id, i),
    ensures
        forall|j: int|
            0 <= j < s.stock@.len() && eligible_unopened(#[trigger] s.stock@[j], item_id)
                ==> s.stock@[i].added_dt <= s.stock@[j].added_dt,
{
    assert forall|j: int|
        0 <= j < s.stock@.len() && eligible_unopened(#[trigger] s.stock@[j], item_id) implies
        s.stock@[i].added_dt <= s.stock@[j].added_dt by {
        if j < i {
            assert(!eligible_unopened(s.stock@[j], item_id));
        }
    }
}

/// First-in, first-out, played over two units: when the item's on-hand
/// unopened units are exactly two, added at `t1 < t2`, selection picks
/// the `t1` unit first, and — once that one is marked removed — the
/// `t2` unit next.
pub proof fn lemma_fifo_two_units(s: Store, item_id: i32, a: int, b: int, t: u64)
    requires
        s.wf(),
        0 <= a < s.stock@.len(),
        0 <= b < s.stock@.len(),
        a != b,
        eligible_unopened(s.stock@[a], item_id),
        eligible_unopened(s.stock@[b], item_id),
        s.stock@[a].added_dt < s.stock@[b].added_dt,
        forall|k: int|
            0 <= k < s.stock@.len() && eligible_unopened(#[trigger] s.stock@[k], item_id) ==> k == a
                || k == b,
    ensures
        is_first_unopened(s.stock@, item_id, a),
        is_first_unopened(s.stock@.update(a, with_removed(s.stock@[a], t)), item_id, b),
{
    assert(a < b) by {
        if b < a {
            assert(s.stock@[b].added_dt < s.stock@[a].added_dt);
        }
    }
    assert forall|j: int| 0 <= j < a implies !eligible_unopened(
        #[trigger] s.stock@[j],
        item_id,
    ) by {
        if eligible_unopened(s.stock@[j], item_id) {
            assert(j == a || j == b);
        }
    }
    let s2 = s.stock@.update(a, with_removed(s.stock@[a], t));
    assert(eligible_unopened(s2[b], item_id));
    assert forall|j: int| 0 <= j < b implies !eligible_unopened(#[trigger] s2[j], item_id) by {
        if eligible_unopened(s2[j], item_id) {
            assert(j != a);
            assert(s2[j] == s.stock@[j]);
            assert(j == a || j == b);
        }
    }
}

/// An item with no stock units has nothing eligible: by the contracts
/// of removal, opening and finishing, each then fails with its error
/// and mutates nothing.
pub proof fn lemma_no_units_nothing_eligible(s: Store, item_id: i32)
    requires
        forall|i: int| 0 <= i < s.stock@.len() ==> (#[trigger] s.stock@[i]).item_id != item_id,
    ensures
        !exists_unopened(s.stock@, item_id),
        !exists_open(s.stock@, item_id),
        forall|sid: i32| no_removable(s.stock@, item_id, sid),
{
    assert forall|sid: i32| no_removable(s.stock@, item_id, sid) by {
        assert forall|i: int| !removable_at(s.stock@, item_id, sid, i) by {
            if 0 <= i < s.stock@.len() {
                assert(s.stock@[i].item_id != item_id);
            }
        }
    }
}

} // verus!
