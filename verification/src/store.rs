//! The in-memory transactional store holding the three relations, and
//! the item/alias resolver operating on it.
//!
//! Each public operation is one atomic step on the store: it either
//! completes its whole change or leaves the store untouched.

use vstd::prelude::*;

use crate::models::{Alias, Item, ItemKind, Stock};
use crate::text::{
    chars_of, contains_lower, contains_seq, eq_lower, lex_leq, lex_leq_chars, lower_of, lowercase,
    str_eq,
};

verus! {

/// The item carries `code` as its canonical barcode.
pub open spec fn has_code(it: Item, code: Seq<char>) -> bool {
    match it.ean {
        Some(e) => e@ == code,
        None => false,
    }
}

/// The item's name equals `q`, compared case-insensitively.
pub open spec fn name_matches(it: Item, q: Seq<char>) -> bool {
    lower_of(it.name@) == lower_of(q)
}

/// The item is custom and its name contains `q`, case-insensitively.
pub open spec fn custom_match(it: Item, q: Seq<char>) -> bool {
    it.kind == ItemKind::Custom && contains_seq(lower_of(it.name@), lower_of(q))
}

/// Case-insensitive name order on items.
pub open spec fn name_leq(a: Item, b: Item) -> bool {
    lex_leq(lower_of(a.name@), lower_of(b.name@))
}

/// The custom items among `items` whose names contain `q`,
/// case-insensitively, in their stored order.
pub open spec fn custom_matches_of(items: Seq<Item>, q: Seq<char>) -> Seq<Item> {
    items.filter(|it: Item| custom_match(it, q))
}

/// Index `i` holds the first item, in stored order, whose name equals
/// `q` case-insensitively.
pub open spec fn first_name_match_at(items: Seq<Item>, q: Seq<char>, i: int) -> bool {
    &&& 0 <= i < items.len()
    &&& name_matches(items[i], q)
    &&& forall|j: int| 0 <= j < i ==> !name_matches(#[trigger] items[j], q)
}

/// No item's name equals `q` case-insensitively.
pub open spec fn no_name_match(items: Seq<Item>, q: Seq<char>) -> bool {
    forall|i: int| 0 <= i < items.len() ==> !name_matches(#[trigger] items[i], q)
}

/// The persistent state: items, aliases, stock units, the id counters,
/// and the logical clock that stamps stock lifecycle events.
pub struct Store {
    pub items: Vec<Item>,
    pub aliases: Vec<Alias>,
    pub stock: Vec<Stock>,
    pub next_item_id: i32,
    pub next_stock_id: i32,
    pub clock: u64,
}

impl Store {
    /// Some alias redirects `code`.
    pub open spec fn has_alias(self, code: Seq<char>) -> bool {
        exists|i: int| 0 <= i < self.aliases@.len() && self.aliases@[i].ean@ == code
    }

    /// The code an alias redirects `code` to.
    pub open spec fn alias_target(self, code: Seq<char>) -> Seq<char>
        recommends
            self.has_alias(code),
    {
        let i = choose|i: int| 0 <= i < self.aliases@.len() && self.aliases@[i].ean@ == code;
        self.aliases@[i].alias_for@
    }

    /// Some item carries `code` as its canonical barcode.
    pub open spec fn has_item_code(self, code: Seq<char>) -> bool {
        exists|i: int| 0 <= i < self.items@.len() && has_code(self.items@[i], code)
    }

    /// The index of the item carrying `code`.
    pub open spec fn item_index_by_code(self, code: Seq<char>) -> int
        recommends
            self.has_item_code(code),
    {
        choose|i: int| 0 <= i < self.items@.len() && has_code(self.items@[i], code)
    }

    /// Some item has id `id`.
    pub open spec fn has_item_id(self, id: i32) -> bool {
        exists|i: int| 0 <= i < self.items@.len() && self.items@[i].id == id
    }

    /// The index of the item with id `id`.
    pub open spec fn item_index_by_id(self, id: i32) -> int
        recommends
            self.has_item_id(id),
    {
        choose|i: int| 0 <= i < self.items@.len() && self.items@[i].id == id
    }

    /// `code` is already taken, as an alias code or an item's barcode.
    pub open spec fn code_taken(self, code: Seq<char>) -> bool {
        self.has_alias(code) || self.has_item_code(code)
    }

    /// The canonical code that `code` stands for: the alias target when
    /// an alias redirects it, otherwise `code` itself.
    pub open spec fn resolved_code(self, code: Seq<char>) -> Seq<char> {
        if self.has_alias(code) {
            self.alias_target(code)
        } else {
            code
        }
    }

    /// The index of the item a scanned code resolves to, following at
    /// most one level of alias indirection; `None` when no item matches.
    pub open spec fn spec_resolve(self, code: Seq<char>) -> Option<int> {
        if self.has_item_code(self.resolved_code(code)) {
            Some(self.item_index_by_code(self.resolved_code(code)))
        } else {
            None
        }
    }

    /// All items are well formed, their ids are unique and below the
    /// id counter, and their barcodes are distinct.
    pub open spec fn items_wf(self) -> bool {
        &&& forall|i: int|
            0 <= i < self.items@.len() ==> (#[trigger] self.items@[i]).wf() && self.items@[i].id
                < self.next_item_id
        &&& forall|i: int, j: int|
            0 <= i < j < self.items@.len() ==> (#[trigger] self.items@[i]).id != (
            #[trigger] self.items@[j]).id
        &&& forall|i: int, j: int|
            0 <= i < j < self.items@.len() && (#[trigger] self.items@[i]).ean is Some && (
            #[trigger] self.items@[j]).ean is Some ==> self.items@[i].ean->0@
                != self.items@[j].ean->0@
    }

    /// Alias codes are unique, never collide with item barcodes, and
    /// every alias targets an existing item's barcode — so chains are
    /// exactly one level deep.
    pub open spec fn aliases_wf(self) -> bool {
        &&& forall|i: int, j: int|
            0 <= i < j < self.aliases@.len() ==> (#[trigger] self.aliases@[i]).ean@ != (
            #[trigger] self.aliases@[j]).ean@
        &&& forall|i: int|
            0 <= i < self.aliases@.len() ==> !self.has_item_code(
                (#[trigger] self.aliases@[i]).ean@,
            )
        &&& forall|i: int|
            0 <= i < self.aliases@.len() ==> self.has_item_code(
                (#[trigger] self.aliases@[i]).alias_for@,
            )
    }

    /// Stock units are well formed, their ids unique and below the id
    /// counter, each belongs to an existing item, all timestamps lie
    /// below the clock, units appear in order of addition, and at most
    /// one unit per item is currently open.
    pub open spec fn stock_wf(self) -> bool {
        &&& forall|i: int|
            0 <= i < self.stock@.len() ==> (#[trigger] self.stock@[i]).wf() && self.stock@[i].id
                < self.next_stock_id
        &&& forall|i: int, j: int|
            0 <= i < j < self.stock@.len() ==> (#[trigger] self.stock@[i]).id != (
            #[trigger] self.stock@[j]).id
        &&& forall|i: int|
            0 <= i < self.stock@.len() ==> self.has_item_id((#[trigger] self.stock@[i]).item_id)
        &&& forall|i: int|
            0 <= i < self.stock@.len() ==> (#[trigger] self.stock@[i]).added_dt < self.clock && (
            self.stock@[i].opened_dt is Some ==> self.stock@[i].opened_dt->0 < self.clock) && (
            self.stock@[i].removed_dt is Some ==> self.stock@[i].removed_dt->0 < self.clock)
        &&& forall|i: int, j: int|
            0 <= i < j < self.stock@.len() ==> (#[trigger] self.stock@[i]).added_dt < (
            #[trigger] self.stock@[j]).added_dt
        &&& forall|i: int, j: int|
            0 <= i < self.stock@.len() && 0 <= j < self.stock@.len() && i != j && (
            #[trigger] self.stock@[i]).is_open() && (#[trigger] self.stock@[j]).is_open()
                ==> self.stock@[i].item_id != self.stock@[j].item_id
    }

    /// The store's invariant.
    pub open spec fn wf(self) -> bool {
        &&& self.items_wf()
        &&& self.aliases_wf()
        &&& self.stock_wf()
        &&& self.next_item_id >= 1
        &&& self.next_stock_id >= 1
    }

    /// An empty store, ready to take registrations.
    pub fn new() -> (s: Store)
        ensures
            s.wf(),
            s.items@.len() == 0,
            s.aliases@.len() == 0,
            s.stock@.len() == 0,
            s.clock == 0,
            s.next_item_id == 1,
            s.next_stock_id == 1,
    {
        Store {
            items: Vec::new(),
            aliases: Vec::new(),
            stock: Vec::new(),
            next_item_id: 1,
            next_stock_id: 1,
            clock: 0,
        }
    }

    /// The canonical code an alias redirects `alias_ean` to, when one
    /// does.
    fn query_ean_by_alias(&self, alias_ean: &str) -> (r: Option<String>)
        requires
            self.wf(),
        ensures
            match r {
                Some(t) => self.has_alias(alias_ean@) && t@ == self.alias_target(alias_ean@),
                None => !self.has_alias(alias_ean@),
            },
    {
        let n = self.aliases.len();
        let mut i: usize = 0;
        while i < n
            invariant
                self.wf(),
                i <= n,
                n == self.aliases@.len(),
                forall|k: int| 0 <= k < i ==> (#[trigger] self.aliases@[k]).ean@ != alias_ean@,
            decreases n - i,
        {
            if str_eq(self.aliases[i].ean.as_str(), alias_ean) {
                let t = self.aliases[i].alias_for.clone();
                proof {
                    assert(self.has_alias(alias_ean@));
                    let c = choose|c: int|
                        0 <= c < self.aliases@.len() && self.aliases@[c].ean@ == alias_ean@;
                    if c != i as int {
                        assert(self.aliases@[c].ean@ == self.aliases@[i as int].ean@);
                        assert(false);
                    }
                }
                return Some(t);
            }
            i = i + 1;
        }
        None
    }

    /// Looks a scanned barcode up, following at most one level of alias
    /// indirection.  Returns the resolved item, or `None` when neither
    /// an alias nor an item matches — absence is a normal outcome.
    pub fn query_item_by_ean(&self, barcode_ean: &str) -> (r: Option<Item>)
        requires
            self.wf(),
        ensures
            match r {
                Some(it) => self.spec_resolve(barcode_ean@) is Some && it
                    == self.items@[self.spec_resolve(barcode_ean@)->0],
                None => self.spec_resolve(barcode_ean@) is None,
            },
    {
        let target = self.query_ean_by_alias(barcode_ean);
        let code: &str = match &target {
            Some(t) => t.as_str(),
            None => barcode_ean,
        };
        proof {
            assert(code@ == self.resolved_code(barcode_ean@));
        }
        let n = self.items.len();
        let mut i: usize = 0;
        while i < n
            invariant
                self.wf(),
                i <= n,
                n == self.items@.len(),
                code@ == self.resolved_code(barcode_ean@),
                forall|k: int| 0 <= k < i ==> !has_code(#[trigger] self.items@[k], code@),
            decreases n - i,
        {
            let hit = match &self.items[i].ean {
                Some(e) => str_eq(e.as_str(), code),
                None => false,
            };
            if hit {
                proof {
                    assert(has_code(self.items@[i as int], code@));
                    assert(self.has_item_code(code@));
                    let c = self.item_index_by_code(code@);
                    assert(has_code(self.items@[c], code@));
                    if c != i as int {
                        assert(self.items@[c].ean->0@ == self.items@[i as int].ean->0@);
                        assert(false);
                    }
                }
                return Some(self.items[i].clone());
            }
            i = i + 1;
        }
        None
    }

    /// Case-insensitive exact-match lookup by name, used to detect
    /// naming collisions before creating a new item.  Returns the first
    /// item, in stored order, whose name matches.
    pub fn query_item_by_name(&self, ci_name: &str) -> (r: Option<Item>)
        requires
            self.wf(),
        ensures
            match r {
                Some(it) => exists|i: int|
                    #[trigger] first_name_match_at(self.items@, ci_name@, i) && it
                        == self.items@[i],
                None => no_name_match(self.items@, ci_name@),
            },
    {
        let n = self.items.len();
        let mut i: usize = 0;
        while i < n
            invariant
                i <= n,
                n == self.items@.len(),
                forall|k: int| 0 <= k < i ==> !name_matches(#[trigger] self.items@[k], ci_name@),
            decreases n - i,
        {
            if eq_lower(self.items[i].name.as_str(), ci_name) {
                proof {
                    assert(first_name_match_at(self.items@, ci_name@, i as int));
                }
                return Some(self.items[i].clone());
            }
            i = i + 1;
        }
        None
    }

    /// Lookup by internal item id.
    pub fn query_item_by_id(&self, id: i32) -> (r: Option<Item>)
        requires
            self.wf(),
        ensures
            match r {
                Some(it) => self.has_item_id(id) && it
                    == self.items@[self.item_index_by_id(id)],
                None => !self.has_item_id(id),
            },
    {
        let n = self.items.len();
        let mut i: usize = 0;
        while i < n
            invariant
                self.wf(),
                i <= n,
                n == self.items@.len(),
                forall|k: int| 0 <= k < i ==> (#[trigger] self.items@[k]).id != id,
            decreases n - i,
        {
            if self.items[i].id == id {
                proof {
                    assert(self.has_item_id(id));
                    let c = self.item_index_by_id(id);
                    if c != i as int {
                        assert(self.items@[c].id == self.items@[i as int].id);
                        assert(false);
                    }
                }
                return Some(self.items[i].clone());
            }
            i = i + 1;
        }
        None
    }
}

/// Case-insensitive name order, executably.
fn name_leq_exec(a: &Item, b: &Item) -> (r: bool)
    ensures
        r == name_leq(*a, *b),
{
    let la = lowercase(a.name.as_str());
    let lb = lowercase(b.name.as_str());
    let va = chars_of(la.as_str());
    let vb = chars_of(lb.as_str());
    lex_leq_chars(&va, &vb)
}

impl Store {
    /// Case-insensitive substring search among the custom items,
    /// ordered case-insensitively by name, ascending.  Used for
    /// interactive disambiguation; the result is unbounded by design.
    pub fn search_custom_items_by_name(&self, ci_name: &str) -> (r: Vec<Item>)
        requires
            self.wf(),
        ensures
            r@.to_multiset() == custom_matches_of(self.items@, ci_name@).to_multiset(),
            forall|i: int, j: int| 0 <= i < j < r@.len() ==> name_leq(r@[i], r@[j]),
    {
        let n = self.items.len();
        let mut flt: Vec<Item> = Vec::new();
        let mut i: usize = 0;
        while i < n
            invariant
                i <= n,
                n == self.items@.len(),
                flt@ == custom_matches_of(self.items@.take(i as int), ci_name@),
            decreases n - i,
        {
            proof {
                reveal(Seq::filter);
                assert(self.items@.take(i + 1).drop_last() =~= self.items@.take(i as int));
                assert(self.items@.take(i + 1).last() == self.items@[i as int]);
            }
            let is_custom = match self.items[i].kind {
                ItemKind::Custom => true,
                ItemKind::Bought => false,
            };
            if is_custom && contains_lower(self.items[i].name.as_str(), ci_name) {
                assert(custom_match(self.items@[i as int], ci_name@));
                flt.push(self.items[i].clone());
            } else {
                assert(!custom_match(self.items@[i as int], ci_name@));
            }
            i = i + 1;
        }
        proof {
            assert(self.items@.take(n as int) =~= self.items@);
        }
        sort_items_by_name(flt)
    }
}

/// Sorts items case-insensitively by name, ascending: the result holds
/// the same items and is ordered by `name_leq`.
fn sort_items_by_name(input: Vec<Item>) -> (r: Vec<Item>)
    ensures
        r@.to_multiset() == input@.to_multiset(),
        forall|i: int, j: int| 0 <= i < j < r@.len() ==> name_leq(r@[i], r@[j]),
{
    broadcast use vstd::seq_lib::group_to_multiset_ensures;
    broadcast use vstd::multiset::group_multiset_axioms;

    let ghost orig = input@;
    let mut src = input;
    let mut out: Vec<Item> = Vec::new();
    while src.len() > 0
        invariant
            out@.to_multiset().add(src@.to_multiset()) == orig.to_multiset(),
            forall|i: int, j: int| 0 <= i < j < out@.len() ==> name_leq(out@[i], out@[j]),
            forall|i: int, j: int|
                0 <= i < out@.len() && 0 <= j < src@.len() ==> name_leq(
                    #[trigger] out@[i],
                    #[trigger] src@[j],
                ),
        decreases src.len(),
    {
        broadcast use vstd::seq_lib::group_to_multiset_ensures;
        broadcast use vstd::multiset::group_multiset_axioms;

        let mut m: usize = 0;
        let mut k: usize = 1;
        proof {
            crate::text::lemma_lex_leq_refl(lower_of(src@[0].name@));
        }
        while k < src.len()
            invariant
                m < k,
                k <= src.len(),
                src.len() > 0,
                forall|t: int| 0 <= t < k ==> name_leq(src@[m as int], #[trigger] src@[t]),
            decreases src.len() - k,
        {
            if !name_leq_exec(&src[m], &src[k]) {
                proof {
                    crate::text::lemma_lex_leq_total(
                        lower_of(src@[m as int].name@),
                        lower_of(src@[k as int].name@),
                    );
                    assert forall|t: int| 0 <= t < k + 1 implies name_leq(
                        src@[k as int],
                        #[trigger] src@[t],
                    ) by {
                        if t < k {
                            crate::text::lemma_lex_leq_trans(
                                lower_of(src@[k as int].name@),
                                lower_of(src@[m as int].name@),
                                lower_of(src@[t].name@),
                            );
                        } else {
                            crate::text::lemma_lex_leq_refl(lower_of(src@[k as int].name@));
                        }
                    }
                }
                m = k;
            }
            k = k + 1;
        }
        let ghost old_src = src@;
        let ghost old_out = out@;
        let picked = src.remove(m);
        proof {
            assert(picked == old_src[m as int]);
            assert(src@.to_multiset() == old_src.to_multiset().remove(picked));
            assert(old_src.to_multiset().count(picked) >= 1) by {
                assert(old_src.contains(picked));
            }
        }
        out.push(picked);
        proof {
            assert(out@.to_multiset() == old_out.to_multiset().insert(picked));
            assert(out@.to_multiset().add(src@.to_multiset()) =~= old_out.to_multiset().add(
                old_src.to_multiset(),
            ));
            // the new last element follows everything already placed
            assert forall|i: int, j: int| 0 <= i < j < out@.len() implies name_leq(
                out@[i],
                out@[j],
            ) by {
                if j == out@.len() - 1 {
                    assert(out@[j] == picked);
                }
            }
            // everything left in src still follows everything placed
            assert forall|i: int, j: int|
                0 <= i < out@.len() && 0 <= j < src@.len() implies name_leq(
                #[trigger] out@[i],
                #[trigger] src@[j],
            ) by {
                let jj = if j < m { j } else { j + 1 };
                assert(src@[j] == old_src[jj]);
                if i < out@.len() - 1 {
                    assert(name_leq(old_out[i], old_src[jj]));
                } else {
                    assert(out@[i] == picked);
                    assert(name_leq(old_src[m as int], old_src[jj]));
                }
            }
        }
    }
    proof {
        assert(src@.to_multiset() =~= vstd::multiset::Multiset::<Item>::empty());
        assert(out@.to_multiset() =~= out@.to_multiset().add(src@.to_multiset()));
    }
    out
}

/// Why a creation was refused: the requested code or target conflicts
/// with what the store already holds.  Such a conflict signals a
/// data-integrity problem upstream and is never silently swallowed.
#[derive(Clone, Copy, PartialEq, Eq, Structural, Debug)]
pub enum ConflictError {
    /// The code is already in use, as an alias code or an item barcode.
    CodeExists,
    /// The alias target is not the canonical code of any item.
    TargetMissing,
}

impl Store {
    /// Some item carries `code` as its barcode, executably.
    fn item_code_exists(&self, code: &str) -> (r: bool)
        requires
            self.wf(),
        ensures
            r == self.has_item_code(code@),
    {
        let n = self.items.len();
        let mut i: usize = 0;
        while i < n
            invariant
                i <= n,
                n == self.items@.len(),
                forall|k: int| 0 <= k < i ==> !has_code(#[trigger] self.items@[k], code@),
            decreases n - i,
        {
            let hit = match &self.items[i].ean {
                Some(e) => str_eq(e.as_str(), code),
                None => false,
            };
            if hit {
                proof {
                    assert(has_code(self.items@[i as int], code@));
                }
                return true;
            }
            i = i + 1;
        }
        false
    }

    /// Inserts a new item: bought (with the given barcode) or custom
    /// (without one).  The caller is responsible for having already
    /// checked for a name collision; this call only refuses a barcode
    /// that is already taken.
    pub fn create_item(&mut self, barcode_ean: Option<&str>, name: &str) -> (r: Result<
        Item,
        ConflictError,
    >)
        requires
            old(self).wf(),
            old(self).next_item_id < i32::MAX,
        ensures
            final(self).wf(),
            match r {
                Ok(it) => {
                    &&& (match barcode_ean {
                        Some(c) => !old(self).code_taken(c@),
                        None => true,
                    })
                    &&& it.id == old(self).next_item_id
                    &&& it.name@ == name@
                    &&& (match (barcode_ean, it.ean) {
                        (Some(c), Some(e)) => e@ == c@ && it.kind == ItemKind::Bought,
                        (None, None) => it.kind == ItemKind::Custom,
                        _ => false,
                    })
                    &&& final(self).items@ == old(self).items@.push(it)
                    &&& final(self).next_item_id == old(self).next_item_id + 1
                    &&& final(self).aliases@ == old(self).aliases@
                    &&& final(self).stock@ == old(self).stock@
                    &&& final(self).clock == old(self).clock
                    &&& final(self).next_stock_id == old(self).next_stock_id
                },
                Err(e) => {
                    &&& e == ConflictError::CodeExists
                    &&& barcode_ean is Some && old(self).code_taken(barcode_ean->0@)
                    &&& *final(self) == *old(self)
                },
            },
    {
        let taken = match barcode_ean {
            Some(code) => {
                let aliased = self.query_ean_by_alias(code);
                match aliased {
                    Some(_) => true,
                    None => self.item_code_exists(code),
                }
            },
            None => false,
        };
        if taken {
            return Err(ConflictError::CodeExists);
        }
        let item = Item {
            id: self.next_item_id,
            name: name.to_owned(),
            kind: match barcode_ean {
                Some(_) => ItemKind::Bought,
                None => ItemKind::Custom,
            },
            ean: match barcode_ean {
                Some(c) => Some(c.to_owned()),
                None => None,
            },
        };
        let result = item.clone();
        let ghost old_items = self.items@;
        self.items.push(item);
        self.next_item_id = self.next_item_id + 1;
        proof {
            let s = *self;
            let olds = *old(self);
            assert forall|i: int| 0 <= i < s.items@.len() implies (#[trigger] s.items@[i]).wf()
                && s.items@[i].id < s.next_item_id by {
                if i < old_items.len() {
                    assert(s.items@[i] == olds.items@[i]);
                }
            }
            assert forall|i: int, j: int| 0 <= i < j < s.items@.len() implies (
            #[trigger] s.items@[i]).id != (#[trigger] s.items@[j]).id by {
                if j < old_items.len() {
                } else {
                    assert(s.items@[i] == olds.items@[i]);
                    assert(olds.items@[i].id < olds.next_item_id);
                }
            }
            assert forall|i: int, j: int|
                0 <= i < j < s.items@.len() && (#[trigger] s.items@[i]).ean is Some && (
                #[trigger] s.items@[j]).ean is Some implies s.items@[i].ean->0@
                != s.items@[j].ean->0@ by {
                if j < old_items.len() {
                } else {
                    assert(s.items@[i] == olds.items@[i]);
                    if s.items@[i].ean->0@ == s.items@[j].ean->0@ {
                        assert(has_code(olds.items@[i], s.items@[j].ean->0@));
                        assert(olds.has_item_code(s.items@[j].ean->0@));
                        assert(false);
                    }
                }
            }
            assert forall|i: int| 0 <= i < s.aliases@.len() implies !s.has_item_code(
                (#[trigger] s.aliases@[i]).ean@,
            ) by {
                if s.has_item_code(s.aliases@[i].ean@) {
                    let w = choose|w: int|
                        0 <= w < s.items@.len() && has_code(s.items@[w], s.aliases@[i].ean@);
                    if w < old_items.len() {
                        assert(has_code(olds.items@[w], s.aliases@[i].ean@));
                        assert(olds.has_item_code(s.aliases@[i].ean@));
                        assert(false);
                    } else {
                        assert(olds.has_alias(s.items@[w].ean->0@));
                        assert(false);
                    }
                }
            }
            assert forall|i: int| 0 <= i < s.aliases@.len() implies s.has_item_code(
                (#[trigger] s.aliases@[i]).alias_for@,
            ) by {
                let w = choose|w: int|
                    0 <= w < olds.items@.len() && has_code(olds.items@[w], s.aliases@[i].alias_for@);
                assert(has_code(s.items@[w], s.aliases@[i].alias_for@));
            }
            assert forall|i: int| 0 <= i < s.stock@.len() implies s.has_item_id(
                (#[trigger] s.stock@[i]).item_id,
            ) by {
                let w = choose|w: int|
                    0 <= w < olds.items@.len() && olds.items@[w].id == s.stock@[i].item_id;
                assert(s.items@[w].id == s.stock@[i].item_id);
            }
        }
        Ok(result)
    }

    /// Inserts an alias redirecting `alias_ean` to `item_ean`.  Refuses
    /// a code that already exists as an alias or item, and a target
    /// that is not an existing item's barcode — either would break the
    /// one-level indirection guarantee.
    pub fn create_alias(&mut self, alias_ean: &str, item_ean: &str) -> (r: Result<
        Alias,
        ConflictError,
    >)
        requires
            old(self).wf(),
        ensures
            final(self).wf(),
            match r {
                Ok(a) => {
                    &&& !old(self).code_taken(alias_ean@)
                    &&& old(self).has_item_code(item_ean@)
                    &&& a.ean@ == alias_ean@
                    &&& a.alias_for@ == item_ean@
                    &&& final(self).aliases@ == old(self).aliases@.push(a)
                    &&& final(self).items@ == old(self).items@
                    &&& final(self).stock@ == old(self).stock@
                    &&& final(self).clock == old(self).clock
                    &&& final(self).next_item_id == old(self).next_item_id
                    &&& final(self).next_stock_id == old(self).next_stock_id
                },
                Err(e) => {
                    &&& *final(self) == *old(self)
                    &&& (if old(self).code_taken(alias_ean@) {
                        e == ConflictError::CodeExists
                    } else {
                        e == ConflictError::TargetMissing && !old(self).has_item_code(item_ean@)
                    })
                },
            },
    {
        let aliased = self.query_ean_by_alias(alias_ean);
        let taken = match aliased {
            Some(_) => true,
            None => self.item_code_exists(alias_ean),
        };
        if taken {
            return Err(ConflictError::CodeExists);
        }
        if !self.item_code_exists(item_ean) {
            return Err(ConflictError::TargetMissing);
        }
        let alias = Alias { ean: alias_ean.to_owned(), alias_for: item_ean.to_owned() };
        let result = alias.clone();
        let ghost old_aliases = self.aliases@;
        self.aliases.push(alias);
        proof {
            let s = *self;
            let olds = *old(self);
            assert forall|i: int, j: int| 0 <= i < j < s.aliases@.len() implies (
            #[trigger] s.aliases@[i]).ean@ != (#[trigger] s.aliases@[j]).ean@ by {
                if j < old_aliases.len() {
                } else {
                    assert(s.aliases@[i] == olds.aliases@[i]);
                    if s.aliases@[i].ean@ == s.aliases@[j].ean@ {
                        assert(olds.has_alias(s.aliases@[j].ean@));
                        assert(false);
                    }
                }
            }
            assert forall|i: int| 0 <= i < s.aliases@.len() implies !s.has_item_code(
                (#[trigger] s.aliases@[i]).ean@,
            ) by {
                if i < old_aliases.len() {
                    assert(s.aliases@[i] == olds.aliases@[i]);
                    if s.has_item_code(s.aliases@[i].ean@) {
                        let w = choose|w: int|
                            0 <= w < s.items@.len() && has_code(s.items@[w], s.aliases@[i].ean@);
                        assert(has_code(olds.items@[w], olds.aliases@[i].ean@));
                        assert(olds.has_item_code(olds.aliases@[i].ean@));
                        assert(false);
                    }
                } else {
                    if s.has_item_code(s.aliases@[i].ean@) {
                        let w = choose|w: int|
                            0 <= w < s.items@.len() && has_code(s.items@[w], s.aliases@[i].ean@);
                        assert(has_code(olds.items@[w], alias_ean@));
                        assert(olds.has_item_code(alias_ean@));
                        assert(false);
                    }
                }
            }
            assert forall|i: int| 0 <= i < s.aliases@.len() implies s.has_item_code(
                (#[trigger] s.aliases@[i]).alias_for@,
            ) by {
                if i < old_aliases.len() {
                    assert(s.aliases@[i] == olds.aliases@[i]);
                    let w = choose|w: int|
                        0 <= w < olds.items@.len() && has_code(
                            olds.items@[w],
                            olds.aliases@[i].alias_for@,
                        );
                    assert(has_code(s.items@[w], s.aliases@[i].alias_for@));
                } else {
                    assert(s.aliases@[i].alias_for@ == item_ean@);
                    let w = choose|w: int|
                        0 <= w < olds.items@.len() && has_code(olds.items@[w], item_ean@);
                    assert(has_code(s.items@[w], s.aliases@[i].alias_for@));
                }
            }
        }
        Ok(result)
    }
}

/// Alias indirection, one level deep: with an alias from `a` to item
/// X's canonical code `b` in place, both `a` and `b` resolve to X, and
/// resolving `a` never yields an item whose own code is `a`.
pub proof fn lemma_alias_indirection(s: Store, a: Seq<char>, b: Seq<char>, x: int)
    requires
        s.wf(),
        s.has_alias(a),
        s.alias_target(a) == b,
        0 <= x < s.items@.len(),
        has_code(s.items@[x], b),
    ensures
        s.spec_resolve(a) == Some(x),
        s.spec_resolve(b) == Some(x),
        s.items@[x].ean->0@ != a,
{
    assert(s.has_item_code(b));
    assert(s.resolved_code(a) == b);
    let c = s.item_index_by_code(b);
    assert(has_code(s.items@[c], b));
    if c != x {
        assert(s.items@[c].ean->0@ == s.items@[x].ean->0@);
        assert(false);
    }
    assert(s.spec_resolve(a) == Some(x));
    // b is an item's code, so no alias redirects it
    if s.has_alias(b) {
        let w = choose|w: int| 0 <= w < s.aliases@.len() && s.aliases@[w].ean@ == b;
        assert(!s.has_item_code(s.aliases@[w].ean@));
        assert(false);
    }
    assert(s.resolved_code(b) == b);
    assert(s.spec_resolve(b) == Some(x));
    // and a, being an alias code, is no item's code — X's in particular
    if s.items@[x].ean->0@ == a {
        assert(has_code(s.items@[x], a));
        assert(s.has_item_code(a));
        let w = choose|w: int| 0 <= w < s.aliases@.len() && s.aliases@[w].ean@ == a;
        assert(!s.has_item_code(s.aliases@[w].ean@));
        assert(false);
    }
}

/// Connects a freshly inserted alias row to resolution: the alias just
/// appended is the one that redirects its code.
pub proof fn lemma_new_alias_resolves(s: Store, a: Seq<char>, b: Seq<char>)
    requires
        s.wf(),
        s.aliases@.len() > 0,
        s.aliases@.last().ean@ == a,
        s.aliases@.last().alias_for@ == b,
    ensures
        s.has_alias(a),
        s.alias_target(a) == b,
{
    let last = s.aliases@.len() - 1;
    assert(s.aliases@[last].ean@ == a);
    assert(s.has_alias(a));
    let c = choose|i: int| 0 <= i < s.aliases@.len() && s.aliases@[i].ean@ == a;
    if c != last {
        assert(s.aliases@[c].ean@ == s.aliases@[last].ean@);
        assert(false);
    }
}

} // verus!
