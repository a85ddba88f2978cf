//! The pending-order book: the volatile mapping from order id to live
//! order, with secondary queries by account and by symbol.

use vstd::prelude::*;
use crate::orders::{AccountId, Order, OrderId, OrderStatus, TradeError};
use crate::strutil::str_eq;

verus! {

/// The order with identifier `id` among `os`, if any; scanned from the
/// back, which is equivalent to any other order under `book_unique`.
pub open spec fn find_order(os: Seq<Order>, id: Seq<char>) -> Option<Order>
    decreases os.len(),
{
    if os.len() == 0 {
        None
    } else if os.last().id@ == id {
        Some(os.last())
    } else {
        find_order(os.drop_last(), id)
    }
}

/// No two stored orders share an identifier.
pub open spec fn book_unique(os: Seq<Order>) -> bool {
    forall|i: int, j: int| 0 <= i < j < os.len() ==> os[i].id@ != os[j].id@
}

pub proof fn lemma_find_order_at(os: Seq<Order>, id: Seq<char>, i: int)
    requires
        book_unique(os),
        0 <= i < os.len(),
        os[i].id@ == id,
    ensures
        find_order(os, id) == Some(os[i]),
    decreases os.len(),
{
    if i == os.len() - 1 {
    } else {
        assert(os.last().id@ != id);
        assert(os.drop_last()[i] == os[i]);
        lemma_find_order_at(os.drop_last(), id, i);
    }
}

pub proof fn lemma_find_order_absent(os: Seq<Order>, id: Seq<char>)
    requires
        forall|i: int| 0 <= i < os.len() ==> (#[trigger] os[i]).id@ != id,
    ensures
        find_order(os, id) is None,
    decreases os.len(),
{
    if os.len() > 0 {
        lemma_find_order_absent(os.drop_last(), id);
    }
}

/// Removing the entry at `i` erases exactly its identifier.
pub proof fn lemma_find_order_remove(os: Seq<Order>, i: int, id: Seq<char>)
    requires
        book_unique(os),
        0 <= i < os.len(),
    ensures
        find_order(os.remove(i), os[i].id@) is None,
        id != os[i].id@ ==> find_order(os.remove(i), id) == find_order(os, id),
        book_unique(os.remove(i)),
    decreases os.len(),
{
    let os2 = os.remove(i);
    assert(forall|k: int| 0 <= k < i ==> os2[k] == os[k]);
    assert(forall|k: int| i <= k < os2.len() ==> os2[k] == os[k + 1]);
    assert(book_unique(os2));
    assert(forall|k: int| 0 <= k < os2.len() ==> (#[trigger] os2[k]).id@ != os[i].id@);
    lemma_find_order_absent(os2, os[i].id@);
    if id != os[i].id@ {
        if i == os.len() - 1 {
            assert(os2 =~= os.drop_last());
        } else {
            assert(os2.last() == os.last());
            assert(os2.drop_last() =~= os.drop_last().remove(i));
            lemma_find_order_remove(os.drop_last(), i, id);
        }
    }
}

/// Replacing the entry at `i` (same identifier) only affects that
/// identifier.
pub proof fn lemma_find_order_update(os: Seq<Order>, i: int, o: Order, id: Seq<char>)
    requires
        book_unique(os),
        0 <= i < os.len(),
        o.id@ == os[i].id@,
    ensures
        find_order(os.update(i, o), os[i].id@) == Some(o),
        id != os[i].id@ ==> find_order(os.update(i, o), id) == find_order(os, id),
        book_unique(os.update(i, o)),
    decreases os.len(),
{
    let os2 = os.update(i, o);
    assert(forall|k: int| 0 <= k < os.len() && k != i ==> os2[k] == os[k]);
    assert(book_unique(os2));
    lemma_find_order_at(os2, os[i].id@, i);
    if id != os[i].id@ {
        if i == os.len() - 1 {
            assert(os2.drop_last() =~= os.drop_last());
        } else {
            if os.last().id@ == id {
                assert(os2.last() == os.last());
            } else {
                assert(os2.drop_last() =~= os.drop_last().update(i, o));
                lemma_find_order_update(os.drop_last(), i, o, id);
            }
        }
    }
}

/// Appending an order with a fresh identifier only affects that identifier.
pub proof fn lemma_find_order_push(os: Seq<Order>, o: Order, id: Seq<char>)
    ensures
        find_order(os.push(o), o.id@) == Some(o),
        id != o.id@ ==> find_order(os.push(o), id) == find_order(os, id),
{
    assert(os.push(o).last() == o);
    assert(os.push(o).drop_last() =~= os);
}

/// The order `find_order` returns is an element of the book.
pub proof fn lemma_find_order_is_element(os: Seq<Order>, id: Seq<char>)
    requires
        find_order(os, id) is Some,
    ensures
        exists|i: int| 0 <= i < os.len() && os[i] == find_order(os, id).unwrap(),
    decreases os.len(),
{
    if os.last().id@ == id {
        assert(os[os.len() - 1] == find_order(os, id).unwrap());
    } else {
        lemma_find_order_is_element(os.drop_last(), id);
        let i = choose|i: int|
            0 <= i < os.drop_last().len() && os.drop_last()[i] == find_order(
                os.drop_last(),
                id,
            ).unwrap();
        assert(os[i] == find_order(os, id).unwrap());
    }
}

/// Filtering a book keeps identifiers unique, keeps every element an
/// element of the original, and looks up as the original does wherever the
/// predicate holds.
pub proof fn lemma_find_order_filter(os: Seq<Order>, pred: spec_fn(Order) -> bool, id: Seq<char>)
    requires
        book_unique(os),
    ensures
        book_unique(os.filter(pred)),
        forall|k: int|
            0 <= k < os.filter(pred).len() ==> os.contains(#[trigger] os.filter(pred)[k]),
        find_order(os.filter(pred), id) == (match find_order(os, id) {
            Some(o) => if pred(o) {
                Some(o)
            } else {
                None::<Order>
            },
            None => None::<Order>,
        }),
    decreases os.len(),
{
    reveal_with_fuel(Seq::filter, 2);
    if os.len() == 0 {
    } else {
        let rest = os.drop_last();
        lemma_find_order_filter(rest, pred, id);
        assert(forall|k: int| 0 <= k < rest.len() ==> rest[k] == os[k]);
        assert(forall|k: int|
            0 <= k < rest.filter(pred).len() ==> os.contains(#[trigger] rest.filter(pred)[k]))
            by {
            assert forall|k: int| 0 <= k < rest.filter(pred).len() implies os.contains(
                #[trigger] rest.filter(pred)[k],
            ) by {
                let j = choose|j: int| 0 <= j < rest.len() && rest[j] == rest.filter(pred)[k];
                assert(os[j] == rest.filter(pred)[k]);
            }
        }
        if pred(os.last()) {
            let f = rest.filter(pred).push(os.last());
            assert(os.filter(pred) == f);
            assert(f.drop_last() =~= rest.filter(pred));
            assert(f.last() == os.last());
            assert(os.contains(os.last())) by {
                assert(os[os.len() - 1] == os.last());
            }
            assert(book_unique(f)) by {
                assert forall|p: int, q: int| 0 <= p < q < f.len() implies f[p].id@ != f[q].id@
                    by {
                    if q == f.len() - 1 {
                        let j = choose|j: int| 0 <= j < rest.len() && rest[j] == f[p];
                        assert(os[j].id@ != os[os.len() - 1].id@);
                    }
                }
            }
            if os.last().id@ == id {
                assert(find_order(f, id) == Some(os.last()));
            } else {
                assert(find_order(f, id) == find_order(rest.filter(pred), id));
            }
        } else {
            assert(os.filter(pred) == rest.filter(pred));
            if os.last().id@ == id {
                assert(forall|k: int|
                    0 <= k < rest.len() ==> (#[trigger] rest[k]).id@ != id);
                lemma_find_order_absent(rest, id);
            }
        }
    }
}

/// In-memory store of the orders that are still live.
pub struct MemoryPendingOrderStore {
    pub orders: Vec<Order>,
}

impl MemoryPendingOrderStore {
    /// An empty book.
    pub fn new() -> (r: MemoryPendingOrderStore)
        ensures
            r.orders@.len() == 0,
            book_unique(r.orders@),
    {
        MemoryPendingOrderStore { orders: Vec::new() }
    }

    /// Index of the order with identifier `id`, if stored.
    fn find_index(&self, id: &OrderId) -> (r: Option<usize>)
        requires
            book_unique(self.orders@),
        ensures
            match r {
                Some(i) => {
                    &&& i < self.orders@.len()
                    &&& self.orders@[i as int].id@ == id@
                    &&& find_order(self.orders@, id@) == Some(self.orders@[i as int])
                },
                None => {
                    &&& find_order(self.orders@, id@) is None
                    &&& forall|j: int|
                        0 <= j < self.orders@.len() ==> (#[trigger] self.orders@[j]).id@ != id@
                },
            },
    {
        let n = self.orders.len();
        let mut i: usize = 0;
        while i < n
            invariant
                n == self.orders@.len(),
                i <= n,
                book_unique(self.orders@),
                forall|j: int| 0 <= j < i ==> (#[trigger] self.orders@[j]).id@ != id@,
            decreases n - i,
        {
            if self.orders[i].id.same(id) {
                proof {
                    lemma_find_order_at(self.orders@, id@, i as int);
                }
                return Some(i);
            }
            i += 1;
        }
        proof {
            lemma_find_order_absent(self.orders@, id@);
        }
        None
    }

    /// Store `order` under its identifier, replacing any previous entry.
    pub fn save(&mut self, order: Order) -> (r: Result<(), TradeError>)
        requires
            book_unique(old(self).orders@),
        ensures
            r is Ok,
            book_unique(final(self).orders@),
            find_order(final(self).orders@, order.id@) == Some(order),
            forall|other: Seq<char>|
                other != order.id@ ==> find_order(final(self).orders@, other) == find_order(
                    old(self).orders@,
                    other,
                ),
            forall|i: int|
                0 <= i < final(self).orders@.len() ==> (#[trigger] final(self).orders@[i]) == order
                    || old(self).orders@.contains(final(self).orders@[i]),
    {
        let ghost os0 = self.orders@;
        match self.find_index(&order.id) {
            Some(i) => {
                proof {
                    lemma_find_order_update(os0, i as int, order, order.id@);
                    assert forall|other: Seq<char>| other != order.id@ implies find_order(
                        os0.update(i as int, order),
                        other,
                    ) == find_order(os0, other) by {
                        lemma_find_order_update(os0, i as int, order, other);
                    }
                }
                self.orders.set(i, order);
            },
            None => {
                proof {
                    assert(os0.push(order).last() == order);
                    assert(os0.push(order).drop_last() =~= os0);
                    assert forall|other: Seq<char>| other != order.id@ implies find_order(
                        os0.push(order),
                        other,
                    ) == find_order(os0, other) by {
                        lemma_find_order_push(os0, order, other);
                    }
                }
                self.orders.push(order);
            },
        }
        Ok(())
    }

    /// Take the order with identifier `id` out of the book, returning the
    /// prior entry.
    pub fn remove(&mut self, order_id: &OrderId) -> (r: Result<Option<Order>, TradeError>)
        requires
            book_unique(old(self).orders@),
        ensures
            book_unique(final(self).orders@),
            match r {
                Ok(prior) => {
                    &&& prior == find_order(old(self).orders@, order_id@)
                    &&& find_order(final(self).orders@, order_id@) is None
                    &&& forall|other: Seq<char>|
                        other != order_id@ ==> find_order(final(self).orders@, other) == find_order(
                            old(self).orders@,
                            other,
                        )
                    &&& prior is None ==> final(self).orders@ == old(self).orders@
                    &&& forall|i: int|
                        0 <= i < final(self).orders@.len() ==> old(self).orders@.contains(
                            #[trigger] final(self).orders@[i],
                        )
                },
                Err(_) => false,
            },
    {
        let ghost os0 = self.orders@;
        match self.find_index(order_id) {
            Some(i) => {
                let prior = self.orders.remove(i);
                proof {
                    lemma_find_order_remove(os0, i as int, order_id@);
                    assert forall|other: Seq<char>| other != order_id@ implies find_order(
                        os0.remove(i as int),
                        other,
                    ) == find_order(os0, other) by {
                        lemma_find_order_remove(os0, i as int, other);
                    }
                }
                Ok(Some(prior))
            },
            None => Ok(None),
        }
    }

    /// The order with identifier `id`, if stored.
    pub fn get(&self, order_id: &OrderId) -> (r: Result<Option<Order>, TradeError>)
        requires
            book_unique(self.orders@),
        ensures
            r matches Ok(found) && found == find_order(self.orders@, order_id@),
    {
        match self.find_index(order_id) {
            Some(i) => Ok(Some(self.orders[i].duplicate())),
            None => Ok(None),
        }
    }

    /// All stored orders of one account, in storage order.
    pub fn get_by_account(&self, account_id: &AccountId) -> (r: Result<Vec<Order>, TradeError>)
        ensures
            r matches Ok(os) && os@ == self.orders@.filter(
                |o: Order| o.account_id@ == account_id@,
            ),
    {
        let mut out: Vec<Order> = Vec::new();
        let n = self.orders.len();
        let mut i: usize = 0;
        proof {
            assert(self.orders@.subrange(0, 0).filter(|o: Order| o.account_id@ == account_id@)
                =~= Seq::<Order>::empty());
        }
        while i < n
            invariant
                n == self.orders@.len(),
                i <= n,
                out@ == self.orders@.subrange(0, i as int).filter(
                    |o: Order| o.account_id@ == account_id@,
                ),
            decreases n - i,
        {
            let ghost pre = self.orders@.subrange(0, i as int);
            let o = &self.orders[i];
            if o.account_id.same(account_id) {
                out.push(o.duplicate());
            }
            proof {
                let cur = self.orders@.subrange(0, i as int + 1);
                assert(cur.drop_last() =~= pre);
                assert(cur.last() == self.orders@[i as int]);
                reveal_with_fuel(Seq::filter, 2);
            }
            i += 1;
        }
        proof {
            assert(self.orders@.subrange(0, n as int) =~= self.orders@);
        }
        Ok(out)
    }

    /// All stored orders on one symbol, in storage order.
    pub fn get_by_symbol(&self, symbol: &str) -> (r: Result<Vec<Order>, TradeError>)
        ensures
            r matches Ok(os) && os@ == self.orders@.filter(|o: Order| o.symbol@ == symbol@),
    {
        let mut out: Vec<Order> = Vec::new();
        let n = self.orders.len();
        let mut i: usize = 0;
        proof {
            assert(self.orders@.subrange(0, 0).filter(|o: Order| o.symbol@ == symbol@)
                =~= Seq::<Order>::empty());
        }
        while i < n
            invariant
                n == self.orders@.len(),
                i <= n,
                out@ == self.orders@.subrange(0, i as int).filter(|o: Order| o.symbol@ == symbol@),
            decreases n - i,
        {
            let ghost pre = self.orders@.subrange(0, i as int);
            let o = &self.orders[i];
            if str_eq(o.symbol.as_str(), symbol) {
                out.push(o.duplicate());
            }
            proof {
                let cur = self.orders@.subrange(0, i as int + 1);
                assert(cur.drop_last() =~= pre);
                assert(cur.last() == self.orders@[i as int]);
                reveal_with_fuel(Seq::filter, 2);
            }
            i += 1;
        }
        proof {
            assert(self.orders@.subrange(0, n as int) =~= self.orders@);
        }
        Ok(out)
    }

    /// Set the status of the order with identifier `id`, if stored; a
    /// missing order is left as a silent no-op, as the port specifies.
    pub fn update_status(&mut self, order_id: &OrderId, status: OrderStatus) -> (r: Result<
        (),
        TradeError,
    >)
        requires
            book_unique(old(self).orders@),
        ensures
            r is Ok,
            book_unique(final(self).orders@),
            match find_order(old(self).orders@, order_id@) {
                Some(prior) => {
                    &&& find_order(final(self).orders@, order_id@) matches Some(cur)
                        && cur == (Order { status, ..prior })
                    &&& forall|other: Seq<char>|
                        other != order_id@ ==> find_order(final(self).orders@, other) == find_order(
                            old(self).orders@,
                            other,
                        )
                },
                None => final(self).orders@ == old(self).orders@,
            },
    {
        let ghost os0 = self.orders@;
        match self.find_index(order_id) {
            Some(i) => {
                let mut updated = self.orders[i].duplicate();
                updated.status = status;
                proof {
                    lemma_find_order_update(os0, i as int, updated, order_id@);
                    assert forall|other: Seq<char>| other != order_id@ implies find_order(
                        os0.update(i as int, updated),
                        other,
                    ) == find_order(os0, other) by {
                        lemma_find_order_update(os0, i as int, updated, other);
                    }
                }
                self.orders.set(i, updated);
            },
            None => {},
        }
        Ok(())
    }
}

} // verus!
