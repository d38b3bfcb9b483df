use vstd::prelude::*;

use crate::encoding::text_eq;
use crate::transaction::{transactions_view, tx_id, Transaction, TransactionView};

verus! {

/// Whether no two transactions in a list have the same id.
pub open spec fn ids_distinct(pool: Seq<TransactionView>) -> bool {
    forall|i: int, j: int|
        0 <= i < pool.len() && 0 <= j < pool.len() && i != j ==> tx_id(#[trigger] pool[i]) != tx_id(
            #[trigger] pool[j],
        )
}

/// Whether some transaction in the list has id `id`.
pub open spec fn pool_has_id(pool: Seq<TransactionView>, id: Seq<char>) -> bool {
    exists|j: int| 0 <= j < pool.len() && tx_id(#[trigger] pool[j]) == id
}

/// The list after adding `tx` under its id: a transaction with the same id is
/// replaced in place, otherwise `tx` goes at the end.
pub open spec fn pool_insert(pool: Seq<TransactionView>, tx: TransactionView) -> Seq<TransactionView> {
    if pool_has_id(pool, tx_id(tx)) {
        pool.update(choose|j: int| 0 <= j < pool.len() && tx_id(#[trigger] pool[j]) == tx_id(tx), tx)
    } else {
        pool.push(tx)
    }
}

/// The transactions waiting to be mined, each under its id; no id occurs twice.
#[derive(Debug)]
pub struct Mempool {
    entries: Vec<(String, Transaction)>,
}

impl View for Mempool {
    type V = Seq<TransactionView>;

    closed spec fn view(&self) -> Seq<TransactionView> {
        self.entries@.map_values(|e: (String, Transaction)| e.1@)
    }
}

impl Mempool {
    #[verifier::type_invariant]
    spec fn keyed_by_id(&self) -> bool {
        &&& forall|i: int|
            0 <= i < self.entries@.len() ==> (#[trigger] self.entries@[i]).0@ == tx_id(
                self.entries@[i].1@,
            )
        &&& ids_distinct(self@)
    }

    /// An empty pool.
    pub fn new() -> (pool: Mempool)
        ensures
            pool@ == Seq::<TransactionView>::empty(),
    {
        let pool = Mempool { entries: Vec::new() };
        assert(pool@ =~= Seq::<TransactionView>::empty());
        pool
    }

    /// The position of the entry with id `txid`.
    fn find(&self, txid: &str) -> (pos: Option<usize>)
        ensures
            match pos {
                Some(i) => i < self@.len() && tx_id(self@[i as int]) == txid@,
                None => !pool_has_id(self@, txid@),
            },
    {
        proof {
            use_type_invariant(self);
        }
        let mut i: usize = 0;
        while i < self.entries.len()
            invariant
                i <= self.entries@.len(),
                self.keyed_by_id(),
                forall|j: int| 0 <= j < i ==> tx_id(#[trigger] self@[j]) != txid@,
            decreases self.entries@.len() - i,
        {
            if text_eq(self.entries[i].0.as_str(), txid) {
                return Some(i);
            }
            assert(self@[i as int] == self.entries@[i as int].1@);
            i = i + 1;
        }
        None
    }

    /// Adds `tx` under its id, replacing a transaction with the same id; returns the id.
    pub fn add_transaction(&mut self, tx: Transaction) -> (txid: String)
        ensures
            txid@ == tx_id(tx@),
            final(self)@ == pool_insert(old(self)@, tx@),
    {
        proof {
            use_type_invariant(&*self);
        }
        let txid = tx.id();
        let ghost tv = tx@;
        let ghost old_pool = self@;
        let mut entries: Vec<(String, Transaction)> = Vec::new();
        match self.find(txid.as_str()) {
            Some(i) => {
                std::mem::swap(&mut entries, &mut self.entries);
                entries.set(i, (txid.clone(), tx));
                proof {
                    let new_pool = entries@.map_values(|e: (String, Transaction)| e.1@);
                    assert(new_pool =~= old_pool.update(i as int, tv));
                    let j = choose|j: int| 0 <= j < old_pool.len() && tx_id(#[trigger] old_pool[j]) == tx_id(tv);
                    assert(j == i);
                }
                self.entries = entries;
            },
            None => {
                std::mem::swap(&mut entries, &mut self.entries);
                entries.push((txid.clone(), tx));
                proof {
                    let new_pool = entries@.map_values(|e: (String, Transaction)| e.1@);
                    assert(new_pool =~= old_pool.push(tv));
                }
                self.entries = entries;
            },
        }
        txid
    }

    /// Whether a transaction with id `txid` is waiting.
    pub fn contains(&self, txid: &str) -> (found: bool)
        ensures
            found == pool_has_id(self@, txid@),
    {
        self.find(txid).is_some()
    }

    /// A copy of the waiting transaction with id `txid`.
    pub fn get(&self, txid: &str) -> (tx: Option<Transaction>)
        ensures
            match tx {
                Some(t) => exists|j: int| 0 <= j < self@.len() && self@[j] == t@ && tx_id(t@) == txid@,
                None => !pool_has_id(self@, txid@),
            },
    {
        match self.find(txid) {
            Some(i) => {
                let t = self.entries[i].1.clone();
                assert(self@[i as int] == t@);
                Some(t)
            },
            None => None,
        }
    }

    /// The number of waiting transactions.
    pub fn len(&self) -> (n: usize)
        ensures
            n == self@.len(),
    {
        self.entries.len()
    }

    /// Copies of the first `count` waiting transactions (all of them when fewer wait).
    pub fn get_transactions_for_block(&self, count: usize) -> (txs: Vec<Transaction>)
        ensures
            transactions_view(txs@) == self@.take(
                if count < self@.len() {
                    count as int
                } else {
                    self@.len() as int
                },
            ),
    {
        let n = if count < self.entries.len() {
            count
        } else {
            self.entries.len()
        };
        let mut txs: Vec<Transaction> = Vec::new();
        let mut i: usize = 0;
        while i < n
            invariant
                n <= self.entries@.len(),
                i <= n,
                txs@.len() == i,
                forall|j: int| 0 <= j < i ==> (#[trigger] txs@[j])@ == self@[j],
            decreases n - i,
        {
            let t = self.entries[i].1.clone();
            assert(self@[i as int] == self.entries@[i as int].1@);
            txs.push(t);
            i = i + 1;
        }
        assert(transactions_view(txs@) =~= self@.take(n as int));
        txs
    }

    /// Copies of all waiting transactions.
    pub fn all(&self) -> (txs: Vec<Transaction>)
        ensures
            transactions_view(txs@) == self@,
            ids_distinct(self@),
    {
        proof {
            use_type_invariant(self);
        }
        let txs = self.get_transactions_for_block(self.entries.len());
        assert(self@.take(self@.len() as int) =~= self@);
        txs
    }

    /// Drops every waiting transaction whose id is listed in `tx_ids`; the others keep
    /// their order.
    pub fn remove_transactions(&mut self, tx_ids: &[String])
        ensures
            final(self)@ == old(self)@.filter(
                |t: TransactionView| !tx_ids@.map_values(|s: String| s@).contains(tx_id(t)),
            ),
    {
        proof {
            use_type_invariant(&*self);
        }
        let ghost ids = tx_ids@.map_values(|s: String| s@);
        let ghost keep = |t: TransactionView| !ids.contains(tx_id(t));
        let ghost old_pool = self@;
        let mut entries: Vec<(String, Transaction)> = Vec::new();
        std::mem::swap(&mut entries, &mut self.entries);
        let mut kept: Vec<(String, Transaction)> = Vec::new();
        let mut i: usize = 0;
        while i < entries.len()
            invariant
                i <= entries@.len(),
                old_pool == entries@.map_values(|e: (String, Transaction)| e.1@),
                forall|j: int|
                    0 <= j < entries@.len() ==> (#[trigger] entries@[j]).0@ == tx_id(entries@[j].1@),
                forall|j: int|
                    0 <= j < kept@.len() ==> (#[trigger] kept@[j]).0@ == tx_id(kept@[j].1@),
                kept@.map_values(|e: (String, Transaction)| e.1@) == old_pool.take(i as int).filter(keep),
                ids == tx_ids@.map_values(|s: String| s@),
                keep == (|t: TransactionView| !ids.contains(tx_id(t))),
                ids_distinct(old_pool),
                ids_distinct(kept@.map_values(|e: (String, Transaction)| e.1@)),
                forall|a: int|
                    0 <= a < kept@.len() ==> exists|j: int|
                        0 <= j < i && old_pool[j] == (#[trigger] kept@[a]).1@,
            decreases entries@.len() - i,
        {
            let mut listed = false;
            let mut k: usize = 0;
            while k < tx_ids.len()
                invariant
                    k <= tx_ids@.len(),
                    i < entries@.len(),
                    ids == tx_ids@.map_values(|s: String| s@),
                    listed == (exists|q: int| 0 <= q < k && ids[q] == entries@[i as int].0@),
                decreases tx_ids@.len() - k,
            {
                assert(ids[k as int] == tx_ids@[k as int]@);
                if text_eq(tx_ids[k].as_str(), entries[i].0.as_str()) {
                    listed = true;
                }
                k = k + 1;
            }
            proof {
                let t = old_pool[i as int];
                assert(t == entries@[i as int].1@);
                assert(listed == ids.contains(tx_id(t))) by {
                    if ids.contains(tx_id(t)) {
                        let q = choose|q: int| 0 <= q < ids.len() && ids[q] == tx_id(t);
                        assert(ids[q] == entries@[i as int].0@);
                    }
                }
                assert(old_pool.take(i + 1) =~= old_pool.take(i as int).push(t));
                old_pool.take(i as int).lemma_filter_push(t, keep);
            }
            if !listed {
                let entry = (entries[i].0.clone(), entries[i].1.clone());
                let ghost before = kept@;
                kept.push(entry);
                proof {
                    let bv = before.map_values(|e: (String, Transaction)| e.1@);
                    let kv = kept@.map_values(|e: (String, Transaction)| e.1@);
                    assert(kv =~= bv.push(old_pool[i as int]));
                    assert forall|a: int| 0 <= a < bv.len() implies tx_id(bv[a]) != tx_id(
                        old_pool[i as int],
                    ) by {
                        assert(bv[a] == before[a].1@);
                        let j = choose|j: int| 0 <= j < i && old_pool[j] == (#[trigger] before[a]).1@;
                        assert(old_pool[j] == bv[a]);
                    }
                    assert forall|a: int, b: int|
                        0 <= a < kv.len() && 0 <= b < kv.len() && a != b implies tx_id(
                        #[trigger] kv[a],
                    ) != tx_id(#[trigger] kv[b]) by {
                        if a < bv.len() && b < bv.len() {
                            assert(kv[a] == bv[a] && kv[b] == bv[b]);
                        }
                    }
                    assert forall|a: int| 0 <= a < kept@.len() implies exists|j: int|
                        0 <= j < i + 1 && old_pool[j] == (#[trigger] kept@[a]).1@ by {
                        if a < before.len() {
                            assert(kept@[a] == before[a]);
                            let j = choose|j: int| 0 <= j < i && old_pool[j] == (#[trigger] before[a]).1@;
                        } else {
                            assert(old_pool[i as int] == kept@[a].1@);
                        }
                    }
                }
            }
            i = i + 1;
        }
        proof {
            assert(old_pool.take(i as int) =~= old_pool);
        }
        self.entries = kept;
    }
}

} // verus!
