//! The mempool: pending transactions paired with their fees, ordered by
//! decreasing fee and keyed by content identity. The heap-and-set composite
//! lives in a single sorted vector whose invariant states both halves:
//! ordering for priority, identity for membership.

use vstd::prelude::*;
use crate::tx::{Transaction, TxModel, tx_eq};
use crate::seqlemmas::lemma_filter_all;

verus! {

/// A pending transaction together with the fee it pays.
pub struct TransactionWithFee {
    pub transaction: Transaction,
    pub fee: u64,
}

/// The mathematical form of a mempool item.
#[verifier::ext_equal]
pub struct TwfModel {
    pub transaction: TxModel,
    pub fee: u64,
}

impl View for TransactionWithFee {
    type V = TwfModel;

    open spec fn view(&self) -> TwfModel {
        TwfModel { transaction: self.transaction@, fee: self.fee }
    }
}

impl DeepView for TransactionWithFee {
    type V = TwfModel;

    open spec fn deep_view(&self) -> TwfModel {
        self.view()
    }
}

impl TransactionWithFee {
    /// Pair a transaction with its fee.
    pub fn new(transaction: Transaction, fee: u64) -> (r: TransactionWithFee)
        ensures
            r@ == (TwfModel { transaction: transaction@, fee }),
    {
        TransactionWithFee { transaction, fee }
    }

    /// Copy a mempool item.
    pub fn duplicate(&self) -> (r: TransactionWithFee)
        ensures
            r@ == self@,
    {
        TransactionWithFee { transaction: self.transaction.duplicate(), fee: self.fee }
    }
}

/// Whether the pool holds an item with this transaction identity.
pub open spec fn contains_tx(s: Seq<TwfModel>, t: TxModel) -> bool {
    exists|i: int| 0 <= i < s.len() && (#[trigger] s[i]).transaction == t
}

/// Fees never increase along the pool, and no identity repeats: an item is
/// in the heap half exactly when it is in the set half, here one vector.
pub open spec fn heap_wf(s: Seq<TwfModel>) -> bool {
    &&& forall|i: int, j: int| 0 <= i < j < s.len() ==> (#[trigger] s[i]).fee >= (#[trigger] s[j]).fee
    &&& forall|i: int, j: int|
        0 <= i < j < s.len() ==> (#[trigger] s[i]).transaction != (#[trigger] s[j]).transaction
}

/// Where a new item with this fee goes: after the prefix of items whose fee
/// is at least as large.
pub open spec fn insert_pos(s: Seq<TwfModel>, fee: u64) -> int
    decreases s.len(),
{
    if s.len() == 0 {
        0
    } else if s[0].fee >= fee {
        1 + insert_pos(s.drop_first(), fee)
    } else {
        0
    }
}

/// The pool after an item arrives: unchanged when its identity is already
/// present, else the item stands after every at-least-as-large fee.
pub open spec fn spec_push(s: Seq<TwfModel>, x: TwfModel) -> Seq<TwfModel> {
    if contains_tx(s, x.transaction) {
        s
    } else {
        s.insert(insert_pos(s, x.fee), x)
    }
}

/// The pool after every item of a sequence arrives in order, from `from` on.
pub open spec fn spec_push_all(s: Seq<TwfModel>, items: Seq<TwfModel>, from: int) -> Seq<TwfModel>
    decreases items.len() - from,
{
    if from < 0 || from >= items.len() {
        s
    } else {
        spec_push_all(spec_push(s, items[from]), items, from + 1)
    }
}

/// Keeping an item whose transaction is not the named one.
pub open spec fn not_tx(t: TxModel) -> spec_fn(TwfModel) -> bool {
    |e: TwfModel| e.transaction != t
}

/// The pool with every item of one transaction identity removed.
pub open spec fn spec_remove(s: Seq<TwfModel>, t: TxModel) -> Seq<TwfModel> {
    s.filter(not_tx(t))
}

/// The transactions of the pool, in pool order.
pub open spec fn pool_txs(s: Seq<TwfModel>) -> Seq<TxModel> {
    Seq::new(s.len(), |i: int| s[i].transaction)
}

/// `insert_pos` is the first index whose fee is below the new one.
pub proof fn lemma_insert_pos_at(s: Seq<TwfModel>, fee: u64, k: int)
    requires
        0 <= k <= s.len(),
        forall|j: int| 0 <= j < k ==> (#[trigger] s[j]).fee >= fee,
        k < s.len() ==> s[k].fee < fee,
    ensures
        insert_pos(s, fee) == k,
    decreases s.len(),
{
    if s.len() == 0 {
    } else if k == 0 {
    } else {
        assert(s[0].fee >= fee);
        lemma_insert_pos_at(s.drop_first(), fee, k - 1);
    }
}

/// Removing an identity that is present shrinks the pool; removing any
/// identity never grows it, and removing an absent one changes nothing.
pub proof fn lemma_remove_len(s: Seq<TwfModel>, t: TxModel)
    ensures
        spec_remove(s, t).len() <= s.len(),
        contains_tx(s, t) ==> spec_remove(s, t).len() < s.len(),
        !contains_tx(s, t) ==> spec_remove(s, t) == s,
    decreases s.len(),
{
    reveal(Seq::filter);
    if s.len() == 0 {
        assert(!contains_tx(s, t));
        assert(spec_remove(s, t) =~~= s);
    } else {
        lemma_remove_len(s.drop_last(), t);
        if contains_tx(s, t) {
            let i = choose|i: int| 0 <= i < s.len() && (#[trigger] s[i]).transaction == t;
            if i < s.len() - 1 {
                assert(s.drop_last()[i].transaction == t);
                assert(contains_tx(s.drop_last(), t));
            }
        } else {
            assert(!contains_tx(s.drop_last(), t)) by {
                if contains_tx(s.drop_last(), t) {
                    let i = choose|i: int|
                        0 <= i < s.drop_last().len() && (#[trigger] s.drop_last()[i]).transaction
                            == t;
                    assert(s[i].transaction == t);
                }
            }
            assert(s.last().transaction != t);
            assert(spec_remove(s, t) =~~= s);
        }
    }
}

/// The heap-and-set composite specialized to fee-ordered transactions.
pub struct HeapSet {
    pub items: Vec<TransactionWithFee>,
}

impl View for HeapSet {
    type V = Seq<TwfModel>;

    open spec fn view(&self) -> Seq<TwfModel> {
        self.items.deep_view()
    }
}

impl HeapSet {
    /// Whether the composite is well formed.
    pub open spec fn wf(&self) -> bool {
        heap_wf(self@)
    }

    /// The empty composite.
    pub fn new() -> (r: HeapSet)
        ensures
            r@ == Seq::<TwfModel>::empty(),
            r.wf(),
    {
        let r = HeapSet { items: Vec::new() };
        proof {
            assert(r@ =~~= Seq::<TwfModel>::empty());
        }
        r
    }

    /// Copy the composite.
    #[verifier::loop_isolation(false)]
    pub fn duplicate(&self) -> (r: HeapSet)
        ensures
            r@ == self@,
    {
        let mut items: Vec<TransactionWithFee> = Vec::new();
        let mut i: usize = 0;
        while i < self.items.len()
            invariant
                i <= self.items@.len(),
                items@.len() == i,
                items.deep_view() == self.items.deep_view().take(i as int),
            decreases self.items@.len() - i,
        {
            items.push(self.items[i].duplicate());
            i = i + 1;
            proof {
                assert(items.deep_view() =~~= self.items.deep_view().take(i as int));
            }
        }
        proof {
            assert(self.items.deep_view().take(self.items@.len() as int)
                =~~= self.items.deep_view());
        }
        HeapSet { items }
    }

    /// Whether an item with this transaction identity is present.
    #[verifier::loop_isolation(false)]
    pub fn contains(&self, t: &Transaction) -> (r: bool)
        ensures
            r == contains_tx(self@, t@),
    {
        let mut i: usize = 0;
        while i < self.items.len()
            invariant
                i <= self.items@.len(),
                forall|j: int| 0 <= j < i ==> (#[trigger] self@[j]).transaction != t@,
            decreases self.items@.len() - i,
        {
            if tx_eq(&self.items[i].transaction, t) {
                proof {
                    assert(self@[i as int].transaction == t@);
                }
                return true;
            }
            i = i + 1;
            proof {
                assert(self@[i - 1] == self.items@[i - 1]@);
            }
        }
        false
    }

    /// Insert an item unless its transaction identity is already present;
    /// say whether it entered. A new item stands after every item whose fee
    /// is at least as large, so re-adding a pool in order rebuilds it.
    #[verifier::loop_isolation(false)]
    pub fn push(&mut self, item: TransactionWithFee) -> (r: bool)
        requires
            old(self).wf(),
        ensures
            final(self).wf(),
            r == !contains_tx(old(self)@, item@.transaction),
            final(self)@ == spec_push(old(self)@, item@),
    {
        if self.contains(&item.transaction) {
            return false;
        }
        let mut pos: usize = 0;
        while pos < self.items.len() && self.items[pos].fee >= item.fee
            invariant
                pos <= self.items@.len(),
                forall|j: int| 0 <= j < pos ==> (#[trigger] self@[j]).fee >= item@.fee,
            decreases self.items@.len() - pos,
        {
            pos = pos + 1;
            proof {
                assert(self@[pos - 1] == self.items@[pos - 1]@);
            }
        }
        proof {
            lemma_insert_pos_at(self@, item@.fee, pos as int);
        }
        let ghost before = self@;
        self.items.insert(pos, item);
        proof {
            assert(self@ =~~= before.insert(pos as int, item@));
            let s = self@;
            assert forall|i: int, j: int| 0 <= i < j < s.len() implies (#[trigger] s[i]).fee >= (
            #[trigger] s[j]).fee by {
                assert(forall|k: int|
                    pos < k < s.len() ==> (#[trigger] s[k]) == before[k - 1]);
                assert(forall|k: int| 0 <= k < pos ==> (#[trigger] s[k]) == before[k]);
                if j > pos && before[j - 1].fee >= item@.fee {
                    assert(before[pos as int].fee < item@.fee);
                    assert(before[pos as int].fee >= before[j - 1].fee);
                }
            }
            assert forall|i: int, j: int| 0 <= i < j < s.len() implies (#[trigger] s[
            i]).transaction != (#[trigger] s[j]).transaction by {
                assert(forall|k: int|
                    pos < k < s.len() ==> (#[trigger] s[k]) == before[k - 1]);
                assert(forall|k: int| 0 <= k < pos ==> (#[trigger] s[k]) == before[k]);
                if i == pos {
                    if before[j - 1].transaction == item@.transaction {
                        assert(contains_tx(before, item@.transaction));
                    }
                } else if j == pos {
                    if before[i].transaction == item@.transaction {
                        assert(contains_tx(before, item@.transaction));
                    }
                }
            }
        }
        true
    }

    /// Take the item with the greatest fee, if one is there.
    pub fn pop(&mut self) -> (r: Option<TransactionWithFee>)
        requires
            old(self).wf(),
        ensures
            final(self).wf(),
            old(self)@.len() == 0 ==> r is None && final(self)@ == old(self)@,
            old(self)@.len() > 0 ==> (r matches Some(x) && x@ == old(self)@[0] && final(self)@
                == old(self)@.drop_first()),
    {
        if self.items.len() == 0 {
            return None;
        }
        let x = self.items.remove(0);
        proof {
            assert(self@ =~~= old(self)@.drop_first());
        }
        Some(x)
    }

    /// Hand the items out, in pool order.
    pub fn get_vec(self) -> (r: Vec<TransactionWithFee>)
        ensures
            r.deep_view() == self@,
    {
        self.items
    }

    /// Remove every item of one transaction identity.
    #[verifier::loop_isolation(false)]
    pub fn remove(&mut self, t: &Transaction)
        requires
            old(self).wf(),
        ensures
            final(self).wf(),
            final(self)@ == spec_remove(old(self)@, t@),
    {
        let ghost pred = not_tx(t@);
        let mut kept: Vec<TransactionWithFee> = Vec::new();
        let mut i: usize = 0;
        proof {
            reveal(Seq::filter);
            assert(old(self)@.take(0) =~~= Seq::<TwfModel>::empty());
            assert(Seq::<TwfModel>::empty().filter(pred) =~~= Seq::<TwfModel>::empty());
            assert(kept.deep_view() =~~= Seq::<TwfModel>::empty());
        }
        while i < self.items.len()
            invariant
                i <= self.items@.len(),
                kept.deep_view() == self@.take(i as int).filter(pred),
            decreases self.items@.len() - i,
        {
            let e = &self.items[i];
            let same = tx_eq(&e.transaction, t);
            proof {
                reveal(Seq::filter);
                let pre = self@.take(i as int + 1);
                assert(pre.drop_last() =~~= self@.take(i as int));
                assert(pre.last() == self@[i as int]);
            }
            if !same {
                kept.push(e.duplicate());
                proof {
                    assert(kept.deep_view() =~~= self@.take(i as int + 1).filter(pred));
                }
            }
            i = i + 1;
        }
        proof {
            assert(self@.take(self@.len() as int) =~~= self@);
        }
        self.items = kept;
        proof {
            let s = self@;
            let o = old(self)@;
            assert forall|i: int, j: int| 0 <= i < j < s.len() implies (#[trigger] s[i]).fee >= (
            #[trigger] s[j]).fee && s[i].transaction != s[j].transaction by {
                o.lemma_filter_pred(pred, i);
                o.lemma_filter_pred(pred, j);
                lemma_filter_ordered(o, pred, i, j);
            }
        }
    }
}

/// Filtering keeps relative order: the items at two positions of the result
/// stand at positions in the source in the same order.
proof fn lemma_filter_ordered(s: Seq<TwfModel>, pred: spec_fn(TwfModel) -> bool, i: int, j: int)
    requires
        0 <= i < j < s.filter(pred).len(),
        heap_wf(s),
    ensures
        s.filter(pred)[i].fee >= s.filter(pred)[j].fee,
        s.filter(pred)[i].transaction != s.filter(pred)[j].transaction,
    decreases s.len(),
{
    reveal(Seq::filter);
    let f = s.filter(pred);
    if s.len() > 0 {
        let rest = s.drop_last();
        assert(heap_wf(rest)) by {
            assert(forall|a: int| 0 <= a < rest.len() ==> rest[a] == s[a]);
        }
        if pred(s.last()) {
            if j == f.len() - 1 {
                assert(f[j] == s.last());
                assert(f[i] == rest.filter(pred)[i]);
                let k = lemma_filter_member_index_get(rest, pred, i);
                assert(s[k] == rest[k]);
                assert(s[k].fee >= s.last().fee);
                assert(s[k].transaction != s.last().transaction);
            } else {
                assert(f[i] == rest.filter(pred)[i]);
                assert(f[j] == rest.filter(pred)[j]);
                lemma_filter_ordered(rest, pred, i, j);
            }
        } else {
            lemma_filter_ordered(rest, pred, i, j);
        }
    }
}

/// Each item of a filtered sequence stands somewhere in the source.
proof fn lemma_filter_member_index(s: Seq<TwfModel>, pred: spec_fn(TwfModel) -> bool, i: int)
    requires
        0 <= i < s.filter(pred).len(),
    ensures
        exists|k: int| 0 <= k < s.len() && s[k] == #[trigger] s.filter(pred)[i],
    decreases s.len(),
{
    reveal(Seq::filter);
    if s.len() > 0 {
        let rest = s.drop_last();
        if pred(s.last()) && i == s.filter(pred).len() - 1 {
            assert(s[s.len() - 1] == s.filter(pred)[i]);
        } else {
            lemma_filter_member_index(rest, pred, i);
            let k = choose|k: int| 0 <= k < rest.len() && rest[k] == rest.filter(pred)[i];
            assert(s[k] == s.filter(pred)[i]);
        }
    }
}

/// A position in the source holding a given filtered item.
proof fn lemma_filter_member_index_get(s: Seq<TwfModel>, pred: spec_fn(TwfModel) -> bool, i: int)
    -> (k: int)
    requires
        0 <= i < s.filter(pred).len(),
    ensures
        0 <= k < s.len() && s[k] == s.filter(pred)[i],
{
    lemma_filter_member_index(s, pred, i);
    choose|k: int| 0 <= k < s.len() && s[k] == s.filter(pred)[i]
}


/// The number of transactions a block draws from the pool.
pub const TX_PER_BLOCK: usize = 10;

/// The mempool of pending transactions.
pub struct Mempool {
    pub mempool: HeapSet,
}

impl View for Mempool {
    type V = Seq<TwfModel>;

    open spec fn view(&self) -> Seq<TwfModel> {
        self.mempool@
    }
}

impl Mempool {
    /// Whether the pool is well formed.
    pub open spec fn wf(&self) -> bool {
        heap_wf(self@)
    }

    /// The empty pool.
    pub fn new() -> (r: Mempool)
        ensures
            r@ == Seq::<TwfModel>::empty(),
            r.wf(),
    {
        Mempool { mempool: HeapSet::new() }
    }

    /// Copy the pool.
    pub fn duplicate(&self) -> (r: Mempool)
        ensures
            r@ == self@,
    {
        Mempool { mempool: self.mempool.duplicate() }
    }

    /// The number of pending transactions.
    pub fn size(&self) -> (r: usize)
        ensures
            r == self@.len(),
    {
        self.mempool.items.len()
    }

    /// Add a transaction with its fee; say whether it entered. A
    /// transaction whose identity is already pending is rejected.
    pub fn add(&mut self, tx: Transaction, fee: u64) -> (r: bool)
        requires
            old(self).wf(),
        ensures
            final(self).wf(),
            r == !contains_tx(old(self)@, tx@),
            final(self)@ == spec_push(old(self)@, TwfModel { transaction: tx@, fee }),
    {
        self.mempool.push(TransactionWithFee::new(tx, fee))
    }

    /// Add each given item in order, dropping the ones already pending.
    #[verifier::loop_isolation(false)]
    pub fn update(&mut self, txs: Vec<TransactionWithFee>)
        requires
            old(self).wf(),
        ensures
            final(self).wf(),
            final(self)@ == spec_push_all(old(self)@, txs.deep_view(), 0),
    {
        let ghost items = txs.deep_view();
        let mut i: usize = 0;
        while i < txs.len()
            invariant
                i <= items.len(),
                self.wf(),
                spec_push_all(old(self)@, items, 0) == spec_push_all(self@, items, i as int),
            decreases items.len() - i,
        {
            let item = txs[i].duplicate();
            proof {
                assert(item@ == items[i as int]);
            }
            self.mempool.push(item);
            i = i + 1;
        }
    }

    /// The pending transactions, in pool order.
    #[verifier::loop_isolation(false)]
    pub fn get_inv(self) -> (r: Vec<Transaction>)
        ensures
            r.deep_view() == pool_txs(self@),
    {
        let mut out: Vec<Transaction> = Vec::new();
        let mut i: usize = 0;
        while i < self.mempool.items.len()
            invariant
                i <= self@.len(),
                out@.len() == i,
                forall|j: int| 0 <= j < i ==> #[trigger] out.deep_view()[j] == self@[j].transaction,
            decreases self@.len() - i,
        {
            let ghost before = out.deep_view();
            out.push(self.mempool.items[i].transaction.duplicate());
            i = i + 1;
            proof {
                assert forall|j: int| 0 <= j < i implies #[trigger] out.deep_view()[j]
                    == self@[j].transaction by {
                    if j < i - 1 {
                        assert(out.deep_view()[j] == before[j]);
                    }
                }
            }
        }
        proof {
            assert(out.deep_view() =~~= pool_txs(self@));
        }
        out
    }

    /// Up to ten pending transactions with the highest fees, in decreasing
    /// fee order.
    #[verifier::loop_isolation(false)]
    pub fn get_next_transactions(&self) -> (r: Vec<Transaction>)
        ensures
            r@.len() == vstd::math::min(TX_PER_BLOCK as int, self@.len() as int),
            forall|j: int| 0 <= j < r@.len() ==> #[trigger] r.deep_view()[j]
                == self@[j].transaction,
    {
        let mut out: Vec<Transaction> = Vec::new();
        let count = if self.mempool.items.len() < TX_PER_BLOCK {
            self.mempool.items.len()
        } else {
            TX_PER_BLOCK
        };
        let mut i: usize = 0;
        while i < count
            invariant
                count <= self@.len(),
                i <= count,
                out@.len() == i,
                forall|j: int| 0 <= j < i ==> #[trigger] out.deep_view()[j] == self@[j].transaction,
            decreases count - i,
        {
            let ghost before = out.deep_view();
            out.push(self.mempool.items[i].transaction.duplicate());
            i = i + 1;
            proof {
                assert forall|j: int| 0 <= j < i implies #[trigger] out.deep_view()[j]
                    == self@[j].transaction by {
                    if j < i - 1 {
                        assert(out.deep_view()[j] == before[j]);
                    }
                }
            }
        }
        out
    }

    /// Remove the pending transaction of this identity, if any.
    pub fn remove(&mut self, transaction: &Transaction)
        requires
            old(self).wf(),
        ensures
            final(self).wf(),
            final(self)@ == spec_remove(old(self)@, transaction@),
    {
        self.mempool.remove(transaction);
    }

    /// The items of the pool, in pool order.
    #[verifier::loop_isolation(false)]
    pub fn to_vec(&self) -> (r: Vec<TransactionWithFee>)
        ensures
            r.deep_view() == self@,
    {
        let mut out: Vec<TransactionWithFee> = Vec::new();
        let mut i: usize = 0;
        while i < self.mempool.items.len()
            invariant
                i <= self@.len(),
                out@.len() == i,
                out.deep_view() == self@.take(i as int),
            decreases self@.len() - i,
        {
            out.push(self.mempool.items[i].duplicate());
            i = i + 1;
            proof {
                assert(out.deep_view() =~~= self@.take(i as int));
            }
        }
        proof {
            assert(self@.take(self@.len() as int) =~~= self@);
        }
        out
    }

    /// Rebuild a pool from stored items, re-ordering by fee and dropping
    /// duplicate identities.
    #[verifier::loop_isolation(false)]
    pub fn from_vec(v: Vec<TransactionWithFee>) -> (r: Mempool)
        ensures
            r.wf(),
            r@ == spec_push_all(Seq::empty(), v.deep_view(), 0),
    {
        let mut pool = Mempool::new();
        pool.update(v);
        pool
    }
}

/// Adding a transaction the pool does not hold and then removing its
/// identity restores the pool exactly; in particular, from the empty pool
/// the add-remove pair leaves the heap and the membership set both empty
/// and so in agreement.
pub proof fn lemma_mempool_add_remove(s: Seq<TwfModel>, x: TwfModel)
    requires
        !contains_tx(s, x.transaction),
    ensures
        spec_remove(spec_push(s, x), x.transaction) == s,
{
    let pred = not_tx(x.transaction);
    let p = insert_pos(s, x.fee);
    lemma_insert_pos_bound(s, x.fee);
    let pushed = spec_push(s, x);
    assert(pushed =~~= s.take(p) + (seq![x] + s.skip(p)));
    Seq::filter_distributes_over_add(s.take(p), seq![x] + s.skip(p), pred);
    Seq::filter_distributes_over_add(seq![x], s.skip(p), pred);
    assert(forall|i: int| 0 <= i < s.take(p).len() ==> pred(#[trigger] s.take(p)[i])) by {
        assert forall|i: int| 0 <= i < s.take(p).len() implies pred(#[trigger] s.take(p)[i]) by {
            if s.take(p)[i].transaction == x.transaction {
                assert(s[i].transaction == x.transaction);
                assert(contains_tx(s, x.transaction));
            }
        }
    }
    lemma_filter_all(s.take(p), pred);
    assert(forall|i: int| 0 <= i < s.skip(p).len() ==> pred(#[trigger] s.skip(p)[i])) by {
        assert forall|i: int| 0 <= i < s.skip(p).len() implies pred(#[trigger] s.skip(p)[i]) by {
            if s.skip(p)[i].transaction == x.transaction {
                assert(s[i + p].transaction == x.transaction);
                assert(contains_tx(s, x.transaction));
            }
        }
    }
    lemma_filter_all(s.skip(p), pred);
    assert(seq![x].filter(pred) =~~= Seq::<TwfModel>::empty()) by {
        reveal(Seq::filter);
        assert(seq![x].drop_last() =~~= Seq::<TwfModel>::empty());
        assert(Seq::<TwfModel>::empty().filter(pred) =~~= Seq::<TwfModel>::empty());
    }
    assert(pushed.filter(pred) =~~= s.take(p).filter(pred) + (seq![x] + s.skip(p)).filter(pred));
    assert((seq![x] + s.skip(p)).filter(pred) =~~= seq![x].filter(pred) + s.skip(p).filter(pred));
    assert(pushed.filter(pred) =~~= s.take(p) + s.skip(p));
    assert(spec_remove(pushed, x.transaction) == pushed.filter(pred));
    s.lemma_split_at(p);
}

/// The insert position lies within the pool.
pub proof fn lemma_insert_pos_bound(s: Seq<TwfModel>, fee: u64)
    ensures
        insert_pos(s, fee) >= 0,
        insert_pos(s, fee) <= s.len(),
    decreases s.len(),
{
    if s.len() > 0 && s[0].fee >= fee {
        lemma_insert_pos_bound(s.drop_first(), fee);
    }
}

/// Re-adding the items of a well-formed pool, in pool order, onto any
/// well-formed prefix of it rebuilds the pool exactly.
proof fn lemma_push_all_prefix(s: Seq<TwfModel>, i: int)
    requires
        heap_wf(s),
        0 <= i,
        i <= s.len(),
    ensures
        s == spec_push_all(s.take(i), s, i),
    decreases s.len() - i,
{
    if i == s.len() {
        assert(s.take(i) =~~= s);
    } else {
        let x = s[i];
        let t = s.take(i);
        assert(!contains_tx(t, x.transaction)) by {
            if contains_tx(t, x.transaction) {
                let k = choose|k: int|
                    0 <= k < t.len() && (#[trigger] t[k]).transaction == x.transaction;
                assert(s[k].transaction == s[i].transaction);
            }
        }
        lemma_insert_pos_at(t, x.fee, i);
        assert(spec_push(t, x) =~~= s.take(i + 1));
        lemma_push_all_prefix(s, i + 1);
    }
}


/// Whether the pool holds exactly this item.
pub open spec fn contains_item(s: Seq<TwfModel>, x: TwfModel) -> bool {
    exists|i: int| 0 <= i < s.len() && #[trigger] s[i] == x
}

/// Removal keeps only items of the pool, and drops only items of the
/// removed identity.
pub proof fn lemma_remove_membership(s: Seq<TwfModel>, t: TxModel)
    ensures
        forall|x: TwfModel| contains_item(spec_remove(s, t), x) ==> contains_item(s, x),
        forall|x: TwfModel|
            contains_item(s, x) && !contains_item(spec_remove(s, t), x) ==> x.transaction == t,
{
    let pred = not_tx(t);
    assert forall|x: TwfModel| contains_item(spec_remove(s, t), x) implies contains_item(
        s,
        x,
    ) by {
        let i = choose|i: int| 0 <= i < spec_remove(s, t).len() && #[trigger] spec_remove(s, t)[i]
            == x;
        let k = lemma_filter_member_index_get(s, pred, i);
        assert(s[k] == x);
    }
    assert forall|x: TwfModel|
        contains_item(s, x) && !contains_item(spec_remove(s, t), x) implies x.transaction
        == t by {
        if x.transaction != t {
            let i = choose|i: int| 0 <= i < s.len() && #[trigger] s[i] == x;
            s.lemma_filter_contains(pred, i);
            assert(s.filter(pred).contains(x));
            let j = choose|j: int| 0 <= j < s.filter(pred).len() && s.filter(pred)[j] == x;
            assert(contains_item(spec_remove(s, t), x));
        }
    }
}


/// Removing one identity keeps every other identity present.
pub proof fn lemma_remove_keeps_other(s: Seq<TwfModel>, t: TxModel, t2: TxModel)
    requires
        t2 != t,
        contains_tx(s, t2),
    ensures
        contains_tx(spec_remove(s, t), t2),
{
    let pred = not_tx(t);
    let i = choose|i: int| 0 <= i < s.len() && (#[trigger] s[i]).transaction == t2;
    s.lemma_filter_contains(pred, i);
    let j = choose|j: int| 0 <= j < s.filter(pred).len() && s.filter(pred)[j] == s[i];
    assert(spec_remove(s, t)[j].transaction == t2);
}

/// Rebuilding a well-formed pool from its stored items, in pool order,
/// restores it exactly: the round trip through `to_vec` and `from_vec` is
/// the identity on well-formed pools.
pub proof fn lemma_pool_round_trip(s: Seq<TwfModel>)
    requires
        heap_wf(s),
    ensures
        s == spec_push_all(s.take(0), s, 0),
{
    assert(s.take(0) =~~= Seq::<TwfModel>::empty());
    lemma_push_all_prefix(s, 0);
}

} // verus!
