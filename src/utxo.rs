use vstd::prelude::*;

use std::sync::Arc;

use crate::address::{Address, ScriptPublicKey};
use crate::tx::TransactionOutpoint;

verus! {

/// Identity of an unspent output: the outpoint that created it.
pub type UtxoEntryId = TransactionOutpoint;

/// Time after which a reservation lapses, in milliseconds.
pub const CONSUMED_UTXO_TIMEOUT_MS: u64 = 60_000;

/// Order in which outputs are listed.
#[derive(Clone, Copy, Debug, PartialEq, Eq, Structural, Default)]
pub enum UtxoOrdering {
    #[default]
    Unordered,
    AscendingAmount,
    AscendingDaaScore,
}

/// One unspent output owned by the account.
#[derive(Clone, Debug)]
pub struct UtxoEntry {
    pub address: Option<Address>,
    pub outpoint: TransactionOutpoint,
    pub amount: u64,
    pub script_public_key: ScriptPublicKey,
    pub block_daa_score: u64,
    pub is_coinbase: bool,
}

impl UtxoEntry {
    pub fn amount(&self) -> (r: u64)
        ensures
            r == self.amount,
    {
        self.amount
    }

    pub fn block_daa_score(&self) -> (r: u64)
        ensures
            r == self.block_daa_score,
    {
        self.block_daa_score
    }
}

/// A shared handle on an unspent output.
#[derive(Clone, Debug)]
pub struct UtxoEntryReference {
    pub utxo: Arc<UtxoEntry>,
}

impl UtxoEntryReference {
    pub fn new(entry: UtxoEntry) -> (r: UtxoEntryReference)
        ensures
            *r.utxo == entry,
    {
        UtxoEntryReference { utxo: Arc::new(entry) }
    }

    pub fn amount(&self) -> (r: u64)
        ensures
            r == self.utxo.amount,
    {
        self.utxo.amount
    }

    pub fn id(&self) -> (r: UtxoEntryId)
        ensures
            r == self.utxo.outpoint,
    {
        self.utxo.outpoint
    }

    /// Another handle on the same output.
    pub fn share(&self) -> (r: UtxoEntryReference)
        ensures
            r == *self,
    {
        UtxoEntryReference { utxo: self.utxo.clone() }
    }
}

/// A reserved output and the time, in milliseconds, at which it was reserved.
#[derive(Clone, Debug)]
pub struct Consumed {
    pub entry: UtxoEntryReference,
    pub instant: u64,
}

pub open spec fn entry_id(e: UtxoEntryReference) -> UtxoEntryId {
    e.utxo.outpoint
}

pub open spec fn entry_amount(e: UtxoEntryReference) -> nat {
    e.utxo.amount as nat
}

pub open spec fn consumed_id(c: Consumed) -> UtxoEntryId {
    c.entry.utxo.outpoint
}

pub open spec fn consumed_amount(c: Consumed) -> nat {
    c.entry.utxo.amount as nat
}

/// Sum of `f` over a sequence.
pub open spec fn sum_by<A>(s: Seq<A>, f: spec_fn(A) -> nat) -> nat
    decreases s.len(),
{
    if s.len() == 0 {
        0
    } else {
        sum_by(s.drop_last(), f) + f(s.last())
    }
}

/// No two elements share a key.
pub open spec fn unique_by<A>(s: Seq<A>, key: spec_fn(A) -> UtxoEntryId) -> bool {
    forall|i: int, j: int|
        0 <= i < s.len() && 0 <= j < s.len() && i != j ==> key(#[trigger] s[i]) != key(#[trigger] s[j])
}

/// Some element has the key `id`.
pub open spec fn has_key<A>(s: Seq<A>, key: spec_fn(A) -> UtxoEntryId, id: UtxoEntryId) -> bool {
    exists|i: int| 0 <= i < s.len() && key(#[trigger] s[i]) == id
}

pub open spec fn has_entry_id(s: Seq<UtxoEntryReference>, id: UtxoEntryId) -> bool {
    has_key(s, |e| entry_id(e), id)
}

pub open spec fn has_consumed_id(s: Seq<Consumed>, id: UtxoEntryId) -> bool {
    has_key(s, |c| consumed_id(c), id)
}

pub open spec fn unique_entries(s: Seq<UtxoEntryReference>) -> bool {
    unique_by(s, |e| entry_id(e))
}

pub open spec fn unique_consumed(s: Seq<Consumed>) -> bool {
    unique_by(s, |c| consumed_id(c))
}

pub open spec fn sum_amounts(s: Seq<UtxoEntryReference>) -> nat {
    sum_by(s, |e| entry_amount(e))
}

pub open spec fn sum_consumed(s: Seq<Consumed>) -> nat {
    sum_by(s, |c| consumed_amount(c))
}

/// Amounts never decrease along the sequence.
pub open spec fn sorted_by_amount(s: Seq<UtxoEntryReference>) -> bool {
    forall|i: int, j: int| 0 <= i <= j < s.len() ==> (#[trigger] s[i]).utxo.amount <= (#[trigger] s[j]).utxo.amount
}

/// Where an output of `amount` goes in `s`: after the last element, counting
/// from the end, whose amount does not exceed it.
pub open spec fn insert_index(s: Seq<UtxoEntryReference>, amount: u64) -> int
    decreases s.len(),
{
    if s.len() == 0 {
        0
    } else if s.last().utxo.amount <= amount {
        s.len() as int
    } else {
        insert_index(s.drop_last(), amount)
    }
}

/// `s` with `e` inserted after every element of no larger amount, so that
/// outputs of equal amount keep the order in which they arrived.
pub open spec fn insert_sorted(s: Seq<UtxoEntryReference>, e: UtxoEntryReference) -> Seq<UtxoEntryReference> {
    s.insert(insert_index(s, e.utxo.amount), e)
}

/// `entries` inserted one after the other into `s`.
pub open spec fn insert_all_sorted(s: Seq<UtxoEntryReference>, entries: Seq<UtxoEntryReference>) -> Seq<UtxoEntryReference>
    decreases entries.len(),
{
    if entries.len() == 0 {
        s
    } else {
        insert_sorted(insert_all_sorted(s, entries.drop_last()), entries.last())
    }
}

pub open spec fn id_not_in(ids: Seq<UtxoEntryId>) -> spec_fn(UtxoEntryReference) -> bool {
    |e: UtxoEntryReference| !ids.contains(entry_id(e))
}

pub open spec fn id_in(ids: Seq<UtxoEntryId>) -> spec_fn(UtxoEntryReference) -> bool {
    |e: UtxoEntryReference| ids.contains(entry_id(e))
}

pub open spec fn consumed_id_not_in(ids: Seq<UtxoEntryId>) -> spec_fn(Consumed) -> bool {
    |c: Consumed| !ids.contains(consumed_id(c))
}

pub open spec fn consumed_id_in(ids: Seq<UtxoEntryId>) -> spec_fn(Consumed) -> bool {
    |c: Consumed| ids.contains(consumed_id(c))
}

/// Whether a reservation made at `instant` is older than the timeout at `now`.
pub open spec fn is_expired(instant: u64, now: u64) -> bool {
    instant + CONSUMED_UTXO_TIMEOUT_MS < now
}

pub open spec fn expired_at(now: u64) -> spec_fn(Consumed) -> bool {
    |c: Consumed| is_expired(c.instant, now)
}

pub open spec fn live_at(now: u64) -> spec_fn(Consumed) -> bool {
    |c: Consumed| !is_expired(c.instant, now)
}

pub open spec fn stamp(now: u64) -> spec_fn(UtxoEntryReference) -> Consumed {
    |e: UtxoEntryReference| Consumed { entry: e, instant: now }
}

pub open spec fn unstamp() -> spec_fn(Consumed) -> UtxoEntryReference {
    |c: Consumed| c.entry
}

/// The abstract state of a UTXO set: the available outputs, in ascending order
/// of amount, and the reserved outputs with their reservation times.
pub struct UtxoSetModel {
    pub available: Seq<UtxoEntryReference>,
    pub reserved: Seq<Consumed>,
}

impl UtxoSetModel {
    /// Whether `id` is indexed: held in either pool.
    pub open spec fn has_id(self, id: UtxoEntryId) -> bool {
        has_entry_id(self.available, id) || has_consumed_id(self.reserved, id)
    }

    /// Sum of the amounts of the available outputs; reserved ones are excluded.
    pub open spec fn balance(self) -> nat {
        sum_amounts(self.available)
    }

    /// Sum of the amounts of all outputs held, available or reserved.
    pub open spec fn total(self) -> nat {
        self.balance() + sum_consumed(self.reserved)
    }

    /// The set's invariant: the available pool is sorted by amount, every id is
    /// held at most once over both pools, and the amounts held fit in a `u64`.
    pub open spec fn wf(self) -> bool {
        &&& sorted_by_amount(self.available)
        &&& unique_entries(self.available)
        &&& unique_consumed(self.reserved)
        &&& forall|i: int|
            0 <= i < self.available.len() ==> !has_consumed_id(self.reserved, entry_id(#[trigger] self.available[i]))
        &&& self.total() <= u64::MAX
    }

    /// Adding one output: ignored when its id is already indexed or when the
    /// amounts held would leave the `u64` range; otherwise it joins the
    /// available pool in order.
    pub open spec fn insert_one(self, e: UtxoEntryReference) -> UtxoSetModel {
        if self.has_id(entry_id(e)) || self.total() + entry_amount(e) > u64::MAX {
            self
        } else {
            UtxoSetModel { available: insert_sorted(self.available, e), reserved: self.reserved }
        }
    }

    /// Adding outputs one after the other.
    pub open spec fn insert_all(self, entries: Seq<UtxoEntryReference>) -> UtxoSetModel
        decreases entries.len(),
    {
        if entries.len() == 0 {
            self
        } else {
            self.insert_all(entries.drop_last()).insert_one(entries.last())
        }
    }

    /// Dropping every output whose id is listed, from either pool.
    pub open spec fn remove_ids(self, ids: Seq<UtxoEntryId>) -> UtxoSetModel {
        UtxoSetModel {
            available: self.available.filter(id_not_in(ids)),
            reserved: self.reserved.filter(consumed_id_not_in(ids)),
        }
    }

    /// Moving the available outputs whose id is listed to the reserved pool,
    /// reserved at `now`.
    pub open spec fn reserve_ids(self, ids: Seq<UtxoEntryId>, now: u64) -> UtxoSetModel {
        UtxoSetModel {
            available: self.available.filter(id_not_in(ids)),
            reserved: self.reserved + self.available.filter(id_in(ids)).map_values(stamp(now)),
        }
    }

    /// Returning the reservations older than the timeout at `now` to the
    /// available pool.
    pub open spec fn recover(self, now: u64) -> UtxoSetModel {
        UtxoSetModel {
            available: insert_all_sorted(
                self.available,
                self.reserved.filter(expired_at(now)).map_values(unstamp()),
            ),
            reserved: self.reserved.filter(live_at(now)),
        }
    }
}

pub proof fn lemma_sum_concat<A>(a: Seq<A>, b: Seq<A>, f: spec_fn(A) -> nat)
    ensures
        sum_by(a + b, f) == sum_by(a, f) + sum_by(b, f),
    decreases b.len(),
{
    if b.len() > 0 {
        assert((a + b).drop_last() == a + b.drop_last());
        lemma_sum_concat(a, b.drop_last(), f);
    } else {
        assert(a + b == a);
    }
}

pub proof fn lemma_sum_prefix<A>(s: Seq<A>, i: int, f: spec_fn(A) -> nat)
    requires
        0 <= i < s.len(),
    ensures
        sum_by(s.subrange(0, i + 1), f) == sum_by(s.subrange(0, i), f) + f(s[i]),
{
    assert(s.subrange(0, i + 1).drop_last() == s.subrange(0, i));
}

pub proof fn lemma_sum_split<A>(s: Seq<A>, i: int, f: spec_fn(A) -> nat)
    requires
        0 <= i <= s.len(),
    ensures
        sum_by(s.subrange(0, i), f) + sum_by(s.subrange(i, s.len() as int), f) == sum_by(s, f),
{
    lemma_sum_concat(s.subrange(0, i), s.subrange(i, s.len() as int), f);
    assert(s.subrange(0, i) + s.subrange(i, s.len() as int) == s);
}

proof fn lemma_sum_insert<A>(s: Seq<A>, k: int, e: A, f: spec_fn(A) -> nat)
    requires
        0 <= k <= s.len(),
    ensures
        sum_by(s.insert(k, e), f) == sum_by(s, f) + f(e),
{
    let t = s.insert(k, e);
    lemma_sum_split(s, k, f);
    lemma_sum_concat(s.subrange(0, k), seq![e], f);
    lemma_sum_concat(s.subrange(0, k) + seq![e], s.subrange(k, s.len() as int), f);
    assert(t == s.subrange(0, k) + seq![e] + s.subrange(k, s.len() as int));
    assert(seq![e].drop_last() == Seq::<A>::empty());
    assert(seq![e].last() == e);
    assert(sum_by(seq![e], f) == sum_by(Seq::<A>::empty(), f) + f(e));
}

proof fn lemma_filter<A>(
    s: Seq<A>,
    p: spec_fn(A) -> bool,
    q: spec_fn(A) -> bool,
    key: spec_fn(A) -> UtxoEntryId,
    f: spec_fn(A) -> nat,
)
    requires
        forall|x: A| #[trigger] q(x) == !p(x),
    ensures
        sum_by(s.filter(p), f) + sum_by(s.filter(q), f) == sum_by(s, f),
        unique_by(s, key) ==> unique_by(s.filter(p), key),
        forall|i: int|
            0 <= i < s.filter(p).len() ==> p(#[trigger] s.filter(p)[i]) && s.contains(s.filter(p)[i]),
        forall|i: int| 0 <= i < s.len() && p(s[i]) ==> #[trigger] s.filter(p).contains(s[i]),
    decreases s.len(),
{
    reveal(Seq::filter);
    s.filter_lemma(p);
    if s.len() > 0 {
        let t = s.drop_last();
        lemma_filter(t, p, q, key, f);
        if p(s.last()) {
            assert(s.filter(p) == t.filter(p).push(s.last()));
            assert(s.filter(p).drop_last() == t.filter(p));
            assert(s.filter(q) == t.filter(q));
        } else {
            assert(s.filter(q) == t.filter(q).push(s.last()));
            assert(s.filter(q).drop_last() == t.filter(q));
            assert(s.filter(p) == t.filter(p));
        }
        assert forall|i: int| 0 <= i < s.filter(p).len() implies s.contains(s.filter(p)[i]) by {
            if i < t.filter(p).len() {
                assert(s.filter(p)[i] == t.filter(p)[i]);
                let k = choose|k: int| 0 <= k < t.len() && t[k] == t.filter(p)[i];
                assert(s[k] == t[k]);
            } else {
                assert(s.filter(p)[i] == s.last());
                assert(s[s.len() - 1] == s.last());
            }
        }
        if unique_by(s, key) {
            assert(unique_by(t, key)) by {
                assert forall|i: int, j: int|
                    0 <= i < t.len() && 0 <= j < t.len() && i != j implies key(#[trigger] t[i]) != key(
                        #[trigger] t[j],
                    ) by {
                    assert(t[i] == s[i] && t[j] == s[j]);
                }
            }
            let u = s.filter(p);
            assert forall|i: int, j: int|
                0 <= i < u.len() && 0 <= j < u.len() && i != j implies key(#[trigger] u[i]) != key(
                    #[trigger] u[j],
                ) by {
                let tu = t.filter(p);
                if i < tu.len() && j < tu.len() {
                    assert(u[i] == tu[i] && u[j] == tu[j]);
                } else if i < tu.len() {
                    assert(u[i] == tu[i]);
                    assert(u[j] == s.last());
                    let k = choose|k: int| 0 <= k < t.len() && t[k] == tu[i];
                    assert(s[k] == t[k]);
                    assert(s[s.len() - 1] == s.last());
                } else {
                    assert(u[j] == tu[j]);
                    assert(u[i] == s.last());
                    let k = choose|k: int| 0 <= k < t.len() && t[k] == tu[j];
                    assert(s[k] == t[k]);
                    assert(s[s.len() - 1] == s.last());
                }
            }
        }
    }
}

proof fn lemma_map<A, B>(
    s: Seq<A>,
    g: spec_fn(A) -> B,
    ka: spec_fn(A) -> UtxoEntryId,
    kb: spec_fn(B) -> UtxoEntryId,
    fa: spec_fn(A) -> nat,
    fb: spec_fn(B) -> nat,
)
    requires
        forall|x: A| #[trigger] kb(g(x)) == ka(x),
        forall|x: A| #[trigger] fb(g(x)) == fa(x),
    ensures
        sum_by(s.map_values(g), fb) == sum_by(s, fa),
        unique_by(s, ka) ==> unique_by(s.map_values(g), kb),
        forall|id: UtxoEntryId| #[trigger] has_key(s.map_values(g), kb, id) == has_key(s, ka, id),
    decreases s.len(),
{
    let m = s.map_values(g);
    if s.len() > 0 {
        lemma_map(s.drop_last(), g, ka, kb, fa, fb);
        assert(m.drop_last() == s.drop_last().map_values(g));
    }
    assert forall|id: UtxoEntryId| has_key(m, kb, id) == has_key(s, ka, id) by {
        if has_key(m, kb, id) {
            let i = choose|i: int| 0 <= i < m.len() && kb(#[trigger] m[i]) == id;
            assert(ka(s[i]) == id);
        }
        if has_key(s, ka, id) {
            let i = choose|i: int| 0 <= i < s.len() && ka(#[trigger] s[i]) == id;
            assert(kb(m[i]) == id);
        }
    }
    if unique_by(s, ka) {
        assert forall|i: int, j: int|
            0 <= i < m.len() && 0 <= j < m.len() && i != j implies kb(#[trigger] m[i]) != kb(
                #[trigger] m[j],
            ) by {
            assert(kb(m[i]) == ka(s[i]) && kb(m[j]) == ka(s[j]));
        }
    }
}

proof fn lemma_insert_index(s: Seq<UtxoEntryReference>, amount: u64)
    requires
        sorted_by_amount(s),
    ensures
        0 <= insert_index(s, amount) <= s.len(),
        forall|i: int| 0 <= i < insert_index(s, amount) ==> (#[trigger] s[i]).utxo.amount <= amount,
        forall|i: int| insert_index(s, amount) <= i < s.len() ==> (#[trigger] s[i]).utxo.amount > amount,
    decreases s.len(),
{
    if s.len() > 0 {
        let t = s.drop_last();
        assert(sorted_by_amount(t)) by {
            assert forall|i: int, j: int| 0 <= i <= j < t.len() implies (#[trigger] t[i]).utxo.amount
                <= (#[trigger] t[j]).utxo.amount by {
                assert(t[i] == s[i] && t[j] == s[j]);
            }
        }
        lemma_insert_index(t, amount);
        if s.last().utxo.amount <= amount {
            assert forall|i: int| 0 <= i < s.len() implies (#[trigger] s[i]).utxo.amount <= amount by {
                assert(s[i].utxo.amount <= s[s.len() - 1].utxo.amount);
            }
        } else {
            assert forall|i: int| 0 <= i < insert_index(s, amount) implies (#[trigger] s[i]).utxo.amount
                <= amount by {
                assert(s[i] == t[i]);
            }
            assert forall|i: int| insert_index(s, amount) <= i < s.len() implies (
            #[trigger] s[i]).utxo.amount > amount by {
                if i < s.len() - 1 {
                    assert(s[i] == t[i]);
                }
            }
        }
    }
}

/// Inserting an output into a sorted sequence keeps it sorted, adds its amount
/// to the sum, and adds its id to the ids held.
proof fn lemma_insert_sorted(s: Seq<UtxoEntryReference>, e: UtxoEntryReference)
    requires
        sorted_by_amount(s),
    ensures
        sorted_by_amount(insert_sorted(s, e)),
        sum_amounts(insert_sorted(s, e)) == sum_amounts(s) + entry_amount(e),
        forall|id: UtxoEntryId|
            #[trigger] has_entry_id(insert_sorted(s, e), id) == (has_entry_id(s, id) || id == entry_id(e)),
        unique_entries(s) && !has_entry_id(s, entry_id(e)) ==> unique_entries(insert_sorted(s, e)),
{
    let k = insert_index(s, e.utxo.amount);
    lemma_insert_index(s, e.utxo.amount);
    let t = insert_sorted(s, e);
    assert(t == s.insert(k, e));
    lemma_sum_insert(s, k, e, |x| entry_amount(x));
    assert forall|i: int, j: int| 0 <= i <= j < t.len() implies (#[trigger] t[i]).utxo.amount <= (
    #[trigger] t[j]).utxo.amount by {
        if i < k && j < k {
        } else if i < k && j == k {
        } else if i < k {
            assert(t[j] == s[j - 1]);
        } else if i == k && j > k {
            assert(t[j] == s[j - 1]);
        } else if i > k {
            assert(t[i] == s[i - 1] && t[j] == s[j - 1]);
        }
    }
    assert forall|id: UtxoEntryId| #[trigger]
        has_entry_id(t, id) == (has_entry_id(s, id) || id == entry_id(e)) by {
        if has_entry_id(t, id) {
            let i = choose|i: int| 0 <= i < t.len() && entry_id(#[trigger] t[i]) == id;
            if i < k {
                assert(t[i] == s[i]);
            } else if i > k {
                assert(t[i] == s[i - 1]);
            }
        }
        if has_entry_id(s, id) {
            let i = choose|i: int| 0 <= i < s.len() && entry_id(#[trigger] s[i]) == id;
            if i < k {
                assert(t[i] == s[i]);
            } else {
                assert(t[i + 1] == s[i]);
            }
        }
        if id == entry_id(e) {
            assert(t[k] == e);
        }
    }
    if unique_entries(s) && !has_entry_id(s, entry_id(e)) {
        assert forall|i: int, j: int|
            0 <= i < t.len() && 0 <= j < t.len() && i != j implies entry_id(#[trigger] t[i]) != entry_id(
                #[trigger] t[j],
            ) by {
            if i != k && j != k {
                let si = if i < k { i } else { i - 1 };
                let sj = if j < k { j } else { j - 1 };
                assert(t[i] == s[si] && t[j] == s[sj]);
            } else if i == k {
                let sj = if j < k { j } else { j - 1 };
                assert(t[j] == s[sj]);
            } else {
                let si = if i < k { i } else { i - 1 };
                assert(t[i] == s[si]);
            }
        }
    }
}

proof fn lemma_filter_sorted(s: Seq<UtxoEntryReference>, p: spec_fn(UtxoEntryReference) -> bool)
    requires
        sorted_by_amount(s),
    ensures
        sorted_by_amount(s.filter(p)),
    decreases s.len(),
{
    reveal(Seq::filter);
    if s.len() > 0 {
        let t = s.drop_last();
        assert(sorted_by_amount(t)) by {
            assert forall|i: int, j: int| 0 <= i <= j < t.len() implies (#[trigger] t[i]).utxo.amount
                <= (#[trigger] t[j]).utxo.amount by {
                assert(t[i] == s[i] && t[j] == s[j]);
            }
        }
        lemma_filter_sorted(t, p);
        lemma_filter(t, p, |x| !p(x), |e| entry_id(e), |e| entry_amount(e));
        if p(s.last()) {
            let u = s.filter(p);
            let tu = t.filter(p);
            assert(u == tu.push(s.last()));
            assert forall|i: int, j: int| 0 <= i <= j < u.len() implies (#[trigger] u[i]).utxo.amount
                <= (#[trigger] u[j]).utxo.amount by {
                if j == u.len() - 1 && i < j {
                    assert(u[i] == tu[i]);
                    assert(t.contains(tu[i]));
                    let k = choose|k: int| 0 <= k < t.len() && t[k] == tu[i];
                    assert(s[k] == t[k]);
                    assert(s[k].utxo.amount <= s[s.len() - 1].utxo.amount);
                } else if j < u.len() - 1 {
                    assert(u[i] == tu[i] && u[j] == tu[j]);
                }
            }
        }
    }
}

proof fn lemma_has_key_filter<A>(s: Seq<A>, p: spec_fn(A) -> bool, key: spec_fn(A) -> UtxoEntryId, id: UtxoEntryId)
    requires
        has_key(s.filter(p), key, id),
    ensures
        has_key(s, key, id),
        exists|i: int| 0 <= i < s.len() && key(s[i]) == id && p(#[trigger] s[i]),
{
    lemma_filter(s, p, |x| !p(x), key, |x| 0);
    let u = s.filter(p);
    let i = choose|i: int| 0 <= i < u.len() && key(#[trigger] u[i]) == id;
    assert(s.contains(u[i]));
    let k = choose|k: int| 0 <= k < s.len() && s[k] == u[i];
    assert(key(s[k]) == id);
}

proof fn lemma_has_key_concat<A>(a: Seq<A>, b: Seq<A>, key: spec_fn(A) -> UtxoEntryId, id: UtxoEntryId)
    ensures
        has_key(a + b, key, id) == (has_key(a, key, id) || has_key(b, key, id)),
{
    let c = a + b;
    if has_key(c, key, id) {
        let i = choose|i: int| 0 <= i < c.len() && key(#[trigger] c[i]) == id;
        if i < a.len() {
            assert(c[i] == a[i]);
        } else {
            assert(c[i] == b[i - a.len()]);
        }
    }
    if has_key(a, key, id) {
        let i = choose|i: int| 0 <= i < a.len() && key(#[trigger] a[i]) == id;
        assert(c[i] == a[i]);
    }
    if has_key(b, key, id) {
        let i = choose|i: int| 0 <= i < b.len() && key(#[trigger] b[i]) == id;
        assert(c[i + a.len()] == b[i]);
    }
}

proof fn lemma_unique_concat<A>(a: Seq<A>, b: Seq<A>, key: spec_fn(A) -> UtxoEntryId)
    requires
        unique_by(a, key),
        unique_by(b, key),
        forall|i: int| 0 <= i < a.len() ==> !has_key(b, key, key(#[trigger] a[i])),
    ensures
        unique_by(a + b, key),
{
    let c = a + b;
    assert forall|i: int, j: int|
        0 <= i < c.len() && 0 <= j < c.len() && i != j implies key(#[trigger] c[i]) != key(#[trigger] c[j]) by {
        if i < a.len() && j < a.len() {
            assert(c[i] == a[i] && c[j] == a[j]);
        } else if i >= a.len() && j >= a.len() {
            assert(c[i] == b[i - a.len()] && c[j] == b[j - a.len()]);
        } else if i < a.len() {
            assert(c[i] == a[i] && c[j] == b[j - a.len()]);
            assert(!has_key(b, key, key(a[i])));
        } else {
            assert(c[j] == a[j] && c[i] == b[i - a.len()]);
            assert(!has_key(b, key, key(a[j])));
        }
    }
}

proof fn lemma_insert_all_sorted(s: Seq<UtxoEntryReference>, es: Seq<UtxoEntryReference>)
    requires
        sorted_by_amount(s),
    ensures
        sorted_by_amount(insert_all_sorted(s, es)),
        sum_amounts(insert_all_sorted(s, es)) == sum_amounts(s) + sum_amounts(es),
        forall|id: UtxoEntryId|
            #[trigger] has_entry_id(insert_all_sorted(s, es), id) == (has_entry_id(s, id) || has_entry_id(es, id)),
        unique_entries(s) && unique_entries(es) && (forall|i: int|
            0 <= i < es.len() ==> !has_entry_id(s, entry_id(#[trigger] es[i]))) ==> unique_entries(
            insert_all_sorted(s, es),
        ),
    decreases es.len(),
{
    if es.len() > 0 {
        let t = es.drop_last();
        let e = es.last();
        lemma_insert_all_sorted(s, t);
        let r = insert_all_sorted(s, t);
        lemma_insert_sorted(r, e);
        assert forall|id: UtxoEntryId| has_entry_id(es, id) == (has_entry_id(t, id) || id == entry_id(e)) by {
            lemma_has_key_concat(t, seq![e], |x| entry_id(x), id);
            assert(es == t + seq![e]);
            if id == entry_id(e) {
                assert(seq![e][0] == e);
            }
            if has_entry_id(seq![e], id) {
                let i = choose|i: int| 0 <= i < 1 && entry_id(#[trigger] seq![e][i]) == id;
                assert(seq![e][i] == e);
            }
        }
        if unique_entries(s) && unique_entries(es) && (forall|i: int|
            0 <= i < es.len() ==> !has_entry_id(s, entry_id(#[trigger] es[i]))) {
            assert(unique_entries(t)) by {
                assert forall|i: int, j: int|
                    0 <= i < t.len() && 0 <= j < t.len() && i != j implies entry_id(#[trigger] t[i])
                        != entry_id(#[trigger] t[j]) by {
                    assert(t[i] == es[i] && t[j] == es[j]);
                }
            }
            assert forall|i: int| 0 <= i < t.len() implies !has_entry_id(s, entry_id(#[trigger] t[i])) by {
                assert(t[i] == es[i]);
            }
            assert(!has_entry_id(r, entry_id(e))) by {
                assert(es[es.len() - 1] == e);
                if has_entry_id(t, entry_id(e)) {
                    let i = choose|i: int| 0 <= i < t.len() && entry_id(#[trigger] t[i]) == entry_id(e);
                    assert(t[i] == es[i]);
                }
            }
        }
        lemma_sum_concat(t, seq![e], |x| entry_amount(x));
        assert(es == t + seq![e]);
        assert(seq![e].drop_last() == Seq::<UtxoEntryReference>::empty());
        assert(seq![e].last() == e);
        assert(sum_amounts(seq![e]) == entry_amount(e));
    }
}

impl UtxoSetModel {
    proof fn lemma_insert_one_wf(self, e: UtxoEntryReference)
        requires
            self.wf(),
        ensures
            self.insert_one(e).wf(),
    {
        if !(self.has_id(entry_id(e)) || self.total() + entry_amount(e) > u64::MAX) {
            lemma_insert_sorted(self.available, e);
            let n = self.insert_one(e);
            assert forall|i: int| 0 <= i < n.available.len() implies !has_consumed_id(
                n.reserved,
                entry_id(#[trigger] n.available[i]),
            ) by {
                let id = entry_id(n.available[i]);
                assert(has_entry_id(n.available, id));
                if has_entry_id(self.available, id) {
                    let j = choose|j: int| 0 <= j < self.available.len() && entry_id(#[trigger] self.available[j]) == id;
                    assert(!has_consumed_id(self.reserved, entry_id(self.available[j])));
                }
            }
        }
    }

    proof fn lemma_remove_wf(self, ids: Seq<UtxoEntryId>)
        requires
            self.wf(),
        ensures
            self.remove_ids(ids).wf(),
            self.remove_ids(ids).total() <= self.total(),
    {
        let n = self.remove_ids(ids);
        lemma_filter(self.available, id_not_in(ids), id_in(ids), |e| entry_id(e), |e| entry_amount(e));
        lemma_filter(self.reserved, consumed_id_not_in(ids), consumed_id_in(ids), |c| consumed_id(c), |c| consumed_amount(c));
        lemma_filter_sorted(self.available, id_not_in(ids));
        assert forall|i: int| 0 <= i < n.available.len() implies !has_consumed_id(
            n.reserved,
            entry_id(#[trigger] n.available[i]),
        ) by {
            assert(self.available.contains(n.available[i]));
            let k = choose|k: int| 0 <= k < self.available.len() && self.available[k] == n.available[i];
            assert(!has_consumed_id(self.reserved, entry_id(self.available[k])));
            if has_consumed_id(n.reserved, entry_id(n.available[i])) {
                lemma_has_key_filter(self.reserved, consumed_id_not_in(ids), |c| consumed_id(c), entry_id(n.available[i]));
            }
        }
    }

    proof fn lemma_reserve_wf(self, ids: Seq<UtxoEntryId>, now: u64)
        requires
            self.wf(),
        ensures
            self.reserve_ids(ids, now).wf(),
            self.reserve_ids(ids, now).total() == self.total(),
    {
        let n = self.reserve_ids(ids, now);
        let moved = self.available.filter(id_in(ids));
        let stamped = moved.map_values(stamp(now));
        lemma_filter(self.available, id_not_in(ids), id_in(ids), |e| entry_id(e), |e| entry_amount(e));
        lemma_filter(self.available, id_in(ids), id_not_in(ids), |e| entry_id(e), |e| entry_amount(e));
        lemma_filter_sorted(self.available, id_not_in(ids));
        lemma_map(moved, stamp(now), |e| entry_id(e), |c| consumed_id(c), |e| entry_amount(e), |c| consumed_amount(c));
        lemma_sum_concat(self.reserved, stamped, |c| consumed_amount(c));
        assert forall|i: int| 0 <= i < self.reserved.len() implies !has_key(
            stamped,
            |c| consumed_id(c),
            consumed_id(#[trigger] self.reserved[i]),
        ) by {
            let id = consumed_id(self.reserved[i]);
            if has_entry_id(moved, id) {
                lemma_has_key_filter(self.available, id_in(ids), |e| entry_id(e), id);
                let k = choose|k: int| 0 <= k < self.available.len() && entry_id(self.available[k]) == id && id_in(ids)(#[trigger] self.available[k]);
                assert(!has_consumed_id(self.reserved, entry_id(self.available[k])));
            }
        }
        lemma_unique_concat(self.reserved, stamped, |c| consumed_id(c));
        assert forall|i: int| 0 <= i < n.available.len() implies !has_consumed_id(
            n.reserved,
            entry_id(#[trigger] n.available[i]),
        ) by {
            let x = n.available[i];
            assert(self.available.contains(x));
            let k = choose|k: int| 0 <= k < self.available.len() && self.available[k] == x;
            assert(!has_consumed_id(self.reserved, entry_id(self.available[k])));
            lemma_has_key_concat(self.reserved, stamped, |c| consumed_id(c), entry_id(x));
            if has_entry_id(moved, entry_id(x)) {
                lemma_has_key_filter(self.available, id_in(ids), |e| entry_id(e), entry_id(x));
                let j = choose|j: int| 0 <= j < self.available.len() && entry_id(self.available[j]) == entry_id(x) && id_in(ids)(#[trigger] self.available[j]);
                assert(id_not_in(ids)(x));
            }
        }
    }

    proof fn lemma_recover_wf(self, now: u64)
        requires
            self.wf(),
        ensures
            self.recover(now).wf(),
            self.recover(now).total() == self.total(),
    {
        let n = self.recover(now);
        let gone = self.reserved.filter(expired_at(now));
        let back = gone.map_values(unstamp());
        lemma_filter(self.reserved, live_at(now), expired_at(now), |c| consumed_id(c), |c| consumed_amount(c));
        lemma_filter(self.reserved, expired_at(now), live_at(now), |c| consumed_id(c), |c| consumed_amount(c));
        lemma_map(gone, unstamp(), |c| consumed_id(c), |e| entry_id(e), |c| consumed_amount(c), |e| entry_amount(e));
        assert forall|i: int| 0 <= i < back.len() implies !has_entry_id(self.available, entry_id(#[trigger] back[i])) by {
            let id = entry_id(back[i]);
            assert(has_entry_id(back, id));
            assert(has_consumed_id(gone, id));
            lemma_has_key_filter(self.reserved, expired_at(now), |c| consumed_id(c), id);
            if has_entry_id(self.available, id) {
                let k = choose|k: int| 0 <= k < self.available.len() && entry_id(#[trigger] self.available[k]) == id;
                assert(!has_consumed_id(self.reserved, entry_id(self.available[k])));
            }
        }
        lemma_insert_all_sorted(self.available, back);
        assert forall|i: int| 0 <= i < n.available.len() implies !has_consumed_id(
            n.reserved,
            entry_id(#[trigger] n.available[i]),
        ) by {
            let id = entry_id(n.available[i]);
            assert(has_entry_id(n.available, id));
            if has_consumed_id(n.reserved, id) {
                lemma_has_key_filter(self.reserved, live_at(now), |c| consumed_id(c), id);
                let a = choose|a: int| 0 <= a < self.reserved.len() && consumed_id(self.reserved[a]) == id && live_at(now)(#[trigger] self.reserved[a]);
                if has_entry_id(self.available, id) {
                    let k = choose|k: int| 0 <= k < self.available.len() && entry_id(#[trigger] self.available[k]) == id;
                    assert(!has_consumed_id(self.reserved, entry_id(self.available[k])));
                } else {
                    assert(has_entry_id(back, id));
                    assert(has_consumed_id(gone, id));
                    lemma_has_key_filter(self.reserved, expired_at(now), |c| consumed_id(c), id);
                    let b = choose|b: int| 0 <= b < self.reserved.len() && consumed_id(self.reserved[b]) == id && expired_at(now)(#[trigger] self.reserved[b]);
                    assert(a != b);
                }
            }
        }
    }
}

/// The pool of unspent outputs of an account: the available outputs in
/// ascending order of amount, and the outputs reserved by a committed selection.
pub struct UtxoSet {
    entries: Vec<UtxoEntryReference>,
    consumed: Vec<Consumed>,
    total: u64,
}

impl View for UtxoSet {
    type V = UtxoSetModel;

    closed spec fn view(&self) -> UtxoSetModel {
        UtxoSetModel { available: self.entries@, reserved: self.consumed@ }
    }
}

fn ids_contain(ids: &[UtxoEntryId], id: UtxoEntryId) -> (r: bool)
    ensures
        r == ids@.contains(id),
{
    let mut i: usize = 0;
    while i < ids.len()
        invariant
            i <= ids@.len(),
            forall|j: int| 0 <= j < i ==> ids@[j] != id,
        decreases ids@.len() - i,
    {
        if ids[i] == id {
            assert(ids@[i as int] == id);
            return true;
        }
        i += 1;
    }
    false
}

fn find_insert_index(entries: &Vec<UtxoEntryReference>, amount: u64) -> (r: usize)
    ensures
        r == insert_index(entries@, amount),
{
    let mut i: usize = entries.len();
    assert(entries@.subrange(0, i as int) == entries@);
    while i > 0 && entries[i - 1].amount() > amount
        invariant
            i <= entries@.len(),
            insert_index(entries@, amount) == insert_index(entries@.subrange(0, i as int), amount),
        decreases i,
    {
        assert(entries@.subrange(0, i as int).drop_last() == entries@.subrange(0, i - 1));
        i -= 1;
    }
    if i == 0 {
        assert(entries@.subrange(0, 0) == Seq::<UtxoEntryReference>::empty());
    }
    i
}

impl UtxoSet {
    /// The set's invariant, with the running total of the amounts held.
    pub closed spec fn wf(&self) -> bool {
        self@.wf() && self.total == self@.total()
    }

    /// A well-formed set has a well-formed model.
    pub proof fn lemma_wf_model(&self)
        requires
            self.wf(),
        ensures
            self@.wf(),
    {
    }

    pub fn new() -> (r: UtxoSet)
        ensures
            r.wf(),
            r@.available.len() == 0,
            r@.reserved.len() == 0,
    {
        UtxoSet { entries: Vec::new(), consumed: Vec::new(), total: 0 }
    }

    /// Drops every output, available or reserved.
    pub fn clear(&mut self)
        ensures
            final(self).wf(),
            final(self)@.available.len() == 0,
            final(self)@.reserved.len() == 0,
    {
        self.entries = Vec::new();
        self.consumed = Vec::new();
        self.total = 0;
    }

    /// Whether an output with this id is held, available or reserved.
    pub fn contains(&self, id: &UtxoEntryId) -> (r: bool)
        ensures
            r == self@.has_id(*id),
    {
        let mut i: usize = 0;
        while i < self.entries.len()
            invariant
                i <= self.entries@.len(),
                forall|j: int| 0 <= j < i ==> entry_id(#[trigger] self.entries@[j]) != *id,
            decreases self.entries@.len() - i,
        {
            if self.entries[i].id() == *id {
                assert(entry_id(self.entries@[i as int]) == *id);
                return true;
            }
            i += 1;
        }
        let mut k: usize = 0;
        while k < self.consumed.len()
            invariant
                k <= self.consumed@.len(),
                forall|j: int| 0 <= j < self.entries@.len() ==> entry_id(#[trigger] self.entries@[j]) != *id,
                forall|j: int| 0 <= j < k ==> consumed_id(#[trigger] self.consumed@[j]) != *id,
            decreases self.consumed@.len() - k,
        {
            if self.consumed[k].entry.id() == *id {
                assert(consumed_id(self.consumed@[k as int]) == *id);
                return true;
            }
            k += 1;
        }
        false
    }

    fn insert_entry(&mut self, utxo_entry: UtxoEntryReference)
        requires
            old(self).wf(),
        ensures
            final(self).wf(),
            final(self)@ == old(self)@.insert_one(utxo_entry),
    {
        proof {
            self@.lemma_insert_one_wf(utxo_entry);
        }
        if self.contains(&utxo_entry.id()) {
            return;
        }
        let amount = utxo_entry.amount();
        if amount > u64::MAX - self.total {
            return;
        }
        let index = find_insert_index(&self.entries, amount);
        proof {
            lemma_insert_index(self.entries@, amount);
        }
        self.entries.insert(index, utxo_entry);
        self.total = self.total + amount;
        proof {
            lemma_insert_sorted(old(self)@.available, utxo_entry);
        }
    }

    /// Adds outputs to the available pool, each in order of amount after those
    /// of no larger amount. An output whose id is already held is ignored, as
    /// is one that would take the amounts held past `u64::MAX`.
    pub fn insert(&mut self, utxo_entries: Vec<UtxoEntryReference>)
        requires
            old(self).wf(),
        ensures
            final(self).wf(),
            final(self)@ == old(self)@.insert_all(utxo_entries@),
    {
        let mut i: usize = 0;
        while i < utxo_entries.len()
            invariant
                i <= utxo_entries@.len(),
                self.wf(),
                self@ == old(self)@.insert_all(utxo_entries@.subrange(0, i as int)),
            decreases utxo_entries@.len() - i,
        {
            proof {
                assert(utxo_entries@.subrange(0, i + 1).drop_last() == utxo_entries@.subrange(0, i as int));
            }
            self.insert_entry(utxo_entries[i].share());
            i += 1;
        }
        assert(utxo_entries@.subrange(0, i as int) == utxo_entries@);
    }

    /// Merges a batch of outputs, with the same rules as `insert`.
    pub fn extend(&mut self, utxo_entries: &[UtxoEntryReference])
        requires
            old(self).wf(),
        ensures
            final(self).wf(),
            final(self)@ == old(self)@.insert_all(utxo_entries@),
    {
        let mut i: usize = 0;
        while i < utxo_entries.len()
            invariant
                i <= utxo_entries@.len(),
                self.wf(),
                self@ == old(self)@.insert_all(utxo_entries@.subrange(0, i as int)),
            decreases utxo_entries@.len() - i,
        {
            proof {
                assert(utxo_entries@.subrange(0, i + 1).drop_last() == utxo_entries@.subrange(0, i as int));
            }
            self.insert_entry(utxo_entries[i].share());
            i += 1;
        }
        assert(utxo_entries@.subrange(0, i as int) == utxo_entries@);
    }

    /// Drops every output whose id is listed, from whichever pool holds it.
    /// Returns whether anything was dropped.
    pub fn remove(&mut self, ids: Vec<UtxoEntryId>) -> (r: bool)
        requires
            old(self).wf(),
        ensures
            final(self).wf(),
            final(self)@ == old(self)@.remove_ids(ids@),
            r == exists|k: int| 0 <= k < ids@.len() && old(self)@.has_id(#[trigger] ids@[k]),
    {
        let ghost m = self@;
        proof {
            m.lemma_remove_wf(ids@);
        }
        let mut removed = false;
        let mut entries: Vec<UtxoEntryReference> = Vec::new();
        let mut i: usize = 0;
        while i < self.entries.len()
            invariant
                self@ == m,
                i <= m.available.len(),
                entries@ == m.available.subrange(0, i as int).filter(id_not_in(ids@)),
                removed == exists|j: int| 0 <= j < i && ids@.contains(entry_id(#[trigger] m.available[j])),
            decreases m.available.len() - i,
        {
            let e = self.entries[i].share();
            proof {
                let s = m.available.subrange(0, i + 1);
                assert(s == m.available.subrange(0, i as int).push(e));
                m.available.subrange(0, i as int).lemma_filter_push(e, id_not_in(ids@));
            }
            if ids_contain(ids.as_slice(), e.id()) {
                removed = true;
            } else {
                entries.push(e);
            }
            i += 1;
        }
        let mut consumed: Vec<Consumed> = Vec::new();
        let mut k: usize = 0;
        while k < self.consumed.len()
            invariant
                self@ == m,
                i == m.available.len(),
                k <= m.reserved.len(),
                consumed@ == m.reserved.subrange(0, k as int).filter(consumed_id_not_in(ids@)),
                removed == ((exists|j: int| 0 <= j < i && ids@.contains(entry_id(#[trigger] m.available[j])))
                    || (exists|j: int| 0 <= j < k && ids@.contains(consumed_id(#[trigger] m.reserved[j])))),
            decreases m.reserved.len() - k,
        {
            let c = Consumed { entry: self.consumed[k].entry.share(), instant: self.consumed[k].instant };
            proof {
                let s = m.reserved.subrange(0, k + 1);
                assert(s == m.reserved.subrange(0, k as int).push(c));
                m.reserved.subrange(0, k as int).lemma_filter_push(c, consumed_id_not_in(ids@));
            }
            if ids_contain(ids.as_slice(), c.entry.id()) {
                removed = true;
            } else {
                consumed.push(c);
            }
            k += 1;
        }
        assert(m.available.subrange(0, i as int) == m.available);
        assert(m.reserved.subrange(0, k as int) == m.reserved);
        let total = sum_entries(&entries) + sum_consumed_entries(&consumed);
        self.entries = entries;
        self.consumed = consumed;
        self.total = total;
        proof {
            if removed {
                    if exists|j: int| 0 <= j < i && ids@.contains(entry_id(#[trigger] m.available[j])) {
                        let j = choose|j: int| 0 <= j < i && ids@.contains(entry_id(#[trigger] m.available[j]));
                        let x = choose|x: int| 0 <= x < ids@.len() && ids@[x] == entry_id(m.available[j]);
                        assert(entry_id(m.available[j]) == ids@[x]);
                        assert(has_entry_id(m.available, ids@[x]));
                        assert(m.has_id(ids@[x]));
                    } else {
                        let j = choose|j: int| 0 <= j < k && ids@.contains(consumed_id(#[trigger] m.reserved[j]));
                        let x = choose|x: int| 0 <= x < ids@.len() && ids@[x] == consumed_id(m.reserved[j]);
                        assert(consumed_id(m.reserved[j]) == ids@[x]);
                        assert(has_consumed_id(m.reserved, ids@[x]));
                        assert(m.has_id(ids@[x]));
                    }
                }
            if exists|j: int| 0 <= j < ids@.len() && m.has_id(#[trigger] ids@[j]) {
                    let j = choose|j: int| 0 <= j < ids@.len() && m.has_id(#[trigger] ids@[j]);
                    assert(ids@.contains(ids@[j]));
                    if has_entry_id(m.available, ids@[j]) {
                        let a = choose|a: int| 0 <= a < m.available.len() && entry_id(#[trigger] m.available[a]) == ids@[j];
                        assert(ids@.contains(entry_id(m.available[a])));
                    } else {
                        let a = choose|a: int| 0 <= a < m.reserved.len() && consumed_id(#[trigger] m.reserved[a]) == ids@[j];
                        assert(ids@.contains(consumed_id(m.reserved[a])));
                    }
                }
        }
        removed
    }

    /// Moves the available outputs whose id is listed to the reserved pool,
    /// reserved at `now` (milliseconds). Listed ids that are not available are
    /// skipped.
    pub fn reserve(&mut self, ids: &[UtxoEntryId], now: u64)
        requires
            old(self).wf(),
        ensures
            final(self).wf(),
            final(self)@ == old(self)@.reserve_ids(ids@, now),
    {
        let ghost m = self@;
        proof {
            m.lemma_reserve_wf(ids@, now);
        }
        let mut entries: Vec<UtxoEntryReference> = Vec::new();
        let mut i: usize = 0;
        while i < self.entries.len()
            invariant
                self.entries@ == m.available,
                self.total == m.total(),
                i <= m.available.len(),
                entries@ == m.available.subrange(0, i as int).filter(id_not_in(ids@)),
                self.consumed@ == m.reserved + m.available.subrange(0, i as int).filter(id_in(ids@)).map_values(stamp(now)),
            decreases m.available.len() - i,
        {
            let e = self.entries[i].share();
            proof {
                let s = m.available.subrange(0, i + 1);
                assert(s == m.available.subrange(0, i as int).push(e));
                m.available.subrange(0, i as int).lemma_filter_push(e, id_not_in(ids@));
                m.available.subrange(0, i as int).lemma_filter_push(e, id_in(ids@));
            }
            if ids_contain(ids, e.id()) {
                proof {
                    let f = m.available.subrange(0, i as int).filter(id_in(ids@));
                    assert(f.push(e).map_values(stamp(now)) == f.map_values(stamp(now)).push(Consumed { entry: e, instant: now }));
                    assert(m.reserved + f.map_values(stamp(now)).push(Consumed { entry: e, instant: now })
                        == (m.reserved + f.map_values(stamp(now))).push(Consumed { entry: e, instant: now }));
                }
                self.consumed.push(Consumed { entry: e, instant: now });
            } else {
                entries.push(e);
            }
            i += 1;
        }
        assert(m.available.subrange(0, i as int) == m.available);
        self.entries = entries;
    }

    /// Returns to the available pool, in order, every reservation older than
    /// the timeout at `now` (milliseconds); the others stay reserved.
    pub fn recover_consumed_utxos(&mut self, now: u64)
        requires
            old(self).wf(),
        ensures
            final(self).wf(),
            final(self)@ == old(self)@.recover(now),
    {
        let ghost m = self@;
        proof {
            m.lemma_recover_wf(now);
        }
        let mut consumed: Vec<Consumed> = Vec::new();
        let mut k: usize = 0;
        while k < self.consumed.len()
            invariant
                self.consumed@ == m.reserved,
                m.wf(),
                k <= m.reserved.len(),
                consumed@ == m.reserved.subrange(0, k as int).filter(live_at(now)),
                self.entries@ == insert_all_sorted(
                    m.available,
                    m.reserved.subrange(0, k as int).filter(expired_at(now)).map_values(unstamp()),
                ),
                self.total == m.total(),
                sorted_by_amount(self.entries@),
            decreases m.reserved.len() - k,
        {
            let c = Consumed { entry: self.consumed[k].entry.share(), instant: self.consumed[k].instant };
            proof {
                let s = m.reserved.subrange(0, k + 1);
                assert(s == m.reserved.subrange(0, k as int).push(c));
                m.reserved.subrange(0, k as int).lemma_filter_push(c, live_at(now));
                m.reserved.subrange(0, k as int).lemma_filter_push(c, expired_at(now));
            }
            if c.instant < now && now - c.instant > CONSUMED_UTXO_TIMEOUT_MS {
                let ghost before = self.entries@;
                let index = find_insert_index(&self.entries, c.entry.amount());
                proof {
                    lemma_insert_index(self.entries@, c.entry.utxo.amount);
                    lemma_insert_sorted(self.entries@, c.entry);
                    let f = m.reserved.subrange(0, k as int).filter(expired_at(now));
                    assert(f.push(c).map_values(unstamp()) == f.map_values(unstamp()).push(c.entry));
                    assert(f.map_values(unstamp()).push(c.entry).drop_last() == f.map_values(unstamp()));
                }
                self.entries.insert(index, c.entry);
            } else {
                consumed.push(c);
            }
            k += 1;
        }
        assert(m.reserved.subrange(0, k as int) == m.reserved);
        self.consumed = consumed;
    }

    /// Handles on the available outputs, in order.
    pub fn available_entries(&self) -> (r: Vec<UtxoEntryReference>)
        requires
            self.wf(),
        ensures
            r@ == self@.available,
    {
        let mut r: Vec<UtxoEntryReference> = Vec::new();
        let mut i: usize = 0;
        while i < self.entries.len()
            invariant
                i <= self.entries@.len(),
                r@ == self.entries@.subrange(0, i as int),
            decreases self.entries@.len() - i,
        {
            r.push(self.entries[i].share());
            proof {
                assert(self.entries@.subrange(0, i + 1) == self.entries@.subrange(0, i as int).push(self.entries@[i as int]));
            }
            i += 1;
        }
        assert(self.entries@.subrange(0, i as int) == self.entries@);
        r
    }

    /// Sum of the amounts of the available outputs.
    pub fn calculate_balance(&self) -> (r: u64)
        requires
            self.wf(),
        ensures
            r == self@.balance(),
    {
        proof {
            lemma_sum_split(self.entries@, 0, |e| entry_amount(e));
        }
        sum_entries(&self.entries)
    }
}

fn sum_entries(entries: &Vec<UtxoEntryReference>) -> (r: u64)
    requires
        sum_amounts(entries@) <= u64::MAX,
    ensures
        r == sum_amounts(entries@),
{
    let mut total: u64 = 0;
    let mut i: usize = 0;
    while i < entries.len()
        invariant
            i <= entries@.len(),
            sum_amounts(entries@) <= u64::MAX,
            total == sum_amounts(entries@.subrange(0, i as int)),
        decreases entries@.len() - i,
    {
        proof {
            lemma_sum_prefix(entries@, i as int, |e| entry_amount(e));
            lemma_sum_split(entries@, i + 1, |e| entry_amount(e));
        }
        total = total + entries[i].amount();
        i += 1;
    }
    assert(entries@.subrange(0, i as int) == entries@);
    total
}

fn sum_consumed_entries(consumed: &Vec<Consumed>) -> (r: u64)
    requires
        sum_consumed(consumed@) <= u64::MAX,
    ensures
        r == sum_consumed(consumed@),
{
    let mut total: u64 = 0;
    let mut i: usize = 0;
    while i < consumed.len()
        invariant
            i <= consumed@.len(),
            sum_consumed(consumed@) <= u64::MAX,
            total == sum_consumed(consumed@.subrange(0, i as int)),
        decreases consumed@.len() - i,
    {
        proof {
            lemma_sum_prefix(consumed@, i as int, |c| consumed_amount(c));
            lemma_sum_split(consumed@, i + 1, |c| consumed_amount(c));
        }
        total = total + consumed[i].entry.amount();
        i += 1;
    }
    assert(consumed@.subrange(0, i as int) == consumed@);
    total
}

/// Balance consistency: in a well-formed set the balance is the sum of the
/// available amounts, and no reserved output is also available, so reserved
/// outputs never count toward it.
pub proof fn lemma_balance_consistency(m: UtxoSetModel)
    requires
        m.wf(),
    ensures
        m.balance() == sum_amounts(m.available),
        m.total() == m.balance() + sum_consumed(m.reserved),
        forall|id: UtxoEntryId| #[trigger] has_consumed_id(m.reserved, id) ==> !has_entry_id(m.available, id),
{
    assert forall|id: UtxoEntryId| #[trigger] has_consumed_id(m.reserved, id) implies !has_entry_id(m.available, id) by {
        if has_entry_id(m.available, id) {
            let i = choose|i: int| 0 <= i < m.available.len() && entry_id(#[trigger] m.available[i]) == id;
            assert(!has_consumed_id(m.reserved, entry_id(m.available[i])));
        }
    }
}

/// Idempotent insert: inserting the same output twice leaves the set as
/// inserting it once.
pub proof fn lemma_insert_idempotent(m: UtxoSetModel, e: UtxoEntryReference)
    requires
        m.wf(),
    ensures
        m.insert_one(e).insert_one(e) == m.insert_one(e),
        m.insert_all(seq![e, e]) == m.insert_one(e),
{
    let n = m.insert_one(e);
    if n != m {
        lemma_insert_sorted(m.available, e);
        assert(has_entry_id(n.available, entry_id(e)));
    }
    assert(seq![e, e].drop_last() == seq![e]);
    assert(seq![e].drop_last() == Seq::<UtxoEntryReference>::empty());
    assert(seq![e, e].last() == e);
    assert(seq![e].last() == e);
    assert(m.insert_all(Seq::<UtxoEntryReference>::empty()) == m);
    assert(m.insert_all(seq![e]) == m.insert_one(e));
}

/// Commit moves state: after reserving, no listed id is available, every
/// listed id that was available is reserved, and the amounts held are unchanged.
pub proof fn lemma_reserve_moves(m: UtxoSetModel, ids: Seq<UtxoEntryId>, now: u64)
    requires
        m.wf(),
    ensures
        forall|k: int| 0 <= k < ids.len() ==> !has_entry_id(m.reserve_ids(ids, now).available, #[trigger] ids[k]),
        forall|k: int|
            0 <= k < ids.len() && has_entry_id(m.available, #[trigger] ids[k]) ==> has_consumed_id(
                m.reserve_ids(ids, now).reserved,
                ids[k],
            ),
        forall|k: int|
            0 <= k < ids.len() && has_consumed_id(m.reserved, #[trigger] ids[k]) ==> has_consumed_id(
                m.reserve_ids(ids, now).reserved,
                ids[k],
            ),
        m.reserve_ids(ids, now).total() == m.total(),
        m.reserve_ids(ids, now).balance() + sum_amounts(m.available.filter(id_in(ids))) == m.balance(),
{
    let n = m.reserve_ids(ids, now);
    m.lemma_reserve_wf(ids, now);
    let moved = m.available.filter(id_in(ids));
    let stamped = moved.map_values(stamp(now));
    lemma_filter(m.available, id_not_in(ids), id_in(ids), |e| entry_id(e), |e| entry_amount(e));
    lemma_filter(m.available, id_in(ids), id_not_in(ids), |e| entry_id(e), |e| entry_amount(e));
    lemma_map(moved, stamp(now), |e| entry_id(e), |c| consumed_id(c), |e| entry_amount(e), |c| consumed_amount(c));
    assert forall|k: int| 0 <= k < ids.len() implies !has_entry_id(n.available, #[trigger] ids[k]) by {
        if has_entry_id(n.available, ids[k]) {
            lemma_has_key_filter(m.available, id_not_in(ids), |e| entry_id(e), ids[k]);
            let j = choose|j: int| 0 <= j < m.available.len() && entry_id(m.available[j]) == ids[k] && id_not_in(ids)(#[trigger] m.available[j]);
            assert(ids.contains(ids[k]));
        }
    }
    assert forall|k: int|
        0 <= k < ids.len() && has_entry_id(m.available, #[trigger] ids[k]) implies has_consumed_id(n.reserved, ids[k]) by {
        let j = choose|j: int| 0 <= j < m.available.len() && entry_id(#[trigger] m.available[j]) == ids[k];
        assert(ids.contains(ids[k]));
        assert(id_in(ids)(m.available[j]));
        assert(moved.contains(m.available[j]));
        let x = choose|x: int| 0 <= x < moved.len() && moved[x] == m.available[j];
        assert(has_entry_id(moved, ids[k]));
        lemma_has_key_concat(m.reserved, stamped, |c| consumed_id(c), ids[k]);
    }
    assert forall|k: int|
        0 <= k < ids.len() && has_consumed_id(m.reserved, #[trigger] ids[k]) implies has_consumed_id(n.reserved, ids[k]) by {
        lemma_has_key_concat(m.reserved, stamped, |c| consumed_id(c), ids[k]);
    }
}

/// Recovery before the timeout has no effect: when no reservation is older
/// than the timeout at `now`, recovering leaves the set as it is.
pub proof fn lemma_recover_before_timeout(m: UtxoSetModel, now: u64)
    requires
        forall|i: int| 0 <= i < m.reserved.len() ==> !is_expired((#[trigger] m.reserved[i]).instant, now),
    ensures
        m.recover(now) == m,
{
    lemma_filter(m.reserved, live_at(now), expired_at(now), |c| consumed_id(c), |c| 0);
    lemma_filter(m.reserved, expired_at(now), live_at(now), |c| consumed_id(c), |c| 0);
    m.reserved.lemma_filter_len(expired_at(now));
    let gone = m.reserved.filter(expired_at(now));
    if gone.len() > 0 {
        assert(expired_at(now)(gone[0]));
        let k = choose|k: int| 0 <= k < m.reserved.len() && m.reserved[k] == gone[0];
    }
    assert(gone.map_values(unstamp()) == Seq::<UtxoEntryReference>::empty());
    assert(m.reserved.filter(live_at(now)) == m.reserved) by {
        reveal(Seq::filter);
        lemma_filter_all(m.reserved, live_at(now));
    }
}

proof fn lemma_filter_all<A>(s: Seq<A>, p: spec_fn(A) -> bool)
    requires
        forall|i: int| 0 <= i < s.len() ==> p(#[trigger] s[i]),
    ensures
        s.filter(p) == s,
    decreases s.len(),
{
    reveal(Seq::filter);
    if s.len() > 0 {
        let t = s.drop_last();
        assert forall|i: int| 0 <= i < t.len() implies p(#[trigger] t[i]) by {
            assert(t[i] == s[i]);
        }
        lemma_filter_all(t, p);
        assert(p(s[s.len() - 1]));
        assert(t.push(s.last()) == s);
    }
}

/// Recovery after the timeout returns exactly the expired reservations: an id
/// is available afterwards when it was available or its reservation had
/// expired, it stays reserved exactly when its reservation had not, and the
/// balance grows by the expired amounts.
pub proof fn lemma_recover_returns_expired(m: UtxoSetModel, now: u64)
    requires
        m.wf(),
    ensures
        forall|id: UtxoEntryId|
            #[trigger] has_entry_id(m.recover(now).available, id) == (has_entry_id(m.available, id) || exists|i: int|
                0 <= i < m.reserved.len() && consumed_id(#[trigger] m.reserved[i]) == id && is_expired(
                    m.reserved[i].instant,
                    now,
                )),
        forall|id: UtxoEntryId|
            #[trigger] has_consumed_id(m.recover(now).reserved, id) == exists|i: int|
                0 <= i < m.reserved.len() && consumed_id(#[trigger] m.reserved[i]) == id && !is_expired(
                    m.reserved[i].instant,
                    now,
                ),
        m.recover(now).balance() == m.balance() + sum_consumed(m.reserved.filter(expired_at(now))),
{
    let gone = m.reserved.filter(expired_at(now));
    let back = gone.map_values(unstamp());
    let n = m.recover(now);
    lemma_filter(m.reserved, live_at(now), expired_at(now), |c| consumed_id(c), |c| consumed_amount(c));
    lemma_filter(m.reserved, expired_at(now), live_at(now), |c| consumed_id(c), |c| consumed_amount(c));
    lemma_map(gone, unstamp(), |c| consumed_id(c), |e| entry_id(e), |c| consumed_amount(c), |e| entry_amount(e));
    lemma_insert_all_sorted(m.available, back);
    assert forall|id: UtxoEntryId| #[trigger] has_consumed_id(gone, id) == exists|i: int|
        0 <= i < m.reserved.len() && consumed_id(#[trigger] m.reserved[i]) == id && is_expired(m.reserved[i].instant, now) by {
        if has_consumed_id(gone, id) {
            lemma_has_key_filter(m.reserved, expired_at(now), |c| consumed_id(c), id);
        }
        if exists|i: int| 0 <= i < m.reserved.len() && consumed_id(#[trigger] m.reserved[i]) == id && is_expired(m.reserved[i].instant, now) {
            let i = choose|i: int| 0 <= i < m.reserved.len() && consumed_id(#[trigger] m.reserved[i]) == id && is_expired(m.reserved[i].instant, now);
            assert(expired_at(now)(m.reserved[i]));
            assert(gone.contains(m.reserved[i]));
            let x = choose|x: int| 0 <= x < gone.len() && gone[x] == m.reserved[i];
            assert(consumed_id(gone[x]) == id);
        }
    }
    assert forall|id: UtxoEntryId| #[trigger] has_entry_id(n.available, id) == (has_entry_id(m.available, id) || exists|i: int|
        0 <= i < m.reserved.len() && consumed_id(#[trigger] m.reserved[i]) == id && is_expired(m.reserved[i].instant, now)) by {
        assert(has_entry_id(n.available, id) == (has_entry_id(m.available, id) || has_entry_id(back, id)));
        assert(has_entry_id(back, id) == has_consumed_id(gone, id));
    }
    assert forall|id: UtxoEntryId| #[trigger] has_consumed_id(n.reserved, id) == exists|i: int|
        0 <= i < m.reserved.len() && consumed_id(#[trigger] m.reserved[i]) == id && !is_expired(m.reserved[i].instant, now) by {
        if has_consumed_id(n.reserved, id) {
            lemma_has_key_filter(m.reserved, live_at(now), |c| consumed_id(c), id);
        }
        if exists|i: int| 0 <= i < m.reserved.len() && consumed_id(#[trigger] m.reserved[i]) == id && !is_expired(m.reserved[i].instant, now) {
            let i = choose|i: int| 0 <= i < m.reserved.len() && consumed_id(#[trigger] m.reserved[i]) == id && !is_expired(m.reserved[i].instant, now);
            assert(live_at(now)(m.reserved[i]));
            assert(n.reserved.contains(m.reserved[i]));
            let x = choose|x: int| 0 <= x < n.reserved.len() && n.reserved[x] == m.reserved[i];
            assert(consumed_id(n.reserved[x]) == id);
        }
    }
}

} // verus!
