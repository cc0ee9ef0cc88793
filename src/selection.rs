use vstd::prelude::*;

use crate::address::Address;
use crate::error::Error;
use crate::utxo::{
    entry_amount, entry_id, sum_amounts, UtxoEntryId, UtxoEntryReference, UtxoSet,
};

verus! {

/// Walks a snapshot of the available outputs of a set, in ascending order of amount.
pub struct UtxoIterator {
    entries: Vec<UtxoEntryReference>,
    cursor: usize,
}

impl View for UtxoIterator {
    type V = (Seq<UtxoEntryReference>, int);

    closed spec fn view(&self) -> (Seq<UtxoEntryReference>, int) {
        (self.entries@, self.cursor as int)
    }
}

impl UtxoIterator {
    pub closed spec fn wf(&self) -> bool {
        self.cursor <= self.entries@.len()
    }

    pub fn new(utxo_set: &UtxoSet) -> (r: UtxoIterator)
        requires
            utxo_set.wf(),
        ensures
            r.wf(),
            r@.0 == utxo_set@.available,
            r@.1 == 0,
    {
        UtxoIterator { entries: utxo_set.available_entries(), cursor: 0 }
    }

    /// The next output of the snapshot, if any is left.
    pub fn next(&mut self) -> (r: Option<UtxoEntryReference>)
        requires
            old(self).wf(),
        ensures
            final(self).wf(),
            final(self)@.0 == old(self)@.0,
            old(self)@.1 < old(self)@.0.len() ==> r == Some(old(self)@.0[old(self)@.1]) && final(self)@.1
                == old(self)@.1 + 1,
            old(self)@.1 >= old(self)@.0.len() ==> r.is_none() && final(self)@.1 == old(self)@.1,
    {
        if self.cursor < self.entries.len() {
            let entry = self.entries[self.cursor].share();
            self.cursor = self.cursor + 1;
            Some(entry)
        } else {
            None
        }
    }
}

/// Ids of a sequence of outputs, in order.
pub open spec fn ids_of(s: Seq<UtxoEntryReference>) -> Seq<UtxoEntryId> {
    s.map_values(|e| entry_id(e))
}

/// Some output of `s` is owned by an address with this view.
pub open spec fn is_owner_of(s: Seq<UtxoEntryReference>, a: (crate::address::Prefix, crate::address::Version, Seq<u8>)) -> bool {
    exists|j: int|
        0 <= j < s.len() && (#[trigger] s[j]).utxo.address is Some && s[j].utxo.address->Some_0@ == a
}

/// `r` lists, once each, the owning addresses of the outputs of `s`.
pub open spec fn owners_listed(s: Seq<UtxoEntryReference>, r: Seq<Address>) -> bool {
    &&& forall|i: int| 0 <= i < r.len() ==> is_owner_of(s, (#[trigger] r[i])@)
    &&& forall|j: int|
        0 <= j < s.len() && (#[trigger] s[j]).utxo.address is Some ==> exists|i: int|
            0 <= i < r.len() && (#[trigger] r[i])@ == s[j].utxo.address->Some_0@
    &&& forall|i: int, k: int| 0 <= i < k < r.len() ==> (#[trigger] r[i])@ != (#[trigger] r[k])@
}

/// The distinct owning addresses of `entries`, in order of first appearance;
/// outputs without an address are passed over.
pub fn owning_addresses(entries: &Vec<UtxoEntryReference>) -> (r: Vec<Address>)
    ensures
        owners_listed(entries@, r@),
{
    let mut r: Vec<Address> = Vec::new();
    let mut j: usize = 0;
    while j < entries.len()
        invariant
            j <= entries@.len(),
            forall|i: int| 0 <= i < r@.len() ==> is_owner_of(entries@, (#[trigger] r@[i])@),
            forall|x: int|
                0 <= x < j && (#[trigger] entries@[x]).utxo.address is Some ==> exists|i: int|
                    0 <= i < r@.len() && (#[trigger] r@[i])@ == entries@[x].utxo.address->Some_0@,
            forall|i: int, k: int| 0 <= i < k < r@.len() ==> (#[trigger] r@[i])@ != (#[trigger] r@[k])@,
        decreases entries@.len() - j,
    {
        let ghost old_r = r@;
        match &entries[j].utxo.address {
            Some(address) => {
                let mut seen = false;
                let mut i: usize = 0;
                while i < r.len()
                    invariant
                        i <= r@.len(),
                        seen ==> exists|x: int| 0 <= x < r@.len() && (#[trigger] r@[x])@ == address@,
                        !seen ==> forall|x: int| 0 <= x < i ==> (#[trigger] r@[x])@ != address@,
                    decreases r@.len() - i,
                {
                    if r[i].same_as(address) {
                        seen = true;
                    }
                    i += 1;
                }
                if !seen {
                    let copy = address.duplicate();
                    proof {
                        assert(entries@[j as int].utxo.address == Some(*address));
                        assert(is_owner_of(entries@, copy@));
                    }
                    r.push(copy);
                    proof {
                        assert(r@[r@.len() - 1]@ == address@);
                    }
                }
            },
            None => {},
        }
        proof {
            assert(r@.len() >= old_r.len());
            assert(forall|i: int| 0 <= i < old_r.len() ==> r@[i] == old_r[i]);
            assert forall|x: int|
                0 <= x < j + 1 && (#[trigger] entries@[x]).utxo.address is Some implies exists|i: int|
                    0 <= i < r@.len() && (#[trigger] r@[i])@ == entries@[x].utxo.address->Some_0@ by {
                if x < j {
                    let i = choose|i: int| 0 <= i < old_r.len() && (#[trigger] old_r[i])@ == entries@[x].utxo.address->Some_0@;
                    assert(r@[i] == old_r[i]);
                }
            }
        }
        j += 1;
    }
    r
}

/// Abstract state of a selection: the snapshot it walks, how far it has got,
/// what it has selected and the amount selected.
pub struct SelectionModel {
    pub entries: Seq<UtxoEntryReference>,
    pub cursor: int,
    pub selected: Seq<UtxoEntryReference>,
    pub selected_amount: nat,
}

impl SelectionModel {
    /// The outputs of the snapshot not yet walked.
    pub open spec fn rest(self) -> Seq<UtxoEntryReference> {
        self.entries.subrange(self.cursor, self.entries.len() as int)
    }
}

/// A per-build cursor over a UTXO set that gathers outputs toward a target
/// amount. It changes the set only when committed.
pub struct UtxoSelectionContext {
    stream: UtxoIterator,
    selected_entries: Vec<UtxoEntryReference>,
    selected_amount: u64,
}

impl View for UtxoSelectionContext {
    type V = SelectionModel;

    closed spec fn view(&self) -> SelectionModel {
        SelectionModel {
            entries: self.stream.entries@,
            cursor: self.stream.cursor as int,
            selected: self.selected_entries@,
            selected_amount: self.selected_amount as nat,
        }
    }
}

proof fn lemma_prefix_sum_le(s: Seq<UtxoEntryReference>, i: int)
    requires
        0 <= i <= s.len(),
    ensures
        sum_amounts(s.subrange(0, i)) <= sum_amounts(s),
{
    crate::utxo::lemma_sum_split(s, i, |e| entry_amount(e));
}

impl UtxoSelectionContext {
    pub closed spec fn wf(&self) -> bool {
        &&& self.stream.wf()
        &&& sum_amounts(self.stream.entries@) <= u64::MAX
        &&& self.selected_amount == sum_amounts(self.selected_entries@)
        &&& self.selected_amount <= sum_amounts(self.stream.entries@.subrange(0, self.stream.cursor as int))
    }

    pub fn new(utxos: &UtxoSet) -> (r: UtxoSelectionContext)
        requires
            utxos.wf(),
        ensures
            r.wf(),
            r@.entries == utxos@.available,
            r@.cursor == 0,
            r@.selected.len() == 0,
            r@.selected_amount == 0,
    {
        let stream = UtxoIterator::new(utxos);
        proof {
            utxos.lemma_wf_model();
            assert(stream.entries@.subrange(0, 0) == Seq::<UtxoEntryReference>::empty());
            assert(sum_amounts(Seq::<UtxoEntryReference>::empty()) == 0);
        }
        UtxoSelectionContext { stream, selected_entries: Vec::new(), selected_amount: 0 }
    }

    /// The distinct owning addresses of the selected outputs, in order of
    /// first appearance; outputs without an address are passed over.
    pub fn addresses(&self) -> (r: Vec<Address>)
        ensures
            owners_listed(self@.selected, r@),
    {
        owning_addresses(&self.selected_entries)
    }

    /// In a well-formed context the selected amount is the sum of the
    /// selected outputs' amounts.
    pub proof fn lemma_wf_amount(&self)
        requires
            self.wf(),
        ensures
            self@.selected_amount == sum_amounts(self@.selected),
    {
    }

    pub fn selected_amount(&self) -> (r: u64)
        ensures
            r == self@.selected_amount,
    {
        self.selected_amount
    }

    pub fn selected_entries(&self) -> (r: &Vec<UtxoEntryReference>)
        ensures
            r@ == self@.selected,
    {
        &self.selected_entries
    }
}

impl UtxoSelectionContext {
    /// Walks the snapshot on from where it stands, gathering outputs in
    /// ascending order of amount until those gathered by this call reach
    /// `selection_amount`; returns them. When the snapshot runs out first,
    /// fails with `InsufficientFunds` and drops everything selected so far.
    pub fn select(&mut self, selection_amount: u64) -> (r: Result<Vec<UtxoEntryReference>, Error>)
        requires
            old(self).wf(),
        ensures
            final(self).wf(),
            final(self)@.entries == old(self)@.entries,
            r.is_ok() == (sum_amounts(old(self)@.rest()) >= selection_amount),
            r matches Ok(v) ==> {
                &&& v@ == old(self)@.rest().subrange(0, v@.len() as int)
                &&& sum_amounts(v@) >= selection_amount
                &&& (v@.len() == 0 || sum_amounts(v@.drop_last()) < selection_amount)
                &&& final(self)@.cursor == old(self)@.cursor + v@.len()
                &&& final(self)@.selected == old(self)@.selected + v@
                &&& final(self)@.selected_amount == old(self)@.selected_amount + sum_amounts(v@)
            },
            r matches Err(e) ==> {
                &&& e == Error::InsufficientFunds
                &&& final(self)@.cursor == old(self)@.entries.len()
                &&& final(self)@.selected.len() == 0
                &&& final(self)@.selected_amount == 0
            },
    {
        let ghost start = self@;
        let ghost rest = start.rest();
        let mut amount: u64 = 0;
        let mut vec: Vec<UtxoEntryReference> = Vec::new();
        proof {
            lemma_prefix_sum_le(start.entries, start.cursor);
        }
        while amount < selection_amount
            invariant
                self.stream.wf(),
                sum_amounts(self.stream.entries@) <= u64::MAX,
                self.stream.entries@ == start.entries,
                self.stream.cursor == start.cursor + vec@.len(),
                self.selected_entries@ == start.selected + vec@,
                0 <= start.cursor <= start.entries.len(),
                rest == start.entries.subrange(start.cursor, start.entries.len() as int),
                vec@.len() <= rest.len(),
                vec@ == rest.subrange(0, vec@.len() as int),
                amount == sum_amounts(vec@),
                vec@.len() == 0 || sum_amounts(vec@.drop_last()) < selection_amount,
                start.selected_amount + amount <= sum_amounts(start.entries.subrange(0, self.stream.cursor as int)),
                self.selected_amount == start.selected_amount,
                start.selected_amount == sum_amounts(start.selected),
                start.cursor <= start.entries.len(),
            ensures
                amount >= selection_amount || self.stream.cursor == start.entries.len(),
                self.stream.wf(),
                sum_amounts(self.stream.entries@) <= u64::MAX,
                self.stream.entries@ == start.entries,
                self.stream.cursor == start.cursor + vec@.len(),
                self.selected_entries@ == start.selected + vec@,
                0 <= start.cursor <= start.entries.len(),
                rest == start.entries.subrange(start.cursor, start.entries.len() as int),
                vec@.len() <= rest.len(),
                vec@ == rest.subrange(0, vec@.len() as int),
                amount == sum_amounts(vec@),
                vec@.len() == 0 || sum_amounts(vec@.drop_last()) < selection_amount,
                start.selected_amount + amount <= sum_amounts(start.entries.subrange(0, self.stream.cursor as int)),
                self.selected_amount == start.selected_amount,
                start.selected_amount == sum_amounts(start.selected),
            decreases start.entries.len() - self.stream.cursor,
        {
            match self.stream.next() {
                Some(entry) => {
                    let ghost c = self.stream.cursor - 1;
                    proof {
                        assert(c == start.cursor + vec@.len());
                        assert(start.entries[c as int] == entry);
                        crate::utxo::lemma_sum_prefix(start.entries, c as int, |e| entry_amount(e));
                        lemma_prefix_sum_le(start.entries, c + 1);
                        crate::utxo::lemma_sum_concat(start.selected, vec@.push(entry), |e| entry_amount(e));
                        crate::utxo::lemma_sum_concat(start.selected, vec@, |e| entry_amount(e));
                        assert(vec@.push(entry).drop_last() == vec@);
                        assert(rest[vec@.len() as int] == entry);
                        assert(rest.subrange(0, vec@.len() + 1 as int) == rest.subrange(0, vec@.len() as int).push(entry));
                        assert(start.selected + vec@.push(entry) == (start.selected + vec@).push(entry));
                    }
                    amount = amount + entry.amount();
                    self.selected_entries.push(entry.share());
                    vec.push(entry);
                    proof {
                        crate::utxo::lemma_sum_concat(start.selected, vec@, |e| entry_amount(e));
                    }
                },
                None => {
                    break;
                },
            }
        }
        proof {
            crate::utxo::lemma_sum_split(rest, vec@.len() as int, |e| entry_amount(e));
        }
        if amount < selection_amount {
            proof {
                assert(vec@.len() == rest.len());
                assert(rest.subrange(0, vec@.len() as int) == rest);
                crate::utxo::lemma_sum_split(start.entries, start.entries.len() as int, |e| entry_amount(e));
                assert(start.entries.subrange(0, start.entries.len() as int) == start.entries);
                assert(Seq::<UtxoEntryReference>::empty().subrange(0, 0) == Seq::<UtxoEntryReference>::empty());
            }
            self.selected_entries = Vec::new();
            self.selected_amount = 0;
            proof {
                lemma_prefix_sum_le(start.entries, self.stream.cursor as int);
                assert(sum_amounts(Seq::<UtxoEntryReference>::empty()) == 0);
            }
            Err(Error::InsufficientFunds)
        } else {
            proof {
                crate::utxo::lemma_sum_concat(start.selected, vec@, |e| entry_amount(e));
                lemma_prefix_sum_le(start.entries, self.stream.cursor as int);
            }
            self.selected_amount = self.selected_amount + amount;
            Ok(vec)
        }
    }

    /// Moves the selected outputs that are still available in `utxos` to its
    /// reserved pool, reserved at `now` (milliseconds). Selected outputs that
    /// were removed or reserved meanwhile, for instance by another context that
    /// selected them from an earlier snapshot and committed first, are skipped.
    pub fn commit(self, utxos: &mut UtxoSet, now: u64) -> (r: Result<(), Error>)
        requires
            old(utxos).wf(),
        ensures
            r.is_ok(),
            final(utxos).wf(),
            final(utxos)@ == old(utxos)@.reserve_ids(ids_of(self@.selected), now),
    {
        let mut ids: Vec<UtxoEntryId> = Vec::new();
        let mut i: usize = 0;
        while i < self.selected_entries.len()
            invariant
                i <= self.selected_entries@.len(),
                ids@ == ids_of(self.selected_entries@.subrange(0, i as int)),
            decreases self.selected_entries@.len() - i,
        {
            ids.push(self.selected_entries[i].id());
            proof {
                assert(self.selected_entries@.subrange(0, i + 1) == self.selected_entries@.subrange(0, i as int).push(
                    self.selected_entries@[i as int],
                ));
            }
            i += 1;
            proof {
                assert(ids@ == ids_of(self.selected_entries@.subrange(0, i as int)));
            }
        }
        assert(self.selected_entries@.subrange(0, i as int) == self.selected_entries@);
        utxos.reserve(ids.as_slice(), now);
        Ok(())
    }
}

impl UtxoSet {
    /// A selection context over a snapshot of the available outputs.
    pub fn create_selection_context(&self) -> (r: UtxoSelectionContext)
        requires
            self.wf(),
        ensures
            r.wf(),
            r@.entries == self@.available,
            r@.cursor == 0,
            r@.selected.len() == 0,
            r@.selected_amount == 0,
    {
        UtxoSelectionContext::new(self)
    }
}

} // verus!
