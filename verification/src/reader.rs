//! Reading balances, with a record of what was asked.

use crate::balance_read::AccountBalanceRead;
use crate::types::{ObjectID, SequenceNumber};
use std::sync::Arc;
use vstd::prelude::*;

verus! {

/// A source of balances. It is asked only through `read`, so the record holds every question that
/// was put to it here, in order.
pub struct BalanceReader<B> {
    source: Arc<B>,
    reads: Ghost<Seq<(ObjectID, SequenceNumber)>>,
}

/// `after` goes on from `before` with one question at `version` for each account of `ids`, and with
/// nothing else.
pub open spec fn asked_once(
    before: Seq<(ObjectID, SequenceNumber)>,
    after: Seq<(ObjectID, SequenceNumber)>,
    ids: Set<ObjectID>,
    version: SequenceNumber,
) -> bool {
    let asked = after.skip(before.len() as int);
    &&& before.is_prefix_of(after)
    &&& asked.no_duplicates()
    &&& forall|i: int|
        0 <= i < asked.len() ==> ids.contains((#[trigger] asked[i]).0) && asked[i].1 == version
    &&& forall|id: ObjectID| #[trigger] ids.contains(id) ==> asked.contains((id, version))
}

/// The accounts that were asked for since the record was `before`, in order.
pub open spec fn newly_asked(
    before: Seq<(ObjectID, SequenceNumber)>,
    after: Seq<(ObjectID, SequenceNumber)>,
) -> Seq<ObjectID> {
    after.skip(before.len() as int).map_values(|read: (ObjectID, SequenceNumber)| read.0)
}

/// The record once an account is loaded: it is asked for only where it is not tracked.
pub open spec fn reads_after_load(
    reads: Seq<(ObjectID, SequenceNumber)>,
    id: ObjectID,
    tracked_ids: Set<ObjectID>,
    version: SequenceNumber,
) -> Seq<(ObjectID, SequenceNumber)> {
    if tracked_ids.contains(id) {
        reads
    } else {
        reads.push((id, version))
    }
}

/// Where nothing is asked, nothing had to be.
pub proof fn lemma_asked_nothing(
    reads: Seq<(ObjectID, SequenceNumber)>,
    version: SequenceNumber,
)
    ensures
        asked_once(reads, reads, Set::empty(), version),
        newly_asked(reads, reads) == Seq::<ObjectID>::empty(),
{
    assert(reads.skip(reads.len() as int) =~= Seq::empty());
    assert(newly_asked(reads, reads) =~= Seq::empty());
}

/// One more question for one more account.
pub proof fn lemma_asked_one_more(
    before: Seq<(ObjectID, SequenceNumber)>,
    after: Seq<(ObjectID, SequenceNumber)>,
    ids: Set<ObjectID>,
    version: SequenceNumber,
    id: ObjectID,
)
    requires
        asked_once(before, after, ids, version),
        !ids.contains(id),
    ensures
        asked_once(before, after.push((id, version)), ids.insert(id), version),
        newly_asked(before, after.push((id, version))) == newly_asked(before, after).push(id),
{
    let asked = after.skip(before.len() as int);
    let more = after.push((id, version)).skip(before.len() as int);
    assert(more =~= asked.push((id, version)));
    assert(more[asked.len() as int] == (id, version));
    assert(newly_asked(before, after.push((id, version))) =~= newly_asked(before, after).push(id));
    assert forall|other: ObjectID| #[trigger] ids.insert(id).contains(other) implies more.contains(
        (other, version),
    ) by {
        if other != id {
            let i = choose|i: int| 0 <= i < asked.len() && asked[i] == (other, version);
            assert(more[i] == (other, version));
        }
    }
}

impl<B> BalanceReader<B> {
    /// Where the balances come from.
    pub closed spec fn source(&self) -> B {
        *self.source
    }

    /// The accounts that were asked for, each with the version, in order.
    pub closed spec fn reads(&self) -> Seq<(ObjectID, SequenceNumber)> {
        self.reads@
    }
}

impl<B: AccountBalanceRead> BalanceReader<B> {
    pub fn new(source: Arc<B>) -> (reader: BalanceReader<B>)
        ensures
            reader.source() == *source,
            reader.reads() == Seq::<(ObjectID, SequenceNumber)>::empty(),
    {
        BalanceReader { source, reads: Ghost(Seq::empty()) }
    }

    /// The balance of an account at a version, as the source gives it.
    pub fn read(&mut self, account_id: &ObjectID, version: SequenceNumber) -> (balance: u64)
        ensures
            call_ensures(
                B::get_account_balance,
                (&old(self).source(), account_id, version),
                balance,
            ),
            final(self).source() == old(self).source(),
            final(self).reads() == old(self).reads().push((*account_id, version)),
    {
        proof {
            self.reads@ = self.reads@.push((*account_id, version));
        }
        self.source.get_account_balance(account_id, version)
    }
}

} // verus!
