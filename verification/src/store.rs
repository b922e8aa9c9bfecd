//! The bounded history, held in memory: records in the order in which they were
//! inserted, each identifier once.

use vstd::prelude::*;
use std::collections::VecDeque;
use crate::message::{MessageView, SyslogMessage};

verus! {

/// Whether one of `records` carries the identifier `id`.
pub open spec fn has_id(records: Seq<MessageView>, id: Seq<char>) -> bool {
    exists|i: int| 0 <= i < records.len() && (#[trigger] records[i]).id == id
}

/// Whether no two of `records` carry the same identifier.
pub open spec fn distinct_ids(records: Seq<MessageView>) -> bool {
    forall|i: int, j: int|
        0 <= i < j < records.len() ==> (#[trigger] records[i]).id != (#[trigger] records[j]).id
}

/// The store after an attempt to insert `msg`: a record whose identifier is
/// taken already is not inserted.
pub open spec fn inserted(records: Seq<MessageView>, msg: MessageView) -> Seq<MessageView> {
    if has_id(records, msg.id) {
        records
    } else {
        records.push(msg)
    }
}

/// The store after its oldest `n` records were deleted, or all of them where
/// it held fewer.
pub open spec fn without_oldest(records: Seq<MessageView>, n: nat) -> Seq<MessageView> {
    if n >= records.len() {
        Seq::empty()
    } else {
        records.skip(n as int)
    }
}

/// The history of records.
pub struct BoundedStore {
    /// Oldest first.
    records: VecDeque<SyslogMessage>,
}

impl View for BoundedStore {
    type V = Seq<MessageView>;

    closed spec fn view(&self) -> Seq<MessageView> {
        Seq::new(self.records@.len(), |i: int| self.records@[i]@)
    }
}

impl BoundedStore {
    /// Whether the store is in order: no identifier occurs twice. It is when it
    /// is made, and every operation keeps it so.
    pub open spec fn wf(&self) -> bool {
        distinct_ids(self@)
    }

    /// An empty store.
    pub fn new() -> (s: Self)
        ensures
            s.wf(),
            s@ == Seq::<MessageView>::empty(),
    {
        let s = BoundedStore { records: VecDeque::new() };
        assert(s@ =~= Seq::<MessageView>::empty());
        s
    }

    /// Whether a record with this identifier is stored.
    pub fn contains(&self, id: &str) -> (b: bool)
        ensures
            b == has_id(self@, id@),
    {
        let wanted = id.to_owned();
        let mut i: usize = 0;
        while i < self.records.len()
            invariant
                i <= self.records.len(),
                wanted@ == id@,
                forall|k: int| 0 <= k < i ==> (#[trigger] self@[k]).id != id@,
            decreases self.records.len() - i,
        {
            if self.records[i].id == wanted {
                assert(self@[i as int].id == id@);
                return true;
            }
            i = i + 1;
        }
        false
    }

    /// Inserts a record as the newest, unless its identifier is taken. Tells
    /// whether it was inserted.
    pub fn insert(&mut self, msg: SyslogMessage) -> (done: bool)
        requires
            old(self).wf(),
        ensures
            final(self).wf(),
            done == !has_id(old(self)@, msg@.id),
            final(self)@ == inserted(old(self)@, msg@),
    {
        if self.contains(msg.id.as_str()) {
            return false;
        }
        let ghost m = msg@;
        self.records.push_back(msg);
        assert(self@ =~= old(self)@.push(m));
        true
    }

    /// How many records are stored.
    pub fn count(&self) -> (n: usize)
        ensures
            n == self@.len(),
    {
        self.records.len()
    }

    /// Deletes the oldest `n` records, or all of them where there are fewer.
    /// Tells how many were deleted.
    pub fn delete_oldest(&mut self, n: u64) -> (deleted: usize)
        requires
            old(self).wf(),
        ensures
            final(self).wf(),
            final(self)@ == without_oldest(old(self)@, n as nat),
            deleted == old(self)@.len() - final(self)@.len(),
    {
        let total = self.records.len();
        let mut deleted: usize = 0;
        assert(self@ =~= old(self)@.skip(0));
        while self.records.len() > 0 && (deleted as u64) < n
            invariant
                deleted <= n,
                self@ == old(self)@.skip(deleted as int),
                self@.len() == self.records@.len(),
                self.records@.len() + deleted == total,
                total == old(self)@.len(),
            decreases self.records@.len(),
        {
            let ghost before = self.records@;
            let ghost view_before = self@;
            let _ = self.records.pop_front();
            deleted = deleted + 1;
            assert forall|k: int| 0 <= k < self@.len() implies self@[k] == old(self)@.skip(
                deleted as int,
            )[k] by {
                assert(self.records@[k] == before[k + 1]);
                assert(view_before[k + 1] == before[k + 1]@);
            }
            assert(self@ =~= old(self)@.skip(deleted as int));
        }
        assert(self@ =~= without_oldest(old(self)@, n as nat));
        deleted
    }

    /// Deletes every record.
    pub fn clear(&mut self)
        ensures
            final(self).wf(),
            final(self)@ == Seq::<MessageView>::empty(),
    {
        self.records.clear();
        assert(self@ =~= Seq::<MessageView>::empty());
    }

    /// The record with this identifier, if it is stored.
    pub fn get(&self, id: &str) -> (r: Option<SyslogMessage>)
        ensures
            match r {
                Some(m) => exists|i: int|
                    0 <= i < self@.len() && #[trigger] self@[i] == m@ && m@.id == id@,
                None => !has_id(self@, id@),
            },
    {
        let wanted = id.to_owned();
        let mut i: usize = 0;
        while i < self.records.len()
            invariant
                i <= self.records.len(),
                wanted@ == id@,
                forall|k: int| 0 <= k < i ==> (#[trigger] self@[k]).id != id@,
            decreases self.records.len() - i,
        {
            if self.records[i].id == wanted {
                let m = self.records[i].clone();
                assert(self@[i as int] == m@);
                return Some(m);
            }
            i = i + 1;
        }
        None
    }
}

} // verus!
