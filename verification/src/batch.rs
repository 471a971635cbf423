//! Running a batch of object operations one by one (deleting, copying or
//! moving several objects): every item is tried in order, a failure never
//! stops the rest, and the items that went through and those that failed
//! (with their errors) are collected for the notice.

use vstd::prelude::*;
use crate::selection::keys_view;
use crate::text::string_from;

verus! {

/// The items whose operation went through, in order.
pub open spec fn done_of(items: Seq<Seq<char>>, oks: Seq<bool>) -> Seq<Seq<char>>
    decreases oks.len(),
{
    if oks.len() == 0 {
        seq![]
    } else if oks.last() {
        done_of(items, oks.drop_last()).push(items[oks.len() - 1])
    } else {
        done_of(items, oks.drop_last())
    }
}

/// The items whose operation failed, in order.
pub open spec fn failed_of(items: Seq<Seq<char>>, oks: Seq<bool>) -> Seq<Seq<char>>
    decreases oks.len(),
{
    if oks.len() == 0 {
        seq![]
    } else if !oks.last() {
        failed_of(items, oks.drop_last()).push(items[oks.len() - 1])
    } else {
        failed_of(items, oks.drop_last())
    }
}

/// The first components of pairs.
pub open spec fn firsts(v: Seq<(String, String)>) -> Seq<Seq<char>> {
    v.map_values(|p: (String, String)| p.0@)
}

/// A batch under way: the items, how far it got, and what went through and
/// what failed so far.
pub struct BatchRun {
    /// The items, in the order they are tried.
    pub items: Vec<String>,
    /// Index of the next item to try.
    pub next: usize,
    /// The items that went through.
    pub done: Vec<String>,
    /// The items that failed, each with its error.
    pub failed: Vec<(String, String)>,
    /// Whether each tried item went through.
    pub outcomes: Ghost<Seq<bool>>,
}

impl BatchRun {
    /// The batch is consistent: one outcome per tried item, and the done
    /// and failed items are exactly the tried ones that went through and
    /// that failed.
    pub open spec fn wf(&self) -> bool {
        &&& self.next <= self.items@.len()
        &&& self.outcomes@.len() == self.next
        &&& keys_view(self.done@) == done_of(keys_view(self.items@), self.outcomes@)
        &&& firsts(self.failed@) == failed_of(keys_view(self.items@), self.outcomes@)
    }

    /// A batch over `items`, nothing tried yet.
    pub fn start(items: Vec<String>) -> (b: BatchRun)
        ensures
            b.wf(),
            b.items@ == items@,
            b.next == 0,
    {
        let ghost none: Seq<bool> = seq![];
        let b = BatchRun { items, next: 0, done: Vec::new(), failed: Vec::new(), outcomes: Ghost(none) };
        assert(keys_view(b.done@) =~= Seq::<Seq<char>>::empty());
        assert(firsts(b.failed@) =~= Seq::<Seq<char>>::empty());
        b
    }

    /// The index of the next item to try; none once every item was tried.
    pub fn next_index(&self) -> (r: Option<usize>)
        requires
            self.wf(),
        ensures
            self.next < self.items@.len() ==> r == Some(self.next),
            self.next >= self.items@.len() ==> r is None,
    {
        if self.next < self.items.len() {
            Some(self.next)
        } else {
            None
        }
    }

    /// Records how the next item's operation went and moves on: a success
    /// adds it to the done items, a failure adds it with its error to the
    /// failed ones; either way the batch goes on with the following item.
    pub fn record(&mut self, result: Result<(), String>)
        requires
            old(self).wf(),
            old(self).next < old(self).items@.len(),
        ensures
            final(self).wf(),
            final(self).items@ == old(self).items@,
            final(self).next == old(self).next + 1,
            final(self).outcomes@ == old(self).outcomes@.push(result is Ok),
            match result {
                Ok(()) => final(self).done@.len() == old(self).done@.len() + 1 && final(self).failed@
                    == old(self).failed@,
                Err(e) => final(self).done@ == old(self).done@ && final(self).failed@.len()
                    == old(self).failed@.len() + 1 && final(self).failed@.last().1@ == e@,
            },
    {
        let ghost iv = keys_view(self.items@);
        let ghost old_oks = self.outcomes@;
        let ghost old_done = self.done@;
        let ghost old_failed = self.failed@;
        let i = self.next;
        let item = string_from(self.items[i].as_str());
        let ok = result.is_ok();
        let ghost new_oks = old_oks.push(ok);
        proof {
            assert(new_oks.drop_last() =~= old_oks);
            assert(new_oks.last() == ok);
            assert(iv[new_oks.len() - 1] == item@);
            if ok {
                assert(done_of(iv, new_oks) == done_of(iv, old_oks).push(item@));
                assert(failed_of(iv, new_oks) == failed_of(iv, old_oks));
            } else {
                assert(done_of(iv, new_oks) == done_of(iv, old_oks));
                assert(failed_of(iv, new_oks) == failed_of(iv, old_oks).push(item@));
            }
        }
        match result {
            Ok(()) => {
                let ghost v = item@;
                self.done.push(item);
                assert(keys_view(self.done@) =~= keys_view(old_done).push(v));
            },
            Err(e) => {
                let ghost v = item@;
                self.failed.push((item, e));
                assert(firsts(self.failed@) =~= firsts(old_failed).push(v));
            },
        }
        self.outcomes = Ghost(new_oks);
        let count = self.items.len();
        assert(i < count);
        self.next = i + 1;
    }
}

/// However the operations go, a finished batch has tried every item: the
/// items that went through and those that failed are all of them, each
/// once.
pub proof fn law_batch_tries_every_item(items: Seq<Seq<char>>, oks: Seq<bool>)
    requires
        oks.len() <= items.len(),
    ensures
        done_of(items, oks).len() + failed_of(items, oks).len() == oks.len(),
    decreases oks.len(),
{
    if oks.len() > 0 {
        law_batch_tries_every_item(items, oks.drop_last());
    }
}

} // verus!
