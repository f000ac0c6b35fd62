//! The comment system: the store together with the write-behind hand-off
//! queue. A submission is applied to the store and enqueued for the log in
//! one step, so that log order matches store order; a single background
//! worker drains the queue and appends each write to the log. Recovery
//! replays a log image into a fresh system before any request is served.

use vstd::prelude::*;
use crate::comment::{Comment, CommentView, PostComment, PostCommentView};
use crate::codec::spec_replay;
use crate::log::Log;
use crate::store::{apply_write, apply_writes, Store};

verus! {

/// The store plus the queue of accepted writes not yet handed to the log.
pub struct CommentSystem {
    store: Store,
    pending: Vec<PostComment>,
}

impl CommentSystem {
    /// The system's internal invariant.
    pub closed spec fn wf(&self) -> bool {
        self.store.wf()
    }

    /// The abstract store state: page name to ordered comment sequence.
    pub closed spec fn store_state(&self) -> Map<Seq<char>, Seq<CommentView>> {
        self.store@
    }

    /// The accepted writes awaiting a log append, oldest first.
    pub closed spec fn pending_writes(&self) -> Seq<PostCommentView> {
        self.pending.deep_view()
    }

    /// A fresh, empty system.
    pub fn new() -> (r: CommentSystem)
        ensures
            r.wf(),
            r.store_state() == Map::<Seq<char>, Seq<CommentView>>::empty(),
            r.pending_writes() == Seq::<PostCommentView>::empty(),
    {
        let r = CommentSystem { store: Store::new(), pending: Vec::new() };
        proof {
            assert(r.pending.deep_view() =~= Seq::<PostCommentView>::empty());
        }
        r
    }

    /// Accepts one comment for one page: appends it to the page's sequence in
    /// the store and enqueues the same write for the log, in one step.
    /// Acceptance never fails and never waits on the disk.
    pub fn submit(&mut self, page: String, comment: Comment)
        requires
            old(self).wf(),
        ensures
            final(self).wf(),
            final(self).store_state() == apply_write(
                old(self).store_state(),
                PostCommentView { page: page@, comment: comment@ },
            ),
            final(self).pending_writes() == old(self).pending_writes().push(
                PostCommentView { page: page@, comment: comment@ },
            ),
    {
        let w = PostComment { page, comment };
        let dup = w.clone();
        let ghost prev = self.pending.deep_view();
        self.store.insert(w);
        self.pending.push(dup);
        proof {
            assert(self.pending.deep_view() =~= prev.push(dup@));
        }
    }

    /// The full current sequence for `page`, or nothing if the page has never
    /// received a comment.
    pub fn query<'a>(&'a self, page: &String) -> (r: Option<&'a Vec<Comment>>)
        requires
            self.wf(),
        ensures
            match r {
                Some(v) => self.store_state().contains_key(page@) && v.deep_view()
                    == self.store_state()[page@],
                None => !self.store_state().contains_key(page@),
            },
    {
        self.store.get(page)
    }

    /// Hands the queued writes to the background worker, oldest first, and
    /// empties the queue. The store is untouched.
    pub fn take_pending(&mut self) -> (r: Vec<PostComment>)
        requires
            old(self).wf(),
        ensures
            final(self).wf(),
            r.deep_view() == old(self).pending_writes(),
            final(self).pending_writes() == Seq::<PostCommentView>::empty(),
            final(self).store_state() == old(self).store_state(),
    {
        let mut drained: Vec<PostComment> = Vec::new();
        core::mem::swap(&mut drained, &mut self.pending);
        proof {
            assert(self.pending.deep_view() =~= Seq::<PostCommentView>::empty());
        }
        drained
    }

    /// Rebuilds a system from a log image: replays the log and applies every
    /// recovered write, in on-disk order, to a fresh store. Runs before any
    /// request is served; nothing is re-enqueued for the log.
    pub fn recover(log: &Log) -> (r: CommentSystem)
        ensures
            r.wf(),
            r.store_state() == apply_writes(
                Map::<Seq<char>, Seq<CommentView>>::empty(),
                spec_replay(log@),
            ),
            r.pending_writes() == Seq::<PostCommentView>::empty(),
    {
        let mut system = CommentSystem::new();
        let writes = log.replay();
        system.store.bulk_insert(&writes);
        system
    }
}

} // verus!
