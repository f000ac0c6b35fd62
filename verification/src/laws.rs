//! Laws of the store as a whole: what a query returns after any sequence of
//! submissions, and that recovery is deterministic.

use vstd::prelude::*;
use crate::codec::{lemma_log_round_trip, log_fits, spec_encode_log, spec_replay};
use crate::comment::{CommentView, PostCommentView};
use crate::store::{apply_write, apply_writes};

verus! {

/// The comments submitted to page `p` among the writes `ws`, in submission
/// order.
pub open spec fn comments_of(ws: Seq<PostCommentView>, p: Seq<char>) -> Seq<CommentView>
    decreases ws.len(),
{
    if ws.len() == 0 {
        Seq::empty()
    } else {
        comments_of(ws.drop_last(), p) + if ws.last().page == p {
            seq![ws.last().comment]
        } else {
            Seq::empty()
        }
    }
}

/// After any sequence of submissions applied to an empty store, a page is
/// present exactly when a comment was submitted to it, and it then holds
/// exactly the comments submitted to it, in submission order, however many
/// other pages were interleaved.
pub proof fn lemma_query_returns_submissions(ws: Seq<PostCommentView>, p: Seq<char>)
    ensures
        apply_writes(Map::<Seq<char>, Seq<CommentView>>::empty(), ws).contains_key(p)
            <==> comments_of(ws, p).len() > 0,
        apply_writes(Map::<Seq<char>, Seq<CommentView>>::empty(), ws).contains_key(p)
            ==> apply_writes(Map::<Seq<char>, Seq<CommentView>>::empty(), ws)[p] == comments_of(
            ws,
            p,
        ),
    decreases ws.len(),
{
    let empty = Map::<Seq<char>, Seq<CommentView>>::empty();
    if ws.len() > 0 {
        let prev = apply_writes(empty, ws.drop_last());
        lemma_query_returns_submissions(ws.drop_last(), p);
        let w = ws.last();
        if w.page == p {
            if prev.contains_key(p) {
                assert(apply_writes(empty, ws)[p] =~= comments_of(ws, p));
            } else {
                assert(comments_of(ws.drop_last(), p) =~= Seq::<CommentView>::empty());
                assert(apply_writes(empty, ws)[p] =~= comments_of(ws, p));
            }
        } else {
            assert(comments_of(ws, p) =~= comments_of(ws.drop_last(), p));
        }
    }
}

/// A page to which nothing was ever submitted is not found.
pub proof fn lemma_unsubmitted_page_not_found(ws: Seq<PostCommentView>, p: Seq<char>)
    requires
        forall|i: int| 0 <= i < ws.len() ==> (#[trigger] ws[i]).page != p,
    ensures
        !apply_writes(Map::<Seq<char>, Seq<CommentView>>::empty(), ws).contains_key(p),
    decreases ws.len(),
{
    if ws.len() > 0 {
        assert(ws[ws.len() - 1].page != p);
        lemma_unsubmitted_page_not_found(ws.drop_last(), p);
    }
}

/// Each accepted submission appears exactly once: whatever interleaving of
/// submissions `ws` preceded it, one more write extends exactly its own
/// page's sequence by exactly its own comment at the end, and leaves every
/// other page untouched. The relative order across interleaved callers is
/// whatever order they were accepted in.
pub proof fn lemma_submission_appears_exactly_once(
    m: Map<Seq<char>, Seq<CommentView>>,
    ws: Seq<PostCommentView>,
    w: PostCommentView,
)
    ensures
        apply_writes(m, ws.push(w)) == apply_write(apply_writes(m, ws), w),
        apply_writes(m, ws.push(w))[w.page] == (if apply_writes(m, ws).contains_key(w.page) {
            apply_writes(m, ws)[w.page]
        } else {
            Seq::<CommentView>::empty()
        }).push(w.comment),
        forall|q: Seq<char>|
            q != w.page ==> (apply_writes(m, ws.push(w)).contains_key(q) <==> apply_writes(
                m,
                ws,
            ).contains_key(q)),
        forall|q: Seq<char>|
            q != w.page && apply_writes(m, ws).contains_key(q) ==> apply_writes(m, ws.push(w))[q]
                == apply_writes(m, ws)[q],
{
    assert(ws.push(w).drop_last() =~= ws);
    assert(ws.push(w).last() == w);
}

/// Round trip at the store level: the store rebuilt by replaying a log that
/// holds exactly the encodings of a sequence of writes equals the store built
/// by applying the writes directly, in the same order.
pub proof fn lemma_round_trip_rebuilds_store(ws: Seq<PostCommentView>)
    requires
        log_fits(ws),
    ensures
        apply_writes(Map::<Seq<char>, Seq<CommentView>>::empty(), spec_replay(spec_encode_log(ws)))
            == apply_writes(Map::<Seq<char>, Seq<CommentView>>::empty(), ws),
{
    lemma_log_round_trip(ws);
}

/// Idempotent restart: two recoveries of the same intact log bytes produce
/// identical store contents.
pub proof fn lemma_restart_idempotent(
    b: Seq<u8>,
    m1: Map<Seq<char>, Seq<CommentView>>,
    m2: Map<Seq<char>, Seq<CommentView>>,
)
    requires
        m1 == apply_writes(Map::<Seq<char>, Seq<CommentView>>::empty(), spec_replay(b)),
        m2 == apply_writes(Map::<Seq<char>, Seq<CommentView>>::empty(), spec_replay(b)),
    ensures
        m1 == m2,
{
}

} // verus!
