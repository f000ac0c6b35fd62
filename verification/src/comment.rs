//! The data model: a comment and the durable write unit pairing a comment
//! with the page it is posted to.

use vstd::prelude::*;

verus! {

/// One user-submitted entry attached to a page: author, time, text.
/// Immutable once created; duplicates are permitted and preserved.
pub struct Comment {
    pub username: String,
    pub timestamp: i64,
    pub body: String,
}

/// Mathematical image of a `Comment`.
#[verifier::ext_equal]
pub struct CommentView {
    pub username: Seq<char>,
    pub timestamp: int,
    pub body: Seq<char>,
}

impl View for Comment {
    type V = CommentView;

    open spec fn view(&self) -> CommentView {
        CommentView {
            username: self.username@,
            timestamp: self.timestamp as int,
            body: self.body@,
        }
    }
}

impl DeepView for Comment {
    type V = CommentView;

    open spec fn deep_view(&self) -> CommentView {
        self@
    }
}

impl Clone for Comment {
    fn clone(&self) -> (r: Self)
        ensures
            r@ == self@,
    {
        Comment {
            username: self.username.clone(),
            timestamp: self.timestamp,
            body: self.body.clone(),
        }
    }
}

/// The durable write unit: a page name and the comment to append to it.
/// This is the exact payload carried from request to disk.
pub struct PostComment {
    pub page: String,
    pub comment: Comment,
}

/// Mathematical image of a `PostComment`.
#[verifier::ext_equal]
pub struct PostCommentView {
    pub page: Seq<char>,
    pub comment: CommentView,
}

impl View for PostComment {
    type V = PostCommentView;

    open spec fn view(&self) -> PostCommentView {
        PostCommentView { page: self.page@, comment: self.comment@ }
    }
}

impl DeepView for PostComment {
    type V = PostCommentView;

    open spec fn deep_view(&self) -> PostCommentView {
        self@
    }
}

impl Clone for PostComment {
    fn clone(&self) -> (r: Self)
        ensures
            r@ == self@,
    {
        PostComment { page: self.page.clone(), comment: self.comment.clone() }
    }
}

} // verus!
