//! The in-memory index: a mapping from page name to the ordered sequence of
//! comments posted to it. Lookups and inserts are pure in-memory operations
//! and never fail; callers serialise concurrent access around the whole
//! structure.

use vstd::prelude::*;
use crate::comment::{Comment, CommentView, PostComment, PostCommentView};

verus! {

/// The abstract store state reached from `m` by one write: the comment is
/// appended to its page's sequence, which is created empty first if the page
/// is new.
pub open spec fn apply_write(
    m: Map<Seq<char>, Seq<CommentView>>,
    w: PostCommentView,
) -> Map<Seq<char>, Seq<CommentView>> {
    let prior = if m.contains_key(w.page) {
        m[w.page]
    } else {
        Seq::empty()
    };
    m.insert(w.page, prior.push(w.comment))
}

/// The abstract store state reached from `m` by a sequence of writes applied
/// in order.
pub open spec fn apply_writes(
    m: Map<Seq<char>, Seq<CommentView>>,
    ws: Seq<PostCommentView>,
) -> Map<Seq<char>, Seq<CommentView>>
    decreases ws.len(),
{
    if ws.len() == 0 {
        m
    } else {
        apply_write(apply_writes(m, ws.drop_last()), ws.last())
    }
}

/// The map an entry list denotes: later entries would shadow earlier ones,
/// but a well-formed store has each page at most once.
pub open spec fn entries_map(s: Seq<(String, Vec<Comment>)>) -> Map<Seq<char>, Seq<CommentView>>
    decreases s.len(),
{
    if s.len() == 0 {
        Map::empty()
    } else {
        entries_map(s.drop_last()).insert(s.last().0@, s.last().1.deep_view())
    }
}

/// No page name occurs twice in the entry list.
pub open spec fn distinct_pages(s: Seq<(String, Vec<Comment>)>) -> bool {
    forall|i: int, j: int| 0 <= i < j < s.len() ==> (#[trigger] s[i]).0@ != (#[trigger] s[j]).0@
}

/// A key is in the denoted map exactly when some entry carries it.
pub proof fn lemma_entries_map_contains(s: Seq<(String, Vec<Comment>)>, k: Seq<char>)
    ensures
        entries_map(s).contains_key(k) <==> exists|i: int|
            0 <= i < s.len() && (#[trigger] s[i]).0@ == k,
    decreases s.len(),
{
    if s.len() > 0 {
        lemma_entries_map_contains(s.drop_last(), k);
        if s.last().0@ == k {
            assert(s[s.len() - 1].0@ == k);
        } else {
            if entries_map(s).contains_key(k) {
                let i = choose|i: int| 0 <= i < s.drop_last().len() && (#[trigger] s.drop_last()[i]).0@
                    == k;
                assert(s[i].0@ == k);
            }
            if exists|i: int| 0 <= i < s.len() && (#[trigger] s[i]).0@ == k {
                let i = choose|i: int| 0 <= i < s.len() && (#[trigger] s[i]).0@ == k;
                assert(s.drop_last()[i].0@ == k);
            }
        }
    }
}

/// With distinct pages, the denoted map sends each entry's page to exactly
/// that entry's comments.
pub proof fn lemma_entries_map_index(s: Seq<(String, Vec<Comment>)>, i: int)
    requires
        distinct_pages(s),
        0 <= i < s.len(),
    ensures
        entries_map(s).contains_key(s[i].0@),
        entries_map(s)[s[i].0@] == s[i].1.deep_view(),
    decreases s.len(),
{
    if i == s.len() - 1 {
    } else {
        assert(s.drop_last()[i] == s[i]);
        lemma_entries_map_index(s.drop_last(), i);
        assert(s[i].0@ != s.last().0@);
    }
}

/// The in-memory store: a list of pages, each with its ordered comments.
pub struct Store {
    entries: Vec<(String, Vec<Comment>)>,
}

impl View for Store {
    type V = Map<Seq<char>, Seq<CommentView>>;

    closed spec fn view(&self) -> Map<Seq<char>, Seq<CommentView>> {
        entries_map(self.entries@)
    }
}

impl Store {
    /// The store's internal invariant: each page appears at most once.
    pub closed spec fn wf(&self) -> bool {
        distinct_pages(self.entries@)
    }

    /// An empty store.
    pub fn new() -> (r: Store)
        ensures
            r.wf(),
            r@ == Map::<Seq<char>, Seq<CommentView>>::empty(),
    {
        Store { entries: Vec::new() }
    }

    /// Index of the entry holding `page`, if one exists.
    fn find(&self, page: &String) -> (r: Option<usize>)
        ensures
            match r {
                Some(i) => i < self.entries@.len() && self.entries@[i as int].0@ == page@,
                None => forall|j: int|
                    0 <= j < self.entries@.len() ==> (#[trigger] self.entries@[j]).0@ != page@,
            },
    {
        let n = self.entries.len();
        let mut i: usize = 0;
        while i < n
            invariant
                n == self.entries@.len(),
                i <= n,
                forall|j: int| 0 <= j < i ==> (#[trigger] self.entries@[j]).0@ != page@,
            decreases n - i,
        {
            if self.entries[i].0 == *page {
                return Some(i);
            }
            i = i + 1;
        }
        None
    }

    /// Appends `w.comment` to `w.page`'s sequence, creating the page with a
    /// single-element sequence if it is new. Cannot fail.
    pub fn insert(&mut self, w: PostComment)
        requires
            old(self).wf(),
        ensures
            final(self).wf(),
            final(self)@ == apply_write(old(self)@, w@),
    {
        let ghost s0 = self.entries@;
        match self.find(&w.page) {
            Some(i) => {
                proof {
                    lemma_entries_map_index(s0, i as int);
                }
                let mut pair = self.entries.remove(i);
                pair.1.push(w.comment);
                self.entries.insert(i, pair);
                proof {
                    assert(self.entries@ =~= s0.update(
                        i as int,
                        (self.entries@[i as int].0, self.entries@[i as int].1),
                    ));
                    assert(self.entries@[i as int].0@ == s0[i as int].0@);
                    assert(self.entries@[i as int].1.deep_view() =~= s0[i as int].1.deep_view().push(
                        w.comment@,
                    ));
                    lemma_entries_map_update(s0, self.entries@, i as int, w.comment@);
                }
            },
            None => {
                proof {
                    lemma_entries_map_contains(s0, w.page@);
                }
                let mut comments: Vec<Comment> = Vec::new();
                let ghost page_chars = w.page@;
                comments.push(w.comment);
                self.entries.push((w.page, comments));
                proof {
                    assert(self.entries@.drop_last() =~= s0);
                    assert(self.entries@.last().0@ == page_chars);
                    assert(self.entries@.last().1.deep_view() =~= Seq::<
                        CommentView,
                    >::empty().push(w.comment@));
                    assert(final(self)@ == apply_write(old(self)@, w@));
                }
            },
        }
    }

    /// The full current sequence for `page`, or nothing if the page has never
    /// received a comment. Read-only; cannot fail.
    pub fn get<'a>(&'a self, page: &String) -> (r: Option<&'a Vec<Comment>>)
        requires
            self.wf(),
        ensures
            match r {
                Some(v) => self@.contains_key(page@) && v.deep_view() == self@[page@],
                None => !self@.contains_key(page@),
            },
    {
        proof {
            lemma_entries_map_contains(self.entries@, page@);
        }
        match self.find(page) {
            Some(i) => {
                proof {
                    lemma_entries_map_index(self.entries@, i as int);
                }
                Some(&self.entries[i].1)
            },
            None => None,
        }
    }

    /// Applies each write in order via `insert`; used during recovery, before
    /// concurrent access begins.
    pub fn bulk_insert(&mut self, writes: &Vec<PostComment>)
        requires
            old(self).wf(),
        ensures
            final(self).wf(),
            final(self)@ == apply_writes(old(self)@, writes.deep_view()),
    {
        let ghost ws = writes.deep_view();
        let n = writes.len();
        let mut i: usize = 0;
        proof {
            assert(ws.take(0) =~= Seq::<PostCommentView>::empty());
        }
        while i < n
            invariant
                n == writes@.len(),
                ws == writes.deep_view(),
                i <= n,
                self.wf(),
                self@ == apply_writes(old(self)@, ws.take(i as int)),
            decreases n - i,
        {
            let w = writes[i].clone();
            assert(w@ == ws[i as int]);
            self.insert(w);
            proof {
                assert(ws.take(i + 1).drop_last() =~= ws.take(i as int));
                assert(ws.take(i + 1).last() == ws[i as int]);
            }
            i = i + 1;
        }
        proof {
            assert(ws.take(n as int) =~= ws);
        }
    }
}

/// Replacing entry `i`'s comments with the same comments plus one appended
/// turns the denoted map into `apply_write` of the old map.
proof fn lemma_entries_map_update(
    s: Seq<(String, Vec<Comment>)>,
    t: Seq<(String, Vec<Comment>)>,
    i: int,
    c: CommentView,
)
    requires
        distinct_pages(s),
        0 <= i < s.len(),
        t.len() == s.len(),
        forall|j: int| 0 <= j < s.len() && j != i ==> s[j] == t[j],
        t[i].0@ == s[i].0@,
        t[i].1.deep_view() == s[i].1.deep_view().push(c),
    ensures
        distinct_pages(t),
        entries_map(t) == apply_write(
            entries_map(s),
            PostCommentView { page: s[i].0@, comment: c },
        ),
    decreases s.len(),
{
    assert forall|p: int, q: int| 0 <= p < q < t.len() implies (#[trigger] t[p]).0@ != (
    #[trigger] t[q]).0@ by {
        assert(s[p].0@ != s[q].0@);
        assert(t[p].0@ == s[p].0@ && t[q].0@ == s[q].0@);
    }
    lemma_entries_map_index(s, i);
    let w = PostCommentView { page: s[i].0@, comment: c };
    if i == s.len() - 1 {
        assert(t.drop_last() =~= s.drop_last());
        assert(entries_map(t) == entries_map(s.drop_last()).insert(
            t.last().0@,
            t.last().1.deep_view(),
        ));
        assert(entries_map(t) =~= apply_write(entries_map(s), w));
    } else {
        assert(s.drop_last()[i] == s[i]);
        assert(t.drop_last()[i] == t[i]);
        lemma_entries_map_update(s.drop_last(), t.drop_last(), i, c);
        assert(t.last() == s.last());
        assert(s[i].0@ != s.last().0@);
        lemma_entries_map_contains(s.drop_last(), w.page);
        assert(s.drop_last()[i].0@ == w.page);
        lemma_entries_map_index(s.drop_last(), i);
        assert(entries_map(t) == apply_write(entries_map(s.drop_last()), w).insert(
            s.last().0@,
            s.last().1.deep_view(),
        ));
        assert(entries_map(t) =~= apply_write(entries_map(s), w));
    }
}

} // verus!
