//! The indexed store: an in-memory collection of rendered documents with
//! three synchronized structures over the same set of documents — the
//! primary association of identifier to shared document, the publish-order
//! index of `(published, identifier)` pairs, and the tag index from tag to
//! the identifiers carrying it. Well-formedness ties the two secondary
//! indices to the primary map exactly; every mutation preserves it.

use vstd::prelude::*;
use std::sync::Arc;

use crate::id::Id;
use crate::post::RenderedPost;
use crate::text::seq_str_lt;
use crate::time::Timestamp;

verus! {

/// Relies on `Arc::deref` (through `&**`): a reference to the shared value.
#[verifier::external_body]
fn arc_get<'a, T>(a: &'a Arc<T>) -> (r: &'a T)
    ensures
        *r == **a,
{
    &**a
}

/// Relies on `Arc::clone`: another handle to the same shared value.
#[verifier::external_body]
fn arc_clone<T>(a: &Arc<T>) -> (r: Arc<T>)
    ensures
        r == *a,
{
    Arc::clone(a)
}

/// One entry of the publish-order index.
struct PublishedIxEntry {
    published: Timestamp,
    id: Id,
}

/// One bucket of the tag index: a tag and the identifiers carrying it.
struct TagBucket {
    tag: String,
    ids: Vec<Id>,
}

/// The order of the publish-order index: by publication instant, ties
/// broken by identifier.
pub open spec fn spec_entry_lt(a: (Timestamp, Seq<char>), b: (Timestamp, Seq<char>)) -> bool {
    a.0.spec_lt(b.0) || (a.0 == b.0 && seq_str_lt(a.1, b.1))
}

/// Does the document carry this tag?
pub open spec fn post_has_tag(p: RenderedPost, tag: Seq<char>) -> bool {
    exists|t: int| 0 <= t < p.header.tags@.len() && p.header.tags@[t]@ == tag
}

/// The identifier sequences of a vector of identifiers.
pub open spec fn id_views(s: Seq<Id>) -> Seq<Seq<char>> {
    s.map_values(|x: Id| x@)
}

/// `s` with every occurrence of `id` dropped, order kept.
pub open spec fn spec_without(s: Seq<Seq<char>>, id: Seq<char>) -> Seq<Seq<char>>
    decreases s.len(),
{
    if s.len() == 0 {
        Seq::empty()
    } else {
        let rest = spec_without(s.drop_last(), id);
        if s.last() != id {
            rest.push(s.last())
        } else {
            rest
        }
    }
}

/// What dropping an identifier leaves: no occurrence of it, everything
/// else kept, distinctness kept.
proof fn lemma_without(s: Seq<Seq<char>>, id: Seq<char>)
    ensures
        forall|k: int| 0 <= k < spec_without(s, id).len() ==> (#[trigger] spec_without(s, id)[k])
            != id,
        forall|k: int|
            0 <= k < spec_without(s, id).len() ==> exists|j: int|
                0 <= j < s.len() && s[j] == (#[trigger] spec_without(s, id)[k]),
        forall|j: int|
            0 <= j < s.len() && (#[trigger] s[j]) != id ==> exists|k: int|
                0 <= k < spec_without(s, id).len() && spec_without(s, id)[k] == s[j],
        (forall|j1: int, j2: int| 0 <= j1 < j2 < s.len() ==> (#[trigger] s[j1]) != (
        #[trigger] s[j2])) ==> (forall|k1: int, k2: int|
            0 <= k1 < k2 < spec_without(s, id).len() ==> (#[trigger] spec_without(s, id)[k1]) != (
            #[trigger] spec_without(s, id)[k2])),
    decreases s.len(),
{
    if s.len() == 0 {
    } else {
        let d = s.drop_last();
        lemma_without(d, id);
        assert(forall|j: int| 0 <= j < d.len() ==> d[j] == s[j]);
        let r = spec_without(s, id);
        let rd = spec_without(d, id);
        assert forall|j: int| 0 <= j < s.len() && (#[trigger] s[j]) != id implies exists|k: int|
            0 <= k < r.len() && r[k] == s[j] by {
            if j < d.len() {
                assert(d[j] == s[j] && d[j] != id);
                let k = choose|k: int| 0 <= k < rd.len() && rd[k] == d[j];
                assert(r[k] == s[j]);
            } else {
                assert(s[j] == s.last());
                assert(r[r.len() - 1] == s[j]);
            }
        }
        if forall|j1: int, j2: int| 0 <= j1 < j2 < s.len() ==> (#[trigger] s[j1]) != (
        #[trigger] s[j2]) {
            assert(forall|j1: int, j2: int|
                0 <= j1 < j2 < d.len() ==> (#[trigger] d[j1]) != (#[trigger] d[j2]));
            if s.last() != id {
                assert forall|k1: int, k2: int| 0 <= k1 < k2 < r.len() implies (
                #[trigger] r[k1]) != (#[trigger] r[k2]) by {
                    if k2 == r.len() - 1 {
                        assert(r[k2] == s.last());
                        assert(r[k1] == rd[k1]);
                        let j = choose|j: int| 0 <= j < d.len() && d[j] == rd[k1];
                        assert(s[j] != s[s.len() - 1]);
                    } else {
                        assert(r[k1] == rd[k1] && r[k2] == rd[k2]);
                    }
                }
            }
        }
    }
}

/// Two entries with distinct identifiers are ordered one way or the other,
/// never both.
proof fn lemma_entry_trichotomy(a: (Timestamp, Seq<char>), b: (Timestamp, Seq<char>))
    requires
        a.1 != b.1,
    ensures
        spec_entry_lt(a, b) || spec_entry_lt(b, a),
        !(spec_entry_lt(a, b) && spec_entry_lt(b, a)),
{
    crate::text::lemma_seq_str_lt_trichotomy(a.1, b.1);
    if !seq_str_lt(a.1, b.1) && !seq_str_lt(b.1, a.1) {
        assert(a.1 =~= b.1);
    }
}

/// The entry order is transitive.
proof fn lemma_entry_trans(a: (Timestamp, Seq<char>), b: (Timestamp, Seq<char>), c: (
    Timestamp,
    Seq<char>,
))
    requires
        spec_entry_lt(a, b),
        spec_entry_lt(b, c),
    ensures
        spec_entry_lt(a, c),
{
    if a.0 == b.0 && b.0 == c.0 {
        crate::text::lemma_seq_str_lt_trans(a.1, b.1, c.1);
    }
}

/// A copy of a vector of strings.
fn clone_strings(v: &Vec<String>) -> (r: Vec<String>)
    ensures
        r@ == v@,
{
    let n: usize = v.len();
    let mut r: Vec<String> = Vec::new();
    let mut i: usize = 0;
    while i < n
        invariant
            i <= n,
            n == v@.len(),
            r@ =~= v@.subrange(0, i as int),
        decreases n - i,
    {
        r.push(v[i].clone());
        i = i + 1;
        assert(r@ =~= v@.subrange(0, i as int));
    }
    assert(r@ =~= v@);
    r
}

/// A copy of `ids` with every occurrence of `id` dropped.
fn ids_without(ids: &Vec<Id>, id: &str) -> (r: Vec<Id>)
    ensures
        id_views(r@) == spec_without(id_views(ids@), id@),
{
    let n: usize = ids.len();
    let mut r: Vec<Id> = Vec::new();
    let mut j: usize = 0;
    proof {
        assert(id_views(ids@.subrange(0, 0)) =~= Seq::<Seq<char>>::empty());
        assert(id_views(r@) =~= spec_without(id_views(ids@.subrange(0, 0)), id@));
    }
    while j < n
        invariant
            j <= n,
            n == ids@.len(),
            id_views(r@) == spec_without(id_views(ids@.subrange(0, j as int)), id@),
        decreases n - j,
    {
        let ghost pre = id_views(r@);
        let keep: bool = !ids[j].eq_str(id);
        if keep {
            r.push(ids[j].clone());
        }
        proof {
            let s_new = id_views(ids@.subrange(0, j + 1));
            assert(s_new.drop_last() =~= id_views(ids@.subrange(0, j as int)));
            assert(s_new.last() == ids@[j as int]@);
            if keep {
                assert(id_views(r@) =~= pre.push(ids@[j as int]@));
                assert(spec_without(s_new, id@) == spec_without(s_new.drop_last(), id@).push(
                    s_new.last(),
                ));
                assert(id_views(r@) =~= spec_without(s_new, id@));
            } else {
                assert(spec_without(s_new, id@) == spec_without(s_new.drop_last(), id@));
            }
        }
        j = j + 1;
    }
    proof {
        assert(ids@.subrange(0, n as int) =~= ids@);
    }
    r
}

/// How one insertion changes the store: afterwards the store is
/// well-formed; it holds exactly the old identifiers plus the document's;
/// the document stands under its identifier and every other document is
/// untouched; the size grows by one exactly when the identifier was new;
/// and a tag bucket holds an identifier exactly when it did before (for
/// other identifiers) or when the new document carries the tag (for the
/// inserted identifier) — the previous document's tags are gone.
pub open spec fn spec_inserted(pre: PostsStore, post: RenderedPost, cur: PostsStore) -> bool {
    &&& cur.wf()
    &&& forall|x: Seq<char>|
        #[trigger] cur.spec_contains(x) <==> (pre.spec_contains(x) || x == post.id@)
    &&& cur.spec_at(post.id@) == post
    &&& forall|x: Seq<char>|
        x != post.id@ && pre.spec_contains(x) ==> #[trigger] cur.spec_at(x) == pre.spec_at(x)
    &&& cur.spec_len() == pre.spec_len() + (if pre.spec_contains(post.id@) {
        0int
    } else {
        1int
    })
    &&& forall|t: Seq<char>, x: Seq<char>|
        #[trigger] cur.tag_has(t, x) <==> ((pre.tag_has(t, x) && x != post.id@) || (x == post.id@
            && post_has_tag(post, t)))
}

/// The position of the bucket carrying this tag, if there is one.
fn find_bucket(tags_ix: &Vec<TagBucket>, tag: &String) -> (r: Option<usize>)
    ensures
        match r {
            Some(b) => b < tags_ix@.len() && tags_ix@[b as int].tag@ == tag@,
            None => forall|b: int| 0 <= b < tags_ix@.len() ==> (#[trigger] tags_ix@[b].tag@)
                != tag@,
        },
{
    let n: usize = tags_ix.len();
    let mut b: usize = 0;
    while b < n
        invariant
            b <= n,
            n == tags_ix@.len(),
            forall|c: int| 0 <= c < b ==> (#[trigger] tags_ix@[c].tag@) != tag@,
        decreases n - b,
    {
        if tags_ix[b].tag.eq(tag) {
            return Some(b);
        }
        b = b + 1;
    }
    None
}

/// Does the identifier occur in this member list?
fn ids_contain(ids: &Vec<Id>, id: &Id) -> (r: bool)
    ensures
        r == exists|j: int| 0 <= j < ids@.len() && (#[trigger] ids@[j]@) == id@,
{
    let n: usize = ids.len();
    let mut j: usize = 0;
    while j < n
        invariant
            j <= n,
            n == ids@.len(),
            forall|c: int| 0 <= c < j ==> (#[trigger] ids@[c]@) != id@,
        decreases n - j,
    {
        if ids[j].eq_id(id) {
            return true;
        }
        j = j + 1;
    }
    false
}

/// The in-memory store of rendered documents.
pub struct PostsStore {
    posts: Vec<Arc<RenderedPost>>,
    published_ix: Vec<PublishedIxEntry>,
    tags_ix: Vec<TagBucket>,
}

impl PostsStore {
    /// Does the store hold a document under this identifier?
    pub closed spec fn spec_contains(&self, id: Seq<char>) -> bool {
        exists|i: int| 0 <= i < self.posts@.len() && self.posts@[i].id@ == id
    }

    /// The position of the document under this identifier.
    closed spec fn spec_index_of(&self, id: Seq<char>) -> int {
        choose|i: int| 0 <= i < self.posts@.len() && self.posts@[i].id@ == id
    }

    /// The document under this identifier (meaningful when present).
    pub closed spec fn spec_at(&self, id: Seq<char>) -> RenderedPost {
        *self.posts@[self.spec_index_of(id)]
    }

    /// How many documents the store holds.
    pub closed spec fn spec_len(&self) -> nat {
        self.posts@.len()
    }

    /// The publish-order index, as `(published, identifier)` pairs.
    pub closed spec fn published_seq(&self) -> Seq<(Timestamp, Seq<char>)> {
        self.published_ix@.map_values(|e: PublishedIxEntry| (e.published, e.id@))
    }

    /// Does the tag index hold this identifier under this tag?
    pub closed spec fn tag_has(&self, tag: Seq<char>, id: Seq<char>) -> bool {
        exists|b: int, j: int|
            0 <= b < self.tags_ix@.len() && 0 <= j < self.tags_ix@[b].ids@.len()
                && self.tags_ix@[b].tag@ == tag && self.tags_ix@[b].ids@[j]@ == id
    }

    /// The primary map's documents have pairwise distinct identifiers and
    /// valid instants.
    closed spec fn posts_wf(&self) -> bool {
        &&& forall|i: int, j: int|
            0 <= i < j < self.posts@.len() ==> (#[trigger] self.posts@[i].id@) != (
            #[trigger] self.posts@[j].id@)
        &&& forall|i: int| 0 <= i < self.posts@.len() ==> (#[trigger] self.posts@[i].wf())
    }

    /// The publish-order index is strictly sorted and stands in exact
    /// correspondence with the primary map.
    closed spec fn published_wf(&self) -> bool {
        &&& forall|k1: int, k2: int|
            0 <= k1 < k2 < self.published_ix@.len() ==> spec_entry_lt(
                (
                    (#[trigger] self.published_ix@[k1]).published,
                    self.published_ix@[k1].id@,
                ),
                ((#[trigger] self.published_ix@[k2]).published, self.published_ix@[k2].id@),
            )
        &&& forall|k: int|
            0 <= k < self.published_ix@.len() ==> {
                &&& self.spec_contains((#[trigger] self.published_ix@[k]).id@)
                &&& self.spec_at(self.published_ix@[k].id@).header.published
                    == self.published_ix@[k].published
            }
        &&& forall|i: int|
            0 <= i < self.posts@.len() ==> exists|k: int|
                0 <= k < self.published_ix@.len() && (#[trigger] self.published_ix@[k]).id@ == (
                #[trigger] self.posts@[i].id@)
    }

    /// The tag index's buckets have distinct tags and distinct members,
    /// and stand in exact correspondence with the documents' tags.
    closed spec fn tags_wf(&self) -> bool {
        &&& forall|b1: int, b2: int|
            0 <= b1 < b2 < self.tags_ix@.len() ==> (#[trigger] self.tags_ix@[b1].tag@) != (
            #[trigger] self.tags_ix@[b2].tag@)
        &&& forall|b: int, j1: int, j2: int|
            0 <= b < self.tags_ix@.len() && 0 <= j1 < j2 < self.tags_ix@[b].ids@.len() ==> (
            #[trigger] self.tags_ix@[b].ids@[j1]@) != (#[trigger] self.tags_ix@[b].ids@[j2]@)
        &&& forall|b: int, j: int|
            0 <= b < self.tags_ix@.len() && 0 <= j < self.tags_ix@[b].ids@.len() ==> {
                &&& self.spec_contains((#[trigger] self.tags_ix@[b].ids@[j])@)
                &&& post_has_tag(self.spec_at(self.tags_ix@[b].ids@[j]@), self.tags_ix@[b].tag@)
            }
        &&& forall|i: int, t: int|
            0 <= i < self.posts@.len() && 0 <= t < (#[trigger] self.posts@[i]).header.tags@.len()
                ==> self.tag_has(
                (#[trigger] self.posts@[i].header.tags@[t])@,
                self.posts@[i].id@,
            )
    }

    /// The store's invariant: the three structures always agree.
    pub closed spec fn wf(&self) -> bool {
        &&& self.posts_wf()
        &&& self.published_wf()
        &&& self.tags_wf()
    }

    /// The document at a known position is the one its identifier maps to.
    proof fn lemma_at_index(&self, i: int)
        requires
            self.posts_wf(),
            0 <= i < self.posts@.len(),
        ensures
            self.spec_contains(self.posts@[i].id@),
            self.spec_index_of(self.posts@[i].id@) == i,
            self.spec_at(self.posts@[i].id@) == *self.posts@[i],
    {
        let id = self.posts@[i].id@;
        assert(self.spec_contains(id));
        let w = self.spec_index_of(id);
        assert(0 <= w < self.posts@.len() && self.posts@[w].id@ == id);
        if w != i {
            if w < i {
                assert(self.posts@[w].id@ != self.posts@[i].id@);
            } else {
                assert(self.posts@[i].id@ != self.posts@[w].id@);
            }
        }
    }

    /// An empty store.
    pub fn new() -> (s: Self)
        ensures
            s.wf(),
            s.spec_len() == 0,
            forall|x: Seq<char>| !s.spec_contains(x),
            s.published_seq() == Seq::<(Timestamp, Seq<char>)>::empty(),
            forall|t: Seq<char>, x: Seq<char>| !s.tag_has(t, x),
    {
        let s = PostsStore { posts: Vec::new(), published_ix: Vec::new(), tags_ix: Vec::new() };
        proof {
            assert(s.published_seq() =~= Seq::<(Timestamp, Seq<char>)>::empty());
        }
        s
    }

    /// The position of the document under `id` in the primary vector.
    fn find_index(&self, id: &str) -> (r: Option<usize>)
        requires
            self.wf(),
        ensures
            match r {
                Some(i) => i < self.posts@.len() && self.posts@[i as int].id@ == id@,
                None => !self.spec_contains(id@),
            },
    {
        let n: usize = self.posts.len();
        let mut i: usize = 0;
        while i < n
            invariant
                i <= n,
                n == self.posts@.len(),
                forall|j: int| 0 <= j < i ==> (#[trigger] self.posts@[j].id@) != id@,
            decreases n - i,
        {
            if arc_get(&self.posts[i]).id.eq_str(id) {
                return Some(i);
            }
            i = i + 1;
        }
        None
    }

    /// The document under this identifier, if the store holds one.
    pub fn get(&self, id: &str) -> (r: Option<Arc<RenderedPost>>)
        requires
            self.wf(),
        ensures
            match r {
                Some(p) => self.spec_contains(id@) && *p == self.spec_at(id@),
                None => !self.spec_contains(id@),
            },
    {
        match self.find_index(id) {
            Some(i) => {
                proof {
                    self.lemma_at_index(i as int);
                }
                Some(arc_clone(&self.posts[i]))
            },
            None => None,
        }
    }

    /// Empty all three structures.
    pub fn clear(&mut self)
        ensures
            final(self).wf(),
            final(self).spec_len() == 0,
            forall|x: Seq<char>| !final(self).spec_contains(x),
            final(self).published_seq() == Seq::<(Timestamp, Seq<char>)>::empty(),
            forall|t: Seq<char>, x: Seq<char>| !final(self).tag_has(t, x),
    {
        self.tags_ix.clear();
        self.published_ix.clear();
        self.posts.clear();
        proof {
            assert(final(self).published_seq() =~= Seq::<(Timestamp, Seq<char>)>::empty());
        }
    }

    /// The identifiers in the publish-order index are pairwise distinct.
    proof fn lemma_published_ids_distinct(&self)
        requires
            self.wf(),
        ensures
            forall|k1: int, k2: int|
                0 <= k1 < k2 < self.published_ix@.len() ==> (
                #[trigger] self.published_ix@[k1].id@) != (#[trigger] self.published_ix@[k2].id@),
    {
        assert forall|k1: int, k2: int|
            0 <= k1 < k2 < self.published_ix@.len() implies (
        #[trigger] self.published_ix@[k1].id@) != (#[trigger] self.published_ix@[k2].id@) by {
            if self.published_ix@[k1].id@ == self.published_ix@[k2].id@ {
                assert(self.published_ix@[k1].published == self.published_ix@[k2].published);
                crate::text::lemma_seq_str_lt_trichotomy(
                    self.published_ix@[k1].id@,
                    self.published_ix@[k2].id@,
                );
            }
        }
    }

    /// The position of the publish-order entry for a held identifier.
    fn find_published_index(&self, id: &str) -> (r: usize)
        requires
            self.wf(),
            self.spec_contains(id@),
        ensures
            r < self.published_ix@.len(),
            self.published_ix@[r as int].id@ == id@,
    {
        let n: usize = self.published_ix.len();
        let mut k: usize = 0;
        while k < n
            invariant
                k <= n,
                n == self.published_ix@.len(),
                forall|j: int| 0 <= j < k ==> (#[trigger] self.published_ix@[j].id@) != id@,
            decreases n - k,
        {
            if self.published_ix[k].id.eq_str(id) {
                return k;
            }
            k = k + 1;
        }
        proof {
            let i = self.spec_index_of(id@);
            assert(0 <= i < self.posts@.len() && self.posts@[i].id@ == id@);
            assert(exists|j: int|
                0 <= j < self.published_ix@.len() && (#[trigger] self.published_ix@[j]).id@
                    == self.posts@[i].id@);
            assert(false);
        }
        0
    }

    /// Remove the document under this identifier from all three
    /// structures; a no-op when the identifier is absent.
    pub fn remove(&mut self, id: &str) -> (r: Option<Arc<RenderedPost>>)
        requires
            old(self).wf(),
        ensures
            final(self).wf(),
            forall|x: Seq<char>|
                #[trigger] final(self).spec_contains(x) <==> (old(self).spec_contains(x) && x
                    != id@),
            forall|x: Seq<char>|
                x != id@ && old(self).spec_contains(x) ==> #[trigger] final(self).spec_at(x)
                    == old(self).spec_at(x),
            final(self).spec_len() == old(self).spec_len() - (if old(self).spec_contains(id@) {
                1int
            } else {
                0
            }),
            forall|t: Seq<char>, x: Seq<char>|
                #[trigger] final(self).tag_has(t, x) <==> (old(self).tag_has(t, x) && x != id@),
            match r {
                Some(p) => old(self).spec_contains(id@) && *p == old(self).spec_at(id@),
                None => !old(self).spec_contains(id@),
            },
    {
        let i: usize = match self.find_index(id) {
            Some(i) => i,
            None => {
                proof {
                    assert forall|t: Seq<char>, x: Seq<char>|
                        #[trigger] final(self).tag_has(t, x) implies (old(self).tag_has(t, x) && x
                        != id@) by {
                        let (b, j) = choose|b: int, j: int|
                            0 <= b < self.tags_ix@.len() && 0 <= j < self.tags_ix@[b].ids@.len()
                                && self.tags_ix@[b].tag@ == t && self.tags_ix@[b].ids@[j]@ == x;
                        assert(self.spec_contains(x));
                    }
                }
                return None;
            },
        };
        proof {
            self.lemma_at_index(i as int);
            self.lemma_published_ids_distinct();
        }
        let k: usize = self.find_published_index(id);
        let arc = self.posts.remove(i);
        self.published_ix.remove(k);
        let ghost s0 = *old(self);
        let ghost mid = *self;
        let n_tags: usize = self.tags_ix.len();
        let mut new_tags: Vec<TagBucket> = Vec::new();
        let mut b: usize = 0;
        while b < n_tags
            invariant
                b <= n_tags,
                n_tags == s0.tags_ix@.len(),
                self.tags_ix@ == s0.tags_ix@,
                self.posts@ == mid.posts@,
                self.published_ix@ == mid.published_ix@,
                new_tags@.len() == b,
                forall|c: int|
                    0 <= c < b ==> (#[trigger] new_tags@[c].tag@) == s0.tags_ix@[c].tag@,
                forall|c: int|
                    0 <= c < b ==> id_views((#[trigger] new_tags@[c]).ids@) == spec_without(
                        id_views(s0.tags_ix@[c].ids@),
                        id@,
                    ),
            decreases n_tags - b,
        {
            let bucket = &self.tags_ix[b];
            let ids2 = ids_without(&bucket.ids, id);
            let tag2 = bucket.tag.clone();
            new_tags.push(TagBucket { tag: tag2, ids: ids2 });
            b = b + 1;
        }
        self.tags_ix = new_tags;
        proof {
            let p0 = s0.posts@;
            let p1 = self.posts@;
            assert(p1 =~= p0.remove(i as int));
            let ix0 = s0.published_ix@;
            let ix1 = self.published_ix@;
            assert(ix1 =~= ix0.remove(k as int));
            assert(p0[i as int].id@ == id@);
            assert(ix0[k as int].id@ == id@);
            // containment change
            assert forall|x: Seq<char>| #[trigger] self.spec_contains(x) implies (s0.spec_contains(
                x,
            ) && x != id@) by {
                let j = choose|j: int| 0 <= j < p1.len() && p1[j].id@ == x;
                let j0: int = if j < i { j } else { j + 1 };
                assert(p1[j] == p0[j0]);
                assert(s0.spec_contains(x));
                if x == id@ {
                    if j0 < i {
                        assert(p0[j0].id@ != p0[i as int].id@);
                    } else {
                        assert(p0[i as int].id@ != p0[j0].id@);
                    }
                }
            }
            assert forall|x: Seq<char>| s0.spec_contains(x) && x != id@ implies
                #[trigger] self.spec_contains(x) by {
                let j0 = choose|j: int| 0 <= j < p0.len() && p0[j].id@ == x;
                assert(j0 != i);
                let j: int = if j0 < i { j0 } else { j0 - 1 };
                assert(p1[j] == p0[j0]);
            }
            // posts well-formedness of the final state
            assert forall|a: int, c: int| 0 <= a < c < p1.len() implies (#[trigger] p1[a].id@) != (
            #[trigger] p1[c].id@) by {
                let a0: int = if a < i { a } else { a + 1 };
                let c0: int = if c < i { c } else { c + 1 };
                assert(p1[a] == p0[a0] && p1[c] == p0[c0]);
            }
            assert forall|a: int| 0 <= a < p1.len() implies (#[trigger] p1[a].wf()) by {
                let a0: int = if a < i { a } else { a + 1 };
                assert(p1[a] == p0[a0]);
            }
            // value preservation
            assert forall|x: Seq<char>| x != id@ && s0.spec_contains(x) implies
                #[trigger] self.spec_at(x) == s0.spec_at(x) by {
                assert(self.spec_contains(x));
                let w1 = self.spec_index_of(x);
                assert(0 <= w1 < p1.len() && p1[w1].id@ == x);
                let w0: int = if w1 < i { w1 } else { w1 + 1 };
                assert(p1[w1] == p0[w0]);
                s0.lemma_at_index(w0);
            }
            // published index: sortedness, soundness, completeness
            assert forall|k1: int, k2: int| 0 <= k1 < k2 < ix1.len() implies spec_entry_lt(
                ((#[trigger] ix1[k1]).published, ix1[k1].id@),
                ((#[trigger] ix1[k2]).published, ix1[k2].id@),
            ) by {
                let a0: int = if k1 < k { k1 } else { k1 + 1 };
                let c0: int = if k2 < k { k2 } else { k2 + 1 };
                assert(ix1[k1] == ix0[a0] && ix1[k2] == ix0[c0]);
            }
            assert forall|k1: int| 0 <= k1 < ix1.len() implies {
                &&& self.spec_contains((#[trigger] ix1[k1]).id@)
                &&& self.spec_at(ix1[k1].id@).header.published == ix1[k1].published
            } by {
                let a0: int = if k1 < k { k1 } else { k1 + 1 };
                assert(ix1[k1] == ix0[a0]);
                if a0 < k {
                    assert(ix0[a0].id@ != ix0[k as int].id@);
                } else if a0 > k {
                    assert(ix0[k as int].id@ != ix0[a0].id@);
                }
                assert(s0.spec_contains(ix0[a0].id@));
            }
            assert forall|a: int| 0 <= a < p1.len() implies exists|k1: int|
                0 <= k1 < ix1.len() && (#[trigger] ix1[k1]).id@ == (#[trigger] p1[a].id@) by {
                let a0: int = if a < i { a } else { a + 1 };
                assert(p1[a] == p0[a0]);
                let k0 = choose|k1: int|
                    0 <= k1 < ix0.len() && (#[trigger] ix0[k1]).id@ == p0[a0].id@;
                assert(k0 != k);
                let k1: int = if k0 < k { k0 } else { k0 - 1 };
                assert(ix1[k1] == ix0[k0]);
            }
            // tag index: distinct tags, distinct and valid members
            let tg0 = s0.tags_ix@;
            let tg1 = self.tags_ix@;
            assert(tg1.len() == tg0.len());
            assert forall|c: int| 0 <= c < tg1.len() implies (#[trigger] tg1[c].tag@) == tg0[c].tag@
                && id_views(tg1[c].ids@) == spec_without(id_views(tg0[c].ids@), id@) by {}
            assert forall|b1: int, b2: int| 0 <= b1 < b2 < tg1.len() implies (
            #[trigger] tg1[b1].tag@) != (#[trigger] tg1[b2].tag@) by {
                assert(tg0[b1].tag@ != tg0[b2].tag@);
            }
            assert forall|c: int, j1: int, j2: int|
                0 <= c < tg1.len() && 0 <= j1 < j2 < tg1[c].ids@.len() implies (
            #[trigger] tg1[c].ids@[j1]@) != (#[trigger] tg1[c].ids@[j2]@) by {
                lemma_without(id_views(tg0[c].ids@), id@);
                assert(forall|a1: int, a2: int|
                    0 <= a1 < a2 < id_views(tg0[c].ids@).len() ==> (#[trigger] id_views(
                        tg0[c].ids@,
                    )[a1]) != (#[trigger] id_views(tg0[c].ids@)[a2]));
                assert(id_views(tg1[c].ids@)[j1] == tg1[c].ids@[j1]@);
                assert(id_views(tg1[c].ids@)[j2] == tg1[c].ids@[j2]@);
            }
            assert forall|c: int, j: int|
                0 <= c < tg1.len() && 0 <= j < tg1[c].ids@.len() implies {
                &&& self.spec_contains((#[trigger] tg1[c].ids@[j])@)
                &&& post_has_tag(self.spec_at(tg1[c].ids@[j]@), tg1[c].tag@)
            } by {
                lemma_without(id_views(tg0[c].ids@), id@);
                let x = tg1[c].ids@[j]@;
                assert(id_views(tg1[c].ids@)[j] == x);
                assert(x != id@);
                let j0 = choose|j0: int|
                    0 <= j0 < id_views(tg0[c].ids@).len() && id_views(tg0[c].ids@)[j0] == x;
                assert(tg0[c].ids@[j0]@ == x);
                assert(s0.spec_contains(x) && post_has_tag(s0.spec_at(x), tg0[c].tag@));
            }
            assert forall|a: int, t: int|
                0 <= a < p1.len() && 0 <= t < (#[trigger] p1[a]).header.tags@.len() implies
                self.tag_has((#[trigger] p1[a].header.tags@[t])@, p1[a].id@) by {
                let a0: int = if a < i { a } else { a + 1 };
                assert(p1[a] == p0[a0]);
                assert(s0.tag_has(p0[a0].header.tags@[t]@, p0[a0].id@));
                let x = p0[a0].id@;
                let tt = p0[a0].header.tags@[t]@;
                let (c, j0) = choose|c: int, j0: int|
                    0 <= c < tg0.len() && 0 <= j0 < tg0[c].ids@.len() && tg0[c].tag@ == tt
                        && tg0[c].ids@[j0]@ == x;
                if a0 < i {
                    assert(p0[a0].id@ != p0[i as int].id@);
                } else {
                    assert(p0[i as int].id@ != p0[a0].id@);
                }
                lemma_without(id_views(tg0[c].ids@), id@);
                assert(id_views(tg0[c].ids@)[j0] == x && x != id@);
                let j = choose|j: int|
                    0 <= j < spec_without(id_views(tg0[c].ids@), id@).len() && spec_without(
                        id_views(tg0[c].ids@),
                        id@,
                    )[j] == x;
                assert(id_views(tg1[c].ids@)[j] == x);
                assert(tg1[c].ids@[j]@ == x);
            }
            // the tag view changes exactly by dropping the identifier
            assert forall|t: Seq<char>, x: Seq<char>| #[trigger] self.tag_has(t, x) implies (
            s0.tag_has(t, x) && x != id@) by {
                let (c, j) = choose|c: int, j: int|
                    0 <= c < tg1.len() && 0 <= j < tg1[c].ids@.len() && tg1[c].tag@ == t
                        && tg1[c].ids@[j]@ == x;
                lemma_without(id_views(tg0[c].ids@), id@);
                assert(id_views(tg1[c].ids@)[j] == x);
                assert(x != id@);
                let j0 = choose|j0: int|
                    0 <= j0 < id_views(tg0[c].ids@).len() && id_views(tg0[c].ids@)[j0] == x;
                assert(tg0[c].ids@[j0]@ == x);
            }
            assert forall|t: Seq<char>, x: Seq<char>| s0.tag_has(t, x) && x != id@ implies
                #[trigger] self.tag_has(t, x) by {
                let (c, j0) = choose|c: int, j0: int|
                    0 <= c < tg0.len() && 0 <= j0 < tg0[c].ids@.len() && tg0[c].tag@ == t
                        && tg0[c].ids@[j0]@ == x;
                lemma_without(id_views(tg0[c].ids@), id@);
                assert(id_views(tg0[c].ids@)[j0] == x);
                let j = choose|j: int|
                    0 <= j < spec_without(id_views(tg0[c].ids@), id@).len() && spec_without(
                        id_views(tg0[c].ids@),
                        id@,
                    )[j] == x;
                assert(tg1[c].ids@[j]@ == x);
            }
        }
        Some(arc)
    }

    /// Where the entry `(published, id)` belongs in the publish-order
    /// index: the first position whose entry is not below it.
    fn find_publish_pos(&self, published: &Timestamp, id: &Id) -> (r: usize)
        ensures
            r <= self.published_ix@.len(),
            forall|j: int|
                0 <= j < r ==> spec_entry_lt(
                    ((#[trigger] self.published_ix@[j]).published, self.published_ix@[j].id@),
                    (*published, id@),
                ),
            r < self.published_ix@.len() ==> !spec_entry_lt(
                (self.published_ix@[r as int].published, self.published_ix@[r as int].id@),
                (*published, id@),
            ),
    {
        let n: usize = self.published_ix.len();
        let mut p: usize = 0;
        while p < n
            invariant
                p <= n,
                n == self.published_ix@.len(),
                forall|j: int|
                    0 <= j < p ==> spec_entry_lt(
                        ((#[trigger] self.published_ix@[j]).published, self.published_ix@[j].id@),
                        (*published, id@),
                    ),
            decreases n - p,
        {
            let e = &self.published_ix[p];
            let below: bool = e.published.lt(published) || (e.published == *published && e.id.lt(
                id,
            ));
            if !below {
                return p;
            }
            p = p + 1;
        }
        n
    }

    /// Insert a document: any prior document under the same identifier is
    /// first removed from all three structures, then the new one is
    /// entered into all three. Returns the superseded document, if any.
    pub fn insert(&mut self, post: RenderedPost) -> (r: Option<Arc<RenderedPost>>)
        requires
            old(self).wf(),
            post.wf(),
        ensures
            spec_inserted(*old(self), post, *final(self)),
            match r {
                Some(p) => old(self).spec_contains(post.id@) && *p == old(self).spec_at(post.id@),
                None => !old(self).spec_contains(post.id@),
            },
    {
        let ghost gid = post.id@;
        let ghost gpost = post;
        let id_string: String = post.id.as_inner().clone();
        let old_post = self.remove(id_string.as_str());
        let ghost s1 = *self;
        let tags_copy = clone_strings(&post.header.tags);
        let new_id = post.id.clone();
        let published = post.header.published;
        let arc = Arc::new(post);
        proof {
            assert(*arc == gpost);
        }
        self.posts.push(arc);
        proof {
            assert(!s1.spec_contains(gid));
            // the new primary vector is well-formed
            assert forall|a: int, c: int| 0 <= a < c < self.posts@.len() implies (
            #[trigger] self.posts@[a].id@) != (#[trigger] self.posts@[c].id@) by {
                if c == self.posts@.len() - 1 {
                    assert(self.posts@[a] == s1.posts@[a]);
                    if self.posts@[a].id@ == gid {
                        assert(s1.spec_contains(gid));
                    }
                } else {
                    assert(self.posts@[a] == s1.posts@[a] && self.posts@[c] == s1.posts@[c]);
                }
            }
            assert forall|a: int| 0 <= a < self.posts@.len() implies (
            #[trigger] self.posts@[a].wf()) by {
                if a < self.posts@.len() - 1 {
                    assert(self.posts@[a] == s1.posts@[a]);
                }
            }
        }
        let ghost s2 = *self;
        proof {
            // containment and lookup in the extended map
            assert(s2.posts@[s2.posts@.len() - 1].id@ == gid);
            assert(s2.spec_contains(gid));
            s2.lemma_at_index(s2.posts@.len() - 1);
            assert(s2.spec_at(gid) == gpost);
            assert forall|x: Seq<char>| #[trigger] s2.spec_contains(x) implies (s1.spec_contains(x)
                || x == gid) by {
                let j = choose|j: int| 0 <= j < s2.posts@.len() && s2.posts@[j].id@ == x;
                if j < s2.posts@.len() - 1 {
                    assert(s2.posts@[j] == s1.posts@[j]);
                }
            }
            assert forall|x: Seq<char>| s1.spec_contains(x) implies
                #[trigger] s2.spec_contains(x) by {
                let j = choose|j: int| 0 <= j < s1.posts@.len() && s1.posts@[j].id@ == x;
                assert(s2.posts@[j] == s1.posts@[j]);
            }
            assert forall|x: Seq<char>| x != gid && s1.spec_contains(x) implies
                #[trigger] s2.spec_at(x) == s1.spec_at(x) by {
                let j = choose|j: int| 0 <= j < s1.posts@.len() && s1.posts@[j].id@ == x;
                assert(s2.posts@[j] == s1.posts@[j]);
                s1.lemma_at_index(j);
                s2.lemma_at_index(j);
            }
        }
        let pos: usize = self.find_publish_pos(&published, &new_id);
        let entry_id = new_id.clone();
        self.published_ix.insert(pos, PublishedIxEntry { published, id: entry_id });
        proof {
            let ix1 = s1.published_ix@;
            let ix2 = self.published_ix@;
            assert(ix2 == ix1.insert(pos as int, ix2[pos as int]));
            assert(ix2[pos as int].published == gpost.header.published);
            assert(ix2[pos as int].id@ == gid);
            // entries other than the new one keep their identifiers,
            // which differ from the new one
            assert forall|q: int| 0 <= q < ix1.len() implies (#[trigger] ix1[q].id@) != gid by {
                assert(s1.spec_contains(ix1[q].id@));
            }
            // sortedness of the extended index
            let newe = (gpost.header.published, gid);
            if (pos as int) < ix1.len() {
                lemma_entry_trichotomy((ix1[pos as int].published, ix1[pos as int].id@), newe);
            }
            assert forall|k1: int, k2: int| 0 <= k1 < k2 < ix2.len() implies spec_entry_lt(
                ((#[trigger] ix2[k1]).published, ix2[k1].id@),
                ((#[trigger] ix2[k2]).published, ix2[k2].id@),
            ) by {
                let a: int = if k1 < pos as int { k1 } else { k1 - 1 };
                let c: int = if k2 <= pos as int { k2 } else { k2 - 1 };
                if k1 < pos as int {
                    assert(ix2[k1] == ix1[k1]);
                } else if k1 > pos as int {
                    assert(ix2[k1] == ix1[k1 - 1]);
                }
                if k2 < pos as int {
                    assert(ix2[k2] == ix1[k2]);
                } else if k2 > pos as int {
                    assert(ix2[k2] == ix1[k2 - 1]);
                }
                if k1 == pos as int {
                    // new entry below everything at or after `pos`
                    let q = k2 - 1;
                    lemma_entry_trichotomy((ix1[q].published, ix1[q].id@), newe);
                    if q > pos as int {
                        lemma_entry_trans(
                            newe,
                            (ix1[pos as int].published, ix1[pos as int].id@),
                            (ix1[q].published, ix1[q].id@),
                        );
                    }
                } else if k2 == pos as int {
                    assert(spec_entry_lt((ix1[k1].published, ix1[k1].id@), newe));
                }
            }
            // soundness and completeness of the extended index
            assert forall|k1: int| 0 <= k1 < ix2.len() implies {
                &&& s2.spec_contains((#[trigger] ix2[k1]).id@)
                &&& s2.spec_at(ix2[k1].id@).header.published == ix2[k1].published
            } by {
                if k1 < pos as int {
                    assert(ix2[k1] == ix1[k1]);
                    assert(s1.spec_contains(ix1[k1].id@));
                } else if k1 > pos as int {
                    assert(ix2[k1] == ix1[k1 - 1]);
                    assert(s1.spec_contains(ix1[k1 - 1].id@));
                }
            }
            assert forall|a: int| 0 <= a < s2.posts@.len() implies exists|k1: int|
                0 <= k1 < ix2.len() && (#[trigger] ix2[k1]).id@ == (
            #[trigger] s2.posts@[a].id@) by {
                if a == s2.posts@.len() - 1 {
                    assert(ix2[pos as int].id@ == s2.posts@[a].id@);
                } else {
                    assert(s2.posts@[a] == s1.posts@[a]);
                    let k0 = choose|k0: int|
                        0 <= k0 < ix1.len() && (#[trigger] ix1[k0]).id@ == s1.posts@[a].id@;
                    let k1: int = if k0 < pos as int { k0 } else { k0 + 1 };
                    assert(ix2[k1] == ix1[k0]);
                }
            }
        }
        let ghost tg1 = s1.tags_ix@;
        let ghost s3 = *self;
        let n_tags: usize = tags_copy.len();
        let mut u: usize = 0;
        while u < n_tags
            invariant
                u <= n_tags,
                n_tags == tags_copy@.len(),
                tags_copy@ == gpost.header.tags@,
                new_id@ == gid,
                id_string@ == gid,
                self.posts@ == s2.posts@,
                self.published_ix@ == s3.published_ix@,
                tg1 == s1.tags_ix@,
                s1.wf(),
                !s1.spec_contains(gid),
                // bucket tags stay pairwise distinct
                forall|b1: int, b2: int|
                    0 <= b1 < b2 < self.tags_ix@.len() ==> (#[trigger] self.tags_ix@[b1].tag@) != (
                    #[trigger] self.tags_ix@[b2].tag@),
                // bucket members stay pairwise distinct
                forall|b: int, j1: int, j2: int|
                    0 <= b < self.tags_ix@.len() && 0 <= j1 < j2 < self.tags_ix@[b].ids@.len()
                        ==> (#[trigger] self.tags_ix@[b].ids@[j1]@) != (
                    #[trigger] self.tags_ix@[b].ids@[j2]@),
                // every member is an old member or the new identifier under
                // a tag already processed
                forall|b: int, j: int|
                    0 <= b < self.tags_ix@.len() && 0 <= j < self.tags_ix@[b].ids@.len() ==> {
                        ||| ((#[trigger] self.tags_ix@[b].ids@[j])@ != gid && s1.tag_has(
                            self.tags_ix@[b].tag@,
                            self.tags_ix@[b].ids@[j]@,
                        ))
                        ||| (self.tags_ix@[b].ids@[j]@ == gid && exists|w: int|
                            0 <= w < u && (#[trigger] gpost.header.tags@[w])@
                                == self.tags_ix@[b].tag@)
                    },
                // nothing an old bucket held is lost
                forall|t: Seq<char>, x: Seq<char>|
                    s1.tag_has(t, x) ==> #[trigger] self.tag_has(t, x),
                // every processed tag now carries the new identifier
                forall|w: int| 0 <= w < u ==> self.tag_has((#[trigger] gpost.header.tags@[w])@, gid),
            decreases n_tags - u,
        {
            let tag_ref = &tags_copy[u];
            let ghost pre_self = *self;
            let ghost pre_tags = pre_self.tags_ix@;
            match find_bucket(&self.tags_ix, tag_ref) {
                Some(bkt) => {
                    let present: bool = ids_contain(&self.tags_ix[bkt].ids, &new_id);
                    if !present {
                        let pushed_id = new_id.clone();
                        let ghost pid = pushed_id;
                        let bucket = &mut self.tags_ix[bkt];
                        bucket.ids.push(pushed_id);
                        proof {
                            assert(pid@ == gid);
                            assert(self.tags_ix@.len() == pre_tags.len());
                            assert(self.tags_ix@[bkt as int].tag@ == pre_tags[bkt as int].tag@);
                            assert(self.tags_ix@[bkt as int].ids@ == pre_tags[bkt as int].ids@.push(
                                pid,
                            ));
                            assert(forall|c: int|
                                0 <= c < pre_tags.len() && c != bkt ==> (#[trigger] self.tags_ix@[c])
                                    == pre_tags[c]);
                            let newlen = self.tags_ix@[bkt as int].ids@.len();
                            assert(self.tags_ix@[bkt as int].ids@[newlen - 1]@ == gid);
                            assert(self.tag_has(gpost.header.tags@[u as int]@, gid));
                            assert forall|t: Seq<char>, x: Seq<char>| s1.tag_has(t, x) implies
                                #[trigger] self.tag_has(t, x) by {
                                assert(pre_self.tag_has(t, x));
                                let (c, j) = choose|c: int, j: int|
                                    0 <= c < pre_tags.len() && 0 <= j < pre_tags[c].ids@.len()
                                        && pre_tags[c].tag@ == t && pre_tags[c].ids@[j]@ == x;
                                assert(self.tags_ix@[c].tag@ == pre_tags[c].tag@);
                                assert(self.tags_ix@[c].ids@[j]@ == x);
                            }
                        }
                    } else {
                        proof {
                            assert(self.tag_has(gpost.header.tags@[u as int]@, gid));
                        }
                    }
                },
                None => {
                    let mut first_ids: Vec<Id> = Vec::new();
                    first_ids.push(new_id.clone());
                    self.tags_ix.push(TagBucket { tag: tag_ref.clone(), ids: first_ids });
                    proof {
                        let nb = self.tags_ix@.len() - 1;
                        assert(forall|c: int| 0 <= c < nb ==> self.tags_ix@[c] == pre_tags[c]);
                        assert(self.tags_ix@[nb].tag@ == gpost.header.tags@[u as int]@);
                        assert(self.tags_ix@[nb].ids@.len() == 1);
                        assert(self.tags_ix@[nb].ids@[0]@ == gid);
                        assert(self.tag_has(gpost.header.tags@[u as int]@, gid));
                        assert forall|t: Seq<char>, x: Seq<char>| s1.tag_has(t, x) implies
                            #[trigger] self.tag_has(t, x) by {
                            assert(pre_self.tag_has(t, x));
                            let (c, j) = choose|c: int, j: int|
                                0 <= c < pre_tags.len() && 0 <= j < pre_tags[c].ids@.len()
                                    && pre_tags[c].tag@ == t && pre_tags[c].ids@[j]@ == x;
                            assert(self.tags_ix@[c].tag@ == t);
                            assert(self.tags_ix@[c].ids@[j]@ == x);
                        }
                    }
                },
            }
            proof {
                assert forall|w: int| 0 <= w < u + 1 implies self.tag_has(
                    (#[trigger] gpost.header.tags@[w])@,
                    gid,
                ) by {
                    if w < u {
                        assert(pre_self.tag_has(gpost.header.tags@[w]@, gid));
                        let (c, j) = choose|c: int, j: int|
                            0 <= c < pre_tags.len() && 0 <= j < pre_tags[c].ids@.len()
                                && pre_tags[c].tag@ == gpost.header.tags@[w]@ && pre_tags[c].ids@[j]@
                                == gid;
                        assert(self.tags_ix@[c].tag@ == pre_tags[c].tag@);
                        assert(self.tags_ix@[c].ids@[j]@ == gid);
                    }
                }
            }
            u = u + 1;
        }
        proof {
            // final well-formedness of the tag index
            assert forall|b: int, j: int|
                0 <= b < self.tags_ix@.len() && 0 <= j < self.tags_ix@[b].ids@.len() implies {
                &&& s2.spec_contains((#[trigger] self.tags_ix@[b].ids@[j])@)
                &&& post_has_tag(
                    s2.spec_at(self.tags_ix@[b].ids@[j]@),
                    self.tags_ix@[b].tag@,
                )
            } by {
                let x = self.tags_ix@[b].ids@[j]@;
                let t = self.tags_ix@[b].tag@;
                if x != gid {
                    assert(s1.tag_has(t, x));
                    let (c, j0) = choose|c: int, j0: int|
                        0 <= c < tg1.len() && 0 <= j0 < tg1[c].ids@.len() && tg1[c].tag@ == t
                            && tg1[c].ids@[j0]@ == x;
                    assert(s1.spec_contains(x) && post_has_tag(s1.spec_at(x), t));
                } else {
                    let w = choose|w: int|
                        0 <= w < n_tags && (#[trigger] gpost.header.tags@[w])@ == t;
                    assert(post_has_tag(gpost, t));
                }
            }
            assert forall|a: int, t: int|
                0 <= a < s2.posts@.len() && 0 <= t < (
            #[trigger] s2.posts@[a]).header.tags@.len() implies self.tag_has(
                (#[trigger] s2.posts@[a].header.tags@[t])@,
                s2.posts@[a].id@,
            ) by {
                if a == s2.posts@.len() - 1 {
                    assert(s2.posts@[a].id@ == gid);
                    assert(self.tag_has(gpost.header.tags@[t]@, gid));
                } else {
                    assert(s2.posts@[a] == s1.posts@[a]);
                    assert(s1.tag_has(s1.posts@[a].header.tags@[t]@, s1.posts@[a].id@));
                }
            }
            // the tag view changes exactly by the new document's tags
            assert forall|t: Seq<char>, x: Seq<char>| #[trigger] self.tag_has(t, x) implies ((
            s1.tag_has(t, x) && x != gid) || (x == gid && post_has_tag(gpost, t))) by {
                let (b, j) = choose|b: int, j: int|
                    0 <= b < self.tags_ix@.len() && 0 <= j < self.tags_ix@[b].ids@.len()
                        && self.tags_ix@[b].tag@ == t && self.tags_ix@[b].ids@[j]@ == x;
                if x == gid {
                    let w = choose|w: int|
                        0 <= w < n_tags && (#[trigger] gpost.header.tags@[w])@ == t;
                    assert(post_has_tag(gpost, t));
                }
            }
            assert forall|t: Seq<char>, x: Seq<char>|
                x == gid && post_has_tag(gpost, t) implies #[trigger] self.tag_has(t, x) by {
                let w = choose|w: int|
                    0 <= w < gpost.header.tags@.len() && (#[trigger] gpost.header.tags@[w])@ == t;
                assert(self.tag_has(gpost.header.tags@[w]@, gid));
            }
            // the final state's primary map reads as it did right after
            // the push
            assert forall|x: Seq<char>| #[trigger] self.spec_contains(x) == s2.spec_contains(
                x,
            ) by {
                if self.spec_contains(x) {
                    let j = choose|j: int| 0 <= j < self.posts@.len() && self.posts@[j].id@ == x;
                    assert(s2.posts@[j].id@ == x);
                }
                if s2.spec_contains(x) {
                    let j = choose|j: int| 0 <= j < s2.posts@.len() && s2.posts@[j].id@ == x;
                    assert(self.posts@[j].id@ == x);
                }
            }
            assert forall|a: int, c: int| 0 <= a < c < self.posts@.len() implies (
            #[trigger] self.posts@[a].id@) != (#[trigger] self.posts@[c].id@) by {
                assert(s2.posts@[a].id@ != s2.posts@[c].id@);
            }
            assert forall|a: int| 0 <= a < self.posts@.len() implies (
            #[trigger] self.posts@[a].wf()) by {
                assert(s2.posts@[a].wf());
            }
            assert forall|x: Seq<char>| s2.spec_contains(x) implies #[trigger] self.spec_at(x)
                == s2.spec_at(x) by {
                let j = choose|j: int| 0 <= j < s2.posts@.len() && s2.posts@[j].id@ == x;
                s2.lemma_at_index(j);
                self.lemma_at_index(j);
            }
        }
        old_post
    }

    /// All documents, in no particular order, one handle each.
    pub fn iter(&self) -> (r: Vec<Arc<RenderedPost>>)
        requires
            self.wf(),
        ensures
            r@.len() == self.spec_len(),
            forall|k: int|
                0 <= k < r@.len() ==> self.spec_contains((#[trigger] r@[k]).id@) && *r@[k]
                    == self.spec_at(r@[k].id@),
            forall|k1: int, k2: int| 0 <= k1 < k2 < r@.len() ==> r@[k1].id@ != r@[k2].id@,
            forall|x: Seq<char>|
                self.spec_contains(x) ==> exists|k: int| 0 <= k < r@.len() && (#[trigger] r@[k]).id@
                    == x,
    {
        let n: usize = self.posts.len();
        let mut r: Vec<Arc<RenderedPost>> = Vec::new();
        let mut i: usize = 0;
        while i < n
            invariant
                i <= n,
                n == self.posts@.len(),
                r@.len() == i,
                self.wf(),
                forall|k: int| 0 <= k < i ==> r@[k] == self.posts@[k],
            decreases n - i,
        {
            r.push(arc_clone(&self.posts[i]));
            i = i + 1;
        }
        proof {
            assert forall|k: int|
                0 <= k < r@.len() implies self.spec_contains((#[trigger] r@[k]).id@) && *r@[k]
                == self.spec_at(r@[k].id@) by {
                self.lemma_at_index(k);
            }
            assert forall|x: Seq<char>| self.spec_contains(x) implies exists|k: int|
                0 <= k < r@.len() && (#[trigger] r@[k]).id@ == x by {
                let i = self.spec_index_of(x);
                assert(0 <= i < self.posts@.len() && self.posts@[i].id@ == x);
                assert(r@[i].id@ == x);
            }
        }
        r
    }

    /// All documents, ascending by `(published, identifier)`, one handle
    /// each; traverse it in reverse for most-recent-first.
    pub fn iter_by_published(&self) -> (r: Vec<Arc<RenderedPost>>)
        requires
            self.wf(),
        ensures
            r@.len() == self.published_seq().len(),
            forall|k: int|
                0 <= k < r@.len() ==> {
                    &&& self.spec_contains((#[trigger] r@[k]).id@)
                    &&& *r@[k] == self.spec_at(r@[k].id@)
                    &&& r@[k].id@ == self.published_seq()[k].1
                    &&& r@[k].header.published == self.published_seq()[k].0
                },
            forall|k1: int, k2: int|
                0 <= k1 < k2 < r@.len() ==> spec_entry_lt(
                    ((#[trigger] r@[k1]).header.published, r@[k1].id@),
                    ((#[trigger] r@[k2]).header.published, r@[k2].id@),
                ),
            forall|x: Seq<char>|
                self.spec_contains(x) ==> exists|k: int|
                    0 <= k < r@.len() && (#[trigger] r@[k]).id@ == x,
    {
        let n: usize = self.published_ix.len();
        let mut r: Vec<Arc<RenderedPost>> = Vec::new();
        let mut k: usize = 0;
        while k < n
            invariant
                k <= n,
                n == self.published_ix@.len(),
                self.wf(),
                r@.len() == k,
                forall|c: int|
                    0 <= c < k ==> {
                        &&& self.spec_contains((#[trigger] r@[c]).id@)
                        &&& *r@[c] == self.spec_at(r@[c].id@)
                        &&& r@[c].id@ == self.published_ix@[c].id@
                        &&& r@[c].header.published == self.published_ix@[c].published
                    },
            decreases n - k,
        {
            let entry_id: &Id = &self.published_ix[k].id;
            proof {
                assert(self.spec_contains(entry_id@));
            }
            let i: usize = match self.find_index(entry_id.as_inner().as_str()) {
                Some(i) => i,
                None => {
                    proof {
                        assert(false);
                    }
                    0
                },
            };
            proof {
                self.lemma_at_index(i as int);
            }
            r.push(arc_clone(&self.posts[i]));
            k = k + 1;
        }
        proof {
            assert forall|k1: int, k2: int| 0 <= k1 < k2 < r@.len() implies spec_entry_lt(
                ((#[trigger] r@[k1]).header.published, r@[k1].id@),
                ((#[trigger] r@[k2]).header.published, r@[k2].id@),
            ) by {
                assert(spec_entry_lt(
                    (self.published_ix@[k1].published, self.published_ix@[k1].id@),
                    (self.published_ix@[k2].published, self.published_ix@[k2].id@),
                ));
            }
            assert forall|x: Seq<char>| self.spec_contains(x) implies exists|k: int|
                0 <= k < r@.len() && (#[trigger] r@[k]).id@ == x by {
                let i = self.spec_index_of(x);
                assert(0 <= i < self.posts@.len() && self.posts@[i].id@ == x);
                let c = choose|c: int|
                    0 <= c < self.published_ix@.len() && (#[trigger] self.published_ix@[c]).id@
                        == self.posts@[i].id@;
                assert(r@[c].id@ == x);
            }
        }
        r
    }

    /// The latest update instant over all documents; nothing exactly when
    /// the store is empty.
    pub fn last_updated(&self) -> (r: Option<Timestamp>)
        requires
            self.wf(),
        ensures
            match r {
                Some(t) => {
                    &&& self.spec_len() > 0
                    &&& exists|x: Seq<char>|
                        #[trigger] self.spec_contains(x) && self.spec_at(x).updated == t
                    &&& forall|x: Seq<char>|
                        #[trigger] self.spec_contains(x) ==> self.spec_at(x).updated.spec_le(t)
                },
                None => self.spec_len() == 0,
            },
    {
        let n: usize = self.posts.len();
        if n == 0 {
            return None;
        }
        let mut best: Timestamp = arc_get(&self.posts[0]).updated;
        let mut i: usize = 1;
        while i < n
            invariant
                1 <= i <= n,
                n == self.posts@.len(),
                self.wf(),
                exists|j: int| 0 <= j < i && (#[trigger] self.posts@[j].updated) == best,
                forall|j: int| 0 <= j < i ==> (#[trigger] self.posts@[j].updated).spec_le(best),
            decreases n - i,
        {
            let cand: Timestamp = arc_get(&self.posts[i]).updated;
            if best.lt(&cand) {
                best = cand;
            }
            proof {
                if self.posts@[i as int].updated.spec_le(best) {
                }
            }
            i = i + 1;
        }
        proof {
            let j = choose|j: int| 0 <= j < n && (#[trigger] self.posts@[j].updated) == best;
            self.lemma_at_index(j);
            assert(self.spec_contains(self.posts@[j].id@) && self.spec_at(self.posts@[j].id@).updated
                == best);
            assert forall|x: Seq<char>| #[trigger] self.spec_contains(x) implies self.spec_at(
                x,
            ).updated.spec_le(best) by {
                let w = self.spec_index_of(x);
                assert(0 <= w < self.posts@.len() && self.posts@[w].id@ == x);
                self.lemma_at_index(w);
                assert(self.posts@[w].updated.spec_le(best));
            }
        }
        Some(best)
    }

    /// The identifiers the tag index holds under this tag, in bucket
    /// order; empty when no document carries the tag.
    pub fn tag_members(&self, tag: &str) -> (r: Vec<Id>)
        requires
            self.wf(),
        ensures
            forall|k: int| 0 <= k < r@.len() ==> self.tag_has(tag@, (#[trigger] r@[k])@),
            forall|k1: int, k2: int| 0 <= k1 < k2 < r@.len() ==> (#[trigger] r@[k1]@) != (
            #[trigger] r@[k2]@),
            forall|x: Seq<char>|
                self.tag_has(tag@, x) ==> exists|k: int| 0 <= k < r@.len() && (#[trigger] r@[k])@
                    == x,
    {
        match find_bucket(&self.tags_ix, &tag.to_owned()) {
            Some(b) => {
                let bucket = &self.tags_ix[b];
                let n: usize = bucket.ids.len();
                let mut r: Vec<Id> = Vec::new();
                let mut j: usize = 0;
                while j < n
                    invariant
                        j <= n,
                        n == bucket.ids@.len(),
                        r@.len() == j,
                        forall|c: int| 0 <= c < j ==> (#[trigger] r@[c])@ == bucket.ids@[c]@,
                    decreases n - j,
                {
                    r.push(bucket.ids[j].clone());
                    j = j + 1;
                }
                proof {
                    assert forall|k: int| 0 <= k < r@.len() implies self.tag_has(
                        tag@,
                        (#[trigger] r@[k])@,
                    ) by {
                        assert(self.tags_ix@[b as int].ids@[k]@ == r@[k]@);
                    }
                    assert forall|x: Seq<char>| self.tag_has(tag@, x) implies exists|k: int|
                        0 <= k < r@.len() && (#[trigger] r@[k])@ == x by {
                        let (c, j0) = choose|c: int, j0: int|
                            0 <= c < self.tags_ix@.len() && 0 <= j0 < self.tags_ix@[c].ids@.len()
                                && self.tags_ix@[c].tag@ == tag@ && self.tags_ix@[c].ids@[j0]@ == x;
                        if c != b as int {
                            assert(self.tags_ix@[c].tag@ != self.tags_ix@[b as int].tag@);
                        }
                        assert(r@[j0]@ == x);
                    }
                }
                r
            },
            None => {
                let r: Vec<Id> = Vec::new();
                proof {
                    assert forall|x: Seq<char>| self.tag_has(tag@, x) implies exists|k: int|
                        0 <= k < r@.len() && (#[trigger] r@[k])@ == x by {
                        let (c, j0) = choose|c: int, j0: int|
                            0 <= c < self.tags_ix@.len() && 0 <= j0 < self.tags_ix@[c].ids@.len()
                                && self.tags_ix@[c].tag@ == tag@ && self.tags_ix@[c].ids@[j0]@ == x;
                        assert(self.tags_ix@[c].tag@ != tag@);
                    }
                }
                r
            },
        }
    }

    /// Does the publish-order index hold this `(published, identifier)`
    /// pair?
    pub closed spec fn published_has(&self, ts: Timestamp, id: Seq<char>) -> bool {
        exists|k: int|
            0 <= k < self.published_ix@.len() && (#[trigger] self.published_ix@[k]).published == ts
                && self.published_ix@[k].id@ == id
    }

    /// Law (consistency of the indices): in a well-formed store, every
    /// identifier in the publish-order index or in any tag bucket resolves
    /// in the primary map to a document whose own identifier is that
    /// identifier; the publish-order entry carries that document's
    /// publication instant, and each tag bucket's documents carry its tag.
    pub proof fn lemma_index_consistency(&self)
        requires
            self.wf(),
        ensures
            forall|k: int|
                0 <= k < self.published_seq().len() ==> {
                    &&& self.spec_contains((#[trigger] self.published_seq()[k]).1)
                    &&& self.spec_at(self.published_seq()[k].1).id@ == self.published_seq()[k].1
                    &&& self.spec_at(self.published_seq()[k].1).header.published
                        == self.published_seq()[k].0
                },
            forall|t: Seq<char>, x: Seq<char>|
                #[trigger] self.tag_has(t, x) ==> {
                    &&& self.spec_contains(x)
                    &&& self.spec_at(x).id@ == x
                    &&& post_has_tag(self.spec_at(x), t)
                },
    {
        assert forall|x: Seq<char>| #[trigger] self.spec_contains(x) implies self.spec_at(x).id@
            == x by {
            let i = self.spec_index_of(x);
            assert(0 <= i < self.posts@.len() && self.posts@[i].id@ == x);
        }
        assert forall|k: int| 0 <= k < self.published_seq().len() implies {
            &&& self.spec_contains((#[trigger] self.published_seq()[k]).1)
            &&& self.spec_at(self.published_seq()[k].1).id@ == self.published_seq()[k].1
            &&& self.spec_at(self.published_seq()[k].1).header.published == self.published_seq()[k].0
        } by {
            assert(self.published_seq()[k].1 == self.published_ix@[k].id@);
            assert(self.spec_contains(self.published_ix@[k].id@));
        }
        assert forall|t: Seq<char>, x: Seq<char>| #[trigger] self.tag_has(t, x) implies {
            &&& self.spec_contains(x)
            &&& self.spec_at(x).id@ == x
            &&& post_has_tag(self.spec_at(x), t)
        } by {
            let (b, j) = choose|b: int, j: int|
                0 <= b < self.tags_ix@.len() && 0 <= j < self.tags_ix@[b].ids@.len()
                    && self.tags_ix@[b].tag@ == t && self.tags_ix@[b].ids@[j]@ == x;
            assert(self.spec_contains(self.tags_ix@[b].ids@[j]@));
        }
    }

    /// Law (publish-order contents are determined by the primary map): in
    /// a well-formed store, the publish-order index holds a pair exactly
    /// when the primary map holds a document with that identifier and that
    /// publication instant.
    pub proof fn lemma_published_characterized(&self)
        requires
            self.wf(),
        ensures
            forall|ts: Timestamp, x: Seq<char>|
                #[trigger] self.published_has(ts, x) <==> (self.spec_contains(x) && self.spec_at(
                    x,
                ).header.published == ts),
    {
        assert forall|ts: Timestamp, x: Seq<char>| #[trigger] self.published_has(ts, x) implies (
        self.spec_contains(x) && self.spec_at(x).header.published == ts) by {
            let k = choose|k: int|
                0 <= k < self.published_ix@.len() && (#[trigger] self.published_ix@[k]).published
                    == ts && self.published_ix@[k].id@ == x;
            assert(self.spec_contains(self.published_ix@[k].id@));
        }
        assert forall|ts: Timestamp, x: Seq<char>|
            self.spec_contains(x) && self.spec_at(x).header.published == ts implies
            #[trigger] self.published_has(ts, x) by {
            let i = self.spec_index_of(x);
            assert(0 <= i < self.posts@.len() && self.posts@[i].id@ == x);
            self.lemma_at_index(i);
            let k = choose|k: int|
                0 <= k < self.published_ix@.len() && (#[trigger] self.published_ix@[k]).id@
                    == self.posts@[i].id@;
            assert(self.published_ix@[k].published == ts);
        }
    }
}

/// Law (idempotent insert): inserting the same rendered document twice
/// leaves the store exactly as after the first insert — same size, same
/// primary map, same publish-order contents, same tag-index contents.
pub proof fn lemma_insert_idempotent(
    s0: PostsStore,
    s1: PostsStore,
    s2: PostsStore,
    p: RenderedPost,
)
    requires
        spec_inserted(s0, p, s1),
        spec_inserted(s1, p, s2),
    ensures
        s2.spec_len() == s1.spec_len(),
        forall|x: Seq<char>| #[trigger] s2.spec_contains(x) == s1.spec_contains(x),
        forall|x: Seq<char>|
            #[trigger] s1.spec_contains(x) ==> s2.spec_at(x) == s1.spec_at(x),
        forall|t: Seq<char>, x: Seq<char>| #[trigger] s2.tag_has(t, x) == s1.tag_has(t, x),
        forall|ts: Timestamp, x: Seq<char>|
            #[trigger] s2.published_has(ts, x) == s1.published_has(ts, x),
{
    assert(s1.spec_contains(p.id@));
    assert forall|x: Seq<char>| #[trigger] s1.spec_contains(x) implies s2.spec_at(x) == s1.spec_at(
        x,
    ) by {
        if x == p.id@ {
            assert(s2.spec_at(x) == p && s1.spec_at(x) == p);
        }
    }
    assert forall|t: Seq<char>, x: Seq<char>| #[trigger] s2.tag_has(t, x) == s1.tag_has(
        t,
        x,
    ) by {
        if x == p.id@ {
            assert(s1.tag_has(t, x) <==> post_has_tag(p, t));
            assert(s2.tag_has(t, x) <==> post_has_tag(p, t));
        }
    }
    s1.lemma_published_characterized();
    s2.lemma_published_characterized();
    assert forall|ts: Timestamp, x: Seq<char>| #[trigger] s2.published_has(ts, x)
        == s1.published_has(ts, x) by {
        assert(s2.published_has(ts, x) <==> (s2.spec_contains(x) && s2.spec_at(x).header.published
            == ts));
        assert(s1.published_has(ts, x) <==> (s1.spec_contains(x) && s1.spec_at(x).header.published
            == ts));
    }
}

/// Law (supersession): after inserting a document under identifier `X`,
/// a tag bucket holds `X` exactly when the *new* document carries that
/// tag — every trace of the previous `X` document is gone from the tag
/// index, and its publish-order entry is replaced by the new one.
pub proof fn lemma_supersession(s0: PostsStore, s1: PostsStore, p: RenderedPost)
    requires
        spec_inserted(s0, p, s1),
    ensures
        forall|t: Seq<char>| #[trigger] s1.tag_has(t, p.id@) <==> post_has_tag(p, t),
        forall|ts: Timestamp|
            #[trigger] s1.published_has(ts, p.id@) <==> ts == p.header.published,
{
    s1.lemma_published_characterized();
    assert(s1.spec_contains(p.id@) && s1.spec_at(p.id@) == p);
}

} // verus!
