//! Topics and the author/topic index.
//!
//! A topic is a fixed 32-byte identifier, derived from a human-chosen
//! string by hashing. The author index records, per topic, the set of
//! public keys seen publishing into it; the sync mechanism polls it to
//! learn which authors have which logs for a topic.

use vstd::prelude::*;
use vstd::string::StringSliceAdditionalSpecFns;

use crate::crypto::hash_bytes;
use crate::crypto::hash_of;
use crate::util::bytes_eq;
use crate::util::clone_bytes;

verus! {

/// A 32-byte topic identifier, derived from a topic string by hashing.
///
/// Peers interested in the same topic string converge on the same
/// identifier. In this design the identifier doubles as the log
/// identifier of every author's log under the topic.
#[derive(Clone, Copy, Debug, PartialEq, Eq, Hash)]
pub struct Topic([u8; 32]);

impl View for Topic {
    type V = Seq<u8>;

    closed spec fn view(&self) -> Seq<u8> {
        self.0@
    }
}

impl Topic {
    /// Wrap an existing 32-byte identifier.
    pub fn new(topic_id: [u8; 32]) -> (r: Topic)
        ensures
            r@ == topic_id@,
    {
        Topic(topic_id)
    }

    /// Derive the topic identifier from a topic string by hashing it.
    pub fn from_str(topic: &str) -> (r: Topic)
        ensures
            r@ == hash_of(topic.spec_bytes()),
    {
        Topic(hash_bytes(topic.as_bytes()))
    }

    /// The raw 32-byte identifier.
    pub fn id(&self) -> (r: [u8; 32])
        ensures
            r@ == self@,
    {
        self.0
    }

    /// The identifier as a byte vector.
    pub fn id_vec(&self) -> (r: Vec<u8>)
        ensures
            r@ == self@,
            r@.len() == 32,
    {
        vstd::slice::slice_to_vec(self.0.as_slice())
    }

    /// Whether two topics carry the same identifier.
    pub fn same_as(&self, other: &Topic) -> (r: bool)
        ensures
            r == (self@ == other@),
    {
        let a = self.id_vec();
        let b = other.id_vec();
        bytes_eq(&a, &b)
    }
}

/// The authors recorded for one topic.
pub struct TopicAuthors {
    /// The topic.
    pub topic: Topic,
    /// The public keys seen publishing into the topic, each listed once.
    pub authors: Vec<Vec<u8>>,
}

/// The author/topic index: for each topic ever observed, the set of
/// public keys known to have published into it. Entries only grow; an
/// author once seen is never removed.
pub struct AuthorStore {
    /// One entry per observed topic.
    pub entries: Vec<TopicAuthors>,
}

impl AuthorStore {
    /// The distinct author views recorded under a topic entry.
    pub open spec fn entry_authors(e: TopicAuthors) -> Seq<Seq<u8>> {
        e.authors@.map_values(|a: Vec<u8>| a@)
    }

    /// Whether the index has an entry for the topic.
    pub open spec fn has_topic(self, t: Seq<u8>) -> bool {
        exists|i: int| 0 <= i < self.entries@.len() && self.entries@[i].topic@ == t
    }

    /// The index of the topic's entry.
    pub open spec fn topic_idx(self, t: Seq<u8>) -> int {
        choose|i: int| 0 <= i < self.entries@.len() && self.entries@[i].topic@ == t
    }

    /// The authors recorded for a topic, in insertion order.
    pub open spec fn author_seq(self, t: Seq<u8>) -> Seq<Seq<u8>> {
        if self.has_topic(t) {
            Self::entry_authors(self.entries@[self.topic_idx(t)])
        } else {
            Seq::empty()
        }
    }

    /// The set of authors recorded for a topic.
    pub open spec fn author_set(self, t: Seq<u8>) -> Set<Seq<u8>> {
        self.author_seq(t).to_set()
    }

    /// Topics are distinct and no author is listed twice under one topic.
    pub open spec fn wf(self) -> bool {
        &&& forall|i: int, j: int|
            0 <= i < j < self.entries@.len() ==> self.entries@[i].topic@ != self.entries@[j].topic@
        &&& forall|i: int, a: int, b: int|
            #![trigger self.entries@[i].authors@[a], self.entries@[i].authors@[b]]
            0 <= i < self.entries@.len() && 0 <= a < b < self.entries@[i].authors@.len()
                ==> self.entries@[i].authors@[a]@ != self.entries@[i].authors@[b]@
    }

    /// An empty index.
    pub fn new() -> (r: AuthorStore)
        ensures
            r.wf(),
            forall|t: Seq<u8>| !r.has_topic(t),
    {
        AuthorStore { entries: Vec::new() }
    }

    /// Record a public key under a topic. Recording a pair already present
    /// leaves the index unchanged; a new author is appended to the topic's
    /// list; a new topic gains a fresh entry holding the one author.
    pub fn add_author(&mut self, topic: Topic, public_key: Vec<u8>)
        requires
            old(self).wf(),
        ensures
            final(self).wf(),
            final(self).has_topic(topic@),
            final(self).author_seq(topic@) == (if old(self).author_seq(topic@).contains(public_key@) {
                old(self).author_seq(topic@)
            } else {
                old(self).author_seq(topic@).push(public_key@)
            }),
            forall|t: Seq<u8>|
                t != topic@ ==> #[trigger] final(self).author_seq(t) == old(self).author_seq(t)
                    && (final(self).has_topic(t) == old(self).has_topic(t)),
    {
        let n: usize = self.entries.len();
        let mut i: usize = 0;
        while i < n
            invariant
                *self == *old(self),
                old(self).wf(),
                n == self.entries@.len(),
                i <= n,
                forall|j: int| 0 <= j < i ==> self.entries@[j].topic@ != topic@,
            decreases n - i,
        {
            if self.entries[i].topic.same_as(&topic) {
                let m: usize = self.entries[i].authors.len();
                let mut k: usize = 0;
                while k < m
                    invariant
                        *self == *old(self),
                        old(self).wf(),
                        0 <= i < self.entries@.len(),
                        m == self.entries@[i as int].authors@.len(),
                        k <= m,
                        self.entries@[i as int].topic@ == topic@,
                        forall|j: int|
                            0 <= j < k ==> self.entries@[i as int].authors@[j]@ != public_key@,
                    decreases m - k,
                {
                    if bytes_eq(&self.entries[i].authors[k], &public_key) {
                        proof {
                            lemma_found_unchanged(*self, topic@, i as int, k as int, public_key@);
                        }
                        return;
                    }
                    k = k + 1;
                }
                proof {
                    assert(0 <= i < self.entries@.len() && self.entries@[i as int].topic@ == topic@);
                    assert(self.has_topic(topic@));
                }
                let entry = crate::util::vec_mut_at(&mut self.entries, i);
                entry.authors.push(public_key);
                proof {
                    lemma_pushed_author(*old(self), *self, topic@, i as int, public_key@);
                }
                return;
            }
            i = i + 1;
        }
        let mut authors: Vec<Vec<u8>> = Vec::new();
        authors.push(public_key);
        self.entries.push(TopicAuthors { topic, authors });
        proof {
            lemma_new_entry(*old(self), *self, topic@, public_key@);
        }
    }

    /// The authors recorded for a topic, or none when the topic was never
    /// observed.
    pub fn authors(&self, topic: &Topic) -> (r: Option<Vec<Vec<u8>>>)
        requires
            self.wf(),
        ensures
            r is Some <==> self.has_topic(topic@),
            r matches Some(v) ==> v@.map_values(|a: Vec<u8>| a@) == self.author_seq(topic@),
    {
        let n: usize = self.entries.len();
        let mut i: usize = 0;
        while i < n
            invariant
                self.wf(),
                n == self.entries@.len(),
                i <= n,
                forall|j: int| 0 <= j < i ==> self.entries@[j].topic@ != topic@,
            decreases n - i,
        {
            if self.entries[i].topic.same_as(topic) {
                let mut out: Vec<Vec<u8>> = Vec::new();
                let m: usize = self.entries[i].authors.len();
                let mut k: usize = 0;
                while k < m
                    invariant
                        0 <= i < self.entries@.len(),
                        self.entries@[i as int].topic@ == topic@,
                        m == self.entries@[i as int].authors@.len(),
                        k <= m,
                        out@.len() == k,
                        forall|j: int|
                            0 <= j < k ==> #[trigger] out@[j]@ == self.entries@[i as int].authors@[j]@,
                    decreases m - k,
                {
                    out.push(clone_bytes(&self.entries[i].authors[k]));
                    k = k + 1;
                }
                proof {
                    assert(self.has_topic(topic@));
                    lemma_topic_idx_is(*self, topic@, i as int);
                    assert(out@.map_values(|a: Vec<u8>| a@)
                        =~= Self::entry_authors(self.entries@[i as int]));
                }
                return Some(out);
            }
            i = i + 1;
        }
        proof {
            assert(!self.has_topic(topic@));
        }
        None
    }

    /// The log map handed to the sync mechanism: for a known topic, each
    /// recorded author paired with the author's logs under the topic — in
    /// this design exactly one log, whose identifier is the topic's.
    pub fn get(&self, topic: &Topic) -> (r: Option<Vec<(Vec<u8>, Vec<Vec<u8>>)>>)
        requires
            self.wf(),
        ensures
            r is Some <==> self.has_topic(topic@),
            r matches Some(v) ==> {
                &&& v@.len() == self.author_seq(topic@).len()
                &&& forall|i: int|
                    0 <= i < v@.len() ==> #[trigger] v@[i].0@ == self.author_seq(topic@)[i]
                        && v@[i].1@.len() == 1
                        && v@[i].1@[0]@ == topic@
            },
    {
        match self.authors(topic) {
            Some(authors) => {
                let mut out: Vec<(Vec<u8>, Vec<Vec<u8>>)> = Vec::new();
                let n: usize = authors.len();
                let mut i: usize = 0;
                proof {
                    assert(authors@.map_values(|a: Vec<u8>| a@).len() == authors@.len());
                }
                while i < n
                    invariant
                        n == authors@.len(),
                        authors@.map_values(|a: Vec<u8>| a@) == self.author_seq(topic@),
                        i <= n,
                        out@.len() == i,
                        forall|j: int|
                            0 <= j < i ==> #[trigger] out@[j].0@ == self.author_seq(topic@)[j]
                                && out@[j].1@.len() == 1
                                && out@[j].1@[0]@ == topic@,
                    decreases n - i,
                {
                    proof {
                        assert(authors@.map_values(|a: Vec<u8>| a@)[i as int] == authors@[i as int]@);
                    }
                    let mut logs: Vec<Vec<u8>> = Vec::new();
                    logs.push(topic.id_vec());
                    out.push((clone_bytes(&authors[i]), logs));
                    proof {
                        assert(out@[i as int].0@ == self.author_seq(topic@)[i as int]);
                        assert(out@[i as int].1@.len() == 1);
                        assert(out@[i as int].1@[0]@ == topic@);
                    }
                    i = i + 1;
                }
                Some(out)
            },
            None => None,
        }
    }
}

/// Law: in a well-formed index no topic lists an author twice, so the
/// number of authors recorded for a topic equals the cardinality of its
/// author set — recording a pair already present changes neither.
pub proof fn lemma_author_count(s: AuthorStore, t: Seq<u8>)
    requires
        s.wf(),
    ensures
        s.author_seq(t).no_duplicates(),
        s.author_set(t).len() == s.author_seq(t).len(),
{
    if s.has_topic(t) {
        let i = s.topic_idx(t);
        assert(0 <= i < s.entries@.len());
        assert forall|a: int, b: int|
            0 <= a < s.author_seq(t).len() && 0 <= b < s.author_seq(t).len() && a != b
            implies s.author_seq(t)[a] != s.author_seq(t)[b] by {
            assert(s.author_seq(t)[a] == s.entries@[i].authors@[a]@);
            assert(s.author_seq(t)[b] == s.entries@[i].authors@[b]@);
        }
    }
    s.author_seq(t).unique_seq_to_set();
}

/// When the author is already listed under the topic, recording it again
/// leaves the index as it stands.
proof fn lemma_found_unchanged(s: AuthorStore, t: Seq<u8>, i: int, k: int, pk: Seq<u8>)
    requires
        s.wf(),
        0 <= i < s.entries@.len(),
        s.entries@[i].topic@ == t,
        0 <= k < s.entries@[i].authors@.len(),
        s.entries@[i].authors@[k]@ == pk,
    ensures
        s.has_topic(t),
        s.author_seq(t).contains(pk),
{
    assert(s.has_topic(t));
    lemma_topic_idx_is(s, t, i);
    assert(AuthorStore::entry_authors(s.entries@[i])[k] == pk);
    assert(s.author_seq(t)[k] == pk);
}

/// A well-formed index has at most one entry per topic, so the entry the
/// lookup loop finds is the entry the spec functions speak of.
proof fn lemma_topic_idx_is(s: AuthorStore, t: Seq<u8>, i: int)
    requires
        s.wf(),
        0 <= i < s.entries@.len(),
        s.entries@[i].topic@ == t,
    ensures
        s.topic_idx(t) == i,
{
    assert(s.has_topic(t));
    let j = s.topic_idx(t);
    assert(0 <= j < s.entries@.len() && s.entries@[j].topic@ == t);
    if i < j {
        assert(s.entries@[i].topic@ != s.entries@[j].topic@);
    } else if j < i {
        assert(s.entries@[j].topic@ != s.entries@[i].topic@);
    }
}

/// Appending a fresh author to a topic's entry extends that topic's author
/// list by the one author and touches no other topic.
proof fn lemma_pushed_author(pre: AuthorStore, post: AuthorStore, t: Seq<u8>, i: int, pk: Seq<u8>)
    requires
        pre.wf(),
        0 <= i < pre.entries@.len(),
        pre.entries@[i].topic@ == t,
        forall|a: int| 0 <= a < pre.entries@[i].authors@.len() ==> pre.entries@[i].authors@[a]@ != pk,
        post.entries@.len() == pre.entries@.len(),
        forall|j: int| 0 <= j < pre.entries@.len() && j != i ==> post.entries@[j] == pre.entries@[j],
        post.entries@[i].topic == pre.entries@[i].topic,
        post.entries@[i].authors@.len() == pre.entries@[i].authors@.len() + 1,
        forall|a: int|
            0 <= a < pre.entries@[i].authors@.len()
                ==> post.entries@[i].authors@[a] == pre.entries@[i].authors@[a],
        post.entries@[i].authors@.last()@ == pk,
    ensures
        post.wf(),
        post.has_topic(t),
        !pre.author_seq(t).contains(pk),
        post.author_seq(t) == pre.author_seq(t).push(pk),
        forall|u: Seq<u8>|
            u != t ==> #[trigger] post.author_seq(u) == pre.author_seq(u)
                && post.has_topic(u) == pre.has_topic(u),
{
    assert(pre.has_topic(t));
    assert(post.has_topic(t));
    lemma_topic_idx_is(pre, t, i);
    assert forall|j: int| 0 <= j < post.entries@.len() implies post.entries@[j].topic@
        == pre.entries@[j].topic@ by {}
    assert(post.wf());
    lemma_topic_idx_is(post, t, i);
    assert(AuthorStore::entry_authors(post.entries@[i])
        =~= AuthorStore::entry_authors(pre.entries@[i]).push(pk));
    if pre.author_seq(t).contains(pk) {
        let a = choose|a: int| 0 <= a < pre.author_seq(t).len() && pre.author_seq(t)[a] == pk;
        assert(pre.entries@[i].authors@[a]@ == pk);
    }
    assert forall|u: Seq<u8>| u != t implies #[trigger] post.author_seq(u) == pre.author_seq(u)
        && post.has_topic(u) == pre.has_topic(u) by {
        assert(post.has_topic(u) == pre.has_topic(u));
        if pre.has_topic(u) {
            let j = pre.topic_idx(u);
            lemma_topic_idx_is(post, u, j);
            assert(post.entries@[j] == pre.entries@[j]);
        }
    }
}

/// Appending an entry for an unseen topic records the one author under the
/// topic and touches no other topic.
proof fn lemma_new_entry(pre: AuthorStore, post: AuthorStore, t: Seq<u8>, pk: Seq<u8>)
    requires
        pre.wf(),
        !pre.has_topic(t),
        post.entries@.len() == pre.entries@.len() + 1,
        forall|j: int| 0 <= j < pre.entries@.len() ==> post.entries@[j] == pre.entries@[j],
        post.entries@.last().topic@ == t,
        post.entries@.last().authors@.len() == 1,
        post.entries@.last().authors@[0]@ == pk,
    ensures
        post.wf(),
        post.has_topic(t),
        !pre.author_seq(t).contains(pk),
        post.author_seq(t) == pre.author_seq(t).push(pk),
        forall|u: Seq<u8>|
            u != t ==> #[trigger] post.author_seq(u) == pre.author_seq(u)
                && post.has_topic(u) == pre.has_topic(u),
{
    let n = pre.entries@.len() as int;
    assert forall|i: int, j: int|
        0 <= i < j < post.entries@.len() implies post.entries@[i].topic@
        != post.entries@[j].topic@ by {
        if j < n {
        } else {
            assert(post.entries@[j].topic@ == t);
            assert(post.entries@[i] == pre.entries@[i]);
            if post.entries@[i].topic@ == t {
                assert(pre.has_topic(t));
            }
        }
    }
    assert(post.wf());
    assert(post.entries@[n].topic@ == t);
    assert(post.has_topic(t));
    lemma_topic_idx_is(post, t, n);
    assert(pre.author_seq(t) == Seq::<Seq<u8>>::empty());
    assert(AuthorStore::entry_authors(post.entries@[n]) =~= pre.author_seq(t).push(pk));
    assert forall|u: Seq<u8>| u != t implies #[trigger] post.author_seq(u) == pre.author_seq(u)
        && post.has_topic(u) == pre.has_topic(u) by {
        if pre.has_topic(u) {
            let j = pre.topic_idx(u);
            assert(post.entries@[j] == pre.entries@[j]);
            assert(post.has_topic(u));
            lemma_topic_idx_is(post, u, j);
        } else {
            if post.has_topic(u) {
                let j = choose|j: int|
                    0 <= j < post.entries@.len() && post.entries@[j].topic@ == u;
                assert(j == n);
                assert(false);
            }
        }
    }
}

} // verus!
