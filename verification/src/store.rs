//! The operation store: append-only per-(author, log) storage with
//! causal/sequence validation at ingestion.
//!
//! Each author writes one log per log identifier. Within a log, sequence
//! numbers are contiguous from zero and every entry after the first links
//! back to the hash of its predecessor's encoded header. Ingestion
//! validates a received operation against the log it claims and either
//! appends it, reports it as already present, or rejects it.

use vstd::prelude::*;

use crate::crypto::hash_of;
use crate::crypto::hash_vec;
use crate::crypto::verify_signature;
use crate::operation::encode_header_unsigned;
use crate::operation::header_enc;
use crate::operation::opt_view;
use crate::operation::Header;
use crate::operation::HeaderV;
use crate::util::bytes_eq;
use crate::util::clone_bytes;
use crate::util::vec_mut_at;

verus! {

/// One operation as stored: its header, optional body, and the canonical
/// encoding of the header (whose hash is the operation's identity).
pub struct StoredOperation {
    /// The operation's header.
    pub header: Header,
    /// The operation's payload bytes, when it has any.
    pub body: Option<Vec<u8>>,
    /// The canonical encoding of `header`.
    pub header_bytes: Vec<u8>,
}

/// The mathematical value of a stored operation.
#[verifier::ext_equal]
pub struct OpV {
    /// The header's value.
    pub header: HeaderV,
    /// The body bytes, when present.
    pub body: Option<Seq<u8>>,
    /// The encoded header's bytes.
    pub header_bytes: Seq<u8>,
}

impl View for StoredOperation {
    type V = OpV;

    open spec fn view(&self) -> OpV {
        OpV {
            header: self.header@,
            body: opt_view(self.body),
            header_bytes: self.header_bytes@,
        }
    }
}

/// One author's log under one log identifier.
pub struct AuthorLog {
    /// The author's public key.
    pub public_key: Vec<u8>,
    /// The log identifier.
    pub log_id: Vec<u8>,
    /// The operations, in sequence-number order.
    pub operations: Vec<StoredOperation>,
}

/// The append-only operation store: every log of every author.
pub struct OperationStore {
    /// One entry per (author, log identifier) pair.
    pub logs: Vec<AuthorLog>,
}

/// A log is internally consistent: entries carry the log's author and
/// identifier, sequence numbers are contiguous from zero, each entry after
/// the first backlinks to the hash of its predecessor's encoded header,
/// every signature verifies, and every declared payload matches the body.
pub open spec fn log_wf(l: AuthorLog) -> bool {
    forall|k: int|
        0 <= k < l.operations@.len() ==> {
            let op = #[trigger] l.operations@[k]@;
            &&& op.header.public_key == l.public_key@
            &&& op.header.log_id == l.log_id@
            &&& op.header.seq_num as int == k
            &&& op.header.wf()
            &&& op.header_bytes == header_enc(op.header)
            &&& op.header.sig_ok()
            &&& op.header.payload_matches(op.body)
            &&& (k == 0 ==> op.header.backlink is None)
            &&& (k > 0 ==> op.header.backlink == Some(
                hash_of(l.operations@[k - 1]@.header_bytes),
            ))
        }
}

impl OperationStore {
    /// Distinct (author, log identifier) pairs, each log well-formed.
    pub open spec fn wf(self) -> bool {
        &&& forall|i: int, j: int|
            0 <= i < j < self.logs@.len() ==> !(#[trigger] self.logs@[i].public_key@
                == self.logs@[j].public_key@ && #[trigger] self.logs@[j].log_id@
                == self.logs@[i].log_id@)
        &&& forall|i: int| 0 <= i < self.logs@.len() ==> log_wf(#[trigger] self.logs@[i])
    }

    /// Whether the store holds a log for the author and identifier.
    pub open spec fn has_log(self, pk: Seq<u8>, log: Seq<u8>) -> bool {
        exists|i: int|
            0 <= i < self.logs@.len() && self.logs@[i].public_key@ == pk && self.logs@[i].log_id@
                == log
    }

    /// The index of that log.
    pub open spec fn log_idx(self, pk: Seq<u8>, log: Seq<u8>) -> int {
        choose|i: int|
            0 <= i < self.logs@.len() && self.logs@[i].public_key@ == pk && self.logs@[i].log_id@
                == log
    }

    /// The operations of the author's log, in sequence order; empty when
    /// the store holds no such log.
    pub open spec fn log_ops(self, pk: Seq<u8>, log: Seq<u8>) -> Seq<OpV> {
        if self.has_log(pk, log) {
            self.logs@[self.log_idx(pk, log)].operations@.map_values(|op: StoredOperation| op@)
        } else {
            Seq::empty()
        }
    }

    /// The sequence number the author's next operation must carry.
    pub open spec fn next_seq(self, pk: Seq<u8>, log: Seq<u8>) -> nat {
        self.log_ops(pk, log).len()
    }

    /// The backlink the author's next operation must carry: the hash of
    /// the latest entry's encoded header, or none for a fresh log.
    pub open spec fn expected_backlink(self, pk: Seq<u8>, log: Seq<u8>) -> Option<Seq<u8>> {
        if self.log_ops(pk, log).len() == 0 {
            None
        } else {
            Some(hash_of(self.log_ops(pk, log).last().header_bytes))
        }
    }

    /// What ingestion decides for an operation, checked in order: the
    /// signature, the payload declaration, the claimed log identifier and
    /// prune flag, then the sequence number and backlink against the log.
    pub open spec fn ingest_decision(
        self,
        h: HeaderV,
        body: Option<Seq<u8>>,
        log_id: Seq<u8>,
        prune: bool,
    ) -> IngestResult {
        if !h.sig_ok() {
            IngestResult::Error(IngestError::InvalidSignature)
        } else if !h.payload_matches(body) {
            IngestResult::Error(IngestError::PayloadMismatch)
        } else if h.log_id != log_id {
            IngestResult::Error(IngestError::LogIdMismatch)
        } else if h.prune_flag != prune {
            IngestResult::Error(IngestError::PruneFlagMismatch)
        } else if (h.seq_num as nat) < self.next_seq(h.public_key, log_id) {
            IngestResult::Duplicate
        } else if (h.seq_num as nat) > self.next_seq(h.public_key, log_id) {
            IngestResult::Error(IngestError::SeqNumGap)
        } else if h.backlink != self.expected_backlink(h.public_key, log_id) {
            IngestResult::Error(IngestError::BacklinkMismatch)
        } else {
            IngestResult::Complete(h.seq_num)
        }
    }

    /// An empty store.
    pub fn new() -> (r: OperationStore)
        ensures
            r.wf(),
            forall|pk: Seq<u8>, log: Seq<u8>| !r.has_log(pk, log),
    {
        OperationStore { logs: Vec::new() }
    }

    /// Find the position of the author's log, when the store holds one.
    fn find_log(&self, pk: &Vec<u8>, log_id: &Vec<u8>) -> (r: Option<usize>)
        requires
            self.wf(),
        ensures
            r matches Some(i) ==> i < self.logs@.len() && self.logs@[i as int].public_key@ == pk@
                && self.logs@[i as int].log_id@ == log_id@ && self.log_idx(pk@, log_id@) == i
                && self.has_log(pk@, log_id@),
            r is None ==> !self.has_log(pk@, log_id@),
    {
        let n: usize = self.logs.len();
        let mut i: usize = 0;
        while i < n
            invariant
                self.wf(),
                n == self.logs@.len(),
                i <= n,
                forall|j: int|
                    0 <= j < i ==> !(#[trigger] self.logs@[j].public_key@ == pk@
                        && self.logs@[j].log_id@ == log_id@),
            decreases n - i,
        {
            if bytes_eq(&self.logs[i].public_key, pk) && bytes_eq(&self.logs[i].log_id, log_id) {
                proof {
                    assert(self.has_log(pk@, log_id@));
                    lemma_log_idx_is(*self, pk@, log_id@, i as int);
                }
                return Some(i);
            }
            i = i + 1;
        }
        None
    }

    /// The number of operations stored in the author's log.
    pub fn log_len(&self, pk: &Vec<u8>, log_id: &Vec<u8>) -> (r: usize)
        requires
            self.wf(),
        ensures
            r == self.log_ops(pk@, log_id@).len(),
    {
        match self.find_log(pk, log_id) {
            Some(i) => self.logs[i].operations.len(),
            None => 0,
        }
    }

    /// Validate one operation against the log it claims and, when valid,
    /// append it. The result is exactly what `ingest_decision` decides: on
    /// `Complete` the operation is appended to its author's log and no
    /// other log changes; on `Duplicate` or `Error` the store is left as
    /// it stands.
    #[verifier::rlimit(100)]
    #[verifier::spinoff_prover]
    pub fn ingest(
        &mut self,
        header: Header,
        body: Option<Vec<u8>>,
        header_bytes: Vec<u8>,
        log_id: &Vec<u8>,
        prune: bool,
    ) -> (r: IngestResult)
        requires
            old(self).wf(),
            header@.wf(),
            header_bytes@ == header_enc(header@),
        ensures
            final(self).wf(),
            r == old(self).ingest_decision(header@, opt_view(body), log_id@, prune),
            r matches IngestResult::Complete(seq) ==> {
                &&& seq == header@.seq_num
                &&& final(self).has_log(header@.public_key, log_id@)
                &&& final(self).log_ops(header@.public_key, log_id@) == old(self).log_ops(
                    header@.public_key,
                    log_id@,
                ).push(
                    (OpV { header: header@, body: opt_view(body), header_bytes: header_bytes@ }),
                )
            },
            !(r matches IngestResult::Complete(_)) ==> *final(self) == *old(self),
            forall|pk2: Seq<u8>, l2: Seq<u8>|
                !(pk2 == header@.public_key && l2 == log_id@) ==> #[trigger] final(self).log_ops(
                    pk2,
                    l2,
                ) == old(self).log_ops(pk2, l2) && final(self).has_log(pk2, l2) == old(
                    self,
                ).has_log(pk2, l2),
    {
        let ghost hv = header@;
        let ghost bodyv = opt_view(body);
        let signing = encode_header_unsigned(&header);
        let sig_valid = match &header.signature {
            Some(sig) => verify_signature(&header.public_key, &signing, sig),
            None => false,
        };
        proof {
            assert(sig_valid == hv.sig_ok());
        }
        if !sig_valid {
            return IngestResult::Error(IngestError::InvalidSignature);
        }
        let payload_ok = match (&body, &header.payload_hash) {
            (Some(b), Some(ph)) => {
                let bh = hash_vec(b.as_slice());
                bytes_eq(&bh, ph) && header.payload_size == b.len() as u64
            },
            (None, None) => header.payload_size == 0,
            _ => false,
        };
        proof {
            assert(payload_ok == hv.payload_matches(bodyv));
        }
        if !payload_ok {
            return IngestResult::Error(IngestError::PayloadMismatch);
        }
        if !bytes_eq(&header.log_id, log_id) {
            return IngestResult::Error(IngestError::LogIdMismatch);
        }
        if header.prune_flag != prune {
            return IngestResult::Error(IngestError::PruneFlagMismatch);
        }
        let idx_opt = self.find_log(&header.public_key, log_id);
        let len: usize = match idx_opt {
            Some(i) => self.logs[i].operations.len(),
            None => 0,
        };
        proof {
            assert(len == old(self).next_seq(hv.public_key, log_id@));
        }
        if header.seq_num < len as u64 {
            return IngestResult::Duplicate;
        }
        if header.seq_num > len as u64 {
            return IngestResult::Error(IngestError::SeqNumGap);
        }
        let backlink_ok = match idx_opt {
            Some(i) => {
                let m: usize = self.logs[i].operations.len();
                if m == 0 {
                    match &header.backlink {
                        None => true,
                        Some(_) => false,
                    }
                } else {
                    let prev_hash = hash_vec(self.logs[i].operations[m - 1].header_bytes.as_slice());
                    match &header.backlink {
                        Some(bl) => bytes_eq(bl, &prev_hash),
                        None => false,
                    }
                }
            },
            None => match &header.backlink {
                None => true,
                Some(_) => false,
            },
        };
        proof {
            assert(backlink_ok == (hv.backlink == old(self).expected_backlink(
                hv.public_key,
                log_id@,
            )));
        }
        if !backlink_ok {
            return IngestResult::Error(IngestError::BacklinkMismatch);
        }
        let seq = header.seq_num;
        proof {
            assert(old(self).ingest_decision(hv, bodyv, log_id@, prune)
                == IngestResult::Complete(seq));
        }
        let op = StoredOperation { header, body, header_bytes };
        let ghost opg = op;
        match idx_opt {
            Some(i) => {
                let log = vec_mut_at(&mut self.logs, i);
                log.operations.push(op);
                proof {
                    lemma_appended(*old(self), *self, i as int, opg, log_id@);
                }
            },
            None => {
                let pk_clone = clone_bytes(&op.header.public_key);
                let lid_clone = clone_bytes(log_id);
                let mut ops: Vec<StoredOperation> = Vec::new();
                ops.push(op);
                self.logs.push(AuthorLog { public_key: pk_clone, log_id: lid_clone, operations: ops });
                proof {
                    lemma_new_log(*old(self), *self, opg, log_id@);
                }
            },
        }
        proof {
            assert(opg@.header == hv);
            assert forall|pk2: Seq<u8>, l2: Seq<u8>|
                !(pk2 == hv.public_key && l2 == log_id@) implies #[trigger] self.log_ops(pk2, l2)
                    == old(self).log_ops(pk2, l2) && self.has_log(pk2, l2) == old(self).has_log(
                pk2,
                l2,
            ) by {
                assert(self.log_ops(pk2, l2) == old(self).log_ops(pk2, l2));
            }
        }
        IngestResult::Complete(seq)
    }

    /// The latest operation of the author's log, or none when the store
    /// holds no entry for it.
    pub fn latest_operation(&self, pk: &Vec<u8>, log_id: &Vec<u8>) -> (r: Option<
        &StoredOperation,
    >)
        requires
            self.wf(),
        ensures
            r matches Some(op) ==> self.log_ops(pk@, log_id@).len() > 0 && op@ == self.log_ops(
                pk@,
                log_id@,
            ).last(),
            r is None ==> self.log_ops(pk@, log_id@).len() == 0,
    {
        match self.find_log(pk, log_id) {
            Some(i) => {
                let len: usize = self.logs[i].operations.len();
                if len == 0 {
                    None
                } else {
                    Some(&self.logs[i].operations[len - 1])
                }
            },
            None => None,
        }
    }
}

/// A well-formed store has at most one log per (author, identifier) pair,
/// so the log the lookup loop finds is the log the spec functions speak
/// of.
proof fn lemma_log_idx_is(s: OperationStore, pk: Seq<u8>, log: Seq<u8>, i: int)
    requires
        s.wf(),
        0 <= i < s.logs@.len(),
        s.logs@[i].public_key@ == pk,
        s.logs@[i].log_id@ == log,
    ensures
        s.has_log(pk, log),
        s.log_idx(pk, log) == i,
{
    assert(s.has_log(pk, log));
    let j = s.log_idx(pk, log);
    if i < j {
        assert(!(s.logs@[i].public_key@ == s.logs@[j].public_key@ && s.logs@[j].log_id@
            == s.logs@[i].log_id@));
    } else if j < i {
        assert(!(s.logs@[j].public_key@ == s.logs@[i].public_key@ && s.logs@[i].log_id@
            == s.logs@[j].log_id@));
    }
}

/// The conditions under which an operation may be appended to a log: it
/// belongs to the log, continues its sequence, links back to its latest
/// entry, is well-formed, correctly encoded, signed, and its payload
/// declaration matches its body.
pub open spec fn appendable(pre: OperationStore, op: StoredOperation, log_id: Seq<u8>) -> bool {
    &&& op@.header.log_id == log_id
    &&& op@.header.wf()
    &&& op@.header_bytes == header_enc(op@.header)
    &&& op@.header.sig_ok()
    &&& op@.header.payload_matches(op@.body)
    &&& op@.header.seq_num as nat == pre.next_seq(op@.header.public_key, log_id)
    &&& op@.header.backlink == pre.expected_backlink(op@.header.public_key, log_id)
}

/// Appending a valid next operation to an existing log preserves
/// well-formedness, extends exactly that log by the one operation, and
/// touches no other log.
proof fn lemma_appended(
    pre: OperationStore,
    post: OperationStore,
    i: int,
    op: StoredOperation,
    log_id: Seq<u8>,
)
    requires
        pre.wf(),
        0 <= i < pre.logs@.len(),
        pre.logs@[i].public_key@ == op@.header.public_key,
        pre.logs@[i].log_id@ == log_id,
        appendable(pre, op, log_id),
        post.logs@.len() == pre.logs@.len(),
        forall|j: int| 0 <= j < pre.logs@.len() && j != i ==> post.logs@[j] == pre.logs@[j],
        post.logs@[i].public_key == pre.logs@[i].public_key,
        post.logs@[i].log_id == pre.logs@[i].log_id,
        post.logs@[i].operations@ == pre.logs@[i].operations@.push(op),
    ensures
        post.wf(),
        post.has_log(op@.header.public_key, log_id),
        post.log_ops(op@.header.public_key, log_id) == pre.log_ops(
            op@.header.public_key,
            log_id,
        ).push(op@),
        forall|pk2: Seq<u8>, l2: Seq<u8>|
            !(pk2 == op@.header.public_key && l2 == log_id) ==> #[trigger] post.log_ops(pk2, l2)
                == pre.log_ops(pk2, l2) && post.has_log(pk2, l2) == pre.has_log(pk2, l2),
{
    let pk = op@.header.public_key;
    lemma_log_idx_is(pre, pk, log_id, i);
    let ops0 = pre.logs@[i].operations@;
    let m = ops0.len() as int;
    assert(pre.log_ops(pk, log_id) =~= ops0.map_values(|o: StoredOperation| o@));
    assert(pre.next_seq(pk, log_id) == m);
    assert forall|j: int| 0 <= j < post.logs@.len() implies post.logs@[j].public_key@
        == pre.logs@[j].public_key@ && post.logs@[j].log_id@ == pre.logs@[j].log_id@ by {}
    assert forall|j: int| 0 <= j < post.logs@.len() implies log_wf(#[trigger] post.logs@[j]) by {
        if j != i {
            assert(post.logs@[j] == pre.logs@[j]);
        } else {
            let l1 = post.logs@[i];
            assert forall|k: int| 0 <= k < l1.operations@.len() implies {
                let o = #[trigger] l1.operations@[k]@;
                &&& o.header.public_key == l1.public_key@
                &&& o.header.log_id == l1.log_id@
                &&& o.header.seq_num as int == k
                &&& o.header.wf()
                &&& o.header_bytes == header_enc(o.header)
                &&& o.header.sig_ok()
                &&& o.header.payload_matches(o.body)
                &&& (k == 0 ==> o.header.backlink is None)
                &&& (k > 0 ==> o.header.backlink == Some(
                    hash_of(l1.operations@[k - 1]@.header_bytes),
                ))
            } by {
                if k < m {
                    assert(l1.operations@[k] == ops0[k]);
                    assert(log_wf(pre.logs@[i]));
                } else {
                    assert(l1.operations@[k] == op);
                    if m > 0 {
                        assert(pre.log_ops(pk, log_id).last() == ops0[m - 1]@);
                        assert(l1.operations@[k - 1] == ops0[m - 1]);
                    }
                }
            }
            assert(log_wf(l1));
        }
    }
    assert(post.wf());
    assert(post.has_log(pk, log_id));
    lemma_log_idx_is(post, pk, log_id, i);
    assert(post.log_ops(pk, log_id) =~= pre.log_ops(pk, log_id).push(op@));
    assert forall|pk2: Seq<u8>, l2: Seq<u8>| !(pk2 == pk && l2 == log_id) implies #[trigger] post
        .log_ops(pk2, l2) == pre.log_ops(pk2, l2) && post.has_log(pk2, l2) == pre.has_log(
        pk2,
        l2,
    ) by {
        assert(post.has_log(pk2, l2) == pre.has_log(pk2, l2));
        if pre.has_log(pk2, l2) {
            let j = pre.log_idx(pk2, l2);
            assert(0 <= j < pre.logs@.len() && pre.logs@[j].public_key@ == pk2
                && pre.logs@[j].log_id@ == l2);
            assert(j != i);
            lemma_log_idx_is(post, pk2, l2, j);
            assert(post.logs@[j] == pre.logs@[j]);
            assert(post.log_ops(pk2, l2) =~= pre.log_ops(pk2, l2));
        } else {
            assert(post.log_ops(pk2, l2) =~= pre.log_ops(pk2, l2));
        }
    }
}

/// Appending a fresh log holding one valid first operation preserves
/// well-formedness, creates exactly that author's log, and touches no
/// other log.
proof fn lemma_new_log(pre: OperationStore, post: OperationStore, op: StoredOperation, log_id: Seq<u8>)
    requires
        pre.wf(),
        !pre.has_log(op@.header.public_key, log_id),
        appendable(pre, op, log_id),
        post.logs@.len() == pre.logs@.len() + 1,
        forall|j: int| 0 <= j < pre.logs@.len() ==> post.logs@[j] == pre.logs@[j],
        post.logs@.last().public_key@ == op@.header.public_key,
        post.logs@.last().log_id@ == log_id,
        post.logs@.last().operations@ == seq![op],
    ensures
        post.wf(),
        post.has_log(op@.header.public_key, log_id),
        post.log_ops(op@.header.public_key, log_id) == pre.log_ops(
            op@.header.public_key,
            log_id,
        ).push(op@),
        forall|pk2: Seq<u8>, l2: Seq<u8>|
            !(pk2 == op@.header.public_key && l2 == log_id) ==> #[trigger] post.log_ops(pk2, l2)
                == pre.log_ops(pk2, l2) && post.has_log(pk2, l2) == pre.has_log(pk2, l2),
{
    let pk = op@.header.public_key;
    let n = pre.logs@.len() as int;
    assert(pre.log_ops(pk, log_id) =~= Seq::<OpV>::empty());
    assert(pre.next_seq(pk, log_id) == 0);
    assert forall|i: int, j: int|
        0 <= i < j < post.logs@.len() implies !(#[trigger] post.logs@[i].public_key@
        == post.logs@[j].public_key@ && #[trigger] post.logs@[j].log_id@
        == post.logs@[i].log_id@) by {
        if j < n {
        } else {
            assert(post.logs@[j].public_key@ == pk && post.logs@[j].log_id@ == log_id);
            assert(post.logs@[i] == pre.logs@[i]);
            if post.logs@[i].public_key@ == pk && post.logs@[i].log_id@ == log_id {
                assert(pre.has_log(pk, log_id));
            }
        }
    }
    assert forall|j: int| 0 <= j < post.logs@.len() implies log_wf(#[trigger] post.logs@[j]) by {
        if j < n {
            assert(post.logs@[j] == pre.logs@[j]);
        } else {
            let l1 = post.logs@[j];
            assert(l1.operations@.len() == 1);
            assert(l1.operations@[0] == op);
            assert(log_wf(l1));
        }
    }
    assert(post.wf());
    assert(post.logs@[n].public_key@ == pk && post.logs@[n].log_id@ == log_id);
    assert(post.has_log(pk, log_id));
    lemma_log_idx_is(post, pk, log_id, n);
    assert(post.log_ops(pk, log_id) =~= pre.log_ops(pk, log_id).push(op@));
    assert forall|pk2: Seq<u8>, l2: Seq<u8>| !(pk2 == pk && l2 == log_id) implies #[trigger] post
        .log_ops(pk2, l2) == pre.log_ops(pk2, l2) && post.has_log(pk2, l2) == pre.has_log(
        pk2,
        l2,
    ) by {
        if pre.has_log(pk2, l2) {
            let j = pre.log_idx(pk2, l2);
            assert(post.logs@[j] == pre.logs@[j]);
            assert(post.has_log(pk2, l2));
            lemma_log_idx_is(post, pk2, l2, j);
            assert(post.log_ops(pk2, l2) =~= pre.log_ops(pk2, l2));
        } else {
            if post.has_log(pk2, l2) {
                let j = choose|j: int|
                    0 <= j < post.logs@.len() && post.logs@[j].public_key@ == pk2
                        && post.logs@[j].log_id@ == l2;
                assert(j == n);
                assert(false);
            }
            assert(post.log_ops(pk2, l2) =~= pre.log_ops(pk2, l2));
        }
    }
}

/// Law: in a well-formed store, every log's operations carry strictly
/// contiguous sequence numbers starting at zero, and every entry after the
/// first links back to the hash of its predecessor's encoded header, the
/// first to nothing.
pub proof fn lemma_log_contiguous(s: OperationStore, pk: Seq<u8>, log: Seq<u8>)
    requires
        s.wf(),
    ensures
        forall|k: int|
            0 <= k < s.log_ops(pk, log).len() ==> (#[trigger] s.log_ops(pk, log)[k]).header.seq_num
                as int == k,
        forall|k: int|
            0 <= k < s.log_ops(pk, log).len() ==> (k == 0 ==> (#[trigger] s.log_ops(
                pk,
                log,
            )[k]).header.backlink is None),
        forall|k: int|
            0 <= k < s.log_ops(pk, log).len() ==> (k > 0 ==> (#[trigger] s.log_ops(
                pk,
                log,
            )[k]).header.backlink == Some(hash_of(s.log_ops(pk, log)[k - 1].header_bytes))),
{
    if s.has_log(pk, log) {
        let i = s.log_idx(pk, log);
        assert(0 <= i < s.logs@.len());
        assert(log_wf(s.logs@[i]));
        assert forall|k: int| 0 <= k < s.log_ops(pk, log).len() implies (#[trigger] s.log_ops(
            pk,
            log,
        )[k]).header.seq_num as int == k && (k == 0 ==> s.log_ops(pk, log)[k].header.backlink
            is None) && (k > 0 ==> s.log_ops(pk, log)[k].header.backlink == Some(
            hash_of(s.log_ops(pk, log)[k - 1].header_bytes),
        )) by {
            assert(s.log_ops(pk, log)[k] == s.logs@[i].operations@[k]@);
            if k > 0 {
                assert(s.log_ops(pk, log)[k - 1] == s.logs@[i].operations@[k - 1]@);
            }
        }
    }
}

/// Law: in a well-formed store, every stored operation's signature
/// verifies and its payload declaration matches its body: the hash and
/// size of the body when one is present, no hash and size zero otherwise.
pub proof fn lemma_stored_operations_valid(s: OperationStore, pk: Seq<u8>, log: Seq<u8>)
    requires
        s.wf(),
    ensures
        forall|k: int|
            0 <= k < s.log_ops(pk, log).len() ==> (#[trigger] s.log_ops(
                pk,
                log,
            )[k]).header.payload_matches(s.log_ops(pk, log)[k].body),
        forall|k: int|
            0 <= k < s.log_ops(pk, log).len() ==> (#[trigger] s.log_ops(pk, log)[k]).header.sig_ok(),
{
    if s.has_log(pk, log) {
        let i = s.log_idx(pk, log);
        assert(0 <= i < s.logs@.len());
        assert(log_wf(s.logs@[i]));
        assert forall|k: int| 0 <= k < s.log_ops(pk, log).len() implies (#[trigger] s.log_ops(
            pk,
            log,
        )[k]).header.payload_matches(s.log_ops(pk, log)[k].body) && s.log_ops(
            pk,
            log,
        )[k].header.sig_ok() by {
            assert(s.log_ops(pk, log)[k] == s.logs@[i].operations@[k]@);
        }
    }
}

/// Law: ingesting a well-formed operation that was just accepted yields
/// `Duplicate` ever after — the log grew by exactly one entry, and the
/// operation's sequence number now lies below the log's next one.
pub proof fn lemma_ingest_idempotent(
    pre: OperationStore,
    post: OperationStore,
    h: HeaderV,
    body: Option<Seq<u8>>,
    log_id: Seq<u8>,
    prune: bool,
)
    requires
        pre.wf(),
        pre.ingest_decision(h, body, log_id, prune) matches IngestResult::Complete(_),
        post.log_ops(h.public_key, log_id) == pre.log_ops(h.public_key, log_id).push(
            (OpV { header: h, body: body, header_bytes: header_enc(h) }),
        ),
    ensures
        post.next_seq(h.public_key, log_id) == pre.next_seq(h.public_key, log_id) + 1,
        post.ingest_decision(h, body, log_id, prune) == IngestResult::Duplicate,
{
    assert(h.sig_ok());
    assert(h.payload_matches(body));
    assert(h.seq_num as nat == pre.next_seq(h.public_key, log_id));
    assert(post.next_seq(h.public_key, log_id) == pre.next_seq(h.public_key, log_id) + 1);
    assert((h.seq_num as nat) < post.next_seq(h.public_key, log_id));
}

/// Why an operation was rejected.
#[derive(Clone, Copy, Debug, PartialEq, Eq, Structural)]
pub enum IngestError {
    /// The header carries no signature, or one that does not verify.
    InvalidSignature,
    /// The body does not match the header's payload hash and size.
    PayloadMismatch,
    /// The header's log identifier differs from the claimed one.
    LogIdMismatch,
    /// The header's prune flag differs from the claimed one.
    PruneFlagMismatch,
    /// The sequence number skips ahead of the log.
    SeqNumGap,
    /// The backlink does not hash the log's latest header.
    BacklinkMismatch,
}

/// The outcome of ingesting one operation.
#[derive(Clone, Copy, Debug, PartialEq, Eq, Structural)]
pub enum IngestResult {
    /// The operation was appended; carries its sequence number.
    Complete(u64),
    /// An operation with this sequence number is already present.
    Duplicate,
    /// The operation was rejected and discarded.
    Error(IngestError),
}

} // verus!
