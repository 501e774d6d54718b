//! The decision logic of the datagram bridge's two pipelines.
//!
//! Local ingress turns one inbound datagram into the author's next signed
//! operation, appends it to the store, records the author, and yields the
//! gossip envelope to broadcast. Mesh ingress consumes one inbound mesh
//! event, decodes and validates it, appends it on success, records the
//! remote author under the topic of its log, and yields the body to
//! forward to the local client; whatever fails to decode or validate is
//! dropped and the state is left as it stands.
//!
//! The surrounding I/O — sockets, channels, the mesh transport — lives
//! outside the library and calls these two functions one event at a time.

use vstd::prelude::*;

use crate::crypto::hash_of;
use crate::crypto::pubkey_of;
use crate::operation::create_operation;
use crate::operation::decode_gossip_message;
use crate::operation::decode_header;
use crate::operation::encode_gossip_message;
use crate::operation::encode_header;
use crate::operation::envelope_enc;
use crate::operation::header_enc;
use crate::operation::lemma_envelope_lossless;
use crate::operation::lemma_header_enc_injective;
use crate::operation::opt_view;
use crate::operation::HeaderV;
use crate::store::IngestResult;
use crate::store::OperationStore;
use crate::store::OpV;
use crate::topic::AuthorStore;
use crate::topic::Topic;
use crate::util::clone_bytes;
use crate::util::clone_opt_bytes;
use crate::util::to_array32;

verus! {

/// One inbound mesh event: either a raw gossip envelope still to be
/// decoded, or a sync-delivered pair of encoded header and payload.
pub enum MeshEvent {
    /// A gossip broadcast, carrying one encoded envelope.
    Gossip(Vec<u8>),
    /// A sync delivery: encoded header bytes and optional payload bytes.
    Sync(Vec<u8>, Option<Vec<u8>>),
}

/// What one mesh-ingress step leaves behind when the event carried the
/// encoded header `hb` — here fixed to encode the header `hv` — and the
/// body `body`: on a `Complete` decision the operation is appended to its
/// author's log, the author is recorded under the topic of its log, and
/// the body is forwarded; on any other decision nothing changes and
/// nothing is forwarded.
pub open spec fn mesh_step_for(
    s0: OperationStore,
    s1: OperationStore,
    a0: AuthorStore,
    a1: AuthorStore,
    hb: Seq<u8>,
    body: Option<Seq<u8>>,
    fwd: Option<Seq<u8>>,
    hv: HeaderV,
) -> bool {
    match s0.ingest_decision(hv, body, hv.log_id, hv.prune_flag) {
        IngestResult::Complete(_) => {
            &&& s1.log_ops(hv.public_key, hv.log_id) == s0.log_ops(hv.public_key, hv.log_id).push(
                (OpV { header: hv, body: body, header_bytes: hb }),
            )
            &&& (forall|pk2: Seq<u8>, l2: Seq<u8>|
                !(pk2 == hv.public_key && l2 == hv.log_id) ==> #[trigger] s1.log_ops(pk2, l2)
                    == s0.log_ops(pk2, l2))
            &&& a1.author_seq(hv.log_id) == (if a0.author_seq(hv.log_id).contains(hv.public_key) {
                a0.author_seq(hv.log_id)
            } else {
                a0.author_seq(hv.log_id).push(hv.public_key)
            })
            &&& (forall|t: Seq<u8>|
                t != hv.log_id ==> #[trigger] a1.author_seq(t) == a0.author_seq(t))
            &&& fwd == body
        },
        _ => fwd is None && s1 == s0 && a1 == a0,
    }
}

/// What one mesh-ingress step leaves behind, given the encoded header and
/// body the event carried: if the header bytes encode no well-formed
/// header, nothing changes; otherwise the step behaves as `mesh_step_for`
/// says of the header they encode.
pub open spec fn mesh_step(
    s0: OperationStore,
    s1: OperationStore,
    a0: AuthorStore,
    a1: AuthorStore,
    hb: Seq<u8>,
    body: Option<Seq<u8>>,
    fwd: Option<Seq<u8>>,
) -> bool {
    &&& ((forall|hv: HeaderV| hv.wf() ==> hb != #[trigger] header_enc(hv)) ==> (fwd is None && s1
        == s0 && a1 == a0))
    &&& (forall|hv: HeaderV|
        hv.wf() && hb == #[trigger] header_enc(hv) ==> mesh_step_for(
            s0,
            s1,
            a0,
            a1,
            hb,
            body,
            fwd,
            hv,
        ))
}

/// The canonical header encoding is lossless, so what a step does for the
/// one header the bytes decode to, it does for every header they encode.
proof fn lemma_mesh_step_from_one(
    s0: OperationStore,
    s1: OperationStore,
    a0: AuthorStore,
    a1: AuthorStore,
    hb: Seq<u8>,
    body: Option<Seq<u8>>,
    fwd: Option<Seq<u8>>,
    hv0: HeaderV,
)
    requires
        hv0.wf(),
        hb == header_enc(hv0),
        mesh_step_for(s0, s1, a0, a1, hb, body, fwd, hv0),
    ensures
        mesh_step(s0, s1, a0, a1, hb, body, fwd),
{
    assert forall|hv: HeaderV| hv.wf() && hb == header_enc(hv) implies mesh_step_for(
        s0,
        s1,
        a0,
        a1,
        hb,
        body,
        fwd,
        hv,
    ) by {
        lemma_header_enc_injective(hv, hv0);
    }
}

/// An envelope is lossless, so what a step does for the pair the envelope
/// decodes to, it does for every pair the envelope encodes.
proof fn lemma_gossip_lift(
    s0: OperationStore,
    s1: OperationStore,
    a0: AuthorStore,
    a1: AuthorStore,
    bytes: Seq<u8>,
    hb0: Seq<u8>,
    b0: Option<Seq<u8>>,
    fwd: Option<Seq<u8>>,
)
    requires
        hb0.len() <= u64::MAX,
        bytes == envelope_enc(hb0, b0),
        mesh_step(s0, s1, a0, a1, hb0, b0, fwd),
    ensures
        forall|hb: Seq<u8>, b: Option<Seq<u8>>|
            hb.len() <= u64::MAX && bytes == #[trigger] envelope_enc(hb, b) ==> mesh_step(
                s0,
                s1,
                a0,
                a1,
                hb,
                b,
                fwd,
            ),
{
    assert forall|hb: Seq<u8>, b: Option<Seq<u8>>|
        hb.len() <= u64::MAX && bytes == #[trigger] envelope_enc(hb, b) implies mesh_step(
        s0,
        s1,
        a0,
        a1,
        hb,
        b,
        fwd,
    ) by {
        lemma_envelope_lossless(hb, b, hb0, b0);
    }
}

/// Consume one inbound mesh event: decode it, run the operation through
/// ingestion, record its author under the topic of its log, and hand back
/// the body to forward to the local client. An event that fails to decode
/// or validate is dropped: the store and index are left as they stand and
/// nothing is forwarded.
pub fn handle_mesh_event(
    store: &mut OperationStore,
    authors: &mut AuthorStore,
    event: MeshEvent,
) -> (fwd: Option<Vec<u8>>)
    requires
        old(store).wf(),
        old(authors).wf(),
    ensures
        final(store).wf(),
        final(authors).wf(),
        match event {
            MeshEvent::Gossip(bytes) => {
                &&& ((forall|hb: Seq<u8>, b: Option<Seq<u8>>|
                    hb.len() <= u64::MAX ==> bytes@ != #[trigger] envelope_enc(hb, b)) ==> (fwd
                    is None && *final(store) == *old(store) && *final(authors) == *old(authors)))
                &&& (forall|hb: Seq<u8>, b: Option<Seq<u8>>|
                    hb.len() <= u64::MAX && bytes@ == #[trigger] envelope_enc(hb, b)
                        ==> mesh_step(
                        *old(store),
                        *final(store),
                        *old(authors),
                        *final(authors),
                        hb,
                        b,
                        opt_view(fwd),
                    ))
            },
            MeshEvent::Sync(hb, b) => mesh_step(
                *old(store),
                *final(store),
                *old(authors),
                *final(authors),
                hb@,
                opt_view(b),
                opt_view(fwd),
            ),
        },
{
    let ghost ev = event;
    let ghost s0 = *store;
    let ghost a0 = *authors;
    let (header_bytes, body): (Vec<u8>, Option<Vec<u8>>) = match event {
        MeshEvent::Gossip(bytes) => {
            match decode_gossip_message(&bytes) {
                Ok(p) => p,
                Err(_) => {
                    return None;
                },
            }
        },
        MeshEvent::Sync(hb, b) => (hb, b),
    };
    // Materialize that the header bytes' length fits in usize, so the
    // envelope length prefix can name it.
    let hb_len: usize = header_bytes.len();
    let ghost hb0 = header_bytes@;
    proof {
        assert(hb0.len() == hb_len);
    }
    let ghost b0 = opt_view(body);
    let header = match decode_header(&header_bytes) {
        Ok(h) => h,
        Err(_) => {
            proof {
                assert(mesh_step(s0, *store, a0, *authors, hb0, b0, opt_view(None::<Vec<u8>>)));
                if ev is Gossip {
                    lemma_gossip_lift(
                        s0,
                        *store,
                        a0,
                        *authors,
                        ev->Gossip_0@,
                        hb0,
                        b0,
                        opt_view(None::<Vec<u8>>),
                    );
                }
            }
            return None;
        },
    };
    let ghost hv0 = header@;
    let log_id = clone_bytes(&header.log_id);
    let prune = header.prune_flag;
    let pk = clone_bytes(&header.public_key);
    let fwd_bytes = clone_opt_bytes(&body);
    proof {
        assert(opt_view(fwd_bytes) == b0);
    }
    let result = store.ingest(header, body, header_bytes, &log_id, prune);
    match result {
        IngestResult::Complete(_) => {
            let topic = Topic::new(to_array32(&log_id));
            authors.add_author(topic, pk);
            proof {
                assert(mesh_step_for(s0, *store, a0, *authors, hb0, b0, b0, hv0));
                lemma_mesh_step_from_one(s0, *store, a0, *authors, hb0, b0, b0, hv0);
                if ev is Gossip {
                    lemma_gossip_lift(s0, *store, a0, *authors, ev->Gossip_0@, hb0, b0, b0);
                }
            }
            fwd_bytes
        },
        _ => {
            proof {
                assert(mesh_step_for(
                    s0,
                    *store,
                    a0,
                    *authors,
                    hb0,
                    b0,
                    opt_view(None::<Vec<u8>>),
                    hv0,
                ));
                lemma_mesh_step_from_one(
                    s0,
                    *store,
                    a0,
                    *authors,
                    hb0,
                    b0,
                    opt_view(None::<Vec<u8>>),
                    hv0,
                );
                if ev is Gossip {
                    lemma_gossip_lift(
                        s0,
                        *store,
                        a0,
                        *authors,
                        ev->Gossip_0@,
                        hb0,
                        b0,
                        opt_view(None::<Vec<u8>>),
                    );
                }
            }
            None
        },
    }
}

/// Consume one inbound local datagram: construct the author's next signed
/// operation over its bytes, append it to the store, record the author
/// under the topic, and return the gossip envelope to broadcast. The new
/// operation continues the author's log: next sequence number, backlink
/// to the latest entry, payload hash and size of the datagram.
pub fn handle_local_datagram(
    store: &mut OperationStore,
    authors: &mut AuthorStore,
    topic: &Topic,
    private_key: &Vec<u8>,
    payload: &Vec<u8>,
    timestamp: u64,
) -> (envelope: Vec<u8>)
    requires
        old(store).wf(),
        old(authors).wf(),
        private_key@.len() == 32,
    ensures
        final(store).wf(),
        final(authors).wf(),
        ({
            let pk = pubkey_of(private_key@);
            let ops0 = old(store).log_ops(pk, topic@);
            let ops1 = final(store).log_ops(pk, topic@);
            let op = ops1.last();
            &&& ops1.len() == ops0.len() + 1
            &&& ops1.subrange(0, ops0.len() as int) == ops0
            &&& op.header.wf()
            &&& op.header.version == 1
            &&& op.header.public_key == pk
            &&& op.header.seq_num as nat == ops0.len()
            &&& op.header.backlink == old(store).expected_backlink(pk, topic@)
            &&& op.header.payload_hash == Some(hash_of(payload@))
            &&& op.header.payload_size as nat == payload@.len()
            &&& op.header.timestamp == timestamp
            &&& op.header.log_id == topic@
            &&& op.header.prune_flag == false
            &&& op.header.sig_ok()
            &&& op.body == Some(payload@)
            &&& op.header_bytes == header_enc(op.header)
            &&& envelope@ == envelope_enc(op.header_bytes, Some(payload@))
        }),
        forall|pk2: Seq<u8>, l2: Seq<u8>|
            !(pk2 == pubkey_of(private_key@) && l2 == topic@) ==> #[trigger] final(store).log_ops(
                pk2,
                l2,
            ) == old(store).log_ops(pk2, l2),
        final(authors).author_seq(topic@) == (if old(authors).author_seq(topic@).contains(
            pubkey_of(private_key@),
        ) {
            old(authors).author_seq(topic@)
        } else {
            old(authors).author_seq(topic@).push(pubkey_of(private_key@))
        }),
        forall|t: Seq<u8>|
            t != topic@ ==> #[trigger] final(authors).author_seq(t) == old(authors).author_seq(t),
{
    let log_id = topic.id_vec();
    let (header, body) = create_operation(
        store,
        &log_id,
        private_key,
        Some(payload),
        false,
        timestamp,
    );
    let pk = clone_bytes(&header.public_key);
    let envelope = encode_gossip_message(&header, Some(payload));
    let header_bytes = encode_header(&header);
    let ghost hv = header@;
    let result = store.ingest(header, body, header_bytes, &log_id, false);
    proof {
        assert(result matches IngestResult::Complete(_));
        let pkv = pubkey_of(private_key@);
        let ops0 = old(store).log_ops(pkv, topic@);
        let ops1 = store.log_ops(pkv, topic@);
        assert(ops1 == ops0.push(OpV { header: hv, body: Some(payload@), header_bytes: header_bytes@ }));
        assert(ops1.subrange(0, ops0.len() as int) =~= ops0);
    }
    authors.add_author(*topic, pk);
    envelope
}

} // verus!
