//! Operation headers and the wire codecs.
//!
//! An operation is a signed log entry: a header carrying the metadata and
//! signature, and an optional body holding the payload bytes. The header
//! has a canonical fixed-width byte encoding, consumed for signing and
//! hashing; the gossip envelope wraps the encoded header together with the
//! optional body for broadcast. Both codecs round-trip losslessly.

use vstd::prelude::*;

use crate::crypto::derive_public_key;
use crate::crypto::hash_of;
use crate::crypto::hash_vec;
use crate::crypto::pubkey_of;
use crate::crypto::sign_bytes;
use crate::crypto::sign_of;
use crate::crypto::verify_ok;
use crate::store::IngestResult;
use crate::store::OperationStore;
use crate::util::append_bytes;
use crate::util::clone_bytes;
use crate::util::append_u64;
use crate::util::append_zeros;
use crate::util::read_exact;
use crate::util::read_u64;

verus! {

/// An operation header: the metadata of one log entry.
///
/// The signature, when present, covers the canonical encoding of every
/// other field. The payload hash and size describe the optional body; the
/// backlink is the hash of the author's preceding header in the same log,
/// absent only at sequence number zero.
pub struct Header {
    /// Protocol version.
    pub version: u64,
    /// The author's Ed25519 public key, 32 bytes.
    pub public_key: Vec<u8>,
    /// Ed25519 signature over the encoding of the other fields, 64 bytes.
    pub signature: Option<Vec<u8>>,
    /// Byte length of the body, zero when there is none.
    pub payload_size: u64,
    /// BLAKE3 hash of the body, present iff a body is present.
    pub payload_hash: Option<Vec<u8>>,
    /// Creation time, in whole seconds since the epoch.
    pub timestamp: u64,
    /// Position in the author's log, starting at zero.
    pub seq_num: u64,
    /// Hash of the author's preceding header in this log.
    pub backlink: Option<Vec<u8>>,
    /// The log this entry belongs to, 32 bytes.
    pub log_id: Vec<u8>,
    /// Whether peers may discard earlier payloads of this log.
    pub prune_flag: bool,
}

/// The mathematical value of a header.
#[verifier::ext_equal]
pub struct HeaderV {
    /// Protocol version.
    pub version: u64,
    /// The author's public key bytes.
    pub public_key: Seq<u8>,
    /// The signature bytes, when signed.
    pub signature: Option<Seq<u8>>,
    /// Declared byte length of the body.
    pub payload_size: u64,
    /// Declared hash of the body.
    pub payload_hash: Option<Seq<u8>>,
    /// Creation time in seconds.
    pub timestamp: u64,
    /// Position in the author's log.
    pub seq_num: u64,
    /// Hash of the preceding header.
    pub backlink: Option<Seq<u8>>,
    /// The log identifier.
    pub log_id: Seq<u8>,
    /// The prune flag.
    pub prune_flag: bool,
}

/// The value of an optional byte vector.
pub open spec fn opt_view(o: Option<Vec<u8>>) -> Option<Seq<u8>> {
    match o {
        Some(v) => Some(v@),
        None => None,
    }
}

impl View for Header {
    type V = HeaderV;

    open spec fn view(&self) -> HeaderV {
        HeaderV {
            version: self.version,
            public_key: self.public_key@,
            signature: opt_view(self.signature),
            payload_size: self.payload_size,
            payload_hash: opt_view(self.payload_hash),
            timestamp: self.timestamp,
            seq_num: self.seq_num,
            backlink: opt_view(self.backlink),
            log_id: self.log_id@,
            prune_flag: self.prune_flag,
        }
    }
}

impl HeaderV {
    /// Every fixed-width field has its width: 32-byte key, hashes and log
    /// identifier, 64-byte signature.
    pub open spec fn wf(self) -> bool {
        &&& self.public_key.len() == 32
        &&& (self.signature matches Some(s) ==> s.len() == 64)
        &&& (self.payload_hash matches Some(h) ==> h.len() == 32)
        &&& (self.backlink matches Some(b) ==> b.len() == 32)
        &&& self.log_id.len() == 32
    }

    /// The header with its signature removed: what the signature covers.
    pub open spec fn unsigned(self) -> HeaderV {
        HeaderV { signature: None, ..self }
    }

    /// The bytes the author signs: the canonical encoding of the header
    /// without its signature.
    pub open spec fn signing_bytes(self) -> Seq<u8> {
        header_enc(self.unsigned())
    }

    /// Whether the header carries a signature that verifies, under the
    /// header's own public key, over the encoding of the other fields.
    pub open spec fn sig_ok(self) -> bool {
        match self.signature {
            Some(s) => verify_ok(self.public_key, self.signing_bytes(), s),
            None => false,
        }
    }

    /// Whether a body matches the header's payload declaration: hash and
    /// size of the body when present, no hash and size zero when absent.
    pub open spec fn payload_matches(self, body: Option<Seq<u8>>) -> bool {
        match body {
            Some(b) => self.payload_hash == Some(hash_of(b)) && self.payload_size as nat
                == b.len(),
            None => self.payload_hash is None && self.payload_size == 0,
        }
    }
}

/// A sequence of `n` zero bytes.
pub open spec fn zero_seq(n: nat) -> Seq<u8> {
    Seq::new(n, |i: int| 0u8)
}

/// The encoding of an optional fixed-width field: a presence byte, then
/// the value's bytes, or zeroes when absent.
pub open spec fn opt_enc(o: Option<Seq<u8>>, n: nat) -> Seq<u8> {
    match o {
        Some(v) => seq![1u8] + v,
        None => seq![0u8] + zero_seq(n),
    }
}

/// The canonical byte encoding of a header: 228 bytes, all offsets fixed.
pub open spec fn header_enc(h: HeaderV) -> Seq<u8> {
    vstd::bytes::spec_u64_to_le_bytes(h.version) + h.public_key + opt_enc(h.signature, 64)
        + vstd::bytes::spec_u64_to_le_bytes(h.payload_size) + opt_enc(h.payload_hash, 32)
        + vstd::bytes::spec_u64_to_le_bytes(h.timestamp)
        + vstd::bytes::spec_u64_to_le_bytes(h.seq_num) + opt_enc(h.backlink, 32) + h.log_id
        + seq![if h.prune_flag { 1u8 } else { 0u8 }]
}

/// The encoded length of every well-formed header.
pub const HEADER_ENC_LEN: usize = 228;

/// The parts of a well-formed header's encoding, by their fixed offsets.
pub proof fn lemma_enc_parts(h: HeaderV)
    requires
        h.wf(),
    ensures
        header_enc(h).len() == 228,
        header_enc(h).subrange(0, 8) == vstd::bytes::spec_u64_to_le_bytes(h.version),
        header_enc(h).subrange(8, 40) == h.public_key,
        header_enc(h).subrange(40, 105) == opt_enc(h.signature, 64),
        header_enc(h).subrange(105, 113) == vstd::bytes::spec_u64_to_le_bytes(h.payload_size),
        header_enc(h).subrange(113, 146) == opt_enc(h.payload_hash, 32),
        header_enc(h).subrange(146, 154) == vstd::bytes::spec_u64_to_le_bytes(h.timestamp),
        header_enc(h).subrange(154, 162) == vstd::bytes::spec_u64_to_le_bytes(h.seq_num),
        header_enc(h).subrange(162, 195) == opt_enc(h.backlink, 32),
        header_enc(h).subrange(195, 227) == h.log_id,
        header_enc(h)[227] == (if h.prune_flag { 1u8 } else { 0u8 }),
{
    vstd::bytes::lemma_auto_spec_u64_to_from_le_bytes();
    assert(opt_enc(h.signature, 64).len() == 65);
    assert(opt_enc(h.payload_hash, 32).len() == 33);
    assert(opt_enc(h.backlink, 32).len() == 33);
    assert(header_enc(h).len() == 228);
    assert(header_enc(h).subrange(0, 8) =~= vstd::bytes::spec_u64_to_le_bytes(h.version));
    assert(header_enc(h).subrange(8, 40) =~= h.public_key);
    assert(header_enc(h).subrange(40, 105) =~= opt_enc(h.signature, 64));
    assert(header_enc(h).subrange(105, 113) =~= vstd::bytes::spec_u64_to_le_bytes(h.payload_size));
    assert(header_enc(h).subrange(113, 146) =~= opt_enc(h.payload_hash, 32));
    assert(header_enc(h).subrange(146, 154) =~= vstd::bytes::spec_u64_to_le_bytes(h.timestamp));
    assert(header_enc(h).subrange(154, 162) =~= vstd::bytes::spec_u64_to_le_bytes(h.seq_num));
    assert(header_enc(h).subrange(162, 195) =~= opt_enc(h.backlink, 32));
    assert(header_enc(h).subrange(195, 227) =~= h.log_id);
}

/// Append the encoding of an optional fixed-width field.
fn append_opt(out: &mut Vec<u8>, o: &Option<Vec<u8>>, n: usize)
    requires
        (*o) matches Some(v) ==> v@.len() == n,
    ensures
        final(out)@ == old(out)@ + opt_enc(opt_view(*o), n as nat),
{
    match o {
        Some(v) => {
            out.push(1u8);
            append_bytes(out, v);
            proof {
                assert(out@ =~= old(out)@ + opt_enc(opt_view(*o), n as nat));
            }
        },
        None => {
            out.push(0u8);
            append_zeros(out, n);
            proof {
                assert(out@ =~= old(out)@ + opt_enc(opt_view(*o), n as nat));
            }
        },
    }
}

/// Encode a header's fields, with the signature field as given.
fn encode_fields(h: &Header, signature: &Option<Vec<u8>>) -> (r: Vec<u8>)
    requires
        h@.wf(),
        (*signature) matches Some(s) ==> s@.len() == 64,
    ensures
        r@ == header_enc(HeaderV { signature: opt_view(*signature), ..h@ }),
{
    let mut out: Vec<u8> = Vec::new();
    append_u64(&mut out, h.version);
    append_bytes(&mut out, &h.public_key);
    append_opt(&mut out, signature, 64);
    append_u64(&mut out, h.payload_size);
    append_opt(&mut out, &h.payload_hash, 32);
    append_u64(&mut out, h.timestamp);
    append_u64(&mut out, h.seq_num);
    append_opt(&mut out, &h.backlink, 32);
    append_bytes(&mut out, &h.log_id);
    out.push(if h.prune_flag { 1u8 } else { 0u8 });
    proof {
        assert(out@ =~= header_enc(HeaderV { signature: opt_view(*signature), ..h@ }));
    }
    out
}

/// The canonical encoding of a header, with its signature.
pub fn encode_header(h: &Header) -> (r: Vec<u8>)
    requires
        h@.wf(),
    ensures
        r@ == header_enc(h@),
        r@.len() == 228,
{
    let r = encode_fields(h, &h.signature);
    proof {
        assert(HeaderV { signature: opt_view(h.signature), ..h@ } == h@);
        lemma_enc_parts(h@);
    }
    r
}

/// The encoding of an optional fixed-width field determines the field.
proof fn lemma_opt_enc_injective(o1: Option<Seq<u8>>, o2: Option<Seq<u8>>, n: nat)
    requires
        o1 matches Some(a) ==> a.len() == n,
        o2 matches Some(b) ==> b.len() == n,
        opt_enc(o1, n) == opt_enc(o2, n),
    ensures
        o1 == o2,
{
    let e = opt_enc(o1, n);
    match (o1, o2) {
        (Some(a), Some(b)) => {
            assert forall|i: int| 0 <= i < n implies a[i] == b[i] by {
                assert(e[i + 1] == a[i]);
                assert(opt_enc(o2, n)[i + 1] == b[i]);
            }
            assert(a =~= b);
        },
        (Some(a), None) => {
            assert(e[0] == 1);
            assert(opt_enc(o2, n)[0] == 0);
        },
        (None, Some(b)) => {
            assert(e[0] == 0);
            assert(opt_enc(o2, n)[0] == 1);
        },
        (None, None) => {},
    }
}

/// Law: the canonical header encoding is lossless — two well-formed
/// headers with the same encoding are the same header, so an operation's
/// identity (the hash of its encoded header) names one header only.
pub proof fn lemma_header_enc_injective(h1: HeaderV, h2: HeaderV)
    requires
        h1.wf(),
        h2.wf(),
        header_enc(h1) == header_enc(h2),
    ensures
        h1 == h2,
{
    lemma_enc_parts(h1);
    lemma_enc_parts(h2);
    vstd::bytes::lemma_auto_spec_u64_to_from_le_bytes();
    assert(vstd::bytes::spec_u64_from_le_bytes(vstd::bytes::spec_u64_to_le_bytes(h1.version))
        == h1.version);
    assert(vstd::bytes::spec_u64_from_le_bytes(vstd::bytes::spec_u64_to_le_bytes(h2.version))
        == h2.version);
    assert(h1.version == h2.version);
    assert(h1.public_key == h2.public_key);
    lemma_opt_enc_injective(h1.signature, h2.signature, 64);
    assert(h1.payload_size == h2.payload_size);
    lemma_opt_enc_injective(h1.payload_hash, h2.payload_hash, 32);
    assert(h1.timestamp == h2.timestamp);
    assert(h1.seq_num == h2.seq_num);
    lemma_opt_enc_injective(h1.backlink, h2.backlink, 32);
    assert(h1.log_id == h2.log_id);
    assert(header_enc(h1)[227] == header_enc(h2)[227]);
    assert(h1.prune_flag == h2.prune_flag);
    assert(h1 =~= h2);
}

/// Failure to decode a wire message: the bytes are not the encoding of
/// any well-formed value.
#[derive(Clone, Copy, Debug, PartialEq, Eq, Structural)]
pub enum DecodeError {
    /// The bytes fit no encoding.
    Malformed,
}

/// Parse an optional fixed-width field: a presence byte, then the value's
/// bytes, or zeroes when absent.
fn read_opt(bytes: &Vec<u8>, off: usize, n: usize) -> (r: Result<Option<Vec<u8>>, DecodeError>)
    requires
        off + 1 + n <= bytes@.len(),
    ensures
        r matches Ok(o) ==> bytes@.subrange(off as int, off as int + 1 + n as int) == opt_enc(
            opt_view(o),
            n as nat,
        ) && (o matches Some(v) ==> v@.len() == n),
        r is Err ==> forall|o: Option<Seq<u8>>|
            (o matches Some(s) ==> s.len() == n) ==> bytes@.subrange(
                off as int,
                off as int + 1 + n as int,
            ) != opt_enc(o, n as nat),
{
    let ghost sub = bytes@.subrange(off as int, off as int + 1 + n as int);
    let total: usize = bytes.len();
    let tag = bytes[off];
    if tag == 1 {
        let v = read_exact(bytes, off + 1, n);
        proof {
            assert(sub =~= opt_enc(Some(v@), n as nat));
        }
        Ok(Some(v))
    } else if tag == 0 {
        let mut i: usize = 0;
        while i < n
            invariant
                total == bytes@.len(),
                off + 1 + n <= total,
                i <= n,
                bytes@[off as int] == 0,
                forall|j: int| 0 <= j < i ==> #[trigger] bytes@[off + 1 + j] == 0,
            decreases n - i,
        {
            if bytes[off + 1 + i] != 0 {
                proof {
                    assert forall|o: Option<Seq<u8>>|
                        (o matches Some(s) ==> s.len() == n) implies bytes@.subrange(
                        off as int,
                        off as int + 1 + n as int,
                    ) != opt_enc(o, n as nat) by {
                        let sub2 = bytes@.subrange(off as int, off as int + 1 + n as int);
                        if sub2 == opt_enc(o, n as nat) {
                            match o {
                                Some(_) => {
                                    assert(sub2[0] == bytes@[off as int]);
                                    assert(opt_enc(o, n as nat)[0] == 1);
                                },
                                None => {
                                    assert(sub2[1 + i] == bytes@[off + 1 + i]);
                                    assert(opt_enc(o, n as nat)[1 + i] == zero_seq(n as nat)[i as int]);
                                },
                            }
                        }
                    }
                }
                return Err(DecodeError::Malformed);
            }
            i = i + 1;
        }
        proof {
            assert forall|k: int| 0 <= k < 1 + n implies sub[k] == opt_enc(None, n as nat)[k] by {
                if k == 0 {
                    assert(sub[0] == bytes@[off as int]);
                } else {
                    assert(bytes@[off + 1 + (k - 1)] == 0);
                    assert(sub[k] == bytes@[off + k]);
                }
            }
            assert(sub =~= opt_enc(None, n as nat));
        }
        Ok(None)
    } else {
        proof {
            assert forall|o: Option<Seq<u8>>|
                (o matches Some(s) ==> s.len() == n) implies bytes@.subrange(
                off as int,
                off as int + 1 + n as int,
            ) != opt_enc(o, n as nat) by {
                let sub2 = bytes@.subrange(off as int, off as int + 1 + n as int);
                if sub2 == opt_enc(o, n as nat) {
                    assert(sub2[0] == bytes@[off as int]);
                    match o {
                        Some(_) => assert(opt_enc(o, n as nat)[0] == 1),
                        None => assert(opt_enc(o, n as nat)[0] == 0),
                    }
                }
            }
        }
        Err(DecodeError::Malformed)
    }
}

/// Decode a canonical header encoding. Succeeds exactly on the encodings
/// of well-formed headers, and returns the header the bytes encode.
pub fn decode_header(bytes: &Vec<u8>) -> (r: Result<Header, DecodeError>)
    ensures
        r matches Ok(h) ==> h@.wf() && bytes@ == header_enc(h@),
        r is Err ==> forall|hv: HeaderV| hv.wf() ==> bytes@ != header_enc(hv),
{
    if bytes.len() != HEADER_ENC_LEN {
        proof {
            assert forall|hv: HeaderV| hv.wf() implies bytes@ != header_enc(hv) by {
                lemma_enc_parts(hv);
            }
        }
        return Err(DecodeError::Malformed);
    }
    let version = read_u64(bytes, 0);
    let public_key = read_exact(bytes, 8, 32);
    let signature = match read_opt(bytes, 40, 64) {
        Ok(o) => o,
        Err(e) => {
            proof {
                assert forall|hv: HeaderV| hv.wf() implies bytes@ != header_enc(hv) by {
                    if bytes@ == header_enc(hv) {
                        lemma_enc_parts(hv);
                    }
                }
            }
            return Err(e);
        },
    };
    let payload_size = read_u64(bytes, 105);
    let payload_hash = match read_opt(bytes, 113, 32) {
        Ok(o) => o,
        Err(e) => {
            proof {
                assert forall|hv: HeaderV| hv.wf() implies bytes@ != header_enc(hv) by {
                    if bytes@ == header_enc(hv) {
                        lemma_enc_parts(hv);
                    }
                }
            }
            return Err(e);
        },
    };
    let timestamp = read_u64(bytes, 146);
    let seq_num = read_u64(bytes, 154);
    let backlink = match read_opt(bytes, 162, 32) {
        Ok(o) => o,
        Err(e) => {
            proof {
                assert forall|hv: HeaderV| hv.wf() implies bytes@ != header_enc(hv) by {
                    if bytes@ == header_enc(hv) {
                        lemma_enc_parts(hv);
                    }
                }
            }
            return Err(e);
        },
    };
    let log_id = read_exact(bytes, 195, 32);
    let prune_byte = bytes[227];
    if prune_byte > 1 {
        proof {
            assert forall|hv: HeaderV| hv.wf() implies bytes@ != header_enc(hv) by {
                if bytes@ == header_enc(hv) {
                    lemma_enc_parts(hv);
                }
            }
        }
        return Err(DecodeError::Malformed);
    }
    let prune_flag = prune_byte == 1;
    let h = Header {
        version,
        public_key,
        signature,
        payload_size,
        payload_hash,
        timestamp,
        seq_num,
        backlink,
        log_id,
        prune_flag,
    };
    proof {
        lemma_enc_parts(h@);
        vstd::bytes::lemma_auto_spec_u64_to_from_le_bytes();
        let e = header_enc(h@);
        assert(vstd::bytes::spec_u64_to_le_bytes(
            vstd::bytes::spec_u64_from_le_bytes(bytes@.subrange(0, 8)),
        ) == bytes@.subrange(0, 8));
        assert(vstd::bytes::spec_u64_to_le_bytes(
            vstd::bytes::spec_u64_from_le_bytes(bytes@.subrange(105, 113)),
        ) == bytes@.subrange(105, 113));
        assert(vstd::bytes::spec_u64_to_le_bytes(
            vstd::bytes::spec_u64_from_le_bytes(bytes@.subrange(146, 154)),
        ) == bytes@.subrange(146, 154));
        assert(vstd::bytes::spec_u64_to_le_bytes(
            vstd::bytes::spec_u64_from_le_bytes(bytes@.subrange(154, 162)),
        ) == bytes@.subrange(154, 162));
        assert(e.subrange(0, 8) == bytes@.subrange(0, 8));
        assert(e.subrange(105, 113) == bytes@.subrange(105, 113));
        assert(e.subrange(146, 154) == bytes@.subrange(146, 154));
        assert(e.subrange(154, 162) == bytes@.subrange(154, 162));
        assert forall|i: int| 0 <= i < 228 implies bytes@[i] == e[i] by {
            if i < 8 {
                assert(bytes@.subrange(0, 8)[i] == e.subrange(0, 8)[i]);
            } else if i < 40 {
                assert(bytes@.subrange(8, 40)[i - 8] == e.subrange(8, 40)[i - 8]);
            } else if i < 105 {
                assert(bytes@.subrange(40, 105)[i - 40] == e.subrange(40, 105)[i - 40]);
            } else if i < 113 {
                assert(bytes@.subrange(105, 113)[i - 105] == e.subrange(105, 113)[i - 105]);
            } else if i < 146 {
                assert(bytes@.subrange(113, 146)[i - 113] == e.subrange(113, 146)[i - 113]);
            } else if i < 154 {
                assert(bytes@.subrange(146, 154)[i - 146] == e.subrange(146, 154)[i - 146]);
            } else if i < 162 {
                assert(bytes@.subrange(154, 162)[i - 154] == e.subrange(154, 162)[i - 154]);
            } else if i < 195 {
                assert(bytes@.subrange(162, 195)[i - 162] == e.subrange(162, 195)[i - 162]);
            } else if i < 227 {
                assert(bytes@.subrange(195, 227)[i - 195] == e.subrange(195, 227)[i - 195]);
            } else {
                assert(bytes@[227] == e[227]);
            }
        }
        assert(bytes@ =~= e);
    }
    Ok(h)
}

/// The bytes the author signs: the header's encoding with no signature.
pub fn encode_header_unsigned(h: &Header) -> (r: Vec<u8>)
    requires
        h@.wf(),
    ensures
        r@ == h@.signing_bytes(),
{
    let no_sig: Option<Vec<u8>> = None;
    let r = encode_fields(h, &no_sig);
    proof {
        assert(HeaderV { signature: opt_view(no_sig), ..h@ } == h@.unsigned());
    }
    r
}

/// The value of an optional borrowed byte vector.
pub open spec fn opt_ref_view(o: Option<&Vec<u8>>) -> Option<Seq<u8>> {
    match o {
        Some(v) => Some(v@),
        None => None,
    }
}

/// The gossip envelope: a body-presence byte, the encoded header's length
/// in eight little-endian bytes, the encoded header, then the body bytes.
pub open spec fn envelope_enc(header_bytes: Seq<u8>, body: Option<Seq<u8>>) -> Seq<u8> {
    seq![if body is Some { 1u8 } else { 0u8 }]
        + vstd::bytes::spec_u64_to_le_bytes(header_bytes.len() as u64) + header_bytes + (match body {
        Some(b) => b,
        None => Seq::empty(),
    })
}

/// The parts of an envelope, by their offsets.
pub proof fn lemma_envelope_parts(header_bytes: Seq<u8>, body: Option<Seq<u8>>)
    requires
        header_bytes.len() <= u64::MAX,
    ensures
        envelope_enc(header_bytes, body).len() == 9 + header_bytes.len() + (match body {
            Some(b) => b.len(),
            None => 0,
        }),
        envelope_enc(header_bytes, body)[0] == (if body is Some { 1u8 } else { 0u8 }),
        envelope_enc(header_bytes, body).subrange(1, 9) == vstd::bytes::spec_u64_to_le_bytes(
            header_bytes.len() as u64,
        ),
        envelope_enc(header_bytes, body).subrange(9, 9 + header_bytes.len() as int)
            == header_bytes,
        body matches Some(b) ==> envelope_enc(header_bytes, body).subrange(
            9 + header_bytes.len() as int,
            envelope_enc(header_bytes, body).len() as int,
        ) == b,
{
    vstd::bytes::lemma_auto_spec_u64_to_from_le_bytes();
    let e = envelope_enc(header_bytes, body);
    assert(e.subrange(1, 9) =~= vstd::bytes::spec_u64_to_le_bytes(header_bytes.len() as u64));
    assert(e.subrange(9, 9 + header_bytes.len() as int) =~= header_bytes);
    match body {
        Some(b) => {
            assert(e.subrange(9 + header_bytes.len() as int, e.len() as int) =~= b);
        },
        None => {},
    }
}

/// Law: the gossip envelope is lossless — two pairs with the same envelope
/// are byte-identical, so decoding an encoded pair yields the pair itself.
pub proof fn lemma_envelope_lossless(
    h1: Seq<u8>,
    b1: Option<Seq<u8>>,
    h2: Seq<u8>,
    b2: Option<Seq<u8>>,
)
    requires
        h1.len() <= u64::MAX,
        h2.len() <= u64::MAX,
        envelope_enc(h1, b1) == envelope_enc(h2, b2),
    ensures
        h1 == h2,
        b1 == b2,
{
    vstd::bytes::lemma_auto_spec_u64_to_from_le_bytes();
    lemma_envelope_parts(h1, b1);
    lemma_envelope_parts(h2, b2);
    let e = envelope_enc(h1, b1);
    assert(b1 is Some <==> b2 is Some);
    assert(vstd::bytes::spec_u64_from_le_bytes(e.subrange(1, 9)) == h1.len() as u64);
    assert(vstd::bytes::spec_u64_from_le_bytes(e.subrange(1, 9)) == h2.len() as u64);
    assert(h1.len() == h2.len());
    assert(h1 == e.subrange(9, 9 + h1.len() as int));
    assert(h1 == h2);
    match b1 {
        Some(bb1) => {
            let bb2 = b2->Some_0;
            assert(bb1 == e.subrange(9 + h1.len() as int, e.len() as int));
            assert(bb2 == e.subrange(9 + h2.len() as int, e.len() as int));
            assert(b1 == b2);
        },
        None => {
            assert(b1 == b2);
        },
    }
}

/// Encode a header and optional body into one gossip envelope.
pub fn encode_gossip_message(header: &Header, body: Option<&Vec<u8>>) -> (r: Vec<u8>)
    requires
        header@.wf(),
    ensures
        r@ == envelope_enc(header_enc(header@), opt_ref_view(body)),
{
    let hb = encode_header(header);
    let mut out: Vec<u8> = Vec::new();
    match body {
        Some(_) => out.push(1u8),
        None => out.push(0u8),
    }
    append_u64(&mut out, hb.len() as u64);
    append_bytes(&mut out, &hb);
    match body {
        Some(b) => append_bytes(&mut out, b),
        None => (),
    }
    proof {
        assert(out@ =~= envelope_enc(header_enc(header@), opt_ref_view(body)));
    }
    out
}

/// Decode a gossip envelope into the encoded header and optional body.
/// Succeeds exactly on the envelopes of such pairs, and returns the pair
/// the bytes encode.
pub fn decode_gossip_message(bytes: &Vec<u8>) -> (r: Result<(Vec<u8>, Option<Vec<u8>>), DecodeError>)
    ensures
        r matches Ok(p) ==> bytes@ == envelope_enc(p.0@, opt_view(p.1)),
        r is Err ==> forall|hb: Seq<u8>, b: Option<Seq<u8>>|
            hb.len() <= u64::MAX ==> bytes@ != envelope_enc(hb, b),
{
    let total: usize = bytes.len();
    if total < 9 {
        proof {
            assert forall|hb: Seq<u8>, b: Option<Seq<u8>>| hb.len() <= u64::MAX implies bytes@
                != envelope_enc(hb, b) by {
                lemma_envelope_parts(hb, b);
            }
        }
        return Err(DecodeError::Malformed);
    }
    let tag = bytes[0];
    if tag > 1 {
        proof {
            assert forall|hb: Seq<u8>, b: Option<Seq<u8>>| hb.len() <= u64::MAX implies bytes@
                != envelope_enc(hb, b) by {
                lemma_envelope_parts(hb, b);
            }
        }
        return Err(DecodeError::Malformed);
    }
    let hlen64 = read_u64(bytes, 1);
    let rest: usize = total - 9;
    if hlen64 > rest as u64 {
        proof {
            assert forall|hb: Seq<u8>, b: Option<Seq<u8>>| hb.len() <= u64::MAX implies bytes@
                != envelope_enc(hb, b) by {
                if bytes@ == envelope_enc(hb, b) {
                    lemma_envelope_parts(hb, b);
                    vstd::bytes::lemma_auto_spec_u64_to_from_le_bytes();
                    assert(vstd::bytes::spec_u64_from_le_bytes(
                        vstd::bytes::spec_u64_to_le_bytes(hb.len() as u64),
                    ) == hb.len() as u64);
                    assert(vstd::bytes::spec_u64_from_le_bytes(bytes@.subrange(1, 9)) == hb.len()
                        as u64);
                }
            }
        }
        return Err(DecodeError::Malformed);
    }
    let hlen: usize = hlen64 as usize;
    let hb = read_exact(bytes, 9, hlen);
    if tag == 1 {
        let b = read_exact(bytes, 9 + hlen, total - 9 - hlen);
        proof {
            vstd::bytes::lemma_auto_spec_u64_to_from_le_bytes();
            let e = envelope_enc(hb@, Some(b@));
            lemma_envelope_parts(hb@, Some(b@));
            assert(hb@.len() as u64 == hlen64);
            assert(vstd::bytes::spec_u64_to_le_bytes(
                vstd::bytes::spec_u64_from_le_bytes(bytes@.subrange(1, 9)),
            ) == bytes@.subrange(1, 9));
            assert(e.subrange(1, 9) == bytes@.subrange(1, 9));
            assert(e.len() == bytes@.len());
            assert forall|i: int| 0 <= i < bytes@.len() implies bytes@[i] == e[i] by {
                if i == 0 {
                    assert(e[0] == 1u8);
                } else if i < 9 {
                    assert(bytes@.subrange(1, 9)[i - 1] == e.subrange(1, 9)[i - 1]);
                } else if i < 9 + hlen {
                    assert(bytes@.subrange(9, 9 + hlen as int)[i - 9] == e.subrange(
                        9,
                        9 + hlen as int,
                    )[i - 9]);
                } else {
                    assert(bytes@.subrange(9 + hlen as int, bytes@.len() as int)[i - 9 - hlen]
                        == e.subrange(9 + hlen as int, e.len() as int)[i - 9 - hlen]);
                }
            }
            assert(bytes@ =~= e);
        }
        Ok((hb, Some(b)))
    } else {
        if total != 9 + hlen {
            proof {
                assert forall|hb2: Seq<u8>, b2: Option<Seq<u8>>| hb2.len() <= u64::MAX
                    implies bytes@ != envelope_enc(hb2, b2) by {
                    if bytes@ == envelope_enc(hb2, b2) {
                        lemma_envelope_parts(hb2, b2);
                        vstd::bytes::lemma_auto_spec_u64_to_from_le_bytes();
                        assert(vstd::bytes::spec_u64_from_le_bytes(
                            vstd::bytes::spec_u64_to_le_bytes(hb2.len() as u64),
                        ) == hb2.len() as u64);
                        assert(vstd::bytes::spec_u64_from_le_bytes(bytes@.subrange(1, 9))
                            == hb2.len() as u64);
                        assert(b2 is None);
                    }
                }
            }
            return Err(DecodeError::Malformed);
        }
        proof {
            vstd::bytes::lemma_auto_spec_u64_to_from_le_bytes();
            let e = envelope_enc(hb@, None);
            lemma_envelope_parts(hb@, None);
            assert(hb@.len() as u64 == hlen64);
            assert(vstd::bytes::spec_u64_to_le_bytes(
                vstd::bytes::spec_u64_from_le_bytes(bytes@.subrange(1, 9)),
            ) == bytes@.subrange(1, 9));
            assert(e.subrange(1, 9) == bytes@.subrange(1, 9));
            assert(e.len() == bytes@.len());
            assert forall|i: int| 0 <= i < bytes@.len() implies bytes@[i] == e[i] by {
                if i == 0 {
                    assert(e[0] == 0u8);
                } else if i < 9 {
                    assert(bytes@.subrange(1, 9)[i - 1] == e.subrange(1, 9)[i - 1]);
                } else {
                    assert(bytes@.subrange(9, 9 + hlen as int)[i - 9] == e.subrange(
                        9,
                        9 + hlen as int,
                    )[i - 9]);
                }
            }
            assert(bytes@ =~= e);
        }
        Ok((hb, None))
    }
}

/// Construct the author's next operation for a log: look up the latest
/// entry to derive the sequence number and backlink, declare the payload,
/// and sign the header's canonical encoding with the private key. The
/// produced operation is exactly the one the store will accept next for
/// this author and log.
pub fn create_operation(
    store: &OperationStore,
    log_id: &Vec<u8>,
    private_key: &Vec<u8>,
    body: Option<&Vec<u8>>,
    prune_flag: bool,
    timestamp: u64,
) -> (r: (Header, Option<Vec<u8>>))
    requires
        store.wf(),
        private_key@.len() == 32,
        log_id@.len() == 32,
    ensures
        ({
            let h = r.0@;
            let pk = pubkey_of(private_key@);
            &&& h.wf()
            &&& h.version == 1
            &&& h.public_key == pk
            &&& h.timestamp == timestamp
            &&& h.log_id == log_id@
            &&& h.prune_flag == prune_flag
            &&& h.seq_num as nat == store.next_seq(pk, log_id@)
            &&& h.backlink == store.expected_backlink(pk, log_id@)
            &&& h.payload_matches(opt_ref_view(body))
            &&& h.sig_ok()
            &&& h.signature == Some(sign_of(private_key@, h.signing_bytes()))
            &&& store.ingest_decision(h, opt_ref_view(body), log_id@, prune_flag)
                == IngestResult::Complete(r.0.seq_num)
        }),
        opt_view(r.1) == opt_ref_view(body),
{
    let public_key = derive_public_key(private_key);
    let height: usize = store.log_len(&public_key, log_id);
    let seq_num: u64 = height as u64;
    let backlink: Option<Vec<u8>> = match store.latest_operation(&public_key, log_id) {
        Some(op) => Some(hash_vec(op.header_bytes.as_slice())),
        None => None,
    };
    let payload_hash: Option<Vec<u8>> = match body {
        Some(b) => Some(hash_vec(b.as_slice())),
        None => None,
    };
    let payload_size: u64 = match body {
        Some(b) => b.len() as u64,
        None => 0,
    };
    let mut header = Header {
        version: 1,
        public_key,
        signature: None,
        payload_size,
        payload_hash,
        timestamp,
        seq_num,
        backlink,
        log_id: clone_bytes(log_id),
        prune_flag,
    };
    let ghost h0 = header@;
    let signing = encode_header_unsigned(&header);
    let signature = sign_bytes(private_key, &signing);
    header.signature = Some(signature);
    proof {
        assert(h0.unsigned() == h0);
        assert(header@.unsigned() == h0);
        assert(header@.sig_ok());
    }
    let body_out: Option<Vec<u8>> = match body {
        Some(b) => Some(clone_bytes(b)),
        None => None,
    };
    (header, body_out)
}

} // verus!
