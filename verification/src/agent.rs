//! The ssh-agent protocol subset spoken by the per-session virtual
//! agent: parsing of incoming requests, the identities answer that
//! advertises exactly the Ed25519 keys held in memory, and the
//! serialization of signature responses.
//!
//! The agent never performs a signature itself: for a sign request it
//! names the key and the bytes to sign, and the caller hands the
//! resulting signature to [`sign_response`].
use vstd::prelude::*;

verus! {

use crate::strutil::bytes_eq;
use crate::strutil::spec_contains_seq;
use crate::wire::append_be32;
use crate::wire::append_lp;
use crate::wire::read_be32;
use crate::wire::read_lp;
use crate::wire::spec_be32;
use crate::wire::spec_be32_val;
use crate::wire::spec_lp;
use crate::wire::spec_lp_at;
use crate::wire::spec_lp_end;
use crate::wire::spec_lp_payload;

/// A private key as the agent sees it: only the public-key blob is
/// read by the protocol logic; the key material itself stays with the
/// caller, which performs signatures.
pub struct AgentKey {
    pub blob: Vec<u8>,
}

/// The byte string `ssh-ed25519`, whose occurrence inside a public-key
/// blob marks the key as Ed25519.
pub open spec fn spec_ed25519_marker() -> Seq<u8> {
    seq![115u8, 115u8, 104u8, 45u8, 101u8, 100u8, 50u8, 53u8, 53u8, 49u8, 57u8]
}

/// The comment string `virtual-agent` attached to every advertised
/// identity.
pub open spec fn spec_agent_comment() -> Seq<u8> {
    seq![118u8, 105u8, 114u8, 116u8, 117u8, 97u8, 108u8, 45u8, 97u8, 103u8, 101u8, 110u8, 116u8]
}

/// A blob is advertised only when it carries the Ed25519 marker; other
/// algorithms are withheld because their blob formatting has proven
/// unreliable through this path.
pub open spec fn spec_is_ed25519(blob: Seq<u8>) -> bool {
    spec_contains_seq(blob, spec_ed25519_marker())
}

/// The public-key blobs of a key list.
pub open spec fn spec_blobs(keys: Seq<AgentKey>) -> Seq<Seq<u8>> {
    keys.map_values(|k: AgentKey| k.blob@)
}

/// The Ed25519 subset of a key list's blobs, in order.
pub open spec fn spec_ed_blobs(keys: Seq<AgentKey>) -> Seq<Seq<u8>> {
    spec_blobs(keys).filter(|b: Seq<u8>| spec_is_ed25519(b))
}

/// The byte string `ssh-ed25519` as a vector.
pub fn ed25519_marker() -> (r: Vec<u8>)
    ensures
        r@ == spec_ed25519_marker(),
{
    let mut v: Vec<u8> = Vec::new();
    v.push(115);
    v.push(115);
    v.push(104);
    v.push(45);
    v.push(101);
    v.push(100);
    v.push(50);
    v.push(53);
    v.push(53);
    v.push(49);
    v.push(57);
    proof {
        assert(v@ =~= spec_ed25519_marker());
    }
    v
}

/// The comment `virtual-agent` as a vector.
pub fn agent_comment() -> (r: Vec<u8>)
    ensures
        r@ == spec_agent_comment(),
{
    let mut v: Vec<u8> = Vec::new();
    v.push(118);
    v.push(105);
    v.push(114);
    v.push(116);
    v.push(117);
    v.push(97);
    v.push(108);
    v.push(45);
    v.push(97);
    v.push(103);
    v.push(101);
    v.push(110);
    v.push(116);
    proof {
        assert(v@ =~= spec_agent_comment());
    }
    v
}

/// Whether a key's blob marks it as Ed25519.
pub fn key_is_ed25519(key: &AgentKey) -> (r: bool)
    ensures
        r == spec_is_ed25519(key.blob@),
{
    let marker = ed25519_marker();
    crate::strutil::bytes_contain(key.blob.as_slice(), marker.as_slice())
}

/// One message of the agent protocol, as far as this agent understands
/// it. Anything but a well-formed `REQUEST_IDENTITIES` or
/// `SIGN_REQUEST` is `Unsupported` and draws the failure reply.
pub enum AgentRequest {
    RequestIdentities,
    SignRequest { key_blob: Vec<u8>, data: Vec<u8>, flags: u32 },
    Unsupported,
}

/// A well-formed sign request: type byte 13, then a length-prefixed
/// key blob, a length-prefixed payload, and four flag bytes.
pub open spec fn spec_sign_wf(p: Seq<u8>) -> bool {
    &&& p.len() > 0
    &&& p[0] == 13
    &&& spec_lp_at(p, 1)
    &&& spec_lp_at(p, spec_lp_end(p, 1))
    &&& spec_lp_end(p, spec_lp_end(p, 1)) + 4 <= p.len()
}

/// The key blob named by a well-formed sign request.
pub open spec fn spec_sign_blob(p: Seq<u8>) -> Seq<u8>
    recommends
        spec_sign_wf(p),
{
    spec_lp_payload(p, 1)
}

/// The bytes to sign named by a well-formed sign request.
pub open spec fn spec_sign_data(p: Seq<u8>) -> Seq<u8>
    recommends
        spec_sign_wf(p),
{
    spec_lp_payload(p, spec_lp_end(p, 1))
}

/// The flags word of a well-formed sign request.
pub open spec fn spec_sign_flags(p: Seq<u8>) -> u32
    recommends
        spec_sign_wf(p),
{
    let e2 = spec_lp_end(p, spec_lp_end(p, 1));
    spec_be32_val(p[e2], p[e2 + 1], p[e2 + 2], p[e2 + 3])
}

/// Parses one agent message. `REQUEST_IDENTITIES` is type byte 11;
/// `SIGN_REQUEST` is type byte 13 with two length-prefixed strings and
/// a flags word; everything else, malformed sign requests included, is
/// `Unsupported`.
pub fn parse_agent_request(payload: &[u8]) -> (r: AgentRequest)
    ensures
        (payload@.len() > 0 && payload@[0] == 11) <==> (r is RequestIdentities),
        spec_sign_wf(payload@) <==> (r is SignRequest),
        r matches AgentRequest::SignRequest { key_blob, data, flags } ==> {
            &&& key_blob@ == spec_sign_blob(payload@)
            &&& data@ == spec_sign_data(payload@)
            &&& flags == spec_sign_flags(payload@)
        },
{
    if payload.len() == 0 {
        return AgentRequest::Unsupported;
    }
    let msg_type = payload[0];
    if msg_type == 11 {
        return AgentRequest::RequestIdentities;
    }
    if msg_type != 13 {
        return AgentRequest::Unsupported;
    }
    match read_lp(payload, 1) {
        None => AgentRequest::Unsupported,
        Some((key_blob, p1)) => {
            match read_lp(payload, p1) {
                None => AgentRequest::Unsupported,
                Some((data, p2)) => {
                    match read_be32(payload, p2) {
                        None => AgentRequest::Unsupported,
                        Some((flags, _p3)) => {
                            AgentRequest::SignRequest { key_blob, data, flags }
                        },
                    }
                },
            }
        },
    }
}

/// The identity entries of an answer, one length-prefixed blob and one
/// length-prefixed comment per advertised key, in key order.
pub open spec fn spec_identity_entries(blobs: Seq<Seq<u8>>) -> Seq<u8>
    decreases blobs.len(),
{
    if blobs.len() == 0 {
        Seq::empty()
    } else {
        spec_identity_entries(blobs.drop_last()) + spec_lp(blobs.last()) + spec_lp(
            spec_agent_comment(),
        )
    }
}

/// The full `IDENTITIES_ANSWER` for a key list: type byte 12, the
/// count of advertised keys, then their entries. Exactly the keys
/// whose blob carries the Ed25519 marker appear.
pub open spec fn spec_identities_answer(keys: Seq<AgentKey>) -> Seq<u8> {
    seq![12u8] + spec_be32(spec_ed_blobs(keys).len() as u32) + spec_identity_entries(
        spec_ed_blobs(keys),
    )
}

/// Every key list this agent serves keeps each blob below the length
/// prefix's range, and the list itself below the count word's range.
pub open spec fn spec_keys_wf(keys: Seq<AgentKey>) -> bool {
    &&& keys.len() < 0x1_0000_0000
    &&& forall|i: int| 0 <= i < keys.len() ==> #[trigger] keys[i].blob@.len() < 0x1_0000_0000
}

/// Builds the `IDENTITIES_ANSWER` for `keys`: it advertises exactly
/// the Ed25519 keys, each with the `virtual-agent` comment.
pub fn identities_answer(keys: &Vec<AgentKey>) -> (r: Vec<u8>)
    requires
        spec_keys_wf(keys@),
    ensures
        r@ == spec_identities_answer(keys@),
{
    let n = keys.len();
    let mut count: usize = 0;
    let mut i: usize = 0;
    proof {
        assert(spec_blobs(keys@.take(0)) =~= Seq::<Seq<u8>>::empty());
        reveal(Seq::filter);
    }
    while i < n
        invariant
            n == keys@.len(),
            spec_keys_wf(keys@),
            0 <= i <= n,
            count == spec_ed_blobs(keys@.take(i as int)).len(),
            count <= i,
        decreases n - i,
    {
        proof {
            lemma_ed_blobs_take_step(keys@, i as int);
        }
        if key_is_ed25519(&keys[i]) {
            count = count + 1;
        }
        i = i + 1;
    }
    proof {
        assert(keys@.take(n as int) =~= keys@);
    }
    let mut buf: Vec<u8> = Vec::new();
    buf.push(12);
    append_be32(&mut buf, count as u32);
    let ghost header = seq![12u8] + spec_be32(spec_ed_blobs(keys@).len() as u32);
    proof {
        assert(buf@ =~= header);
        assert(spec_blobs(keys@.take(0)) =~= Seq::<Seq<u8>>::empty());
    }
    let mut j: usize = 0;
    let comment = agent_comment();
    while j < n
        invariant
            n == keys@.len(),
            spec_keys_wf(keys@),
            0 <= j <= n,
            comment@ == spec_agent_comment(),
            buf@ == header + spec_identity_entries(spec_ed_blobs(keys@.take(j as int))),
        decreases n - j,
    {
        proof {
            lemma_ed_blobs_take_step(keys@, j as int);
        }
        if key_is_ed25519(&keys[j]) {
            append_lp(&mut buf, keys[j].blob.as_slice());
            append_lp(&mut buf, comment.as_slice());
            proof {
                let prev = spec_ed_blobs(keys@.take(j as int));
                let cur = spec_ed_blobs(keys@.take(j as int + 1));
                assert(cur == prev.push(keys@[j as int].blob@));
                assert(cur.drop_last() =~= prev);
                assert(cur.last() == keys@[j as int].blob@);
                assert(spec_identity_entries(cur) == spec_identity_entries(prev) + spec_lp(
                    keys@[j as int].blob@,
                ) + spec_lp(spec_agent_comment()));
                assert(buf@ =~= header + spec_identity_entries(cur));
            }
        }
        j = j + 1;
    }
    proof {
        assert(keys@.take(n as int) =~= keys@);
    }
    buf
}

/// Filtering one more key either appends its blob (when it is
/// Ed25519) or leaves the advertised list unchanged.
proof fn lemma_ed_blobs_take_step(keys: Seq<AgentKey>, i: int)
    requires
        0 <= i < keys.len(),
    ensures
        spec_is_ed25519(keys[i].blob@) ==> spec_ed_blobs(keys.take(i + 1)) == spec_ed_blobs(
            keys.take(i),
        ).push(keys[i].blob@),
        !spec_is_ed25519(keys[i].blob@) ==> spec_ed_blobs(keys.take(i + 1)) == spec_ed_blobs(
            keys.take(i),
        ),
{
    reveal(Seq::filter);
    let prev = spec_blobs(keys.take(i));
    let cur = spec_blobs(keys.take(i + 1));
    assert(cur =~= prev.push(keys[i].blob@)) by {
        assert(cur.len() == i + 1);
        assert(prev.len() == i);
        assert forall|k: int| 0 <= k < i + 1 implies cur[k] == prev.push(keys[i].blob@)[k] by {
            if k < i {
                assert(cur[k] == keys.take(i + 1)[k].blob@);
                assert(prev[k] == keys.take(i)[k].blob@);
            }
        }
    }
    assert(cur.drop_last() =~= prev);
    assert(cur.last() == keys[i].blob@);
}

/// Finds the first in-memory key whose blob equals `blob`.
pub fn find_key(keys: &Vec<AgentKey>, blob: &[u8]) -> (r: Option<usize>)
    ensures
        match r {
            Some(i) => i < keys@.len() && keys@[i as int].blob@ == blob@ && forall|j: int|
                0 <= j < i ==> keys@[j].blob@ != blob@,
            None => forall|j: int| 0 <= j < keys@.len() ==> keys@[j].blob@ != blob@,
        },
{
    let n = keys.len();
    let mut i: usize = 0;
    while i < n
        invariant
            n == keys@.len(),
            0 <= i <= n,
            forall|j: int| 0 <= j < i ==> keys@[j].blob@ != blob@,
        decreases n - i,
    {
        if bytes_eq(keys[i].blob.as_slice(), blob) {
            return Some(i);
        }
        i = i + 1;
    }
    None
}

/// What the agent decides to do with one incoming message.
pub enum AgentAction {
    /// Send these bytes back as the reply.
    Reply(Vec<u8>),
    /// Sign `data` with the in-memory key at `key_index`, then send
    /// [`sign_response`] of the signature — or the failure reply if
    /// signing fails.
    Sign { key_index: usize, data: Vec<u8>, flags: u32 },
}

/// The one-byte `SSH_AGENT_FAILURE` reply.
pub fn failure_response() -> (r: Vec<u8>)
    ensures
        r@ == seq![5u8],
{
    let mut v: Vec<u8> = Vec::new();
    v.push(5);
    proof {
        assert(v@ =~= seq![5u8]);
    }
    v
}

/// Decides the agent's reaction to one message: identities are
/// answered at once; a sign request whose blob matches an in-memory
/// key is handed out for signing; everything else draws the failure
/// reply.
pub fn agent_respond(keys: &Vec<AgentKey>, payload: &[u8]) -> (r: AgentAction)
    requires
        spec_keys_wf(keys@),
    ensures
        (payload@.len() > 0 && payload@[0] == 11) ==> (r matches AgentAction::Reply(b)
            && b@ == spec_identities_answer(keys@)),
        (spec_sign_wf(payload@) && (exists|i: int|
            0 <= i < keys@.len() && keys@[i].blob@ == spec_sign_blob(payload@))) ==> (r matches
            AgentAction::Sign { key_index, data, flags } && {
            &&& key_index < keys@.len()
            &&& keys@[key_index as int].blob@ == spec_sign_blob(payload@)
            &&& data@ == spec_sign_data(payload@)
            &&& flags == spec_sign_flags(payload@)
        }),
        (!(payload@.len() > 0 && payload@[0] == 11) && !(spec_sign_wf(payload@) && (exists|i: int|
            0 <= i < keys@.len() && keys@[i].blob@ == spec_sign_blob(payload@)))) ==> (r matches
            AgentAction::Reply(b) && b@ == seq![5u8]),
{
    match parse_agent_request(payload) {
        AgentRequest::RequestIdentities => AgentAction::Reply(identities_answer(keys)),
        AgentRequest::SignRequest { key_blob, data, flags } => {
            match find_key(keys, key_blob.as_slice()) {
                Some(i) => AgentAction::Sign { key_index: i, data, flags },
                None => AgentAction::Reply(failure_response()),
            }
        },
        AgentRequest::Unsupported => AgentAction::Reply(failure_response()),
    }
}

/// Serializes a completed signature as `SIGN_RESPONSE`: type byte 14,
/// then one length-prefixed string holding the length-prefixed
/// algorithm name and the length-prefixed signature bytes.
pub fn sign_response(algorithm: &[u8], signature: &[u8]) -> (r: Vec<u8>)
    requires
        algorithm@.len() + signature@.len() + 8 < 0x1_0000_0000,
    ensures
        r@ == seq![14u8] + spec_lp(spec_lp(algorithm@) + spec_lp(signature@)),
{
    let mut inner: Vec<u8> = Vec::new();
    append_lp(&mut inner, algorithm);
    append_lp(&mut inner, signature);
    let mut buf: Vec<u8> = Vec::new();
    buf.push(14);
    append_lp(&mut buf, inner.as_slice());
    proof {
        assert(inner@ =~= spec_lp(algorithm@) + spec_lp(signature@));
        assert(buf@ =~= seq![14u8] + spec_lp(spec_lp(algorithm@) + spec_lp(signature@)));
    }
    buf
}

} // verus!
