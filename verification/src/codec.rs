//! Framing of envelopes on the wire.
//!
//! Every envelope occupies one fixed-size frame, so frames are
//! self-delimiting: a reader that starts at a frame boundary always finds
//! the next boundary.  A frame holds the message id, the correlation flag
//! and id, the payload tag, and the payload's two data words, each number
//! little-endian.
//!
//! The writer of a connection is serialized, so the wire is a plain
//! concatenation of whole frames; [`lemma_wire_round_trip`] states that such
//! a concatenation decodes back to exactly the envelopes that were sent.

use vstd::prelude::*;

use crate::envelope::{
    Envelope, Payload, TAG_AUTH, TAG_AUTH_RESPONSE, TAG_OPEN_WORKTREE, TAG_OPEN_WORKTREE_RESPONSE,
    TAG_UPDATE_WORKTREE,
};

verus! {

/// Number of bytes of one frame.
pub const FRAME_LEN: usize = 18;

/// Little-endian byte encoding of a 32-bit number.
pub open spec fn enc_u32(n: u32) -> Seq<u8> {
    seq![
        (n % 256) as u8,
        ((n / 256) % 256) as u8,
        ((n / 65536) % 256) as u8,
        ((n / 16777216) % 256) as u8,
    ]
}

/// The number encoded little-endian in the four bytes of `b` at `i`.
pub open spec fn dec_u32_at(b: Seq<u8>, i: int) -> u32 {
    (b[i] + 256 * b[i + 1] + 65536 * b[i + 2] + 16777216 * b[i + 3]) as u32
}

/// First payload data word: the variant's leading field, with a boolean
/// carried as 0 or 1.
pub open spec fn payload_word_a(p: Payload) -> u32 {
    match p {
        Payload::Auth { user_id, .. } => user_id,
        Payload::AuthResponse { credentials_valid } => if credentials_valid {
            1
        } else {
            0
        },
        Payload::OpenWorktree { worktree_id } => worktree_id,
        Payload::OpenWorktreeResponse { ok } => if ok {
            1
        } else {
            0
        },
        Payload::UpdateWorktree { worktree_id, .. } => worktree_id,
    }
}

/// Second payload data word: the variant's trailing field, 0 where the
/// variant has none.
pub open spec fn payload_word_b(p: Payload) -> u32 {
    match p {
        Payload::Auth { access_token, .. } => access_token,
        Payload::UpdateWorktree { version, .. } => version,
        _ => 0,
    }
}

/// The payload a frame with this tag byte and these data words carries,
/// or `None` when the tag names no variant.
pub open spec fn payload_from_words(tag: u8, a: u32, b: u32) -> Option<Payload> {
    if tag == TAG_AUTH as u8 {
        Some(Payload::Auth { user_id: a, access_token: b })
    } else if tag == TAG_AUTH_RESPONSE as u8 {
        Some(Payload::AuthResponse { credentials_valid: a != 0 })
    } else if tag == TAG_OPEN_WORKTREE as u8 {
        Some(Payload::OpenWorktree { worktree_id: a })
    } else if tag == TAG_OPEN_WORKTREE_RESPONSE as u8 {
        Some(Payload::OpenWorktreeResponse { ok: a != 0 })
    } else if tag == TAG_UPDATE_WORKTREE as u8 {
        Some(Payload::UpdateWorktree { worktree_id: a, version: b })
    } else {
        None
    }
}

/// The frame encoding one envelope.
pub open spec fn enc_envelope(e: Envelope) -> Seq<u8> {
    enc_u32(e.id) + (match e.responding_to {
        None => seq![0u8] + enc_u32(0),
        Some(r) => seq![1u8] + enc_u32(r),
    }) + seq![e.payload.spec_tag() as u8] + enc_u32(payload_word_a(e.payload)) + enc_u32(
        payload_word_b(e.payload),
    )
}

/// The envelope of the frame starting at `i`, or `None` when fewer than
/// `FRAME_LEN` bytes remain or the frame is malformed.
pub open spec fn dec_envelope_at(b: Seq<u8>, i: int) -> Option<Envelope> {
    if 0 <= i && i + FRAME_LEN <= b.len() {
        let flag = b[i + 4];
        let payload = payload_from_words(b[i + 9], dec_u32_at(b, i + 10), dec_u32_at(b, i + 14));
        if (flag == 0 || flag == 1) && payload is Some {
            Some(
                Envelope {
                    id: dec_u32_at(b, i),
                    responding_to: if flag == 1 {
                        Some(dec_u32_at(b, i + 5))
                    } else {
                        None
                    },
                    payload: payload.unwrap(),
                },
            )
        } else {
            None
        }
    } else {
        None
    }
}

/// A frame is exactly `FRAME_LEN` bytes.
pub proof fn lemma_enc_len(e: Envelope)
    ensures
        enc_envelope(e).len() == FRAME_LEN,
{
}

/// Little-endian round trip for one number.
proof fn lemma_u32_round_trip(b: Seq<u8>, i: int, n: u32)
    requires
        0 <= i,
        i + 4 <= b.len(),
        b[i] == (n % 256) as u8,
        b[i + 1] == ((n / 256) % 256) as u8,
        b[i + 2] == ((n / 65536) % 256) as u8,
        b[i + 3] == ((n / 16777216) % 256) as u8,
    ensures
        dec_u32_at(b, i) == n,
{
    assert((n % 256) + 256 * ((n / 256) % 256) + 65536 * ((n / 65536) % 256) + 16777216 * ((n
        / 16777216) % 256) == n) by (bit_vector);
}

/// Decoding at a frame boundary recovers the envelope encoded there.
#[verifier::rlimit(50)]
pub proof fn lemma_frame_round_trip(b: Seq<u8>, i: int, e: Envelope)
    requires
        0 <= i,
        i + FRAME_LEN <= b.len(),
        b.subrange(i, i + FRAME_LEN as int) == enc_envelope(e),
    ensures
        dec_envelope_at(b, i) == Some(e),
{
    let enc = enc_envelope(e);
    let s_id = enc_u32(e.id);
    let s_resp = match e.responding_to {
        None => seq![0u8] + enc_u32(0),
        Some(r) => seq![1u8] + enc_u32(r),
    };
    let tag = e.payload.spec_tag();
    let s_tag = seq![tag as u8];
    let s_a = enc_u32(payload_word_a(e.payload));
    let s_b = enc_u32(payload_word_b(e.payload));
    assert(enc == s_id + s_resp + s_tag + s_a + s_b);
    assert(s_id.len() == 4 && s_resp.len() == 5 && s_tag.len() == 1 && s_a.len() == 4 && s_b.len()
        == 4);
    assert forall|k: int| 0 <= k < FRAME_LEN implies b[i + k] == enc[k] by {
        assert(b.subrange(i, i + FRAME_LEN as int)[k] == b[i + k]);
    }
    assert forall|k: int| 0 <= k < 4 implies enc[k] == s_id[k] by {}
    assert forall|k: int| 0 <= k < 5 implies enc[4 + k] == s_resp[k] by {}
    assert(enc[9] == s_tag[0]);
    assert forall|k: int| 0 <= k < 4 implies enc[10 + k] == s_a[k] by {}
    assert forall|k: int| 0 <= k < 4 implies enc[14 + k] == s_b[k] by {}
    assert(tag == TAG_AUTH || tag == TAG_AUTH_RESPONSE || tag == TAG_OPEN_WORKTREE || tag
        == TAG_OPEN_WORKTREE_RESPONSE || tag == TAG_UPDATE_WORKTREE);
    lemma_u32_round_trip(b, i, e.id);
    match e.responding_to {
        None => {
            assert(s_resp[0] == 0u8);
            assert(b[i + 4] == 0u8);
        },
        Some(r) => {
            assert(s_resp[0] == 1u8);
            assert(b[i + 4] == 1u8);
            assert forall|k: int| 0 <= k < 4 implies s_resp[1 + k] == enc_u32(r)[k] by {}
            assert(b[i + 5] == enc_u32(r)[0]);
            assert(b[i + 6] == enc_u32(r)[1]);
            assert(b[i + 7] == enc_u32(r)[2]);
            assert(b[i + 8] == enc_u32(r)[3]);
            lemma_u32_round_trip(b, i + 5, r);
        },
    }
    assert(b[i + 9] == tag as u8);
    lemma_u32_round_trip(b, i + 10, payload_word_a(e.payload));
    lemma_u32_round_trip(b, i + 14, payload_word_b(e.payload));
    assert(payload_from_words(tag as u8, payload_word_a(e.payload), payload_word_b(e.payload))
        == Some(e.payload));
}

/// The concatenation of the frames of a sequence of envelopes, in order:
/// what a serialized writer puts on the wire.
pub open spec fn enc_all(es: Seq<Envelope>) -> Seq<u8>
    decreases es.len(),
{
    if es.len() == 0 {
        Seq::empty()
    } else {
        enc_envelope(es[0]) + enc_all(es.drop_first())
    }
}

/// The envelopes framed on the wire `b`, or `None` when `b` is not a whole
/// number of well-formed frames.
pub open spec fn dec_all(b: Seq<u8>) -> Option<Seq<Envelope>>
    decreases b.len(),
{
    if b.len() == 0 {
        Some(Seq::empty())
    } else if b.len() >= FRAME_LEN {
        match dec_envelope_at(b, 0) {
            Some(e) => match dec_all(b.skip(FRAME_LEN as int)) {
                Some(es) => Some(seq![e] + es),
                None => None,
            },
            None => None,
        }
    } else {
        None
    }
}

/// Atomic-framing law: the wire bytes of any sequence of envelopes, written
/// whole-frame at a time, decode back to exactly that sequence — no frame
/// is lost, duplicated, reordered or torn.
#[verifier::rlimit(100)]
pub proof fn lemma_wire_round_trip(es: Seq<Envelope>)
    ensures
        dec_all(enc_all(es)) == Some(es),
    decreases es.len(),
{
    if es.len() == 0 {
        assert(dec_all(enc_all(es)) == Some(Seq::<Envelope>::empty()));
        assert(es =~= Seq::<Envelope>::empty());
    } else {
        let b = enc_all(es);
        let head = enc_envelope(es[0]);
        let rest = enc_all(es.drop_first());
        lemma_enc_len(es[0]);
        assert(b == head + rest);
        assert(b.len() == FRAME_LEN + rest.len());
        assert(b.subrange(0, FRAME_LEN as int) =~= head);
        lemma_frame_round_trip(b, 0, es[0]);
        assert(dec_envelope_at(b, 0) == Some(es[0]));
        assert(b.skip(FRAME_LEN as int) =~= rest);
        lemma_wire_round_trip(es.drop_first());
        assert(dec_all(rest) == Some(es.drop_first()));
        assert(dec_all(b) == Some(seq![es[0]] + es.drop_first()));
        assert(seq![es[0]] + es.drop_first() =~= es);
    }
}

/// Appends the four little-endian bytes of `n`.
fn push_u32(out: &mut Vec<u8>, n: u32)
    ensures
        final(out)@ == old(out)@ + enc_u32(n),
{
    out.push((n % 256) as u8);
    out.push(((n / 256) % 256) as u8);
    out.push(((n / 65536) % 256) as u8);
    out.push(((n / 16777216) % 256) as u8);
    proof {
        assert(out@ =~= old(out)@ + enc_u32(n));
    }
}

/// The tag byte and the two data words of `p`'s frame.
fn payload_words(p: &Payload) -> (w: (u8, u32, u32))
    ensures
        w.0 == p.spec_tag() as u8,
        w.1 == payload_word_a(*p),
        w.2 == payload_word_b(*p),
{
    match p {
        Payload::Auth { user_id, access_token } => (TAG_AUTH as u8, *user_id, *access_token),
        Payload::AuthResponse { credentials_valid } => (
            TAG_AUTH_RESPONSE as u8,
            if *credentials_valid {
                1
            } else {
                0
            },
            0,
        ),
        Payload::OpenWorktree { worktree_id } => (TAG_OPEN_WORKTREE as u8, *worktree_id, 0),
        Payload::OpenWorktreeResponse { ok } => (
            TAG_OPEN_WORKTREE_RESPONSE as u8,
            if *ok {
                1
            } else {
                0
            },
            0,
        ),
        Payload::UpdateWorktree { worktree_id, version } => (
            TAG_UPDATE_WORKTREE as u8,
            *worktree_id,
            *version,
        ),
    }
}

/// Appends the frame of `e` to `out`: one atomic `write_message`.
pub fn encode_envelope(e: &Envelope, out: &mut Vec<u8>)
    ensures
        final(out)@ == old(out)@ + enc_envelope(*e),
{
    push_u32(out, e.id);
    match e.responding_to {
        None => {
            out.push(0u8);
            push_u32(out, 0);
        },
        Some(r) => {
            out.push(1u8);
            push_u32(out, r);
        },
    }
    let w = payload_words(&e.payload);
    out.push(w.0);
    push_u32(out, w.1);
    push_u32(out, w.2);
    proof {
        assert(out@ =~= old(out)@ + enc_envelope(*e));
    }
}

/// Reads the number encoded little-endian at `i`.
fn read_u32(b: &Vec<u8>, i: usize) -> (n: u32)
    requires
        i + 4 <= b@.len(),
    ensures
        n == dec_u32_at(b@, i as int),
{
    let len = b.len();
    assert(i + 4 <= len);
    (b[i] as u32) + 256 * (b[i + 1] as u32) + 65536 * (b[i + 2] as u32) + 16777216 * (b[i + 3]
        as u32)
}

/// The payload carried by this tag byte and these data words, if the tag
/// names a variant.
fn payload_from_words_read(tag: u8, a: u32, b: u32) -> (r: Option<Payload>)
    ensures
        r == payload_from_words(tag, a, b),
{
    if tag == TAG_AUTH as u8 {
        Some(Payload::Auth { user_id: a, access_token: b })
    } else if tag == TAG_AUTH_RESPONSE as u8 {
        Some(Payload::AuthResponse { credentials_valid: a != 0 })
    } else if tag == TAG_OPEN_WORKTREE as u8 {
        Some(Payload::OpenWorktree { worktree_id: a })
    } else if tag == TAG_OPEN_WORKTREE_RESPONSE as u8 {
        Some(Payload::OpenWorktreeResponse { ok: a != 0 })
    } else if tag == TAG_UPDATE_WORKTREE as u8 {
        Some(Payload::UpdateWorktree { worktree_id: a, version: b })
    } else {
        None
    }
}

/// One step of scanning a read buffer for frames.
#[derive(Clone, Copy, PartialEq, Eq, Debug)]
pub enum ScanStep {
    /// A well-formed frame: its envelope, and the next frame boundary.
    Frame(Envelope, usize),
    /// A whole frame's bytes are there but do not decode; frames are
    /// fixed-size, so scanning resumes at the next boundary, which this
    /// carries.
    Malformed(usize),
    /// Fewer than `FRAME_LEN` bytes remain: wait for more input.
    Incomplete,
}

/// Scans the buffer at `start` for the next frame, deciding between a
/// decoded envelope, a recoverable malformed frame (skip exactly one frame
/// length), and incomplete input.
pub fn scan_frame(b: &Vec<u8>, start: usize) -> (r: ScanStep)
    ensures
        match r {
            ScanStep::Frame(e, next) => dec_envelope_at(b@, start as int) == Some(e) && next
                == start + FRAME_LEN,
            ScanStep::Malformed(next) => dec_envelope_at(b@, start as int) is None && start
                + FRAME_LEN <= b@.len() && next == start + FRAME_LEN,
            ScanStep::Incomplete => b@.len() < start + FRAME_LEN,
        },
{
    match decode_envelope(b, start) {
        Some((env, next)) => ScanStep::Frame(env, next),
        None => {
            if b.len() >= FRAME_LEN && start <= b.len() - FRAME_LEN {
                ScanStep::Malformed(start + FRAME_LEN)
            } else {
                ScanStep::Incomplete
            }
        },
    }
}

/// Reads one frame starting at `start`: exactly one envelope, or `None`
/// when no whole well-formed frame is there.  On success the next frame
/// boundary is `start + FRAME_LEN`.
pub fn decode_envelope(b: &Vec<u8>, start: usize) -> (r: Option<(Envelope, usize)>)
    ensures
        match r {
            Some((e, next)) => dec_envelope_at(b@, start as int) == Some(e) && next == start
                + FRAME_LEN,
            None => dec_envelope_at(b@, start as int) is None,
        },
{
    if b.len() < FRAME_LEN || start > b.len() - FRAME_LEN {
        return None;
    }
    let flag = b[start + 4];
    if flag != 0 && flag != 1 {
        return None;
    }
    let payload = payload_from_words_read(
        b[start + 9],
        read_u32(b, start + 10),
        read_u32(b, start + 14),
    );
    match payload {
        Some(p) => {
            let responding_to = if flag == 1 {
                Some(read_u32(b, start + 5))
            } else {
                None
            };
            Some((Envelope { id: read_u32(b, start), responding_to, payload: p }, start + FRAME_LEN))
        },
        None => None,
    }
}

} // verus!
