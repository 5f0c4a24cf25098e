//! Ceremony-material retention: which threshold-signing packets are
//! **terminal**, safe to compact behind a durable audit commitment.
//!
//! A packet is terminal iff it belongs to a signing transcript that can no
//! longer change anything:
//! - a space-plane op naming a generation `<=` the standing generation: it
//!   either installed already or the monotone generation rule fences it;
//! - an authority grant whose named DKG proposal created the arrangement that
//!   is now standing: the elevation completed.
//!
//! Everything else is retained: active transcripts, every DKG packet,
//! authorizations and custody attestations, and requests whose op does not
//! decode (inert, but dropping unclassifiable material is the wrong default).
//!
//! The board is taken already grouped into transcripts, with each request's
//! op already decoded for its target.

use vstd::prelude::*;

use crate::bytes::{canon_set, sorted_unique_keys, Key32};
use crate::encoding::{hex_string, hex_text};

verus! {

/// What a signing request asks to have signed, decoded for its target.
#[derive(Debug, Clone, Copy)]
pub enum SignedOp {
    /// A space-plane op (recover, rotate or reshare) naming a generation.
    SpaceOp { gen: u32 },
    /// An authority grant for the DKG proposal transcript `proposal`.
    AuthorityGrant { proposal: Key32 },
    /// The op bytes did not decode for the request's target.
    Undecodable,
}

/// The request that opens a signing transcript: its packet hash and its op.
#[derive(Debug, Clone, Copy)]
pub struct SignRequest {
    pub id: Key32,
    pub op: SignedOp,
}

/// A threshold-signing transcript: its request (if it has arrived) and the
/// packet hashes of its rounds.
#[derive(Debug, Clone)]
pub struct SigningTranscript {
    pub request: Option<SignRequest>,
    pub rounds: Vec<Key32>,
}

/// A DKG transcript: its id, and the configuration id its proposal creates
/// (if its proposal has arrived and is a DKG proposal).
#[derive(Debug, Clone, Copy)]
pub struct DkgTranscript {
    pub id: Key32,
    pub proposal_configuration: Option<Key32>,
}

/// The retained ceremony board, grouped into transcripts.
#[derive(Debug, Clone)]
pub struct Board {
    pub signing: Vec<SigningTranscript>,
    pub dkg: Vec<DkgTranscript>,
}

/// The standing space-plane state: generation and authority configuration.
#[derive(Debug, Clone, Copy)]
pub struct RootState {
    pub gen: u32,
    pub configuration: Key32,
}

/// The configuration created by the proposal of the first DKG transcript with
/// id `id`, if there is one.
pub open spec fn proposal_configuration(dkg: Seq<DkgTranscript>, id: Key32) -> Option<Key32>
    decreases dkg.len(),
{
    if dkg.len() == 0 {
        None
    } else if dkg[0].id == id {
        dkg[0].proposal_configuration
    } else {
        proposal_configuration(dkg.drop_first(), id)
    }
}

/// Whether a request's transcript can no longer change anything.
pub open spec fn request_terminal(dkg: Seq<DkgTranscript>, req: SignRequest, root: RootState) -> bool {
    match req.op {
        SignedOp::SpaceOp { gen } => gen <= root.gen,
        SignedOp::AuthorityGrant { proposal } => proposal_configuration(dkg, proposal) == Some(
            root.configuration,
        ),
        SignedOp::Undecodable => false,
    }
}

/// The packets of a signing transcript that are terminal: its request and
/// its rounds, when its request is terminal; else none.
pub open spec fn transcript_drops(
    dkg: Seq<DkgTranscript>,
    t: SigningTranscript,
    root: RootState,
    k: Key32,
) -> bool {
    match t.request {
        Some(req) => request_terminal(dkg, req, root) && (k == req.id || t.rounds@.contains(k)),
        None => false,
    }
}

/// Every terminal packet hash on the board.
pub open spec fn terminal_packets(board: Board, root: RootState) -> Set<Key32> {
    Set::new(
        |k: Key32|
            exists|i: int|
                0 <= i < board.signing@.len() && transcript_drops(
                    board.dkg@,
                    #[trigger] board.signing@[i],
                    root,
                    k,
                ),
    )
}

fn configuration_of(dkg: &Vec<DkgTranscript>, id: &Key32) -> (r: Option<Key32>)
    ensures
        r == proposal_configuration(dkg@, *id),
{
    let mut i: usize = 0;
    assert(dkg@.subrange(0, dkg@.len() as int) =~= dkg@);
    while i < dkg.len()
        invariant
            0 <= i <= dkg@.len(),
            proposal_configuration(dkg@, *id) == proposal_configuration(
                dkg@.subrange(i as int, dkg@.len() as int),
                *id,
            ),
        decreases dkg@.len() - i,
    {
        let ghost rest = dkg@.subrange(i as int, dkg@.len() as int);
        assert(rest.drop_first() =~= dkg@.subrange(i + 1, dkg@.len() as int));
        if crate::bytes::keys_equal(&dkg[i].id, id) {
            return dkg[i].proposal_configuration;
        }
        i = i + 1;
    }
    assert(dkg@.subrange(i as int, dkg@.len() as int) =~= Seq::<DkgTranscript>::empty());
    None
}

fn is_terminal(dkg: &Vec<DkgTranscript>, req: &SignRequest, root: &RootState) -> (r: bool)
    ensures
        r == request_terminal(dkg@, *req, *root),
{
    match req.op {
        SignedOp::SpaceOp { gen } => gen <= root.gen,
        SignedOp::AuthorityGrant { proposal } => match configuration_of(dkg, &proposal) {
            Some(c) => crate::bytes::keys_equal(&c, &root.configuration),
            None => false,
        },
        SignedOp::Undecodable => false,
    }
}

/// The terminal packet hashes of the board, as lowercase hex, sorted and
/// without repeats.
pub fn terminal_compactable(board: &Board, root: &RootState) -> (r: Vec<String>)
    ensures
        r@.len() == canon_set(terminal_packets(*board, *root)).len(),
        forall|i: int|
            0 <= i < r@.len() ==> #[trigger] r@[i]@ == hex_text(
                canon_set(terminal_packets(*board, *root))[i]@,
            ),
{
    let mut drop: Vec<Key32> = Vec::new();
    let mut i: usize = 0;
    while i < board.signing.len()
        invariant
            0 <= i <= board.signing@.len(),
            forall|k: Key32|
                drop@.contains(k) <==> exists|j: int|
                    0 <= j < i && transcript_drops(board.dkg@, #[trigger] board.signing@[j], *root, k),
        decreases board.signing@.len() - i,
    {
        let t = &board.signing[i];
        let ghost before = drop@;
        let mut added = false;
        if let Some(req) = &t.request {
            if is_terminal(&board.dkg, req, root) {
                drop.push(req.id);
                let mut j: usize = 0;
                while j < t.rounds.len()
                    invariant
                        0 <= j <= t.rounds@.len(),
                        drop@ == before.push(req.id) + t.rounds@.subrange(0, j as int),
                    decreases t.rounds@.len() - j,
                {
                    drop.push(t.rounds[j]);
                    assert(t.rounds@.subrange(0, j + 1) =~= t.rounds@.subrange(0, j as int).push(
                        t.rounds@[j as int],
                    ));
                    j = j + 1;
                }
                assert(t.rounds@.subrange(0, j as int) =~= t.rounds@);
                added = true;
            }
        }
        proof {
            assert forall|k: Key32|
                drop@.contains(k) <==> exists|j: int|
                    0 <= j < i + 1 && transcript_drops(board.dkg@, #[trigger] board.signing@[j], *root, k) by {
                if added {
                    let req = t.request->0;
                    assert(drop@ =~= before.push(req.id) + t.rounds@);
                    if drop@.contains(k) {
                        let a = choose|a: int| 0 <= a < drop@.len() && drop@[a] == k;
                        if a < before.len() {
                            assert(before.contains(k));
                        } else if a == before.len() {
                            assert(transcript_drops(board.dkg@, board.signing@[i as int], *root, k));
                        } else {
                            assert(t.rounds@[a - before.len() - 1] == k);
                            assert(transcript_drops(board.dkg@, board.signing@[i as int], *root, k));
                        }
                    }
                    if exists|j: int|
                        0 <= j < i + 1 && transcript_drops(board.dkg@, #[trigger] board.signing@[j], *root, k) {
                        let j = choose|j: int|
                            0 <= j < i + 1 && transcript_drops(board.dkg@, #[trigger] board.signing@[j], *root, k);
                        if j < i {
                            assert(before.contains(k));
                            let a = choose|a: int| 0 <= a < before.len() && before[a] == k;
                            assert(drop@[a] == k);
                        } else if k == req.id {
                            assert(drop@[before.len() as int] == k);
                        } else {
                            let a = choose|a: int| 0 <= a < t.rounds@.len() && t.rounds@[a] == k;
                            assert(drop@[before.len() + 1 + a] == k);
                        }
                    }
                } else {
                    assert(drop@ == before);
                    if exists|j: int|
                        0 <= j < i + 1 && transcript_drops(board.dkg@, #[trigger] board.signing@[j], *root, k) {
                        let j = choose|j: int|
                            0 <= j < i + 1 && transcript_drops(board.dkg@, #[trigger] board.signing@[j], *root, k);
                        assert(j != i);
                    }
                }
            }
        }
        i = i + 1;
    }
    proof {
        assert(drop@.to_set() =~= terminal_packets(*board, *root));
    }
    let sorted = sorted_unique_keys(&drop);
    let mut out: Vec<String> = Vec::new();
    let mut j: usize = 0;
    while j < sorted.len()
        invariant
            0 <= j <= sorted@.len(),
            sorted@ == canon_set(terminal_packets(*board, *root)),
            out@.len() == j,
            forall|a: int| 0 <= a < j ==> #[trigger] out@[a]@ == hex_text(sorted@[a]@),
        decreases sorted@.len() - j,
    {
        out.push(hex_string(&sorted[j]));
        j = j + 1;
    }
    out
}

/// Retention: only packets of signing transcripts whose request is terminal
/// are ever dropped; every DKG packet, every request-less transcript and every
/// packet of an active or undecodable request is kept (unless the same hash
/// is also a packet of a terminal transcript).
pub proof fn lemma_only_terminal_transcripts_drop(board: Board, root: RootState, k: Key32)
    requires
        terminal_packets(board, root).contains(k),
    ensures
        exists|i: int|
            #![trigger board.signing@[i]]
            {
                let t = board.signing@[i];
                &&& 0 <= i < board.signing@.len()
                &&& t.request is Some
                &&& request_terminal(board.dkg@, t.request->0, root)
                &&& (k == t.request->0.id || t.rounds@.contains(k))
            },
{
    let i = choose|i: int|
        0 <= i < board.signing@.len() && transcript_drops(
            board.dkg@,
            #[trigger] board.signing@[i],
            root,
            k,
        );
    assert(board.signing@[i].request is Some);
}

} // verus!
