use lait::ceremony::{
    terminal_compactable, Board, DkgTranscript, RootState, SignRequest, SignedOp, SigningTranscript,
};

fn hex(k: [u8; 32]) -> String {
    k.iter().map(|b| format!("{b:02x}")).collect()
}

fn root_state(gen: u32) -> RootState {
    RootState { gen, configuration: [0xc0; 32] }
}

/// A 2-of-2 DKG proposal transcript, and a signing request over a
/// `Recover { gen }` with one round.
fn recover_request_board(gen: u32) -> (Board, [u8; 32], [u8; 32]) {
    let proposal = [0x11; 32];
    let request = [0x22; 32];
    let round = [0x33; 32];
    let board = Board {
        signing: vec![SigningTranscript {
            request: Some(SignRequest { id: request, op: SignedOp::SpaceOp { gen } }),
            rounds: vec![round],
        }],
        dkg: vec![DkgTranscript { id: proposal, proposal_configuration: Some([0xd0; 32]) }],
    };
    (board, proposal, request)
}

#[test]
fn a_fenced_generation_signing_transcript_is_terminal() {
    let (board, proposal, request) = recover_request_board(1);
    // Current gen 1: the gen-1 request either installed or is fenced.
    let drop = terminal_compactable(&board, &root_state(1));
    assert!(drop.contains(&hex(request)), "request compacts");
    // The proposal (a DKG packet) is never in the drop set.
    assert!(!drop.contains(&hex(proposal)), "dkg proposal retained");
}

#[test]
fn an_active_next_generation_transcript_is_retained() {
    let (board, _proposal, request) = recover_request_board(1);
    // Current gen 0: the gen-1 request is the ACTIVE next step.
    let drop = terminal_compactable(&board, &root_state(0));
    assert!(!drop.contains(&hex(request)), "an active transcript may not be compacted");
    assert!(drop.is_empty());
}

#[test]
fn terminal_packets_come_out_sorted_and_once() {
    let (mut board, _proposal, request) = recover_request_board(1);
    board.signing[0].rounds = vec![[0x99; 32], [0x01; 32], [0x99; 32]];
    let drop = terminal_compactable(&board, &root_state(5));
    assert_eq!(drop, vec![hex([0x01; 32]), hex(request), hex([0x99; 32])]);
}

#[test]
fn a_grant_for_the_standing_arrangement_is_terminal() {
    let proposal = [0x11; 32];
    let grant = SigningTranscript {
        request: Some(SignRequest {
            id: [0x44; 32],
            op: SignedOp::AuthorityGrant { proposal },
        }),
        rounds: vec![[0x55; 32]],
    };
    let standing = Board {
        signing: vec![grant.clone()],
        dkg: vec![DkgTranscript { id: proposal, proposal_configuration: Some([0xc0; 32]) }],
    };
    assert_eq!(
        terminal_compactable(&standing, &root_state(0)),
        vec![hex([0x44; 32]), hex([0x55; 32])]
    );
    let elsewhere = Board {
        signing: vec![grant.clone()],
        dkg: vec![DkgTranscript { id: proposal, proposal_configuration: Some([0xc1; 32]) }],
    };
    assert!(terminal_compactable(&elsewhere, &root_state(0)).is_empty());
    let unknown = Board { signing: vec![grant], dkg: vec![] };
    assert!(terminal_compactable(&unknown, &root_state(0)).is_empty());
}

#[test]
fn undecodable_and_requestless_transcripts_are_kept() {
    let board = Board {
        signing: vec![
            SigningTranscript {
                request: Some(SignRequest { id: [0x66; 32], op: SignedOp::Undecodable }),
                rounds: vec![[0x67; 32]],
            },
            SigningTranscript { request: None, rounds: vec![[0x68; 32]] },
        ],
        dkg: vec![],
    };
    assert!(terminal_compactable(&board, &root_state(u32::MAX)).is_empty());
}
