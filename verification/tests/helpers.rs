use llama_mtp::orchestration::helpers::{
    accept_h_index, compose_emitted, draft_should_stop, longest_accepted_prefix,
    sequential_positions, shift_h_mapping, verify_acceptance,
};
use llama_mtp::token::LlamaToken;

fn toks(ids: &[i32]) -> Vec<LlamaToken> {
    ids.iter().copied().map(LlamaToken).collect()
}

#[test]
fn longest_accepted_prefix_empty_inputs() {
    assert_eq!(longest_accepted_prefix(&[], &[]), 0);
    assert_eq!(longest_accepted_prefix(&toks(&[1, 2]), &[]), 0);
    assert_eq!(longest_accepted_prefix(&[], &toks(&[1, 2])), 0);
}

#[test]
fn longest_accepted_prefix_full_match() {
    assert_eq!(
        longest_accepted_prefix(&toks(&[1, 2, 3]), &toks(&[1, 2, 3])),
        3
    );
}

#[test]
fn longest_accepted_prefix_partial_match() {
    assert_eq!(
        longest_accepted_prefix(&toks(&[1, 2, 9]), &toks(&[1, 2, 3])),
        2
    );
}

#[test]
fn longest_accepted_prefix_divergent_at_zero() {
    assert_eq!(
        longest_accepted_prefix(&toks(&[9, 2, 3]), &toks(&[1, 2, 3])),
        0
    );
}

#[test]
fn longest_accepted_prefix_stops_at_shorter_slice() {
    // The shorter slice bounds the prefix even when every shared position agrees.
    assert_eq!(
        longest_accepted_prefix(&toks(&[1, 2]), &toks(&[1, 2, 3])),
        2
    );
}

#[test]
fn accept_h_index_accepted_below_rows() {
    assert_eq!(accept_h_index(1, 4), 1);
}

#[test]
fn accept_h_index_accepted_equals_rows_clamps() {
    assert_eq!(accept_h_index(4, 4), 3);
}

#[test]
fn accept_h_index_no_rows() {
    assert_eq!(accept_h_index(0, 0), 0);
    assert_eq!(accept_h_index(3, 0), 0);
}

#[test]
fn accept_h_index_single_row() {
    assert_eq!(accept_h_index(0, 1), 0);
    assert_eq!(accept_h_index(5, 1), 0);
}

#[test]
fn shift_h_mapping_typical() {
    // Slot 0 uses the carry; slot k pairs with verify_h row k-1.
    assert_eq!(shift_h_mapping(4), vec![None, Some(0), Some(1), Some(2)],);
}

#[test]
fn shift_h_mapping_single_row() {
    // One accepted token pairs only with the carry — no captured row.
    assert_eq!(shift_h_mapping(1), vec![None]);
}

#[test]
fn shift_h_mapping_empty() {
    assert_eq!(shift_h_mapping(0), Vec::<Option<usize>>::new());
}

#[test]
fn shift_h_mapping_indices_are_one_behind_slot() {
    // The off-by-one guard: every slot k>=1 must map to row k-1, and only
    // slot 0 may be the carry.
    let map = shift_h_mapping(8);
    assert_eq!(map[0], None);
    for (slot, entry) in map.iter().enumerate().skip(1) {
        assert_eq!(*entry, Some(slot - 1));
    }
}

#[test]
fn verify_acceptance_full_match_takes_frontier_next() {
    // Drafts [1,2,3]; target predicts each correctly and then chooses 4 at
    // batch index 3 (draft_2's logits). All three accepted, +1 is 4.
    let target_chosen = toks(&[1, 2, 3, 4]);
    let drafts = toks(&[1, 2, 3]);
    assert_eq!(
        verify_acceptance(&target_chosen, &drafts),
        (3, LlamaToken(4))
    );
}

#[test]
fn verify_acceptance_partial_match_next_is_frontier_choice() {
    // Drafts [1,2,3]; target agrees on the first two, diverges at index 2
    // (chooses 9 where the draft said 3). n_accepted = 2 and the +1 is the
    // divergent choice 9 — read at the frontier index, not index 2+1.
    let target_chosen = toks(&[1, 2, 9, 99]);
    let drafts = toks(&[1, 2, 3]);
    assert_eq!(
        verify_acceptance(&target_chosen, &drafts),
        (2, LlamaToken(9))
    );
}

#[test]
fn verify_acceptance_zero_match_next_is_id_last_prediction() {
    // The target's choice after id_last (batch index 0) disagrees with
    // draft_0 immediately. n_accepted = 0 and the +1 is that index-0 choice
    // (5) — the token at n_past+1, not the index-1 prediction.
    let target_chosen = toks(&[5, 6, 7]);
    let drafts = toks(&[1, 2]);
    assert_eq!(
        verify_acceptance(&target_chosen, &drafts),
        (0, LlamaToken(5))
    );
}

#[test]
fn verify_acceptance_single_draft_accepted() {
    // One draft, accepted: +1 comes from batch index 1 (draft_0's logits).
    let target_chosen = toks(&[1, 2]);
    let drafts = toks(&[1]);
    assert_eq!(
        verify_acceptance(&target_chosen, &drafts),
        (1, LlamaToken(2))
    );
}

#[test]
fn verify_acceptance_single_draft_rejected() {
    // One draft, rejected at index 0: +1 is the index-0 choice (9).
    let target_chosen = toks(&[9, 8]);
    let drafts = toks(&[1]);
    assert_eq!(
        verify_acceptance(&target_chosen, &drafts),
        (0, LlamaToken(9))
    );
}

#[test]
fn compose_emitted_appends_next_after_full_prefix() {
    // Full acceptance: every accepted draft token, then the guaranteed +1.
    assert_eq!(
        compose_emitted(&toks(&[1, 2, 3]), LlamaToken(4)),
        toks(&[1, 2, 3, 4]),
    );
}

#[test]
fn compose_emitted_partial_prefix() {
    // Partial acceptance still ends with the target's next token.
    assert_eq!(
        compose_emitted(&toks(&[1, 2]), LlamaToken(9)),
        toks(&[1, 2, 9]),
    );
}

#[test]
fn compose_emitted_zero_accepted_still_emits_next() {
    // The +1 invariant: even with no accepted drafts, exactly one token
    // (the target's next token) is emitted, so the loop makes progress.
    assert_eq!(compose_emitted(&[], LlamaToken(7)), toks(&[7]));
}

#[test]
fn sequential_positions_typical() {
    assert_eq!(sequential_positions(5, 3), vec![5, 6, 7]);
}

#[test]
fn sequential_positions_single() {
    assert_eq!(sequential_positions(0, 1), vec![0]);
}

#[test]
fn sequential_positions_empty() {
    assert_eq!(sequential_positions(9, 0), Vec::<i32>::new());
}

#[test]
fn draft_should_stop_below_p_min() {
    assert!(draft_should_stop(0.4_f32 < 0.5_f32, 0, 4));
}

#[test]
fn draft_should_stop_at_p_min_continues() {
    // Exactly meeting p_min is not below it, so drafting continues.
    assert!(!draft_should_stop(0.5_f32 < 0.5_f32, 0, 4));
}

#[test]
fn draft_should_stop_at_n_max() {
    assert!(draft_should_stop(0.99_f32 < 0.0_f32, 4, 4));
}

#[test]
fn draft_should_stop_below_n_max_continues() {
    assert!(!draft_should_stop(0.99_f32 < 0.0_f32, 3, 4));
}

#[test]
fn draft_should_stop_past_n_max() {
    assert!(draft_should_stop(0.99_f32 < 0.0_f32, 5, 4));
}
