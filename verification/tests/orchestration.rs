use llama_mtp::context::{DecodeError, LlamaContext};
use llama_mtp::orchestration::generate::{prefill_batch, BaselineGenerate, MtpGenerate, SEQ_ID};
use llama_mtp::orchestration::session::{
    rollback_range, verify_batch, AcceptError, DraftReply, DraftRun, DraftStep, MtpParams,
    MtpSession, Rollback, VerifyError, DRAFT_SEQ_ID,
};
use llama_mtp::token::LlamaToken;

fn tokens(ids: &[i32]) -> Vec<LlamaToken> {
    ids.iter().copied().map(LlamaToken).collect()
}

fn decoded(id: i32, below_p_min: bool, h_row: &[f32]) -> DraftReply<Vec<f32>> {
    DraftReply::Decoded {
        top1: LlamaToken(id),
        below_p_min,
        h_row: h_row.to_vec(),
    }
}

fn done(step: DraftStep<f32>) -> Vec<LlamaToken> {
    match step {
        DraftStep::Done(drafts) => drafts,
        DraftStep::Decode(_) => panic!("the draft should be over"),
    }
}

fn start_draft(n_max: usize, n_min: usize) -> DraftRun {
    let params = MtpParams {
        n_max,
        n_min,
        top_k: 10,
    };
    MtpSession::new(1, 0.0_f32, params).draft(LlamaToken(1), 10).0
}

/// A target whose choice depends on everything it holds.
fn greedy(held: &[LlamaToken]) -> LlamaToken {
    let mut hash: u32 = 17;
    for token in held {
        hash = hash.wrapping_mul(31).wrapping_add(token.0 as u32);
    }
    LlamaToken((hash >> 7) as i32 % 5)
}

/// Runs the plain loop on `greedy`.
fn run_baseline(prompt: &[LlamaToken], n_predict: usize, end: LlamaToken) -> Vec<LlamaToken> {
    let mut held = prompt.to_vec();
    let mut run = BaselineGenerate::start(prompt.len(), n_predict);
    while !run.done() {
        let next = greedy(&held);
        if let Some(batch) = run.step(next, next == end) {
            assert_eq!(batch.positions, vec![held.len() as i32]);
            assert_eq!(batch.seq_id, SEQ_ID);
            held.extend(&batch.tokens);
        }
    }
    run.output()
}

/// Runs the speculative loop on `greedy`, with a cache that forgets what it is
/// told to; every third draft is a guess that goes wrong at its end.
fn run_mtp(prompt: &[LlamaToken], n_predict: usize, end: LlamaToken) -> (Vec<LlamaToken>, usize, usize) {
    let mut cache = prefill_batch(prompt).tokens;
    let first = greedy(&cache);
    let mut run = MtpGenerate::start(prompt.len(), first, first == end, n_predict);
    let mut pass = 0;
    while !run.done() {
        let mut drafts = Vec::new();
        let mut guess = cache.clone();
        guess.push(run.id_last());
        for k in 0..(pass % 4) {
            let mut token = greedy(&guess);
            if pass % 3 == 0 && k == 2 {
                token = LlamaToken(token.0 + 1);
            }
            drafts.push(token);
            guess.push(token);
        }
        pass += 1;

        let batch = run.target_batch(&drafts).unwrap();
        assert_eq!(batch.tokens.len(), drafts.len() + 1);
        assert_eq!(batch.positions[0], cache.len() as i32);
        let mut chosen = Vec::new();
        for token in &batch.tokens {
            cache.push(*token);
            chosen.push(greedy(&cache));
        }
        let ends: Vec<bool> = chosen.iter().map(|t| *t == end).collect();
        let n_past = run.n_past();
        let commit = run.step(&drafts, &chosen, &ends);
        assert_eq!(commit.outcome.next_pos, n_past + commit.outcome.n_accepted as i32 + 1);
        assert_eq!(commit.mirror_tokens, batch.tokens[..=commit.outcome.n_accepted].to_vec());
        assert_eq!(commit.mirror_positions, batch.positions[..=commit.outcome.n_accepted].to_vec());
        assert_eq!(commit.rollback.is_none(), drafts.is_empty());
        if let Some(range) = commit.rollback {
            assert_eq!(range.seq_id, 0);
            cache.truncate(range.from_pos as usize);
        }
    }
    let out = run.output();
    (out.tokens, out.accepted_total, out.target_passes)
}

#[test]
fn drafting_changes_nothing_but_the_number_of_passes() {
    let mut saved_passes = 0;
    for seed in 0..20 {
        let prompt = tokens(&[seed, 3, seed * 7]);
        for end in [1, 4, 99] {
            for n_predict in [0, 1, 2, 7, 40] {
                let plain = run_baseline(&prompt, n_predict, LlamaToken(end));
                let (out, accepted, passes) = run_mtp(&prompt, n_predict, LlamaToken(end));
                assert_eq!(out, plain);
                assert!(out.len() <= n_predict);
                assert!(out.is_empty() || passes < out.len());
                assert!(out.is_empty() || out.len() <= 1 + passes + accepted);
                saved_passes += out.len().saturating_sub(passes + 1);
            }
        }
    }
    assert!(saved_passes > 0);
}

#[test]
fn the_first_token_can_end_the_run() {
    let run = MtpGenerate::start(3, LlamaToken(2), true, 5);
    assert!(run.done());
    let out = run.output();
    assert_eq!(out.tokens, tokens(&[2]));
    assert_eq!((out.accepted_total, out.target_passes), (0, 0));
}

#[test]
fn nothing_is_generated_when_nothing_is_wanted() {
    let run = MtpGenerate::start(3, LlamaToken(2), true, 0);
    assert!(run.done());
    assert!(run.output().tokens.is_empty());
}

#[test]
fn a_step_emits_the_accepted_drafts_and_one_more() {
    let mut run = MtpGenerate::start(3, LlamaToken(9), false, 10);
    let commit = run.step(&tokens(&[1, 2, 3]), &tokens(&[1, 2, 8, 7]), &[false; 4]);
    assert_eq!(
        commit.rollback,
        Some(Rollback {
            seq_id: 0,
            from_pos: 6,
        })
    );
    assert_eq!(commit.outcome.n_accepted, 2);
    assert_eq!(commit.outcome.next_pos, 6);
    assert_eq!(commit.mirror_tokens, tokens(&[9, 1, 2]));
    assert_eq!(commit.mirror_positions, vec![3, 4, 5]);
    assert_eq!(run.id_last(), LlamaToken(8));
    assert_eq!(run.n_past(), 6);
    let out = run.output();
    assert_eq!(out.tokens, tokens(&[9, 1, 2, 8]));
    assert_eq!((out.accepted_total, out.target_passes), (2, 1));
}

#[test]
fn an_end_token_cuts_the_step_short() {
    let mut run = MtpGenerate::start(3, LlamaToken(9), false, 10);
    let commit = run.step(
        &tokens(&[1, 2]),
        &tokens(&[1, 2, 3]),
        &[true, false, false],
    );
    assert_eq!(commit.outcome.n_accepted, 2);
    assert!(run.done());
    assert_eq!(run.output().tokens, tokens(&[9, 1]));
}

#[test]
fn the_wanted_number_cuts_the_step_short() {
    let mut run = MtpGenerate::start(3, LlamaToken(9), false, 3);
    run.step(&tokens(&[1, 2]), &tokens(&[1, 2, 3]), &[false; 3]);
    assert!(run.done());
    let out = run.output();
    assert_eq!(out.tokens, tokens(&[9, 1, 2]));
    assert_eq!((out.accepted_total, out.target_passes), (2, 1));
}

#[test]
fn the_plain_loop_stops_at_an_end_token() {
    let mut run = BaselineGenerate::start(2, 5);
    assert_eq!(
        run.step(LlamaToken(4), false).map(|b| (b.tokens, b.positions)),
        Some((tokens(&[4]), vec![2]))
    );
    assert_eq!(run.step(LlamaToken(1), true), None);
    assert!(run.done());
    assert_eq!(run.output(), tokens(&[4, 1]));
}

#[test]
fn the_prompt_is_decoded_from_position_zero() {
    let batch = prefill_batch(&tokens(&[5, 6, 7]));
    assert_eq!(batch.tokens, tokens(&[5, 6, 7]));
    assert_eq!(batch.positions, vec![0, 1, 2]);
    assert_eq!(batch.seq_id, SEQ_ID);
}

#[test]
fn default_parameters() {
    assert_eq!(
        MtpParams::default(),
        MtpParams {
            n_max: 4,
            n_min: 1,
            top_k: 10,
        }
    );
}

#[test]
fn the_mirror_pairs_each_token_with_the_row_before_it() {
    let mut session = MtpSession::new(2, 0.0_f32, MtpParams::default());
    assert_eq!(*session.pending_h(), vec![0.0, 0.0]);
    let rows = vec![vec![1.0, 1.5], vec![2.0, 2.5], vec![3.0, 3.5]];
    let mirror = session
        .sync_capture(&rows, &tokens(&[7, 8, 9]), &[4, 5, 6], 0)
        .unwrap();
    assert_eq!(mirror.inner().token, vec![7, 8, 9]);
    assert_eq!(mirror.inner().pos, vec![4, 5, 6]);
    assert_eq!(mirror.inner().embd, vec![0.0, 0.0, 1.0, 1.5, 2.0, 2.5]);
    assert!(mirror.initialized_logits().is_empty());
    assert_eq!(*session.pending_h(), vec![3.0, 3.5]);

    // The carried row goes with the first token of the next mirror.
    let next = session
        .sync_capture(&vec![vec![4.0, 4.5]], &tokens(&[10]), &[7], 0)
        .unwrap();
    assert_eq!(next.inner().embd, vec![3.0, 3.5]);
    assert_eq!(*session.pending_h(), vec![4.0, 4.5]);
}

#[test]
fn mirroring_nothing_keeps_the_session() {
    let mut session = MtpSession::new(1, 0.5_f32, MtpParams::default());
    assert!(session.sync_capture(&vec![], &[], &[], 0).is_none());
    assert_eq!(*session.pending_h(), vec![0.5]);
}

#[test]
fn accepting_carries_the_row_of_the_last_accepted_token() {
    let mut session = MtpSession::new(1, 0.0_f32, MtpParams::default());
    let rows = vec![vec![1.0], vec![2.0], vec![3.0]];
    session.sync_capture(&rows, &tokens(&[7, 8, 9]), &[4, 5, 6], 0);
    assert_eq!(session.accept(2, 7, 0, true), Ok(()));
    assert_eq!(*session.pending_h(), vec![3.0]);
    assert_eq!(session.accept(1, 6, 0, true), Ok(()));
    assert_eq!(*session.pending_h(), vec![2.0]);
    assert_eq!(session.accept(9, 7, 0, true), Ok(()));
    assert_eq!(*session.pending_h(), vec![3.0]);
}

#[test]
fn accepting_reports_each_error_and_keeps_the_row() {
    let mut session = MtpSession::new(1, 0.0_f32, MtpParams::default());
    session.sync_capture(&vec![vec![1.0], vec![2.0]], &tokens(&[7, 8]), &[4, 5], 0);
    assert_eq!(session.accept(0, -1, -1, true), Err(AcceptError::NegativeSeqId));
    assert_eq!(session.accept(0, -1, 0, true), Err(AcceptError::NegativePos));
    assert_eq!(session.accept(0, 5, 0, false), Err(AcceptError::RollbackFailed));
    assert_eq!(*session.pending_h(), vec![2.0]);
    assert_eq!(
        rollback_range(5, 2),
        Ok(Rollback {
            seq_id: 2,
            from_pos: 5,
        })
    );
    assert_eq!(rollback_range(-5, 2), Err(AcceptError::NegativePos));
    assert_eq!(rollback_range(-5, -2), Err(AcceptError::NegativeSeqId));
}

#[test]
fn a_draft_starts_from_the_carried_row() {
    let session = MtpSession::new(2, 0.25_f32, MtpParams::default());
    let (_, seed) = session.draft(LlamaToken(3), 12);
    assert_eq!(seed.inner().token, vec![3]);
    assert_eq!(seed.inner().embd, vec![0.25, 0.25]);
    assert_eq!(seed.inner().pos, vec![12]);
    assert_eq!(seed.inner().seq_id, vec![DRAFT_SEQ_ID]);
    assert_eq!(*seed.initialized_logits(), vec![0]);
}

#[test]
fn a_draft_feeds_each_token_back_with_its_row() {
    let mut run = start_draft(3, 1);
    match run.step(decoded(5, false, &[1.5])) {
        DraftStep::Decode(batch) => {
            assert_eq!(batch.inner().token, vec![5]);
            assert_eq!(batch.inner().embd, vec![1.5]);
            assert_eq!(batch.inner().pos, vec![11]);
            assert_eq!(batch.inner().logits, vec![1]);
        }
        DraftStep::Done(_) => panic!("the draft should go on"),
    }
    match run.step(decoded(6, false, &[2.5])) {
        DraftStep::Decode(batch) => {
            assert_eq!(batch.inner().token, vec![6]);
            assert_eq!(batch.inner().embd, vec![2.5]);
            assert_eq!(batch.inner().pos, vec![12]);
        }
        DraftStep::Done(_) => panic!("the draft should go on"),
    }
    assert_eq!(done(run.step(decoded(7, false, &[3.5]))), tokens(&[5, 6, 7]));
}

#[test]
fn a_draft_stops_at_a_weak_candidate() {
    let mut run = start_draft(4, 1);
    run.step(decoded(5, false, &[1.5]));
    assert_eq!(done(run.step(decoded(6, true, &[2.5]))), tokens(&[5]));
}

#[test]
fn a_short_draft_is_dropped() {
    let mut run = start_draft(4, 2);
    run.step(decoded(5, false, &[1.5]));
    assert_eq!(done(run.step(decoded(6, true, &[2.5]))), tokens(&[]));
}

#[test]
fn a_failed_decode_leaves_no_draft() {
    let mut run = start_draft(4, 1);
    assert_eq!(done(run.step(DraftReply::Failed)), tokens(&[]));
    let mut run = start_draft(4, 1);
    run.step(decoded(5, false, &[1.5]));
    assert_eq!(done(run.step(DraftReply::Failed)), tokens(&[]));
}

#[test]
fn no_draft_is_made_when_none_is_allowed() {
    let mut run = start_draft(0, 0);
    assert_eq!(done(run.step(decoded(5, false, &[1.5]))), tokens(&[]));
}

#[test]
fn verifying_gives_the_accepted_prefix_and_the_next_token() {
    let session = MtpSession::new(1, 0.0_f32, MtpParams::default());
    let drafts = tokens(&[1, 2, 3]);
    let outcome = session
        .verify(Ok(&tokens(&[1, 2, 9, 4])), &drafts, 20)
        .unwrap();
    assert_eq!(outcome.n_accepted, 2);
    assert_eq!(outcome.accepted, tokens(&[1, 2]));
    assert_eq!(outcome.next_token, LlamaToken(9));
    assert_eq!(outcome.next_pos, 23);
    let batch = verify_batch(LlamaToken(5), &drafts, 20, 1).unwrap();
    assert_eq!(batch.tokens, tokens(&[5, 1, 2, 3]));
    assert_eq!(batch.positions, vec![20, 21, 22, 23]);
    assert_eq!(batch.seq_id, 1);
}

#[test]
fn verifying_reports_a_failed_decode() {
    let session = MtpSession::new(1, 0.0_f32, MtpParams::default());
    let error = DecodeError { code: 1 };
    assert_eq!(
        session.verify(Err(error), &tokens(&[1]), 20).unwrap_err(),
        VerifyError::DecodeFailed(error)
    );
}

#[test]
fn a_rejected_draft_fits_at_the_last_position() {
    let session = MtpSession::new(1, 0.0_f32, MtpParams::default());
    let outcome = session
        .verify(Ok(&tokens(&[9, 4])), &tokens(&[1]), i32::MAX - 1)
        .unwrap();
    assert_eq!((outcome.n_accepted, outcome.next_pos), (0, i32::MAX));
    let batch = verify_batch(LlamaToken(5), &tokens(&[1]), i32::MAX - 1, 0).unwrap();
    assert_eq!(batch.positions, vec![i32::MAX - 1, i32::MAX]);
}

#[test]
fn accepting_reports_errors_before_any_capture() {
    let mut session = MtpSession::new(1, 0.5_f32, MtpParams::default());
    assert_eq!(session.accept(0, 4, -1, true), Err(AcceptError::NegativeSeqId));
    assert_eq!(session.accept(0, -4, 0, true), Err(AcceptError::NegativePos));
    assert_eq!(session.accept(0, 4, 0, false), Err(AcceptError::RollbackFailed));
    assert_eq!(*session.pending_h(), vec![0.5]);
}

#[test]
fn a_committed_step_is_carried_over() {
    let mut session = MtpSession::new(1, 0.5_f32, MtpParams::default());
    let mut run = MtpGenerate::start(3, LlamaToken(9), false, 10);
    let rows = vec![vec![1.0], vec![2.0]];

    let commit = run.step(&tokens(&[1, 2]), &tokens(&[1, 8, 7]), &[false; 3]);
    assert_eq!(
        session.carry_over(&commit, false, &rows).unwrap_err(),
        AcceptError::RollbackFailed
    );
    assert_eq!(*session.pending_h(), vec![0.5]);
    let mirror = session.carry_over(&commit, true, &rows).unwrap();
    assert_eq!(mirror.inner().token, vec![9, 1]);
    assert_eq!(mirror.inner().pos, vec![3, 4]);
    assert_eq!(mirror.inner().embd, vec![0.5, 1.0]);
    assert_eq!(*session.pending_h(), vec![2.0]);

    // Without drafts nothing is to be rolled back.
    let commit = run.step(&[], &tokens(&[4]), &[false]);
    assert_eq!(commit.rollback, None);
    let mirror = session
        .carry_over(&commit, false, &vec![vec![3.0]])
        .unwrap();
    assert_eq!(mirror.inner().token, vec![8]);
    assert_eq!(mirror.inner().embd, vec![2.0]);
    assert_eq!(*session.pending_h(), vec![3.0]);
}

#[test]
fn a_target_decode_makes_every_index_readable() {
    let mut ctx = LlamaContext::new(1);
    let batch = prefill_batch(&tokens(&[5, 6]));
    let error = DecodeError { code: -1 };
    assert_eq!(ctx.decode_target(&batch, -1), Err(error));
    assert!(!ctx.has_logits(0));
    assert_eq!(ctx.decode_target(&batch, 0), Ok(()));
    assert_eq!(*ctx.initialized_logits(), vec![0, 1]);
    assert!(ctx.has_logits(0) && ctx.has_logits(1));
    assert!(!ctx.has_logits(2) && !ctx.has_logits(-1));
}
