use llama_mtp::llama_batch::BatchAddError;
use llama_mtp::mtp_batch::LlamaMtpBatch;
use llama_mtp::token::LlamaToken;

/// The token id at position `i`.
fn read_token(batch: &LlamaMtpBatch<f32>, i: usize) -> i32 {
    batch.inner().token[i]
}

/// The embedding row of length `n_embd` at position `i`.
fn read_embd_row(batch: &LlamaMtpBatch<f32>, i: usize, n_embd: usize) -> Vec<f32> {
    batch.inner().embd[i * n_embd..(i + 1) * n_embd].to_vec()
}

/// A row that tells position `i` apart: `[i*10, i*10+1, ...]`.
fn sentinel_row(i: u16, n_embd: usize) -> Vec<f32> {
    (0..u16::try_from(n_embd).unwrap())
        .map(|j| f32::from(i * 10 + j))
        .collect()
}

#[test]
fn add_fills_buffers_and_counts() {
    let n_embd = 4;
    let k: u16 = 3;
    let mut batch = LlamaMtpBatch::new(usize::from(k), n_embd);
    assert_eq!(batch.n_tokens(), 0);

    for i in 0..k {
        let row = sentinel_row(i, n_embd);
        batch
            .add(
                LlamaToken(i32::from(i) + 100),
                &row,
                i32::from(i),
                0,
                true,
            )
            .expect("add within capacity should succeed");
        assert_eq!(batch.n_tokens(), i32::from(i) + 1);
    }

    for i in 0..k {
        let expected_row = sentinel_row(i, n_embd);
        assert_eq!(read_token(&batch, usize::from(i)), i32::from(i) + 100);
        assert_eq!(read_embd_row(&batch, usize::from(i), n_embd), expected_row);
    }
}

#[test]
fn add_past_capacity_returns_insufficient_space() {
    let n_embd = 2;
    let k: u16 = 2;
    let mut batch = LlamaMtpBatch::new(usize::from(k), n_embd);
    let row = vec![1.0_f32; n_embd];

    for i in 0..k {
        batch
            .add(LlamaToken(i32::from(i)), &row, i32::from(i), 0, false)
            .expect("add within capacity should succeed");
    }

    let err = batch
        .add(LlamaToken(99), &row, i32::from(k), 0, false)
        .expect_err("add past capacity must fail");
    assert_eq!(err, BatchAddError::InsufficientSpace(usize::from(k)));
    assert_eq!(batch.n_tokens(), i32::from(k));
}

#[test]
fn add_with_mismatched_embd_len_errors_without_writing() {
    let n_embd = 4;
    let mut batch = LlamaMtpBatch::new(2, n_embd);

    let short = vec![1.0_f32; n_embd - 1];
    let err = batch
        .add(LlamaToken(1), &short, 0, 0, false)
        .expect_err("short embd row must error");
    assert_eq!(
        err,
        BatchAddError::EmbdLengthMismatch {
            expected: n_embd,
            actual: n_embd - 1,
        }
    );

    let long = vec![1.0_f32; n_embd + 1];
    let err = batch
        .add(LlamaToken(1), &long, 0, 0, false)
        .expect_err("long embd row must error");
    assert_eq!(
        err,
        BatchAddError::EmbdLengthMismatch {
            expected: n_embd,
            actual: n_embd + 1,
        }
    );

    // No position was consumed on either failure.
    assert_eq!(batch.n_tokens(), 0);
}

#[test]
fn clear_resets_token_count() {
    let n_embd = 2;
    let mut batch = LlamaMtpBatch::new(2, n_embd);
    let row = vec![0.5_f32; n_embd];
    batch.add(LlamaToken(1), &row, 0, 0, true).unwrap();
    assert_eq!(batch.n_tokens(), 1);
    assert!(!batch.initialized_logits().is_empty());

    batch.clear();
    assert_eq!(batch.n_tokens(), 0);
    assert!(batch.initialized_logits().is_empty());
}

#[test]
fn new_then_drop_is_clean() {
    let batch = LlamaMtpBatch::<f32>::new(8, 16);
    drop(batch);
}

#[test]
fn every_buffer_holds_what_was_added() {
    let mut batch = LlamaMtpBatch::new(4, 2);
    batch.add(LlamaToken(5), &[1_u8, 2], 10, 3, true).unwrap();
    batch.add(LlamaToken(6), &[3, 4], 11, 3, false).unwrap();
    batch.add(LlamaToken(7), &[5, 6], 12, 4, true).unwrap();
    let inner = batch.inner();
    assert_eq!(inner.n_tokens, 3);
    assert_eq!(inner.token, vec![5, 6, 7]);
    assert_eq!(inner.embd, vec![1, 2, 3, 4, 5, 6]);
    assert_eq!(inner.pos, vec![10, 11, 12]);
    assert_eq!(inner.n_seq_id, vec![1, 1, 1]);
    assert_eq!(inner.seq_id, vec![3, 3, 4]);
    assert_eq!(inner.logits, vec![1, 0, 1]);
}

#[test]
fn requested_logits_are_the_flagged_positions() {
    let mut batch = LlamaMtpBatch::new(5, 1);
    for (i, flag) in [false, true, true, false, true].into_iter().enumerate() {
        batch
            .add(LlamaToken(i as i32), &[0_i64], i as i32, 0, flag)
            .unwrap();
    }
    assert_eq!(*batch.initialized_logits(), vec![1, 2, 4]);
}

#[test]
fn a_cleared_batch_fills_like_a_fresh_one() {
    let mut used = LlamaMtpBatch::new(2, 1);
    used.add(LlamaToken(1), &[9_u8], 0, 0, true).unwrap();
    used.add(LlamaToken(2), &[8], 1, 0, true).unwrap();
    used.clear();
    let mut fresh = LlamaMtpBatch::new(2, 1);
    for batch in [&mut used, &mut fresh] {
        batch.add(LlamaToken(3), &[7], 5, 1, false).unwrap();
        batch.add(LlamaToken(4), &[6], 6, 1, true).unwrap();
        assert_eq!(
            batch.add(LlamaToken(5), &[5], 7, 1, true),
            Err(BatchAddError::InsufficientSpace(2))
        );
        assert_eq!(batch.inner().token, vec![3, 4]);
        assert_eq!(batch.inner().embd, vec![7, 6]);
        assert_eq!(batch.inner().logits, vec![0, 1]);
        assert_eq!(*batch.initialized_logits(), vec![1]);
    }
}

#[test]
fn a_full_batch_reports_space_before_row_length() {
    let mut batch = LlamaMtpBatch::new(0, 3);
    assert_eq!(
        batch.add(LlamaToken(1), &[1_u8], 0, 0, true),
        Err(BatchAddError::InsufficientSpace(0))
    );
}

#[test]
fn rows_may_be_empty() {
    let mut batch = LlamaMtpBatch::<f32>::new(1, 0);
    assert_eq!(batch.add(LlamaToken(1), &[], 0, 0, true), Ok(()));
    assert_eq!(batch.n_tokens(), 1);
    assert!(batch.inner().embd.is_empty());
}
