use llama_mtp::context::mtp::nextn_slice;
use llama_mtp::context::session::{
    session_c_path, session_request_path, session_tokens, LoadReply, LoadSessionError, NulError,
    SaveSessionError, SetSeqStateError,
};
use llama_mtp::context::{DecodeError, LlamaContext};
use llama_mtp::mtp_batch::LlamaMtpBatch;
use llama_mtp::token::LlamaToken;

fn reply(success: bool, n_out: usize, tokens: &[i32]) -> LoadReply {
    LoadReply {
        success,
        n_out,
        tokens: tokens.to_vec(),
    }
}

#[test]
fn null_pointer_yields_none() {
    let slice = nextn_slice(None::<&[f32]>, 4);
    assert!(slice.is_none());
}

#[test]
fn non_null_pointer_yields_slice_of_n_embd() {
    let buf = [1.0_f32, 2.0, 3.0, 4.0];
    let slice = nextn_slice(Some(&buf[..]), buf.len());
    assert_eq!(slice, Some(&buf[..]));
}

#[test]
fn a_longer_buffer_yields_its_first_row() {
    let ctx = LlamaContext::new(2);
    let buf = [1.0_f32, 2.0, 3.0];
    assert_eq!(ctx.get_embeddings_nextn_ith(Some(&buf[..])), Some(&buf[..2]));
    assert_eq!(ctx.get_embeddings_nextn(Some(&buf[..])), Some(&buf[..2]));
    assert_eq!(ctx.get_embeddings_nextn_ith(None::<&[f32]>), None);
    assert_eq!(ctx.get_embeddings_nextn(None::<&[f32]>), None);
}

#[test]
fn a_decode_takes_over_the_requested_logits() {
    let mut ctx = LlamaContext::new(1);
    assert_eq!(ctx.n_embd(), 1);
    assert!(ctx.initialized_logits().is_empty());
    let mut batch = LlamaMtpBatch::new(3, 1);
    batch.add(LlamaToken(1), &[0.5_f32], 0, 0, false).unwrap();
    batch.add(LlamaToken(2), &[0.5], 1, 0, true).unwrap();
    batch.add(LlamaToken(3), &[0.5], 2, 0, true).unwrap();
    assert_eq!(ctx.decode_mtp(&mut batch, 0), Ok(()));
    assert_eq!(*ctx.initialized_logits(), vec![1, 2]);
    assert_eq!(batch.n_tokens(), 3);
    assert!(!ctx.has_logits(0) && ctx.has_logits(1) && ctx.has_logits(2));
}

#[test]
fn a_failed_decode_keeps_the_context() {
    let mut ctx = LlamaContext::new(1);
    let mut first = LlamaMtpBatch::new(1, 1);
    first.add(LlamaToken(1), &[0.5_f32], 0, 0, true).unwrap();
    ctx.decode_mtp(&mut first, 0).unwrap();

    let mut second = LlamaMtpBatch::new(1, 1);
    second.add(LlamaToken(2), &[0.5_f32], 1, 0, false).unwrap();
    for code in [1, 2, -1, -3] {
        assert_eq!(
            ctx.decode_mtp(&mut second, code),
            Err(DecodeError { code })
        );
        assert_eq!(*ctx.initialized_logits(), vec![0]);
    }
}

#[test]
fn a_path_becomes_a_c_string() {
    assert_eq!(session_c_path("a/b"), Ok(vec![97, 47, 98, 0]));
    assert_eq!(session_c_path(""), Ok(vec![0]));
    // Two bytes in the encoding, none of them zero.
    assert_eq!(session_c_path("\u{e9}"), Ok(vec![0xc3, 0xa9, 0]));
}

#[test]
fn a_zero_byte_is_reported_where_it_first_is() {
    assert_eq!(
        session_c_path("ab\0c\0"),
        Err(NulError {
            position: 2,
            bytes: vec![97, 98, 0, 99, 0],
        })
    );
}

#[test]
fn only_a_usable_path_is_asked_for() {
    assert_eq!(session_request_path(Some("a")), Some(vec![97, 0]));
    assert_eq!(session_request_path(Some("a\0")), None);
    assert_eq!(session_request_path(None), None);
}

#[test]
fn a_saved_session_loads_back() {
    let saved = [LlamaToken(7), LlamaToken(-1), LlamaToken(7)];
    let ids = session_tokens(&saved);
    assert_eq!(ids, vec![7, -1, 7]);
    let mut ctx = LlamaContext::new(1);
    assert_eq!(ctx.save_session_file("p", Some("p"), true), Ok(()));

    let mut buffer = ids.clone();
    buffer.resize(5, 0);
    assert_eq!(
        ctx.load_session_file("p", Some("p"), 5, reply(true, ids.len(), &buffer)),
        Ok(saved.to_vec())
    );
    assert_eq!(
        ctx.load_session_file("p", Some("p"), 3, reply(true, ids.len(), &ids)),
        Ok(saved.to_vec())
    );
    // A shorter limit is refused, whether or not the backend refused it first.
    assert_eq!(
        ctx.load_session_file("p", Some("p"), 2, reply(false, 0, &[0, 0])),
        Err(LoadSessionError::FailedToLoad)
    );
    assert_eq!(
        ctx.load_session_file("p", Some("p"), 2, reply(true, ids.len(), &[0, 0])),
        Err(LoadSessionError::InsufficientMaxLength {
            n_out: 3,
            max_tokens: 2,
        })
    );
}

#[test]
fn a_whole_snapshot_is_restored() {
    let mut ctx = LlamaContext::new(1);
    let snapshot = ctx.state_seq_get_data(vec![1, 2, 3], 3);
    assert_eq!(snapshot.len(), 3);
    assert_eq!(ctx.state_seq_set_data(snapshot.len()), Ok(3));
}

#[test]
fn saving_reports_each_error() {
    let ctx = LlamaContext::new(1);
    assert_eq!(ctx.save_session_file("p", Some("p"), true), Ok(()));
    assert_eq!(
        ctx.save_session_file("p", Some("p"), false),
        Err(SaveSessionError::FailedToSave)
    );
    assert_eq!(
        ctx.save_session_file("p", Some("\0"), true),
        Err(SaveSessionError::NullError(NulError {
            position: 0,
            bytes: vec![0],
        }))
    );
    assert_eq!(
        ctx.save_session_file("bad", None, true),
        Err(SaveSessionError::PathToStrError("bad"))
    );
}

#[test]
fn loading_gives_the_tokens_that_were_written() {
    let mut ctx = LlamaContext::new(1);
    assert_eq!(
        ctx.load_session_file("p", Some("p"), 4, reply(true, 2, &[7, 8, 0, 0])),
        Ok(vec![LlamaToken(7), LlamaToken(8)])
    );
    assert_eq!(
        ctx.load_session_file("p", Some("p"), 2, reply(true, 2, &[7, 8])),
        Ok(vec![LlamaToken(7), LlamaToken(8)])
    );
    assert_eq!(
        ctx.load_session_file("p", Some("p"), 0, reply(true, 0, &[])),
        Ok(vec![])
    );
}

#[test]
fn loading_reports_each_error() {
    let mut ctx = LlamaContext::new(1);
    assert_eq!(
        ctx.load_session_file("p", Some("p"), 2, reply(true, 3, &[7, 8])),
        Err(LoadSessionError::InsufficientMaxLength {
            n_out: 3,
            max_tokens: 2,
        })
    );
    assert_eq!(
        ctx.load_session_file("p", Some("p"), 2, reply(false, 3, &[7, 8])),
        Err(LoadSessionError::FailedToLoad)
    );
    assert_eq!(
        ctx.load_session_file("p", Some("x\0"), 2, reply(true, 1, &[7, 8])),
        Err(LoadSessionError::NullError(NulError {
            position: 1,
            bytes: vec![120, 0],
        }))
    );
    assert_eq!(
        ctx.load_session_file("bad", None, 2, reply(true, 1, &[7, 8])),
        Err(LoadSessionError::PathToStrError("bad"))
    );
}

#[test]
fn a_snapshot_holds_what_was_written() {
    let ctx = LlamaContext::new(1);
    assert_eq!(ctx.state_seq_get_data(vec![1, 2, 3, 4], 4), vec![1, 2, 3, 4]);
    assert_eq!(ctx.state_seq_get_data(vec![1, 2, 3, 4], 3), vec![1, 2, 3]);
    assert_eq!(ctx.state_seq_get_data(vec![1, 2], 0), Vec::<u8>::new());
}

#[test]
fn restoring_fails_when_nothing_was_read() {
    let mut ctx = LlamaContext::new(1);
    assert_eq!(ctx.state_seq_set_data(17), Ok(17));
    assert_eq!(
        ctx.state_seq_set_data(0),
        Err(SetSeqStateError::FailedToSet)
    );
}
