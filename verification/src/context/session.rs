//! Session files and the saved state of single sequences.
//!
//! A path reaches these functions twice: as a value `P` that is only handed
//! back in an error, and as text, where it is valid text.

use vstd::prelude::*;
use vstd::string::*;

use crate::context::LlamaContext;
use crate::token::LlamaToken;

verus! {

/// A text that holds a zero byte, which no C string can.
#[derive(Debug, PartialEq, Eq)]
pub struct NulError {
    /// The index of the first zero byte.
    pub position: usize,
    /// The bytes of the text.
    pub bytes: Vec<u8>,
}

/// Whether byte `i` is the first zero byte.
pub open spec fn first_nul(bytes: Seq<u8>, i: int) -> bool {
    &&& 0 <= i < bytes.len()
    &&& bytes[i] == 0
    &&& forall|j: int| 0 <= j < i ==> bytes[j] != 0
}

/// Whether no byte is zero, so that the bytes can be a C string.
pub open spec fn nul_free(bytes: Seq<u8>) -> bool {
    forall|j: int| 0 <= j < bytes.len() ==> bytes[j] != 0
}

impl NulError {
    /// Whether this is the error for a text of these bytes.
    pub open spec fn describes(&self, bytes: Seq<u8>) -> bool {
        &&& first_nul(bytes, self.position as int)
        &&& self.bytes@ == bytes
    }
}

/// A session file could not be saved.
#[derive(Debug, PartialEq, Eq)]
pub enum SaveSessionError<P> {
    /// The backend failed to save the session file.
    FailedToSave,
    /// The path holds a zero byte.
    NullError(NulError),
    /// The path is not valid text.
    PathToStrError(P),
}

/// The state of a sequence could not be restored.
#[derive(Clone, Copy, Debug, PartialEq, Eq, Structural)]
pub enum SetSeqStateError {
    /// The backend read no byte: the state is truncated, corrupt or made for
    /// another context.
    FailedToSet,
}

/// A session file could not be loaded.
#[derive(Debug, PartialEq, Eq)]
pub enum LoadSessionError<P> {
    /// The backend failed to load the session file.
    FailedToLoad,
    /// The path holds a zero byte.
    NullError(NulError),
    /// The path is not valid text.
    PathToStrError(P),
    /// The session holds more tokens than were asked for.
    InsufficientMaxLength {
        /// The number of tokens of the session.
        n_out: usize,
        /// The greatest number that was allowed.
        max_tokens: usize,
    },
}

/// What the backend answered when it was asked to load a session file.
#[derive(Debug)]
pub struct LoadReply {
    /// Whether the file was loaded.
    pub success: bool,
    /// The number of tokens that the backend reported.
    pub n_out: usize,
    /// The token buffer that the backend filled from the front.
    pub tokens: Vec<i32>,
}

/// The path as a C string: its bytes and a zero byte behind them.
///
/// A path that holds a zero byte is refused with the index of the first one.
pub fn session_c_path(path: &str) -> (r: Result<Vec<u8>, NulError>)
    ensures
        r is Ok <==> nul_free(path.spec_bytes()),
        r matches Ok(c) ==> c@ == path.spec_bytes().push(0),
        r matches Err(e) ==> e.describes(path.spec_bytes()),
        r is Err <==> path.spec_bytes().contains(0u8),
        r matches Err(e) ==> {
            &&& e.bytes@ == path.spec_bytes()
            &&& e.position < path.spec_bytes().len()
            &&& path.spec_bytes()[e.position as int] == 0
            &&& !path.spec_bytes().take(e.position as int).contains(0u8)
        },
{
    let bytes: &[u8] = path.as_bytes();
    let mut c: Vec<u8> = Vec::new();
    for i in 0..bytes.len()
        invariant
            bytes@ == path.spec_bytes(),
            c@ == bytes@.take(i as int),
            forall|j: int| 0 <= j < i ==> bytes@[j] != 0,
    {
        if bytes[i] == 0 {
            assert(bytes@[i as int] == 0);
            return Err(NulError { position: i, bytes: crate::slices::copied(bytes) });
        }
        c.push(bytes[i]);
        assert(bytes@.take(i + 1) =~= bytes@.take(i as int).push(bytes@[i as int]));
    }
    assert(bytes@.take(bytes@.len() as int) =~= bytes@);
    c.push(0);
    Ok(c)
}

/// Whether the backend is asked to read or write a file at this path: it is
/// valid text, and holds no zero byte.
pub open spec fn is_asked(path: Option<&str>) -> bool {
    path matches Some(s) && nul_free(s.spec_bytes())
}

/// The C string with which the backend is asked to read or write a session
/// file, or nothing where it is not asked.
pub fn session_request_path(path: Option<&str>) -> (r: Option<Vec<u8>>)
    ensures
        r is Some <==> is_asked(path),
        r matches Some(c) ==> c@ == path->0.spec_bytes().push(0),
        r is Some <==> path is Some && !path->0.spec_bytes().contains(0u8),
{
    proof {
        law_is_asked(path);
    }
    match path {
        None => None,
        Some(s) => match session_c_path(s) {
            Err(_) => None,
            Ok(c) => Some(c),
        },
    }
}

/// The ids of tokens, as the backend takes them.
pub open spec fn token_ids(tokens: Seq<LlamaToken>) -> Seq<i32> {
    tokens.map_values(|t: LlamaToken| t.0)
}

/// The tokens of ids, as the backend gives them.
pub open spec fn id_tokens(ids: Seq<i32>) -> Seq<LlamaToken> {
    ids.map_values(|id: i32| LlamaToken(id))
}

/// The ids that are handed to the backend when a session with these tokens is
/// saved.
#[must_use]
pub fn session_tokens(tokens: &[LlamaToken]) -> (r: Vec<i32>)
    ensures
        r@ == token_ids(tokens@),
        r@.len() == tokens@.len(),
        forall|i: int| 0 <= i < tokens@.len() ==> #[trigger] r@[i] == tokens@[i].0,
{
    let mut ids: Vec<i32> = Vec::new();
    for i in 0..tokens.len()
        invariant
            ids@.len() == i,
            forall|j: int| 0 <= j < i ==> ids@[j] == tokens@[j].0,
    {
        ids.push(tokens[i].0);
    }
    ids
}

/// Whether `r` is the answer to a save at this path, of which the backend said
/// whether it `saved`.
pub open spec fn is_save_answer<P>(
    r: Result<(), SaveSessionError<P>>,
    path_session: P,
    path: Option<&str>,
    saved: bool,
) -> bool {
    match path {
        None => r == Err::<(), SaveSessionError<P>>(SaveSessionError::PathToStrError(path_session)),
        Some(s) => if !nul_free(s.spec_bytes()) {
            r matches Err(SaveSessionError::NullError(e)) && e.describes(s.spec_bytes())
        } else if saved {
            r == Ok::<(), SaveSessionError<P>>(())
        } else {
            r == Err::<(), SaveSessionError<P>>(SaveSessionError::FailedToSave)
        },
    }
}

/// Whether `r` is the answer to a load at this path, to which the backend
/// replied `reply`.
pub open spec fn is_load_answer<P>(
    r: Result<Vec<LlamaToken>, LoadSessionError<P>>,
    path_session: P,
    path: Option<&str>,
    max_tokens: usize,
    reply: LoadReply,
) -> bool {
    match path {
        None => r matches Err(LoadSessionError::PathToStrError(p)) && p == path_session,
        Some(s) => if !nul_free(s.spec_bytes()) {
            r matches Err(LoadSessionError::NullError(e)) && e.describes(s.spec_bytes())
        } else if !reply.success {
            r matches Err(LoadSessionError::FailedToLoad)
        } else if reply.n_out > max_tokens {
            r matches Err(LoadSessionError::InsufficientMaxLength { n_out, max_tokens: m }) && n_out
                == reply.n_out && m == max_tokens
        } else {
            r matches Ok(tokens) && tokens@ == id_tokens(reply.tokens@.take(reply.n_out as int))
        },
    }
}

impl LoadReply {
    /// Whether this is a reply for a file that holds `ids`, asked for with room
    /// for `max_tokens`: the file may be refused; if it is loaded, all its ids
    /// are counted, and where there is room for them they stand in front.
    pub open spec fn reads(&self, ids: Seq<i32>, max_tokens: nat) -> bool {
        self.success ==> {
            &&& self.n_out == ids.len()
            &&& ids.len() <= max_tokens ==> {
                &&& ids.len() <= self.tokens@.len()
                &&& self.tokens@.take(ids.len() as int) == ids
            }
        }
    }
}

/// The snapshot of a sequence, of which the backend wrote `written` bytes to
/// `buf`.
pub open spec fn snapshot(buf: Seq<u8>, written: nat) -> Seq<u8> {
    buf.take(written as int)
}

/// The answer to restoring a snapshot, of which the backend read `read` bytes.
pub open spec fn restored(read: usize) -> Result<usize, SetSeqStateError> {
    if read == 0 {
        Err(SetSeqStateError::FailedToSet)
    } else {
        Ok(read)
    }
}

impl LlamaContext {
    /// Ends the saving of a session file: `path` is the path as text, `saved`
    /// what the backend answered for [`session_request_path`] of it and
    /// [`session_tokens`] of the tokens.
    ///
    /// A path that is not text, or that holds a zero byte, is refused; the
    /// backend is not to be asked then and `saved` is not read.
    pub fn save_session_file<P>(
        &self,
        path_session: P,
        path: Option<&str>,
        saved: bool,
    ) -> (r: Result<(), SaveSessionError<P>>)
        ensures
            is_save_answer(r, path_session, path, saved),
            r is Ok <==> path is Some && !path->0.spec_bytes().contains(0u8) && saved,
    {
        proof {
            law_is_asked(path);
        }
        let text: &str = match path {
            None => return Err(SaveSessionError::PathToStrError(path_session)),
            Some(s) => s,
        };
        match session_c_path(text) {
            Err(e) => Err(SaveSessionError::NullError(e)),
            Ok(_) => if saved {
                Ok(())
            } else {
                Err(SaveSessionError::FailedToSave)
            },
        }
    }

    /// Ends the loading of a session file of at most `max_tokens` tokens: `path`
    /// is the path as text, `reply` what the backend answered for
    /// [`session_request_path`] of it and a buffer for `max_tokens` tokens.
    ///
    /// A path that is not text, or that holds a zero byte, is refused; the
    /// backend is not to be asked then and `reply` is not read. Where it is
    /// asked, the buffer, of four bytes for each token, must be one that can be
    /// allocated.
    pub fn load_session_file<P>(
        &mut self,
        path_session: P,
        path: Option<&str>,
        max_tokens: usize,
        reply: LoadReply,
    ) -> (r: Result<Vec<LlamaToken>, LoadSessionError<P>>)
        requires
            is_asked(path) ==> max_tokens * 4 <= isize::MAX,
            is_asked(path) && reply.success && reply.n_out <= max_tokens ==> reply.n_out
                <= reply.tokens@.len(),
        ensures
            *final(self) == *old(self),
            is_load_answer(r, path_session, path, max_tokens, reply),
            r is Ok <==> path is Some && !path->0.spec_bytes().contains(0u8) && reply.success
                && reply.n_out <= max_tokens,
            r matches Ok(tokens) ==> {
                &&& tokens@.len() == reply.n_out
                &&& forall|i: int|
                    0 <= i < reply.n_out ==> (#[trigger] tokens@[i]).0 == reply.tokens@[i]
            },
    {
        proof {
            law_is_asked(path);
        }
        let text: &str = match path {
            None => return Err(LoadSessionError::PathToStrError(path_session)),
            Some(s) => s,
        };
        match session_c_path(text) {
            Err(e) => return Err(LoadSessionError::NullError(e)),
            Ok(_) => {},
        }
        if !reply.success {
            return Err(LoadSessionError::FailedToLoad);
        }
        if reply.n_out > max_tokens {
            return Err(LoadSessionError::InsufficientMaxLength { n_out: reply.n_out, max_tokens });
        }
        let mut tokens: Vec<LlamaToken> = Vec::new();
        for i in 0..reply.n_out
            invariant
                reply.n_out <= reply.tokens@.len(),
                tokens@.len() == i,
                forall|j: int| 0 <= j < i ==> tokens@[j] == LlamaToken(reply.tokens@[j]),
        {
            tokens.push(LlamaToken(reply.tokens[i]));
        }
        assert(tokens@ =~= id_tokens(reply.tokens@.take(reply.n_out as int)));
        Ok(tokens)
    }

    /// The snapshot of a sequence, out of the buffer `buf` that the backend
    /// filled with `written` bytes. The buffer has the size that the backend
    /// reported for the sequence, so it holds all that was written.
    #[must_use]
    pub fn state_seq_get_data(&self, buf: Vec<u8>, written: usize) -> (r: Vec<u8>)
        requires
            written <= buf@.len(),
        ensures
            r@ == snapshot(buf@, written as nat),
            r@.len() == written,
            forall|i: int| 0 <= i < written ==> #[trigger] r@[i] == buf@[i],
    {
        let mut bytes: Vec<u8> = buf;
        bytes.truncate(written);
        bytes
    }

    /// Ends the restoring of a sequence from a snapshot, of which the backend
    /// read `read` bytes. Reading none is the backend's failure.
    pub fn state_seq_set_data(&mut self, read: usize) -> (r: Result<usize, SetSeqStateError>)
        ensures
            *final(self) == *old(self),
            r == restored(read),
            r is Err <==> read == 0,
            r matches Ok(n) ==> n == read,
    {
        if read == 0 {
            Err(SetSeqStateError::FailedToSet)
        } else {
            Ok(read)
        }
    }
}

/// A session that was saved loads back: when the backend loads the file that
/// holds the ids it was handed, and as many tokens are allowed as were saved or
/// more, the answer is the same tokens in the same order. Whatever the backend
/// does, no other tokens come out.
pub proof fn law_saved_session_loads<P>(
    tokens: Seq<LlamaToken>,
    path_session: P,
    path: Option<&str>,
    saved: Result<(), SaveSessionError<P>>,
    max_tokens: usize,
    reply: LoadReply,
    loaded: Result<Vec<LlamaToken>, LoadSessionError<P>>,
)
    requires
        is_save_answer(saved, path_session, path, true),
        saved is Ok,
        reply.reads(token_ids(tokens), max_tokens as nat),
        is_load_answer(loaded, path_session, path, max_tokens, reply),
    ensures
        reply.success && tokens.len() <= max_tokens ==> loaded is Ok,
        loaded matches Ok(t) ==> t@ == tokens,
{
    assert(id_tokens(token_ids(tokens)) =~= tokens);
}

/// A session that was saved with more tokens than are allowed is refused, never
/// cut short.
pub proof fn law_longer_session_is_refused<P>(
    tokens: Seq<LlamaToken>,
    path_session: P,
    path: Option<&str>,
    saved: Result<(), SaveSessionError<P>>,
    max_tokens: usize,
    reply: LoadReply,
    loaded: Result<Vec<LlamaToken>, LoadSessionError<P>>,
)
    requires
        is_save_answer(saved, path_session, path, true),
        saved is Ok,
        max_tokens < tokens.len(),
        reply.reads(token_ids(tokens), max_tokens as nat),
        is_load_answer(loaded, path_session, path, max_tokens, reply),
    ensures
        loaded is Err,
        !reply.success ==> loaded matches Err(LoadSessionError::FailedToLoad),
        reply.success ==> (loaded matches Err(
            LoadSessionError::InsufficientMaxLength { n_out, max_tokens: m },
        ) && n_out == tokens.len() && m == max_tokens),
{
}

/// The snapshot of a sequence for which the backend reported a size and wrote
/// that many bytes is the whole buffer: it has the reported size, and is not
/// empty unless that is zero. A restore that reads all of it succeeds with that
/// size.
pub proof fn law_whole_snapshot(buf: Seq<u8>, size: usize)
    requires
        buf.len() == size,
    ensures
        snapshot(buf, size as nat) == buf,
        snapshot(buf, size as nat).len() == size,
        size > 0 ==> restored(snapshot(buf, size as nat).len() as usize)
            == Ok::<usize, SetSeqStateError>(size),
{
    assert(buf.take(size as int) =~= buf);
}

/// The backend is asked exactly for a path that is text and has no zero byte
/// among its bytes.
pub proof fn law_is_asked(path: Option<&str>)
    ensures
        is_asked(path) <==> path is Some && !path->0.spec_bytes().contains(0u8),
        path is Some ==> (nul_free(path->0.spec_bytes()) <==> !path->0.spec_bytes().contains(0u8)),
{
    if path is Some && !nul_free(path->0.spec_bytes()) {
        let bytes = path->0.spec_bytes();
        let j = choose|j: int| 0 <= j < bytes.len() && bytes[j] == 0;
        assert(bytes.contains(0u8));
    }
}

/// The error for a text with a zero byte holds the text itself, and the index of
/// a zero byte that has none before it.
pub proof fn law_nul_error(e: NulError, bytes: Seq<u8>)
    ensures
        e.describes(bytes) <==> {
            &&& e.bytes@ == bytes
            &&& e.position < bytes.len()
            &&& bytes[e.position as int] == 0
            &&& !bytes.take(e.position as int).contains(0u8)
        },
{
    if e.position < bytes.len() {
        let before = bytes.take(e.position as int);
        assert forall|j: int| 0 <= j < e.position && bytes[j] == 0 implies before.contains(0u8) by {
            assert(before[j] == 0);
        }
    }
}

/// The tokens of a session keep their order both ways: id `i` handed to the
/// backend is that of token `i`, and token `i` made of what the backend gave has
/// id `i`.
pub proof fn law_token_ids(tokens: Seq<LlamaToken>, ids: Seq<i32>)
    ensures
        token_ids(tokens).len() == tokens.len(),
        forall|i: int| 0 <= i < tokens.len() ==> #[trigger] token_ids(tokens)[i] == tokens[i].0,
        id_tokens(ids).len() == ids.len(),
        forall|i: int| 0 <= i < ids.len() ==> (#[trigger] id_tokens(ids)[i]).0 == ids[i],
{
}

/// What a save answers. Success comes exactly when the path can be asked for and
/// the backend saved; each failure has the one error that says why.
pub proof fn law_save_answer<P>(
    r: Result<(), SaveSessionError<P>>,
    path_session: P,
    path: Option<&str>,
    saved: bool,
)
    requires
        is_save_answer(r, path_session, path, saved),
    ensures
        r is Ok <==> path is Some && !path->0.spec_bytes().contains(0u8) && saved,
        r matches Err(SaveSessionError::PathToStrError(p)) ==> path is None && p == path_session,
        r matches Err(SaveSessionError::NullError(e)) ==> {
            &&& path is Some
            &&& e.bytes@ == path->0.spec_bytes()
            &&& e.position < e.bytes@.len()
            &&& e.bytes@[e.position as int] == 0
            &&& !e.bytes@.take(e.position as int).contains(0u8)
        },
        r matches Err(SaveSessionError::FailedToSave) ==> path is Some
            && !path->0.spec_bytes().contains(0u8) && !saved,
{
    law_is_asked(path);
    if let Err(SaveSessionError::NullError(e)) = r {
        law_nul_error(e, path->0.spec_bytes());
    }
}

/// What a load answers. Success comes exactly when the path can be asked for,
/// the backend loaded the file and it holds no more tokens than allowed; token
/// `i` is then the one whose id the backend left at index `i`. Each failure has
/// the one error that says why.
pub proof fn law_load_answer<P>(
    r: Result<Vec<LlamaToken>, LoadSessionError<P>>,
    path_session: P,
    path: Option<&str>,
    max_tokens: usize,
    reply: LoadReply,
)
    requires
        is_load_answer(r, path_session, path, max_tokens, reply),
        reply.success && reply.n_out <= max_tokens ==> reply.n_out <= reply.tokens@.len(),
    ensures
        r is Ok <==> path is Some && !path->0.spec_bytes().contains(0u8) && reply.success
            && reply.n_out <= max_tokens,
        r matches Ok(tokens) ==> {
            &&& tokens@.len() == reply.n_out
            &&& forall|i: int|
                0 <= i < reply.n_out ==> (#[trigger] tokens@[i]).0 == reply.tokens@[i]
        },
        r matches Err(LoadSessionError::PathToStrError(p)) ==> path is None && p == path_session,
        r matches Err(LoadSessionError::NullError(e)) ==> {
            &&& path is Some
            &&& e.bytes@ == path->0.spec_bytes()
            &&& e.position < e.bytes@.len()
            &&& e.bytes@[e.position as int] == 0
            &&& !e.bytes@.take(e.position as int).contains(0u8)
        },
        r matches Err(LoadSessionError::FailedToLoad) ==> path is Some
            && !path->0.spec_bytes().contains(0u8) && !reply.success,
        r matches Err(LoadSessionError::InsufficientMaxLength { n_out, max_tokens: m }) ==> {
            &&& path is Some
            &&& !path->0.spec_bytes().contains(0u8)
            &&& reply.success
            &&& n_out == reply.n_out
            &&& m == max_tokens
            &&& n_out > m
        },
{
    law_is_asked(path);
    if let Err(LoadSessionError::NullError(e)) = r {
        law_nul_error(e, path->0.spec_bytes());
    }
}

/// A reply that loads a file counts every id of it and, where all fit, has id
/// `i` at index `i`; a reply that refuses a file fits every file.
pub proof fn law_reply_reads(reply: LoadReply, ids: Seq<i32>, max_tokens: nat)
    ensures
        !reply.success ==> reply.reads(ids, max_tokens),
        reply.success && ids.len() > max_tokens ==> (reply.reads(ids, max_tokens) <==> reply.n_out
            == ids.len()),
        reply.success && ids.len() <= max_tokens && reply.n_out == ids.len() && ids.len()
            <= reply.tokens@.len() ==> (reply.reads(ids, max_tokens) <==> forall|i: int|
            0 <= i < ids.len() ==> reply.tokens@[i] == ids[i]),
{
    if ids.len() <= reply.tokens@.len() {
        let front = reply.tokens@.take(ids.len() as int);
        if forall|i: int| 0 <= i < ids.len() ==> reply.tokens@[i] == ids[i] {
            assert(front =~= ids);
        } else {
            let i = choose|i: int| 0 <= i < ids.len() && reply.tokens@[i] != ids[i];
            assert(front[i] != ids[i]);
        }
    }
}

/// A snapshot is what was written and no more: as many bytes, each where the
/// backend put it. Restoring fails exactly when no byte was read, and otherwise
/// answers how many were.
pub proof fn law_snapshot_and_restore(buf: Seq<u8>, written: nat, read: usize)
    requires
        written <= buf.len(),
    ensures
        snapshot(buf, written).len() == written,
        forall|i: int| 0 <= i < written ==> #[trigger] snapshot(buf, written)[i] == buf[i],
        restored(read) is Err <==> read == 0,
        restored(read) matches Ok(n) ==> n == read,
{
}

} // verus!
