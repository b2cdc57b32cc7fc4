use vstd::prelude::*;
use crate::error::{StorageError, UploadError};

verus! {

/// What happens next to an upload in progress.
#[derive(Debug, Clone, Copy, PartialEq, Eq, Structural)]
pub enum UploadPhase {
    /// Chunks of the body are arriving and are forwarded to the backend write.
    Receiving,
    /// The body has ended; the backend write is being closed.
    Finishing,
    /// The backend has stored the whole body.
    Succeeded,
    /// The upload failed; the backend write was aborted or had already failed.
    Failed,
}

/// Something that the inbound body or the backend write reports.
#[derive(Debug)]
pub enum UploadEvent {
    /// The next chunk of the inbound body.
    Chunk(Vec<u8>),
    /// The inbound body ended cleanly.
    End,
    /// The inbound body ended abnormally.
    Broken,
    /// The backend write completed.
    Written,
    /// The backend write failed.
    WriteFailed(StorageError),
}

/// What the handler does in answer to an event.
#[derive(Debug)]
pub enum UploadAction {
    /// Hand this chunk to the backend write, as it is.
    Forward(Vec<u8>),
    /// Close the backend write cleanly and wait for its result.
    Finish,
    /// Abort the backend write, so that nothing truncated is kept, and fail.
    Abort(UploadError),
    /// Fail: the backend write has already stopped.
    Fail(UploadError),
    /// Report success.
    Succeed,
    /// Nothing to do.
    Ignore,
}

/// The next phase and the action for an event.
pub open spec fn upload_step(p: UploadPhase, e: UploadEvent) -> (UploadPhase, UploadAction) {
    match p {
        UploadPhase::Receiving => match e {
            UploadEvent::Chunk(c) => (UploadPhase::Receiving, UploadAction::Forward(c)),
            UploadEvent::End => (UploadPhase::Finishing, UploadAction::Finish),
            UploadEvent::Broken => (UploadPhase::Failed, UploadAction::Abort(UploadError::Inbound)),
            UploadEvent::Written => (UploadPhase::Receiving, UploadAction::Ignore),
            UploadEvent::WriteFailed(se) => (
                UploadPhase::Failed,
                UploadAction::Fail(UploadError::Storage(se)),
            ),
        },
        UploadPhase::Finishing => match e {
            UploadEvent::Written => (UploadPhase::Succeeded, UploadAction::Succeed),
            UploadEvent::WriteFailed(se) => (
                UploadPhase::Failed,
                UploadAction::Fail(UploadError::Storage(se)),
            ),
            _ => (UploadPhase::Finishing, UploadAction::Ignore),
        },
        _ => (p, UploadAction::Ignore),
    }
}

/// The phase after a sequence of events.
pub open spec fn upload_run_phase(p: UploadPhase, es: Seq<UploadEvent>) -> UploadPhase
    decreases es.len(),
{
    if es.len() == 0 {
        p
    } else {
        upload_run_phase(upload_step(p, es[0]).0, es.drop_first())
    }
}

/// The actions taken over a sequence of events, in order.
pub open spec fn upload_run_actions(p: UploadPhase, es: Seq<UploadEvent>) -> Seq<UploadAction>
    decreases es.len(),
{
    if es.len() == 0 {
        Seq::empty()
    } else {
        seq![upload_step(p, es[0]).1] + upload_run_actions(upload_step(p, es[0]).0, es.drop_first())
    }
}

/// The bytes handed to the backend by a sequence of actions.
pub open spec fn forwarded(acts: Seq<UploadAction>) -> Seq<u8>
    decreases acts.len(),
{
    if acts.len() == 0 {
        Seq::empty()
    } else {
        let head = match acts[0] {
            UploadAction::Forward(c) => c@,
            _ => Seq::empty(),
        };
        head + forwarded(acts.drop_first())
    }
}

/// The concatenation of chunks.
pub open spec fn concat_chunks(cs: Seq<Vec<u8>>) -> Seq<u8>
    decreases cs.len(),
{
    if cs.len() == 0 {
        Seq::empty()
    } else {
        cs[0]@ + concat_chunks(cs.drop_first())
    }
}

/// One chunk event for each chunk.
pub open spec fn chunk_events(cs: Seq<Vec<u8>>) -> Seq<UploadEvent> {
    cs.map_values(|c: Vec<u8>| UploadEvent::Chunk(c))
}

/// The state of one upload: its phase and the content length that the request
/// declared, read once when the upload began.
pub struct UploadRelay {
    phase: UploadPhase,
    declared_length: Option<u64>,
}

impl UploadRelay {
    pub closed spec fn spec_phase(&self) -> UploadPhase {
        self.phase
    }

    pub closed spec fn spec_declared_length(&self) -> Option<u64> {
        self.declared_length
    }

    /// A relay for a body that has not begun to arrive.
    pub fn new(declared_length: Option<u64>) -> (r: UploadRelay)
        ensures
            r.spec_phase() == UploadPhase::Receiving,
            r.spec_declared_length() == declared_length,
    {
        UploadRelay { phase: UploadPhase::Receiving, declared_length }
    }

    /// The current phase.
    pub fn phase(&self) -> (r: UploadPhase)
        ensures
            r == self.spec_phase(),
    {
        self.phase
    }

    /// The content length to pass to the backend, unchanged.
    pub fn declared_length(&self) -> (r: Option<u64>)
        ensures
            r == self.spec_declared_length(),
    {
        self.declared_length
    }

    /// Takes one event and says what to do. A chunk is handed on as it came,
    /// so no more than one chunk is held at a time.
    pub fn handle(&mut self, e: UploadEvent) -> (r: UploadAction)
        ensures
            (final(self).spec_phase(), r) == upload_step(old(self).spec_phase(), e),
            final(self).spec_declared_length() == old(self).spec_declared_length(),
    {
        match self.phase {
            UploadPhase::Receiving => match e {
                UploadEvent::Chunk(c) => UploadAction::Forward(c),
                UploadEvent::End => {
                    self.phase = UploadPhase::Finishing;
                    UploadAction::Finish
                },
                UploadEvent::Broken => {
                    self.phase = UploadPhase::Failed;
                    UploadAction::Abort(UploadError::Inbound)
                },
                UploadEvent::Written => UploadAction::Ignore,
                UploadEvent::WriteFailed(se) => {
                    self.phase = UploadPhase::Failed;
                    UploadAction::Fail(UploadError::Storage(se))
                },
            },
            UploadPhase::Finishing => match e {
                UploadEvent::Written => {
                    self.phase = UploadPhase::Succeeded;
                    UploadAction::Succeed
                },
                UploadEvent::WriteFailed(se) => {
                    self.phase = UploadPhase::Failed;
                    UploadAction::Fail(UploadError::Storage(se))
                },
                _ => UploadAction::Ignore,
            },
            _ => UploadAction::Ignore,
        }
    }
}

/// One forwarding action for each chunk.
pub open spec fn forward_actions(cs: Seq<Vec<u8>>) -> Seq<UploadAction> {
    cs.map_values(|c: Vec<u8>| UploadAction::Forward(c))
}

proof fn lemma_run_actions_len(p: UploadPhase, es: Seq<UploadEvent>)
    ensures
        upload_run_actions(p, es).len() == es.len(),
    decreases es.len(),
{
    if es.len() > 0 {
        lemma_run_actions_len(upload_step(p, es[0]).0, es.drop_first());
    }
}

proof fn lemma_forwarded_append(a: Seq<UploadAction>, b: Seq<UploadAction>)
    ensures
        forwarded(a + b) == forwarded(a) + forwarded(b),
    decreases a.len(),
{
    if a.len() == 0 {
        assert(a + b =~= b);
    } else {
        assert((a + b).drop_first() =~= a.drop_first() + b);
        lemma_forwarded_append(a.drop_first(), b);
    }
}

proof fn lemma_forwarded_chunks(cs: Seq<Vec<u8>>)
    ensures
        forwarded(forward_actions(cs)) == concat_chunks(cs),
    decreases cs.len(),
{
    if cs.len() > 0 {
        assert(forward_actions(cs).drop_first() =~= forward_actions(cs.drop_first()));
        lemma_forwarded_chunks(cs.drop_first());
    }
}

proof fn lemma_chunk_prefix(cs: Seq<Vec<u8>>, rest: Seq<UploadEvent>)
    ensures
        upload_run_phase(UploadPhase::Receiving, chunk_events(cs) + rest) == upload_run_phase(
            UploadPhase::Receiving,
            rest,
        ),
        upload_run_actions(UploadPhase::Receiving, chunk_events(cs) + rest) == forward_actions(cs)
            + upload_run_actions(UploadPhase::Receiving, rest),
    decreases cs.len(),
{
    let es = chunk_events(cs) + rest;
    if cs.len() == 0 {
        assert(es =~= rest);
        assert(forward_actions(cs) + upload_run_actions(UploadPhase::Receiving, rest)
            =~= upload_run_actions(UploadPhase::Receiving, rest));
    } else {
        assert(es.drop_first() =~= chunk_events(cs.drop_first()) + rest);
        lemma_chunk_prefix(cs.drop_first(), rest);
        assert(forward_actions(cs) =~= seq![UploadAction::Forward(cs[0])] + forward_actions(
            cs.drop_first(),
        ));
        assert(upload_run_actions(UploadPhase::Receiving, es) =~= forward_actions(cs)
            + upload_run_actions(UploadPhase::Receiving, rest));
    }
}

/// Whatever the chunk boundaries, a body that arrives whole and is then stored
/// reaches the backend byte for byte and in order, each chunk handed on alone
/// as it came, and the upload succeeds.
pub proof fn lemma_upload_forwards_body(cs: Seq<Vec<u8>>)
    ensures
        ({
            let es = chunk_events(cs) + seq![UploadEvent::End, UploadEvent::Written];
            let acts = upload_run_actions(UploadPhase::Receiving, es);
            &&& upload_run_phase(UploadPhase::Receiving, es) == UploadPhase::Succeeded
            &&& acts == forward_actions(cs) + seq![UploadAction::Finish, UploadAction::Succeed]
            &&& forwarded(acts) == concat_chunks(cs)
        }),
{
    let tail = seq![UploadEvent::End, UploadEvent::Written];
    lemma_chunk_prefix(cs, tail);
    let after = seq![UploadAction::Finish, UploadAction::Succeed];
    let t1 = tail.drop_first();
    assert(t1 =~= seq![UploadEvent::Written]);
    assert(t1.drop_first() =~= Seq::<UploadEvent>::empty());
    assert(upload_run_actions(UploadPhase::Succeeded, t1.drop_first()) =~= Seq::<UploadAction>::empty());
    assert(upload_run_phase(UploadPhase::Succeeded, t1.drop_first()) == UploadPhase::Succeeded);
    assert(upload_run_actions(UploadPhase::Finishing, t1) =~= seq![UploadAction::Succeed]);
    assert(upload_run_phase(UploadPhase::Finishing, t1) == UploadPhase::Succeeded);
    assert(upload_run_actions(UploadPhase::Receiving, tail) =~= after);
    assert(upload_run_phase(UploadPhase::Receiving, tail) == UploadPhase::Succeeded);
    lemma_forwarded_append(forward_actions(cs), after);
    lemma_forwarded_chunks(cs);
    let a1 = after.drop_first();
    assert(a1 =~= seq![UploadAction::Succeed]);
    assert(a1.drop_first() =~= Seq::<UploadAction>::empty());
    assert(forwarded(a1.drop_first()) =~= Seq::<u8>::empty());
    assert(forwarded(a1) =~= Seq::<u8>::empty());
    assert(forwarded(after) =~= Seq::<u8>::empty());
    assert(concat_chunks(cs) + Seq::<u8>::empty() =~= concat_chunks(cs));
}

/// Two deliveries of the same bytes, cut into chunks differently, hand the
/// backend the same bytes.
pub proof fn lemma_chunk_boundaries_irrelevant(cs: Seq<Vec<u8>>, ds: Seq<Vec<u8>>)
    requires
        concat_chunks(cs) == concat_chunks(ds),
    ensures
        forwarded(
            upload_run_actions(
                UploadPhase::Receiving,
                chunk_events(cs) + seq![UploadEvent::End, UploadEvent::Written],
            ),
        ) == forwarded(
            upload_run_actions(
                UploadPhase::Receiving,
                chunk_events(ds) + seq![UploadEvent::End, UploadEvent::Written],
            ),
        ),
{
    lemma_upload_forwards_body(cs);
    lemma_upload_forwards_body(ds);
}

/// A body that breaks off after some chunks: the backend write is never
/// closed cleanly but aborted, with an inbound error, and the upload fails.
pub proof fn lemma_disconnect_aborts(cs: Seq<Vec<u8>>)
    ensures
        ({
            let es = chunk_events(cs) + seq![UploadEvent::Broken];
            let acts = upload_run_actions(UploadPhase::Receiving, es);
            &&& upload_run_phase(UploadPhase::Receiving, es) == UploadPhase::Failed
            &&& acts == forward_actions(cs) + seq![UploadAction::Abort(UploadError::Inbound)]
            &&& forall|i: int|
                0 <= i < acts.len() ==> !(#[trigger] acts[i] is Finish) && !(acts[i] is Succeed)
        }),
{
    let tail = seq![UploadEvent::Broken];
    lemma_chunk_prefix(cs, tail);
    assert(tail.drop_first() =~= Seq::<UploadEvent>::empty());
    assert(upload_run_actions(UploadPhase::Failed, tail.drop_first()) =~= Seq::<UploadAction>::empty());
    assert(upload_run_phase(UploadPhase::Failed, tail.drop_first()) == UploadPhase::Failed);
    assert(upload_run_actions(UploadPhase::Receiving, tail) =~= seq![
        UploadAction::Abort(UploadError::Inbound),
    ]);
    let acts = upload_run_actions(UploadPhase::Receiving, chunk_events(cs) + tail);
    assert forall|i: int| 0 <= i < acts.len() implies !(#[trigger] acts[i] is Finish) && !(
    acts[i] is Succeed) by {
        if i < cs.len() {
            assert(acts[i] == UploadAction::Forward(cs[i]));
        }
    }
}

/// Once an upload has ended, in success or failure, no event changes its
/// phase or leads to any action.
pub proof fn lemma_ended_is_final(p: UploadPhase, es: Seq<UploadEvent>)
    requires
        p == UploadPhase::Succeeded || p == UploadPhase::Failed,
    ensures
        upload_run_phase(p, es) == p,
        forall|i: int|
            0 <= i < es.len() ==> #[trigger] upload_run_actions(p, es)[i] is Ignore,
    decreases es.len(),
{
    if es.len() > 0 {
        lemma_ended_is_final(p, es.drop_first());
        lemma_run_actions_len(p, es.drop_first());
        let acts = upload_run_actions(p, es);
        assert forall|i: int| 0 <= i < es.len() implies #[trigger] acts[i] is Ignore by {
            if i > 0 {
                assert(acts[i] == upload_run_actions(p, es.drop_first())[i - 1]);
            }
        }
    }
}

} // verus!
