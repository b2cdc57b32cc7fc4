use vstd::prelude::*;
use crate::error::StorageError;
use crate::upload::{
    concat_chunks, forwarded, upload_run_actions, chunk_events, lemma_upload_forwards_body,
    UploadEvent, UploadPhase,
};

verus! {

/// What a backend reports for a key.
#[derive(Debug, Clone, Copy, PartialEq, Eq, Structural)]
pub enum StoredObject {
    /// Nothing is stored under the key.
    Absent,
    /// An object is stored but has no body.
    Bodiless,
    /// An object with a body, and its length where the backend knows it.
    Body(Option<u64>),
}

/// How a download request is answered.
#[derive(Debug, Clone, Copy, PartialEq, Eq, Structural)]
pub enum DownloadOutcome {
    /// No such key.
    NotFound,
    /// The object has no body.
    Empty,
    /// The body is streamed, with its length where it is known.
    Stream(Option<u64>),
    /// The key is presumed present but could not be read.
    BackendError,
}

/// How a streamed body is framed.
#[derive(Debug, Clone, Copy, PartialEq, Eq, Structural)]
pub enum Framing {
    /// An exact content length.
    ContentLength(u64),
    /// Chunked transfer, for a body of unknown length.
    Chunked,
}

/// The answer for a backend's report; a lookup that found nothing is no error.
pub open spec fn spec_outcome(lookup: Result<StoredObject, StorageError>) -> DownloadOutcome {
    match lookup {
        Ok(StoredObject::Absent) => DownloadOutcome::NotFound,
        Ok(StoredObject::Bodiless) => DownloadOutcome::Empty,
        Ok(StoredObject::Body(len)) => DownloadOutcome::Stream(len),
        Err(StorageError::NotFound) => DownloadOutcome::NotFound,
        Err(_) => DownloadOutcome::BackendError,
    }
}

/// Decides the answer to a download from what the backend reported alone.
pub fn download_outcome(lookup: Result<StoredObject, StorageError>) -> (r: DownloadOutcome)
    ensures
        r == spec_outcome(lookup),
{
    match lookup {
        Ok(StoredObject::Absent) => DownloadOutcome::NotFound,
        Ok(StoredObject::Bodiless) => DownloadOutcome::Empty,
        Ok(StoredObject::Body(len)) => DownloadOutcome::Stream(len),
        Err(StorageError::NotFound) => DownloadOutcome::NotFound,
        Err(_) => DownloadOutcome::BackendError,
    }
}

impl DownloadOutcome {
    pub open spec fn spec_status(self) -> u16 {
        match self {
            DownloadOutcome::NotFound => 404,
            DownloadOutcome::Empty => 204,
            DownloadOutcome::Stream(_) => 200,
            DownloadOutcome::BackendError => 500,
        }
    }

    /// The HTTP status of the answer.
    pub fn status(&self) -> (r: u16)
        ensures
            r == self.spec_status(),
    {
        match self {
            DownloadOutcome::NotFound => 404,
            DownloadOutcome::Empty => 204,
            DownloadOutcome::Stream(_) => 200,
            DownloadOutcome::BackendError => 500,
        }
    }

    /// The framing of the body: an exact length where it is known, chunked
    /// where it is not; `None` for an answer without a streamed body.
    pub fn framing(&self) -> (r: Option<Framing>)
        ensures
            r == match self {
                DownloadOutcome::Stream(Some(n)) => Some(Framing::ContentLength(*n)),
                DownloadOutcome::Stream(None) => Some(Framing::Chunked),
                _ => None::<Framing>,
            },
    {
        match self {
            DownloadOutcome::Stream(Some(n)) => Some(Framing::ContentLength(*n)),
            DownloadOutcome::Stream(None) => Some(Framing::Chunked),
            _ => None,
        }
    }
}

/// Where a download in progress stands.
#[derive(Debug, Clone, Copy, PartialEq, Eq, Structural)]
pub enum DownloadPhase {
    /// Chunks of the stored body are being sent.
    Sending,
    /// The whole body was sent and the response closed.
    Complete,
    /// The client went away; nothing more is read from the backend.
    Stopped,
    /// Reading the stored body failed; the response is cut off.
    Failed,
}

/// Something that the backend's read or the client reports.
#[derive(Debug)]
pub enum DownloadEvent {
    /// The next chunk of the stored body.
    Data(Vec<u8>),
    /// The stored body ended.
    Finished,
    /// Reading the stored body failed.
    ReadFailed,
    /// The client disconnected.
    ClientGone,
}

/// What the handler does in answer to an event.
#[derive(Debug)]
pub enum DownloadAction {
    /// Write this chunk to the response, as it is.
    Send(Vec<u8>),
    /// End the response normally.
    Close,
    /// Cut the response off abnormally.
    Abort,
    /// Stop reading from the backend.
    StopReading,
    /// Nothing to do.
    Ignore,
}

/// The next phase, the count of bytes sent against a declared length, and the
/// action for an event. Where a length was declared, a body that runs past it
/// or ends short of it is cut off instead of closed.
pub open spec fn download_step(p: DownloadPhase, expected: Option<u64>, counted: int, e: DownloadEvent) -> (
    DownloadPhase,
    int,
    DownloadAction,
) {
    match p {
        DownloadPhase::Sending => match e {
            DownloadEvent::Data(c) => match expected {
                Some(n) => if counted + c@.len() > n {
                    (DownloadPhase::Failed, counted, DownloadAction::Abort)
                } else {
                    (DownloadPhase::Sending, counted + c@.len(), DownloadAction::Send(c))
                },
                None => (DownloadPhase::Sending, counted, DownloadAction::Send(c)),
            },
            DownloadEvent::Finished => match expected {
                Some(n) => if counted == n {
                    (DownloadPhase::Complete, counted, DownloadAction::Close)
                } else {
                    (DownloadPhase::Failed, counted, DownloadAction::Abort)
                },
                None => (DownloadPhase::Complete, counted, DownloadAction::Close),
            },
            DownloadEvent::ReadFailed => (DownloadPhase::Failed, counted, DownloadAction::Abort),
            DownloadEvent::ClientGone => (DownloadPhase::Stopped, counted, DownloadAction::StopReading),
        },
        _ => (p, counted, DownloadAction::Ignore),
    }
}

/// The phase after a sequence of events.
pub open spec fn download_run_phase(
    p: DownloadPhase,
    expected: Option<u64>,
    counted: int,
    es: Seq<DownloadEvent>,
) -> DownloadPhase
    decreases es.len(),
{
    if es.len() == 0 {
        p
    } else {
        let (q, k, _a) = download_step(p, expected, counted, es[0]);
        download_run_phase(q, expected, k, es.drop_first())
    }
}

/// The actions taken over a sequence of events, in order.
pub open spec fn download_run_actions(
    p: DownloadPhase,
    expected: Option<u64>,
    counted: int,
    es: Seq<DownloadEvent>,
) -> Seq<DownloadAction>
    decreases es.len(),
{
    if es.len() == 0 {
        Seq::empty()
    } else {
        let (q, k, a) = download_step(p, expected, counted, es[0]);
        seq![a] + download_run_actions(q, expected, k, es.drop_first())
    }
}

/// The bytes written to the response by a sequence of actions.
pub open spec fn sent(acts: Seq<DownloadAction>) -> Seq<u8>
    decreases acts.len(),
{
    if acts.len() == 0 {
        Seq::empty()
    } else {
        let head = match acts[0] {
            DownloadAction::Send(c) => c@,
            _ => Seq::empty(),
        };
        head + sent(acts.drop_first())
    }
}

/// One data event for each chunk.
pub open spec fn data_events(cs: Seq<Vec<u8>>) -> Seq<DownloadEvent> {
    cs.map_values(|c: Vec<u8>| DownloadEvent::Data(c))
}

/// The state of one download: its phase, the length that the backend reported,
/// and how many bytes were sent against that length.
pub struct DownloadRelay {
    phase: DownloadPhase,
    expected: Option<u64>,
    counted: u64,
}

impl DownloadRelay {
    #[verifier::type_invariant]
    spec fn inv(&self) -> bool {
        self.expected matches Some(n) ==> self.counted <= n
    }

    pub closed spec fn spec_phase(&self) -> DownloadPhase {
        self.phase
    }

    pub closed spec fn spec_expected(&self) -> Option<u64> {
        self.expected
    }

    pub closed spec fn spec_counted(&self) -> int {
        self.counted as int
    }

    /// A relay for a body of the given length, where it is known, of which
    /// nothing was sent yet.
    pub fn new(expected: Option<u64>) -> (r: DownloadRelay)
        ensures
            r.spec_phase() == DownloadPhase::Sending,
            r.spec_expected() == expected,
            r.spec_counted() == 0,
    {
        DownloadRelay { phase: DownloadPhase::Sending, expected, counted: 0 }
    }

    /// The current phase.
    pub fn phase(&self) -> (r: DownloadPhase)
        ensures
            r == self.spec_phase(),
    {
        self.phase
    }

    /// Takes one event and says what to do; the bytes pass through unchanged.
    pub fn handle(&mut self, e: DownloadEvent) -> (r: DownloadAction)
        ensures
            (final(self).spec_phase(), final(self).spec_counted(), r) == download_step(
                old(self).spec_phase(),
                old(self).spec_expected(),
                old(self).spec_counted(),
                e,
            ),
            final(self).spec_expected() == old(self).spec_expected(),
    {
        proof {
            use_type_invariant(&*self);
        }
        let expected = self.expected;
        let counted = self.counted;
        match self.phase {
            DownloadPhase::Sending => match e {
                DownloadEvent::Data(c) => match expected {
                    Some(n) => {
                        let len = c.len() as u64;
                        if len > n - counted {
                            *self = DownloadRelay { phase: DownloadPhase::Failed, expected, counted };
                            DownloadAction::Abort
                        } else {
                            *self = DownloadRelay { phase: DownloadPhase::Sending, expected, counted: counted + len };
                            DownloadAction::Send(c)
                        }
                    },
                    None => DownloadAction::Send(c),
                },
                DownloadEvent::Finished => {
                    let whole = match expected {
                        Some(n) => counted == n,
                        None => true,
                    };
                    if whole {
                        *self = DownloadRelay { phase: DownloadPhase::Complete, expected, counted };
                        DownloadAction::Close
                    } else {
                        *self = DownloadRelay { phase: DownloadPhase::Failed, expected, counted };
                        DownloadAction::Abort
                    }
                },
                DownloadEvent::ReadFailed => {
                    *self = DownloadRelay { phase: DownloadPhase::Failed, expected, counted };
                    DownloadAction::Abort
                },
                DownloadEvent::ClientGone => {
                    *self = DownloadRelay { phase: DownloadPhase::Stopped, expected, counted };
                    DownloadAction::StopReading
                },
            },
            _ => DownloadAction::Ignore,
        }
    }
}

/// One sending action for each chunk.
pub open spec fn send_actions(cs: Seq<Vec<u8>>) -> Seq<DownloadAction> {
    cs.map_values(|c: Vec<u8>| DownloadAction::Send(c))
}

proof fn lemma_sent_append(a: Seq<DownloadAction>, b: Seq<DownloadAction>)
    ensures
        sent(a + b) == sent(a) + sent(b),
    decreases a.len(),
{
    if a.len() == 0 {
        assert(a + b =~= b);
    } else {
        assert((a + b).drop_first() =~= a.drop_first() + b);
        lemma_sent_append(a.drop_first(), b);
    }
}

proof fn lemma_sent_chunks(cs: Seq<Vec<u8>>)
    ensures
        sent(send_actions(cs)) == concat_chunks(cs),
    decreases cs.len(),
{
    if cs.len() > 0 {
        assert(send_actions(cs).drop_first() =~= send_actions(cs.drop_first()));
        lemma_sent_chunks(cs.drop_first());
    }
}

/// The count after sending `cs` from `k`: it grows only where a length was declared.
pub open spec fn counted_after(expected: Option<u64>, k: int, cs: Seq<Vec<u8>>) -> int {
    if expected is Some {
        k + concat_chunks(cs).len()
    } else {
        k
    }
}

proof fn lemma_data_prefix(cs: Seq<Vec<u8>>, rest: Seq<DownloadEvent>, expected: Option<u64>, k: int)
    requires
        expected matches Some(n) ==> k + concat_chunks(cs).len() <= n,
    ensures
        download_run_phase(DownloadPhase::Sending, expected, k, data_events(cs) + rest)
            == download_run_phase(DownloadPhase::Sending, expected, counted_after(expected, k, cs), rest),
        download_run_actions(DownloadPhase::Sending, expected, k, data_events(cs) + rest)
            == send_actions(cs) + download_run_actions(
            DownloadPhase::Sending,
            expected,
            counted_after(expected, k, cs),
            rest,
        ),
    decreases cs.len(),
{
    let es = data_events(cs) + rest;
    if cs.len() == 0 {
        assert(es =~= rest);
        assert(concat_chunks(cs) =~= Seq::<u8>::empty());
        assert(send_actions(cs) + download_run_actions(DownloadPhase::Sending, expected, k, rest)
            =~= download_run_actions(DownloadPhase::Sending, expected, k, rest));
    } else {
        let tail = cs.drop_first();
        assert(es.drop_first() =~= data_events(tail) + rest);
        assert(es[0] == DownloadEvent::Data(cs[0]));
        let k1 = if expected is Some { k + cs[0]@.len() } else { k };
        lemma_data_prefix(tail, rest, expected, k1);
        assert(counted_after(expected, k1, tail) == counted_after(expected, k, cs));
        assert(send_actions(cs) =~= seq![DownloadAction::Send(cs[0])] + send_actions(tail));
        assert(download_run_actions(DownloadPhase::Sending, expected, k, es) =~= send_actions(cs)
            + download_run_actions(DownloadPhase::Sending, expected, counted_after(expected, k, cs), rest));
    }
}

proof fn lemma_ended_download(p: DownloadPhase, expected: Option<u64>, k: int, es: Seq<DownloadEvent>)
    requires
        p != DownloadPhase::Sending,
    ensures
        download_run_phase(p, expected, k, es) == p,
        download_run_actions(p, expected, k, es).len() == es.len(),
        forall|i: int|
            0 <= i < es.len() ==> #[trigger] download_run_actions(p, expected, k, es)[i] is Ignore,
        sent(download_run_actions(p, expected, k, es)) == Seq::<u8>::empty(),
    decreases es.len(),
{
    if es.len() > 0 {
        lemma_ended_download(p, expected, k, es.drop_first());
        let acts = download_run_actions(p, expected, k, es);
        assert forall|i: int| 0 <= i < es.len() implies #[trigger] acts[i] is Ignore by {
            if i > 0 {
                assert(acts[i] == download_run_actions(p, expected, k, es.drop_first())[i - 1]);
            }
        }
        assert(acts.drop_first() == download_run_actions(p, expected, k, es.drop_first()));
    }
}

/// A stored body read to its end reaches the client byte for byte, and the
/// response is closed normally, where the backend reported no length or the
/// body's own.
pub proof fn lemma_download_passes_body(ds: Seq<Vec<u8>>, expected: Option<u64>)
    requires
        expected matches Some(n) ==> n == concat_chunks(ds).len(),
    ensures
        ({
            let es = data_events(ds) + seq![DownloadEvent::Finished];
            let acts = download_run_actions(DownloadPhase::Sending, expected, 0, es);
            &&& download_run_phase(DownloadPhase::Sending, expected, 0, es) == DownloadPhase::Complete
            &&& acts == send_actions(ds) + seq![DownloadAction::Close]
            &&& sent(acts) == concat_chunks(ds)
        }),
{
    let tail = seq![DownloadEvent::Finished];
    lemma_data_prefix(ds, tail, expected, 0);
    let k = counted_after(expected, 0, ds);
    assert(tail.drop_first() =~= Seq::<DownloadEvent>::empty());
    assert(download_run_actions(DownloadPhase::Complete, expected, k, tail.drop_first()) =~= Seq::<DownloadAction>::empty());
    assert(download_run_phase(DownloadPhase::Complete, expected, k, tail.drop_first()) == DownloadPhase::Complete);
    let after = seq![DownloadAction::Close];
    assert(download_run_actions(DownloadPhase::Sending, expected, k, tail) =~= after);
    lemma_sent_append(send_actions(ds), after);
    lemma_sent_chunks(ds);
    assert(after.drop_first() =~= Seq::<DownloadAction>::empty());
    assert(sent(after.drop_first()) =~= Seq::<u8>::empty());
    assert(sent(after) =~= Seq::<u8>::empty());
    assert(concat_chunks(ds) + Seq::<u8>::empty() =~= concat_chunks(ds));
}

/// When the client goes away mid-download, reading stops at once: every
/// later event leads to no action.
pub proof fn lemma_client_gone_stops(ds: Seq<Vec<u8>>, later: Seq<DownloadEvent>, expected: Option<u64>)
    requires
        expected matches Some(n) ==> concat_chunks(ds).len() <= n,
    ensures
        ({
            let es = data_events(ds) + seq![DownloadEvent::ClientGone] + later;
            let acts = download_run_actions(DownloadPhase::Sending, expected, 0, es);
            &&& download_run_phase(DownloadPhase::Sending, expected, 0, es) == DownloadPhase::Stopped
            &&& acts[ds.len() as int] is StopReading
            &&& forall|i: int| ds.len() < i < acts.len() ==> #[trigger] acts[i] is Ignore
        }),
{
    let tail = seq![DownloadEvent::ClientGone] + later;
    assert(data_events(ds) + seq![DownloadEvent::ClientGone] + later =~= data_events(ds) + tail);
    lemma_data_prefix(ds, tail, expected, 0);
    let k = counted_after(expected, 0, ds);
    assert(tail.drop_first() =~= later);
    lemma_ended_download(DownloadPhase::Stopped, expected, k, later);
    let acts = download_run_actions(DownloadPhase::Sending, expected, 0, data_events(ds) + tail);
    let rest = download_run_actions(DownloadPhase::Sending, expected, k, tail);
    let stopped = download_run_actions(DownloadPhase::Stopped, expected, k, later);
    assert(rest == seq![DownloadAction::StopReading] + stopped);
    assert(acts[ds.len() as int] == rest[0]);
    assert forall|i: int| ds.len() < i < acts.len() implies #[trigger] acts[i] is Ignore by {
        assert(acts[i] == rest[i - ds.len()]);
        assert(rest[i - ds.len()] == stopped[i - ds.len() - 1]);
    }
}

proof fn lemma_closed_is_exact_from(n: u64, k: int, es: Seq<DownloadEvent>)
    requires
        0 <= k <= n,
        download_run_actions(DownloadPhase::Sending, Some(n), k, es).contains(DownloadAction::Close),
    ensures
        k + sent(download_run_actions(DownloadPhase::Sending, Some(n), k, es)).len() == n,
    decreases es.len(),
{
    let acts = download_run_actions(DownloadPhase::Sending, Some(n), k, es);
    let (q, k1, a) = download_step(DownloadPhase::Sending, Some(n), k, es[0]);
    let more = download_run_actions(q, Some(n), k1, es.drop_first());
    assert(acts == seq![a] + more);
    assert(acts.drop_first() =~= more);
    if q == DownloadPhase::Sending {
        let c = es[0]->Data_0;
        assert(a == DownloadAction::Send(c));
        assert(more.contains(DownloadAction::Close)) by {
            let i = choose|i: int| 0 <= i < acts.len() && acts[i] == DownloadAction::Close;
            assert(i > 0);
            assert(more[i - 1] == DownloadAction::Close);
        }
        lemma_closed_is_exact_from(n, k1, es.drop_first());
    } else {
        lemma_ended_download(q, Some(n), k1, es.drop_first());
        if a != DownloadAction::Close {
            let i = choose|i: int| 0 <= i < acts.len() && acts[i] == DownloadAction::Close;
            if i > 0 {
                assert(more[i - 1] is Ignore);
            }
            assert(false);
        }
        assert(k == n);
        assert(sent(acts) == Seq::<u8>::empty() + sent(more));
    }
}

/// Whatever the events, a response that was closed normally after the
/// backend reported a length carries exactly that many bytes; one that would
/// carry more or fewer is cut off instead.
pub proof fn lemma_closed_response_is_exact(n: u64, es: Seq<DownloadEvent>)
    requires
        download_run_actions(DownloadPhase::Sending, Some(n), 0, es).contains(DownloadAction::Close),
    ensures
        sent(download_run_actions(DownloadPhase::Sending, Some(n), 0, es)).len() == n,
{
    lemma_closed_is_exact_from(n, 0, es);
}

/// A body uploaded in any chunks, kept by a backend that hands back what it
/// was given (in any chunks of its own) with no length or its true length, is
/// downloaded byte for byte and the response is closed normally.
pub proof fn lemma_round_trip(cs: Seq<Vec<u8>>, ds: Seq<Vec<u8>>, expected: Option<u64>)
    requires
        concat_chunks(ds) == forwarded(
            upload_run_actions(
                UploadPhase::Receiving,
                chunk_events(cs) + seq![UploadEvent::End, UploadEvent::Written],
            ),
        ),
        expected matches Some(n) ==> n == concat_chunks(ds).len(),
    ensures
        ({
            let es = data_events(ds) + seq![DownloadEvent::Finished];
            &&& download_run_phase(DownloadPhase::Sending, expected, 0, es) == DownloadPhase::Complete
            &&& sent(download_run_actions(DownloadPhase::Sending, expected, 0, es)) == concat_chunks(cs)
        }),
{
    lemma_upload_forwards_body(cs);
    lemma_download_passes_body(ds, expected);
}

} // verus!
