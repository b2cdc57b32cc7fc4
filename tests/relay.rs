use meow::download::{
    download_outcome, DownloadAction, DownloadEvent, DownloadOutcome, DownloadPhase, DownloadRelay,
    Framing, StoredObject,
};
use meow::error::{StorageError, UploadError};
use meow::upload::{UploadAction, UploadEvent, UploadPhase, UploadRelay};

/// Runs an upload over the given chunks, then the given ending events, and
/// returns what reached the backend and the actions other than forwarding.
fn run_upload(
    relay: &mut UploadRelay,
    chunks: Vec<Vec<u8>>,
    ending: Vec<UploadEvent>,
    max_chunk: usize,
) -> (Vec<u8>, Vec<UploadAction>) {
    let mut stored = Vec::new();
    let mut others = Vec::new();
    for c in chunks {
        match relay.handle(UploadEvent::Chunk(c)) {
            UploadAction::Forward(b) => {
                assert!(b.len() <= max_chunk);
                stored.extend_from_slice(&b);
            }
            a => others.push(a),
        }
    }
    for e in ending {
        match relay.handle(e) {
            UploadAction::Forward(b) => stored.extend_from_slice(&b),
            a => others.push(a),
        }
    }
    (stored, others)
}

fn run_download(chunks: Vec<Vec<u8>>, expected: Option<u64>) -> (Vec<u8>, DownloadPhase) {
    let mut relay = DownloadRelay::new(expected);
    let mut out = Vec::new();
    for c in chunks {
        if let DownloadAction::Send(b) = relay.handle(DownloadEvent::Data(c)) {
            out.extend_from_slice(&b);
        }
    }
    assert!(matches!(relay.handle(DownloadEvent::Finished), DownloadAction::Close));
    (out, relay.phase())
}

fn cut(data: &[u8], size: usize) -> Vec<Vec<u8>> {
    data.chunks(size).map(|c| c.to_vec()).collect()
}

#[test]
fn upload_forwards_chunks_in_order() {
    let mut relay = UploadRelay::new(Some(5));
    let (stored, others) = run_upload(
        &mut relay,
        vec![b"hel".to_vec(), b"lo".to_vec()],
        vec![UploadEvent::End, UploadEvent::Written],
        3,
    );
    assert_eq!(stored, b"hello".to_vec());
    assert!(matches!(others[0], UploadAction::Finish));
    assert!(matches!(others[1], UploadAction::Succeed));
    assert_eq!(relay.phase(), UploadPhase::Succeeded);
    assert_eq!(relay.declared_length(), Some(5));
}

#[test]
fn round_trip_of_empty_body() {
    let mut relay = UploadRelay::new(Some(0));
    let (stored, _) = run_upload(&mut relay, vec![], vec![UploadEvent::End, UploadEvent::Written], 0);
    assert!(stored.is_empty());
    let (back, phase) = run_download(cut(&stored, 1), Some(0));
    assert!(back.is_empty());
    assert_eq!(phase, DownloadPhase::Complete);
}

#[test]
fn round_trip_of_large_body_in_small_chunks() {
    let body: Vec<u8> = (0..3_000_000u32).map(|i| (i * 7 % 251) as u8).collect();
    for size in [1usize << 16, 4096, 777] {
        let mut relay = UploadRelay::new(None);
        let (stored, others) = run_upload(
            &mut relay,
            cut(&body, size),
            vec![UploadEvent::End, UploadEvent::Written],
            size,
        );
        assert_eq!(others.len(), 2);
        assert_eq!(stored, body);
        assert_eq!(relay.declared_length(), None);
        let expected = if size == 777 { None } else { Some(body.len() as u64) };
        let (back, phase) = run_download(cut(&stored, 10_000), expected);
        assert_eq!(back, body);
        assert_eq!(phase, DownloadPhase::Complete);
    }
}

#[test]
fn disconnect_mid_upload_aborts() {
    let mut relay = UploadRelay::new(Some(100));
    let (stored, others) = run_upload(
        &mut relay,
        vec![b"part".to_vec()],
        vec![UploadEvent::Broken, UploadEvent::Written],
        4,
    );
    assert_eq!(stored, b"part".to_vec());
    assert!(matches!(others[0], UploadAction::Abort(UploadError::Inbound)));
    assert!(matches!(others[1], UploadAction::Ignore));
    assert_eq!(relay.phase(), UploadPhase::Failed);
}

#[test]
fn backend_write_failure_fails_upload() {
    let mut relay = UploadRelay::new(None);
    let a = relay.handle(UploadEvent::WriteFailed(StorageError::Backend("full".to_string())));
    match a {
        UploadAction::Fail(e) => {
            assert_eq!(e, UploadError::Storage(StorageError::Backend("full".to_string())))
        }
        _ => panic!("expected a failure"),
    }
    assert!(matches!(relay.handle(UploadEvent::Chunk(vec![1])), UploadAction::Ignore));
    assert_eq!(relay.phase(), UploadPhase::Failed);
}

#[test]
fn backend_failure_while_finishing_fails_upload() {
    let mut relay = UploadRelay::new(None);
    assert!(matches!(relay.handle(UploadEvent::End), UploadAction::Finish));
    assert_eq!(relay.phase(), UploadPhase::Finishing);
    let a = relay.handle(UploadEvent::WriteFailed(StorageError::Transport("reset".to_string())));
    assert!(matches!(a, UploadAction::Fail(UploadError::Storage(StorageError::Transport(_)))));
    assert_eq!(relay.phase(), UploadPhase::Failed);
}

#[test]
fn unknown_key_is_not_found() {
    let o = download_outcome(Ok(StoredObject::Absent));
    assert_eq!(o, DownloadOutcome::NotFound);
    assert_eq!(o.status(), 404);
    assert_eq!(o.framing(), None);
    let o = download_outcome(Err(StorageError::NotFound));
    assert_eq!(o, DownloadOutcome::NotFound);
    assert_eq!(o.status(), 404);
}

#[test]
fn download_outcomes_and_status() {
    let o = download_outcome(Ok(StoredObject::Bodiless));
    assert_eq!(o, DownloadOutcome::Empty);
    assert_eq!(o.status(), 204);
    let o = download_outcome(Ok(StoredObject::Body(Some(5))));
    assert_eq!(o, DownloadOutcome::Stream(Some(5)));
    assert_eq!(o.status(), 200);
    assert_eq!(o.framing(), Some(Framing::ContentLength(5)));
    let o = download_outcome(Ok(StoredObject::Body(None)));
    assert_eq!(o.framing(), Some(Framing::Chunked));
    let o = download_outcome(Err(StorageError::Transport("down".to_string())));
    assert_eq!(o, DownloadOutcome::BackendError);
    assert_eq!(o.status(), 500);
    let o = download_outcome(Err(StorageError::Backend("fault".to_string())));
    assert_eq!(o.status(), 500);
}

#[test]
fn download_stops_when_client_goes() {
    let mut relay = DownloadRelay::new(Some(10));
    assert!(matches!(relay.handle(DownloadEvent::Data(vec![1, 2])), DownloadAction::Send(_)));
    assert!(matches!(relay.handle(DownloadEvent::ClientGone), DownloadAction::StopReading));
    assert!(matches!(relay.handle(DownloadEvent::Data(vec![3])), DownloadAction::Ignore));
    assert_eq!(relay.phase(), DownloadPhase::Stopped);
}

#[test]
fn download_read_failure_cuts_response() {
    let mut relay = DownloadRelay::new(None);
    assert!(matches!(relay.handle(DownloadEvent::ReadFailed), DownloadAction::Abort));
    assert_eq!(relay.phase(), DownloadPhase::Failed);
}

#[test]
fn download_longer_than_reported_is_cut_off() {
    let mut relay = DownloadRelay::new(Some(3));
    assert!(matches!(relay.handle(DownloadEvent::Data(vec![1, 2])), DownloadAction::Send(_)));
    assert!(matches!(relay.handle(DownloadEvent::Data(vec![3, 4])), DownloadAction::Abort));
    assert_eq!(relay.phase(), DownloadPhase::Failed);
    assert!(matches!(relay.handle(DownloadEvent::Finished), DownloadAction::Ignore));
}

#[test]
fn download_shorter_than_reported_is_cut_off() {
    let mut relay = DownloadRelay::new(Some(5));
    assert!(matches!(relay.handle(DownloadEvent::Data(b"hell".to_vec())), DownloadAction::Send(_)));
    assert!(matches!(relay.handle(DownloadEvent::Finished), DownloadAction::Abort));
    assert_eq!(relay.phase(), DownloadPhase::Failed);
}

#[test]
fn download_of_exact_length_closes() {
    let (back, phase) = run_download(vec![b"hel".to_vec(), b"lo".to_vec()], Some(5));
    assert_eq!(back, b"hello".to_vec());
    assert_eq!(phase, DownloadPhase::Complete);
}
