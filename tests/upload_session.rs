use azure_blob_uploader::azure_blob_uploader::{Action, AzureBlobUploader, Event, Phase};
use azure_blob_uploader::error::UploadError;
use azure_storage_blobs::blob::BlobBlockType;

const MIB: usize = 1048576;

/// What a run over a whole file saw: each block handed out, the ids of
/// the committed list, and the final action.
struct Run {
    blocks: Vec<(String, Vec<u8>)>,
    committed: Vec<String>,
    last: Action,
}

fn committed_ids(action: &Action) -> Vec<String> {
    match action {
        Action::Commit(list) => list
            .blocks
            .iter()
            .map(|b| match b {
                BlobBlockType::Uncommitted(id) => String::from_utf8(id.bytes().to_vec()).unwrap(),
                other => panic!("unexpected entry {other:?}"),
            })
            .collect(),
        other => panic!("expected a commit, got {other:?}"),
    }
}

/// Drives a session over `file`, every read filling its chunk.
fn run_over(file: &[u8], chunk_mib: usize) -> Run {
    let mut u = AzureBlobUploader::new(chunk_mib).unwrap();
    let mut action = u.step(Event::FileOpened);
    let mut pos = 0usize;
    let mut blocks = Vec::new();
    let mut committed = Vec::new();
    loop {
        let event = match action {
            Action::ReadChunk(n) => {
                let end = usize::min(pos + n, file.len());
                let chunk = file[pos..end].to_vec();
                pos = end;
                Event::ChunkRead(chunk)
            }
            Action::PutBlock { block_id, data } => {
                blocks.push((block_id, data));
                Event::BlockStored
            }
            Action::Commit(_) => {
                committed = committed_ids(&action);
                Event::Committed("https://acct.blob.core.windows.net/c/b".to_string())
            }
            last => return Run { blocks, committed, last },
        };
        assert!(u.accepts(&event));
        action = u.step(event);
    }
}

fn sample_file(len: usize) -> Vec<u8> {
    (0..len).map(|i| (i % 251) as u8).collect()
}

#[test]
fn example_twenty_five_mib_in_ten_mib_chunks() {
    let file = sample_file(25 * MIB);
    let run = run_over(&file, 10);
    let sizes: Vec<usize> = run.blocks.iter().map(|b| b.1.len()).collect();
    assert_eq!(sizes, vec![10 * MIB, 10 * MIB, 5 * MIB]);
    let ids: Vec<&str> = run.blocks.iter().map(|b| b.0.as_str()).collect();
    assert_eq!(ids, vec!["0000000000000000", "0000000000a00000", "0000000001400000"]);
    assert_eq!(run.committed, ids);
    match run.last {
        Action::Finish(url) => assert_eq!(url, "https://acct.blob.core.windows.net/c/b"),
        other => panic!("expected finish, got {other:?}"),
    }
}

#[test]
fn round_trip_rebuilds_the_file() {
    let file = sample_file(2 * MIB + 12345);
    let run = run_over(&file, 1);
    let joined: Vec<u8> = run.blocks.iter().flat_map(|b| b.1.clone()).collect();
    assert_eq!(joined, file);
    assert_eq!(run.blocks.len(), 3);
}

#[test]
fn exact_multiple_gives_full_chunks() {
    let file = sample_file(3 * MIB);
    let run = run_over(&file, 1);
    assert_eq!(run.blocks.len(), 3);
    assert!(run.blocks.iter().all(|b| b.1.len() == MIB));
}

#[test]
fn small_file_is_one_chunk() {
    let file = sample_file(100);
    let run = run_over(&file, 1);
    assert_eq!(run.blocks.len(), 1);
    assert_eq!(run.blocks[0].1, file);
    assert_eq!(run.committed, vec!["0000000000000000".to_string()]);
}

#[test]
fn empty_file_commits_an_empty_list() {
    let run = run_over(&[], 1);
    assert!(run.blocks.is_empty());
    assert!(run.committed.is_empty());
    assert!(matches!(run.last, Action::Finish(_)));
}

#[test]
fn block_ids_increase_and_differ() {
    let file = sample_file(5 * MIB + 1);
    let run = run_over(&file, 1);
    assert_eq!(run.blocks.len(), 6);
    for i in 0..run.blocks.len() {
        let offset = u64::from_str_radix(&run.blocks[i].0, 16).unwrap();
        assert_eq!(offset, (i * MIB) as u64);
        for j in (i + 1)..run.blocks.len() {
            assert!(run.blocks[i].0 < run.blocks[j].0);
        }
    }
}

#[test]
fn rejected_block_stops_the_upload() {
    let mut u = AzureBlobUploader::new(1).unwrap();
    u.step(Event::FileOpened);
    let a = u.step(Event::ChunkRead(vec![1; MIB]));
    assert!(matches!(a, Action::PutBlock { .. }));
    u.step(Event::BlockStored);
    let a = u.step(Event::ChunkRead(vec![2; 10]));
    match &a {
        Action::PutBlock { block_id, data } => {
            assert_eq!(block_id, "0000000000100000");
            assert_eq!(data.len(), 10);
        }
        other => panic!("expected a block, got {other:?}"),
    }
    let a = u.step(Event::BlockRejected);
    assert!(matches!(a, Action::Fail(UploadError::BlockUploadError)));
    assert_eq!(u.phase(), Phase::Failed);
    let later = [
        Event::BlockStored,
        Event::ChunkRead(vec![3; 10]),
        Event::ChunkRead(vec![]),
        Event::Committed("u".to_string()),
        Event::FileOpened,
    ];
    for e in later.iter() {
        assert!(!u.accepts(e));
    }
}

#[test]
fn zero_chunk_size_is_rejected() {
    assert!(matches!(AzureBlobUploader::new(0), Err(UploadError::ConfigurationError)));
}

#[test]
fn oversized_chunk_size_is_rejected() {
    assert!(matches!(AzureBlobUploader::new(usize::MAX), Err(UploadError::ConfigurationError)));
}

#[test]
fn new_session_waits_for_the_file() {
    let u = AzureBlobUploader::new(10).unwrap();
    assert_eq!(u.phase(), Phase::Opening);
    assert_eq!(u.chunk_size(), 10 * MIB);
    assert!(u.accepts(&Event::FileOpened));
    assert!(u.accepts(&Event::FileOpenFailed));
    assert!(!u.accepts(&Event::ChunkRead(vec![1])));
}

#[test]
fn open_failure_is_reported() {
    let mut u = AzureBlobUploader::new(1).unwrap();
    let a = u.step(Event::FileOpenFailed);
    assert!(matches!(a, Action::Fail(UploadError::FileOpenError)));
    assert_eq!(u.phase(), Phase::Failed);
}

#[test]
fn read_failure_is_reported() {
    let mut u = AzureBlobUploader::new(1).unwrap();
    let a = u.step(Event::FileOpened);
    assert!(matches!(a, Action::ReadChunk(n) if n == MIB));
    let a = u.step(Event::ReadFailed);
    assert!(matches!(a, Action::Fail(UploadError::FileReadError)));
}

#[test]
fn commit_failure_is_reported() {
    let mut u = AzureBlobUploader::new(1).unwrap();
    u.step(Event::FileOpened);
    u.step(Event::ChunkRead(vec![7; 3]));
    u.step(Event::BlockStored);
    let a = u.step(Event::ChunkRead(vec![]));
    assert_eq!(committed_ids(&a), vec!["0000000000000000".to_string()]);
    assert_eq!(u.phase(), Phase::Committing);
    let a = u.step(Event::CommitFailed);
    assert!(matches!(a, Action::Fail(UploadError::CommitError)));
}

#[test]
fn oversized_chunk_is_not_accepted() {
    let mut u = AzureBlobUploader::new(1).unwrap();
    u.step(Event::FileOpened);
    assert!(!u.accepts(&Event::ChunkRead(vec![0; MIB + 1])));
    assert!(u.accepts(&Event::ChunkRead(vec![0; MIB])));
    assert!(!u.accepts(&Event::BlockStored));
}
