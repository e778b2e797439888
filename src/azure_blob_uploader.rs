//! The upload session: the decisions of a chunked upload, one event at a
//! time.
//!
//! The caller opens the file, reads chunks, stores blocks and commits the
//! block list; after each of these it hands the outcome to
//! [`AzureBlobUploader::step`], which answers with the next thing to do.
use crate::block_id::{block_id_for_offset, block_id_spec, hex_value, lemma_block_id_value};
use crate::block_list::{block_list_ids, empty_block_list, push_uncommitted};
use crate::chunking::{
    chunk_bytes_spec, chunk_size_in_bytes, chunks_of, lemma_chunk_count, lemma_chunk_sizes,
    lemma_chunks_round_trip, valid_chunk_size,
};
use crate::error::UploadError;
use azure_storage_blobs::blob::BlockList;
use vstd::prelude::*;

verus! {

/// Where an upload stands.
#[derive(Debug, Clone, Copy, PartialEq, Eq, Structural)]
pub enum Phase {
    /// Waiting for the source file to be opened.
    Opening,
    /// Waiting for the next chunk to be read.
    Reading,
    /// Waiting for the last chunk's block to be stored.
    Uploading,
    /// Waiting for the block list to be committed.
    Committing,
    /// The blob is committed.
    Done,
    /// The upload failed; nothing more happens.
    Failed,
}

/// The outcome of the last action, as the caller saw it.
#[derive(Debug)]
pub enum Event {
    /// The source file was opened.
    FileOpened,
    /// The source file could not be opened.
    FileOpenFailed,
    /// A read returned these bytes; none means the file is exhausted.
    ChunkRead(Vec<u8>),
    /// A read failed.
    ReadFailed,
    /// The service stored the block.
    BlockStored,
    /// The service rejected the block.
    BlockRejected,
    /// The block list was committed; the blob is at this URL.
    Committed(String),
    /// Committing the block list failed.
    CommitFailed,
}

/// What the caller does next.
#[derive(Debug)]
pub enum Action {
    /// Read up to this many bytes from the source file.
    ReadChunk(usize),
    /// Store `data` as an uncommitted block named `block_id`.
    PutBlock { block_id: String, data: Vec<u8> },
    /// Commit this block list as the blob's content.
    Commit(BlockList),
    /// The upload is complete; the blob is at this URL.
    Finish(String),
    /// The upload failed in this phase.
    Fail(UploadError),
}

/// An event, over mathematical values.
pub enum EventView {
    FileOpened,
    FileOpenFailed,
    ChunkRead(Seq<u8>),
    ReadFailed,
    BlockStored,
    BlockRejected,
    Committed(Seq<char>),
    CommitFailed,
}

/// An action, over mathematical values.
pub enum ActionView {
    ReadChunk(nat),
    PutBlock(Seq<char>, Seq<u8>),
    Commit(Seq<Seq<char>>),
    Finish(Seq<char>),
    Fail(UploadError),
}

/// The state of an upload: the chunk size, the payload of every block
/// handed out for storing, in order, and the phase.
pub struct UploadState {
    pub chunk_size: nat,
    pub payloads: Seq<Seq<u8>>,
    pub phase: Phase,
}

impl View for Event {
    type V = EventView;

    open spec fn view(&self) -> EventView {
        match self {
            Event::FileOpened => EventView::FileOpened,
            Event::FileOpenFailed => EventView::FileOpenFailed,
            Event::ChunkRead(d) => EventView::ChunkRead(d@),
            Event::ReadFailed => EventView::ReadFailed,
            Event::BlockStored => EventView::BlockStored,
            Event::BlockRejected => EventView::BlockRejected,
            Event::Committed(u) => EventView::Committed(u@),
            Event::CommitFailed => EventView::CommitFailed,
        }
    }
}

impl View for Action {
    type V = ActionView;

    open spec fn view(&self) -> ActionView {
        match self {
            Action::ReadChunk(n) => ActionView::ReadChunk(*n as nat),
            Action::PutBlock { block_id, data } => ActionView::PutBlock(block_id@, data@),
            Action::Commit(l) => ActionView::Commit(block_list_ids(*l)),
            Action::Finish(u) => ActionView::Finish(u@),
            Action::Fail(e) => ActionView::Fail(*e),
        }
    }
}

/// The byte offset at which block `i` starts: the sizes of the blocks
/// before it, added up.
pub open spec fn block_offset(payloads: Seq<Seq<u8>>, i: int) -> nat {
    payloads.take(i).flatten().len()
}

/// The id of each block, in order: its offset in sixteen hex digits.
pub open spec fn block_ids(payloads: Seq<Seq<u8>>) -> Seq<Seq<char>> {
    Seq::new(payloads.len(), |i: int| block_id_spec(block_offset(payloads, i)))
}

/// The state of a fresh upload with chunks of `chunk_size` bytes.
pub open spec fn initial_state(chunk_size: nat) -> UploadState {
    UploadState { chunk_size, payloads: Seq::empty(), phase: Phase::Opening }
}

/// Whether `e` can come in state `s`: each phase waits for the outcomes of
/// its own action only, a chunk is no larger than asked for, and the file
/// stays within the 64-bit offsets that block ids can name.
pub open spec fn accepts_event(s: UploadState, e: EventView) -> bool {
    match s.phase {
        Phase::Opening => e is FileOpened || e is FileOpenFailed,
        Phase::Reading => match e {
            EventView::ChunkRead(d) => d.len() <= s.chunk_size && s.payloads.flatten().len()
                + d.len() <= u64::MAX,
            EventView::ReadFailed => true,
            _ => false,
        },
        Phase::Uploading => e is BlockStored || e is BlockRejected,
        Phase::Committing => e is Committed || e is CommitFailed,
        Phase::Done => false,
        Phase::Failed => false,
    }
}

/// The next state and action after event `e` in state `s`.
pub open spec fn transition(s: UploadState, e: EventView) -> (UploadState, ActionView) {
    let read = ActionView::ReadChunk(s.chunk_size);
    match e {
        EventView::FileOpened => (UploadState { phase: Phase::Reading, ..s }, read),
        EventView::FileOpenFailed => (
            UploadState { phase: Phase::Failed, ..s },
            ActionView::Fail(UploadError::FileOpenError),
        ),
        EventView::ChunkRead(d) => if d.len() == 0 {
            (UploadState { phase: Phase::Committing, ..s }, ActionView::Commit(block_ids(s.payloads)))
        } else {
            (
                UploadState { payloads: s.payloads.push(d), phase: Phase::Uploading, ..s },
                ActionView::PutBlock(block_id_spec(s.payloads.flatten().len()), d),
            )
        },
        EventView::ReadFailed => (
            UploadState { phase: Phase::Failed, ..s },
            ActionView::Fail(UploadError::FileReadError),
        ),
        EventView::BlockStored => (UploadState { phase: Phase::Reading, ..s }, read),
        EventView::BlockRejected => (
            UploadState { phase: Phase::Failed, ..s },
            ActionView::Fail(UploadError::BlockUploadError),
        ),
        EventView::Committed(url) => (
            UploadState { phase: Phase::Done, ..s },
            ActionView::Finish(url),
        ),
        EventView::CommitFailed => (
            UploadState { phase: Phase::Failed, ..s },
            ActionView::Fail(UploadError::CommitError),
        ),
    }
}

/// A chunked upload of one file to one blob, driven by its caller.
///
/// Each chunk read becomes one uncommitted block named after its byte
/// offset; the first empty read commits the block list. An empty file thus
/// commits an empty list, giving a zero-byte blob.
pub struct AzureBlobUploader {
    chunk_size: usize,
    /// Bytes of the blocks that the service has stored.
    offset: u64,
    /// Size of the block that waits to be stored, if any.
    pending: usize,
    /// The block list to commit, filled as blocks are handed out.
    blocks: BlockList,
    phase: Phase,
    payloads: Ghost<Seq<Seq<u8>>>,
}

impl View for AzureBlobUploader {
    type V = UploadState;

    closed spec fn view(&self) -> UploadState {
        UploadState { chunk_size: self.chunk_size as nat, payloads: self.payloads@, phase: self.phase }
    }
}

/// Whether `s` is a state that an upload can reach: a positive chunk size,
/// payloads that are non-empty and no larger than a chunk, and a total that
/// 64-bit offsets can name.
pub open spec fn reachable(s: UploadState) -> bool {
    &&& 0 < s.chunk_size <= usize::MAX
    &&& forall|i: int|
        0 <= i < s.payloads.len() ==> 0 < #[trigger] s.payloads[i].len() <= s.chunk_size
    &&& s.payloads.flatten().len() <= u64::MAX
    &&& s.phase is Opening ==> s.payloads.len() == 0
    &&& s.phase is Uploading ==> s.payloads.len() > 0
}

proof fn lemma_block_offset_push(p: Seq<Seq<u8>>, d: Seq<u8>, i: int)
    requires
        0 <= i <= p.len(),
    ensures
        block_offset(p.push(d), i) == block_offset(p, i),
        block_offset(p, p.len() as int) == p.flatten().len(),
{
    assert(p.push(d).take(i) =~= p.take(i));
    assert(p.take(p.len() as int) =~= p);
}

proof fn lemma_block_ids_push(p: Seq<Seq<u8>>, d: Seq<u8>)
    ensures
        block_ids(p.push(d)) == block_ids(p).push(block_id_spec(p.flatten().len())),
{
    assert forall|i: int| 0 <= i < p.len() implies block_offset(p.push(d), i) == block_offset(
        p,
        i,
    ) by {
        lemma_block_offset_push(p, d, i);
    }
    lemma_block_offset_push(p, d, p.len() as int);
    assert(block_ids(p.push(d)) =~= block_ids(p).push(block_id_spec(p.flatten().len())));
}

proof fn lemma_block_offset_next(p: Seq<Seq<u8>>, i: int)
    requires
        0 <= i < p.len(),
    ensures
        block_offset(p, i + 1) == block_offset(p, i) + p[i].len(),
{
    assert(p.take(i + 1) =~= p.take(i).push(p[i]));
    p.take(i).lemma_flatten_push(p[i]);
}

/// Block offsets grow by at least the size of each block in between.
proof fn lemma_block_offset_mono(p: Seq<Seq<u8>>, i: int, j: int)
    requires
        0 <= i <= j <= p.len(),
    ensures
        block_offset(p, i) <= block_offset(p, j),
        i < j ==> block_offset(p, i) + p[i].len() <= block_offset(p, j),
    decreases j - i,
{
    if i < j {
        lemma_block_offset_next(p, i);
        lemma_block_offset_mono(p, i + 1, j);
    }
}

/// No block starts past the total size.
proof fn lemma_block_offset_bounded(p: Seq<Seq<u8>>, i: int)
    requires
        0 <= i <= p.len(),
    ensures
        block_offset(p, i) <= p.flatten().len(),
{
    lemma_block_offset_mono(p, i, p.len() as int);
    assert(p.take(p.len() as int) =~= p);
}

/// Block ids name each block's offset, and they strictly increase along
/// the block list, so no two blocks of one upload share an id.
pub proof fn lemma_block_ids_increasing(s: UploadState)
    requires
        reachable(s),
    ensures
        block_ids(s.payloads).len() == s.payloads.len(),
        forall|i: int|
            0 <= i < s.payloads.len() ==> hex_value(#[trigger] block_ids(s.payloads)[i])
                == block_offset(s.payloads, i),
        forall|i: int, j: int|
            0 <= i < j < s.payloads.len() ==> hex_value(#[trigger] block_ids(s.payloads)[i])
                < hex_value(#[trigger] block_ids(s.payloads)[j]),
        forall|i: int, j: int|
            0 <= i < j < s.payloads.len() ==> #[trigger] block_ids(s.payloads)[i]
                != #[trigger] block_ids(s.payloads)[j],
{
    let p = s.payloads;
    assert forall|i: int| 0 <= i < p.len() implies hex_value(#[trigger] block_ids(p)[i])
        == block_offset(p, i) by {
        lemma_block_offset_bounded(p, i);
        lemma_block_id_value(block_offset(p, i));
    }
    assert forall|i: int, j: int| 0 <= i < j < p.len() implies hex_value(
        #[trigger] block_ids(p)[i],
    ) < hex_value(#[trigger] block_ids(p)[j]) by {
        lemma_block_offset_mono(p, i, j);
        lemma_block_offset_bounded(p, j);
        lemma_block_id_value(block_offset(p, i));
        lemma_block_id_value(block_offset(p, j));
    }
    assert forall|i: int, j: int| 0 <= i < j < p.len() implies #[trigger] block_ids(p)[i]
        != #[trigger] block_ids(p)[j] by {
        lemma_block_offset_mono(p, i, j);
        lemma_block_offset_bounded(p, j);
        lemma_block_id_value(block_offset(p, i));
        lemma_block_id_value(block_offset(p, j));
    }
}

/// Once a block is rejected the upload fails in the block-upload phase:
/// no commit is asked for and no event, so no further block, is taken.
pub proof fn lemma_block_rejection_stops(s: UploadState)
    requires
        reachable(s),
        accepts_event(s, EventView::BlockRejected),
    ensures
        transition(s, EventView::BlockRejected).1 == ActionView::Fail(UploadError::BlockUploadError),
        transition(s, EventView::BlockRejected).0.payloads == s.payloads,
        forall|e: EventView| !accepts_event(#[trigger] transition(s, EventView::BlockRejected).0, e),
{
}

/// A failed upload takes no event.
pub proof fn lemma_failure_is_final(s: UploadState, e: EventView)
    requires
        s.phase is Failed,
    ensures
        !accepts_event(s, e),
{
}

/// The state after reading each chunk of `cs` in turn and having its block
/// stored.
pub open spec fn feed_chunks(s: UploadState, cs: Seq<Seq<u8>>) -> UploadState
    decreases cs.len(),
{
    if cs.len() == 0 {
        s
    } else {
        let uploading = transition(s, EventView::ChunkRead(cs[0])).0;
        feed_chunks(transition(uploading, EventView::BlockStored).0, cs.drop_first())
    }
}

/// Whether every event of [`feed_chunks`] is one that its state takes.
pub open spec fn feed_accepted(s: UploadState, cs: Seq<Seq<u8>>) -> bool
    decreases cs.len(),
{
    if cs.len() == 0 {
        true
    } else {
        let uploading = transition(s, EventView::ChunkRead(cs[0])).0;
        &&& accepts_event(s, EventView::ChunkRead(cs[0]))
        &&& accepts_event(uploading, EventView::BlockStored)
        &&& feed_accepted(transition(uploading, EventView::BlockStored).0, cs.drop_first())
    }
}

proof fn lemma_feed_chunks(s: UploadState, cs: Seq<Seq<u8>>)
    requires
        s.phase is Reading,
        forall|i: int| 0 <= i < cs.len() ==> 0 < #[trigger] cs[i].len() <= s.chunk_size,
        s.payloads.flatten().len() + cs.flatten().len() <= u64::MAX,
    ensures
        feed_chunks(s, cs) == (UploadState { payloads: s.payloads + cs, ..s }),
        feed_accepted(s, cs),
    decreases cs.len(),
{
    if cs.len() == 0 {
        assert(s.payloads + cs =~= s.payloads);
    } else {
        let next = UploadState { payloads: s.payloads.push(cs[0]), ..s };
        assert(cs =~= seq![cs[0]] + cs.drop_first());
        assert(cs.flatten() == cs[0] + cs.drop_first().flatten());
        s.payloads.lemma_flatten_push(cs[0]);
        assert forall|i: int| 0 <= i < cs.drop_first().len() implies 0
            < #[trigger] cs.drop_first()[i].len() <= s.chunk_size by {
            assert(cs.drop_first()[i] == cs[i + 1]);
        }
        lemma_feed_chunks(next, cs.drop_first());
        assert(next.payloads + cs.drop_first() =~= s.payloads + cs);
    }
}

/// Uploading a file `f` of bytes with chunks of `c` bytes, where every read
/// fills its chunk until the end of the file: after the file is opened,
/// every chunk read and every block stored, the blocks handed out are the
/// file's chunks, `n / c` of them rounded up (none for an empty file), that
/// joined in order give the file back, block `k` is named after offset
/// `k * c`, and the next, empty read commits the ids of all blocks in order.
pub proof fn lemma_upload_of_file(f: Seq<u8>, c: nat)
    requires
        0 < c <= usize::MAX,
        f.len() <= u64::MAX,
    ensures
        ({
            let opened = transition(initial_state(c), EventView::FileOpened).0;
            let done = feed_chunks(opened, chunks_of(f, c));
            let ids = block_ids(done.payloads);
            &&& feed_accepted(opened, chunks_of(f, c))
            &&& done.phase is Reading
            &&& done.payloads == chunks_of(f, c)
            &&& done.payloads.flatten() == f
            &&& done.payloads.len() == (f.len() + c - 1) / c as int
            &&& forall|k: int| 0 <= k < ids.len() ==> #[trigger] ids[k] == block_id_spec((k * c) as nat)
            &&& accepts_event(done, EventView::ChunkRead(Seq::empty()))
            &&& transition(done, EventView::ChunkRead(Seq::empty())).1 == ActionView::Commit(ids)
        }),
{
    let cs = chunks_of(f, c);
    let opened = transition(initial_state(c), EventView::FileOpened).0;
    lemma_chunk_sizes(f, c);
    lemma_chunks_round_trip(f, c);
    lemma_chunk_count(f, c);
    assert(Seq::<Seq<u8>>::empty().flatten() =~= Seq::<u8>::empty());
    lemma_feed_chunks(opened, cs);
    assert(Seq::<Seq<u8>>::empty() + cs =~= cs);
    assert forall|k: int| 0 <= k < cs.len() implies block_offset(cs, k) == k * c by {
        lemma_full_chunk_offsets(cs, c, k);
    }
}

proof fn lemma_full_chunk_offsets(cs: Seq<Seq<u8>>, c: nat, k: int)
    requires
        0 <= k < cs.len(),
        forall|i: int| 0 <= i < cs.len() - 1 ==> #[trigger] cs[i].len() == c,
    ensures
        block_offset(cs, k) == k * c,
    decreases k,
{
    if k == 0 {
        assert(cs.take(0) =~= Seq::<Seq<u8>>::empty());
        assert(Seq::<Seq<u8>>::empty().flatten() =~= Seq::<u8>::empty());
    } else {
        lemma_full_chunk_offsets(cs, c, k - 1);
        lemma_block_offset_next(cs, k - 1);
        assert((k - 1) * c + c == k * c) by (nonlinear_arith);
    }
}

impl AzureBlobUploader {
    /// The session's invariant.
    pub closed spec fn wf(&self) -> bool {
        &&& reachable(self@)
        &&& self.phase is Uploading ==> {
            &&& self.pending == self@.payloads.last().len()
            &&& self.offset == self@.payloads.drop_last().flatten().len()
        }
        &&& (self.phase is Opening || self.phase is Reading) ==> self.offset == self@.payloads.flatten().len()
        &&& (self.phase is Opening || self.phase is Reading || self.phase is Uploading)
            ==> block_list_ids(self.blocks) == block_ids(self@.payloads)
    }

    /// A session's state is one that an upload can reach, so the laws
    /// stated over [`UploadState`] hold of it.
    pub proof fn lemma_wf_reachable(&self)
        requires
            self.wf(),
        ensures
            reachable(self@),
    {
    }

    /// Starts an upload with chunks of `chunk_size_mib` mebibytes, or fails
    /// with `ConfigurationError`, before any I/O, where that size is zero or
    /// too large. The caller then opens the source file.
    pub fn new(chunk_size_mib: usize) -> (r: Result<AzureBlobUploader, UploadError>)
        ensures
            r is Ok <==> valid_chunk_size(chunk_size_mib as nat),
            r matches Ok(u) ==> u.wf() && u@ == initial_state(chunk_bytes_spec(chunk_size_mib as nat)),
            r matches Err(e) ==> e == UploadError::ConfigurationError,
    {
        match chunk_size_in_bytes(chunk_size_mib) {
            Ok(chunk_size) => {
                let u = AzureBlobUploader {
                    chunk_size,
                    offset: 0,
                    pending: 0,
                    blocks: empty_block_list(),
                    phase: Phase::Opening,
                    payloads: Ghost(Seq::empty()),
                };
                proof {
                    assert(Seq::<Seq<u8>>::empty().flatten() =~= Seq::<u8>::empty());
                    assert(block_ids(Seq::<Seq<u8>>::empty()) =~= Seq::<Seq<char>>::empty());
                }
                Ok(u)
            },
            Err(e) => Err(e),
        }
    }

    /// Where the upload stands.
    pub fn phase(&self) -> (r: Phase)
        ensures
            r == self@.phase,
    {
        self.phase
    }

    /// The chunk size in bytes.
    pub fn chunk_size(&self) -> (r: usize)
        ensures
            r == self@.chunk_size,
    {
        self.chunk_size
    }

    /// Whether `event` can come now (see [`accepts_event`]).
    pub fn accepts(&self, event: &Event) -> (r: bool)
        requires
            self.wf(),
        ensures
            r == accepts_event(self@, event@),
    {
        match self.phase {
            Phase::Opening => matches!(event, Event::FileOpened | Event::FileOpenFailed),
            Phase::Reading => match event {
                Event::ChunkRead(d) => d.len() <= self.chunk_size && d.len() as u64 <= u64::MAX
                    - self.offset,
                Event::ReadFailed => true,
                _ => false,
            },
            Phase::Uploading => matches!(event, Event::BlockStored | Event::BlockRejected),
            Phase::Committing => matches!(event, Event::Committed(_) | Event::CommitFailed),
            Phase::Done => false,
            Phase::Failed => false,
        }
    }

    /// Takes the outcome of the last action and gives the next one.
    pub fn step(&mut self, event: Event) -> (action: Action)
        requires
            old(self).wf(),
            accepts_event(old(self)@, event@),
        ensures
            final(self).wf(),
            (final(self)@, action@) == transition(old(self)@, event@),
    {
        match event {
            Event::FileOpened => {
                self.phase = Phase::Reading;
                Action::ReadChunk(self.chunk_size)
            },
            Event::FileOpenFailed => {
                self.phase = Phase::Failed;
                Action::Fail(UploadError::FileOpenError)
            },
            Event::ChunkRead(data) => {
                if data.len() == 0 {
                    let mut list = empty_block_list();
                    std::mem::swap(&mut list, &mut self.blocks);
                    self.phase = Phase::Committing;
                    Action::Commit(list)
                } else {
                    let block_id = block_id_for_offset(self.offset);
                    push_uncommitted(&mut self.blocks, block_id.as_str());
                    proof {
                        lemma_block_ids_push(self.payloads@, data@);
                        let p = self.payloads@.push(data@);
                        assert(p.drop_last() =~= self.payloads@);
                        self.payloads@.lemma_flatten_push(data@);
                        assert(p.flatten() =~= self.payloads@.flatten() + data@);
                    }
                    self.pending = data.len();
                    self.payloads = Ghost(self.payloads@.push(data@));
                    self.phase = Phase::Uploading;
                    Action::PutBlock { block_id, data }
                }
            },
            Event::ReadFailed => {
                self.phase = Phase::Failed;
                Action::Fail(UploadError::FileReadError)
            },
            Event::BlockStored => {
                proof {
                    let p = self.payloads@;
                    assert(p =~= p.drop_last().push(p.last()));
                    p.drop_last().lemma_flatten_push(p.last());
                    assert(p.flatten().len() == p.drop_last().flatten().len() + p.last().len());
                }
                self.offset = self.offset + self.pending as u64;
                self.pending = 0;
                self.phase = Phase::Reading;
                Action::ReadChunk(self.chunk_size)
            },
            Event::BlockRejected => {
                self.phase = Phase::Failed;
                Action::Fail(UploadError::BlockUploadError)
            },
            Event::Committed(url) => {
                self.phase = Phase::Done;
                Action::Finish(url)
            },
            Event::CommitFailed => {
                self.phase = Phase::Failed;
                Action::Fail(UploadError::CommitError)
            },
        }
    }
}

} // verus!
