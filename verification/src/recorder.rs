//! The recorder: what it keeps of a response while the response passes, and how it ends.

use std::sync::Arc;
use vstd::prelude::*;
use vstd::utf8::encode_utf8;

use crate::boundary::channel_of;
use crate::boundary::nanos_since;
use crate::boundary::offers_through;
use crate::boundary::optional_text;
use crate::boundary::requests_through;
use crate::boundary::rfc3339_of;
use crate::boundary::semaphore_of;
use crate::boundary::try_acquire;
use crate::boundary::try_send;
use crate::boundary::MemoryPermit;
use crate::boundary::MemoryRequest;
use crate::boundary::Offer;
use crate::capture::duration_ms;
use crate::capture::utc_now;
use crate::capture::CaptureJob;
use crate::capture::CaptureSeed;
use crate::capture::JobView;
use crate::capture::SeedView;
use crate::config::LARGEST_MAX_RESPONSE_BYTES;
use crate::identity::Uuid;

verus! {

/// What the gateway counts.
#[derive(Clone, Copy, Debug, PartialEq, Eq, Structural)]
pub enum Tally {
    Observed,
    Completed,
    Enqueued,
    Persisted,
    Dropped,
    Oversized,
    Interrupted,
    StorageFailed,
}

/// How often each thing was counted.
#[derive(Clone, Copy, Debug, PartialEq, Eq, Structural)]
pub struct Counters {
    pub observed: u64,
    pub completed: u64,
    pub enqueued: u64,
    pub persisted: u64,
    pub dropped: u64,
    pub oversized: u64,
    pub interrupted: u64,
    pub storage_failed: u64,
    /// Whether captures are still being written.
    pub writer_alive: bool,
}

impl Counters {
    /// The counters once one more thing was counted. A counter at its limit starts again at zero.
    pub open spec fn counted(self, tally: Tally) -> Counters {
        match tally {
            Tally::Observed => Counters { observed: next_count(self.observed), ..self },
            Tally::Completed => Counters { completed: next_count(self.completed), ..self },
            Tally::Enqueued => Counters { enqueued: next_count(self.enqueued), ..self },
            Tally::Persisted => Counters { persisted: next_count(self.persisted), ..self },
            Tally::Dropped => Counters { dropped: next_count(self.dropped), ..self },
            Tally::Oversized => Counters { oversized: next_count(self.oversized), ..self },
            Tally::Interrupted => Counters { interrupted: next_count(self.interrupted), ..self },
            Tally::StorageFailed => Counters {
                storage_failed: next_count(self.storage_failed),
                ..self
            },
        }
    }

    /// Nothing was counted yet, and captures are being written.
    pub open spec fn is_fresh(self) -> bool {
        &&& self.observed == 0
        &&& self.completed == 0
        &&& self.enqueued == 0
        &&& self.persisted == 0
        &&& self.dropped == 0
        &&& self.oversized == 0
        &&& self.interrupted == 0
        &&& self.storage_failed == 0
        &&& self.writer_alive
    }

    /// Counters of a gateway that starts.
    pub fn new() -> (result: Counters)
        ensures
            result.is_fresh(),
            result == (Counters {
                observed: 0,
                completed: 0,
                enqueued: 0,
                persisted: 0,
                dropped: 0,
                oversized: 0,
                interrupted: 0,
                storage_failed: 0,
                writer_alive: true,
            }),
    {
        Counters {
            observed: 0,
            completed: 0,
            enqueued: 0,
            persisted: 0,
            dropped: 0,
            oversized: 0,
            interrupted: 0,
            storage_failed: 0,
            writer_alive: true,
        }
    }

    /// Counts one more thing.
    pub fn record(&mut self, tally: Tally)
        ensures
            *final(self) == old(self).counted(tally),
    {
        match tally {
            Tally::Observed => self.observed = self.observed.wrapping_add(1),
            Tally::Completed => self.completed = self.completed.wrapping_add(1),
            Tally::Enqueued => self.enqueued = self.enqueued.wrapping_add(1),
            Tally::Persisted => self.persisted = self.persisted.wrapping_add(1),
            Tally::Dropped => self.dropped = self.dropped.wrapping_add(1),
            Tally::Oversized => self.oversized = self.oversized.wrapping_add(1),
            Tally::Interrupted => self.interrupted = self.interrupted.wrapping_add(1),
            Tally::StorageFailed => self.storage_failed = self.storage_failed.wrapping_add(1),
        }
    }
}

/// The count after a count.
pub open spec fn next_count(count: u64) -> u64 {
    if count == u64::MAX {
        0
    } else {
        (count + 1) as u64
    }
}

/// The byte strings that mark the end of a stream of events.
pub open spec fn markers() -> Seq<Seq<u8>> {
    seq![
        encode_utf8("data: [DONE]"@),
        encode_utf8("event: response.completed"@),
        encode_utf8("event: response.failed"@),
        encode_utf8("event: response.incomplete"@),
    ]
}

/// A byte string stands in another at an index.
pub open spec fn stands_at(bytes: Seq<u8>, part: Seq<u8>, i: int) -> bool {
    0 <= i <= bytes.len() - part.len() && bytes.subrange(i, i + part.len()) == part
}

/// A byte string stands somewhere in another.
pub open spec fn holds(bytes: Seq<u8>, part: Seq<u8>) -> bool {
    exists|i: int| stands_at(bytes, part, i)
}

/// A marker of the end stands somewhere in the bytes.
pub open spec fn has_marker(bytes: Seq<u8>) -> bool {
    exists|m: int| 0 <= m < markers().len() && holds(bytes, #[trigger] markers()[m])
}

/// How many bytes are remembered in search of a marker: one less than the longest has.
pub const TAIL_LIMIT: usize = 25;

/// The last bytes, as many as are remembered.
pub open spec fn tail_of(bytes: Seq<u8>) -> Seq<u8> {
    if bytes.len() <= TAIL_LIMIT {
        bytes
    } else {
        bytes.skip(bytes.len() - TAIL_LIMIT)
    }
}

/// The search for a marker: whether one was seen, and what is remembered.
pub open spec fn search_step(seen: bool, tail: Seq<u8>, bytes: Seq<u8>) -> (bool, Seq<u8>) {
    if seen || bytes.len() == 0 {
        (seen, tail)
    } else if has_marker(tail + bytes) {
        (true, Seq::empty())
    } else {
        (false, tail_of(tail + bytes))
    }
}

/// The search for a marker after a whole stream.
pub open spec fn search_state(stream: Seq<u8>) -> (bool, Seq<u8>) {
    if has_marker(stream) {
        (true, Seq::empty())
    } else {
        (false, tail_of(stream))
    }
}

/// No marker is longer than what is remembered and one byte more.
proof fn lemma_marker_lengths()
    ensures
        markers().len() == 4,
        forall|m: int| 0 <= m < 4 ==> 0 < (#[trigger] markers()[m]).len() <= TAIL_LIMIT + 1,
{
    reveal_strlit("data: [DONE]");
    reveal_strlit("event: response.completed");
    reveal_strlit("event: response.failed");
    reveal_strlit("event: response.incomplete");
    vstd::utf8::is_ascii_chars_encode_utf8("data: [DONE]"@);
    vstd::utf8::is_ascii_chars_encode_utf8("event: response.completed"@);
    vstd::utf8::is_ascii_chars_encode_utf8("event: response.failed"@);
    vstd::utf8::is_ascii_chars_encode_utf8("event: response.incomplete"@);
    assert forall|m: int| 0 <= m < 4 implies 0 < (#[trigger] markers()[m]).len() <= TAIL_LIMIT
        + 1 by {
        assert(m == 0 || m == 1 || m == 2 || m == 3);
    }
}

/// A marker that stands in a stream still stands there when more follows.
proof fn lemma_markers_stay(stream: Seq<u8>, more: Seq<u8>)
    requires
        has_marker(stream),
    ensures
        has_marker(stream + more),
{
    let m = choose|m: int| 0 <= m < markers().len() && holds(stream, #[trigger] markers()[m]);
    let part = markers()[m];
    let i = choose|i: int| stands_at(stream, part, i);
    assert((stream + more).subrange(i, i + part.len()) =~= stream.subrange(i, i + part.len()));
    assert(stands_at(stream + more, part, i));
    assert(holds(stream + more, markers()[m]));
}

/// In a stream without a marker, one that more bytes complete is found in what is remembered and
/// those bytes.
proof fn lemma_tail_is_enough(stream: Seq<u8>, more: Seq<u8>)
    requires
        !has_marker(stream),
    ensures
        has_marker(tail_of(stream) + more) == has_marker(stream + more),
        tail_of(tail_of(stream) + more) == tail_of(stream + more),
{
    lemma_marker_lengths();
    let tail = tail_of(stream);
    let offset = stream.len() - tail.len();
    let whole = stream + more;
    assert(whole.skip(offset) =~= tail + more);
    if has_marker(tail + more) {
        let m = choose|m: int|
            0 <= m < markers().len() && holds(tail + more, #[trigger] markers()[m]);
        let part = markers()[m];
        let i = choose|i: int| stands_at(tail + more, part, i);
        assert(whole.subrange(i + offset, i + offset + part.len()) =~= (tail + more).subrange(
            i,
            i + part.len(),
        ));
        assert(stands_at(whole, part, i + offset));
        assert(holds(whole, markers()[m]));
    }
    if has_marker(whole) {
        let m = choose|m: int| 0 <= m < markers().len() && holds(whole, #[trigger] markers()[m]);
        let part = markers()[m];
        let i = choose|i: int| stands_at(whole, part, i);
        if i + part.len() <= stream.len() {
            assert(stream.subrange(i, i + part.len()) =~= whole.subrange(i, i + part.len()));
            assert(stands_at(stream, part, i));
            assert(holds(stream, markers()[m]));
            assert(false);
        }
        assert(i >= offset);
        assert((tail + more).subrange(i - offset, i - offset + part.len()) =~= whole.subrange(
            i,
            i + part.len(),
        ));
        assert(stands_at(tail + more, part, i - offset));
        assert(holds(tail + more, markers()[m]));
    }
    assert(tail_of(tail + more) =~= tail_of(whole));
}

/// The search does not depend on how a stream is cut: after any chunk its state is that of the
/// whole stream so far, and a marker is seen exactly where one stands in the stream, be it across
/// chunks.
pub proof fn law_a_marker_is_seen_across_chunks(stream: Seq<u8>, chunk: Seq<u8>)
    ensures
        search_step(search_state(stream).0, search_state(stream).1, chunk) == search_state(
            stream + chunk,
        ),
        search_state(stream).0 == has_marker(stream),
{
    if chunk.len() == 0 {
        assert(stream + chunk =~= stream);
    } else if has_marker(stream) {
        lemma_markers_stay(stream, chunk);
    } else {
        lemma_tail_is_enough(stream, chunk);
    }
}

/// A search that has not begun is that of an empty stream.
pub proof fn law_a_search_begins_empty()
    ensures
        search_state(Seq::empty()) == (false, Seq::<u8>::empty()),
{
    lemma_marker_lengths();
    if has_marker(Seq::empty()) {
        let m = choose|m: int|
            0 <= m < markers().len() && holds(Seq::empty(), #[trigger] markers()[m]);
        let i = choose|i: int| stands_at(Seq::empty(), markers()[m], i);
        assert(stands_at(Seq::empty(), markers()[m], i));
    }
}

/// Whether a byte string stands somewhere in another.
pub fn contains_bytes(bytes: &[u8], part: &[u8]) -> (result: bool)
    ensures
        result == holds(bytes@, part@),
{
    if part.len() > bytes.len() {
        return false;
    }
    let last: usize = bytes.len() - part.len();
    let mut i: usize = 0;
    while i <= last
        invariant
            last == bytes@.len() - part@.len(),
            0 <= i <= last + 1,
            bytes@.len() <= usize::MAX,
            forall|k: int| 0 <= k < i ==> !stands_at(bytes@, part@, k),
        decreases last + 1 - i,
    {
        let mut matched: usize = 0;
        while matched < part.len() && bytes[i + matched] == part[matched]
            invariant
                matched <= part@.len(),
                i <= last,
                bytes@.len() <= usize::MAX,
                last == bytes@.len() - part@.len(),
                forall|k: int| 0 <= k < matched ==> bytes@[i + k] == part@[k],
            decreases part@.len() - matched,
        {
            matched = matched + 1;
        }
        if matched == part.len() {
            assert(bytes@.subrange(i as int, i + part@.len()) =~= part@);
            assert(stands_at(bytes@, part@, i as int));
            return true;
        }
        assert(!stands_at(bytes@, part@, i as int)) by {
            if stands_at(bytes@, part@, i as int) {
                assert(bytes@.subrange(i as int, i + part@.len())[matched as int]
                    == part@[matched as int]);
            }
        }
        i = i + 1;
    }
    false
}

/// Whether a marker of the end stands somewhere in the bytes.
pub fn contains_marker(bytes: &[u8]) -> (result: bool)
    ensures
        result == has_marker(bytes@),
{
    let done = contains_bytes(bytes, "data: [DONE]".as_bytes());
    let completed = contains_bytes(bytes, "event: response.completed".as_bytes());
    let failed = contains_bytes(bytes, "event: response.failed".as_bytes());
    let incomplete = contains_bytes(bytes, "event: response.incomplete".as_bytes());
    proof {
        assert(holds(bytes@, markers()[0]) == done);
        assert(holds(bytes@, markers()[1]) == completed);
        assert(holds(bytes@, markers()[2]) == failed);
        assert(holds(bytes@, markers()[3]) == incomplete);
        if has_marker(bytes@) {
            let m = choose|m: int|
                0 <= m < markers().len() && holds(bytes@, #[trigger] markers()[m]);
            assert(m == 0 || m == 1 || m == 2 || m == 3);
        }
    }
    done || completed || failed || incomplete
}

/// How many bytes of the capture memory some shares take.
pub open spec fn share_total(memory: Seq<MemoryPermit>) -> nat
    decreases memory.len(),
{
    if memory.len() == 0 {
        0
    } else {
        share_total(memory.drop_last()) + memory.last().bytes as nat
    }
}

/// What passes by the recorder.
pub enum BodyEvent<'a> {
    /// A part of the response.
    Chunk(&'a [u8]),
    /// The upstream failed.
    Failed,
    /// The upstream ended.
    Ended,
    /// Nobody takes the response any more.
    Abandoned,
}

/// What is passed on of a response.
#[derive(Clone, Copy, Debug, PartialEq, Eq)]
pub enum Passed<'a> {
    Bytes(&'a [u8]),
    /// The response breaks off.
    Failed,
    Ended,
    /// There is nobody to pass it to.
    Nothing,
}

/// What is passed on of a response, as bytes.
pub enum PassedView {
    Bytes(Seq<u8>),
    Failed,
    Ended,
    Nothing,
}

impl<'a> View for Passed<'a> {
    type V = PassedView;

    open spec fn view(&self) -> PassedView {
        match self {
            Passed::Bytes(bytes) => PassedView::Bytes(bytes@),
            Passed::Failed => PassedView::Failed,
            Passed::Ended => PassedView::Ended,
            Passed::Nothing => PassedView::Nothing,
        }
    }
}

/// What is passed on of an event: the bytes of a chunk as they are, and how the upstream ended.
pub open spec fn passed_on(event: BodyEvent) -> PassedView {
    match event {
        BodyEvent::Chunk(bytes) => PassedView::Bytes(bytes@),
        BodyEvent::Failed => PassedView::Failed,
        BodyEvent::Ended => PassedView::Ended,
        BodyEvent::Abandoned => PassedView::Nothing,
    }
}

/// What comes of an event of a response.
pub struct Followed<'a> {
    pub passed: Passed<'a>,
    /// What is counted.
    pub tallies: Vec<Tally>,
}

/// How a response ended.
pub enum Ending {
    /// It had ended before.
    Repeated,
    Interrupted,
    /// It is whole, and is not kept.
    Unrecorded,
    /// It is whole, and the moment has no canonical text.
    Unstamped,
    /// It is whole, and is to be kept.
    Recorded(CaptureJob),
}

/// How a response ended.
pub enum EndingView {
    Repeated,
    Interrupted,
    Unrecorded,
    Unstamped,
    /// The exchange that is to be kept, and the capture memory that comes with it, in bytes.
    Recorded(JobView, nat),
}

impl View for Ending {
    type V = EndingView;

    open spec fn view(&self) -> EndingView {
        match self {
            Ending::Repeated => EndingView::Repeated,
            Ending::Interrupted => EndingView::Interrupted,
            Ending::Unrecorded => EndingView::Unrecorded,
            Ending::Unstamped => EndingView::Unstamped,
            Ending::Recorded(job) => EndingView::Recorded(job@, share_total(job.memory@)),
        }
    }
}

impl EndingView {
    /// What is counted when a response ends. `taken` says whether the channel took the exchange,
    /// where there is one to be kept.
    pub open spec fn tallies(self, taken: bool) -> Seq<Tally> {
        match self {
            EndingView::Repeated => Seq::empty(),
            EndingView::Interrupted => seq![Tally::Interrupted],
            EndingView::Unrecorded => seq![Tally::Completed],
            EndingView::Unstamped => seq![Tally::Completed, Tally::Dropped],
            EndingView::Recorded(_, _) => if taken {
                seq![Tally::Completed, Tally::Enqueued]
            } else {
                seq![Tally::Completed, Tally::Dropped]
            },
        }
    }

    /// What the channel is offered when a response ends: the exchange that is to be kept, and
    /// nothing else.
    pub open spec fn offers(self, taken: bool) -> Seq<Offer> {
        match self {
            EndingView::Recorded(job, reserved) => seq![(Offer { job, reserved, taken })],
            _ => Seq::empty(),
        }
    }
}

/// What is counted when a response ends, given whether the channel took the exchange.
pub fn tallies_of(ending: &Ending, taken: bool) -> (result: Vec<Tally>)
    ensures
        result@ == ending@.tallies(taken),
{
    let mut tallies: Vec<Tally> = Vec::new();
    match ending {
        Ending::Repeated => {},
        Ending::Interrupted => tallies.push(Tally::Interrupted),
        Ending::Unrecorded => tallies.push(Tally::Completed),
        Ending::Unstamped => {
            tallies.push(Tally::Completed);
            tallies.push(Tally::Dropped);
        },
        Ending::Recorded(_) => {
            tallies.push(Tally::Completed);
            if taken {
                tallies.push(Tally::Enqueued);
            } else {
                tallies.push(Tally::Dropped);
            }
        },
    }
    assert(tallies@ =~= ending@.tallies(taken));
    tallies
}

/// Follows one response, and keeps it where it is to be captured.
pub struct ResponseRecorder {
    pub seed: Option<CaptureSeed>,
    pub response: Vec<u8>,
    pub memory: Vec<MemoryPermit>,
    pub capture_tx: tokio::sync::mpsc::Sender<CaptureJob>,
    pub capture_memory: Arc<tokio::sync::Semaphore>,
    pub started: std::time::Instant,
    /// Nanoseconds from the start to the first byte.
    pub first_byte: Option<u128>,
    pub max_response_bytes: usize,
    pub exchange_id: Uuid,
    pub expected_response_bytes: Option<usize>,
    pub observed_response_bytes: usize,
    pub stream_terminal_seen: bool,
    pub stream_terminal_tail: Vec<u8>,
    pub finished: bool,
}

/// What a recorder holds.
pub struct RecorderView {
    pub seed: Option<SeedView>,
    pub response: Seq<u8>,
    /// The capture memory that is reserved, in bytes.
    pub reserved: nat,
    /// The channel that captures go to.
    pub channel: int,
    /// What the channel was offered.
    pub offers: Seq<Offer>,
    /// The semaphore that the capture memory comes from.
    pub semaphore: int,
    /// What was asked of the capture memory.
    pub requests: Seq<MemoryRequest>,
    pub started: std::time::Instant,
    pub first_byte: Option<u128>,
    pub max_response_bytes: usize,
    pub exchange_id: Uuid,
    pub expected_response_bytes: Option<usize>,
    pub observed_response_bytes: usize,
    pub seen: bool,
    pub tail: Seq<u8>,
    pub finished: bool,
}

/// What is known of an exchange, where it is to be captured.
pub open spec fn seed_view(seed: Option<CaptureSeed>) -> Option<SeedView> {
    match seed {
        Some(seed) => Some(seed@),
        None => None,
    }
}

impl View for ResponseRecorder {
    type V = RecorderView;

    open spec fn view(&self) -> RecorderView {
        RecorderView {
            seed: seed_view(self.seed),
            response: self.response@,
            reserved: share_total(self.memory@),
            channel: channel_of(self.capture_tx),
            offers: offers_through(self.capture_tx),
            semaphore: semaphore_of(self.capture_memory),
            requests: requests_through(self.capture_memory),
            started: self.started,
            first_byte: self.first_byte,
            max_response_bytes: self.max_response_bytes,
            exchange_id: self.exchange_id,
            expected_response_bytes: self.expected_response_bytes,
            observed_response_bytes: self.observed_response_bytes,
            seen: self.stream_terminal_seen,
            tail: self.stream_terminal_tail@,
            finished: self.finished,
        }
    }
}

/// The sum of two sizes, as far as it can be written.
pub open spec fn saturating_sum(a: usize, b: nat) -> usize {
    if a + b <= usize::MAX {
        (a + b) as usize
    } else {
        usize::MAX
    }
}

impl RecorderView {
    /// The memory that is reserved is that of the bodies that are kept; where nothing is captured
    /// nothing is kept; and no more is kept than is allowed.
    pub open spec fn well_formed(self) -> bool {
        &&& self.max_response_bytes <= LARGEST_MAX_RESPONSE_BYTES
        &&& self.response.len() <= self.max_response_bytes
        &&& match self.seed {
            Some(seed) => self.reserved == seed.request.len() + self.response.len(),
            None => self.response.len() == 0 && self.reserved == 0,
        }
        &&& self.finished ==> self.seed is None
        &&& self.tail.len() <= TAIL_LIMIT
    }

    /// Once a chunk was seen: its size is counted, a marker is searched, and the time of the first
    /// byte is kept.
    pub open spec fn noted(self, bytes: Seq<u8>, elapsed: u128) -> RecorderView {
        RecorderView {
            first_byte: if self.first_byte is None && bytes.len() > 0 {
                Some(elapsed)
            } else {
                self.first_byte
            },
            observed_response_bytes: saturating_sum(self.observed_response_bytes, bytes.len()),
            seen: search_step(self.seen, self.tail, bytes).0,
            tail: search_step(self.seen, self.tail, bytes).1,
            ..self
        }
    }

    /// Once nothing more is captured: what was kept is let go, and its memory given back.
    pub open spec fn uncaptured(self) -> RecorderView {
        RecorderView { seed: None, response: Seq::empty(), reserved: 0, ..self }
    }

    /// Once the capture memory was asked for some bytes.
    pub open spec fn asked(self, count: nat, granted: bool) -> RecorderView {
        RecorderView { requests: self.requests.push(MemoryRequest { count, granted }), ..self }
    }

    /// Once a chunk passed. Memory is asked for a chunk that is to be kept; `granted` says whether
    /// it was to be had.
    pub open spec fn after_chunk(self, bytes: Seq<u8>, elapsed: u128, granted: bool) -> (
        RecorderView,
        Option<Tally>,
    ) {
        let noted = self.noted(bytes, elapsed);
        let asked = noted.asked(bytes.len(), granted);
        if self.seed is None || bytes.len() == 0 {
            (noted, None)
        } else if self.response.len() + bytes.len() > self.max_response_bytes {
            (noted.uncaptured(), Some(Tally::Oversized))
        } else if granted {
            (
                RecorderView {
                    response: self.response + bytes,
                    reserved: self.reserved + bytes.len(),
                    ..asked
                },
                None,
            )
        } else {
            (asked.uncaptured(), Some(Tally::Dropped))
        }
    }

    /// The response is whole: it has the size that was announced, or a marker of its end was seen.
    pub open spec fn complete(self) -> bool {
        self.expected_response_bytes == Some(self.observed_response_bytes) || self.seen
    }

    /// Once the response ended.
    pub open spec fn ended(self) -> RecorderView {
        if self.finished {
            self
        } else {
            RecorderView { finished: true, ..self.uncaptured() }
        }
    }

    /// The exchange that is to be kept once the response ended.
    pub open spec fn job(self, completed_at: Seq<char>, elapsed: u128) -> JobView {
        JobView {
            seed: self.seed->Some_0,
            completed_at,
            response: self.response,
            ttft_ms: match self.first_byte {
                Some(nanos) => Some(millis(nanos)),
                None => None,
            },
            total_ms: millis(elapsed),
        }
    }

    /// How the response ends, at a moment that may have a canonical text and at a time since the
    /// start.
    pub open spec fn ending(
        self,
        interrupted: bool,
        completed_at: Option<Seq<char>>,
        elapsed: u128,
    ) -> EndingView {
        if self.finished {
            EndingView::Repeated
        } else if interrupted {
            EndingView::Interrupted
        } else if self.seed is None {
            EndingView::Unrecorded
        } else {
            match completed_at {
                None => EndingView::Unstamped,
                Some(completed_at) => EndingView::Recorded(
                    self.job(completed_at, elapsed),
                    self.reserved,
                ),
            }
        }
    }

    /// Once the response ended at a moment, in nanoseconds since the epoch: the channel was offered
    /// what is to be kept. With it, what is counted. `taken` says whether the channel took it.
    pub open spec fn after_end(
        self,
        interrupted: bool,
        moment: i128,
        elapsed: u128,
        taken: bool,
    ) -> (RecorderView, Seq<Tally>) {
        let ending = self.ending(interrupted, rfc3339_of(moment), elapsed);
        (
            RecorderView { offers: self.offers + ending.offers(taken), ..self.ended() },
            ending.tallies(taken),
        )
    }

    /// Whether an event ends the response too early.
    pub open spec fn interrupted_by(self, event: BodyEvent) -> bool {
        match event {
            BodyEvent::Failed => true,
            BodyEvent::Abandoned => !self.complete(),
            _ => false,
        }
    }

    /// What an event does, and what is counted, given what the clocks read, whether memory was
    /// granted, and whether the channel took the exchange.
    pub open spec fn event_step(
        self,
        event: BodyEvent,
        next: RecorderView,
        tallies: Seq<Tally>,
        elapsed: u128,
        granted: bool,
        moment: i128,
        taken: bool,
    ) -> bool {
        match event {
            BodyEvent::Chunk(bytes) => {
                let (after, tally) = self.after_chunk(bytes@, elapsed, granted);
                &&& next == after
                &&& tallies == match tally {
                    Some(tally) => seq![tally],
                    None => Seq::empty(),
                }
            },
            _ => (next, tallies) == self.after_end(
                self.interrupted_by(event),
                moment,
                elapsed,
                taken,
            ),
        }
    }
}

impl RecorderView {
    /// What comes of an event: the next state, what is counted, and what is passed on.
    pub open spec fn follows(
        self,
        event: BodyEvent,
        next: RecorderView,
        tallies: Seq<Tally>,
        passed: PassedView,
    ) -> bool {
        &&& passed == passed_on(event)
        &&& exists|elapsed: u128, granted: bool, moment: i128, taken: bool|
            self.event_step(event, next, tallies, elapsed, granted, moment, taken)
    }
}

/// Whole milliseconds of a span in nanoseconds, as far as they can be written.
pub open spec fn millis(nanos: u128) -> u64 {
    if nanos / 1_000_000 <= u64::MAX {
        (nanos / 1_000_000) as u64
    } else {
        u64::MAX
    }
}

impl ResponseRecorder {
    /// A recorder at the beginning of a response. Where the exchange is to be captured, the memory
    /// of its request is reserved.
    pub fn new(
        seed: Option<(CaptureSeed, MemoryPermit)>,
        capture_tx: tokio::sync::mpsc::Sender<CaptureJob>,
        capture_memory: Arc<tokio::sync::Semaphore>,
        started: std::time::Instant,
        first_byte: Option<u128>,
        max_response_bytes: usize,
        exchange_id: Uuid,
        expected_response_bytes: Option<usize>,
    ) -> (result: ResponseRecorder)
        requires
            max_response_bytes <= LARGEST_MAX_RESPONSE_BYTES,
            seed matches Some((seed, share)) ==> share.bytes == seed.request@.len(),
        ensures
            result@.well_formed(),
            result@ == (RecorderView {
                seed: match seed {
                    Some((seed, _)) => Some(seed@),
                    None => None,
                },
                response: Seq::empty(),
                reserved: match seed {
                    Some((seed, _)) => seed.request@.len(),
                    None => 0,
                },
                channel: channel_of(capture_tx),
                offers: offers_through(capture_tx),
                semaphore: semaphore_of(capture_memory),
                requests: requests_through(capture_memory),
                started,
                first_byte,
                max_response_bytes,
                exchange_id,
                expected_response_bytes,
                observed_response_bytes: 0,
                seen: false,
                tail: Seq::empty(),
                finished: false,
            }),
    {
        let mut memory: Vec<MemoryPermit> = Vec::new();
        let kept = match seed {
            Some((seed, share)) => {
                memory.push(share);
                assert(share_total(memory@.drop_last()) == 0);
                Some(seed)
            },
            None => None,
        };
        ResponseRecorder {
            seed: kept,
            response: Vec::new(),
            memory,
            capture_tx,
            capture_memory,
            started,
            first_byte,
            max_response_bytes,
            exchange_id,
            expected_response_bytes,
            observed_response_bytes: 0,
            stream_terminal_seen: false,
            stream_terminal_tail: Vec::new(),
            finished: false,
        }
    }

    /// Searches a chunk, after what is remembered, for a marker of the end.
    pub fn observe_stream_terminal(&mut self, bytes: &[u8])
        requires
            old(self)@.tail.len() <= TAIL_LIMIT,
        ensures
            final(self)@ == (RecorderView {
                seen: search_step(old(self)@.seen, old(self)@.tail, bytes@).0,
                tail: search_step(old(self)@.seen, old(self)@.tail, bytes@).1,
                ..old(self)@
            }),
            final(self)@.tail.len() <= TAIL_LIMIT,
    {
        if self.stream_terminal_seen || bytes.len() == 0 {
            return;
        }
        let mut scan: Vec<u8> = Vec::new();
        scan.extend_from_slice(self.stream_terminal_tail.as_slice());
        scan.extend_from_slice(bytes);
        assert(scan@ =~= old(self)@.tail + bytes@);
        if contains_marker(scan.as_slice()) {
            self.stream_terminal_seen = true;
            self.stream_terminal_tail = Vec::new();
            return;
        }
        let start: usize = if scan.len() > TAIL_LIMIT {
            scan.len() - TAIL_LIMIT
        } else {
            0
        };
        let tail = scan.split_off(start);
        self.stream_terminal_tail = tail;
        assert(self.stream_terminal_tail@ =~= tail_of(old(self)@.tail + bytes@));
    }

    /// Notes that a chunk was seen, at a time since the start.
    pub fn note(&mut self, bytes: &[u8], elapsed: u128)
        requires
            old(self)@.tail.len() <= TAIL_LIMIT,
        ensures
            final(self)@ == old(self)@.noted(bytes@, elapsed),
            final(self)@.tail.len() <= TAIL_LIMIT,
    {
        if self.first_byte.is_none() && bytes.len() > 0 {
            self.first_byte = Some(elapsed);
        }
        self.observed_response_bytes = self.observed_response_bytes.saturating_add(bytes.len());
        self.observe_stream_terminal(bytes);
    }

    /// Lets go what was kept, and says what is counted.
    pub fn disable_capture(&mut self, oversized: bool) -> (result: Tally)
        ensures
            final(self)@ == old(self)@.uncaptured(),
            result == if oversized {
                Tally::Oversized
            } else {
                Tally::Dropped
            },
    {
        self.seed = None;
        self.response = Vec::new();
        self.memory = Vec::new();
        if oversized {
            Tally::Oversized
        } else {
            Tally::Dropped
        }
    }

    /// Keeps a chunk with the memory that was granted for it, or lets go what was kept.
    pub fn keep(&mut self, bytes: &[u8], share: Option<MemoryPermit>) -> (result: Option<Tally>)
        requires
            old(self)@.seed is Some,
            share matches Some(share) ==> share.bytes == bytes@.len(),
        ensures
            match share {
                Some(share) => final(self)@ == (RecorderView {
                    response: old(self)@.response + bytes@,
                    reserved: old(self)@.reserved + bytes@.len(),
                    ..old(self)@
                }) && result is None,
                None => final(self)@ == old(self)@.uncaptured() && result == Some(Tally::Dropped),
            },
    {
        match share {
            Some(share) => {
                self.memory.push(share);
                assert(self.memory@.drop_last() =~= old(self).memory@);
                self.response.extend_from_slice(bytes);
                assert(self.response@ =~= old(self)@.response + bytes@);
                None
            },
            None => Some(self.disable_capture(false)),
        }
    }

    /// Follows a chunk of the response.
    pub fn observe(&mut self, bytes: &[u8]) -> (result: Option<Tally>)
        requires
            old(self)@.well_formed(),
        ensures
            final(self)@.well_formed(),
            exists|elapsed: u128, granted: bool|
                #[trigger] old(self)@.after_chunk(bytes@, elapsed, granted) == (final(self)@, result),
    {
        let ghost before = self@;
        let elapsed: u128 = nanos_since(&self.started);
        self.note(bytes, elapsed);
        if self.seed.is_none() || bytes.len() == 0 {
            assert(before.after_chunk(bytes@, elapsed, true) == (self@, None::<Tally>));
            return None;
        }
        if bytes.len() > self.max_response_bytes - self.response.len() {
            let tally = self.disable_capture(true);
            assert(before.after_chunk(bytes@, elapsed, true) == (self@, Some(tally)));
            return Some(tally);
        }
        let share = try_acquire(&mut self.capture_memory, bytes.len() as u32);
        let ghost granted = share is Some;
        let tally = self.keep(bytes, share);
        assert(before.after_chunk(bytes@, elapsed, granted) == (self@, tally));
        tally
    }

    /// Whether the response is whole.
    pub fn response_complete(&self) -> (result: bool)
        ensures
            result == self@.complete(),
    {
        let announced = match self.expected_response_bytes {
            Some(expected) => expected == self.observed_response_bytes,
            None => false,
        };
        announced || self.stream_terminal_seen
    }

    /// Ends the response, at a moment and at a time since the start.
    pub fn conclude(&mut self, interrupted: bool, completed_at: Option<String>, elapsed: u128) -> (
    result: Ending)
        requires
            old(self)@.well_formed(),
        ensures
            final(self)@ == old(self)@.ended(),
            final(self)@.well_formed(),
            result@ == old(self)@.ending(interrupted, optional_text(completed_at), elapsed),
    {
        if self.finished {
            return Ending::Repeated;
        }
        self.finished = true;
        let seed = self.seed.take();
        let mut response: Vec<u8> = Vec::new();
        let mut memory: Vec<MemoryPermit> = Vec::new();
        std::mem::swap(&mut response, &mut self.response);
        std::mem::swap(&mut memory, &mut self.memory);
        if interrupted {
            return Ending::Interrupted;
        }
        let seed = match seed {
            Some(seed) => seed,
            None => return Ending::Unrecorded,
        };
        let completed_at = match completed_at {
            Some(completed_at) => completed_at,
            None => return Ending::Unstamped,
        };
        Ending::Recorded(
            CaptureJob {
                seed,
                completed_at,
                response,
                ttft_ms: match self.first_byte {
                    Some(nanos) => Some(duration_ms(nanos)),
                    None => None,
                },
                total_ms: duration_ms(elapsed),
                memory,
            },
        )
    }

    /// Ends the response now. Nothing is handed on yet.
    pub fn close(&mut self, interrupted: bool) -> (result: Ending)
        requires
            old(self)@.well_formed(),
        ensures
            final(self)@ == old(self)@.ended(),
            final(self)@.well_formed(),
            exists|moment: i128, elapsed: u128|
                result@ == #[trigger] old(self)@.ending(interrupted, rfc3339_of(moment), elapsed),
    {
        let completed_at = utc_now();
        let ghost moment = choose|moment: i128|
            optional_text(completed_at) == #[trigger] rfc3339_of(moment);
        let elapsed: u128 = nanos_since(&self.started);
        let ghost before = self@;
        let ending = self.conclude(interrupted, completed_at, elapsed);
        assert(ending@ == before.ending(interrupted, rfc3339_of(moment), elapsed));
        ending
    }

    /// Ends the response, offers the exchange to the channel where it is to be kept, and says what
    /// is counted.
    pub fn finish(&mut self, interrupted: bool) -> (result: Vec<Tally>)
        requires
            old(self)@.well_formed(),
        ensures
            final(self)@.well_formed(),
            exists|moment: i128, elapsed: u128, taken: bool|
                #[trigger] old(self)@.after_end(interrupted, moment, elapsed, taken) == (
                    final(self)@,
                    result@,
                ),
    {
        let ghost before = self@;
        let ending = self.close(interrupted);
        let ghost (moment, elapsed) = choose|moment: i128, elapsed: u128|
            ending@ == #[trigger] before.ending(interrupted, rfc3339_of(moment), elapsed);
        let where_taken = tallies_of(&ending, true);
        let elsewhere = tallies_of(&ending, false);
        match ending {
            Ending::Recorded(job) => {
                let taken = try_send(&mut self.capture_tx, job);
                assert(self@.offers =~= before.offers + ending@.offers(taken));
                assert(before.after_end(interrupted, moment, elapsed, taken).0 == self@);
                if taken {
                    where_taken
                } else {
                    elsewhere
                }
            },
            _ => {
                assert(self@.offers =~= before.offers + ending@.offers(false));
                assert(before.after_end(interrupted, moment, elapsed, false).0 == self@);
                elsewhere
            },
        }
    }

    /// Follows an event of the response, passes on what came, and says what is counted.
    pub fn follow<'a>(&mut self, event: BodyEvent<'a>) -> (result: Followed<'a>)
        requires
            old(self)@.well_formed(),
        ensures
            final(self)@.well_formed(),
            old(self)@.follows(event, final(self)@, result.tallies@, result.passed@),
    {
        let ghost before = self@;
        match event {
            BodyEvent::Chunk(bytes) => {
                let tally = self.observe(bytes);
                let mut tallies: Vec<Tally> = Vec::new();
                if let Some(tally) = tally {
                    tallies.push(tally);
                }
                proof {
                    let (elapsed, granted) = choose|elapsed: u128, granted: bool|
                        #[trigger] before.after_chunk(bytes@, elapsed, granted) == (self@, tally);
                    assert(tallies@ =~= match tally {
                        Some(tally) => seq![tally],
                        None => Seq::empty(),
                    });
                    assert(before.event_step(event, self@, tallies@, elapsed, granted, 0, true));
                }
                Followed { passed: Passed::Bytes(bytes), tallies }
            },
            BodyEvent::Failed => Followed {
                passed: Passed::Failed,
                tallies: self.finish_event(event, true),
            },
            BodyEvent::Ended => Followed {
                passed: Passed::Ended,
                tallies: self.finish_event(event, false),
            },
            BodyEvent::Abandoned => {
                let interrupted = !self.response_complete();
                Followed { passed: Passed::Nothing, tallies: self.finish_event(event, interrupted) }
            },
        }
    }

    /// Ends the response with an event.
    fn finish_event(&mut self, event: BodyEvent, interrupted: bool) -> (result: Vec<Tally>)
        requires
            old(self)@.well_formed(),
            event !is Chunk,
            interrupted == old(self)@.interrupted_by(event),
        ensures
            final(self)@.well_formed(),
            exists|elapsed: u128, granted: bool, moment: i128, taken: bool|
                old(self)@.event_step(
                    event,
                    final(self)@,
                    result@,
                    elapsed,
                    granted,
                    moment,
                    taken,
                ),
    {
        let ghost before = self@;
        let tallies = self.finish(interrupted);
        proof {
            let (moment, elapsed, taken) = choose|moment: i128, elapsed: u128, taken: bool|
                #[trigger] before.after_end(interrupted, moment, elapsed, taken) == (
                    self@,
                    tallies@,
                );
            assert(before.event_step(event, self@, tallies@, elapsed, true, moment, taken));
        }
        tallies
    }
}

/// What is counted when a response ends: exactly one of completed and interrupted, and for one that
/// had ended before nothing.
pub proof fn law_a_response_is_counted_once(
    recorder: RecorderView,
    event: BodyEvent,
    next: RecorderView,
    tallies: Seq<Tally>,
    elapsed: u128,
    granted: bool,
    moment: i128,
    taken: bool,
)
    requires
        recorder.event_step(event, next, tallies, elapsed, granted, moment, taken),
    ensures
        event !is Chunk ==> next.finished,
        event !is Chunk && recorder.finished ==> next == recorder && tallies.len() == 0,
        event !is Chunk && !recorder.finished ==> {
            &&& tallies.len() > 0
            &&& tallies[0] == Tally::Completed || tallies[0] == Tally::Interrupted
            &&& tallies.skip(1) == Seq::<Tally>::empty() || tallies.skip(1) == seq![Tally::Enqueued]
                || tallies.skip(1) == seq![Tally::Dropped]
        },
        event is Chunk ==> next.finished == recorder.finished && !tallies.contains(Tally::Completed)
            && !tallies.contains(Tally::Interrupted),
{
    if event !is Chunk && !recorder.finished {
        let rest = tallies.skip(1);
        if tallies.len() == 1 {
            assert(rest =~= Seq::empty());
        } else if tallies[1] == Tally::Enqueued {
            assert(rest =~= seq![Tally::Enqueued]);
        } else {
            assert(rest =~= seq![Tally::Dropped]);
        }
    }
}

impl RecorderView {
    /// An event ends a response that is whole and was captured, at a moment that has a canonical
    /// text.
    pub open spec fn kept_by(self, event: BodyEvent, moment: i128) -> bool {
        &&& !self.finished
        &&& self.seed is Some
        &&& event is Ended || event is Abandoned && self.complete()
        &&& rfc3339_of(moment) is Some
    }
}

/// Exactly the exchanges whose response is whole are kept: such a one is offered to the channel
/// once, with all that was captured of it, and the channel is offered nothing else. So nothing is
/// handed on where the upstream failed, or where the response was abandoned before it had its
/// announced size or a marker of its end.
pub proof fn law_only_whole_responses_are_kept(
    recorder: RecorderView,
    event: BodyEvent,
    next: RecorderView,
    tallies: Seq<Tally>,
    elapsed: u128,
    granted: bool,
    moment: i128,
    taken: bool,
)
    requires
        recorder.event_step(event, next, tallies, elapsed, granted, moment, taken),
    ensures
        next.channel == recorder.channel,
        next.offers == if recorder.kept_by(event, moment) {
            recorder.offers.push(
                Offer {
                    job: recorder.job(rfc3339_of(moment)->Some_0, elapsed),
                    reserved: recorder.reserved,
                    taken,
                },
            )
        } else {
            recorder.offers
        },
{
    assert(recorder.offers + Seq::empty() =~= recorder.offers);
}

/// An exchange is counted as enqueued exactly where the channel took it, and where the channel
/// refused it as dropped.
pub proof fn law_what_the_channel_took_is_counted(
    recorder: RecorderView,
    event: BodyEvent,
    next: RecorderView,
    tallies: Seq<Tally>,
    elapsed: u128,
    granted: bool,
    moment: i128,
    taken: bool,
)
    requires
        recorder.event_step(event, next, tallies, elapsed, granted, moment, taken),
    ensures
        tallies.contains(Tally::Enqueued) <==> recorder.kept_by(event, moment)
            && next.offers.last().taken,
        recorder.kept_by(event, moment) && !next.offers.last().taken ==> tallies.contains(
            Tally::Dropped,
        ),
        !(tallies.contains(Tally::Enqueued) && tallies.contains(Tally::Dropped)),
{
    if recorder.kept_by(event, moment) {
        assert(tallies[1] == if taken {
            Tally::Enqueued
        } else {
            Tally::Dropped
        });
    }
}

/// What is kept of a response is what passed, chunk by chunk, with nothing left out; once something
/// was left out nothing is kept.
pub proof fn law_what_is_kept_is_what_passed(
    recorder: RecorderView,
    bytes: Seq<u8>,
    elapsed: u128,
    granted: bool,
)
    requires
        recorder.well_formed(),
    ensures
        ({
            let next = recorder.after_chunk(bytes, elapsed, granted).0;
            &&& next.well_formed()
            &&& next.seed is Some ==> next.seed == recorder.seed && next.response
                == recorder.response + bytes
            &&& next.seed is None ==> next.response.len() == 0 && next.reserved == 0
            &&& recorder.seed is None ==> next.seed is None
        }),
{
    if bytes.len() == 0 {
        assert(recorder.response + bytes =~= recorder.response);
    }
}

/// A response that ended holds no capture memory.
pub proof fn law_an_ended_response_holds_no_memory(recorder: RecorderView)
    requires
        recorder.well_formed(),
    ensures
        recorder.ended().finished,
        recorder.ended().reserved == 0,
        recorder.ended().seed is None,
{
}

/// What is counted of the ends of responses.
pub open spec fn endings(tallies: Seq<Tally>) -> nat
    decreases tallies.len(),
{
    if tallies.len() == 0 {
        0
    } else if tallies.last() == Tally::Completed || tallies.last() == Tally::Interrupted {
        endings(tallies.drop_last()) + 1
    } else {
        endings(tallies.drop_last())
    }
}

impl RecorderView {
    /// Some event leads from this state to the next, and this is what is counted.
    pub open spec fn leads_to(self, next: RecorderView, tallies: Seq<Tally>) -> bool {
        exists|
            event: BodyEvent,
            elapsed: u128,
            granted: bool,
            moment: i128,
            taken: bool,
        |
            self.event_step(event, next, tallies, elapsed, granted, moment, taken)
    }
}

/// The life of a response: its states, each but the first reached by an event, and all that is
/// counted on the way.
pub open spec fn is_life(states: Seq<RecorderView>, counted: Seq<Seq<Tally>>) -> bool {
    &&& states.len() == counted.len() + 1
    &&& forall|i: int|
        0 <= i < counted.len() ==> states[i].leads_to(states[i + 1], #[trigger] counted[i])
}

/// All that is counted in the life of a response, together.
pub open spec fn all_endings(counted: Seq<Seq<Tally>>) -> nat
    decreases counted.len(),
{
    if counted.len() == 0 {
        0
    } else {
        all_endings(counted.drop_last()) + endings(counted.last())
    }
}

/// What one event counts of the end of a response.
proof fn lemma_step_endings(recorder: RecorderView, next: RecorderView, tallies: Seq<Tally>)
    requires
        recorder.leads_to(next, tallies),
    ensures
        endings(tallies) == if next.finished && !recorder.finished {
            1nat
        } else {
            0nat
        },
        recorder.finished ==> next.finished,
{
    reveal_with_fuel(endings, 3);
    assert(endings(Seq::empty()) == 0);
    assert(tallies.len() <= 2);
    if tallies.len() == 1 {
        assert(tallies.drop_last() =~= Seq::empty());
    }
    if tallies.len() == 2 {
        assert(tallies.drop_last().drop_last() =~= Seq::empty());
        assert(tallies.drop_last().last() == tallies[0]);
    }
}

/// In the whole life of a response, however long and in whatever order its events come, exactly one
/// end is counted once it has ended, completed or interrupted, and none before.
pub proof fn law_a_life_has_one_end(states: Seq<RecorderView>, counted: Seq<Seq<Tally>>)
    requires
        is_life(states, counted),
        !states[0].finished,
    ensures
        all_endings(counted) == if states.last().finished {
            1nat
        } else {
            0nat
        },
    decreases counted.len(),
{
    if counted.len() > 0 {
        let before = states.drop_last();
        let earlier = counted.drop_last();
        assert forall|i: int| 0 <= i < earlier.len() implies before[i].leads_to(
            before[i + 1],
            #[trigger] earlier[i],
        ) by {
            assert(earlier[i] == counted[i]);
            assert(before[i] == states[i]);
            assert(before[i + 1] == states[i + 1]);
        }
        law_a_life_has_one_end(before, earlier);
        let last = counted.len() - 1;
        assert(counted[last] == counted.last());
        lemma_step_endings(states[last], states[last + 1], counted.last());
        assert(before.last() == states[last]);
    }
}

/// In the whole life of a response its exchange is offered to the channel at most once, and not
/// before the response ended.
pub proof fn law_a_life_is_kept_at_most_once(states: Seq<RecorderView>, counted: Seq<Seq<Tally>>)
    requires
        is_life(states, counted),
        !states[0].finished,
    ensures
        states.last().channel == states[0].channel,
        states.last().offers == states[0].offers || states.last().finished
            && states.last().offers.drop_last() == states[0].offers,
    decreases counted.len(),
{
    if counted.len() > 0 {
        let before = states.drop_last();
        let earlier = counted.drop_last();
        assert forall|i: int| 0 <= i < earlier.len() implies before[i].leads_to(
            before[i + 1],
            #[trigger] earlier[i],
        ) by {
            assert(earlier[i] == counted[i]);
            assert(before[i] == states[i]);
            assert(before[i + 1] == states[i + 1]);
        }
        law_a_life_is_kept_at_most_once(before, earlier);
        let last = counted.len() - 1;
        let (recorder, next) = (states[last], states[last + 1]);
        assert(recorder.leads_to(next, counted[last]));
        let (event, elapsed, granted, moment, taken) = choose|
            event: BodyEvent,
            elapsed: u128,
            granted: bool,
            moment: i128,
            taken: bool,
        |
            recorder.event_step(event, next, counted[last], elapsed, granted, moment, taken);
        law_only_whole_responses_are_kept(
            recorder,
            event,
            next,
            counted[last],
            elapsed,
            granted,
            moment,
            taken,
        );
        lemma_step_endings(recorder, next, counted[last]);
        if recorder.kept_by(event, moment) {
            assert(next.offers.drop_last() =~= recorder.offers);
        }
    }
}

/// Two recorders agree on everything but what concerns the capture: what was seen of the response,
/// and whether it ended.
pub open spec fn agree_but_for_capture(a: RecorderView, b: RecorderView) -> bool {
    &&& a.first_byte == b.first_byte
    &&& a.expected_response_bytes == b.expected_response_bytes
    &&& a.observed_response_bytes == b.observed_response_bytes
    &&& a.seen == b.seen
    &&& a.tail == b.tail
    &&& a.finished == b.finished
}

/// A capture that fails changes nothing of how a response is followed: whatever two recorders
/// captured, whether memory is granted, and whether the channel takes the exchange, after the same
/// event they have seen the same of the response, and count its end alike as completed or
/// interrupted.
pub proof fn law_a_failed_capture_changes_nothing_else(
    a: RecorderView,
    b: RecorderView,
    event: BodyEvent,
    next_a: RecorderView,
    next_b: RecorderView,
    tallies_a: Seq<Tally>,
    tallies_b: Seq<Tally>,
    elapsed: u128,
    granted_a: bool,
    granted_b: bool,
    moment: i128,
    taken_a: bool,
    taken_b: bool,
)
    requires
        agree_but_for_capture(a, b),
        a.event_step(event, next_a, tallies_a, elapsed, granted_a, moment, taken_a),
        b.event_step(event, next_b, tallies_b, elapsed, granted_b, moment, taken_b),
    ensures
        agree_but_for_capture(next_a, next_b),
        next_a.complete() == next_b.complete(),
        tallies_a.contains(Tally::Completed) == tallies_b.contains(Tally::Completed),
        tallies_a.contains(Tally::Interrupted) == tallies_b.contains(Tally::Interrupted),
{
    if event !is Chunk && !a.finished {
        assert(tallies_a[0] == tallies_b[0]);
        assert(tallies_a.contains(tallies_a[0]));
        assert(tallies_b.contains(tallies_b[0]));
    }
}

/// A chunk as it passes: its bytes, the time since the start, and whether memory for it was to be
/// had.
pub struct Passing {
    pub bytes: Seq<u8>,
    pub elapsed: u128,
    pub granted: bool,
}

/// The stream that chunks make.
pub open spec fn stream_of(chunks: Seq<Passing>) -> Seq<u8>
    decreases chunks.len(),
{
    if chunks.len() == 0 {
        Seq::empty()
    } else {
        stream_of(chunks.drop_last()) + chunks.last().bytes
    }
}

impl RecorderView {
    /// Once all chunks passed, one after another.
    pub open spec fn after_chunks(self, chunks: Seq<Passing>) -> RecorderView
        decreases chunks.len(),
    {
        if chunks.len() == 0 {
            self
        } else {
            let last = chunks.last();
            self.after_chunks(chunks.drop_last()).after_chunk(
                last.bytes,
                last.elapsed,
                last.granted,
            ).0
        }
    }
}

/// From the beginning of a response, however its stream is cut: what is kept of it, where anything
/// is kept, is the whole stream, the memory that is reserved is that of the request and the stream,
/// and a marker of the end was seen exactly where one stands in the stream.
pub proof fn law_a_recording_is_the_whole_stream(recorder: RecorderView, chunks: Seq<Passing>)
    requires
        recorder.well_formed(),
        recorder.response.len() == 0,
        !recorder.seen,
        recorder.tail.len() == 0,
    ensures
        ({
            let after = recorder.after_chunks(chunks);
            &&& after.well_formed()
            &&& after.seed is Some ==> {
                &&& after.seed == recorder.seed
                &&& after.response == stream_of(chunks)
                &&& after.reserved == after.seed->Some_0.request.len() + stream_of(chunks).len()
            }
            &&& after.seen == has_marker(stream_of(chunks))
            &&& (after.seen, after.tail) == search_state(stream_of(chunks))
        }),
    decreases chunks.len(),
{
    if chunks.len() == 0 {
        law_a_search_begins_empty();
        assert(recorder.tail =~= Seq::empty());
        assert(recorder.response =~= Seq::empty());
    } else {
        let before = chunks.drop_last();
        let last = chunks.last();
        law_a_recording_is_the_whole_stream(recorder, before);
        law_what_is_kept_is_what_passed(
            recorder.after_chunks(before),
            last.bytes,
            last.elapsed,
            last.granted,
        );
        law_a_marker_is_seen_across_chunks(stream_of(before), last.bytes);
    }
}

/// Over a whole stream too, captures that fail change nothing else: whatever memory was granted for
/// each chunk, the same has been seen of the response.
pub proof fn law_failed_captures_change_nothing_else_of_a_stream(
    a: RecorderView,
    b: RecorderView,
    chunks_a: Seq<Passing>,
    chunks_b: Seq<Passing>,
)
    requires
        agree_but_for_capture(a, b),
        chunks_a.len() == chunks_b.len(),
        forall|i: int|
            0 <= i < chunks_a.len() ==> (#[trigger] chunks_a[i]).bytes == chunks_b[i].bytes
                && chunks_a[i].elapsed == chunks_b[i].elapsed,
    ensures
        agree_but_for_capture(a.after_chunks(chunks_a), b.after_chunks(chunks_b)),
        a.after_chunks(chunks_a).complete() == b.after_chunks(chunks_b).complete(),
    decreases chunks_a.len(),
{
    if chunks_a.len() > 0 {
        assert forall|i: int| 0 <= i < chunks_a.drop_last().len() implies (
        #[trigger] chunks_a.drop_last()[i]).bytes == chunks_b.drop_last()[i].bytes
            && chunks_a.drop_last()[i].elapsed == chunks_b.drop_last()[i].elapsed by {
            assert(chunks_a.drop_last()[i] == chunks_a[i]);
        }
        law_failed_captures_change_nothing_else_of_a_stream(
            a,
            b,
            chunks_a.drop_last(),
            chunks_b.drop_last(),
        );
        assert(chunks_a[chunks_a.len() - 1].bytes == chunks_b[chunks_b.len() - 1].bytes);
    }
}

/// The capture memory that was granted, of what was asked.
pub open spec fn granted_total(requests: Seq<MemoryRequest>) -> nat
    decreases requests.len(),
{
    if requests.len() == 0 {
        0
    } else if requests.last().granted {
        granted_total(requests.drop_last()) + requests.last().count
    } else {
        granted_total(requests.drop_last())
    }
}

/// However a stream is cut, the memory that is reserved for it was asked of the one semaphore and
/// granted: as long as a response is captured, what is reserved grows by exactly what is granted.
pub proof fn law_reserved_memory_was_granted(recorder: RecorderView, chunks: Seq<Passing>)
    ensures
        ({
            let after = recorder.after_chunks(chunks);
            &&& after.semaphore == recorder.semaphore
            &&& after.seed is Some ==> after.reserved - recorder.reserved == granted_total(
                after.requests,
            ) - granted_total(recorder.requests)
            &&& recorder.seed is None ==> after.seed is None && after.requests == recorder.requests
        }),
    decreases chunks.len(),
{
    if chunks.len() > 0 {
        let last = chunks.last();
        let before = recorder.after_chunks(chunks.drop_last());
        law_reserved_memory_was_granted(recorder, chunks.drop_last());
        let request = MemoryRequest { count: last.bytes.len(), granted: last.granted };
        assert(before.requests.push(request).drop_last() =~= before.requests);
    }
}

/// A response from one event to the next: the states of its recorder, and what is counted and passed
/// on at each event.
pub open spec fn is_passage(
    states: Seq<RecorderView>,
    events: Seq<BodyEvent>,
    counted: Seq<Seq<Tally>>,
    passed: Seq<PassedView>,
) -> bool {
    &&& states.len() == events.len() + 1
    &&& counted.len() == events.len()
    &&& passed.len() == events.len()
    &&& forall|i: int|
        0 <= i < events.len() ==> states[i].follows(
            #[trigger] events[i],
            states[i + 1],
            counted[i],
            passed[i],
        )
}

/// The bytes that are passed on.
pub open spec fn body_of(passed: Seq<PassedView>) -> Seq<u8>
    decreases passed.len(),
{
    if passed.len() == 0 {
        Seq::empty()
    } else {
        match passed.last() {
            PassedView::Bytes(bytes) => body_of(passed.drop_last()) + bytes,
            _ => body_of(passed.drop_last()),
        }
    }
}

/// The bytes that an upstream gives.
pub open spec fn given_by(events: Seq<BodyEvent>) -> Seq<u8>
    decreases events.len(),
{
    if events.len() == 0 {
        Seq::empty()
    } else {
        match events.last() {
            BodyEvent::Chunk(bytes) => given_by(events.drop_last()) + bytes@,
            _ => given_by(events.drop_last()),
        }
    }
}

/// What is passed on depends on the events alone, whatever is captured of the response: event by
/// event what came, and in all exactly the bytes that the upstream gave.
pub proof fn law_a_body_is_what_the_upstream_gave(
    states: Seq<RecorderView>,
    events: Seq<BodyEvent>,
    counted: Seq<Seq<Tally>>,
    passed: Seq<PassedView>,
)
    requires
        is_passage(states, events, counted, passed),
    ensures
        passed == Seq::new(events.len(), |i: int| passed_on(events[i])),
        body_of(passed) == given_by(events),
    decreases events.len(),
{
    assert forall|i: int| 0 <= i < events.len() implies passed[i] == passed_on(events[i]) by {
        assert(states[i].follows(events[i], states[i + 1], counted[i], passed[i]));
    }
    assert(passed =~= Seq::new(events.len(), |i: int| passed_on(events[i])));
    if events.len() > 0 {
        let earlier = events.drop_last();
        assert forall|i: int| 0 <= i < earlier.len() implies states.drop_last()[i].follows(
            #[trigger] earlier[i],
            states.drop_last()[i + 1],
            counted.drop_last()[i],
            passed.drop_last()[i],
        ) by {
            assert(earlier[i] == events[i]);
        }
        law_a_body_is_what_the_upstream_gave(
            states.drop_last(),
            earlier,
            counted.drop_last(),
            passed.drop_last(),
        );
        assert(passed.last() == passed_on(events.last()));
    }
}

/// The end of a stream of events is one of these texts, wherever in the bytes it stands.
pub proof fn law_which_texts_end_a_stream(bytes: Seq<u8>)
    ensures
        has_marker(bytes) <==> exists|i: int, j: int|
            0 <= i <= j <= bytes.len() && {
                let part = #[trigger] bytes.subrange(i, j);
                ||| part == encode_utf8("data: [DONE]"@)
                ||| part == encode_utf8("event: response.completed"@)
                ||| part == encode_utf8("event: response.failed"@)
                ||| part == encode_utf8("event: response.incomplete"@)
            },
{
    if has_marker(bytes) {
        let m = choose|m: int| 0 <= m < markers().len() && holds(bytes, #[trigger] markers()[m]);
        let part = markers()[m];
        let i = choose|i: int| stands_at(bytes, part, i);
        assert(m == 0 || m == 1 || m == 2 || m == 3);
        assert(bytes.subrange(i, i + part.len()) == part);
    }
    if exists|i: int, j: int|
        0 <= i <= j <= bytes.len() && {
            let part = #[trigger] bytes.subrange(i, j);
            ||| part == encode_utf8("data: [DONE]"@)
            ||| part == encode_utf8("event: response.completed"@)
            ||| part == encode_utf8("event: response.failed"@)
            ||| part == encode_utf8("event: response.incomplete"@)
        } {
        let (i, j) = choose|i: int, j: int|
            0 <= i <= j <= bytes.len() && {
                let part = #[trigger] bytes.subrange(i, j);
                ||| part == encode_utf8("data: [DONE]"@)
                ||| part == encode_utf8("event: response.completed"@)
                ||| part == encode_utf8("event: response.failed"@)
                ||| part == encode_utf8("event: response.incomplete"@)
            };
        let part = bytes.subrange(i, j);
        let m = if part == encode_utf8("data: [DONE]"@) {
            0
        } else if part == encode_utf8("event: response.completed"@) {
            1
        } else if part == encode_utf8("event: response.failed"@) {
            2
        } else {
            3int
        };
        assert(markers()[m] == part);
        assert(stands_at(bytes, part, i));
        assert(holds(bytes, markers()[m]));
    }
}

/// How many bytes passed, and whether the response is whole, however its stream is cut.
proof fn lemma_seen_of_a_stream(recorder: RecorderView, chunks: Seq<Passing>)
    requires
        recorder.observed_response_bytes == 0,
        stream_of(chunks).len() <= usize::MAX,
    ensures
        ({
            let after = recorder.after_chunks(chunks);
            &&& after.observed_response_bytes == stream_of(chunks).len()
            &&& after.expected_response_bytes == recorder.expected_response_bytes
            &&& after.max_response_bytes == recorder.max_response_bytes
            &&& after.finished == recorder.finished
            &&& after.offers == recorder.offers
            &&& after.channel == recorder.channel
        }),
    decreases chunks.len(),
{
    if chunks.len() > 0 {
        lemma_seen_of_a_stream(recorder, chunks.drop_last());
    }
}

/// A response is whole where as many bytes passed as were announced, or a text that ends a stream of
/// events stands in it, and not otherwise; however it is cut.
pub proof fn law_when_a_response_is_whole(recorder: RecorderView, chunks: Seq<Passing>)
    requires
        recorder.well_formed(),
        recorder.response.len() == 0,
        recorder.observed_response_bytes == 0,
        !recorder.seen,
        recorder.tail.len() == 0,
        stream_of(chunks).len() <= usize::MAX,
    ensures
        recorder.after_chunks(chunks).complete() <==> {
            ||| recorder.expected_response_bytes matches Some(expected) && expected == stream_of(
                chunks,
            ).len()
            ||| has_marker(stream_of(chunks))
        },
{
    lemma_seen_of_a_stream(recorder, chunks);
    law_a_recording_is_the_whole_stream(recorder, chunks);
}

/// As long as memory is granted for every chunk and the response keeps within its bound, it stays
/// captured; the first chunk that passes the bound ends the capture as oversized, and the first for
/// which no memory is granted as dropped. Nothing else ends it.
pub proof fn law_what_ends_a_capture(
    recorder: RecorderView,
    bytes: Seq<u8>,
    elapsed: u128,
    granted: bool,
)
    requires
        recorder.seed is Some,
        bytes.len() > 0,
    ensures
        ({
            let (next, tally) = recorder.after_chunk(bytes, elapsed, granted);
            let fits = recorder.response.len() + bytes.len() <= recorder.max_response_bytes;
            &&& fits && granted ==> next.seed == recorder.seed && next.response
                == recorder.response + bytes && next.reserved == recorder.reserved + bytes.len()
                && tally is None
            &&& !fits ==> next.seed is None && next.response.len() == 0 && next.reserved == 0
                && tally == Some(Tally::Oversized)
            &&& fits && !granted ==> next.seed is None && next.response.len() == 0
                && next.reserved == 0 && tally == Some(Tally::Dropped)
            &&& fits ==> next.requests.len() == recorder.requests.len() + 1
                && next.requests.last().count == bytes.len() && next.requests.last().granted
                == granted
            &&& !fits ==> next.requests == recorder.requests
        }),
{
}

/// Where nothing is captured, and for an empty chunk, nothing is kept, asked or counted.
pub proof fn law_what_is_not_captured_costs_nothing(
    recorder: RecorderView,
    bytes: Seq<u8>,
    elapsed: u128,
    granted: bool,
)
    requires
        recorder.seed is None || bytes.len() == 0,
    ensures
        ({
            let (next, tally) = recorder.after_chunk(bytes, elapsed, granted);
            &&& next.seed == recorder.seed
            &&& next.response == recorder.response
            &&& next.reserved == recorder.reserved
            &&& next.requests == recorder.requests
            &&& next.offers == recorder.offers
            &&& tally is None
        }),
{
}

/// A response that is captured from the beginning, with memory granted for every chunk and within
/// its bound, is captured whole.
pub proof fn law_a_capture_that_fits_is_whole(recorder: RecorderView, chunks: Seq<Passing>)
    requires
        recorder.well_formed(),
        recorder.seed is Some,
        recorder.response.len() == 0,
        !recorder.seen,
        recorder.tail.len() == 0,
        forall|i: int| 0 <= i < chunks.len() ==> (#[trigger] chunks[i]).granted,
        stream_of(chunks).len() <= recorder.max_response_bytes,
    ensures
        recorder.after_chunks(chunks).seed == recorder.seed,
        recorder.after_chunks(chunks).response == stream_of(chunks),
        recorder.after_chunks(chunks).reserved == recorder.seed->Some_0.request.len() + stream_of(
            chunks,
        ).len(),
    decreases chunks.len(),
{
    law_a_recording_is_the_whole_stream(recorder, chunks);
    if chunks.len() == 0 {
        assert(recorder.response =~= Seq::empty());
    } else {
        let before = chunks.drop_last();
        assert forall|i: int| 0 <= i < before.len() implies (#[trigger] before[i]).granted by {
            assert(before[i] == chunks[i]);
        }
        law_a_capture_that_fits_is_whole(recorder, before);
        assert(chunks[chunks.len() - 1].granted);
        lemma_bound_stays(recorder, before);
    }
}

/// The bound of a recorder never changes.
proof fn lemma_bound_stays(recorder: RecorderView, chunks: Seq<Passing>)
    ensures
        recorder.after_chunks(chunks).max_response_bytes == recorder.max_response_bytes,
    decreases chunks.len(),
{
    if chunks.len() > 0 {
        lemma_bound_stays(recorder, chunks.drop_last());
    }
}

/// The time of the first byte is that of the first chunk that is not empty, and stays.
pub proof fn law_the_first_byte_is_timed_once(recorder: RecorderView, chunks: Seq<Passing>, i: int)
    requires
        0 <= i <= chunks.len(),
        forall|k: int| 0 <= k < i ==> (#[trigger] chunks[k]).bytes.len() == 0,
        i < chunks.len() ==> chunks[i].bytes.len() > 0,
    ensures
        recorder.first_byte is Some ==> recorder.after_chunks(chunks).first_byte
            == recorder.first_byte,
        recorder.first_byte is None && i == chunks.len() ==> recorder.after_chunks(
            chunks,
        ).first_byte is None,
        recorder.first_byte is None && i < chunks.len() ==> recorder.after_chunks(chunks).first_byte
            == Some(chunks[i].elapsed),
    decreases chunks.len(),
{
    if chunks.len() > 0 {
        let before = chunks.drop_last();
        assert forall|k: int| 0 <= k < i && k < before.len() implies (
        #[trigger] before[k]).bytes.len() == 0 by {
            assert(before[k] == chunks[k]);
        }
        if i < chunks.len() - 1 {
            assert(before[i] == chunks[i]);
            law_the_first_byte_is_timed_once(recorder, before, i);
        } else {
            law_the_first_byte_is_timed_once(recorder, before, before.len() as int);
            if i == chunks.len() {
                assert(chunks[chunks.len() - 1].bytes.len() == 0);
            }
        }
    }
}

/// How the end of a response is counted: as interrupted where the upstream failed, or where it was
/// abandoned before it was whole; as completed otherwise; and what is not captured is counted no
/// further.
pub proof fn law_how_ends_are_counted(
    recorder: RecorderView,
    event: BodyEvent,
    next: RecorderView,
    tallies: Seq<Tally>,
    elapsed: u128,
    granted: bool,
    moment: i128,
    taken: bool,
)
    requires
        recorder.event_step(event, next, tallies, elapsed, granted, moment, taken),
        !recorder.finished,
        event !is Chunk,
    ensures
        event is Failed ==> tallies == seq![Tally::Interrupted],
        event is Abandoned && !recorder.complete() ==> tallies == seq![Tally::Interrupted],
        event is Ended || event is Abandoned && recorder.complete() ==> {
            &&& tallies[0] == Tally::Completed
            &&& recorder.seed is None ==> tallies == seq![Tally::Completed]
            &&& recorder.seed is Some && rfc3339_of(moment) is None ==> tallies == seq![
                Tally::Completed,
                Tally::Dropped,
            ]
            &&& recorder.seed is Some && rfc3339_of(moment) is Some ==> tallies == seq![
                Tally::Completed,
                if taken {
                    Tally::Enqueued
                } else {
                    Tally::Dropped
                },
            ]
        },
        next.finished,
        next.seed is None,
        next.response.len() == 0,
        next.reserved == 0,
{
}

/// Milliseconds are nanoseconds divided by a million, what is left over dropped, as far as they can
/// be written.
pub proof fn law_milliseconds(nanos: u128)
    ensures
        nanos < 1_000_000 ==> millis(nanos) == 0,
        millis(nanos) < u64::MAX ==> millis(nanos) as int * 1_000_000 <= nanos < (millis(nanos) as int
            + 1) * 1_000_000,
        millis(nanos) == u64::MAX ==> nanos >= u64::MAX as int * 1_000_000,
{
}

/// Counting adds one to the counter of what is counted, and changes no other.
pub proof fn law_each_thing_has_its_counter(counters: Counters)
    requires
        counters.observed < u64::MAX,
        counters.completed < u64::MAX,
        counters.enqueued < u64::MAX,
        counters.persisted < u64::MAX,
        counters.dropped < u64::MAX,
        counters.oversized < u64::MAX,
        counters.interrupted < u64::MAX,
        counters.storage_failed < u64::MAX,
    ensures
        counters.counted(Tally::Observed) == (Counters {
            observed: (counters.observed + 1) as u64,
            ..counters
        }),
        counters.counted(Tally::Completed) == (Counters {
            completed: (counters.completed + 1) as u64,
            ..counters
        }),
        counters.counted(Tally::Enqueued) == (Counters {
            enqueued: (counters.enqueued + 1) as u64,
            ..counters
        }),
        counters.counted(Tally::Persisted) == (Counters {
            persisted: (counters.persisted + 1) as u64,
            ..counters
        }),
        counters.counted(Tally::Dropped) == (Counters {
            dropped: (counters.dropped + 1) as u64,
            ..counters
        }),
        counters.counted(Tally::Oversized) == (Counters {
            oversized: (counters.oversized + 1) as u64,
            ..counters
        }),
        counters.counted(Tally::Interrupted) == (Counters {
            interrupted: (counters.interrupted + 1) as u64,
            ..counters
        }),
        counters.counted(Tally::StorageFailed) == (Counters {
            storage_failed: (counters.storage_failed + 1) as u64,
            ..counters
        }),
{
}

/// Shares of memory together take as many bytes as each of them takes.
pub proof fn law_shares_add_up(memory: Seq<MemoryPermit>, share: MemoryPermit)
    ensures
        share_total(Seq::empty()) == 0,
        share_total(memory.push(share)) == share_total(memory) + share.bytes,
{
    assert(memory.push(share).drop_last() =~= memory);
}

/// A recorder is seen whole: no field is left out.
pub proof fn law_recorders_are_seen_whole(recorder: ResponseRecorder, job: CaptureJob)
    ensures
        recorder.seed is None ==> recorder@.seed is None,
        recorder.seed matches Some(seed) ==> recorder@.seed == Some(seed@),
        recorder@.response == recorder.response@,
        recorder@.reserved == share_total(recorder.memory@),
        recorder@.channel == channel_of(recorder.capture_tx),
        recorder@.offers == offers_through(recorder.capture_tx),
        recorder@.semaphore == semaphore_of(recorder.capture_memory),
        recorder@.requests == requests_through(recorder.capture_memory),
        recorder@.started == recorder.started,
        recorder@.first_byte == recorder.first_byte,
        recorder@.max_response_bytes == recorder.max_response_bytes,
        recorder@.exchange_id == recorder.exchange_id,
        recorder@.expected_response_bytes == recorder.expected_response_bytes,
        recorder@.observed_response_bytes == recorder.observed_response_bytes,
        recorder@.seen == recorder.stream_terminal_seen,
        recorder@.tail == recorder.stream_terminal_tail@,
        recorder@.finished == recorder.finished,
        Ending::Recorded(job)@ == EndingView::Recorded(job@, share_total(job.memory@)),
        Ending::Interrupted@ is Interrupted,
        Ending::Unrecorded@ is Unrecorded,
        Ending::Unstamped@ is Unstamped,
        Ending::Repeated@ is Repeated,
{
}

/// What is passed on of each event: of a chunk its bytes, and how the upstream ended.
pub proof fn law_what_is_passed_on(bytes: &[u8])
    ensures
        passed_on(BodyEvent::Chunk(bytes)) == PassedView::Bytes(bytes@),
        passed_on(BodyEvent::Failed) is Failed,
        passed_on(BodyEvent::Ended) is Ended,
        passed_on(BodyEvent::Abandoned) is Nothing,
        Passed::Bytes(bytes)@ == PassedView::Bytes(bytes@),
        Passed::Failed@ is Failed,
        Passed::Ended@ is Ended,
        Passed::Nothing@ is Nothing,
{
}

/// How a chunk is followed: it is counted as oversized where it passes the bound of a response that
/// is captured, as dropped where no memory is granted for it, and else not at all; and it never ends
/// the response or offers anything.
pub proof fn law_how_chunks_are_counted(
    recorder: RecorderView,
    bytes: &[u8],
    next: RecorderView,
    tallies: Seq<Tally>,
    elapsed: u128,
    granted: bool,
    moment: i128,
    taken: bool,
)
    requires
        recorder.event_step(
            BodyEvent::Chunk(bytes),
            next,
            tallies,
            elapsed,
            granted,
            moment,
            taken,
        ),
    ensures
        ({
            let kept = recorder.seed is Some && bytes@.len() > 0;
            let fits = recorder.response.len() + bytes@.len() <= recorder.max_response_bytes;
            &&& kept && !fits ==> tallies == seq![Tally::Oversized] && next.seed is None
            &&& kept && fits && !granted ==> tallies == seq![Tally::Dropped] && next.seed is None
            &&& kept && fits && granted ==> tallies.len() == 0 && next.response
                == recorder.response + bytes@ && next.seed == recorder.seed
            &&& !kept ==> tallies.len() == 0 && next.response == recorder.response && next.seed
                == recorder.seed
            &&& next.offers == recorder.offers
            &&& next.finished == recorder.finished
            &&& next.started == recorder.started
            &&& next.exchange_id == recorder.exchange_id
            &&& next.max_response_bytes == recorder.max_response_bytes
            &&& next.expected_response_bytes == recorder.expected_response_bytes
            &&& next.channel == recorder.channel
            &&& next.semaphore == recorder.semaphore
            &&& recorder.observed_response_bytes + bytes@.len() <= usize::MAX
                ==> next.observed_response_bytes == recorder.observed_response_bytes + bytes@.len()
        }),
{
}

/// A gateway that starts has counted nothing, and its captures are being written.
pub proof fn law_counting_starts_at_nothing(counters: Counters)
    requires
        counters.is_fresh(),
    ensures
        counters.observed == 0,
        counters.completed == 0,
        counters.enqueued == 0,
        counters.persisted == 0,
        counters.dropped == 0,
        counters.oversized == 0,
        counters.interrupted == 0,
        counters.storage_failed == 0,
        counters.writer_alive,
{
}

} // verus!
