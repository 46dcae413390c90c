//! The streams of a connection.

use crate::error::H2Error;
use crate::error;
use crate::frame::{StreamId, MAX_31_BIT};
use crate::proto::flow_control;
use crate::proto::flow_control::FlowControl;
use vstd::prelude::*;
use vstd::string::*;

verus! {

/// Where a stream is in its life.
#[derive(Clone, Copy, Debug, PartialEq, Eq, Structural)]
pub enum StreamState {
    /// Nothing was sent or received.
    Idle,
    /// Both ends may send.
    Open,
    /// This end is done sending.
    HalfClosedLocal,
    /// The peer is done sending.
    HalfClosedRemote,
    /// Both ends are done, or the stream was reset.
    Closed,
}

impl StreamState {
    /// Whether the peer may still send.
    pub open spec fn spec_can_recv(self) -> bool {
        self is Open || self is HalfClosedLocal
    }

    /// Whether this end may still send.
    pub open spec fn spec_can_send(self) -> bool {
        self is Open || self is HalfClosedRemote
    }

    /// The state after this end finished sending; `None` where it may not send.
    pub open spec fn local_end(self) -> Option<StreamState> {
        match self {
            StreamState::Open => Some(StreamState::HalfClosedLocal),
            StreamState::HalfClosedRemote => Some(StreamState::Closed),
            _ => None,
        }
    }

    /// The state after the peer finished sending; `None` where it may not send.
    pub open spec fn remote_end(self) -> Option<StreamState> {
        match self {
            StreamState::Open => Some(StreamState::HalfClosedRemote),
            StreamState::HalfClosedLocal => Some(StreamState::Closed),
            _ => None,
        }
    }

    /// The state after this end sent HEADERS; `None` where it may not.
    pub open spec fn headers_sent(self, end_stream: bool) -> Option<StreamState> {
        let opened = if self is Idle {
            StreamState::Open
        } else {
            self
        };
        if end_stream {
            opened.local_end()
        } else if opened.spec_can_send() {
            Some(opened)
        } else {
            None
        }
    }

    /// The state after the peer sent HEADERS; `None` where it may not.
    pub open spec fn headers_received(self, end_stream: bool) -> Option<StreamState> {
        let opened = if self is Idle {
            StreamState::Open
        } else {
            self
        };
        if end_stream {
            opened.remote_end()
        } else if opened.spec_can_recv() {
            Some(opened)
        } else {
            None
        }
    }

    /// Whether `r` is what `next` says: the new state, or an error.
    pub open spec fn is_step(
        r: Result<StreamState, H2Error>,
        next: Option<StreamState>,
        message: Seq<char>,
    ) -> bool {
        match next {
            Some(s) => r == Ok::<StreamState, H2Error>(s),
            None => r matches Err(e) && e@ == error::ErrorView::Protocol(message),
        }
    }

    /// Whether the peer may still send.
    pub fn can_recv(&self) -> (r: bool)
        ensures
            r == self.spec_can_recv(),
    {
        matches!(*self, StreamState::Open | StreamState::HalfClosedLocal)
    }

    /// Whether this end may still send.
    pub fn can_send(&self) -> (r: bool)
        ensures
            r == self.spec_can_send(),
    {
        matches!(*self, StreamState::Open | StreamState::HalfClosedRemote)
    }

    /// Whether the stream is over.
    pub fn is_closed(&self) -> (r: bool)
        ensures
            r == (*self is Closed),
    {
        matches!(*self, StreamState::Closed)
    }

    /// This end sends HEADERS, and nothing else if `end_stream`.
    pub fn send_headers(self, end_stream: bool) -> (r: Result<StreamState, H2Error>)
        ensures
            StreamState::is_step(r, self.headers_sent(end_stream), CANNOT_SEND@),
    {
        let opened = if matches!(self, StreamState::Idle) {
            StreamState::Open
        } else {
            self
        };
        if end_stream {
            opened.send_end_stream()
        } else if opened.can_send() {
            Ok(opened)
        } else {
            Err(H2Error::Protocol(CANNOT_SEND.to_owned()))
        }
    }

    /// The peer sends HEADERS, and nothing else if `end_stream`.
    pub fn recv_headers(self, end_stream: bool) -> (r: Result<StreamState, H2Error>)
        ensures
            StreamState::is_step(r, self.headers_received(end_stream), CANNOT_RECV@),
    {
        let opened = if matches!(self, StreamState::Idle) {
            StreamState::Open
        } else {
            self
        };
        if end_stream {
            opened.recv_end_stream()
        } else if opened.can_recv() {
            Ok(opened)
        } else {
            Err(H2Error::Protocol(CANNOT_RECV.to_owned()))
        }
    }

    /// This end is done sending.
    pub fn send_end_stream(self) -> (r: Result<StreamState, H2Error>)
        ensures
            StreamState::is_step(r, self.local_end(), CANNOT_SEND@),
    {
        match self {
            StreamState::Open => Ok(StreamState::HalfClosedLocal),
            StreamState::HalfClosedRemote => Ok(StreamState::Closed),
            _ => Err(H2Error::Protocol(CANNOT_SEND.to_owned())),
        }
    }

    /// The peer is done sending.
    pub fn recv_end_stream(self) -> (r: Result<StreamState, H2Error>)
        ensures
            StreamState::is_step(r, self.remote_end(), CANNOT_RECV@),
    {
        match self {
            StreamState::Open => Ok(StreamState::HalfClosedRemote),
            StreamState::HalfClosedLocal => Ok(StreamState::Closed),
            _ => Err(H2Error::Protocol(CANNOT_RECV.to_owned())),
        }
    }

    /// The stream is reset.
    pub fn reset(self) -> (r: StreamState)
        ensures
            r is Closed,
    {
        StreamState::Closed
    }
}

/// Text of the error for sending on a stream that is done sending.
pub const CANNOT_SEND: &'static str = "stream does not allow sending";

/// Text of the error for receiving on a stream that is done receiving.
pub const CANNOT_RECV: &'static str = "stream does not allow receiving";

/// One stream.
#[derive(Clone, Copy, Debug, PartialEq, Eq, Structural)]
pub struct Stream {
    /// Where the stream is in its life.
    pub state: StreamState,
    /// What may be sent.
    pub send_flow: FlowControl,
    /// What may be received.
    pub recv_flow: FlowControl,
    /// Bytes that the application released and the peer was not told of yet.
    pub released: u32,
    /// Bytes of message data that were received.
    pub received_data_bytes: u64,
    /// The length that the peer announced, where it did.
    pub expected_content_length: Option<u64>,
    /// Whether data and trailers still reach the application.
    pub recv_open: bool,
    /// Whether response headers still reach the application.
    pub headers_open: bool,
    /// Whether a reset still reaches the application.
    pub reset_open: bool,
    /// Whether the stream was reset, by either end, or cut off together with others.
    pub was_reset: bool,
}

impl Stream {
    /// A stream on which nothing has happened.
    pub open spec fn fresh(send_window: i32, recv_window: i32, with_headers: bool) -> Stream {
        Stream {
            state: StreamState::Idle,
            send_flow: FlowControl::of(send_window),
            recv_flow: FlowControl::of(recv_window),
            released: 0,
            received_data_bytes: 0,
            expected_content_length: None,
            recv_open: true,
            headers_open: with_headers,
            reset_open: true,
            was_reset: false,
        }
    }

    /// The stream after the initial size of one of its windows became `size`; `None`
    /// where the window would leave its range. A closed stream does not change.
    pub open spec fn resized(self, size: i32, dir: Direction) -> Option<Stream> {
        if self.state is Closed {
            Some(self)
        } else {
            match dir {
                Direction::Send => match self.send_flow.resized(size) {
                    Some(f) => Some(Stream { send_flow: f, ..self }),
                    None => None,
                },
                Direction::Recv => match self.recv_flow.resized(size) {
                    Some(f) => Some(Stream { recv_flow: f, ..self }),
                    None => None,
                },
            }
        }
    }

    /// Whether the peer is to be told of the released bytes: half a window is reached.
    pub open spec fn needs_window_update(self) -> bool {
        self.released > 0 && self.released >= flow_control::half(self.recv_flow.initial)
    }

    /// The stream after the application released `amount` bytes.
    pub open spec fn release(self, amount: u32) -> Stream {
        Stream {
            released: if self.released + amount > u32::MAX {
                u32::MAX
            } else {
                (self.released + amount) as u32
            },
            ..self
        }
    }

    /// The stream after the peer was told of `increment` released bytes.
    pub open spec fn window_updated(self, increment: u32) -> Stream {
        Stream {
            released: if self.released >= increment {
                (self.released - increment) as u32
            } else {
                0
            },
            recv_flow: match self.recv_flow.grown(increment) {
                Some(f) => f,
                None => self.recv_flow,
            },
            ..self
        }
    }
}

/// Which of a stream's windows is meant.
#[derive(Clone, Copy, Debug, PartialEq, Eq, Structural)]
pub enum Direction {
    /// What this end may send.
    Send,
    /// What the peer may send.
    Recv,
}

/// The receiving end of a stream, as the application gets it.
#[derive(Clone, Copy, Debug)]
pub struct StreamRecv {
    /// The stream.
    pub stream_id: StreamId,
    /// Whether response headers come before the data.
    pub with_headers: bool,
}

/// A [`StreamRecv`] as plain values.
pub struct RecvView {
    /// The stream.
    pub stream_id: u32,
    /// Whether response headers come before the data.
    pub with_headers: bool,
}

impl View for StreamRecv {
    type V = RecvView;

    open spec fn view(&self) -> RecvView {
        RecvView { stream_id: self.stream_id@, with_headers: self.with_headers }
    }
}

/// Which stream has which identifier.
struct Entry {
    id: StreamId,
    stream: Stream,
}

/// The streams of a connection.
pub struct StreamStore {
    entries: Vec<Entry>,
    is_client: bool,
    next_id: u32,
    max_concurrent: u32,
    resets: Vec<u128>,
    max_resets: usize,
    reset_window: u128,
}

/// The contents of a [`StreamStore`].
#[verifier::ext_equal]
pub struct StoreView {
    /// The identifiers, in the order in which the streams were opened.
    pub ids: Seq<u32>,
    /// The stream of each identifier.
    pub streams: Map<u32, Stream>,
    /// Whether this end is the client.
    pub is_client: bool,
    /// The identifier of the next stream that this end opens.
    pub next_id: u32,
    /// How many streams may be open at once.
    pub max_concurrent: u32,
    /// When the peer reset a stream, as far as that still counts.
    pub resets: Seq<u128>,
    /// How many resets the peer may make within the window.
    pub max_resets: usize,
    /// The length of the window, in nanoseconds.
    pub reset_window: u128,
}

spec fn ids_of(entries: Seq<Entry>) -> Seq<u32> {
    entries.map_values(|e: Entry| e.id@)
}

spec fn streams_of(entries: Seq<Entry>) -> Map<u32, Stream> {
    Map::new(
        |id: u32| ids_of(entries).contains(id),
        |id: u32| entries[ids_of(entries).index_of(id)].stream,
    )
}

/// How many of the streams are not closed.
pub open spec fn count_open(ids: Seq<u32>, streams: Map<u32, Stream>) -> nat
    decreases ids.len(),
{
    if ids.len() == 0 {
        0
    } else {
        count_open(ids.drop_last(), streams) + if streams[ids.last()].state is Closed {
            0nat
        } else {
            1nat
        }
    }
}

impl View for StreamStore {
    type V = StoreView;

    closed spec fn view(&self) -> StoreView {
        StoreView {
            ids: ids_of(self.entries@),
            streams: streams_of(self.entries@),
            is_client: self.is_client,
            next_id: self.next_id,
            max_concurrent: self.max_concurrent,
            resets: self.resets@,
            max_resets: self.max_resets,
            reset_window: self.reset_window,
        }
    }
}

impl StoreView {
    /// No identifier occurs twice, each has a stream, and this end's next identifier
    /// is odd on a client and even on a server.
    pub open spec fn wf(self) -> bool {
        &&& self.ids.no_duplicates()
        &&& forall|id: u32| #[trigger]
            self.streams.dom().contains(id) <==> self.ids.contains(id)
        &&& 0 < self.next_id <= MAX_31_BIT + 2
        &&& self.next_id % 2 == if self.is_client {
            1u32
        } else {
            0u32
        }
    }

    /// The store of a new connection.
    pub open spec fn empty(is_client: bool) -> StoreView {
        StoreView {
            ids: Seq::empty(),
            streams: Map::empty(),
            is_client,
            next_id: if is_client {
                1
            } else {
                2
            },
            max_concurrent: u32::MAX,
            resets: Seq::empty(),
            max_resets: 50,
            reset_window: 1_000_000_000,
        }
    }

    /// Whether the stream is known.
    pub open spec fn has(self, id: u32) -> bool {
        self.streams.dom().contains(id)
    }

    /// The store with one stream changed.
    pub open spec fn with(self, id: u32, s: Stream) -> StoreView {
        StoreView { streams: self.streams.insert(id, s), ..self }
    }

    /// The store with one more stream; a stream with the same identifier is replaced.
    pub open spec fn inserted(self, id: u32, s: Stream) -> StoreView {
        StoreView {
            ids: if self.has(id) {
                self.ids
            } else {
                self.ids.push(id)
            },
            streams: self.streams.insert(id, s),
            ..self
        }
    }

    /// The initial size of a window became `size` for the first `n` streams. The store,
    /// and whether every window stayed in range: the first one that does not ends the
    /// work.
    pub open spec fn first_resized(self, n: int, size: i32, dir: Direction) -> (StoreView, bool)
        decreases n,
    {
        if n <= 0 {
            (self, true)
        } else {
            let (before, ok) = self.first_resized(n - 1, size, dir);
            let id = self.ids[n - 1];
            if !ok {
                (before, false)
            } else {
                match before.streams[id].resized(size, dir) {
                    Some(s) => (before.with(id, s), true),
                    None => (before, false),
                }
            }
        }
    }

    /// The initial size of a window became `size` for all streams.
    pub open spec fn resized(self, size: i32, dir: Direction) -> (StoreView, bool) {
        self.first_resized(self.ids.len() as int, size, dir)
    }

    /// How many streams are not closed.
    pub open spec fn active(self) -> nat {
        count_open(self.ids, self.streams)
    }

    /// Whether one more stream may be opened.
    pub open spec fn can_accept(self) -> bool {
        self.active() < self.max_concurrent
    }

    /// The identifiers of the streams whose released bytes the peer is to be told of.
    pub open spec fn due_updates(self) -> Seq<u32> {
        self.ids.filter(|id: u32| self.streams[id].needs_window_update())
    }

    /// The identifiers of the closed streams.
    pub open spec fn closed_ids(self) -> Seq<u32> {
        self.ids.filter(|id: u32| self.streams[id].state is Closed)
    }

    /// The store without its closed streams.
    pub open spec fn collected(self) -> StoreView {
        StoreView {
            ids: self.ids.filter(|id: u32| !(self.streams[id].state is Closed)),
            streams: Map::new(
                |id: u32| self.has(id) && !(self.streams[id].state is Closed),
                |id: u32| self.streams[id],
            ),
            ..self
        }
    }

    /// Whether the stream is known and was reset.
    pub open spec fn is_lost(self, id: u32) -> bool {
        self.has(id) && self.streams[id].was_reset
    }

    /// The store after the peer reset a stream at the time `now`: resets that are
    /// older than the window are forgotten.
    pub open spec fn reset_recorded(self, now: u128) -> StoreView {
        StoreView {
            resets: self.resets.filter(|t: u128| now - t <= self.reset_window).push(now),
            ..self
        }
    }

    /// Whether the peer has reset more streams than it may.
    pub open spec fn too_many_resets(self) -> bool {
        self.resets.len() > self.max_resets
    }
}

proof fn lemma_lookup(entries: Seq<Entry>, i: int)
    requires
        ids_of(entries).no_duplicates(),
        0 <= i < entries.len(),
    ensures
        ids_of(entries).contains(entries[i].id@),
        streams_of(entries)[entries[i].id@] == entries[i].stream,
{
    let ids = ids_of(entries);
    assert(ids[i] == entries[i].id@);
    assert(ids[ids.index_of(entries[i].id@)] == entries[i].id@);
}

proof fn lemma_replace(entries: Seq<Entry>, i: int, s: Stream)
    requires
        ids_of(entries).no_duplicates(),
        0 <= i < entries.len(),
    ensures
        ids_of(entries.update(i, Entry { id: entries[i].id, stream: s })) == ids_of(entries),
        streams_of(entries.update(i, Entry { id: entries[i].id, stream: s })) == streams_of(
            entries,
        ).insert(entries[i].id@, s),
{
    let after = entries.update(i, Entry { id: entries[i].id, stream: s });
    let ids = ids_of(entries);
    assert(ids_of(after) =~= ids);
    assert forall|id: u32| ids.contains(id) implies #[trigger] streams_of(after)[id]
        == streams_of(entries).insert(entries[i].id@, s)[id] by {
        let j = ids.index_of(id);
        assert(ids[j] == id);
        lemma_lookup(entries, j);
        lemma_lookup(after, j);
        assert(after[j].id@ == ids[j]);
        assert(entries[i].id@ == ids[i]);
    }
    lemma_lookup(entries, i);
    assert(streams_of(after) =~= streams_of(entries).insert(entries[i].id@, s));
}

proof fn lemma_append(entries: Seq<Entry>, e: Entry)
    requires
        ids_of(entries).no_duplicates(),
        !ids_of(entries).contains(e.id@),
    ensures
        ids_of(entries.push(e)) == ids_of(entries).push(e.id@),
        ids_of(entries.push(e)).no_duplicates(),
        streams_of(entries.push(e)) == streams_of(entries).insert(e.id@, e.stream),
{
    let after = entries.push(e);
    let ids = ids_of(entries);
    assert(ids_of(after) =~= ids.push(e.id@));
    assert(ids_of(after).no_duplicates()) by {
        assert forall|i: int, j: int|
            0 <= i < after.len() && 0 <= j < after.len() && i != j implies ids_of(after)[i]
            != ids_of(after)[j] by {
            if i == entries.len() {
                assert(ids.contains(ids[j]));
            } else if j == entries.len() {
                assert(ids.contains(ids[i]));
            }
        }
    }
    assert forall|id: u32| ids_of(after).contains(id) <==> ids.contains(id) || id == e.id@ by {
        if ids.contains(id) {
            assert(ids_of(after)[ids.index_of(id)] == id);
        }
        if id == e.id@ {
            assert(ids_of(after)[entries.len() as int] == id);
        }
    }
    lemma_lookup(after, entries.len() as int);
    assert forall|id: u32| ids_of(after).contains(id) implies #[trigger] streams_of(after)[id]
        == streams_of(entries).insert(e.id@, e.stream)[id] by {
        if id != e.id@ {
            let j = ids.index_of(id);
            assert(ids[j] == id);
            lemma_lookup(entries, j);
            lemma_lookup(after, j);
        }
    }
    assert(streams_of(after) =~= streams_of(entries).insert(e.id@, e.stream));
}

impl StreamStore {
    /// The store of a new connection.
    pub fn new(is_client: bool) -> (s: StreamStore)
        ensures
            s@ == StoreView::empty(is_client),
            s@.wf(),
    {
        let s = StreamStore {
            entries: Vec::new(),
            is_client,
            next_id: if is_client {
                1
            } else {
                2
            },
            max_concurrent: u32::MAX,
            resets: Vec::new(),
            max_resets: 50,
            reset_window: 1_000_000_000,
        };
        assert(s@ =~= StoreView::empty(is_client));
        s
    }

    /// Limits how many streams may be open at once.
    pub fn set_max_concurrent_streams(&mut self, max: u32)
        ensures
            final(self)@ == (StoreView { max_concurrent: max, ..old(self)@ }),
    {
        self.max_concurrent = max;
    }

    /// Limits how many streams the peer may reset within the window.
    pub fn set_max_reset_streams(&mut self, max: usize)
        ensures
            final(self)@ == (StoreView { max_resets: max, ..old(self)@ }),
    {
        self.max_resets = max;
    }

    /// Sets the length, in nanoseconds, of the window for counting resets.
    pub fn set_reset_window(&mut self, nanos: u128)
        ensures
            final(self)@ == (StoreView { reset_window: nanos, ..old(self)@ }),
    {
        self.reset_window = nanos;
    }

    fn find(&self, id: u32) -> (r: Option<usize>)
        ensures
            match r {
                Some(i) => i < self.entries@.len() && self.entries@[i as int].id@ == id,
                None => !ids_of(self.entries@).contains(id),
            },
    {
        let mut i: usize = 0;
        while i < self.entries.len()
            invariant
                i <= self.entries@.len(),
                forall|j: int| 0 <= j < i ==> self.entries@[j].id@ != id,
            decreases self.entries@.len() - i,
        {
            if self.entries[i].id.value() == id {
                return Some(i);
            }
            i = i + 1;
        }
        None
    }

    /// Whether the stream is known.
    pub fn contains(&self, id: &StreamId) -> (r: bool)
        ensures
            r == self@.has(id@),
    {
        match self.find(id.value()) {
            Some(i) => {
                proof {
                    assert(ids_of(self.entries@)[i as int] == id@);
                }
                true
            },
            None => false,
        }
    }

    /// The stream, if it is known.
    pub fn get(&self, id: &StreamId) -> (r: Option<&Stream>)
        requires
            self@.wf(),
        ensures
            match r {
                Some(s) => self@.has(id@) && *s == self@.streams[id@],
                None => !self@.has(id@),
            },
    {
        match self.find(id.value()) {
            Some(i) => {
                proof {
                    lemma_lookup(self.entries@, i as int);
                }
                Some(&self.entries[i].stream)
            },
            None => None,
        }
    }

    /// The stream, if it is known, for changing it.
    pub fn get_mut(&mut self, id: &StreamId) -> (r: Option<&mut Stream>)
        requires
            old(self)@.wf(),
        ensures
            match r {
                Some(s) => {
                    &&& old(self)@.has(id@)
                    &&& *s == old(self)@.streams[id@]
                    &&& final(self)@ == old(self)@.with(id@, *final(s))
                    &&& final(self)@.wf()
                },
                None => !old(self)@.has(id@) && final(self)@ == old(self)@,
            },
    {
        match self.find(id.value()) {
            Some(i) => {
                proof {
                    let entries = self.entries@;
                    lemma_lookup(entries, i as int);
                    assert forall|s: Stream|
                        {
                            let after = #[trigger] entries.update(
                                i as int,
                                Entry { id: entries[i as int].id, stream: s },
                            );
                            &&& ids_of(after) == ids_of(entries)
                            &&& streams_of(after) == streams_of(entries).insert(id@, s)
                        } by {
                        lemma_replace(entries, i as int, s);
                    }
                }
                Some(&mut self.entries[i].stream)
            },
            None => None,
        }
    }

    /// Puts `stream` in the place of the stream that is known as `id`.
    pub(crate) fn put(&mut self, id: StreamId, stream: Stream)
        requires
            old(self)@.wf(),
            old(self)@.has(id@),
        ensures
            final(self)@ == old(self)@.with(id@, stream),
            final(self)@.wf(),
    {
        if let Some(s) = self.get_mut(&id) {
            *s = stream;
        }
    }

    /// Opens a stream with these windows.
    pub fn insert(&mut self, id: StreamId, send_window: i32, recv_window: i32) -> (r: StreamRecv)
        requires
            old(self)@.wf(),
        ensures
            final(self)@ == old(self)@.inserted(
                id@,
                Stream::fresh(send_window, recv_window, false),
            ),
            final(self)@.wf(),
            r@ == (RecvView { stream_id: id@, with_headers: false }),
    {
        self.insert_with_headers(id, send_window, recv_window, false)
    }

    /// Opens a stream with these windows; `with_headers` says whether the application
    /// waits for response headers on it.
    pub fn insert_with_headers(
        &mut self,
        id: StreamId,
        send_window: i32,
        recv_window: i32,
        with_headers: bool,
    ) -> (r: StreamRecv)
        requires
            old(self)@.wf(),
        ensures
            final(self)@ == old(self)@.inserted(
                id@,
                Stream::fresh(send_window, recv_window, with_headers),
            ),
            final(self)@.wf(),
            r@ == (RecvView { stream_id: id@, with_headers }),
    {
        let stream = Stream {
            state: StreamState::Idle,
            send_flow: FlowControl::new(send_window),
            recv_flow: FlowControl::new(recv_window),
            released: 0,
            received_data_bytes: 0,
            expected_content_length: None,
            recv_open: true,
            headers_open: with_headers,
            reset_open: true,
            was_reset: false,
        };
        if self.contains(&id) {
            self.put(id, stream);
        } else {
            proof {
                lemma_append(self.entries@, Entry { id, stream });
            }
            self.entries.push(Entry { id, stream });
        }
        StreamRecv { stream_id: id, with_headers }
    }

    /// The identifiers of all streams, in the order in which they were opened.
    pub fn iter_ids(&self) -> (r: Vec<StreamId>)
        ensures
            r@.map_values(|id: StreamId| id@) == self@.ids,
    {
        let mut r: Vec<StreamId> = Vec::new();
        let mut i: usize = 0;
        while i < self.entries.len()
            invariant
                i <= self.entries@.len(),
                r@.len() == i,
                forall|j: int| 0 <= j < i ==> (#[trigger] r@[j])@ == self.entries@[j].id@,
            decreases self.entries@.len() - i,
        {
            r.push(self.entries[i].id);
            i = i + 1;
        }
        assert(r@.map_values(|id: StreamId| id@) =~= self@.ids);
        r
    }

    /// How many streams are not closed.
    pub fn active_count(&self) -> (n: usize)
        requires
            self@.wf(),
        ensures
            n == self@.active(),
    {
        let ghost ids = self@.ids;
        let ghost streams = self@.streams;
        let mut n: usize = 0;
        let mut i: usize = 0;
        assert(ids.take(0) =~= Seq::empty());
        while i < self.entries.len()
            invariant
                self@.wf(),
                ids == self@.ids,
                streams == self@.streams,
                i <= self.entries@.len(),
                n <= i,
                n == count_open(ids.take(i as int), streams),
            decreases self.entries@.len() - i,
        {
            proof {
                lemma_lookup(self.entries@, i as int);
                assert(ids.take(i + 1).drop_last() =~= ids.take(i as int));
                assert(ids.take(i + 1).last() == self.entries@[i as int].id@);
            }
            if !self.entries[i].stream.state.is_closed() {
                n = n + 1;
            }
            i = i + 1;
        }
        assert(ids.take(i as int) =~= ids);
        n
    }

    /// Changes the initial size of one window of every stream that is not closed: the
    /// window moves by the difference. Whether every window stayed in range.
    pub fn resize_windows(&mut self, size: i32, dir: Direction) -> (ok: bool)
        requires
            old(self)@.wf(),
        ensures
            final(self)@.wf(),
            (final(self)@, ok) == old(self)@.resized(size, dir),
            final(self)@ == (StoreView { streams: final(self)@.streams, ..old(self)@ }),
    {
        let ghost store = old(self)@;
        let ghost n = store.ids.len() as int;
        let mut i: usize = 0;
        while i < self.entries.len()
            invariant
                store == old(self)@,
                n == store.ids.len(),
                self@.wf(),
                self@ == (StoreView { streams: self@.streams, ..store }),
                i <= n,
                self.entries@.len() == n,
                store.first_resized(i as int, size, dir) == (self@, true),
            decreases n - i,
        {
            let id: StreamId = self.entries[i].id;
            let mut s: Stream = self.entries[i].stream;
            proof {
                lemma_lookup(self.entries@, i as int);
            }
            if !s.state.is_closed() {
                let moved = match dir {
                    Direction::Send => s.send_flow.update_initial_window_size(size),
                    Direction::Recv => s.recv_flow.update_initial_window_size(size),
                };
                if moved.is_err() {
                    proof {
                        lemma_resize_stops(store, i + 1, n, size, dir);
                    }
                    return false;
                }
            }
            self.put(id, s);
            i = i + 1;
            proof {
                assert(ids_of(self.entries@).len() == self.entries@.len());
            }
        }
        true
    }

    /// Whether one more stream may be opened.
    pub fn can_accept_stream(&self) -> (r: bool)
        requires
            self@.wf(),
        ensures
            r == self@.can_accept(),
    {
        (self.active_count() as u64) < self.max_concurrent as u64
    }

    /// Takes the identifier for a stream that this end opens: the next odd number on a
    /// client, the next even one on a server.
    pub fn next_stream_id(&mut self) -> (r: Result<StreamId, H2Error>)
        requires
            old(self)@.wf(),
        ensures
            final(self)@.wf(),
            if old(self)@.next_id <= MAX_31_BIT {
                &&& r matches Ok(id) && id@ == old(self)@.next_id
                &&& final(self)@ == (StoreView {
                    next_id: (old(self)@.next_id + 2) as u32,
                    ..old(self)@
                })
            } else {
                &&& r matches Err(e) && e@ == error::ErrorView::Protocol(IDS_EXHAUSTED@)
                &&& final(self)@ == old(self)@
            },
    {
        if self.next_id > MAX_31_BIT {
            return Err(H2Error::Protocol(IDS_EXHAUSTED.to_owned()));
        }
        let id = StreamId::new(self.next_id);
        self.next_id = self.next_id + 2;
        Ok(id)
    }

    /// The application released `amount` bytes of the stream's receive window.
    pub fn apply_release(&mut self, id: &StreamId, amount: u32)
        requires
            old(self)@.wf(),
        ensures
            final(self)@.wf(),
            final(self)@ == if old(self)@.has(id@) {
                old(self)@.with(id@, old(self)@.streams[id@].release(amount))
            } else {
                old(self)@
            },
    {
        if let Some(s) = self.get_mut(id) {
            s.released = s.released.saturating_add(amount);
        }
    }

    /// The streams whose released bytes the peer is to be told of, and how many they
    /// are.
    pub fn streams_needing_window_update(&self) -> (r: Vec<(StreamId, u32)>)
        requires
            self@.wf(),
        ensures
            r@.map_values(|u: (StreamId, u32)| u.0@) == self@.due_updates(),
            forall|i: int|
                0 <= i < r@.len() ==> (#[trigger] r@[i]).1 == self@.streams[r@[i].0@].released,
    {
        let ghost ids = self@.ids;
        let ghost due = |id: u32| self@.streams[id].needs_window_update();
        let ghost id_of = |u: (StreamId, u32)| u.0@;
        let mut r: Vec<(StreamId, u32)> = Vec::new();
        let mut i: usize = 0;
        proof {
            assert(ids.take(0) =~= Seq::empty());
            assert(ids.take(0).filter(due) =~= Seq::empty()) by {
                reveal(Seq::filter);
            }
            assert(r@.map_values(id_of) =~= Seq::empty());
        }
        while i < self.entries.len()
            invariant
                self@.wf(),
                ids == self@.ids,
                due == (|id: u32| self@.streams[id].needs_window_update()),
                id_of == (|u: (StreamId, u32)| u.0@),
                i <= self.entries@.len(),
                r@.map_values(id_of) == ids.take(i as int).filter(due),
                forall|j: int|
                    0 <= j < r@.len() ==> (#[trigger] r@[j]).1
                        == self@.streams[r@[j].0@].released,
            decreases self.entries@.len() - i,
        {
            proof {
                lemma_lookup(self.entries@, i as int);
                lemma_filter_take(ids, i as int, due);
            }
            let ghost before = r@;
            let s: Stream = self.entries[i].stream;
            if s.released > 0 && s.released >= flow_control::half_of(
                s.recv_flow.initial_window_size(),
            ) {
                r.push((self.entries[i].id, s.released));
                assert(r@.map_values(id_of) =~= before.map_values(id_of).push(
                    self.entries@[i as int].id@,
                ));
            }
            i = i + 1;
        }
        assert(ids.take(i as int) =~= ids);
        r
    }

    /// The peer was told of `increment` released bytes: they no longer wait, and the
    /// receive window has them back.
    pub fn reset_released(&mut self, id: &StreamId, increment: u32)
        requires
            old(self)@.wf(),
        ensures
            final(self)@.wf(),
            final(self)@ == if old(self)@.has(id@) {
                old(self)@.with(id@, old(self)@.streams[id@].window_updated(increment))
            } else {
                old(self)@
            },
    {
        if let Some(s) = self.get_mut(id) {
            s.released = s.released.saturating_sub(increment);
            let _ = s.recv_flow.release(increment);
        }
    }

    /// The peer reset a stream at the time `now`, in nanoseconds. Whether it has reset
    /// more streams within the window than it may.
    pub fn record_reset(&mut self, now: u128) -> (r: bool)
        requires
            old(self)@.wf(),
        ensures
            final(self)@.wf(),
            final(self)@ == old(self)@.reset_recorded(now),
            r == final(self)@.too_many_resets(),
    {
        let ghost all = self.resets@;
        let ghost recent = |t: u128| now - t <= self.reset_window;
        let mut kept: Vec<u128> = Vec::new();
        let mut i: usize = 0;
        proof {
            assert(all.take(0) =~= Seq::empty());
            assert(all.take(0).filter(recent) =~= Seq::empty()) by {
                reveal(Seq::filter);
            }
        }
        while i < self.resets.len()
            invariant
                all == self.resets@,
                recent == (|t: u128| now - t <= self.reset_window),
                i <= self.resets@.len(),
                kept@ == all.take(i as int).filter(recent),
            decreases self.resets@.len() - i,
        {
            proof {
                lemma_filter_take(all, i as int, recent);
            }
            let t: u128 = self.resets[i];
            if t >= now || now - t <= self.reset_window {
                kept.push(t);
            }
            i = i + 1;
        }
        assert(all.take(i as int) =~= all);
        kept.push(now);
        self.resets = kept;
        assert(self@ =~= old(self)@.reset_recorded(now));
        self.resets.len() > self.max_resets
    }

    /// Forgets the closed streams. Their identifiers, in the order in which the streams
    /// were opened, and whether each was reset.
    pub fn gc_closed(&mut self) -> (r: Vec<(StreamId, bool)>)
        requires
            old(self)@.wf(),
        ensures
            final(self)@.wf(),
            final(self)@ == old(self)@.collected(),
            r@.map_values(|g: (StreamId, bool)| g.0@) == old(self)@.closed_ids(),
            forall|i: int|
                0 <= i < r@.len() ==> (#[trigger] r@[i]).1
                    == old(self)@.streams[r@[i].0@].was_reset,
    {
        let ghost ids = self@.ids;
        let ghost streams = self@.streams;
        let ghost all = self.entries@;
        let ghost closed = |id: u32| streams[id].state is Closed;
        let ghost alive = |id: u32| !(streams[id].state is Closed);
        let ghost id_of = |g: (StreamId, bool)| g.0@;
        let mut gone: Vec<(StreamId, bool)> = Vec::new();
        let mut kept: Vec<Entry> = Vec::new();
        let mut i: usize = 0;
        proof {
            assert(ids.take(0) =~= Seq::empty());
            assert(ids.take(0).filter(closed) =~= Seq::empty()) by {
                reveal(Seq::filter);
            }
            assert(ids.take(0).filter(alive) =~= Seq::empty()) by {
                reveal(Seq::filter);
            }
            assert(gone@.map_values(id_of) =~= Seq::empty());
            assert(ids_of(kept@) =~= Seq::empty());
        }
        while i < self.entries.len()
            invariant
                self@.wf(),
                *self == *old(self),
                all == self.entries@,
                ids == self@.ids,
                streams == self@.streams,
                closed == (|id: u32| streams[id].state is Closed),
                alive == (|id: u32| !(streams[id].state is Closed)),
                id_of == (|g: (StreamId, bool)| g.0@),
                i <= self.entries@.len(),
                gone@.map_values(id_of) == ids.take(i as int).filter(closed),
                ids_of(kept@) == ids.take(i as int).filter(alive),
                forall|j: int|
                    0 <= j < gone@.len() ==> (#[trigger] gone@[j]).1
                        == streams[gone@[j].0@].was_reset,
                forall|j: int|
                    0 <= j < kept@.len() ==> streams[(#[trigger] kept@[j]).id@]
                        == kept@[j].stream,
            decreases self.entries@.len() - i,
        {
            proof {
                lemma_lookup(all, i as int);
                lemma_filter_take(ids, i as int, closed);
                lemma_filter_take(ids, i as int, alive);
            }
            let ghost before_gone = gone@;
            let ghost before_kept = kept@;
            let id: StreamId = self.entries[i].id;
            let stream: Stream = self.entries[i].stream;
            if stream.state.is_closed() {
                gone.push((id, stream.was_reset));
                assert(gone@.map_values(id_of) =~= before_gone.map_values(id_of).push(id@));
            } else {
                kept.push(Entry { id, stream });
                assert(ids_of(kept@) =~= ids_of(before_kept).push(id@));
            }
            i = i + 1;
        }
        assert(ids.take(i as int) =~= ids);
        self.entries = kept;
        proof {
            lemma_filter_no_duplicates(ids, alive);
            assert forall|id: u32| #[trigger] ids_of(kept@).contains(id) <==> ids.contains(id)
                && alive(id) by {
                lemma_filter_contains(ids, alive, id);
            }
            assert forall|id: u32| ids_of(kept@).contains(id) implies #[trigger] streams_of(
                kept@,
            )[id] == streams[id] by {
                let j = ids_of(kept@).index_of(id);
                assert(ids_of(kept@)[j] == id);
                lemma_lookup(kept@, j);
            }
            assert(self@ =~= old(self)@.collected());
        }
        gone
    }
}

/// Text of the error for opening a stream when all identifiers were used.
pub const IDS_EXHAUSTED: &'static str = "stream ID space exhausted";

proof fn lemma_resize_stops(store: StoreView, i: int, n: int, size: i32, dir: Direction)
    requires
        0 <= i <= n,
        !store.first_resized(i, size, dir).1,
    ensures
        store.first_resized(n, size, dir) == store.first_resized(i, size, dir),
    decreases n - i,
{
    if i < n {
        lemma_resize_stops(store, i, n - 1, size, dir);
    }
}

/// Filtering one more element appends it, if it passes.
pub(crate) proof fn lemma_filter_take<A>(s: Seq<A>, i: int, f: spec_fn(A) -> bool)
    requires
        0 <= i < s.len(),
    ensures
        s.take(i + 1).filter(f) == if f(s[i]) {
            s.take(i).filter(f).push(s[i])
        } else {
            s.take(i).filter(f)
        },
{
    assert(s.take(i + 1).drop_last() =~= s.take(i));
    reveal(Seq::filter);
}

pub(crate) proof fn lemma_filter_contains<A>(s: Seq<A>, f: spec_fn(A) -> bool, x: A)
    ensures
        s.filter(f).contains(x) <==> s.contains(x) && f(x),
    decreases s.len(),
{
    reveal(Seq::filter);
    if s.len() > 0 {
        let t = s.drop_last();
        lemma_filter_contains(t, f, x);
        assert(s =~= t.push(s.last()));
        if t.contains(x) {
            assert(s[t.index_of(x)] == x);
        }
        if f(s.last()) {
            let p = t.filter(f);
            if p.contains(x) {
                assert(p.push(s.last())[p.index_of(x)] == x);
            }
            assert(p.push(s.last())[p.len() as int] == s.last());
        }
    }
}

proof fn lemma_filter_no_duplicates<A>(s: Seq<A>, f: spec_fn(A) -> bool)
    requires
        s.no_duplicates(),
    ensures
        s.filter(f).no_duplicates(),
    decreases s.len(),
{
    reveal(Seq::filter);
    if s.len() > 0 {
        let t = s.drop_last();
        lemma_filter_no_duplicates(t, f);
        lemma_filter_contains(t, f, s.last());
        assert(!t.contains(s.last()));
        let p = t.filter(f);
        assert forall|i: int, j: int|
            0 <= i < p.push(s.last()).len() && 0 <= j < p.push(s.last()).len() && i
                != j implies p.push(s.last())[i] != p.push(s.last())[j] by {
            if i < p.len() {
                assert(p.contains(p[i]));
            }
            if j < p.len() {
                assert(p.contains(p[j]));
            }
        }
    }
}

/// What the application released goes back to the peer's window, all of it, once the peer
/// is told.
pub proof fn lemma_released_bytes_return(s: Stream)
    requires
        s.recv_flow.window + s.released <= MAX_31_BIT,
    ensures
        s.window_updated(s.released).released == 0,
        s.window_updated(s.released).recv_flow.window == s.recv_flow.window + s.released,
        !s.window_updated(s.released).needs_window_update(),
{
}

/// Forgetting the closed streams forgets no other, and changes none.
pub proof fn lemma_open_streams_are_kept(store: StoreView, id: u32)
    requires
        store.wf(),
        store.has(id),
    ensures
        store.collected().wf(),
        store.collected().has(id) <==> !(store.streams[id].state is Closed),
        store.collected().has(id) ==> store.collected().streams[id] == store.streams[id],
{
    let alive = |id: u32| !(store.streams[id].state is Closed);
    lemma_filter_no_duplicates(store.ids, alive);
    assert forall|j: u32| #[trigger] store.collected().streams.dom().contains(j)
        <==> store.collected().ids.contains(j) by {
        lemma_filter_contains(store.ids, alive, j);
    }
}

/// A stream takes part in the protocol's life cycle as it should: it can end only where it
/// can be used, both ends must end for it to be closed, and headers do not revive it.
pub proof fn lemma_stream_life_cycle(s: StreamState, end_stream: bool)
    ensures
        s.local_end() is Some <==> s.spec_can_send(),
        s.remote_end() is Some <==> s.spec_can_recv(),
        s is Open ==> s.local_end()->0.remote_end() == Some(StreamState::Closed),
        s is Open ==> s.remote_end()->0.local_end() == Some(StreamState::Closed),
        s is Closed ==> s.headers_sent(end_stream) is None,
        s is Closed ==> s.headers_received(end_stream) is None,
        s.local_end() matches Some(t) ==> !t.spec_can_send(),
        s.remote_end() matches Some(t) ==> !t.spec_can_recv(),
{
}

/// How a stream lives: each end may send until it has ended its side, and the stream is over when
/// both have. HEADERS open it. Nothing else is allowed.
pub proof fn lemma_life_of_a_stream(s: StreamState, end_stream: bool)
    ensures
        StreamState::Idle.headers_sent(false) == Some(StreamState::Open),
        StreamState::Idle.headers_sent(true) == Some(StreamState::HalfClosedLocal),
        StreamState::Idle.headers_received(false) == Some(StreamState::Open),
        StreamState::Idle.headers_received(true) == Some(StreamState::HalfClosedRemote),
        s.spec_can_send() <==> s == StreamState::Open || s == StreamState::HalfClosedRemote,
        s.spec_can_recv() <==> s == StreamState::Open || s == StreamState::HalfClosedLocal,
        s.local_end() is Some <==> s.spec_can_send(),
        s.remote_end() is Some <==> s.spec_can_recv(),
        s.local_end() matches Some(t) ==> !t.spec_can_send() && t.spec_can_recv()
            == s.spec_can_recv(),
        s.remote_end() matches Some(t) ==> !t.spec_can_recv() && t.spec_can_send()
            == s.spec_can_send(),
        !(s is Idle) ==> s.headers_sent(true) == s.local_end() && s.headers_received(true)
            == s.remote_end(),
        s.spec_can_send() ==> s.headers_sent(false) == Some(s),
        s.spec_can_recv() ==> s.headers_received(false) == Some(s),
        s == StreamState::Closed ==> s.headers_sent(end_stream) is None && s.headers_received(
            end_stream,
        ) is None,
        s == StreamState::HalfClosedLocal ==> s.headers_sent(end_stream) is None,
        s == StreamState::HalfClosedRemote ==> s.headers_received(end_stream) is None,
{
}

/// A step of a stream's life that is not allowed is an error; one that is gives the state that
/// follows.
pub proof fn lemma_steps_follow(
    r: Result<StreamState, H2Error>,
    next: Option<StreamState>,
    message: Seq<char>,
)
    requires
        StreamState::is_step(r, next, message),
    ensures
        next matches Some(s) ==> r == Ok::<StreamState, H2Error>(s),
        next is None ==> r is Err,
{
}

} // verus!
