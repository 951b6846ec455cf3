//! The state kept between frames for the pixelflut server: the canvas, the
//! pixels last sent, and one command buffer per stream.

use vstd::prelude::*;
use crate::command::{pixel_changed, BINARY_COMMAND_LENGTH, PIXEL_BYTE_LENGTH};
use crate::frame::{refreshed_cache, CanvasSizeError, Dimensions, Frame};

verus! {

/// An "empty" pixel in the cache's eyes.
///
/// This is used for the first frame of a video. There, the "previous frame"
/// will be an entirely white (R255, G255, B255) image. Due to quantization,
/// no pixel can ever be 255 (closest it can be is 250). Thus, the first frame
/// will always be fully painted, without needing to put an Option around the
/// previous frame.
pub const EMPTY_PIXEL: u8 = 255;

/// How long the cache is trusted before every pixel is painted again, in
/// milliseconds.
pub const CACHE_REFRESH_MILLIS: u128 = 2000;

/// A network-related error occured.
#[derive(Clone, Copy, Debug, PartialEq, Eq)]
pub enum NetworkError {
    /// Failed to open TCP connection to the specified server.
    Connect,
    /// Failed to write to TCP stream on the specified server.
    Write,
    /// Failed to get the server's canvas size.
    Size(CanvasSizeError),
    /// The frame cannot be drawn on the canvas with these streams and cache
    /// (see `Frame::fits`).
    FrameDoesNotFit,
}

/// The cache `len` bytes long in which every pixel is empty.
pub open spec fn empty_cache(len: nat) -> Seq<u8> {
    Seq::new(len, |k: int| EMPTY_PIXEL)
}

/// What is kept from one frame to the next.
pub struct Network {
    /// The server's canvas' dimensions.
    canvas: Dimensions,
    /// The previous frame sent to the server, used for caching.
    previous_frame: Vec<u8>,
    /// The command buffers, one per stream.
    command_buffers: Vec<Vec<u8>>,
    /// When the cache was last forgotten, in milliseconds since the video
    /// started.
    last_refresh_millis: u128,
    /// Whether pixels are sent as binary `PB` commands rather than text `PX`
    /// commands.
    binary: bool,
}

impl Network {
    /// The server's canvas.
    pub closed spec fn spec_canvas(&self) -> Dimensions {
        self.canvas
    }

    /// The pixels last sent, three bytes each.
    pub closed spec fn cache(&self) -> Seq<u8> {
        self.previous_frame@
    }

    /// When the cache was last forgotten, in milliseconds since the video
    /// started.
    pub closed spec fn last_refresh(&self) -> u128 {
        self.last_refresh_millis
    }

    /// Whether pixels are sent as binary `PB` commands rather than text `PX`
    /// commands.
    pub closed spec fn spec_binary(&self) -> bool {
        self.binary
    }

    /// The command buffers, one per stream.
    pub closed spec fn buffers(&self) -> Seq<Seq<u8>> {
        self.command_buffers@.map_values(|b: Vec<u8>| b@)
    }

    /// The state for a canvas of `canvas` and frames of at most `max_width`
    /// x `max_height` pixels, with `n_streams` streams (at least one): the
    /// cache is empty, every buffer too.
    pub fn new(
        canvas: Dimensions,
        max_width: u32,
        max_height: u32,
        n_streams: usize,
        binary: bool,
    ) -> (net: Self)
        requires
            PIXEL_BYTE_LENGTH * max_width * max_height <= isize::MAX,
            BINARY_COMMAND_LENGTH * max_width <= usize::MAX,
            BINARY_COMMAND_LENGTH * max_width * max_height <= usize::MAX,
            BINARY_COMMAND_LENGTH * max_width * max_height / (if n_streams == 0 { 1 } else { n_streams as int }) <= isize::MAX,
        ensures
            net.spec_canvas() == canvas,
            net.spec_binary() == binary,
            net.last_refresh() == 0,
            net.cache() == empty_cache((PIXEL_BYTE_LENGTH * max_width * max_height) as nat),
            net.buffers() == Seq::new(
                (if n_streams == 0 { 1 } else { n_streams as int }) as nat,
                |i: int| Seq::<u8>::empty(),
            ),
    {
        let n = if n_streams == 0 {
            1
        } else {
            n_streams
        };
        let width = max_width as usize;
        let height = max_height as usize;
        proof {
            assert(PIXEL_BYTE_LENGTH * width <= BINARY_COMMAND_LENGTH * width);
            assert(PIXEL_BYTE_LENGTH * width * height <= BINARY_COMMAND_LENGTH * width * height) by (nonlinear_arith);
        }
        let cache_capacity = PIXEL_BYTE_LENGTH * width * height;
        let command_capacity = BINARY_COMMAND_LENGTH * width * height / n;
        let previous_frame = vec![EMPTY_PIXEL; cache_capacity];
        assert(previous_frame@ =~= empty_cache(cache_capacity as nat));
        let mut command_buffers: Vec<Vec<u8>> = Vec::new();
        let mut i: usize = 0;
        while i < n
            invariant
                i <= n,
                command_buffers@.len() == i,
                forall|j: int| 0 <= j < i ==> (#[trigger] command_buffers@[j])@ == Seq::<u8>::empty(),
            decreases n - i,
        {
            command_buffers.push(Vec::with_capacity(command_capacity));
            i = i + 1;
        }
        let net = Self { canvas, previous_frame, command_buffers, last_refresh_millis: 0, binary };
        assert(net.buffers() =~= Seq::new(n as nat, |i: int| Seq::<u8>::empty()));
        net
    }

    /// The server's canvas.
    pub fn canvas(&self) -> (c: Dimensions)
        ensures
            c == self.spec_canvas(),
    {
        self.canvas
    }

    /// The pixels last sent.
    pub fn previous_frame(&self) -> (p: &Vec<u8>)
        ensures
            p@ == self.cache(),
    {
        &self.previous_frame
    }

    /// The command buffers, one per stream.
    pub fn command_buffers(&self) -> (b: &Vec<Vec<u8>>)
        ensures
            b@.map_values(|v: Vec<u8>| v@) == self.buffers(),
    {
        &self.command_buffers
    }

    /// Forgets what was sent: every pixel of the next frame will be painted.
    pub fn reset_cache(&mut self)
        ensures
            final(self).spec_canvas() == old(self).spec_canvas(),
            final(self).buffers() == old(self).buffers(),
            final(self).spec_binary() == old(self).spec_binary(),
            final(self).last_refresh() == old(self).last_refresh(),
            final(self).cache() == empty_cache(old(self).cache().len()),
    {
        let len = self.previous_frame.len();
        let mut i: usize = 0;
        while i < len
            invariant
                i <= len,
                self.previous_frame@.len() == len,
                self.canvas == old(self).canvas,
                self.command_buffers == old(self).command_buffers,
                self.last_refresh_millis == old(self).last_refresh_millis,
                self.binary == old(self).binary,
                forall|j: int| 0 <= j < i ==> self.previous_frame@[j] == EMPTY_PIXEL,
            decreases len - i,
        {
            self.previous_frame.set(i, EMPTY_PIXEL);
            i = i + 1;
        }
        assert(self.previous_frame@ =~= empty_cache(len as nat));
    }

    /// A video starts: the cache counts as refreshed at time 0.
    pub fn start_video(&mut self)
        ensures
            final(self).spec_canvas() == old(self).spec_canvas(),
            final(self).buffers() == old(self).buffers(),
            final(self).spec_binary() == old(self).spec_binary(),
            final(self).cache() == old(self).cache(),
            final(self).last_refresh() == 0,
    {
        self.last_refresh_millis = 0;
    }

    /// Before a frame shown `now_millis` after the video started: when
    /// `CACHE_REFRESH_MILLIS` have passed since the cache was last forgotten,
    /// forgets it again and says so. Either way, the cache was forgotten less
    /// than `CACHE_REFRESH_MILLIS` before the frame.
    pub fn refresh_if_due(&mut self, now_millis: u128) -> (refreshed: bool)
        ensures
            refreshed == (now_millis >= old(self).last_refresh() + CACHE_REFRESH_MILLIS),
            final(self).spec_canvas() == old(self).spec_canvas(),
            final(self).buffers() == old(self).buffers(),
            final(self).spec_binary() == old(self).spec_binary(),
            final(self).cache() == if refreshed {
                empty_cache(old(self).cache().len())
            } else {
                old(self).cache()
            },
            final(self).last_refresh() == if refreshed {
                now_millis
            } else {
                old(self).last_refresh()
            },
            now_millis < final(self).last_refresh() + CACHE_REFRESH_MILLIS,
    {
        if now_millis >= self.last_refresh_millis && now_millis - self.last_refresh_millis
            >= CACHE_REFRESH_MILLIS {
            self.reset_cache();
            self.last_refresh_millis = now_millis;
            true
        } else {
            false
        }
    }

    /// Encodes `frame` into the command buffers against the cache, and
    /// updates the cache, as `Frame::fill_command_buffers` does. A frame that
    /// cannot be drawn (see `Frame::fits`) is refused with `FrameDoesNotFit`,
    /// and the buffers and the cache are lost, as when the encoding task
    /// fails.
    pub fn send_frame(&mut self, frame: &Frame) -> (res: Result<(), NetworkError>)
        ensures
            final(self).spec_canvas() == old(self).spec_canvas(),
            final(self).last_refresh() == old(self).last_refresh(),
            final(self).spec_binary() == old(self).spec_binary(),
            res is Ok <==> frame.fits(
                old(self).spec_canvas(),
                old(self).buffers().len() as int,
                old(self).cache().len() as int,
                old(self).spec_binary(),
            ),
            res is Err ==> {
                &&& res == Err::<(), NetworkError>(NetworkError::FrameDoesNotFit)
                &&& final(self).buffers() == Seq::<Seq<u8>>::empty()
                &&& final(self).cache() == Seq::<u8>::empty()
            },
            res is Ok ==> {
                &&& final(self).buffers().len() == old(self).buffers().len()
                &&& forall|i: int|
                    0 <= i < old(self).buffers().len() ==> #[trigger] final(self).buffers()[i]
                        == frame.stream_commands(
                        old(self).cache(),
                        old(self).spec_canvas(),
                        old(self).buffers().len() as int,
                        i,
                        old(self).spec_binary(),
                    )
                &&& final(self).cache() == refreshed_cache(
                    frame.data@,
                    old(self).cache(),
                    frame.drawn_rows(old(self).cache().len() as int, old(self).buffers().len() as int)
                        * frame.width,
                )
            },
    {
        if !frame.fits_on(
            &self.canvas,
            self.command_buffers.len(),
            self.previous_frame.len(),
            self.binary,
        ) {
            self.command_buffers = Vec::new();
            self.previous_frame = Vec::new();
            assert(self.buffers() =~= Seq::<Seq<u8>>::empty());
            return Err(NetworkError::FrameDoesNotFit);
        }
        let ghost old_buffers = self.command_buffers@;
        frame.fill_command_buffers(
            self.command_buffers.as_mut_slice(),
            self.previous_frame.as_mut_slice(),
            &self.canvas,
            self.binary,
        );
        assert forall|i: int| 0 <= i < old_buffers.len() implies #[trigger] self.buffers()[i]
            == frame.stream_commands(
            old(self).cache(),
            old(self).spec_canvas(),
            old(self).buffers().len() as int,
            i,
            old(self).spec_binary(),
        ) by {
            assert(self.buffers()[i] == self.command_buffers@[i]@);
        }
        Ok(())
    }
}

/// How long a stream worker waits before trying to connect again, in
/// milliseconds.
pub const RECONNECT_DELAY_MILLIS: u64 = 500;

/// Where a stream worker is.
#[derive(Clone, Copy, Debug, PartialEq, Eq)]
pub enum WorkerState {
    /// Not connected to the server.
    Disconnected,
    /// Connected, waiting for command buffers or writing them.
    Connected,
    /// The buffers are no longer published: the worker is done.
    Stopped,
}

/// What a stream worker learnt.
#[derive(Clone, Copy, Debug, PartialEq, Eq)]
pub enum WorkerEvent {
    /// Connecting to the server succeeded.
    ConnectSucceeded,
    /// Connecting to the server failed.
    ConnectFailed,
    /// New command buffers were published; the worker's own buffer has this
    /// length, or there is none for its stream.
    BuffersPublished(Option<usize>),
    /// Writing the worker's buffer succeeded.
    WriteSucceeded,
    /// Writing the worker's buffer failed.
    WriteFailed,
    /// The buffers will never be published again.
    ChannelClosed,
}

/// What a stream worker does next.
#[derive(Clone, Copy, Debug, PartialEq, Eq)]
pub enum WorkerAction {
    /// Connect to the server.
    Connect,
    /// Wait `RECONNECT_DELAY_MILLIS`, then connect to the server.
    ConnectAfterDelay,
    /// Wait for the next published buffers.
    AwaitBuffers,
    /// Write the worker's buffer to its connection.
    WriteBuffer,
    /// Stop.
    Stop,
}

/// The next state and action of a stream worker: it connects, retrying
/// after a delay when that fails; once connected it writes its own buffer
/// whenever new buffers are published and its buffer is not empty; a failed
/// write makes it connect again; when the buffers are no longer published it
/// stops. Events that do not fit the state leave it waiting as it was.
pub open spec fn worker_next(state: WorkerState, event: WorkerEvent) -> (WorkerState, WorkerAction) {
    match (state, event) {
        (WorkerState::Stopped, _) => (WorkerState::Stopped, WorkerAction::Stop),
        (_, WorkerEvent::ChannelClosed) => (WorkerState::Stopped, WorkerAction::Stop),
        (WorkerState::Disconnected, WorkerEvent::ConnectSucceeded) => (
            WorkerState::Connected,
            WorkerAction::AwaitBuffers,
        ),
        (WorkerState::Disconnected, _) => (WorkerState::Disconnected, WorkerAction::ConnectAfterDelay),
        (WorkerState::Connected, WorkerEvent::BuffersPublished(Some(len))) => {
            if len > 0 {
                (WorkerState::Connected, WorkerAction::WriteBuffer)
            } else {
                (WorkerState::Connected, WorkerAction::AwaitBuffers)
            }
        },
        (WorkerState::Connected, WorkerEvent::WriteFailed) => (
            WorkerState::Disconnected,
            WorkerAction::Connect,
        ),
        (WorkerState::Connected, _) => (WorkerState::Connected, WorkerAction::AwaitBuffers),
    }
}

/// The next state and action of a stream worker, as `worker_next` states.
pub fn worker_step(state: WorkerState, event: WorkerEvent) -> (next: (WorkerState, WorkerAction))
    ensures
        next == worker_next(state, event),
{
    match (state, event) {
        (WorkerState::Stopped, _) => (WorkerState::Stopped, WorkerAction::Stop),
        (_, WorkerEvent::ChannelClosed) => (WorkerState::Stopped, WorkerAction::Stop),
        (WorkerState::Disconnected, WorkerEvent::ConnectSucceeded) => (
            WorkerState::Connected,
            WorkerAction::AwaitBuffers,
        ),
        (WorkerState::Disconnected, _) => (WorkerState::Disconnected, WorkerAction::ConnectAfterDelay),
        (WorkerState::Connected, WorkerEvent::BuffersPublished(Some(len))) => {
            if len > 0 {
                (WorkerState::Connected, WorkerAction::WriteBuffer)
            } else {
                (WorkerState::Connected, WorkerAction::AwaitBuffers)
            }
        },
        (WorkerState::Connected, WorkerEvent::WriteFailed) => (
            WorkerState::Disconnected,
            WorkerAction::Connect,
        ),
        (WorkerState::Connected, _) => (WorkerState::Connected, WorkerAction::AwaitBuffers),
    }
}

/// A stream worker writes only while connected, only after buffers were
/// published and only a non-empty buffer; a failed write disconnects it and
/// it connects again; a stopped worker stays stopped.
pub proof fn law_worker_writes_only_connected(state: WorkerState, event: WorkerEvent)
    ensures
        worker_next(state, event).1 == WorkerAction::WriteBuffer ==> state == WorkerState::Connected
            && (event matches WorkerEvent::BuffersPublished(Some(len)) && len > 0),
        state == WorkerState::Connected && event == WorkerEvent::WriteFailed ==> worker_next(
            state,
            event,
        ) == (WorkerState::Disconnected, WorkerAction::Connect),
        state == WorkerState::Stopped ==> worker_next(state, event) == (
            WorkerState::Stopped,
            WorkerAction::Stop,
        ),
{
}

/// What a stream worker does, transition by transition: a failed connection
/// is retried after the delay, a successful one waits for buffers; once
/// connected, every non-empty buffer published for its stream is written, an
/// empty or missing one is skipped, a written buffer is followed by waiting,
/// and a failed write makes it connect again at once; a closed channel stops
/// it from any state, and a stopped worker stays stopped.
pub proof fn law_worker_transitions(event: WorkerEvent, len: usize)
    ensures
        len > 0 ==> worker_next(WorkerState::Connected, WorkerEvent::BuffersPublished(Some(len)))
            == (WorkerState::Connected, WorkerAction::WriteBuffer),
        worker_next(WorkerState::Connected, WorkerEvent::BuffersPublished(Some(0))) == (
            WorkerState::Connected,
            WorkerAction::AwaitBuffers,
        ),
        worker_next(WorkerState::Connected, WorkerEvent::BuffersPublished(None)) == (
            WorkerState::Connected,
            WorkerAction::AwaitBuffers,
        ),
        worker_next(WorkerState::Connected, WorkerEvent::WriteSucceeded) == (
            WorkerState::Connected,
            WorkerAction::AwaitBuffers,
        ),
        worker_next(WorkerState::Connected, WorkerEvent::WriteFailed) == (
            WorkerState::Disconnected,
            WorkerAction::Connect,
        ),
        worker_next(WorkerState::Disconnected, WorkerEvent::ConnectFailed) == (
            WorkerState::Disconnected,
            WorkerAction::ConnectAfterDelay,
        ),
        worker_next(WorkerState::Disconnected, WorkerEvent::ConnectSucceeded) == (
            WorkerState::Connected,
            WorkerAction::AwaitBuffers,
        ),
        worker_next(WorkerState::Disconnected, WorkerEvent::ChannelClosed) == (
            WorkerState::Stopped,
            WorkerAction::Stop,
        ),
        worker_next(WorkerState::Connected, WorkerEvent::ChannelClosed) == (
            WorkerState::Stopped,
            WorkerAction::Stop,
        ),
        worker_next(WorkerState::Stopped, event) == (WorkerState::Stopped, WorkerAction::Stop),
{
}

/// A fresh cache makes every pixel of a quantized frame be painted: each
/// channel of such a frame is at most 250, so each pixel is at least 15 away
/// from an empty pixel.
pub proof fn law_empty_cache_paints_quantized_pixels(data: Seq<u8>, len: nat, p: int)
    requires
        0 <= p,
        3 * p + 2 < data.len(),
        3 * p + 2 < len,
        data[3 * p] <= 250,
        data[3 * p + 1] <= 250,
        data[3 * p + 2] <= 250,
    ensures
        pixel_changed(data, empty_cache(len), p),
        refreshed_cache(data, empty_cache(len), p + 1)[3 * p] == data[3 * p],
        refreshed_cache(data, empty_cache(len), p + 1)[3 * p + 1] == data[3 * p + 1],
        refreshed_cache(data, empty_cache(len), p + 1)[3 * p + 2] == data[3 * p + 2],
{
}

} // verus!
