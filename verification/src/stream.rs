//! Listening to one user: what is said without a pause goes to one speech channel,
//! and a pause ends it.

use crate::nn::iterator::{filled, pad_and_cut, padded, piece};
use crate::nn::model::Segment;
use vstd::prelude::*;

verus! {

/// How many samples are resampled at once.
pub const RESAMPLE_CHUNK_SIZE: usize = 20_000;

/// Speech is padded towards a multiple of this many samples.
pub const SPEECH_PAD_SIZE: usize = 1_440_000;

/// What comes from a user: nothing for a while, or samples.
#[derive(Clone, Debug)]
pub enum StreamSide {
    Silence,
    Speech(Vec<i16>),
}

/// What is to be done. Speech channels are numbered in the order in which they are
/// opened.
#[derive(Clone, Debug)]
pub enum ListenAction {
    /// Wait for more.
    Wait,
    /// Close the speech channel: the user paused.
    Close { channel: u64 },
    /// Open a speech channel, have its speech processed, and send the samples on it.
    OpenAndSend { channel: u64, pcm: Vec<i16> },
    /// Send the samples on the speech channel.
    Send { channel: u64, pcm: Vec<i16> },
    /// The user is gone.
    Stop,
}

/// Processes the stream of one user.
pub struct StreamProcessor {
    current: Option<u64>,
    next_channel: u64,
}

/// The open speech channel, and the number of the next one.
pub struct StreamProcessorView {
    pub current: Option<u64>,
    pub next_channel: nat,
}

impl StreamProcessorView {
    /// An open speech channel has been numbered.
    pub open spec fn wf(self) -> bool {
        self.current matches Some(channel) ==> channel < self.next_channel
    }

    /// How listening goes on, and what is to be done, after `side` came, or after
    /// the user was gone.
    pub open spec fn on(self, side: Option<StreamSide>) -> (StreamProcessorView, ListenAction) {
        let fresh = self.next_channel as u64;
        match (side, self.current) {
            (None, _) => (self, ListenAction::Stop),
            (Some(StreamSide::Silence), Some(channel)) => (
                StreamProcessorView { current: None, ..self },
                ListenAction::Close { channel },
            ),
            (Some(StreamSide::Silence), None) => (self, ListenAction::Wait),
            (Some(StreamSide::Speech(pcm)), Some(channel)) => (
                self,
                ListenAction::Send { channel, pcm },
            ),
            (Some(StreamSide::Speech(pcm)), None) => (
                StreamProcessorView { current: Some(fresh), next_channel: self.next_channel + 1 },
                ListenAction::OpenAndSend { channel: fresh, pcm },
            ),
        }
    }
}

impl View for StreamProcessor {
    type V = StreamProcessorView;

    closed spec fn view(&self) -> StreamProcessorView {
        StreamProcessorView { current: self.current, next_channel: self.next_channel as nat }
    }
}

impl StreamProcessor {
    /// A processor with no open speech channel.
    pub fn new() -> (r: StreamProcessor)
        ensures
            r@.wf(),
            r@ == (StreamProcessorView { current: None, next_channel: 0 }),
    {
        StreamProcessor { current: None, next_channel: 0 }
    }

    /// Takes in what came from the user, or that the user is gone.
    pub fn listen_to_user(&mut self, side: Option<StreamSide>) -> (r: ListenAction)
        requires
            old(self)@.wf(),
            old(self)@.next_channel < u64::MAX,
        ensures
            final(self)@.wf(),
            (final(self)@, r) == old(self)@.on(side),
    {
        let side: StreamSide = match side {
            Some(side) => side,
            None => return ListenAction::Stop,
        };
        match side {
            StreamSide::Silence => match self.current {
                Some(channel) => {
                    self.current = None;
                    ListenAction::Close { channel }
                },
                None => ListenAction::Wait,
            },
            StreamSide::Speech(pcm) => match self.current {
                Some(channel) => ListenAction::Send { channel, pcm },
                None => {
                    let channel: u64 = self.next_channel;
                    self.next_channel = channel + 1;
                    self.current = Some(channel);
                    ListenAction::OpenAndSend { channel, pcm }
                },
            },
        }
    }
}

/// What is said without a pause goes to one speech channel, and what is said after a
/// pause goes to another.
pub proof fn pauses_separate_speech(
    processor: StreamProcessorView,
    first: Vec<i16>,
    second: Vec<i16>,
    third: Vec<i16>,
)
    requires
        processor.wf(),
        processor.current is None,
        processor.next_channel + 1 < u64::MAX,
    ensures
        ({
            let (a, opened) = processor.on(Some(StreamSide::Speech(first)));
            let (b, sent) = a.on(Some(StreamSide::Speech(second)));
            let (c, closed) = b.on(Some(StreamSide::Silence));
            let (_, reopened) = c.on(Some(StreamSide::Speech(third)));
            &&& opened matches ListenAction::OpenAndSend { channel, pcm }
            &&& pcm == first
            &&& sent == ListenAction::Send { channel, pcm: second }
            &&& closed == ListenAction::Close { channel }
            &&& reopened matches ListenAction::OpenAndSend { channel: other, pcm: later }
            &&& later == third
            &&& other != channel
        }),
{
}

/// Cuts the samples of finished speech for resampling: they are padded, and the last
/// piece is filled up, with `zero`.
pub fn speech_chunks<T: Copy>(samples: &Vec<T>, zero: T) -> (r: Vec<Vec<T>>)
    ensures
        ({
            let all = padded(samples@, SPEECH_PAD_SIZE as nat, zero);
            let len = RESAMPLE_CHUNK_SIZE as nat;
            &&& (r@.len() - 1) * len < all.len() <= r@.len() * len
            &&& forall|k: int|
                0 <= k < r@.len() ==> (#[trigger] r@[k])@ == filled(piece(all, len, k), len, zero)
        }),
        forall|k: int| 0 <= k < r@.len() ==> (#[trigger] r@[k])@.len() == 20_000,
        forall|k: int, j: int|
            0 <= k < r@.len() && 0 <= j < 20_000 ==> #[trigger] r@[k]@[j] == if k * 20_000 + j
                < samples@.len() {
                samples@[k * 20_000 + j]
            } else {
                zero
            },
{
    pad_and_cut(samples, SPEECH_PAD_SIZE, RESAMPLE_CHUNK_SIZE, zero)
}

/// When speech was listened to and transcribed, in nanoseconds of Unix time.
#[derive(Clone, Copy, Debug, PartialEq, Eq, Structural)]
pub struct Timings {
    pub started_listening_at: i128,
    pub done_listening_at: i128,
    pub done_prediction_at: i128,
}

/// What a user said, and when.
#[derive(Clone, Debug)]
pub struct UserSegments {
    pub user_id: u64,
    pub segments: Vec<Segment>,
    pub timings: Timings,
}

/// What becomes of what a user says: it goes, as it is, to the speech channel that is
/// open, and where none is open, to a new one, which then is.
pub proof fn speech_goes_to_the_open_channel(processor: StreamProcessorView, pcm: Vec<i16>)
    ensures
        ({
            let (then, action) = processor.on(Some(StreamSide::Speech(pcm)));
            &&& processor.current matches Some(channel) ==> {
                &&& action == (ListenAction::Send { channel, pcm })
                &&& then == processor
            }
            &&& processor.current is None ==> {
                &&& action == (ListenAction::OpenAndSend {
                    channel: processor.next_channel as u64,
                    pcm,
                })
                &&& then.current == Some(processor.next_channel as u64)
                &&& then.next_channel == processor.next_channel + 1
            }
        }),
{
}

/// What becomes of a pause: it closes the speech channel that is open, and does nothing
/// where none is. When the user is gone, listening stops.
pub proof fn pauses_close_the_open_channel(processor: StreamProcessorView)
    ensures
        ({
            let (then, action) = processor.on(Some(StreamSide::Silence));
            &&& processor.current matches Some(channel) ==> action == (ListenAction::Close {
                channel,
            })
            &&& processor.current is None ==> action is Wait
            &&& then.current is None
            &&& then.next_channel == processor.next_channel
        }),
        processor.on(None) == (processor, ListenAction::Stop),
{
}

} // verus!
