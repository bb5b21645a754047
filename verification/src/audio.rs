//! What is heard on a voice stream, how it is gathered into utterances, and the
//! table of streams that are being listened to.

use vstd::prelude::*;

verus! {

/// Samples per second and channel of the audio that the voice channel delivers.
pub const DISCORD_VOICE_SAMPLERATE_HZ: usize = 48_000;

/// Samples per second that the speech model expects.
pub const WHISPER_SAMPLERATE_HZ: usize = 16_000;

/// A speaker's stream: the user and the source that the audio comes from.
#[derive(Clone, Copy, Debug, PartialEq, Eq, Structural)]
pub struct StreamInfo {
    pub user_id: u64,
    pub ssrc: u32,
}

/// What a user did in the voice channel.
#[derive(Clone, Copy, Debug, PartialEq, Eq, Structural)]
pub enum Event {
    Connect,
    SpeakForFirstTime,
    BeginSpeaking,
    EndSpeaking,
    Disconnect,
}

/// What a user did, on which source where it was on one, and when, in nanoseconds of
/// Unix time.
#[derive(Clone, Copy, Debug, PartialEq, Eq, Structural)]
pub struct VoiceEvent {
    pub user_id: u64,
    pub ssrc: Option<u32>,
    pub timestamp: i128,
    pub event: Event,
}

/// What a stream delivers: nothing for a while, a packet of interleaved stereo
/// samples, or (as `Audio(None)`) its end.
#[derive(Clone, Debug)]
pub enum StreamSide {
    Silence,
    Audio(Option<Vec<i16>>),
}

/// A stream that is to be listened to, with the receiving end of its packets.
pub struct ChannelSetup<R> {
    pub info: StreamInfo,
    pub pcm_data_recv: R,
}

/// A stream that is being listened to, with the task that does so.
pub struct RecvTask<H> {
    pub stream_info: StreamInfo,
    pub task: H,
}

/// What the listening loop waits for: a new stream, or the end of a task.
pub enum Ty<R, E> {
    Init(ChannelSetup<R>),
    Completed(Result<StreamInfo, E>),
}

/// The left channel of interleaved stereo samples.
pub open spec fn left(pcm: Seq<i16>) -> Seq<i16> {
    Seq::new(((pcm.len() + 1) / 2) as nat, |i: int| pcm[2 * i])
}

/// Takes the left channel of interleaved stereo samples.
pub fn left_channel(pcm: &Vec<i16>) -> (r: Vec<i16>)
    ensures
        r@ == left(pcm@),
        r@.len() == (pcm@.len() + 1) / 2,
        forall|i: int| 0 <= i < r@.len() ==> #[trigger] r@[i] == pcm@[2 * i],
{
    let mut r: Vec<i16> = Vec::new();
    let mut i: usize = 0;
    while i < pcm.len()
        invariant
            r@.len() <= pcm@.len(),
            i < pcm@.len() ==> i == 2 * r@.len(),
            i >= pcm@.len() ==> r@.len() == (pcm@.len() + 1) / 2,
            forall|j: int| 0 <= j < r@.len() ==> r@[j] == pcm@[2 * j],
        decreases pcm@.len() - i,
    {
        r.push(pcm[i]);
        if pcm.len() - i <= 2 {
            i = pcm.len();
        } else {
            i = i + 2;
        }
    }
    assert(r@ =~= left(pcm@));
    r
}

/// Audio that is ready to be transcribed, and when it began.
#[derive(Clone, Debug)]
pub struct Utterance {
    pub samples: Vec<i16>,
    pub started_at: i128,
}

/// What to do after something came from a stream.
#[derive(Clone, Debug)]
pub enum StreamStep {
    /// Wait for more.
    Continue,
    /// Have the utterance transcribed, and wait for more.
    Submit(Utterance),
    /// Stop listening.
    Close,
}

/// The audio of a stream since the last utterance was submitted.
pub struct StreamBuffer {
    buffer: Vec<i16>,
    started_filling_at: Option<i128>,
}

/// What has gathered in a stream buffer.
pub struct StreamBufferView {
    pub samples: Seq<i16>,
    pub started_at: Option<i128>,
}

/// What a stream delivers, with its samples as a sequence.
pub enum SideView {
    Silence,
    Audio(Option<Seq<i16>>),
}

/// What to do next, with the samples as a sequence.
pub enum StepView {
    Continue,
    Submit { samples: Seq<i16>, started_at: i128 },
    Close,
}

impl View for StreamSide {
    type V = SideView;

    open spec fn view(&self) -> SideView {
        match self {
            StreamSide::Silence => SideView::Silence,
            StreamSide::Audio(Some(pcm)) => SideView::Audio(Some(pcm@)),
            StreamSide::Audio(None) => SideView::Audio(None),
        }
    }
}

impl View for StreamStep {
    type V = StepView;

    open spec fn view(&self) -> StepView {
        match self {
            StreamStep::Continue => StepView::Continue,
            StreamStep::Submit(u) => StepView::Submit {
                samples: u.samples@,
                started_at: u.started_at,
            },
            StreamStep::Close => StepView::Close,
        }
    }
}

impl View for StreamBuffer {
    type V = StreamBufferView;

    closed spec fn view(&self) -> StreamBufferView {
        StreamBufferView { samples: self.buffer@, started_at: self.started_filling_at }
    }
}

impl StreamBufferView {
    /// Samples are never without the time at which they began.
    pub open spec fn wf(self) -> bool {
        self.samples.len() > 0 ==> self.started_at is Some
    }

    /// How the buffer changes, and what to do, when the stream delivers `side` at
    /// the time `now`: silence submits what has gathered, audio adds its left
    /// channel, and the end of the stream drops what has gathered.
    pub open spec fn on_side(self, side: SideView, now: i128) -> (StreamBufferView, StepView) {
        let started_at = Some(
            match self.started_at {
                Some(t) => t,
                None => now,
            },
        );
        match side {
            SideView::Silence => if self.samples.len() == 0 {
                (self, StepView::Continue)
            } else {
                (
                    StreamBufferView { samples: Seq::empty(), started_at: None },
                    StepView::Submit { samples: self.samples, started_at: self.started_at->0 },
                )
            },
            SideView::Audio(Some(pcm)) => (
                StreamBufferView { samples: self.samples + left(pcm), started_at },
                StepView::Continue,
            ),
            SideView::Audio(None) => (
                StreamBufferView { samples: self.samples, started_at },
                StepView::Close,
            ),
        }
    }

    /// The buffer after several deliveries, each with its time.
    pub open spec fn after(self, sides: Seq<(SideView, i128)>) -> StreamBufferView
        decreases sides.len(),
    {
        if sides.len() == 0 {
            self
        } else {
            self.after(sides.drop_last()).on_side(sides.last().0, sides.last().1).0
        }
    }

    /// The samples of the utterances that several deliveries submit, in order.
    pub open spec fn submitted(self, sides: Seq<(SideView, i128)>) -> Seq<i16>
        decreases sides.len(),
    {
        if sides.len() == 0 {
            Seq::empty()
        } else {
            let before = self.submitted(sides.drop_last());
            match self.after(sides.drop_last()).on_side(sides.last().0, sides.last().1).1 {
                StepView::Submit { samples, started_at } => before + samples,
                _ => before,
            }
        }
    }
}

/// The left channel of all the audio in several deliveries, in order.
pub open spec fn heard(sides: Seq<(SideView, i128)>) -> Seq<i16>
    decreases sides.len(),
{
    if sides.len() == 0 {
        Seq::empty()
    } else {
        let before = heard(sides.drop_last());
        match sides.last().0 {
            SideView::Audio(Some(pcm)) => before + left(pcm),
            _ => before,
        }
    }
}

impl StreamBuffer {
    /// A buffer in which nothing has gathered, with room for a while of speech.
    pub fn new() -> (r: StreamBuffer)
        ensures
            r@.wf(),
            r@ == (StreamBufferView { samples: Seq::empty(), started_at: None }),
    {
        let capacity: usize = (10_000 / 20) * DISCORD_VOICE_SAMPLERATE_HZ;
        StreamBuffer { buffer: Vec::with_capacity(capacity), started_filling_at: None }
    }

    /// Takes in what the stream delivered at the time `now`.
    pub fn handle_stream(&mut self, side: StreamSide, now: i128) -> (r: StreamStep)
        requires
            old(self)@.wf(),
        ensures
            final(self)@.wf(),
            (final(self)@, r@) == old(self)@.on_side(side@, now),
            side is Silence ==> {
                &&& final(self)@.samples.len() == 0
                &&& old(self)@.samples.len() == 0 ==> r is Continue
                &&& old(self)@.samples.len() > 0 ==> (r matches StreamStep::Submit(utterance)
                    && utterance.samples@ == old(self)@.samples && Some(utterance.started_at)
                    == old(self)@.started_at)
            },
            side matches StreamSide::Audio(Some(pcm)) ==> {
                let before = old(self)@.samples;
                &&& r is Continue
                &&& final(self)@.samples.len() == before.len() + (pcm@.len() + 1) / 2
                &&& forall|i: int|
                    0 <= i < before.len() ==> #[trigger] final(self)@.samples[i] == before[i]
                &&& forall|i: int|
                    before.len() <= i < final(self)@.samples.len()
                        ==> #[trigger] final(self)@.samples[i] == pcm@[2 * (i - before.len())]
            },
            side matches StreamSide::Audio(None) ==> r is Close,
    {
        match side {
            StreamSide::Silence => {
                if self.buffer.len() == 0 {
                    return StreamStep::Continue;
                }
                let mut samples: Vec<i16> = Vec::new();
                samples.append(&mut self.buffer);
                let started_at: i128 = match self.started_filling_at {
                    Some(t) => t,
                    None => now,
                };
                self.started_filling_at = None;
                StreamStep::Submit(Utterance { samples, started_at })
            },
            StreamSide::Audio(audio) => {
                if self.started_filling_at.is_none() {
                    self.started_filling_at = Some(now);
                }
                match audio {
                    Some(pcm) => {
                        let mut mono: Vec<i16> = left_channel(&pcm);
                        self.buffer.append(&mut mono);
                        StreamStep::Continue
                    },
                    None => StreamStep::Close,
                }
            },
        }
    }
}

/// The streams that are being listened to, in the order in which they were added.
pub struct StreamTasks<H> {
    pub tasks: Vec<RecvTask<H>>,
}

/// What the listening loop does after it was woken.
pub enum StreamsStep<R> {
    /// Start a task that listens to the stream, and add it to the table.
    Listen(ChannelSetup<R>),
    /// The stream has ended.
    Ended(StreamInfo),
    /// A task failed, and the loop goes on.
    Failed,
}

/// The tasks that do not listen to the stream `info`, in their order.
pub open spec fn without<H>(tasks: Seq<RecvTask<H>>, info: StreamInfo) -> Seq<RecvTask<H>> {
    tasks.filter(|t: RecvTask<H>| t.stream_info != info)
}

impl<H> StreamTasks<H> {
    /// A table with one task that never ends, under the user and source zero.
    pub fn new(pending: H) -> (r: StreamTasks<H>)
        ensures
            r.tasks@ == seq![
                RecvTask { stream_info: StreamInfo { user_id: 0, ssrc: 0 }, task: pending },
            ],
    {
        let mut tasks: Vec<RecvTask<H>> = Vec::new();
        tasks.push(RecvTask { stream_info: StreamInfo { user_id: 0, ssrc: 0 }, task: pending });
        StreamTasks { tasks }
    }

    /// Takes in what woke the listening loop.
    pub fn handle_audio_streams<R, E>(&mut self, woken_by: Ty<R, E>) -> (r: StreamsStep<R>)
        ensures
            match woken_by {
                Ty::Init(setup) => r == StreamsStep::Listen(setup) && final(self).tasks@ == old(self).tasks@,
                Ty::Completed(Ok(info)) => r == StreamsStep::<R>::Ended(info) && final(self).tasks@ == without(
                    old(self).tasks@,
                    info,
                ),
                Ty::Completed(Err(_)) => r is Failed && final(self).tasks@ == old(self).tasks@,
            },
    {
        match woken_by {
            Ty::Init(setup) => StreamsStep::Listen(setup),
            Ty::Completed(result) => match self.finished(result) {
                Some(info) => StreamsStep::Ended(info),
                None => StreamsStep::Failed,
            },
        }
    }

    /// Adds the task that listens to a new stream.
    pub fn started(&mut self, stream_info: StreamInfo, task: H)
        ensures
            final(self).tasks@ == old(self).tasks@.push(RecvTask { stream_info, task }),
    {
        self.tasks.push(RecvTask { stream_info, task });
    }

    /// Drops every task of a stream whose task has ended and names the stream. A
    /// task that failed changes nothing.
    pub fn finished<E>(&mut self, result: Result<StreamInfo, E>) -> (r: Option<StreamInfo>)
        ensures
            match result {
                Ok(info) => r == Some(info) && final(self).tasks@ == without(old(self).tasks@, info),
                Err(_) => r is None && final(self).tasks@ == old(self).tasks@,
            },
    {
        let info: StreamInfo = match result {
            Ok(info) => info,
            Err(_) => return None,
        };
        let ghost all = self.tasks@;
        let ghost keep = |t: RecvTask<H>| t.stream_info != info;
        let ghost mut seen: int = 0;
        let mut i: usize = 0;
        proof {
            reveal(Seq::filter);
            assert(all.take(0).filter(keep) =~= Seq::empty());
            assert(all.skip(0) =~= all);
            assert(self.tasks@.take(0) =~= Seq::empty());
        }
        while i < self.tasks.len()
            invariant
                i <= self.tasks@.len(),
                0 <= seen <= all.len(),
                keep == (|t: RecvTask<H>| t.stream_info != info),
                self.tasks@.take(i as int) == all.take(seen).filter(keep),
                self.tasks@.skip(i as int) == all.skip(seen),
            decreases self.tasks@.len() - i,
        {
            let ghost before = self.tasks@;
            proof {
                assert(before.skip(i as int).len() == all.skip(seen).len());
                assert(before.skip(i as int)[0] == all.skip(seen)[0]);
                assert(before[i as int] == all[seen]);
                assert(all.take(seen + 1).drop_last() =~= all.take(seen));
                reveal(Seq::filter);
                assert(all.skip(seen + 1) =~= all.skip(seen).skip(1));
                assert(before.skip(i as int).skip(1) =~= before.skip(i + 1));
            }
            if self.tasks[i].stream_info == info {
                let _ = self.tasks.remove(i);
                proof {
                    assert(self.tasks@.take(i as int) =~= before.take(i as int));
                    assert(self.tasks@.skip(i as int) =~= before.skip(i + 1));
                }
            } else {
                i = i + 1;
                proof {
                    assert(self.tasks@.take(i as int) =~= before.take(i - 1).push(all[seen]));
                }
            }
            proof {
                seen = seen + 1;
            }
        }
        proof {
            assert(self.tasks@.skip(i as int).len() == 0);
            assert(seen == all.len());
            assert(all.take(seen) =~= all);
            assert(self.tasks@.take(i as int) =~= self.tasks@);
        }
        Some(info)
    }
}

/// Until a stream ends, every sample that it delivers on its left channel is
/// submitted once and in order, or is still in the buffer.
pub proof fn nothing_heard_is_lost(start: StreamBufferView, sides: Seq<(SideView, i128)>)
    requires
        start.wf(),
    ensures
        start.after(sides).wf(),
        start.submitted(sides) + start.after(sides).samples == start.samples + heard(sides),
    decreases sides.len(),
{
    if sides.len() > 0 {
        nothing_heard_is_lost(start, sides.drop_last());
        let before = start.after(sides.drop_last());
        match sides.last().0 {
            SideView::Audio(Some(pcm)) => {
                assert(start.submitted(sides) + (before.samples + left(pcm))
                    =~= (start.submitted(sides.drop_last()) + before.samples) + left(pcm));
                assert((start.samples + heard(sides.drop_last())) + left(pcm) =~= start.samples
                    + (heard(sides.drop_last()) + left(pcm)));
            },
            SideView::Audio(None) => {},
            SideView::Silence => {
                assert(start.submitted(sides) + start.after(sides).samples =~= start.submitted(
                    sides.drop_last(),
                ) + before.samples);
            },
        }
    } else {
        assert(Seq::<i16>::empty() + start.samples =~= start.samples + Seq::<i16>::empty());
    }
}

/// An utterance begins at the time of its first packet.
pub proof fn utterances_begin_with_their_first_packet(
    start: StreamBufferView,
    sides: Seq<(SideView, i128)>,
    now: i128,
)
    requires
        start.wf(),
        start.started_at is None,
        sides.len() > 0,
        forall|i: int| 0 <= i < sides.len() ==> (#[trigger] sides[i]).0 is Audio,
    ensures
        start.after(sides).started_at == Some(sides[0].1),
        start.after(sides).on_side(SideView::Silence, now).1 == if heard(sides).len() > 0 {
            StepView::Submit { samples: heard(sides), started_at: sides[0].1 }
        } else {
            StepView::Continue
        },
    decreases sides.len(),
{
    let rest = sides.drop_last();
    nothing_heard_is_lost(start, sides);
    lemma_audio_is_not_submitted(start, sides);
    if rest.len() > 0 {
        assert(rest[0] == sides[0]);
        assert forall|i: int| 0 <= i < rest.len() implies (#[trigger] rest[i]).0 is Audio by {
            assert(sides[i].0 is Audio);
        }
        utterances_begin_with_their_first_packet(start, rest, now);
    }
    assert(sides[sides.len() - 1].0 is Audio);
    assert(start.after(sides).samples =~= heard(sides));
}

/// Nothing is submitted while audio comes.
proof fn lemma_audio_is_not_submitted(start: StreamBufferView, sides: Seq<(SideView, i128)>)
    requires
        forall|i: int| 0 <= i < sides.len() ==> (#[trigger] sides[i]).0 is Audio,
    ensures
        start.submitted(sides) == Seq::<i16>::empty(),
    decreases sides.len(),
{
    if sides.len() > 0 {
        let rest = sides.drop_last();
        assert forall|i: int| 0 <= i < rest.len() implies (#[trigger] rest[i]).0 is Audio by {
            assert(sides[i].0 is Audio);
        }
        assert(sides[sides.len() - 1].0 is Audio);
        lemma_audio_is_not_submitted(start, rest);
    }
}

/// A stream that was silent long enough has nothing left to submit.
pub proof fn silence_empties_the_buffer(start: StreamBufferView, now: i128, later: i128)
    requires
        start.wf(),
    ensures
        start.on_side(SideView::Silence, now).0.samples.len() == 0,
        start.on_side(SideView::Silence, now).0.on_side(SideView::Silence, later).1
            == StepView::Continue,
{
}

/// When a stream has ended, none of its tasks is left, and every other task stays.
pub proof fn ended_streams_leave<H>(tasks: Seq<RecvTask<H>>, info: StreamInfo)
    ensures
        forall|i: int|
            0 <= i < without(tasks, info).len() ==> (#[trigger] without(tasks, info)[i]).stream_info != info
                && tasks.contains(without(tasks, info)[i]),
        forall|i: int|
            0 <= i < tasks.len() && (#[trigger] tasks[i]).stream_info != info ==> without(tasks, info).contains(tasks[i]),
{
    let keep = |t: RecvTask<H>| t.stream_info != info;
    let kept = without(tasks, info);
    broadcast use vstd::seq_lib::group_filter_ensures;

    assert forall|i: int| 0 <= i < tasks.len() && (#[trigger] tasks[i]).stream_info != info implies kept.contains(
        tasks[i],
    ) by {
        tasks.lemma_filter_contains(keep, i);
    }
    assert forall|i: int| 0 <= i < kept.len() implies (#[trigger] kept[i]).stream_info != info
        && tasks.contains(kept[i]) by {
        assert(keep(kept[i]));
        tasks.lemma_filter_contains_rev(keep, kept[i]);
    }
}

/// A packet adds the samples at its even places, whatever they are, after those that
/// gathered before; the first packet of an utterance sets its time.
pub proof fn packets_add_their_left_samples(buffer: StreamBufferView, pcm: Seq<i16>, now: i128)
    ensures
        ({
            let (next, step) = buffer.on_side(SideView::Audio(Some(pcm)), now);
            let new = next.samples.skip(buffer.samples.len() as int);
            &&& step is Continue
            &&& next.samples.len() == buffer.samples.len() + (pcm.len() + 1) / 2
            &&& next.samples.take(buffer.samples.len() as int) == buffer.samples
            &&& forall|i: int| 0 <= i < new.len() ==> #[trigger] new[i] == pcm[2 * i]
            &&& next.started_at == if buffer.started_at is Some {
                buffer.started_at
            } else {
                Some(now)
            }
        }),
{
    let (next, step) = buffer.on_side(SideView::Audio(Some(pcm)), now);
    assert(next.samples.take(buffer.samples.len() as int) =~= buffer.samples);
}

/// Silence hands out all that gathered, as it is and with its time, and leaves nothing;
/// where nothing gathered it changes nothing. The end of a stream hands out nothing.
pub proof fn silence_hands_out_what_gathered(buffer: StreamBufferView, now: i128)
    ensures
        ({
            let (next, step) = buffer.on_side(SideView::Silence, now);
            &&& buffer.samples.len() == 0 ==> next == buffer && step is Continue
            &&& buffer.samples.len() > 0 ==> {
                &&& next.samples.len() == 0
                &&& next.started_at is None
                &&& step matches StepView::Submit { samples, started_at }
                &&& samples == buffer.samples
                &&& started_at == buffer.started_at->0
            }
        }),
        buffer.on_side(SideView::Audio(None), now).1 is Close,
{
}

/// The samples of a packet are in the utterance that the next silence submits, at the
/// end, and at the beginning where nothing had gathered before.
pub proof fn utterances_hold_their_packets(buffer: StreamBufferView, pcm: Seq<i16>, now: i128, later: i128)
    requires
        buffer.wf(),
        pcm.len() > 0,
    ensures
        ({
            let heard = buffer.on_side(SideView::Audio(Some(pcm)), now).0;
            let before = buffer.samples.len();
            &&& heard.on_side(SideView::Silence, later).1 matches StepView::Submit {
                samples,
                started_at,
            }
            &&& samples.len() == before + (pcm.len() + 1) / 2
            &&& forall|i: int|
                before <= i < samples.len() ==> #[trigger] samples[i] == pcm[2 * (i - before)]
            &&& forall|i: int| 0 <= i < before ==> #[trigger] samples[i] == buffer.samples[i]
            &&& buffer.started_at is None ==> started_at == now
        }),
{
}

/// A table without a stream is the table without the tasks of that user and source, one
/// by one.
pub proof fn tasks_leave_one_by_one<H>(tasks: Seq<RecvTask<H>>, next: RecvTask<H>, info: StreamInfo)
    ensures
        without(Seq::<RecvTask<H>>::empty(), info).len() == 0,
        without(tasks.push(next), info) == if next.stream_info.user_id == info.user_id
            && next.stream_info.ssrc == info.ssrc {
            without(tasks, info)
        } else {
            without(tasks, info).push(next)
        },
{
    reveal(Seq::filter);
    assert(tasks.push(next).drop_last() =~= tasks);
}

/// An utterance holds every packet since the last pause: packet number `k` stands behind
/// those before it, with the samples at its even places, and nothing else is in it.
pub proof fn utterances_hold_every_packet(
    start: StreamBufferView,
    packets: Seq<Seq<i16>>,
    times: Seq<i128>,
    k: int,
)
    requires
        start.samples.len() == 0,
        packets.len() == times.len(),
        0 <= k < packets.len(),
    ensures
        ({
            let sides = Seq::new(
                packets.len(),
                |i: int| (SideView::Audio(Some(packets[i])), times[i]),
            );
            let end = start.after(sides).samples;
            let from = start.after(sides.take(k)).samples.len();
            let to = start.after(sides.take(k + 1)).samples.len();
            &&& to == from + (packets[k].len() + 1) / 2
            &&& to <= end.len()
            &&& k == 0 ==> from == 0
            &&& k == packets.len() - 1 ==> to == end.len()
            &&& forall|i: int| from <= i < to ==> #[trigger] end[i] == packets[k][2 * (i - from)]
        }),
    decreases packets.len(),
{
    let sides = Seq::new(packets.len(), |i: int| (SideView::Audio(Some(packets[i])), times[i]));
    let rest = Seq::new(
        packets.drop_last().len(),
        |i: int| (SideView::Audio(Some(packets.drop_last()[i])), times.drop_last()[i]),
    );
    assert(sides.drop_last() =~= rest);
    if k == packets.len() - 1 {
        assert(sides.take(k) =~= sides.drop_last());
        assert(sides.take(k + 1) =~= sides);
    } else {
        utterances_hold_every_packet(start, packets.drop_last(), times.drop_last(), k);
        assert(sides.take(k) =~= rest.take(k));
        assert(sides.take(k + 1) =~= rest.take(k + 1));
    }
}

} // verus!
