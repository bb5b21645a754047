//! The speakers of a recorded voice channel: who speaks on which source, and what
//! is recorded for whom at every tick of the channel.

use crate::audio::{left, left_channel};
use crate::maps::{by_source, source_contains, source_entries, source_get, source_insert, source_map, source_remove};
use crate::text::{decimal, decimal_is_digits, decimal_reads_back, signed_decimal, signed_decimals_differ, write_decimal, write_signed};
use dashmap::DashMap;
use vstd::prelude::*;
use vstd::string::*;

verus! {

/// What is to be done for a speaker. Speakers are numbered in the order in which
/// they are added; the number names the speaker's packet channel and recording.
#[derive(Clone, Debug)]
pub enum Action {
    /// Open a packet channel and a recording, and listen to the user.
    Add { speaker: u64, user_id: u64 },
    /// Record the samples, then send them on the packet channel.
    Spoke { speaker: u64, pcm: Vec<i16> },
    /// Record silence.
    Silence { speaker: u64 },
    /// Close the packet channel, and finish and merge the recording.
    Merge { speaker: u64 },
    /// The source of a user who left has no recording, so that nothing is saved.
    NoRecording { ssrc: u32 },
}

/// What is to be done, with the samples as a sequence.
pub enum ActionView {
    Add { speaker: u64, user_id: u64 },
    Spoke { speaker: u64, pcm: Seq<i16> },
    Silence { speaker: u64 },
    Merge { speaker: u64 },
    NoRecording { ssrc: u32 },
}

impl View for Action {
    type V = ActionView;

    open spec fn view(&self) -> ActionView {
        match *self {
            Action::Add { speaker, user_id } => ActionView::Add { speaker, user_id },
            Action::Spoke { speaker, pcm } => ActionView::Spoke { speaker, pcm: pcm@ },
            Action::Silence { speaker } => ActionView::Silence { speaker },
            Action::Merge { speaker } => ActionView::Merge { speaker },
            Action::NoRecording { ssrc } => ActionView::NoRecording { ssrc },
        }
    }
}

/// Actions, with the samples as sequences.
pub open spec fn action_views(actions: Seq<Action>) -> Seq<ActionView> {
    Seq::new(actions.len(), |i: int| actions[i]@)
}

/// The sources that speak in a tick, with their samples as sequences.
pub open spec fn tick_views(speaking: Seq<(u32, Vec<i16>)>) -> Seq<(u32, Seq<i16>)> {
    Seq::new(speaking.len(), |i: int| (speaking[i].0, speaking[i].1@))
}

/// The users and the recordings of the sources of a voice channel.
pub struct Receiver {
    send_map: DashMap<u32, u64>,
    ssrc_to_user_id: DashMap<u32, u64>,
    next_speaker: u64,
}

/// The users and the recordings, as maps.
pub struct ReceiverView {
    /// The user of each source.
    pub users: Map<u32, u64>,
    /// The speaker who is recorded for each source.
    pub speakers: Map<u32, u64>,
    /// The number of the next speaker.
    pub next_speaker: nat,
}

impl ReceiverView {
    /// Speakers have been numbered, and no two sources share one.
    pub open spec fn wf(self) -> bool {
        &&& forall|s: u32| #[trigger]
            self.speakers.contains_key(s) ==> self.speakers[s] < self.next_speaker
        &&& forall|s: u32, t: u32|
            #![trigger self.speakers[s], self.speakers[t]]
            self.speakers.contains_key(s) && self.speakers.contains_key(t) && s != t
                ==> self.speakers[s] != self.speakers[t]
    }

    /// Whether a source is recorded, or could be.
    pub open spec fn known(self, ssrc: u32) -> bool {
        self.speakers.contains_key(ssrc) || self.users.contains_key(ssrc)
    }

    /// The receiver after a source spoke that is known.
    pub open spec fn after_source(self, ssrc: u32) -> ReceiverView {
        if self.speakers.contains_key(ssrc) {
            self
        } else {
            ReceiverView {
                speakers: self.speakers.insert(ssrc, self.next_speaker as u64),
                next_speaker: self.next_speaker + 1,
                ..self
            }
        }
    }

    /// What is to be done for a known source that spoke: it is added where it was
    /// not recorded yet, and its left channel is recorded and sent.
    pub open spec fn source_actions(self, ssrc: u32, pcm: Seq<i16>) -> Seq<ActionView> {
        if self.speakers.contains_key(ssrc) {
            seq![ActionView::Spoke { speaker: self.speakers[ssrc], pcm: left(pcm) }]
        } else {
            seq![
                ActionView::Add { speaker: self.next_speaker as u64, user_id: self.users[ssrc] },
                ActionView::Spoke { speaker: self.next_speaker as u64, pcm: left(pcm) },
            ]
        }
    }

    /// Whether every source of a tick is known.
    pub open spec fn all_known(self, speaking: Seq<(u32, Seq<i16>)>) -> bool {
        forall|i: int| 0 <= i < speaking.len() ==> self.known(#[trigger] speaking[i].0)
    }

    /// The receiver after the sources of a tick spoke one after the other. The tick
    /// ends at the first source that is not known.
    pub open spec fn after_tick(self, speaking: Seq<(u32, Seq<i16>)>) -> ReceiverView
        decreases speaking.len(),
    {
        if speaking.len() == 0 {
            self
        } else if self.all_known(speaking) {
            self.after_tick(speaking.drop_last()).after_source(speaking.last().0)
        } else {
            self.after_tick(speaking.drop_last())
        }
    }

    /// What is to be done for the sources of a tick.
    pub open spec fn speaking_actions(self, speaking: Seq<(u32, Seq<i16>)>) -> Seq<ActionView>
        decreases speaking.len(),
    {
        if speaking.len() == 0 {
            Seq::empty()
        } else if self.all_known(speaking) {
            self.speaking_actions(speaking.drop_last()) + self.after_tick(
                speaking.drop_last(),
            ).source_actions(speaking.last().0, speaking.last().1)
        } else {
            self.speaking_actions(speaking.drop_last())
        }
    }

    /// The receiver after a user spoke on a source.
    pub open spec fn after_update(self, ssrc: u32, user_id: u64) -> ReceiverView {
        ReceiverView { users: self.users.insert(ssrc, user_id), ..self }
    }

    /// The receiver after the user of a source left: the source has no user and no
    /// speaker.
    pub open spec fn after_leaving(self, ssrc: u32) -> ReceiverView {
        ReceiverView {
            users: self.users.remove(ssrc),
            speakers: self.speakers.remove(ssrc),
            ..self
        }
    }

    /// The receiver after something was reported.
    pub open spec fn after_report(self, report: Report) -> ReceiverView {
        match report {
            Report::Update { ssrc, user_id } => self.after_update(ssrc, user_id),
            Report::Tick { speaking } => self.after_tick(speaking),
            Report::Left { ssrc } => self.after_leaving(ssrc),
        }
    }

    /// The receiver after several things were reported.
    pub open spec fn after_reports(self, reports: Seq<Report>) -> ReceiverView
        decreases reports.len(),
    {
        if reports.len() == 0 {
            self
        } else {
            self.after_reports(reports.drop_last()).after_report(reports.last())
        }
    }

    /// What is to be done for the sources that speak while several things are reported.
    pub open spec fn reported_actions(self, reports: Seq<Report>) -> Seq<ActionView>
        decreases reports.len(),
    {
        if reports.len() == 0 {
            Seq::empty()
        } else {
            let before = self.reported_actions(reports.drop_last());
            match reports.last() {
                Report::Tick { speaking } => before + self.after_reports(
                    reports.drop_last(),
                ).speaking_actions(speaking),
                _ => before,
            }
        }
    }

    /// The left channel of what a source says in a tick, up to the first source that is
    /// not known.
    pub open spec fn said(self, speaking: Seq<(u32, Seq<i16>)>, ssrc: u32) -> Seq<i16>
        decreases speaking.len(),
    {
        if speaking.len() == 0 {
            Seq::empty()
        } else {
            let before = self.said(speaking.drop_last(), ssrc);
            if self.all_known(speaking) && speaking.last().0 == ssrc {
                before + left(speaking.last().1)
            } else {
                before
            }
        }
    }

    /// The left channel of what a source says while several things are reported.
    pub open spec fn reported_speech(self, reports: Seq<Report>, ssrc: u32) -> Seq<i16>
        decreases reports.len(),
    {
        if reports.len() == 0 {
            Seq::empty()
        } else {
            let before = self.reported_speech(reports.drop_last(), ssrc);
            match reports.last() {
                Report::Tick { speaking } => before + self.after_reports(reports.drop_last()).said(
                    speaking,
                    ssrc,
                ),
                _ => before,
            }
        }
    }

    /// Whether `action` records silence for a recorded source that does not speak.
    pub open spec fn silence_of(self, speaking: Seq<(u32, Seq<i16>)>, ssrc: u32, action: ActionView) -> bool {
        &&& self.speakers.contains_key(ssrc)
        &&& !speaks(speaking, ssrc)
        &&& action == ActionView::Silence { speaker: self.speakers[ssrc] }
    }

    /// Whether `action` records silence for some source that does not speak.
    pub open spec fn is_silence(self, speaking: Seq<(u32, Seq<i16>)>, action: ActionView) -> bool {
        exists|s: u32| #[trigger] self.silence_of(speaking, s, action)
    }

    /// Whether `quiet` records silence once for every recorded source that does not
    /// speak, and does nothing else.
    pub open spec fn silences(self, speaking: Seq<(u32, Seq<i16>)>, quiet: Seq<ActionView>) -> bool {
        &&& forall|i: int|
            0 <= i < quiet.len() ==> self.is_silence(speaking, #[trigger] quiet[i])
        &&& forall|i: int, j: int|
            0 <= i < j < quiet.len() ==> #[trigger] quiet[i] != #[trigger] quiet[j]
        &&& forall|s: u32| #[trigger]
            self.speakers.contains_key(s) && !speaks(speaking, s) ==> quiet.contains(
                ActionView::Silence { speaker: self.speakers[s] },
            )
    }
}

/// What a voice channel reports: a user speaks on a source, a tick passes, or the user
/// of a source left.
pub enum Report {
    Update { ssrc: u32, user_id: u64 },
    Tick { speaking: Seq<(u32, Seq<i16>)> },
    Left { ssrc: u32 },
}

/// How many sources the ticks of several reports have in all, which bounds how many
/// speakers they add.
pub open spec fn tick_sources(reports: Seq<Report>) -> nat
    decreases reports.len(),
{
    if reports.len() == 0 {
        0
    } else {
        tick_sources(reports.drop_last()) + match reports.last() {
            Report::Tick { speaking } => speaking.len(),
            _ => 0,
        }
    }
}

/// The samples that actions send to a speaker, in order.
pub open spec fn sent_to(actions: Seq<ActionView>, speaker: u64) -> Seq<i16>
    decreases actions.len(),
{
    if actions.len() == 0 {
        Seq::empty()
    } else {
        let before = sent_to(actions.drop_last(), speaker);
        match actions.last() {
            ActionView::Spoke { speaker: to, pcm } => if to == speaker {
                before + pcm
            } else {
                before
            },
            _ => before,
        }
    }
}

/// Whether actions add a speaker.
pub open spec fn adds(actions: Seq<ActionView>, speaker: u64) -> bool {
    exists|i: int|
        0 <= i < actions.len() && (#[trigger] actions[i] matches ActionView::Add {
            speaker: added,
            user_id,
        } && added == speaker)
}

/// Whether a source speaks in a tick.
pub open spec fn speaks(speaking: Seq<(u32, Seq<i16>)>, ssrc: u32) -> bool {
    exists|i: int| 0 <= i < speaking.len() && (#[trigger] speaking[i]).0 == ssrc
}

impl View for Receiver {
    type V = ReceiverView;

    closed spec fn view(&self) -> ReceiverView {
        ReceiverView {
            users: by_source(self.ssrc_to_user_id),
            speakers: by_source(self.send_map),
            next_speaker: self.next_speaker as nat,
        }
    }
}

/// Whether a source speaks in a tick.
fn is_speaking(speaking: &Vec<(u32, Vec<i16>)>, ssrc: u32) -> (r: bool)
    ensures
        r == speaks(tick_views(speaking@), ssrc),
{
    for i in 0..speaking.len()
        invariant
            forall|j: int| 0 <= j < i ==> (#[trigger] tick_views(speaking@)[j]).0 != ssrc,
    {
        if speaking[i].0 == ssrc {
            assert(tick_views(speaking@)[i as int].0 == ssrc);
            return true;
        }
    }
    false
}

impl Receiver {
    /// A receiver that has heard of no source yet.
    pub fn new() -> (r: Receiver)
        ensures
            r@.wf(),
            r@ == (ReceiverView { users: Map::empty(), speakers: Map::empty(), next_speaker: 0 }),
    {
        Receiver { send_map: source_map(), ssrc_to_user_id: source_map(), next_speaker: 0 }
    }

    /// Takes in that a user speaks on a source. A report without a user is dropped.
    pub fn speaking_state_update(&mut self, ssrc: u32, user_id: Option<u64>)
        requires
            old(self)@.wf(),
        ensures
            final(self)@.wf(),
            final(self)@ == match user_id {
                Some(user_id) => old(self)@.after_update(ssrc, user_id),
                None => old(self)@,
            },
    {
        match user_id {
            Some(user_id) => {
                source_insert(&mut self.ssrc_to_user_id, ssrc, user_id);
                assert(self@.speakers == old(self)@.speakers);
            },
            None => {},
        }
    }

    /// Takes in a tick of the channel: the sources that speak, with interleaved
    /// stereo samples. Every other recorded source gets silence, unless the tick
    /// ended early at a source that is not known.
    pub fn voice_tick(&mut self, speaking: &Vec<(u32, Vec<i16>)>) -> (r: Vec<Action>)
        requires
            old(self)@.wf(),
            old(self)@.next_speaker + speaking@.len() <= u64::MAX,
        ensures
            final(self)@.wf(),
            final(self)@ == old(self)@.after_tick(tick_views(speaking@)),
            ({
                let spoken = old(self)@.speaking_actions(tick_views(speaking@));
                let all = action_views(r@);
                &&& all.len() >= spoken.len()
                &&& all.take(spoken.len() as int) == spoken
                &&& if old(self)@.all_known(tick_views(speaking@)) {
                    final(self)@.silences(tick_views(speaking@), all.skip(spoken.len() as int))
                } else {
                    all.len() == spoken.len()
                }
            }),
    {
        let mut actions: Vec<Action> = Vec::new();
        let ghost start = self@;
        let ghost tick = tick_views(speaking@);
        assert(action_views(actions@) =~= start.speaking_actions(tick.take(0)));
        for i in 0..speaking.len()
            invariant
                start.wf(),
                self@.wf(),
                tick == tick_views(speaking@),
                start.next_speaker + speaking@.len() <= u64::MAX,
                self@.next_speaker <= start.next_speaker + i,
                self@.users == start.users,
                start.all_known(tick.take(i as int)),
                self@ == start.after_tick(tick.take(i as int)),
                action_views(actions@) == start.speaking_actions(tick.take(i as int)),
                old(self)@ == start,
        {
            let ssrc: u32 = speaking[i].0;
            let ghost before = self@;
            proof {
                assert(tick.take(i + 1).drop_last() =~= tick.take(i as int));
                assert(tick.take(i + 1).last() == tick[i as int]);
                lemma_known(start, tick.take(i as int), ssrc);
            }
            if !source_contains(&self.send_map, ssrc) {
                let user_id: u64 = match source_get(&self.ssrc_to_user_id, ssrc) {
                    Some(user_id) => user_id,
                    None => {
                        proof {
                            assert(!start.known(tick[i as int].0));
                            lemma_tick_stops(start, tick, i as int);
                            assert(action_views(actions@).take(actions@.len() as int)
                                =~= action_views(actions@));
                        }
                        return actions;
                    },
                };
                let speaker: u64 = self.next_speaker;
                self.next_speaker = speaker + 1;
                source_insert(&mut self.send_map, ssrc, speaker);
                actions.push(Action::Add { speaker, user_id });
            }
            let speaker: u64 = match source_get(&self.send_map, ssrc) {
                Some(speaker) => speaker,
                None => 0,
            };
            let pcm: Vec<i16> = left_channel(&speaking[i].1);
            actions.push(Action::Spoke { speaker, pcm });
            proof {
                assert(start.all_known(tick.take(i + 1))) by {
                    assert forall|j: int| 0 <= j < i + 1 implies start.known(
                        #[trigger] tick.take(i + 1)[j].0,
                    ) by {
                        if j < i {
                            assert(tick.take(i as int)[j] == tick[j]);
                        }
                    }
                }
                assert(action_views(actions@) =~= start.speaking_actions(tick.take(i as int))
                    + before.source_actions(ssrc, tick[i as int].1));
            }
        }
        assert(tick.take(speaking@.len() as int) =~= tick);
        let ghost spoken = action_views(actions@);
        let entries: Vec<(u32, u64)> = source_entries(&self.send_map);
        for k in 0..entries.len()
            invariant
                self@.wf(),
                tick == tick_views(speaking@),
                actions@.len() >= spoken.len(),
                action_views(actions@).take(spoken.len() as int) == spoken,
                forall|i: int|
                    0 <= i < entries@.len() ==> self@.speakers.contains_pair(
                        (#[trigger] entries@[i]).0,
                        entries@[i].1,
                    ),
                forall|i: int, j: int|
                    0 <= i < j < entries@.len() ==> (#[trigger] entries@[i]).0 != (#[trigger] entries@[j]).0,
                quiet_for(
                    self@,
                    tick,
                    entries@.take(k as int),
                    action_views(actions@).skip(spoken.len() as int),
                ),
        {
            let ghost quiet = action_views(actions@).skip(spoken.len() as int);
            let (ssrc, speaker) = entries[k];
            if !is_speaking(speaking, ssrc) {
                actions.push(Action::Silence { speaker });
            }
            proof {
                let now_quiet = action_views(actions@).skip(spoken.len() as int);
                assert(action_views(actions@).take(spoken.len() as int) =~= spoken);
                if speaks(tick, ssrc) {
                    assert(now_quiet =~= quiet);
                } else {
                    assert(now_quiet =~= quiet.push(ActionView::Silence { speaker }));
                }
                lemma_quiet_step(self@, tick, entries@, k as int, quiet);
            }
        }
        proof {
            let quiet = action_views(actions@).skip(spoken.len() as int);
            assert(entries@.take(entries@.len() as int) =~= entries@);
            lemma_quiet_done(self@, tick, entries@, quiet);
        }
        actions
    }

    /// Takes in that a user left: one source of the user, where there is any, is
    /// forgotten, and its recording is merged.
    pub fn client_disconnect(&mut self, user_id: u64) -> (r: Option<Action>)
        requires
            old(self)@.wf(),
        ensures
            final(self)@.wf(),
            match r {
                None => !old(self)@.users.contains_value(user_id) && final(self)@ == old(self)@,
                Some(action) => exists|ssrc: u32|
                    {
                        &&& #[trigger] old(self)@.users.contains_pair(ssrc, user_id)
                        &&& final(self)@ == old(self)@.after_leaving(ssrc)
                        &&& action@ == match old(self)@.speakers.get(ssrc) {
                            Some(speaker) => ActionView::Merge { speaker },
                            None => ActionView::NoRecording { ssrc },
                        }
                    },
            },
    {
        let entries: Vec<(u32, u64)> = source_entries(&self.ssrc_to_user_id);
        for i in 0..entries.len()
            invariant
                self@ == old(self)@,
                old(self)@.wf(),
                by_source(self.ssrc_to_user_id) == self@.users,
                forall|j: int| 0 <= j < i ==> (#[trigger] entries@[j]).1 != user_id,
                forall|j: int|
                    0 <= j < entries@.len() ==> self@.users.contains_pair(
                        (#[trigger] entries@[j]).0,
                        entries@[j].1,
                    ),
                forall|key: u32| #[trigger]
                    self@.users.contains_key(key) ==> entries@.contains((key, self@.users[key])),
        {
            if entries[i].1 == user_id {
                let ssrc: u32 = entries[i].0;
                assert(self@.users.contains_pair(ssrc, user_id));
                source_remove(&mut self.ssrc_to_user_id, ssrc);
                let recorded = source_remove(&mut self.send_map, ssrc);
                assert(self@.speakers == old(self)@.speakers.remove(ssrc));
                return match recorded {
                    Some(speaker) => Some(Action::Merge { speaker }),
                    None => Some(Action::NoRecording { ssrc }),
                };
            }
        }
        proof {
            if old(self)@.users.contains_value(user_id) {
                let key = choose|key: u32| #[trigger]
                    old(self)@.users.contains_key(key) && old(self)@.users[key] == user_id;
                assert(entries@.contains((key, user_id)));
            }
        }
        None
    }
}

/// Whether `quiet` records silence for the entries that do not speak, in order.
spec fn quiet_for(
    links: ReceiverView,
    tick: Seq<(u32, Seq<i16>)>,
    entries: Seq<(u32, u64)>,
    quiet: Seq<ActionView>,
) -> bool {
    &&& forall|i: int|
        #![trigger quiet[i]]
        0 <= i < quiet.len() ==> exists|k: int|
            0 <= k < entries.len() && !speaks(tick, (#[trigger] entries[k]).0) && quiet[i] == (
            ActionView::Silence { speaker: entries[k].1 })
    &&& forall|i: int, j: int|
        0 <= i < j < quiet.len() ==> #[trigger] quiet[i] != #[trigger] quiet[j]
    &&& forall|k: int|
        0 <= k < entries.len() && !speaks(tick, (#[trigger] entries[k]).0) ==> quiet.contains(
            ActionView::Silence { speaker: entries[k].1 },
        )
}

/// A tick leaves unknown what was unknown, and known what was known.
proof fn lemma_known(start: ReceiverView, tick: Seq<(u32, Seq<i16>)>, ssrc: u32)
    ensures
        start.after_tick(tick).users == start.users,
        start.after_tick(tick).known(ssrc) == start.known(ssrc),
        start.after_tick(tick).next_speaker <= start.next_speaker + tick.len(),
    decreases tick.len(),
{
    if tick.len() > 0 {
        lemma_known(start, tick.drop_last(), ssrc);
        if start.all_known(tick) {
            assert(start.known(tick[tick.len() - 1].0));
            lemma_known(start, tick.drop_last(), tick.last().0);
        }
    }
}

/// A tick goes no further than the first source that is not known.
proof fn lemma_tick_stops(start: ReceiverView, tick: Seq<(u32, Seq<i16>)>, i: int)
    requires
        0 <= i < tick.len(),
        !start.known(tick[i].0),
    ensures
        !start.all_known(tick),
        start.after_tick(tick) == start.after_tick(tick.take(i)),
        start.speaking_actions(tick) == start.speaking_actions(tick.take(i)),
    decreases tick.len(),
{
    assert(!start.all_known(tick));
    if i == tick.len() - 1 {
        assert(tick.drop_last() =~= tick.take(i));
    } else {
        lemma_tick_stops(start, tick.drop_last(), i);
        assert(tick.drop_last().take(i) =~= tick.take(i));
    }
}

/// One more entry was looked at.
proof fn lemma_quiet_step(
    links: ReceiverView,
    tick: Seq<(u32, Seq<i16>)>,
    entries: Seq<(u32, u64)>,
    k: int,
    quiet: Seq<ActionView>,
)
    requires
        links.wf(),
        0 <= k < entries.len(),
        forall|i: int|
            0 <= i < entries.len() ==> links.speakers.contains_pair(
                (#[trigger] entries[i]).0,
                entries[i].1,
            ),
        forall|i: int, j: int|
            0 <= i < j < entries.len() ==> (#[trigger] entries[i]).0 != (#[trigger] entries[j]).0,
        quiet_for(links, tick, entries.take(k), quiet),
    ensures
        quiet_for(
            links,
            tick,
            entries.take(k + 1),
            if speaks(tick, entries[k].0) {
                quiet
            } else {
                quiet.push(ActionView::Silence { speaker: entries[k].1 })
            },
        ),
{
    let before = entries.take(k);
    let after = entries.take(k + 1);
    let spoken = speaks(tick, entries[k].0);
    let next = if spoken {
        quiet
    } else {
        quiet.push(ActionView::Silence { speaker: entries[k].1 })
    };
    assert forall|i: int| #![trigger next[i]] 0 <= i < next.len() implies exists|j: int|
        0 <= j < after.len() && !speaks(tick, (#[trigger] after[j]).0) && next[i] == (
        ActionView::Silence { speaker: after[j].1 }) by {
        if i < quiet.len() {
            let j = choose|j: int|
                0 <= j < before.len() && !speaks(tick, (#[trigger] before[j]).0) && quiet[i] == (
                ActionView::Silence { speaker: before[j].1 });
            assert(after[j] == before[j]);
        } else {
            assert(after[k] == entries[k]);
        }
    }
    assert forall|i: int, j: int| 0 <= i < j < next.len() implies #[trigger] next[i]
        != #[trigger] next[j] by {
        if j == quiet.len() {
            let m = choose|m: int|
                0 <= m < before.len() && !speaks(tick, (#[trigger] before[m]).0) && quiet[i] == (
                ActionView::Silence { speaker: before[m].1 });
            assert(before[m] == entries[m]);
            assert(entries[m].0 != entries[k].0);
            assert(links.speakers[entries[m].0] != links.speakers[entries[k].0]);
        }
    }
    assert forall|j: int| 0 <= j < after.len() && !speaks(tick, (#[trigger] after[j]).0) implies next.contains(
        ActionView::Silence { speaker: after[j].1 },
    ) by {
        if j < k {
            assert(after[j] == before[j]);
            let i = quiet.index_of(ActionView::Silence { speaker: before[j].1 });
            assert(quiet.contains(ActionView::Silence { speaker: before[j].1 }));
            assert(next[i] == quiet[i]);
        } else {
            assert(next[next.len() - 1] == ActionView::Silence { speaker: entries[k].1 });
        }
    }
}

/// Every entry was looked at.
proof fn lemma_quiet_done(
    links: ReceiverView,
    tick: Seq<(u32, Seq<i16>)>,
    entries: Seq<(u32, u64)>,
    quiet: Seq<ActionView>,
)
    requires
        forall|i: int|
            0 <= i < entries.len() ==> links.speakers.contains_pair(
                (#[trigger] entries[i]).0,
                entries[i].1,
            ),
        forall|key: u32| #[trigger]
            links.speakers.contains_key(key) ==> entries.contains((key, links.speakers[key])),
        quiet_for(links, tick, entries, quiet),
    ensures
        links.silences(tick, quiet),
{
    assert forall|i: int| 0 <= i < quiet.len() implies links.is_silence(
        tick,
        #[trigger] quiet[i],
    ) by {
        let k = choose|k: int|
            0 <= k < entries.len() && !speaks(tick, (#[trigger] entries[k]).0) && quiet[i] == (
            ActionView::Silence { speaker: entries[k].1 });
        assert(links.silence_of(tick, entries[k].0, quiet[i]));
    }
    assert forall|s: u32| #[trigger]
        links.speakers.contains_key(s) && !speaks(tick, s) implies quiet.contains(
        ActionView::Silence { speaker: links.speakers[s] },
    ) by {
        let k = entries.index_of((s, links.speakers[s]));
        assert(entries[k] == (s, links.speakers[s]));
    }
}

/// The speaker whose recording an action adds samples or silence to.
pub open spec fn recorded_for(action: ActionView) -> Option<u64> {
    match action {
        ActionView::Spoke { speaker, pcm } => Some(speaker),
        ActionView::Silence { speaker } => Some(speaker),
        _ => None,
    }
}

/// Whether no source occurs twice in a tick.
pub open spec fn distinct_sources(tick: Seq<(u32, Seq<i16>)>) -> bool {
    forall|i: int, j: int| 0 <= i < j < tick.len() ==> (#[trigger] tick[i]).0 != (#[trigger] tick[j]).0
}

/// Whether no two actions of the list record for the same speaker.
pub open spec fn records_once(actions: Seq<ActionView>) -> bool {
    forall|i: int, j: int|
        0 <= i < j < actions.len() && recorded_for(#[trigger] actions[i]) is Some ==> recorded_for(
            actions[i],
        ) != recorded_for(#[trigger] actions[j])
}

/// Whether some action records for the speaker.
pub open spec fn records_for(actions: Seq<ActionView>, speaker: u64) -> bool {
    exists|i: int| 0 <= i < actions.len() && recorded_for(#[trigger] actions[i]) == Some(speaker)
}

/// Recordings stay in step: in a tick that did not end early every recorded speaker
/// is recorded once, with samples or with silence.
pub proof fn recordings_stay_in_step(
    start: ReceiverView,
    tick: Seq<(u32, Seq<i16>)>,
    quiet: Seq<ActionView>,
)
    requires
        start.wf(),
        start.next_speaker + tick.len() <= u64::MAX,
        distinct_sources(tick),
        start.all_known(tick),
        start.after_tick(tick).silences(tick, quiet),
    ensures
        ({
            let all = start.speaking_actions(tick) + quiet;
            let after = start.after_tick(tick);
            &&& records_once(all)
            &&& forall|s: u32| #[trigger]
                after.speakers.contains_key(s) ==> records_for(all, after.speakers[s])
        }),
{
    let spoken = start.speaking_actions(tick);
    let all = spoken + quiet;
    let after = start.after_tick(tick);
    lemma_spoken(start, tick);
    assert forall|i: int, j: int|
        0 <= i < j < all.len() && recorded_for(#[trigger] all[i]) is Some implies recorded_for(
        all[i],
    ) != recorded_for(#[trigger] all[j]) by {
        if j < spoken.len() {
            assert(all[i] == spoken[i] && all[j] == spoken[j]);
        } else {
            let b = quiet[j - spoken.len()];
            assert(after.is_silence(tick, b));
            let t = choose|t: u32| #[trigger] after.silence_of(tick, t, b);
            if i < spoken.len() {
                assert(all[i] == spoken[i]);
                let k = choose|k: int|
                    0 <= k < tick.len() && recorded_for(spoken[i]) == Some(
                        after.speakers[(#[trigger] tick[k]).0],
                    );
                assert(after.speakers.contains_key(tick[k].0));
                assert(tick[k].0 != t);
                assert(after.speakers[tick[k].0] != after.speakers[t]);
            } else {
                let a = quiet[i - spoken.len()];
                assert(after.is_silence(tick, a));
                assert(a != b);
            }
        }
    }
    assert forall|s: u32| #[trigger] after.speakers.contains_key(s) implies records_for(
        all,
        after.speakers[s],
    ) by {
        if speaks(tick, s) {
            let k = choose|k: int| 0 <= k < tick.len() && (#[trigger] tick[k]).0 == s;
            assert(records_for(spoken, after.speakers[tick[k].0]));
            let i = choose|i: int|
                0 <= i < spoken.len() && recorded_for(#[trigger] spoken[i]) == Some(
                    after.speakers[s],
                );
            assert(all[i] == spoken[i]);
        } else {
            let a = ActionView::Silence { speaker: after.speakers[s] };
            assert(quiet.contains(a));
            let i = quiet.index_of(a);
            assert(all[spoken.len() + i] == a);
        }
    }
}

/// What is recorded for the sources that speak in a tick.
proof fn lemma_spoken(start: ReceiverView, tick: Seq<(u32, Seq<i16>)>)
    requires
        start.wf(),
        start.next_speaker + tick.len() <= u64::MAX,
        distinct_sources(tick),
        start.all_known(tick),
    ensures
        start.after_tick(tick).wf(),
        records_once(start.speaking_actions(tick)),
        forall|k: int|
            0 <= k < tick.len() ==> start.after_tick(tick).speakers.contains_key(
                (#[trigger] tick[k]).0,
            ) && records_for(
                start.speaking_actions(tick),
                start.after_tick(tick).speakers[tick[k].0],
            ),
        forall|i: int|
            0 <= i < start.speaking_actions(tick).len() && recorded_for(
                #[trigger] start.speaking_actions(tick)[i],
            ) is Some ==> exists|k: int|
                0 <= k < tick.len() && recorded_for(start.speaking_actions(tick)[i]) == Some(
                    start.after_tick(tick).speakers[(#[trigger] tick[k]).0],
                ),
    decreases tick.len(),
{
    if tick.len() > 0 {
        let n = tick.len() - 1;
        let rest = tick.drop_last();
        assert forall|i: int, j: int| 0 <= i < j < rest.len() implies (#[trigger] rest[i]).0 != (
        #[trigger] rest[j]).0 by {
            assert(tick[i].0 != tick[j].0);
        }
        assert forall|i: int| 0 <= i < rest.len() implies start.known(#[trigger] rest[i].0) by {
            assert(start.known(tick[i].0));
        }
        lemma_spoken(start, rest);
        lemma_known(start, rest, tick.last().0);
        let before = start.after_tick(rest);
        let after = start.after_tick(tick);
        let ssrc = tick.last().0;
        let old_actions = start.speaking_actions(rest);
        let new_actions = before.source_actions(ssrc, tick.last().1);
        let actions = start.speaking_actions(tick);
        assert(actions == old_actions + new_actions);
        assert(start.known(tick[n].0));
        assert(after.wf());
        let last = actions.len() - 1;
        assert(actions[last] == new_actions.last());
        assert(recorded_for(actions[last]) == Some(after.speakers[ssrc]));
        assert forall|i: int| 0 <= i < last && recorded_for(#[trigger] actions[i]) is Some implies i
            < old_actions.len() by {
            if i >= old_actions.len() {
                assert(actions[i] == new_actions[i - old_actions.len()]);
            }
        }
        assert forall|i: int|
            0 <= i < actions.len() && recorded_for(#[trigger] actions[i]) is Some implies exists|k: int|
            0 <= k < tick.len() && recorded_for(actions[i]) == Some(
                after.speakers[(#[trigger] tick[k]).0],
            ) by {
            if i < old_actions.len() {
                assert(actions[i] == old_actions[i]);
                let k = choose|k: int|
                    0 <= k < rest.len() && recorded_for(old_actions[i]) == Some(
                        before.speakers[(#[trigger] rest[k]).0],
                    );
                assert(tick[k] == rest[k]);
                assert(tick[k].0 != tick[n].0);
            } else {
                assert(tick[n].0 == ssrc);
            }
        }
        assert forall|i: int, j: int|
            0 <= i < j < actions.len() && recorded_for(#[trigger] actions[i]) is Some implies recorded_for(
            actions[i],
        ) != recorded_for(#[trigger] actions[j]) by {
            assert(actions[i] == old_actions[i]);
            if j < old_actions.len() {
                assert(actions[j] == old_actions[j]);
            } else if j == last {
                let k = choose|k: int|
                    0 <= k < rest.len() && recorded_for(old_actions[i]) == Some(
                        before.speakers[(#[trigger] rest[k]).0],
                    );
                assert(tick[k] == rest[k]);
                assert(tick[k].0 != tick[n].0);
                assert(after.speakers.contains_key(rest[k].0));
                assert(after.speakers[rest[k].0] != after.speakers[ssrc]);
            }
        }
        assert forall|k: int| 0 <= k < tick.len() implies after.speakers.contains_key(
            (#[trigger] tick[k]).0,
        ) && records_for(actions, after.speakers[tick[k].0]) by {
            if k < n {
                assert(rest[k] == tick[k]);
                assert(tick[k].0 != tick[n].0);
                assert(records_for(old_actions, before.speakers[rest[k].0]));
                let i = choose|i: int|
                    0 <= i < old_actions.len() && recorded_for(#[trigger] old_actions[i]) == Some(
                        before.speakers[rest[k].0],
                    );
                assert(actions[i] == old_actions[i]);
            }
        }
    }
}

/// A source is added once: the first tick in which it speaks adds a speaker for its
/// user, and as long as the user of the source does not leave, whatever else is
/// reported, that speaker is not added again, and gets what the source says and nothing
/// else.
pub proof fn sources_are_added_once(
    start: ReceiverView,
    ssrc: u32,
    pcm: Seq<i16>,
    reports: Seq<Report>,
)
    requires
        start.wf(),
        start.users.contains_key(ssrc),
        !start.speakers.contains_key(ssrc),
        start.next_speaker + 1 + tick_sources(reports) <= u64::MAX,
        forall|i: int| 0 <= i < reports.len() ==> #[trigger] reports[i] != (Report::Left { ssrc }),
    ensures
        ({
            let speaker = start.next_speaker as u64;
            let first = seq![(ssrc, pcm)];
            let added = start.after_tick(first);
            let later = added.reported_actions(reports);
            &&& start.speaking_actions(first) == seq![
                ActionView::Add { speaker, user_id: start.users[ssrc] },
                ActionView::Spoke { speaker, pcm: left(pcm) },
            ]
            &&& added.after_reports(reports).speakers.get(ssrc) == Some(speaker)
            &&& !adds(later, speaker)
            &&& sent_to(start.speaking_actions(first) + later, speaker) == left(pcm)
                + added.reported_speech(reports, ssrc)
        }),
{
    let speaker = start.next_speaker as u64;
    let first = seq![(ssrc, pcm)];
    let added = start.after_tick(first);
    let opening = seq![
        ActionView::Add { speaker, user_id: start.users[ssrc] },
        ActionView::Spoke { speaker, pcm: left(pcm) },
    ];
    assert(first.drop_last() =~= Seq::empty());
    reveal_with_fuel(ReceiverView::after_tick, 2);
    reveal_with_fuel(ReceiverView::speaking_actions, 2);
    assert(start.speaking_actions(first) =~= opening);
    assert(added.speakers[ssrc] == speaker);
    speakers_keep_their_source(added, ssrc, reports);
    lemma_sent_in_turn(opening, added.reported_actions(reports), speaker);
    reveal_with_fuel(sent_to, 3);
    assert(opening.drop_last().drop_last() =~= Seq::empty());
    assert(sent_to(opening, speaker) =~= left(pcm));
}

/// As long as the user of a recorded source does not leave, the source keeps its
/// speaker, who is not added again and gets what the source says and nothing else.
pub proof fn speakers_keep_their_source(start: ReceiverView, ssrc: u32, reports: Seq<Report>)
    requires
        start.wf(),
        start.speakers.contains_key(ssrc),
        start.next_speaker + tick_sources(reports) <= u64::MAX,
        forall|i: int| 0 <= i < reports.len() ==> #[trigger] reports[i] != (Report::Left { ssrc }),
    ensures
        ({
            let speaker = start.speakers[ssrc];
            let end = start.after_reports(reports);
            let actions = start.reported_actions(reports);
            &&& end.wf()
            &&& end.next_speaker <= start.next_speaker + tick_sources(reports)
            &&& end.speakers.get(ssrc) == Some(speaker)
            &&& !adds(actions, speaker)
            &&& sent_to(actions, speaker) == start.reported_speech(reports, ssrc)
        }),
    decreases reports.len(),
{
    if reports.len() > 0 {
        let rest = reports.drop_last();
        assert forall|i: int| 0 <= i < rest.len() implies #[trigger] rest[i] != (Report::Left {
            ssrc,
        }) by {
            assert(reports[i] == rest[i]);
        }
        speakers_keep_their_source(start, ssrc, rest);
        let speaker = start.speakers[ssrc];
        let before = start.after_reports(rest);
        let old_actions = start.reported_actions(rest);
        assert(reports[reports.len() - 1] == reports.last());
        match reports.last() {
            Report::Tick { speaking } => {
                lemma_tick_keeps(before, ssrc, speaking);
                let new_actions = before.speaking_actions(speaking);
                lemma_sent_in_turn(old_actions, new_actions, speaker);
                lemma_adds_in_turn(old_actions, new_actions, speaker);
            },
            _ => {},
        }
    }
}

/// What one tick does for a recorded source.
proof fn lemma_tick_keeps(start: ReceiverView, ssrc: u32, tick: Seq<(u32, Seq<i16>)>)
    requires
        start.wf(),
        start.speakers.contains_key(ssrc),
        start.next_speaker + tick.len() <= u64::MAX,
    ensures
        ({
            let speaker = start.speakers[ssrc];
            let end = start.after_tick(tick);
            let actions = start.speaking_actions(tick);
            &&& end.wf()
            &&& end.next_speaker <= start.next_speaker + tick.len()
            &&& end.speakers.get(ssrc) == Some(speaker)
            &&& !adds(actions, speaker)
            &&& sent_to(actions, speaker) == start.said(tick, ssrc)
        }),
    decreases tick.len(),
{
    if tick.len() > 0 {
        let rest = tick.drop_last();
        lemma_tick_keeps(start, ssrc, rest);
        if start.all_known(tick) {
            let speaker = start.speakers[ssrc];
            let before = start.after_tick(rest);
            let (source, pcm) = tick.last();
            let old_actions = start.speaking_actions(rest);
            let new_actions = before.source_actions(source, pcm);
            lemma_sent_in_turn(old_actions, new_actions, speaker);
            lemma_adds_in_turn(old_actions, new_actions, speaker);
            reveal_with_fuel(sent_to, 3);
            if before.speakers.contains_key(source) {
                assert(new_actions.drop_last() =~= Seq::empty());
                if source != ssrc {
                    assert(before.speakers[source] != before.speakers[ssrc]);
                    assert(sent_to(new_actions, speaker) =~= Seq::empty());
                    assert(sent_to(old_actions, speaker) + Seq::<i16>::empty() =~= sent_to(
                        old_actions,
                        speaker,
                    ));
                } else {
                    assert(sent_to(new_actions, speaker) =~= left(pcm));
                }
            } else {
                assert(new_actions.drop_last().drop_last() =~= Seq::empty());
                assert(sent_to(new_actions, speaker) =~= Seq::empty());
                assert(sent_to(old_actions, speaker) + Seq::<i16>::empty() =~= sent_to(
                    old_actions,
                    speaker,
                ));
            }
            assert(!adds(new_actions, speaker));
        }
    }
}

/// What two lists of actions send, one after the other.
proof fn lemma_sent_in_turn(a: Seq<ActionView>, b: Seq<ActionView>, speaker: u64)
    ensures
        sent_to(a + b, speaker) == sent_to(a, speaker) + sent_to(b, speaker),
    decreases b.len(),
{
    if b.len() == 0 {
        assert(a + b =~= a);
        assert(sent_to(a, speaker) + sent_to(b, speaker) =~= sent_to(a, speaker));
    } else {
        assert((a + b).drop_last() =~= a + b.drop_last());
        assert((a + b).last() == b.last());
        lemma_sent_in_turn(a, b.drop_last(), speaker);
        assert(sent_to(a + b, speaker) =~= sent_to(a, speaker) + sent_to(b, speaker));
    }
}

/// Whom two lists of actions add, one after the other.
proof fn lemma_adds_in_turn(a: Seq<ActionView>, b: Seq<ActionView>, speaker: u64)
    requires
        !adds(a, speaker),
    ensures
        adds(a + b, speaker) ==> adds(b, speaker),
{
    if adds(a + b, speaker) {
        let i = choose|i: int|
            0 <= i < (a + b).len() && (#[trigger] (a + b)[i] matches ActionView::Add {
                speaker: added,
                user_id,
            } && added == speaker);
        if i < a.len() {
            assert((a + b)[i] == a[i]);
        } else {
            assert((a + b)[i] == b[i - a.len()]);
        }
    }
}

/// The name of a recorded speaker, or of a session: an id and the time at which it
/// began, in nanoseconds of Unix time.
pub open spec fn stamped(id: u64, nanos: i128) -> Seq<char> {
    decimal(id as nat) + seq!['-'] + signed_decimal(nanos as int)
}

/// Writes the name of a recorded speaker, or of a session.
pub fn stamped_name(id: u64, nanos: i128) -> (r: String)
    ensures
        r@ == stamped(id, nanos),
{
    proof {
        reveal_strlit("-");
    }
    let mut r: String = write_decimal(id as u128);
    r.append("-");
    assert("-"@ =~= seq!['-']);
    r.append(write_signed(nanos).as_str());
    r
}

/// Names differ where the id or the time differs, so that no recording is put where
/// another one is.
pub proof fn stamped_names_differ(a: u64, m: i128, b: u64, n: i128)
    requires
        stamped(a, m) == stamped(b, n),
    ensures
        a == b,
        m == n,
{
    let (x, y) = (decimal(a as nat), decimal(b as nat));
    let (s, t) = (stamped(a, m), stamped(b, n));
    decimal_is_digits(a as nat);
    decimal_is_digits(b as nat);
    decimal_reads_back(a as nat);
    decimal_reads_back(b as nat);
    assert(s[x.len() as int] == '-');
    assert(t[y.len() as int] == '-');
    if x.len() < y.len() {
        assert(t[x.len() as int] == y[x.len() as int]);
    } else if y.len() < x.len() {
        assert(s[y.len() as int] == x[y.len() as int]);
    }
    assert(s.take(x.len() as int) =~= x);
    assert(t.take(y.len() as int) =~= y);
    assert(s.skip(x.len() as int + 1) =~= signed_decimal(m as int));
    assert(t.skip(y.len() as int + 1) =~= signed_decimal(n as int));
    signed_decimals_differ(m as int, n as int);
}

/// What is done for a known source that spoke, told by its samples: those at even places
/// are recorded and sent, all of them and unchanged, for the speaker of that source. One
/// who was not recorded yet is added first, with a number that nobody had.
pub proof fn sources_are_recorded_as_they_speak(start: ReceiverView, ssrc: u32, pcm: Seq<i16>)
    ensures
        ({
            let actions = start.source_actions(ssrc, pcm);
            let then = start.after_source(ssrc);
            let recorded = start.speakers.contains_key(ssrc);
            &&& recorded ==> {
                &&& actions.len() == 1
                &&& actions.last()->Spoke_speaker == start.speakers[ssrc]
                &&& then == start
            }
            &&& !recorded ==> {
                &&& actions.len() == 2
                &&& actions[0] == (ActionView::Add {
                    speaker: start.next_speaker as u64,
                    user_id: start.users[ssrc],
                })
                &&& actions.last()->Spoke_speaker == start.next_speaker as u64
                &&& then.speakers == start.speakers.insert(ssrc, start.next_speaker as u64)
                &&& then.next_speaker == start.next_speaker + 1
                &&& then.users == start.users
            }
            &&& actions.last() is Spoke
            &&& actions.last()->pcm.len() == (pcm.len() + 1) / 2
            &&& forall|i: int|
                0 <= i < actions.last()->pcm.len() ==> #[trigger] actions.last()->pcm[i] == pcm[2 * i]
        }),
{
}

/// A tick is taken in source by source: one more source adds what is done for it, where it
/// and all before it are recorded or have a user, and else nothing.
pub proof fn ticks_go_source_by_source(
    start: ReceiverView,
    tick: Seq<(u32, Seq<i16>)>,
    ssrc: u32,
    pcm: Seq<i16>,
)
    ensures
        start.after_tick(Seq::empty()) == start,
        start.speaking_actions(Seq::empty()).len() == 0,
        ({
            let more = tick.push((ssrc, pcm));
            let known = forall|i: int|
                0 <= i < more.len() ==> start.speakers.contains_key(#[trigger] more[i].0)
                    || start.users.contains_key(more[i].0);
            &&& known ==> {
                &&& start.after_tick(more) == start.after_tick(tick).after_source(ssrc)
                &&& start.speaking_actions(more) == start.speaking_actions(tick) + start.after_tick(
                    tick,
                ).source_actions(ssrc, pcm)
            }
            &&& !known ==> {
                &&& start.after_tick(more) == start.after_tick(tick)
                &&& start.speaking_actions(more) == start.speaking_actions(tick)
            }
            &&& start.all_known(more) <==> known
        }),
{
    let more = tick.push((ssrc, pcm));
    assert(more.drop_last() =~= tick);
    if start.all_known(more) {
        assert forall|i: int| 0 <= i < more.len() implies start.speakers.contains_key(
            #[trigger] more[i].0,
        ) || start.users.contains_key(more[i].0) by {
            assert(start.known(more[i].0));
        }
    }
}

/// A source that is recorded has each of its packets recorded for its speaker and for
/// nobody else, as the only thing that a tick with nobody else brings.
pub proof fn recorded_sources_stay_recorded(start: ReceiverView, ssrc: u32, pcm: Seq<i16>)
    requires
        start.speakers.contains_key(ssrc),
    ensures
        ({
            let actions = start.speaking_actions(seq![(ssrc, pcm)]);
            &&& start.after_tick(seq![(ssrc, pcm)]) == start
            &&& actions.len() == 1
            &&& actions[0] is Spoke
            &&& actions[0]->Spoke_speaker == start.speakers[ssrc]
            &&& actions[0]->pcm.len() == (pcm.len() + 1) / 2
            &&& forall|i: int|
                0 <= i < actions[0]->pcm.len() ==> #[trigger] actions[0]->pcm[i] == pcm[2 * i]
        }),
{
    ticks_go_source_by_source(start, Seq::empty(), ssrc, pcm);
    assert(Seq::<(u32, Seq<i16>)>::empty().push((ssrc, pcm)) =~= seq![(ssrc, pcm)]);
}

/// Who gets silence at a tick: every recorded source that is not among those that speak,
/// once, and nobody else.
pub proof fn quiet_sources_get_silence(
    links: ReceiverView,
    tick: Seq<(u32, Seq<i16>)>,
    quiet: Seq<ActionView>,
    ssrc: u32,
)
    requires
        links.wf(),
        links.silences(tick, quiet),
        links.speakers.contains_key(ssrc),
    ensures
        ({
            let silence = ActionView::Silence { speaker: links.speakers[ssrc] };
            let speaking = exists|i: int| 0 <= i < tick.len() && (#[trigger] tick[i]).0 == ssrc;
            &&& quiet.contains(silence) <==> !speaking
            &&& forall|i: int, j: int|
                0 <= i < j < quiet.len() ==> #[trigger] quiet[i] != #[trigger] quiet[j]
            &&& forall|i: int| 0 <= i < quiet.len() ==> #[trigger] quiet[i] is Silence
        }),
{
    let silence = ActionView::Silence { speaker: links.speakers[ssrc] };
    assert forall|i: int| 0 <= i < quiet.len() implies #[trigger] quiet[i] is Silence by {
        assert(links.is_silence(tick, quiet[i]));
    }
    if quiet.contains(silence) {
        let i = quiet.index_of(silence);
        assert(links.is_silence(tick, quiet[i]));
        let s = choose|s: u32| #[trigger] links.silence_of(tick, s, quiet[i]);
        assert(links.speakers[s] == links.speakers[ssrc]);
    }
}

/// A user who speaks on a source is linked to it, and a source whose user left has neither
/// user nor speaker. Nothing else changes.
pub proof fn users_come_and_go(start: ReceiverView, ssrc: u32, user_id: u64)
    ensures
        start.after_update(ssrc, user_id).users == start.users.insert(ssrc, user_id),
        start.after_update(ssrc, user_id).speakers == start.speakers,
        start.after_update(ssrc, user_id).next_speaker == start.next_speaker,
        start.after_leaving(ssrc).users == start.users.remove(ssrc),
        start.after_leaving(ssrc).speakers == start.speakers.remove(ssrc),
        start.after_leaving(ssrc).next_speaker == start.next_speaker,
{
}

/// A stamped name is the id and the time, with a dash between them.
pub proof fn stamped_names_have_a_dash(id: u64, nanos: i128)
    ensures
        ({
            let digits = decimal(id as nat);
            let name = stamped(id, nanos);
            &&& name.take(digits.len() as int) == digits
            &&& name[digits.len() as int] == '-'
            &&& name.skip(digits.len() as int + 1) == signed_decimal(nanos as int)
        }),
{
    let digits = decimal(id as nat);
    assert(stamped(id, nanos).take(digits.len() as int) =~= digits);
    assert(stamped(id, nanos).skip(digits.len() as int + 1) =~= signed_decimal(nanos as int));
}

} // verus!
