//! Which user speaks on which source of the voice channel, and what is to be done
//! when the channel reports something.

use crate::audio::{Event, StreamInfo, VoiceEvent};
use crate::config::{is_ignored, SttConfig};
use crate::maps::{by_source, by_user, source_get, source_insert, source_map, source_remove, user_get, user_insert, user_map, user_remove};
use dashmap::DashMap;
use std::collections::HashSet;
use vstd::prelude::*;

verus! {

/// What the voice channel reports.
#[derive(Clone, Debug)]
pub enum ChannelEvent {
    /// A user moved from one voice channel to another, into one or out of one.
    VoiceStateUpdate { user_id: u64, old_channel: Option<u64>, new_channel: Option<u64> },
    /// A user speaks on a source.
    SpeakingStateUpdate { ssrc: u32, user_id: u64 },
    /// A packet of a source, with its decoded samples where it could be decoded.
    VoicePacket { ssrc: u32, audio: Option<Vec<i16>> },
    /// A source started or stopped being heard.
    SpeakingUpdate { ssrc: u32, speaking: bool },
    /// A user left.
    ClientDisconnect { user_id: u64 },
}

/// What is to be done. Channels are numbered in the order in which they are opened.
#[derive(Clone, Debug)]
pub enum Command {
    /// Open the packet channel and have its stream listened to.
    OpenChannel { channel: u64, info: StreamInfo },
    /// Close the sending end of the packet channel.
    CloseChannel { channel: u64 },
    /// Send samples on the packet channel.
    SendPcm { channel: u64, pcm: Vec<i16> },
    /// Tell the world what a user did.
    Announce(VoiceEvent),
}

/// The links between sources, users and packet channels.
pub struct Reciever {
    voice_ssrc_map: DashMap<u32, u64>,
    inverse_ssrc_map: DashMap<u64, u32>,
    ssrc_to_sender_map: DashMap<u32, u64>,
    heard_users: HashSet<u64>,
    next_channel: u64,
    config: SttConfig,
}

/// The links, as maps.
pub struct RecieverView {
    /// The user of each source.
    pub users: Map<u32, u64>,
    /// The source of each user.
    pub sources: Map<u64, u32>,
    /// The open packet channel of each source.
    pub channels: Map<u32, u64>,
    /// The users who spoke since they joined.
    pub heard: Set<u64>,
    /// The number of the next packet channel.
    pub next_channel: nat,
    /// The users whose packets are dropped.
    pub ignored: Seq<u64>,
    /// The voice channel that the bot is in.
    pub own_channel: u64,
}

/// The voice event of a user, on a source where it was on one, at a time.
pub open spec fn announced(user_id: u64, ssrc: Option<u32>, timestamp: i128, event: Event) -> Command {
    Command::Announce(VoiceEvent { user_id, ssrc, timestamp, event })
}

/// The commands that close the packet channel of a source, where it has one.
pub open spec fn closing(channel: Option<u64>) -> Seq<Command> {
    match channel {
        Some(channel) => seq![Command::CloseChannel { channel }],
        None => Seq::empty(),
    }
}

impl RecieverView {
    /// Open packet channels have been numbered, and no two sources share one.
    pub open spec fn wf(self) -> bool {
        &&& forall|s: u32| #[trigger]
            self.channels.contains_key(s) ==> self.channels[s] < self.next_channel
        &&& forall|s: u32, t: u32|
            #![trigger self.channels[s], self.channels[t]]
            self.channels.contains_key(s) && self.channels.contains_key(t) && s != t
                ==> self.channels[s] != self.channels[t]
    }

    /// Whether a user joins the voice channel that the bot is in.
    pub open spec fn joins(self, old_channel: Option<u64>, new_channel: Option<u64>) -> bool {
        new_channel == Some(self.own_channel) && old_channel != new_channel
    }

    /// The links after a user joined or left: the next words are the first ones again.
    pub open spec fn unheard(self, user_id: u64) -> RecieverView {
        RecieverView { heard: self.heard.remove(user_id), ..self }
    }

    /// Whether the packets of a source are dropped.
    pub open spec fn is_ignored(self, ssrc: u32) -> bool {
        self.users.contains_key(ssrc) && self.ignored.contains(self.users[ssrc])
    }

    /// The links after a user was linked to a source, with a new packet channel.
    pub open spec fn add_user(self, ssrc: u32, user_id: u64) -> RecieverView {
        RecieverView {
            users: self.users.insert(ssrc, user_id),
            sources: self.sources.insert(user_id, ssrc),
            channels: self.channels.insert(ssrc, self.next_channel as u64),
            heard: self.heard.insert(user_id),
            next_channel: self.next_channel + 1,
            ..self
        }
    }

    /// What is to be done when a user is linked to a source: the new packet channel
    /// replaces the one that the source had, and the first words since the user joined
    /// are announced.
    pub open spec fn adding(self, ssrc: u32, user_id: u64, now: i128) -> Seq<Command> {
        seq![
            Command::OpenChannel {
                channel: self.next_channel as u64,
                info: StreamInfo { user_id, ssrc },
            },
        ] + closing(self.channels.get(ssrc)) + if self.heard.contains(user_id) {
            Seq::empty()
        } else {
            seq![announced(user_id, Some(ssrc), now, Event::SpeakForFirstTime)]
        }
    }

    /// The links after a user's source lost its user and its packet channel.
    pub open spec fn remove_user(self, user_id: u64) -> RecieverView {
        if self.sources.contains_key(user_id) {
            RecieverView {
                users: self.users.remove(self.sources[user_id]),
                channels: self.channels.remove(self.sources[user_id]),
                ..self
            }
        } else {
            self
        }
    }

    /// The packet channel that a user's source has, where there are both.
    pub open spec fn channel_of(self, user_id: u64) -> Option<u64> {
        match self.sources.get(user_id) {
            Some(ssrc) => self.channels.get(ssrc),
            None => None,
        }
    }

    /// The links after something was reported.
    pub open spec fn after(self, event: ChannelEvent) -> RecieverView {
        match event {
            ChannelEvent::VoiceStateUpdate { user_id, old_channel, new_channel } => if self.joins(
                old_channel,
                new_channel,
            ) {
                self.unheard(user_id)
            } else {
                self
            },
            ChannelEvent::SpeakingStateUpdate { ssrc, user_id } => self.add_user(ssrc, user_id),
            ChannelEvent::ClientDisconnect { user_id } => self.remove_user(user_id).unheard(
                user_id,
            ),
            _ => self,
        }
    }

    /// The links after several things were reported.
    pub open spec fn after_all(self, events: Seq<ChannelEvent>) -> RecieverView
        decreases events.len(),
    {
        if events.len() == 0 {
            self
        } else {
            self.after_all(events.drop_last()).after(events.last())
        }
    }

    /// Whether an event says that a user left, or joined the voice channel.
    pub open spec fn comes_or_goes(self, event: ChannelEvent, user_id: u64) -> bool {
        match event {
            ChannelEvent::VoiceStateUpdate { user_id: user, old_channel, new_channel } => user
                == user_id && self.joins(old_channel, new_channel),
            ChannelEvent::ClientDisconnect { user_id: user } => user == user_id,
            _ => false,
        }
    }

    /// What is to be done when something is reported at the time `now`.
    pub open spec fn commands(self, event: ChannelEvent, now: i128) -> Seq<Command> {
        match event {
            ChannelEvent::VoiceStateUpdate { user_id, old_channel, new_channel } => if self.joins(
                old_channel,
                new_channel,
            ) {
                seq![announced(user_id, None, now, Event::Connect)]
            } else {
                Seq::empty()
            },
            ChannelEvent::SpeakingStateUpdate { ssrc, user_id } => self.adding(ssrc, user_id, now),
            ChannelEvent::VoicePacket { ssrc, audio } => match (audio, self.channels.get(ssrc)) {
                (Some(pcm), Some(channel)) => if self.is_ignored(ssrc) {
                    Seq::empty()
                } else {
                    seq![Command::SendPcm { channel, pcm }]
                },
                _ => Seq::empty(),
            },
            ChannelEvent::SpeakingUpdate { ssrc, speaking } => match self.users.get(ssrc) {
                Some(user_id) => seq![
                    announced(
                        user_id,
                        Some(ssrc),
                        now,
                        if speaking {
                            Event::BeginSpeaking
                        } else {
                            Event::EndSpeaking
                        },
                    ),
                ],
                None => Seq::empty(),
            },
            ChannelEvent::ClientDisconnect { user_id } => closing(self.channel_of(user_id)).push(
                announced(user_id, self.sources.get(user_id), now, Event::Disconnect),
            ),
        }
    }
}

impl View for Reciever {
    type V = RecieverView;

    closed spec fn view(&self) -> RecieverView {
        RecieverView {
            users: by_source(self.voice_ssrc_map),
            sources: by_user(self.inverse_ssrc_map),
            channels: by_source(self.ssrc_to_sender_map),
            heard: self.heard_users@,
            next_channel: self.next_channel as nat,
            ignored: self.config.ignored_users@,
            own_channel: self.config.channel_to_join.channel_id,
        }
    }
}

/// Adds the command that closes a packet channel, where there is one.
fn push_closing(commands: &mut Vec<Command>, channel: Option<u64>)
    ensures
        final(commands)@ == old(commands)@ + closing(channel),
{
    match channel {
        Some(channel) => {
            commands.push(Command::CloseChannel { channel });
        },
        None => {},
    }
    assert(commands@ =~= old(commands)@ + closing(channel));
}

impl Reciever {
    /// A receiver that knows of no user yet.
    pub fn new(config: SttConfig) -> (r: Reciever)
        ensures
            r@.wf(),
            r@ == (RecieverView {
                users: Map::empty(),
                sources: Map::empty(),
                channels: Map::empty(),
                heard: Set::empty(),
                next_channel: 0,
                ignored: config.ignored_users@,
                own_channel: config.channel_to_join.channel_id,
            }),
    {
        Reciever {
            voice_ssrc_map: source_map(),
            inverse_ssrc_map: user_map(),
            ssrc_to_sender_map: source_map(),
            heard_users: HashSet::new(),
            next_channel: 0,
            config,
        }
    }

    /// Whether the packets of a source are dropped, because its user is ignored.
    pub fn is_ssrc_ignored(&self, ssrc: u32) -> (r: bool)
        ensures
            r == self@.is_ignored(ssrc),
            r <==> self@.users.contains_key(ssrc) && self@.ignored.contains(self@.users[ssrc]),
    {
        match self.get_user_by_ssrc(ssrc) {
            Some(user_id) => is_ignored(&self.config.ignored_users, user_id),
            None => false,
        }
    }

    /// Links a user to a source and opens a packet channel for it.
    pub fn add_user_with_ssrc(&mut self, ssrc: u32, user_id: u64, now: i128) -> (r: Vec<Command>)
        requires
            old(self)@.wf(),
            old(self)@.next_channel < u64::MAX,
        ensures
            final(self)@.wf(),
            final(self)@ == old(self)@.add_user(ssrc, user_id),
            r@ == old(self)@.adding(ssrc, user_id, now),
    {
        broadcast use vstd::std_specs::hash::group_hash_axioms;

        let first_words = self.heard_users.insert(user_id);
        source_insert(&mut self.voice_ssrc_map, ssrc, user_id);
        user_insert(&mut self.inverse_ssrc_map, user_id, ssrc);

        let channel: u64 = self.next_channel;
        self.next_channel = channel + 1;
        let mut commands: Vec<Command> = Vec::new();
        commands.push(Command::OpenChannel { channel, info: StreamInfo { user_id, ssrc } });
        let replaced = source_insert(&mut self.ssrc_to_sender_map, ssrc, channel);
        push_closing(&mut commands, replaced);
        if first_words {
            commands.push(
                Command::Announce(
                    VoiceEvent {
                        user_id,
                        ssrc: Some(ssrc),
                        timestamp: now,
                        event: Event::SpeakForFirstTime,
                    },
                ),
            );
        }
        assert(commands@ =~= old(self)@.adding(ssrc, user_id, now));
        commands
    }

    /// The user who speaks on a source.
    pub fn get_user_by_ssrc(&self, ssrc: u32) -> (r: Option<u64>)
        ensures
            r == self@.users.get(ssrc),
    {
        source_get(&self.voice_ssrc_map, ssrc)
    }

    /// The source that a user speaks on, or spoke on last.
    pub fn get_user_by_id(&self, user_id: u64) -> (r: Option<u32>)
        ensures
            r == self@.sources.get(user_id),
    {
        user_get(&self.inverse_ssrc_map, user_id)
    }

    /// Takes the user and the packet channel from the source of a user. The source
    /// comes back, with the packet channel that is to be closed.
    pub fn remove_user_by_id(&mut self, user_id: u64) -> (r: (Option<u32>, Option<u64>))
        requires
            old(self)@.wf(),
        ensures
            final(self)@.wf(),
            final(self)@ == old(self)@.remove_user(user_id),
            r.0 == old(self)@.sources.get(user_id),
            r.1 == old(self)@.channel_of(user_id),
            !old(self)@.sources.contains_key(user_id) ==> r.1 is None && final(self)@ == old(self)@,
            old(self)@.sources.contains_key(user_id) ==> {
                let ssrc = old(self)@.sources[user_id];
                &&& r.1 == old(self)@.channels.get(ssrc)
                &&& final(self)@ == RecieverView {
                    users: old(self)@.users.remove(ssrc),
                    channels: old(self)@.channels.remove(ssrc),
                    ..old(self)@
                }
            },
    {
        match user_get(&self.inverse_ssrc_map, user_id) {
            Some(ssrc) => {
                source_remove(&mut self.voice_ssrc_map, ssrc);
                let channel = source_remove(&mut self.ssrc_to_sender_map, ssrc);
                (Some(ssrc), channel)
            },
            None => (None, None),
        }
    }

    /// Takes the source from the user of a source, and the packet channel from the
    /// source. The user comes back, with the packet channel that is to be closed.
    pub fn remove_user_by_ssrc(&mut self, ssrc: u32) -> (r: (Option<u64>, Option<u64>))
        requires
            old(self)@.wf(),
        ensures
            final(self)@.wf(),
            r.0 == old(self)@.users.get(ssrc),
            match old(self)@.users.get(ssrc) {
                Some(user_id) => {
                    &&& r.1 == old(self)@.channels.get(ssrc)
                    &&& final(self)@ == RecieverView {
                        sources: old(self)@.sources.remove(user_id),
                        channels: old(self)@.channels.remove(ssrc),
                        ..old(self)@
                    }
                },
                None => r.1 is None && final(self)@ == old(self)@,
            },
    {
        match source_get(&self.voice_ssrc_map, ssrc) {
            Some(user_id) => {
                user_remove(&mut self.inverse_ssrc_map, user_id);
                let channel = source_remove(&mut self.ssrc_to_sender_map, ssrc);
                (Some(user_id), channel)
            },
            None => (None, None),
        }
    }

    /// Takes in what the voice channel reports at the time `now`.
    pub fn act(&mut self, event: ChannelEvent, now: i128) -> (r: Vec<Command>)
        requires
            old(self)@.wf(),
            event is SpeakingStateUpdate ==> old(self)@.next_channel < u64::MAX,
        ensures
            final(self)@.wf(),
            final(self)@ == old(self)@.after(event),
            r@ == old(self)@.commands(event, now),
            event matches ChannelEvent::VoicePacket { ssrc, audio: Some(pcm) } ==> {
                let links = old(self)@;
                if links.channels.contains_key(ssrc) && !(links.users.contains_key(ssrc)
                    && links.ignored.contains(links.users[ssrc])) {
                    r@ == seq![Command::SendPcm { channel: links.channels[ssrc], pcm }]
                } else {
                    r@.len() == 0
                }
            },
            event is VoicePacket || event is SpeakingUpdate ==> final(self)@ == old(self)@,
    {
        broadcast use vstd::std_specs::hash::group_hash_axioms;

        let mut commands: Vec<Command> = Vec::new();
        match event {
            ChannelEvent::VoiceStateUpdate { user_id, old_channel, new_channel } => {
                let own: u64 = self.config.channel_to_join.channel_id;
                let is_in = match new_channel {
                    Some(channel) => channel == own,
                    None => false,
                };
                let was_in = match old_channel {
                    Some(channel) => channel == own,
                    None => false,
                };
                if is_in && !was_in {
                    self.heard_users.remove(&user_id);
                    commands.push(
                        Command::Announce(
                            VoiceEvent {
                                user_id,
                                ssrc: None,
                                timestamp: now,
                                event: Event::Connect,
                            },
                        ),
                    );
                }
            },
            ChannelEvent::SpeakingStateUpdate { ssrc, user_id } => {
                commands = self.add_user_with_ssrc(ssrc, user_id, now);
            },
            ChannelEvent::VoicePacket { ssrc, audio } => {
                if self.is_ssrc_ignored(ssrc) {
                    return commands;
                }
                match audio {
                    Some(pcm) => match source_get(&self.ssrc_to_sender_map, ssrc) {
                        Some(channel) => {
                            commands.push(Command::SendPcm { channel, pcm });
                        },
                        None => {},
                    },
                    None => {},
                }
            },
            ChannelEvent::SpeakingUpdate { ssrc, speaking } => {
                let event = if speaking {
                    Event::BeginSpeaking
                } else {
                    Event::EndSpeaking
                };
                match self.get_user_by_ssrc(ssrc) {
                    Some(user_id) => {
                        commands.push(
                            Command::Announce(
                                VoiceEvent { user_id, ssrc: Some(ssrc), timestamp: now, event },
                            ),
                        );
                    },
                    None => {},
                }
            },
            ChannelEvent::ClientDisconnect { user_id } => {
                let (ssrc, channel) = self.remove_user_by_id(user_id);
                self.heard_users.remove(&user_id);
                push_closing(&mut commands, channel);
                commands.push(
                    Command::Announce(
                        VoiceEvent { user_id, ssrc, timestamp: now, event: Event::Disconnect },
                    ),
                );
            },
        }
        assert(commands@ =~= old(self)@.commands(event, now));
        commands
    }
}

/// The sources that are being heard: which reports a tick of the channel makes.
pub struct Hearing {
    heard: HashSet<u32>,
}

impl View for Hearing {
    type V = Set<u32>;

    closed spec fn view(&self) -> Set<u32> {
        self.heard@
    }
}

/// What a tick reports of a source that speaks, where `heard` are the sources that were
/// heard before: that it started, where it did, and its packet.
pub open spec fn spoken_events(heard: Set<u32>, ssrc: u32, audio: Option<Vec<i16>>) -> Seq<ChannelEvent> {
    let start = if heard.contains(ssrc) {
        Seq::empty()
    } else {
        seq![ChannelEvent::SpeakingUpdate { ssrc, speaking: true }]
    };
    start.push(ChannelEvent::VoicePacket { ssrc, audio })
}

/// What a tick reports of a source that is silent: that it stopped, where it did.
pub open spec fn silent_event(heard: Set<u32>, ssrc: u32) -> Option<ChannelEvent> {
    if heard.contains(ssrc) {
        Some(ChannelEvent::SpeakingUpdate { ssrc, speaking: false })
    } else {
        None
    }
}

impl Hearing {
    /// Nothing is heard yet.
    pub fn new() -> (r: Hearing)
        ensures
            r@ == Set::<u32>::empty(),
    {
        Hearing { heard: HashSet::new() }
    }

    /// Takes in that a source speaks in a tick.
    pub fn speaks(&mut self, ssrc: u32, audio: Option<Vec<i16>>) -> (r: Vec<ChannelEvent>)
        ensures
            final(self)@ == old(self)@.insert(ssrc),
            r@ == spoken_events(old(self)@, ssrc, audio),
            r@.last() == (ChannelEvent::VoicePacket { ssrc, audio }),
            r@.len() == if old(self)@.contains(ssrc) {
                1int
            } else {
                2
            },
    {
        broadcast use vstd::std_specs::hash::group_hash_axioms;

        let mut events: Vec<ChannelEvent> = Vec::new();
        if self.heard.insert(ssrc) {
            events.push(ChannelEvent::SpeakingUpdate { ssrc, speaking: true });
        }
        events.push(ChannelEvent::VoicePacket { ssrc, audio });
        assert(events@ =~= spoken_events(old(self)@, ssrc, audio));
        events
    }

    /// Takes in that a source is silent in a tick.
    pub fn is_silent(&mut self, ssrc: u32) -> (r: Option<ChannelEvent>)
        ensures
            final(self)@ == old(self)@.remove(ssrc),
            r == silent_event(old(self)@, ssrc),
    {
        broadcast use vstd::std_specs::hash::group_hash_axioms;

        if self.heard.remove(&ssrc) {
            Some(ChannelEvent::SpeakingUpdate { ssrc, speaking: false })
        } else {
            None
        }
    }
}

/// A source starts and stops in turn: one that started does not start again before it
/// stopped, nor does one that stopped stop again before it started.
pub proof fn sources_start_and_stop_in_turn(heard: Set<u32>, ssrc: u32, audio: Option<Vec<i16>>)
    ensures
        spoken_events(heard.insert(ssrc), ssrc, audio) == seq![
            ChannelEvent::VoicePacket { ssrc, audio },
        ],
        silent_event(heard.insert(ssrc), ssrc) == Some(
            ChannelEvent::SpeakingUpdate { ssrc, speaking: false },
        ),
        silent_event(heard.remove(ssrc), ssrc) is None,
        spoken_events(heard.remove(ssrc), ssrc, audio) == seq![
            ChannelEvent::SpeakingUpdate { ssrc, speaking: true },
            ChannelEvent::VoicePacket { ssrc, audio },
        ],
{
    assert(spoken_events(heard.insert(ssrc), ssrc, audio) =~= seq![
        ChannelEvent::VoicePacket { ssrc, audio },
    ]);
    assert(spoken_events(heard.remove(ssrc), ssrc, audio) =~= seq![
        ChannelEvent::SpeakingUpdate { ssrc, speaking: true },
        ChannelEvent::VoicePacket { ssrc, audio },
    ]);
}

/// The packet channels that are open.
pub open spec fn open_channels(links: RecieverView) -> Set<u64> {
    links.channels.values()
}

/// The packet channels that commands open.
pub open spec fn opened(commands: Seq<Command>) -> Set<u64> {
    Set::new(
        |c: u64|
            exists|i: int|
                0 <= i < commands.len() && (#[trigger] commands[i] matches Command::OpenChannel {
                    channel,
                    info,
                } && channel == c),
    )
}

/// The packet channels that commands close.
pub open spec fn closed(commands: Seq<Command>) -> Set<u64> {
    Set::new(
        |c: u64|
            exists|i: int|
                0 <= i < commands.len() && #[trigger] commands[i] == (Command::CloseChannel {
                    channel: c,
                }),
    )
}

/// The links follow the commands: a packet channel is open after something was
/// reported exactly if it was open or has been opened, and has not been closed.
/// Samples only go to an open one.
pub proof fn channels_follow_commands(links: RecieverView, event: ChannelEvent, now: i128)
    requires
        links.wf(),
        links.next_channel < u64::MAX,
    ensures
        open_channels(links.after(event)) == (open_channels(links) + opened(
            links.commands(event, now),
        )) - closed(links.commands(event, now)),
        forall|i: int|
            0 <= i < links.commands(event, now).len() ==> (#[trigger] links.commands(event, now)[i] matches Command::SendPcm {
                channel,
                pcm,
            } ==> open_channels(links).contains(channel)),
{
    let commands = links.commands(event, now);
    let after = links.after(event);
    match event {
        ChannelEvent::SpeakingStateUpdate { ssrc, user_id } => {
            let fresh = links.next_channel as u64;
            assert(commands[0] == Command::OpenChannel {
                channel: fresh,
                info: StreamInfo { user_id, ssrc },
            });
            if links.channels.contains_key(ssrc) {
                assert(commands[1] == Command::CloseChannel { channel: links.channels[ssrc] });
            }
            assert forall|c: u64| open_channels(after).contains(c) <==> ((open_channels(links)
                + opened(commands)) - closed(commands)).contains(c) by {
                lemma_replaced(links.channels, ssrc, fresh, c);
            }
            assert(open_channels(after) =~= (open_channels(links) + opened(commands)) - closed(
                commands,
            ));
        },
        ChannelEvent::ClientDisconnect { user_id } => {
            let channel = links.channel_of(user_id);
            if channel is Some {
                assert(commands[0] == Command::CloseChannel { channel: channel->0 });
            }
            assert forall|c: u64| open_channels(after).contains(c) <==> ((open_channels(links)
                + opened(commands)) - closed(commands)).contains(c) by {
                if links.sources.contains_key(user_id) {
                    lemma_removed(links.channels, links.sources[user_id], c);
                }
            }
            assert(open_channels(after) =~= (open_channels(links) + opened(commands)) - closed(
                commands,
            ));
        },
        _ => {
            assert(opened(commands) =~= Set::empty());
            assert(closed(commands) =~= Set::empty());
            assert(open_channels(after) =~= (open_channels(links) + opened(commands)) - closed(
                commands,
            ));
        },
    }
}

/// Which values a map has after a key got a value that no key had.
proof fn lemma_replaced(m: Map<u32, u64>, key: u32, fresh: u64, c: u64)
    requires
        forall|s: u32, t: u32|
            #![trigger m[s], m[t]]
            m.contains_key(s) && m.contains_key(t) && s != t ==> m[s] != m[t],
        forall|s: u32| #[trigger] m.contains_key(s) ==> m[s] < fresh,
    ensures
        m.insert(key, fresh).values().contains(c) <==> c == fresh || (m.values().contains(c)
            && m.get(key) != Some(c)),
{
    let n = m.insert(key, fresh);
    if n.values().contains(c) {
        let s = choose|s: u32| #[trigger] n.contains_key(s) && n[s] == c;
        assert(s != key ==> m.contains_key(s) && m[s] == c);
    }
    if c == fresh {
        assert(n.contains_key(key) && n[key] == c);
    } else if m.values().contains(c) && m.get(key) != Some(c) {
        let s = choose|s: u32| #[trigger] m.contains_key(s) && m[s] == c;
        assert(n.contains_key(s) && n[s] == c);
    }
}

/// Which values a map has after a key lost its value.
proof fn lemma_removed(m: Map<u32, u64>, key: u32, c: u64)
    requires
        forall|s: u32, t: u32|
            #![trigger m[s], m[t]]
            m.contains_key(s) && m.contains_key(t) && s != t ==> m[s] != m[t],
    ensures
        m.remove(key).values().contains(c) <==> m.values().contains(c) && m.get(key) != Some(c),
{
    let n = m.remove(key);
    if n.values().contains(c) {
        let s = choose|s: u32| #[trigger] n.contains_key(s) && n[s] == c;
        assert(m.contains_key(s) && m[s] == c);
    }
    if m.values().contains(c) && m.get(key) != Some(c) {
        let s = choose|s: u32| #[trigger] m.contains_key(s) && m[s] == c;
        assert(n.contains_key(s) && n[s] == c);
    }
}

/// Whatever is reported, the packet channels stay numbered and unshared.
pub proof fn reports_keep_channels_apart(links: RecieverView, event: ChannelEvent)
    requires
        links.wf(),
        links.next_channel < u64::MAX,
    ensures
        links.after(event).wf(),
{
}

/// A user who spoke on a source is found by it, and the source by the user, and
/// what the source sends goes to the packet channel that was opened for it, unless
/// the user is ignored.
pub proof fn speakers_are_found(links: RecieverView, ssrc: u32, user_id: u64, pcm: Vec<i16>, now: i128)
    requires
        links.wf(),
        links.next_channel < u64::MAX,
    ensures
        ({
            let spoken = links.after(ChannelEvent::SpeakingStateUpdate { ssrc, user_id });
            &&& spoken.users.get(ssrc) == Some(user_id)
            &&& spoken.sources.get(user_id) == Some(ssrc)
            &&& spoken.commands(ChannelEvent::VoicePacket { ssrc, audio: Some(pcm) }, now)
                == if links.ignored.contains(user_id) {
                Seq::empty()
            } else {
                seq![Command::SendPcm { channel: links.next_channel as u64, pcm }]
            }
        }),
{
}

/// The first words of a user are announced when the user speaks, and not again as long
/// as the user neither leaves nor joins anew, whoever else speaks on whichever source.
pub proof fn first_words_are_announced_once(
    links: RecieverView,
    ssrc: u32,
    events: Seq<ChannelEvent>,
    again: u32,
    user_id: u64,
    now: i128,
    later: i128,
)
    requires
        !links.heard.contains(user_id),
        forall|i: int|
            0 <= i < events.len() ==> !links.comes_or_goes(#[trigger] events[i], user_id),
    ensures
        ({
            let first = ChannelEvent::SpeakingStateUpdate { ssrc, user_id };
            let more = ChannelEvent::SpeakingStateUpdate { ssrc: again, user_id };
            &&& links.commands(first, now).contains(
                announced(user_id, Some(ssrc), now, Event::SpeakForFirstTime),
            )
            &&& !links.after(first).after_all(events).commands(more, later).contains(
                announced(user_id, Some(again), later, Event::SpeakForFirstTime),
            )
        }),
{
    let first = ChannelEvent::SpeakingStateUpdate { ssrc, user_id };
    let words = announced(user_id, Some(ssrc), now, Event::SpeakForFirstTime);
    assert(links.commands(first, now).last() == words);
    lemma_stays_heard(links.after(first), events, user_id);
}

/// A user who was heard stays so as long as the user neither leaves nor joins anew.
proof fn lemma_stays_heard(links: RecieverView, events: Seq<ChannelEvent>, user_id: u64)
    requires
        links.heard.contains(user_id),
        forall|i: int|
            0 <= i < events.len() ==> !links.comes_or_goes(#[trigger] events[i], user_id),
    ensures
        links.after_all(events).heard.contains(user_id),
        links.after_all(events).own_channel == links.own_channel,
    decreases events.len(),
{
    if events.len() > 0 {
        let rest = events.drop_last();
        assert forall|i: int| 0 <= i < rest.len() implies !links.comes_or_goes(
            #[trigger] rest[i],
            user_id,
        ) by {
            assert(!links.comes_or_goes(events[i], user_id));
        }
        lemma_stays_heard(links, rest, user_id);
        assert(!links.comes_or_goes(events[events.len() - 1], user_id));
    }
}

/// After a user left, or joined anew, the next words are announced as the first ones.
pub proof fn first_words_come_again(links: RecieverView, event: ChannelEvent, ssrc: u32, user_id: u64, now: i128)
    requires
        links.comes_or_goes(event, user_id),
    ensures
        links.after(event).commands(
            ChannelEvent::SpeakingStateUpdate { ssrc, user_id },
            now,
        ).contains(announced(user_id, Some(ssrc), now, Event::SpeakForFirstTime)),
{
    let left = links.after(event);
    assert(left.commands(ChannelEvent::SpeakingStateUpdate { ssrc, user_id }, now).last()
        == announced(user_id, Some(ssrc), now, Event::SpeakForFirstTime));
}

/// Every user who joins the channel, or leaves it, is announced once, and nobody else
/// is announced with them.
pub proof fn joining_and_leaving_are_announced(
    links: RecieverView,
    user_id: u64,
    from: Option<u64>,
    to: Option<u64>,
    now: i128,
)
    ensures
        ({
            let moved = links.commands(
                ChannelEvent::VoiceStateUpdate { user_id, old_channel: from, new_channel: to },
                now,
            );
            let left = links.commands(ChannelEvent::ClientDisconnect { user_id }, now);
            &&& moved == if links.joins(from, to) {
                seq![announced(user_id, None, now, Event::Connect)]
            } else {
                Seq::empty()
            }
            &&& left.last() == announced(
                user_id,
                links.sources.get(user_id),
                now,
                Event::Disconnect,
            )
            &&& forall|i: int| 0 <= i < left.len() - 1 ==> !(#[trigger] left[i] is Announce)
        }),
{
}

/// After a user left, the source that the user spoke on has no user, and what it
/// sends is dropped.
pub proof fn leaving_unlinks(links: RecieverView, user_id: u64, pcm: Vec<i16>, speaking: bool, now: i128)
    requires
        links.sources.contains_key(user_id),
    ensures
        ({
            let left = links.after(ChannelEvent::ClientDisconnect { user_id });
            let ssrc = links.sources[user_id];
            &&& !left.heard.contains(user_id)
            &&& left.users.get(ssrc) is None
            &&& left.commands(ChannelEvent::VoicePacket { ssrc, audio: Some(pcm) }, now)
                == Seq::<Command>::empty()
            &&& left.commands(ChannelEvent::SpeakingUpdate { ssrc, speaking }, now)
                == Seq::<Command>::empty()
        }),
{
}

/// What becomes of a packet: its samples go, once and unchanged, to the packet channel of
/// its source, unless there is none or its user is ignored. Nothing else is done, and no
/// link changes. Other sources and users play no part.
pub proof fn packets_go_to_their_source(links: RecieverView, ssrc: u32, pcm: Vec<i16>, now: i128)
    ensures
        ({
            let heard = ChannelEvent::VoicePacket { ssrc, audio: Some(pcm) };
            let lost = ChannelEvent::VoicePacket { ssrc, audio: None };
            let dropped = links.users.contains_key(ssrc) && links.ignored.contains(links.users[ssrc]);
            &&& links.channels.contains_key(ssrc) && !dropped ==> links.commands(heard, now) == seq![
                Command::SendPcm { channel: links.channels[ssrc], pcm },
            ]
            &&& !links.channels.contains_key(ssrc) || dropped ==> links.commands(heard, now).len() == 0
            &&& links.commands(lost, now).len() == 0
            &&& links.after(heard) == links
            &&& links.after(lost) == links
        }),
{
}

/// Packets reach the packet channel that was opened for their source, whatever was
/// reported since: that others spoke on other sources, joined or left. This lasts until
/// somebody speaks on the source anew, or a user leaves who spoke on it last. The
/// packets of an ignored user reach nobody.
pub proof fn packets_reach_their_channel(
    links: RecieverView,
    ssrc: u32,
    user_id: u64,
    events: Seq<ChannelEvent>,
    pcm: Vec<i16>,
    now: i128,
)
    requires
        links.next_channel < u64::MAX,
        forall|i: int|
            0 <= i < events.len() ==> (#[trigger] events[i] matches ChannelEvent::SpeakingStateUpdate {
                ssrc: other,
                ..
            } ==> other != ssrc),
        forall|i: int|
            0 <= i < events.len() ==> (#[trigger] events[i] matches ChannelEvent::ClientDisconnect {
                user_id: other,
            } ==> other != user_id && links.sources.get(other) != Some(ssrc)),
    ensures
        links.after(ChannelEvent::SpeakingStateUpdate { ssrc, user_id }).after_all(events).commands(
            ChannelEvent::VoicePacket { ssrc, audio: Some(pcm) },
            now,
        ) == if links.ignored.contains(user_id) {
            Seq::empty()
        } else {
            seq![Command::SendPcm { channel: links.next_channel as u64, pcm }]
        },
{
    lemma_channel_stays(links, ssrc, user_id, events);
}

/// The source keeps its user and its packet channel, and no user comes to speak on it
/// who did not.
proof fn lemma_channel_stays(links: RecieverView, ssrc: u32, user_id: u64, events: Seq<ChannelEvent>)
    requires
        forall|i: int|
            0 <= i < events.len() ==> (#[trigger] events[i] matches ChannelEvent::SpeakingStateUpdate {
                ssrc: other,
                ..
            } ==> other != ssrc),
        forall|i: int|
            0 <= i < events.len() ==> (#[trigger] events[i] matches ChannelEvent::ClientDisconnect {
                user_id: other,
            } ==> other != user_id && links.sources.get(other) != Some(ssrc)),
    ensures
        ({
            let then = links.after(ChannelEvent::SpeakingStateUpdate { ssrc, user_id }).after_all(
                events,
            );
            &&& then.channels.get(ssrc) == Some(links.next_channel as u64)
            &&& then.users.get(ssrc) == Some(user_id)
            &&& then.ignored == links.ignored
            &&& forall|u: u64|
                then.sources.get(u) == Some(ssrc) ==> u == user_id || #[trigger] links.sources.get(u)
                    == Some(ssrc)
        }),
    decreases events.len(),
{
    let first = links.after(ChannelEvent::SpeakingStateUpdate { ssrc, user_id });
    if events.len() > 0 {
        let rest = events.drop_last();
        assert forall|i: int| 0 <= i < rest.len() implies (#[trigger] rest[i] matches ChannelEvent::SpeakingStateUpdate {
            ssrc: other,
            ..
        } ==> other != ssrc) by {
            assert(rest[i] == events[i]);
        }
        assert forall|i: int| 0 <= i < rest.len() implies (#[trigger] rest[i] matches ChannelEvent::ClientDisconnect {
            user_id: other,
        } ==> other != user_id && links.sources.get(other) != Some(ssrc)) by {
            assert(rest[i] == events[i]);
        }
        lemma_channel_stays(links, ssrc, user_id, rest);
        let before = first.after_all(rest);
        let last = events[events.len() - 1];
        assert(first.after_all(events) == before.after(last));
        match last {
            ChannelEvent::ClientDisconnect { user_id: other } => {
                assert(links.sources.get(other) != Some(ssrc));
                assert(before.sources.get(other) != Some(ssrc));
            },
            _ => {},
        }
    }
}

/// What becomes of the report that a user speaks on a source: both are linked, a new
/// packet channel is opened for the source, the one that it had is closed, and the first
/// words since the user joined are announced. Other sources keep what they have.
pub proof fn speaking_opens_a_channel(links: RecieverView, ssrc: u32, user_id: u64, now: i128)
    ensures
        ({
            let spoken = ChannelEvent::SpeakingStateUpdate { ssrc, user_id };
            let then = links.after(spoken);
            let open = Command::OpenChannel {
                channel: links.next_channel as u64,
                info: StreamInfo { user_id, ssrc },
            };
            let close = if links.channels.contains_key(ssrc) {
                seq![Command::CloseChannel { channel: links.channels[ssrc] }]
            } else {
                Seq::empty()
            };
            let words = if links.heard.contains(user_id) {
                Seq::empty()
            } else {
                seq![
                    Command::Announce(
                        VoiceEvent {
                            user_id,
                            ssrc: Some(ssrc),
                            timestamp: now,
                            event: Event::SpeakForFirstTime,
                        },
                    ),
                ]
            };
            &&& links.commands(spoken, now) == seq![open] + close + words
            &&& then.users == links.users.insert(ssrc, user_id)
            &&& then.sources == links.sources.insert(user_id, ssrc)
            &&& then.channels == links.channels.insert(ssrc, links.next_channel as u64)
            &&& then.heard == links.heard.insert(user_id)
            &&& then.next_channel == links.next_channel + 1
            &&& then.ignored == links.ignored
            &&& then.own_channel == links.own_channel
        }),
{
}

/// What becomes of the report that a source started or stopped being heard: its user is
/// announced with it, where it has one, and nothing changes.
pub proof fn heard_users_are_announced(links: RecieverView, ssrc: u32, speaking: bool, now: i128)
    ensures
        ({
            let report = ChannelEvent::SpeakingUpdate { ssrc, speaking };
            &&& links.after(report) == links
            &&& !links.users.contains_key(ssrc) ==> links.commands(report, now).len() == 0
            &&& links.users.contains_key(ssrc) ==> {
                &&& links.commands(report, now).len() == 1
                &&& links.commands(report, now)[0] matches Command::Announce(told)
                &&& told.user_id == links.users[ssrc]
                &&& told.ssrc == Some(ssrc)
                &&& told.timestamp == now
                &&& speaking ==> told.event is BeginSpeaking
                &&& !speaking ==> told.event is EndSpeaking
            }
        }),
{
}

/// What becomes of the report that a user left: the packet channel of the user's source is
/// closed, the source loses its user, the user is announced, and the next words are the
/// first ones again. Other users and sources keep what they have.
pub proof fn leaving_closes_the_channel(links: RecieverView, user_id: u64, now: i128)
    ensures
        ({
            let report = ChannelEvent::ClientDisconnect { user_id };
            let then = links.after(report);
            let known = links.sources.contains_key(user_id);
            let ssrc = links.sources[user_id];
            let close = if known && links.channels.contains_key(ssrc) {
                seq![Command::CloseChannel { channel: links.channels[ssrc] }]
            } else {
                Seq::empty()
            };
            let told = Command::Announce(
                VoiceEvent {
                    user_id,
                    ssrc: if known {
                        Some(ssrc)
                    } else {
                        None
                    },
                    timestamp: now,
                    event: Event::Disconnect,
                },
            );
            &&& links.commands(report, now) == close + seq![told]
            &&& then.users == if known {
                links.users.remove(ssrc)
            } else {
                links.users
            }
            &&& then.channels == if known {
                links.channels.remove(ssrc)
            } else {
                links.channels
            }
            &&& then.sources == links.sources
            &&& then.heard == links.heard.remove(user_id)
            &&& then.next_channel == links.next_channel
            &&& then.ignored == links.ignored
            &&& then.own_channel == links.own_channel
        }),
{
    let report = ChannelEvent::ClientDisconnect { user_id };
    assert(links.commands(report, now).drop_last() + seq![links.commands(report, now).last()]
        =~= links.commands(report, now));
}

/// What becomes of the report that a user moved: one who comes into the voice channel that
/// the bot is in, from elsewhere, is announced, and the next words are the first ones
/// again. Any other move does nothing.
pub proof fn joining_is_announced(
    links: RecieverView,
    user_id: u64,
    from: Option<u64>,
    to: Option<u64>,
    now: i128,
)
    ensures
        ({
            let report = ChannelEvent::VoiceStateUpdate { user_id, old_channel: from, new_channel: to };
            let then = links.after(report);
            if to == Some(links.own_channel) && from != Some(links.own_channel) {
                &&& links.commands(report, now) == seq![
                    Command::Announce(
                        VoiceEvent { user_id, ssrc: None, timestamp: now, event: Event::Connect },
                    ),
                ]
                &&& then.heard == links.heard.remove(user_id)
                &&& then.users == links.users
                &&& then.sources == links.sources
                &&& then.channels == links.channels
                &&& then.next_channel == links.next_channel
                &&& then.ignored == links.ignored
                &&& then.own_channel == links.own_channel
            } else {
                links.commands(report, now).len() == 0 && then == links
            }
        }),
{
}

} // verus!
