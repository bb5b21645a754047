//! What the recording bot tells the backend: understood speech with its speaker, and
//! what the websocket connection does next.

use crate::config::Config;
use crate::ieee::Double;
use crate::nn::model::Segment;
use crate::stream::{Timings, UserSegments};
use crate::text::{join, joined, views};
use vstd::prelude::*;

verus! {

/// A member of the guild.
#[derive(Clone, Debug)]
pub struct Member {
    pub id: u64,
    pub name: String,
    pub global_name: Option<String>,
    pub nick: Option<String>,
}

/// Who spoke.
#[derive(Clone, Debug)]
pub struct UserInfo {
    pub id: u64,
    pub username: String,
    pub global_name: Option<String>,
    pub nickname: Option<String>,
}

impl UserInfo {
    /// Who a member is, where the member is known.
    pub fn from_id(member: Option<Member>) -> (r: Option<UserInfo>)
        ensures
            r == match member {
                Some(member) => Some(
                    UserInfo {
                        id: member.id,
                        username: member.name,
                        global_name: member.global_name,
                        nickname: member.nick,
                    },
                ),
                None => None,
            },
    {
        match member {
            Some(member) => Some(
                UserInfo {
                    id: member.id,
                    username: member.name,
                    global_name: member.global_name,
                    nickname: member.nick,
                },
            ),
            None => None,
        }
    }
}

/// Speech that was understood. Durations are in nanoseconds.
#[derive(Clone, Debug)]
pub struct UnderstoodSpeech {
    pub started_speaking_at: i128,
    pub speech_duration: i128,
    pub processing_duration: i128,
    pub speech_text: String,
    pub no_speech_prob: Double,
}

/// The texts of segments.
pub open spec fn texts(segments: Seq<Segment>) -> Seq<Seq<char>> {
    Seq::new(segments.len(), |i: int| segments[i].dr.text@)
}

/// The probabilities of segments that nothing was said.
pub open spec fn probabilities(segments: Seq<Segment>) -> Seq<Double> {
    Seq::new(segments.len(), |i: int| segments[i].dr.no_speech_prob)
}

/// The least of several values: a later one takes the place of an earlier one where
/// it is less. What is not a number neither takes a place nor gives it up.
pub open spec fn least(values: Seq<Double>) -> Double
    decreases values.len(),
{
    if values.len() <= 1 {
        values[0]
    } else {
        let before = least(values.drop_last());
        if before.exceeds(values.last()) {
            values.last()
        } else {
            before
        }
    }
}

/// Whether the differences between times can be counted.
pub open spec fn countable(timings: Timings) -> bool {
    &&& i128::MIN <= timings.done_listening_at - timings.started_listening_at <= i128::MAX
    &&& i128::MIN <= timings.done_prediction_at - timings.done_listening_at <= i128::MAX
}

/// Copies the texts of segments.
pub(crate) fn copy_texts(segments: &Vec<Segment>) -> (r: Vec<String>)
    ensures
        views(r@) == texts(segments@),
{
    let mut r: Vec<String> = Vec::new();
    for i in 0..segments.len()
        invariant
            r@.len() == i,
            forall|j: int| 0 <= j < i ==> (#[trigger] r@[j])@ == segments@[j].dr.text@,
    {
        r.push(segments[i].dr.text.clone());
    }
    assert(views(r@) =~= texts(segments@));
    r
}

impl UnderstoodSpeech {
    /// Puts together what was said in several segments.
    pub fn from_parts(segments: &Vec<Segment>, timings: Timings) -> (r: UnderstoodSpeech)
        requires
            segments@.len() > 0,
            countable(timings),
        ensures
            r.started_speaking_at == timings.started_listening_at,
            r.speech_duration == timings.done_listening_at - timings.started_listening_at,
            r.processing_duration == timings.done_prediction_at - timings.done_listening_at,
            r.speech_text@ == joined(texts(segments@), ". "@),
            r.no_speech_prob == least(probabilities(segments@)),
    {
        let speech_text: String = join(&copy_texts(segments), ". ");
        let mut no_speech_prob: Double = segments[0].dr.no_speech_prob;
        let ghost all = probabilities(segments@);
        assert(all.take(1)[0] == no_speech_prob);
        for i in 1..segments.len()
            invariant
                all == probabilities(segments@),
                no_speech_prob == least(all.take(i as int)),
        {
            let next: Double = segments[i].dr.no_speech_prob;
            proof {
                assert(all.take(i + 1).drop_last() =~= all.take(i as int));
                assert(all.take(i + 1).last() == next);
            }
            if no_speech_prob.gt(&next) {
                no_speech_prob = next;
            }
        }
        assert(all.take(segments@.len() as int) =~= all);
        UnderstoodSpeech {
            started_speaking_at: timings.started_listening_at,
            speech_duration: timings.done_listening_at - timings.started_listening_at,
            processing_duration: timings.done_prediction_at - timings.done_listening_at,
            speech_text,
            no_speech_prob,
        }
    }
}

/// Among numbers the least value is one of them, and none of them is less.
pub proof fn least_is_a_minimum(values: Seq<Double>)
    requires
        values.len() > 0,
        forall|i: int| 0 <= i < values.len() ==> !(#[trigger] values[i]).is_nan(),
    ensures
        values.contains(least(values)),
        forall|i: int| 0 <= i < values.len() ==> !least(values).exceeds(#[trigger] values[i]),
    decreases values.len(),
{
    if values.len() > 1 {
        let rest = values.drop_last();
        assert forall|i: int| 0 <= i < rest.len() implies !(#[trigger] rest[i]).is_nan() by {
            assert(!values[i].is_nan());
        }
        least_is_a_minimum(rest);
        let before = least(rest);
        let k = rest.index_of(before);
        assert(values[k] == before);
        assert(!values[k].is_nan());
        assert(values[values.len() - 1] == values.last());
        assert forall|i: int| 0 <= i < values.len() implies !least(values).exceeds(
            #[trigger] values[i],
        ) by {
            if i < rest.len() {
                assert(rest[i] == values[i]);
                assert(!before.exceeds(rest[i]));
            }
        }
    } else {
        assert(values[0] == least(values));
    }
}

/// A message for the backend: understood speech, its speaker, and when it was sent,
/// in nanoseconds of Unix time.
#[derive(Clone, Debug)]
pub struct TimestampedMessage {
    pub timestamp: i128,
    pub user: UserInfo,
    pub speech: UnderstoodSpeech,
}

impl TimestampedMessage {
    /// The type that the message names.
    pub open spec fn kind(self) -> Seq<char> {
        "UnderstoodSpeech"@
    }

    /// The type that the message names.
    pub fn message_type(&self) -> (r: &'static str)
        ensures
            r@ == self.kind(),
            r@ == "UnderstoodSpeech"@,
    {
        "UnderstoodSpeech"
    }

    /// The message that tells what a user said.
    pub fn from_user_segments(user_segments: UserSegments, user: UserInfo, now: i128) -> (r: TimestampedMessage)
        requires
            user_segments.segments@.len() > 0,
            countable(user_segments.timings),
        ensures
            r.timestamp == now,
            r.user == user,
            ({
                let timings = user_segments.timings;
                let segments = user_segments.segments@;
                &&& r.speech.started_speaking_at == timings.started_listening_at
                &&& r.speech.speech_duration == timings.done_listening_at
                    - timings.started_listening_at
                &&& r.speech.processing_duration == timings.done_prediction_at
                    - timings.done_listening_at
                &&& r.speech.speech_text@ == joined(texts(segments), ". "@)
                &&& r.speech.no_speech_prob == least(probabilities(segments))
            }),
    {
        TimestampedMessage {
            timestamp: now,
            user,
            speech: UnderstoodSpeech::from_parts(&user_segments.segments, user_segments.timings),
        }
    }
}

/// What is reported of voice channels, where `S` is the state of a user in them: the
/// status of a channel changed, or the state of a user did.
#[derive(Clone, Debug)]
pub enum VoiceEvent<S> {
    VoiceChannelStatusUpdate {
        old: Option<String>,
        status: Option<String>,
        channel_id: u64,
        guild_id: u64,
    },
    VoiceStateUpate { user_id: u64, old: Option<S>, new: S },
}

impl<S> VoiceEvent<S> {
    /// The type that a message about the event names.
    pub open spec fn kind(self) -> Seq<char> {
        match self {
            VoiceEvent::VoiceChannelStatusUpdate { .. } => "VoiceChannelStatusUpdate"@,
            VoiceEvent::VoiceStateUpate { .. } => "VoiceStateUpate"@,
        }
    }

    /// The type that a message about the event names.
    pub fn message_type(&self) -> (r: &'static str)
        ensures
            r@ == self.kind(),
    {
        match self {
            VoiceEvent::VoiceChannelStatusUpdate { .. } => "VoiceChannelStatusUpdate",
            VoiceEvent::VoiceStateUpate { .. } => "VoiceStateUpate",
        }
    }

    /// The user who acted, where it was a user.
    pub open spec fn actor(self) -> Option<u64> {
        match self {
            VoiceEvent::VoiceChannelStatusUpdate { .. } => None,
            VoiceEvent::VoiceStateUpate { user_id, .. } => Some(user_id),
        }
    }
}

/// A message about a voice event: its type, who acted, where it was a user, and when it
/// was reported, in nanoseconds of Unix time.
#[derive(Clone, Debug)]
pub struct VoiceMessage<S> {
    pub message_type: &'static str,
    pub user: Option<UserInfo>,
    pub timestamp: i128,
    pub event: VoiceEvent<S>,
}

impl<S> VoiceMessage<S> {
    /// Whether this is the message about `event` at the time `now`: it names the user
    /// who acted, by the user's id, and by the names of the member where the member is
    /// known. A user who is not known has an empty name.
    pub open spec fn tells(self, event: VoiceEvent<S>, member: Option<Member>, now: i128) -> bool {
        &&& self.message_type@ == event.kind()
        &&& self.timestamp == now
        &&& self.event == event
        &&& match event.actor() {
            Some(user_id) => {
                &&& self.user matches Some(user)
                &&& user.id == user_id
                &&& match member {
                    Some(member) => {
                        &&& user.username == member.name
                        &&& user.global_name == member.global_name
                        &&& user.nickname == member.nick
                    },
                    None => {
                        &&& user.username@ == ""@
                        &&& user.global_name is None
                        &&& user.nickname is None
                    },
                }
            },
            None => self.user is None,
        }
    }

    /// The message about a voice event, where `member` is the user who acted.
    pub fn from_voice_event(event: VoiceEvent<S>, member: Option<Member>, now: i128) -> (r: VoiceMessage<S>)
        ensures
            r.tells(event, member, now),
    {
        let user: Option<UserInfo> = match &event {
            VoiceEvent::VoiceChannelStatusUpdate { .. } => None,
            VoiceEvent::VoiceStateUpate { user_id, .. } => Some(
                match member {
                    Some(member) => UserInfo {
                        id: *user_id,
                        username: member.name,
                        global_name: member.global_name,
                        nickname: member.nick,
                    },
                    None => UserInfo {
                        id: *user_id,
                        username: "".to_owned(),
                        global_name: None,
                        nickname: None,
                    },
                },
            ),
        };
        VoiceMessage { message_type: event.message_type(), user, timestamp: now, event }
    }
}

/// Every message about what a user did names the user and the time, whatever is known
/// of the user.
pub proof fn actions_name_their_user<S>(
    message: VoiceMessage<S>,
    event: VoiceEvent<S>,
    member: Option<Member>,
    now: i128,
)
    requires
        message.tells(event, member, now),
        event is VoiceStateUpate,
    ensures
        message.user matches Some(user) && Some(user.id) == event.actor(),
        message.timestamp == now,
        message.message_type@ == "VoiceStateUpate"@,
{
}

/// What wakes the websocket connection: something from the websocket or its failure,
/// speech that was understood, or a voice event with the member who acted.
pub enum MessageSide<M, E, S> {
    Websocket(Result<M, E>),
    UnderstoodSpeech(UserSegments),
    VoiceEvent { event: VoiceEvent<S>, member: Option<Member> },
}

/// What the websocket connection does next.
pub enum WebsocketStep<M, S> {
    /// Hand the message on.
    HandOut(M),
    /// Send what the user said.
    SendSpeech(UserSegments),
    /// Send the message about a voice event.
    SendVoiceEvent(VoiceMessage<S>),
    /// End the connection.
    Stop,
}

/// The connection to the backend.
pub struct Websocket {
    pub config: Config,
}

impl Websocket {
    /// A connection to the configured backend.
    pub fn new(config: Config) -> (r: Websocket)
        ensures
            r.config == config,
    {
        Websocket { config }
    }

    /// What the connection does after it was woken at the time `now`, or after one of
    /// its sources has closed. A failure of the websocket ends it.
    pub fn run<M, E, S>(&self, woken_by: Option<MessageSide<M, E, S>>, now: i128) -> (r: WebsocketStep<M, S>)
        ensures
            match woken_by {
                Some(MessageSide::Websocket(Ok(message))) => r == WebsocketStep::<M, S>::HandOut(
                    message,
                ),
                Some(MessageSide::UnderstoodSpeech(speech)) => r == WebsocketStep::<
                    M,
                    S,
                >::SendSpeech(speech),
                Some(MessageSide::VoiceEvent { event, member }) => {
                    &&& r matches WebsocketStep::SendVoiceEvent(message)
                    &&& message.tells(event, member, now)
                },
                Some(MessageSide::Websocket(Err(_))) | None => r is Stop,
            },
    {
        match woken_by {
            Some(MessageSide::Websocket(Ok(message))) => WebsocketStep::HandOut(message),
            Some(MessageSide::Websocket(Err(_))) => WebsocketStep::Stop,
            Some(MessageSide::UnderstoodSpeech(speech)) => WebsocketStep::SendSpeech(speech),
            Some(MessageSide::VoiceEvent { event, member }) => WebsocketStep::SendVoiceEvent(
                VoiceMessage::from_voice_event(event, member, now),
            ),
            None => WebsocketStep::Stop,
        }
    }
}

/// The least of several values, told value by value: one alone is the least, and one more
/// takes its place exactly if it is less.
pub proof fn least_values_give_way_to_less(values: Seq<Double>, next: Double)
    ensures
        least(seq![next]) == next,
        values.len() > 0 && least(values).exceeds(next) ==> least(values.push(next)) == next,
        values.len() > 0 && !least(values).exceeds(next) ==> least(values.push(next)) == least(
            values,
        ),
{
    assert(values.push(next).drop_last() =~= values);
}

/// The texts and the probabilities of segments are those of their results, in order.
pub proof fn segments_are_read_in_order(segments: Seq<Segment>)
    ensures
        texts(segments).len() == segments.len(),
        probabilities(segments).len() == segments.len(),
        forall|i: int| 0 <= i < segments.len() ==> #[trigger] texts(segments)[i] == segments[i].dr.text@,
        forall|i: int|
            0 <= i < segments.len() ==> #[trigger] probabilities(segments)[i]
                == segments[i].dr.no_speech_prob,
{
}

/// What a message about a voice event says: the type that the event has, the event
/// itself, the time, and the user whose state changed. A change of a channel's status
/// names no user.
pub proof fn messages_say_what_happened<S>(
    message: VoiceMessage<S>,
    event: VoiceEvent<S>,
    member: Option<Member>,
    now: i128,
)
    requires
        message.tells(event, member, now),
    ensures
        message.event == event,
        message.timestamp == now,
        event is VoiceChannelStatusUpdate ==> message.user is None && message.message_type@
            == "VoiceChannelStatusUpdate"@,
        event matches VoiceEvent::VoiceStateUpate { user_id, .. } ==> {
            &&& message.message_type@ == "VoiceStateUpate"@
            &&& message.user matches Some(user)
            &&& user.id == user_id
            &&& member matches Some(known) ==> user.username@ == known.name@ && user.global_name
                == known.global_name && user.nickname == known.nick
            &&& member is None ==> user.username@.len() == 0 && user.global_name is None
                && user.nickname is None
        },
{
    reveal_strlit("");
}

} // verus!
