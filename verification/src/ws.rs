//! The messages that the transcribing bot sends to the backend.

use crate::audio::{Event, StreamInfo, Utterance, VoiceEvent};
use crate::nn::model::Segment;
use crate::speech::{copy_texts, texts};
use crate::text::{decimal, is_trimmed, join, joined, trim, write_decimal};
use vstd::prelude::*;

verus! {

/// Speech that was transcribed: what was said, by whom, since when in nanoseconds of
/// Unix time, and for how many samples.
#[derive(Clone, Debug)]
pub struct CompletedMessage {
    pub message: Vec<Segment>,
    pub who: StreamInfo,
    pub started_at: i128,
    pub speech_samples: usize,
}

impl CompletedMessage {
    /// What the model made of an utterance.
    pub fn new(message: Vec<Segment>, who: StreamInfo, utterance: &Utterance) -> (r: CompletedMessage)
        ensures
            r.message == message,
            r.who == who,
            r.started_at == utterance.started_at,
            r.speech_samples == utterance.samples@.len(),
    {
        CompletedMessage {
            message,
            who,
            started_at: utterance.started_at,
            speech_samples: utterance.samples.len(),
        }
    }
}

/// Who a message is about.
#[derive(Clone, Debug)]
pub struct UserInfo {
    pub id: u64,
    pub username: String,
}

impl UserInfo {
    /// The id as it stands in a message: a string of digits.
    pub fn id_string(&self) -> (r: String)
        ensures
            r@ == decimal(self.id as nat),
    {
        write_decimal(self.id as u128)
    }
}

/// What a message tells. The probability that nothing was said is in millionths.
#[derive(Clone, Debug)]
pub enum OutgoingWebsocketMessage {
    Connect,
    FirstTimeSpeaking,
    SpeakingBegin,
    SpeakingEnd,
    UserDisconnected,
    UnderstoodSpeech {
        started_speaking_at: i128,
        speech_samples: usize,
        speech_text: String,
        no_speech_millionths: u32,
    },
}

/// The message that tells what a user did.
pub open spec fn message_of(event: Event) -> OutgoingWebsocketMessage {
    match event {
        Event::Connect => OutgoingWebsocketMessage::Connect,
        Event::SpeakForFirstTime => OutgoingWebsocketMessage::FirstTimeSpeaking,
        Event::BeginSpeaking => OutgoingWebsocketMessage::SpeakingBegin,
        Event::EndSpeaking => OutgoingWebsocketMessage::SpeakingEnd,
        Event::Disconnect => OutgoingWebsocketMessage::UserDisconnected,
    }
}

impl From<Event> for OutgoingWebsocketMessage {
    fn from(value: Event) -> (r: OutgoingWebsocketMessage) {
        match value {
            Event::Connect => OutgoingWebsocketMessage::Connect,
            Event::SpeakForFirstTime => OutgoingWebsocketMessage::FirstTimeSpeaking,
            Event::BeginSpeaking => OutgoingWebsocketMessage::SpeakingBegin,
            Event::EndSpeaking => OutgoingWebsocketMessage::SpeakingEnd,
            Event::Disconnect => OutgoingWebsocketMessage::UserDisconnected,
        }
    }
}

impl vstd::std_specs::convert::FromSpecImpl<Event> for OutgoingWebsocketMessage {
    open spec fn obeys_from_spec() -> bool {
        true
    }

    open spec fn from_spec(value: Event) -> OutgoingWebsocketMessage {
        message_of(value)
    }
}

impl OutgoingWebsocketMessage {
    /// The type that a message names.
    pub open spec fn kind(self) -> Seq<char> {
        match self {
            OutgoingWebsocketMessage::Connect => "Connect"@,
            OutgoingWebsocketMessage::FirstTimeSpeaking => "FirstTimeSpeaking"@,
            OutgoingWebsocketMessage::SpeakingBegin => "SpeakingBegin"@,
            OutgoingWebsocketMessage::SpeakingEnd => "SpeakingEnd"@,
            OutgoingWebsocketMessage::UserDisconnected => "UserDisconnected"@,
            OutgoingWebsocketMessage::UnderstoodSpeech { .. } => "UnderstoodSpeech"@,
        }
    }

    /// The type that a message names.
    pub fn message_type(&self) -> (r: &'static str)
        ensures
            r@ == self.kind(),
    {
        match self {
            OutgoingWebsocketMessage::Connect => "Connect",
            OutgoingWebsocketMessage::FirstTimeSpeaking => "FirstTimeSpeaking",
            OutgoingWebsocketMessage::SpeakingBegin => "SpeakingBegin",
            OutgoingWebsocketMessage::SpeakingEnd => "SpeakingEnd",
            OutgoingWebsocketMessage::UserDisconnected => "UserDisconnected",
            OutgoingWebsocketMessage::UnderstoodSpeech { .. } => "UnderstoodSpeech",
        }
    }
}

/// A message about a user, with its time in nanoseconds of Unix time.
#[derive(Clone, Debug)]
pub struct TimestampedUserMessage {
    pub user: UserInfo,
    pub timestamp: i128,
    pub inner: OutgoingWebsocketMessage,
}

/// Whether a value is the least of several.
pub open spec fn is_least(values: Seq<u32>, v: u32) -> bool {
    values.contains(v) && forall|i: int| 0 <= i < values.len() ==> v <= #[trigger] values[i]
}

/// The least of several values.
fn least_of(values: &Vec<u32>) -> (r: u32)
    requires
        values@.len() > 0,
    ensures
        is_least(values@, r),
{
    let mut r: u32 = values[0];
    for i in 1..values.len()
        invariant
            exists|j: int| 0 <= j < i && #[trigger] values@[j] == r,
            forall|j: int| 0 <= j < i ==> r <= #[trigger] values@[j],
    {
        if values[i] < r {
            r = values[i];
        }
        assert(values@[i as int] == values[i as int]);
    }
    r
}

impl TimestampedUserMessage {
    /// The message that tells what a user said: the texts of the segments with
    /// blanks between them, without white space at the ends, and the least of the
    /// probabilities that nothing was said, which are given in millionths.
    pub fn from_completed_message(
        message: &CompletedMessage,
        no_speech_millionths: &Vec<u32>,
        username: String,
        now: i128,
    ) -> (r: TimestampedUserMessage)
        requires
            message.message@.len() > 0,
            no_speech_millionths@.len() == message.message@.len(),
        ensures
            r.user == (UserInfo { id: message.who.user_id, username }),
            r.timestamp == now,
            match r.inner {
                OutgoingWebsocketMessage::UnderstoodSpeech {
                    started_speaking_at,
                    speech_samples,
                    speech_text,
                    no_speech_millionths: least,
                } => {
                    &&& started_speaking_at == message.started_at
                    &&& speech_samples == message.speech_samples
                    &&& is_trimmed(joined(texts(message.message@), " "@), speech_text@)
                    &&& is_least(no_speech_millionths@, least)
                },
                _ => false,
            },
    {
        let message_text: String = join(&copy_texts(&message.message), " ");
        TimestampedUserMessage {
            user: UserInfo { id: message.who.user_id, username },
            timestamp: now,
            inner: OutgoingWebsocketMessage::UnderstoodSpeech {
                started_speaking_at: message.started_at,
                speech_samples: message.speech_samples,
                speech_text: trim(message_text.as_str()),
                no_speech_millionths: least_of(no_speech_millionths),
            },
        }
    }

    /// The message that tells what a user did.
    pub fn from_voice_event(event: VoiceEvent, username: String) -> (r: TimestampedUserMessage)
        ensures
            r == (TimestampedUserMessage {
                user: UserInfo { id: event.user_id, username },
                timestamp: event.timestamp,
                inner: message_of(event.event),
            }),
    {
        TimestampedUserMessage {
            user: UserInfo { id: event.user_id, username },
            timestamp: event.timestamp,
            inner: OutgoingWebsocketMessage::from(event.event),
        }
    }
}

/// What wakes the websocket task: something from the websocket, speech that was
/// transcribed (with the probabilities in millionths that nothing was said), or what
/// a user did, with the name of the user.
pub enum MessageSide {
    Websocket,
    UnderstoodSpeech { message: CompletedMessage, no_speech_millionths: Vec<u32>, username: String },
    VoiceEvent { event: VoiceEvent, username: String },
}

/// The message that the websocket task sends, if any, after it was woken at the time
/// `now`.
pub fn websocket_task(woken_by: MessageSide, now: i128) -> (r: Option<TimestampedUserMessage>)
    requires
        woken_by matches MessageSide::UnderstoodSpeech { message, no_speech_millionths, username }
            ==> message.message@.len() > 0 && no_speech_millionths@.len()
            == message.message@.len(),
    ensures
        match woken_by {
            MessageSide::Websocket => r is None,
            MessageSide::UnderstoodSpeech { message, no_speech_millionths, username } => {
                &&& r matches Some(sent)
                &&& sent.user == (UserInfo { id: message.who.user_id, username })
                &&& sent.timestamp == now
                &&& sent.inner matches OutgoingWebsocketMessage::UnderstoodSpeech {
                    started_speaking_at,
                    speech_samples,
                    speech_text,
                    no_speech_millionths: least,
                }
                &&& started_speaking_at == message.started_at
                &&& speech_samples == message.speech_samples
                &&& is_trimmed(joined(texts(message.message@), " "@), speech_text@)
                &&& is_least(no_speech_millionths@, least)
            },
            MessageSide::VoiceEvent { event, username } => r == Some(
                TimestampedUserMessage {
                    user: UserInfo { id: event.user_id, username },
                    timestamp: event.timestamp,
                    inner: message_of(event.event),
                },
            ),
        },
{
    match woken_by {
        MessageSide::Websocket => None,
        MessageSide::UnderstoodSpeech { message, no_speech_millionths, username } => Some(
            TimestampedUserMessage::from_completed_message(
                &message,
                &no_speech_millionths,
                username,
                now,
            ),
        ),
        MessageSide::VoiceEvent { event, username } => Some(
            TimestampedUserMessage::from_voice_event(event, username),
        ),
    }
}

/// Whether it is likely that something was said: for some segment the probability
/// that nothing was said, in millionths, is below forty-five hundredths.
pub fn is_likely_speech(no_speech_millionths: &Vec<i32>) -> (r: bool)
    ensures
        r == exists|i: int|
            0 <= i < no_speech_millionths@.len() && #[trigger] no_speech_millionths@[i] < 450_000,
{
    for i in 0..no_speech_millionths.len()
        invariant
            forall|j: int| 0 <= j < i ==> #[trigger] no_speech_millionths@[j] >= 450_000,
    {
        if no_speech_millionths[i] < 450_000 {
            return true;
        }
    }
    false
}

/// Different things that a user can do make messages of different types.
pub proof fn events_have_their_own_types(a: Event, b: Event)
    requires
        a != b,
    ensures
        message_of(a).kind() != message_of(b).kind(),
        message_of(a).kind() != "UnderstoodSpeech"@,
{
    reveal_strlit("Connect");
    reveal_strlit("FirstTimeSpeaking");
    reveal_strlit("SpeakingBegin");
    reveal_strlit("SpeakingEnd");
    reveal_strlit("UserDisconnected");
    reveal_strlit("UnderstoodSpeech");
    assert("Connect"@.len() == 7);
    assert("FirstTimeSpeaking"@.len() == 17);
    assert("SpeakingBegin"@.len() == 13);
    assert("SpeakingEnd"@.len() == 11);
    assert("UserDisconnected"@.len() == 16);
    assert("UserDisconnected"@[1] != "UnderstoodSpeech"@[1]);
}

/// What the messages about what users do are called.
pub proof fn events_are_named(event: Event)
    ensures
        event is Connect ==> message_of(event) is Connect && message_of(event).kind() == "Connect"@,
        event is SpeakForFirstTime ==> message_of(event) is FirstTimeSpeaking && message_of(
            event,
        ).kind() == "FirstTimeSpeaking"@,
        event is BeginSpeaking ==> message_of(event) is SpeakingBegin && message_of(event).kind()
            == "SpeakingBegin"@,
        event is EndSpeaking ==> message_of(event) is SpeakingEnd && message_of(event).kind()
            == "SpeakingEnd"@,
        event is Disconnect ==> message_of(event) is UserDisconnected && message_of(event).kind()
            == "UserDisconnected"@,
{
}

/// Transcribed speech is called so.
pub proof fn speech_is_named(message: OutgoingWebsocketMessage)
    requires
        message is UnderstoodSpeech,
    ensures
        message.kind() == "UnderstoodSpeech"@,
{
}

/// The least of several values is one of them, and none of them is less; there is only one
/// such value.
pub proof fn least_values_are_minima(values: Seq<u32>, v: u32, w: u32)
    requires
        is_least(values, v),
    ensures
        exists|i: int| 0 <= i < values.len() && #[trigger] values[i] == v,
        forall|i: int| 0 <= i < values.len() ==> v <= #[trigger] values[i],
        is_least(values, w) ==> w == v,
{
}

} // verus!
