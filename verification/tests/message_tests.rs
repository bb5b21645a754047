use melba_stt::audio::{self, Event, StreamInfo, Utterance};
use melba_stt::config::{Channel, Config, Recorder, Stt};
use melba_stt::ieee::Double;
use melba_stt::nn::model::{DecodingResult, Segment};
use melba_stt::speech::{self, Member, TimestampedMessage, UnderstoodSpeech, VoiceEvent, VoiceMessage, Websocket, WebsocketStep};
use melba_stt::stream::{Timings, UserSegments};
use melba_stt::ws::{is_likely_speech, websocket_task, CompletedMessage, MessageSide, OutgoingWebsocketMessage, TimestampedUserMessage, UserInfo};

fn segment(text: &str, no_speech_prob: f64) -> Segment {
    let zero = Double { bits: 0 };
    Segment {
        start: 0,
        duration: 0,
        dr: DecodingResult {
            tokens: vec![],
            text: text.to_string(),
            avg_logprob: zero,
            no_speech_prob: Double { bits: no_speech_prob.to_bits() },
            temperature: zero,
            compression_ratio: zero,
        },
    }
}

fn completed() -> CompletedMessage {
    let utterance = Utterance { samples: vec![0; 96_000], started_at: 55 };
    CompletedMessage::new(
        vec![segment(" hello", 0.2), segment("world ", 0.1)],
        StreamInfo { user_id: 7, ssrc: 10 },
        &utterance,
    )
}

#[test]
fn understood_speech_is_put_together() {
    let side = MessageSide::UnderstoodSpeech {
        message: completed(),
        no_speech_millionths: vec![200_000, 100_000],
        username: "ann".to_string(),
    };
    let sent = websocket_task(side, 99).unwrap();
    assert_eq!(sent.user.id_string(), "7");
    assert_eq!(sent.user.username, "ann");
    assert_eq!(sent.timestamp, 99);
    assert_eq!(sent.inner.message_type(), "UnderstoodSpeech");
    match sent.inner {
        OutgoingWebsocketMessage::UnderstoodSpeech {
            started_speaking_at,
            speech_samples,
            speech_text,
            no_speech_millionths,
        } => {
            assert_eq!(started_speaking_at, 55);
            assert_eq!(speech_samples, 96_000);
            assert_eq!(speech_text, "hello world");
            assert_eq!(no_speech_millionths, 100_000);
        }
        _ => panic!("speech was understood"),
    }
}

#[test]
fn events_become_messages_of_their_types() {
    let types = [
        (Event::Connect, "Connect"),
        (Event::SpeakForFirstTime, "FirstTimeSpeaking"),
        (Event::BeginSpeaking, "SpeakingBegin"),
        (Event::EndSpeaking, "SpeakingEnd"),
        (Event::Disconnect, "UserDisconnected"),
    ];
    for (event, name) in types {
        assert_eq!(OutgoingWebsocketMessage::from(event).message_type(), name);
        let event = audio::VoiceEvent {
            user_id: 18_446_744_073_709_551_615,
            ssrc: None,
            timestamp: 5,
            event,
        };
        let sent = TimestampedUserMessage::from_voice_event(event, "bob".to_string());
        assert_eq!(sent.user.id_string(), "18446744073709551615");
        assert_eq!(sent.user.username, "bob");
        assert_eq!(sent.timestamp, 5);
        assert_eq!(sent.inner.message_type(), name);
        let side = MessageSide::VoiceEvent { event, username: "bob".to_string() };
        assert_eq!(websocket_task(side, 77).unwrap().timestamp, 5);
    }
}

#[test]
fn what_comes_from_the_websocket_is_not_answered() {
    assert!(websocket_task(MessageSide::Websocket, 1).is_none());
    assert_eq!(UserInfo { id: 0, username: String::new() }.id_string(), "0");
}

#[test]
fn speech_is_likely_below_the_limit() {
    for m in (-3..1_200_000).chain([i32::MIN, i32::MAX, 16_777_217, 450_000_000]) {
        let expected = m as f32 / 1_000_000.0 < 0.45;
        assert_eq!(is_likely_speech(&vec![900_000, m]), expected, "{m}");
    }
    assert!(!is_likely_speech(&vec![]));
}

fn timings() -> Timings {
    Timings { started_listening_at: 100, done_listening_at: 350, done_prediction_at: 420 }
}

#[test]
fn parts_are_joined_with_full_stops() {
    let segments = vec![segment("one", 0.5), segment("two", 0.25), segment("three", 0.25)];
    let speech = UnderstoodSpeech::from_parts(&segments, timings());
    assert_eq!(speech.started_speaking_at, 100);
    assert_eq!(speech.speech_duration, 250);
    assert_eq!(speech.processing_duration, 70);
    assert_eq!(speech.speech_text, "one. two. three");
    assert_eq!(f64::from_bits(speech.no_speech_prob.bits), 0.25);
}

#[test]
fn the_least_probability_is_what_std_finds() {
    let lists: Vec<Vec<f64>> = vec![
        vec![0.5],
        vec![0.3, 0.1, 0.2],
        vec![f64::NAN, 0.1],
        vec![0.4, f64::NAN, 0.1],
        vec![0.4, f64::NAN, 0.7],
        vec![0.0, -0.0],
        vec![-0.0, 0.0],
        vec![f64::INFINITY, 1.0],
    ];
    for list in lists {
        let expected = list
            .iter()
            .copied()
            .min_by(|l, r| l.partial_cmp(r).unwrap_or(std::cmp::Ordering::Less))
            .unwrap();
        let segments: Vec<Segment> = list.iter().map(|p| segment("", *p)).collect();
        let speech = UnderstoodSpeech::from_parts(&segments, timings());
        assert_eq!(speech.no_speech_prob.bits, expected.to_bits());
    }
}

#[test]
fn understood_speech_names_its_speaker() {
    let member = Member {
        id: 7,
        name: "ann".to_string(),
        global_name: Some("Ann".to_string()),
        nick: None,
    };
    assert!(speech::UserInfo::from_id(None).is_none());
    let user = speech::UserInfo::from_id(Some(member)).unwrap();
    let said = UserSegments { user_id: 7, segments: vec![segment("hi", 0.0)], timings: timings() };
    let message = TimestampedMessage::from_user_segments(said, user, 1234);
    assert_eq!(message.message_type(), "UnderstoodSpeech");
    assert_eq!(message.timestamp, 1234);
    assert_eq!(message.user.id, 7);
    assert_eq!(message.user.username, "ann");
    assert_eq!(message.user.global_name, Some("Ann".to_string()));
    assert_eq!(message.user.nickname, None);
    assert_eq!(message.speech.speech_text, "hi");
}

#[test]
fn the_connection_does_one_thing_at_a_time() {
    let config = Config {
        stt: Stt { channel_to_join: Channel { guild_id: 1, channel_id: 2 }, ignored_users: vec![] },
        recorder: Recorder::default(),
        ws: melba_stt::config::Websocket { url: "ws://localhost".to_string() },
    };
    let websocket = Websocket::new(config);
    assert_eq!(websocket.config.ws.url, "ws://localhost");
    let run = |side: Option<speech::MessageSide<&'static str, &'static str, u8>>| websocket.run(side, 50);
    assert!(matches!(run(None), WebsocketStep::Stop));
    assert!(matches!(run(Some(speech::MessageSide::Websocket(Err("gone")))), WebsocketStep::Stop));
    assert!(matches!(run(Some(speech::MessageSide::Websocket(Ok("m")))), WebsocketStep::HandOut("m")));
    let event = VoiceEvent::VoiceStateUpate { user_id: 8, old: Some(1), new: 2 };
    match run(Some(speech::MessageSide::VoiceEvent { event, member: None })) {
        WebsocketStep::SendVoiceEvent(message) => {
            assert_eq!(message.user.unwrap().id, 8);
            assert_eq!(message.timestamp, 50);
        }
        _ => panic!("the voice event should be sent"),
    }
    let said = UserSegments { user_id: 7, segments: vec![], timings: timings() };
    match run(Some(speech::MessageSide::UnderstoodSpeech(said))) {
        WebsocketStep::SendSpeech(said) => assert_eq!(said.user_id, 7),
        _ => panic!("the speech should be sent"),
    }
}

#[test]
fn voice_messages_name_user_time_and_type() {
    let member = Member {
        id: 7,
        name: "ann".to_string(),
        global_name: Some("Ann".to_string()),
        nick: Some("A".to_string()),
    };
    let event = VoiceEvent::VoiceStateUpate { user_id: 7, old: None, new: "here" };
    let message = VoiceMessage::from_voice_event(event.clone(), Some(member), 1234);
    assert_eq!(message.message_type, "VoiceStateUpate");
    assert_eq!(message.timestamp, 1234);
    let user = message.user.unwrap();
    assert_eq!((user.id, user.username.as_str()), (7, "ann"));
    assert_eq!(user.global_name, Some("Ann".to_string()));
    assert_eq!(user.nickname, Some("A".to_string()));
    assert!(matches!(
        message.event,
        VoiceEvent::VoiceStateUpate { user_id: 7, old: None, new: "here" }
    ));
    let unknown = VoiceMessage::from_voice_event(event, None, 5).user.unwrap();
    assert_eq!((unknown.id, unknown.username.as_str()), (7, ""));
    let status: VoiceEvent<u8> = VoiceEvent::VoiceChannelStatusUpdate {
        old: None,
        status: Some("talk".to_string()),
        channel_id: 2,
        guild_id: 1,
    };
    let message = VoiceMessage::from_voice_event(status, None, 6);
    assert_eq!(message.message_type, "VoiceChannelStatusUpdate");
    assert!(message.user.is_none());
    assert_eq!(message.timestamp, 6);
}
