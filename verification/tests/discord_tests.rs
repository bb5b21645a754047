use melba_stt::audio::{Event, StreamInfo, VoiceEvent};
use melba_stt::config::{Channel, ModelSpec, SttConfig};
use melba_stt::discord::{ChannelEvent, Command, Hearing, Reciever};
use melba_stt::receiver::{stamped_name, Action, Receiver};

fn reciever() -> Reciever {
    Reciever::new(SttConfig {
        channel_to_join: Channel { guild_id: 1, channel_id: 2 },
        ignored_users: vec![66],
        model: ModelSpec::default(),
    })
}

fn speaks(ssrc: u32, user_id: u64) -> ChannelEvent {
    ChannelEvent::SpeakingStateUpdate { ssrc, user_id }
}

fn packet(ssrc: u32) -> ChannelEvent {
    ChannelEvent::VoicePacket { ssrc, audio: Some(vec![1, 2]) }
}

fn announcement(command: &Command) -> VoiceEvent {
    match command {
        Command::Announce(event) => *event,
        _ => panic!("not an announcement"),
    }
}

fn event(user_id: u64, ssrc: Option<u32>, timestamp: i128, event: Event) -> VoiceEvent {
    VoiceEvent { user_id, ssrc, timestamp, event }
}

#[test]
fn first_words_open_a_channel_and_are_announced() {
    let mut reciever = reciever();
    let commands = reciever.act(speaks(10, 7), 100);
    assert_eq!(commands.len(), 2);
    match &commands[0] {
        Command::OpenChannel { channel, info } => {
            assert_eq!(*channel, 0);
            assert_eq!(*info, StreamInfo { user_id: 7, ssrc: 10 });
        }
        _ => panic!("a channel should be opened"),
    }
    assert_eq!(announcement(&commands[1]), event(7, Some(10), 100, Event::SpeakForFirstTime));
    assert_eq!(reciever.get_user_by_ssrc(10), Some(7));
    assert_eq!(reciever.get_user_by_id(7), Some(10));
    assert_eq!(reciever.get_user_by_ssrc(11), None);
    assert_eq!(reciever.get_user_by_id(8), None);
}

#[test]
fn more_words_replace_the_channel_and_are_not_announced() {
    let mut reciever = reciever();
    reciever.act(speaks(10, 7), 100);
    let commands = reciever.act(speaks(10, 7), 101);
    assert_eq!(commands.len(), 2);
    assert!(matches!(commands[0], Command::OpenChannel { channel: 1, .. }));
    assert!(matches!(commands[1], Command::CloseChannel { channel: 0 }));
    match &reciever.act(packet(10), 102)[..] {
        [Command::SendPcm { channel, pcm }] => {
            assert_eq!(*channel, 1);
            assert_eq!(*pcm, vec![1, 2]);
        }
        _ => panic!("the packet should be sent"),
    }
}

#[test]
fn packets_of_strangers_and_ignored_users_are_dropped() {
    let mut reciever = reciever();
    assert!(reciever.act(packet(10), 1).is_empty());
    reciever.act(speaks(10, 66), 2);
    assert!(reciever.is_ssrc_ignored(10));
    assert!(!reciever.is_ssrc_ignored(11));
    assert!(reciever.act(packet(10), 3).is_empty());
    reciever.act(speaks(11, 7), 4);
    assert!(reciever.act(ChannelEvent::VoicePacket { ssrc: 11, audio: None }, 5).is_empty());
    assert_eq!(reciever.act(packet(11), 6).len(), 1);
}

#[test]
fn speaking_is_announced_for_known_sources() {
    let mut reciever = reciever();
    let update = |speaking| ChannelEvent::SpeakingUpdate { ssrc: 10, speaking };
    assert!(reciever.act(update(true), 1).is_empty());
    reciever.act(speaks(10, 7), 2);
    let begin = reciever.act(update(true), 3);
    assert_eq!(announcement(&begin[0]), event(7, Some(10), 3, Event::BeginSpeaking));
    let end = reciever.act(update(false), 4);
    assert_eq!(announcement(&end[0]), event(7, Some(10), 4, Event::EndSpeaking));
    assert_eq!((begin.len(), end.len()), (1, 1));
}

#[test]
fn leaving_closes_the_channel_and_is_announced() {
    let mut reciever = reciever();
    reciever.act(speaks(10, 7), 1);
    let commands = reciever.act(ChannelEvent::ClientDisconnect { user_id: 7 }, 2);
    assert_eq!(commands.len(), 2);
    assert!(matches!(commands[0], Command::CloseChannel { channel: 0 }));
    assert_eq!(announcement(&commands[1]), event(7, Some(10), 2, Event::Disconnect));
    assert!(reciever.act(packet(10), 3).is_empty());
    assert_eq!(reciever.get_user_by_ssrc(10), None);
    assert_eq!(reciever.get_user_by_id(7), Some(10));
    let again = reciever.act(speaks(12, 7), 4);
    assert_eq!(announcement(&again[1]), event(7, Some(12), 4, Event::SpeakForFirstTime));
}

#[test]
fn leaving_without_a_word_is_announced() {
    let mut reciever = reciever();
    let commands = reciever.act(ChannelEvent::ClientDisconnect { user_id: 9 }, 2);
    assert_eq!(commands.len(), 1);
    assert_eq!(announcement(&commands[0]), event(9, None, 2, Event::Disconnect));
}

#[test]
fn joining_the_channel_is_announced() {
    let mut reciever = reciever();
    let moved = |old_channel, new_channel| ChannelEvent::VoiceStateUpdate {
        user_id: 5,
        old_channel,
        new_channel,
    };
    let joined = reciever.act(moved(None, Some(2)), 9);
    assert_eq!(announcement(&joined[0]), event(5, None, 9, Event::Connect));
    assert_eq!(reciever.act(moved(Some(3), Some(2)), 9).len(), 1);
    assert!(reciever.act(moved(Some(2), Some(2)), 9).is_empty());
    assert!(reciever.act(moved(Some(2), None), 9).is_empty());
    assert!(reciever.act(moved(None, Some(3)), 9).is_empty());
}

#[test]
fn links_can_be_taken_back() {
    let mut reciever = reciever();
    reciever.act(speaks(10, 7), 1);
    assert_eq!(reciever.remove_user_by_id(8), (None, None));
    assert_eq!(reciever.remove_user_by_id(7), (Some(10), Some(0)));
    assert_eq!(reciever.remove_user_by_id(7), (Some(10), None));
    reciever.act(speaks(11, 6), 2);
    assert_eq!(reciever.remove_user_by_ssrc(12), (None, None));
    assert_eq!(reciever.remove_user_by_ssrc(11), (Some(6), Some(1)));
    assert_eq!(reciever.get_user_by_id(6), None);
    assert_eq!(reciever.get_user_by_ssrc(11), Some(6));
}

#[test]
fn recorded_speakers_are_added_once() {
    let mut receiver = Receiver::new();
    receiver.speaking_state_update(10, Some(7));
    receiver.speaking_state_update(11, None);
    let actions = receiver.voice_tick(&vec![(10, vec![1, 9, 2, 9])]);
    assert_eq!(actions.len(), 2);
    assert!(matches!(actions[0], Action::Add { speaker: 0, user_id: 7 }));
    match &actions[1] {
        Action::Spoke { speaker, pcm } => assert_eq!((*speaker, pcm.clone()), (0, vec![1, 2])),
        _ => panic!("the samples should be recorded"),
    }
    let actions = receiver.voice_tick(&vec![(10, vec![3])]);
    assert_eq!(actions.len(), 1);
    assert!(matches!(actions[0], Action::Spoke { speaker: 0, .. }));
}

#[test]
fn quiet_speakers_get_silence() {
    let mut receiver = Receiver::new();
    for (ssrc, user_id) in [(10, 7), (11, 8), (12, 9)] {
        receiver.speaking_state_update(ssrc, Some(user_id));
    }
    let all = vec![(10, vec![1]), (11, vec![2]), (12, vec![3])];
    assert_eq!(receiver.voice_tick(&all).len(), 6);
    let actions = receiver.voice_tick(&vec![(11, vec![2])]);
    assert_eq!(actions.len(), 3);
    assert!(matches!(actions[0], Action::Spoke { speaker: 1, .. }));
    let mut quiet: Vec<u64> = actions[1..]
        .iter()
        .map(|a| match a {
            Action::Silence { speaker } => *speaker,
            _ => panic!("silence should be recorded"),
        })
        .collect();
    quiet.sort();
    assert_eq!(quiet, vec![0, 2]);
    assert_eq!(receiver.voice_tick(&vec![]).len(), 3);
}

#[test]
fn a_tick_ends_at_an_unknown_source() {
    let mut receiver = Receiver::new();
    receiver.speaking_state_update(10, Some(7));
    receiver.voice_tick(&vec![(10, vec![1])]);
    receiver.speaking_state_update(11, Some(8));
    let actions = receiver.voice_tick(&vec![(11, vec![1]), (99, vec![1]), (10, vec![1])]);
    assert_eq!(actions.len(), 2);
    assert!(matches!(actions[0], Action::Add { speaker: 1, user_id: 8 }));
    assert!(matches!(actions[1], Action::Spoke { speaker: 1, .. }));
}

#[test]
fn recordings_are_merged_when_a_user_leaves() {
    let mut receiver = Receiver::new();
    assert!(receiver.client_disconnect(7).is_none());
    receiver.speaking_state_update(10, Some(7));
    receiver.speaking_state_update(11, Some(8));
    receiver.voice_tick(&vec![(10, vec![1])]);
    assert!(matches!(receiver.client_disconnect(7), Some(Action::Merge { speaker: 0 })));
    assert!(receiver.client_disconnect(7).is_none());
    assert!(matches!(receiver.client_disconnect(8), Some(Action::NoRecording { ssrc: 11 })));
    assert!(receiver.voice_tick(&vec![]).is_empty());
}

#[test]
fn names_carry_an_id_and_a_time() {
    assert_eq!(stamped_name(42, 1_700_000_000_000_000_000), "42-1700000000000000000");
    assert_eq!(stamped_name(0, -5), "0--5");
}

#[test]
fn names_differ_where_the_id_or_the_time_differs() {
    let mut names: Vec<String> = vec![];
    for id in [0, 1, 11, 111] {
        for nanos in [-11, -1, 0, 1, 11, 111] {
            names.push(stamped_name(id, nanos));
        }
    }
    let count = names.len();
    names.sort();
    names.dedup();
    assert_eq!(names.len(), count);
}

#[test]
fn a_source_that_changes_hands_repeats_no_first_words() {
    let mut reciever = reciever();
    assert_eq!(reciever.act(speaks(10, 7), 1).len(), 2);
    let taken = reciever.act(speaks(10, 8), 2);
    assert_eq!(announcement(&taken[2]), event(8, Some(10), 2, Event::SpeakForFirstTime));
    let back = reciever.act(speaks(10, 7), 3);
    assert_eq!(back.len(), 2);
    assert!(back.iter().all(|command| !matches!(command, Command::Announce(_))));
}

#[test]
fn first_words_come_again_after_joining_anew() {
    let mut reciever = reciever();
    reciever.act(speaks(10, 7), 1);
    let moved = |old_channel, new_channel| ChannelEvent::VoiceStateUpdate {
        user_id: 7,
        old_channel,
        new_channel,
    };
    reciever.act(moved(Some(2), Some(2)), 2);
    assert_eq!(reciever.act(speaks(10, 7), 3).len(), 2);
    reciever.act(moved(Some(3), Some(2)), 4);
    let again = reciever.act(speaks(10, 7), 5);
    assert_eq!(announcement(&again[2]), event(7, Some(10), 5, Event::SpeakForFirstTime));
}

#[test]
fn ticks_report_where_speaking_starts_and_stops() {
    let mut hearing = Hearing::new();
    assert!(hearing.is_silent(10).is_none());
    let events = hearing.speaks(10, Some(vec![1]));
    assert_eq!(events.len(), 2);
    assert!(matches!(events[0], ChannelEvent::SpeakingUpdate { ssrc: 10, speaking: true }));
    match &events[1] {
        ChannelEvent::VoicePacket { ssrc, audio } => {
            assert_eq!((*ssrc, audio.clone()), (10, Some(vec![1])));
        }
        _ => panic!("the packet should be reported"),
    }
    let events = hearing.speaks(10, None);
    assert_eq!(events.len(), 1);
    assert!(matches!(events[0], ChannelEvent::VoicePacket { ssrc: 10, audio: None }));
    assert!(matches!(
        hearing.is_silent(10),
        Some(ChannelEvent::SpeakingUpdate { ssrc: 10, speaking: false })
    ));
    assert!(hearing.is_silent(10).is_none());
}

#[test]
fn a_source_is_added_once_until_its_user_leaves() {
    let mut receiver = Receiver::new();
    receiver.speaking_state_update(10, Some(7));
    receiver.speaking_state_update(11, Some(8));
    let mut added = 0;
    let mut sent: Vec<i16> = vec![];
    for tick in [
        vec![(10, vec![1, 9])],
        vec![(11, vec![5]), (10, vec![2, 9, 3])],
        vec![(11, vec![6])],
        vec![(10, vec![4])],
    ] {
        for action in receiver.voice_tick(&tick) {
            match action {
                Action::Add { user_id: 7, speaker } => {
                    assert_eq!(speaker, 0);
                    added += 1;
                }
                Action::Spoke { speaker: 0, pcm } => sent.extend(pcm),
                _ => {}
            }
        }
        receiver.speaking_state_update(12, Some(9));
        receiver.client_disconnect(9);
    }
    assert_eq!(added, 1);
    assert_eq!(sent, vec![1, 2, 3, 4]);
    receiver.client_disconnect(7);
    receiver.speaking_state_update(10, Some(7));
    let actions = receiver.voice_tick(&vec![(10, vec![1])]);
    assert!(matches!(actions[0], Action::Add { speaker: 2, user_id: 7 }));
}
