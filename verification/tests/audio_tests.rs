use melba_stt::audio::{left_channel, ChannelSetup, StreamBuffer, StreamInfo, StreamSide, StreamStep, StreamTasks, StreamsStep, Ty};
use melba_stt::stream::{self, speech_chunks, ListenAction, StreamProcessor};

fn audio(pcm: &[i16]) -> StreamSide {
    StreamSide::Audio(Some(pcm.to_vec()))
}

#[test]
fn the_left_channel_is_every_other_sample() {
    assert_eq!(left_channel(&vec![1, 2, 3, 4]), vec![1, 3]);
    assert_eq!(left_channel(&vec![1, 2, 3]), vec![1, 3]);
    assert_eq!(left_channel(&vec![]), Vec::<i16>::new());
}

#[test]
fn silence_submits_what_has_gathered() {
    let mut buffer = StreamBuffer::new();
    assert!(matches!(buffer.handle_stream(StreamSide::Silence, 1), StreamStep::Continue));
    assert!(matches!(buffer.handle_stream(audio(&[1, 9, 2, 9]), 10), StreamStep::Continue));
    assert!(matches!(buffer.handle_stream(audio(&[3, 9]), 20), StreamStep::Continue));
    match buffer.handle_stream(StreamSide::Silence, 30) {
        StreamStep::Submit(utterance) => {
            assert_eq!(utterance.samples, vec![1, 2, 3]);
            assert_eq!(utterance.started_at, 10);
        }
        _ => panic!("the utterance should be submitted"),
    }
    assert!(matches!(buffer.handle_stream(StreamSide::Silence, 40), StreamStep::Continue));
    assert!(matches!(buffer.handle_stream(audio(&[5]), 50), StreamStep::Continue));
    match buffer.handle_stream(StreamSide::Silence, 60) {
        StreamStep::Submit(utterance) => assert_eq!(utterance.started_at, 50),
        _ => panic!("the utterance should be submitted"),
    }
}

#[test]
fn an_empty_packet_begins_an_utterance() {
    let mut buffer = StreamBuffer::new();
    buffer.handle_stream(audio(&[]), 5);
    assert!(matches!(buffer.handle_stream(StreamSide::Silence, 6), StreamStep::Continue));
    buffer.handle_stream(audio(&[4]), 7);
    match buffer.handle_stream(StreamSide::Silence, 8) {
        StreamStep::Submit(utterance) => assert_eq!(utterance.started_at, 5),
        _ => panic!("the utterance should be submitted"),
    }
}

#[test]
fn the_end_of_a_stream_closes_it() {
    let mut buffer = StreamBuffer::new();
    buffer.handle_stream(audio(&[1]), 5);
    assert!(matches!(buffer.handle_stream(StreamSide::Audio(None), 6), StreamStep::Close));
}

fn info(user_id: u64, ssrc: u32) -> StreamInfo {
    StreamInfo { user_id, ssrc }
}

#[test]
fn tasks_of_ended_streams_are_dropped() {
    let mut tasks: StreamTasks<&str> = StreamTasks::new("pending");
    assert_eq!(tasks.tasks[0].stream_info, info(0, 0));
    tasks.started(info(1, 10), "a");
    tasks.started(info(2, 20), "b");
    tasks.started(info(1, 10), "c");
    tasks.started(info(1, 11), "d");
    let failed: Result<StreamInfo, &str> = Err("cancelled");
    assert!(matches!(
        tasks.handle_audio_streams::<(), &str>(Ty::Completed(failed)),
        StreamsStep::Failed
    ));
    assert_eq!(tasks.tasks.len(), 5);
    match tasks.handle_audio_streams::<(), &str>(Ty::Completed(Ok(info(1, 10)))) {
        StreamsStep::Ended(ended) => assert_eq!(ended, info(1, 10)),
        _ => panic!("the stream has ended"),
    }
    let left: Vec<&str> = tasks.tasks.iter().map(|t| t.task).collect();
    assert_eq!(left, vec!["pending", "b", "d"]);
}

#[test]
fn a_new_stream_is_listened_to() {
    let mut tasks: StreamTasks<u8> = StreamTasks::new(0);
    let setup = ChannelSetup { info: info(3, 30), pcm_data_recv: "receiver" };
    match tasks.handle_audio_streams::<&str, ()>(Ty::Init(setup)) {
        StreamsStep::Listen(setup) => {
            assert_eq!(setup.info, info(3, 30));
            assert_eq!(setup.pcm_data_recv, "receiver");
        }
        _ => panic!("the stream should be listened to"),
    }
    assert_eq!(tasks.tasks.len(), 1);
}

#[test]
fn pauses_change_the_speech_channel() {
    let mut processor = StreamProcessor::new();
    assert!(matches!(processor.listen_to_user(Some(stream::StreamSide::Silence)), ListenAction::Wait));
    match processor.listen_to_user(Some(stream::StreamSide::Speech(vec![1]))) {
        ListenAction::OpenAndSend { channel, pcm } => assert_eq!((channel, pcm), (0, vec![1])),
        _ => panic!("a channel should be opened"),
    }
    match processor.listen_to_user(Some(stream::StreamSide::Speech(vec![2]))) {
        ListenAction::Send { channel, pcm } => assert_eq!((channel, pcm), (0, vec![2])),
        _ => panic!("the samples should be sent"),
    }
    assert!(matches!(processor.listen_to_user(Some(stream::StreamSide::Silence)), ListenAction::Close { channel: 0 }));
    assert!(matches!(processor.listen_to_user(Some(stream::StreamSide::Silence)), ListenAction::Wait));
    match processor.listen_to_user(Some(stream::StreamSide::Speech(vec![3]))) {
        ListenAction::OpenAndSend { channel, pcm } => assert_eq!((channel, pcm), (1, vec![3])),
        _ => panic!("a channel should be opened"),
    }
    assert!(matches!(processor.listen_to_user(None), ListenAction::Stop));
}

#[test]
fn finished_speech_is_padded_and_cut() {
    let samples = vec![0.5f32; 30_000];
    let chunks = speech_chunks(&samples, 0.0);
    assert!(chunks.iter().all(|c| c.len() == 20_000));
    assert_eq!(chunks.len(), 72);
    let flat: Vec<f32> = chunks.into_iter().flatten().collect();
    assert_eq!(flat[..30_000], samples[..]);
    assert!(flat[30_000..].iter().all(|v| *v == 0.0));
}

#[test]
fn nothing_that_is_heard_is_lost() {
    let mut buffer = StreamBuffer::new();
    let mut heard: Vec<i16> = vec![];
    let mut submitted: Vec<i16> = vec![];
    for i in 0..50i16 {
        let packet: Vec<i16> = (0..i % 7).map(|k| 10 * i + k).collect();
        heard.extend(packet.iter().step_by(2));
        buffer.handle_stream(StreamSide::Audio(Some(packet)), i as i128);
        if i % 3 == 2 || i == 49 {
            if let StreamStep::Submit(utterance) = buffer.handle_stream(StreamSide::Silence, 0) {
                submitted.extend(utterance.samples);
            }
        }
    }
    assert_eq!(submitted, heard);
}
