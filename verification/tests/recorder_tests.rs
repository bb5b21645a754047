use melba_stt::recorder::{concat_list, format_filename, merge_arguments, recordings_dir, Audio, Recorder, SavedChunk, Session, Sink, CHUNK_SAMPLES};

fn sink() -> Sink {
    let recorder = Recorder::new("recordings/7".to_string());
    let session: Session = recorder.session("12-34".to_string());
    session.new_speaker("99-5".to_string()).listen()
}

fn samples(chunk: &SavedChunk) -> Vec<i16> {
    let (header, data) = wav::read(&mut std::io::Cursor::new(chunk.bytes.clone())).unwrap();
    assert_eq!(header.audio_format, wav::WAV_FORMAT_PCM);
    assert_eq!(header.channel_count, 1);
    assert_eq!(header.sampling_rate, 48_000);
    assert_eq!(header.bytes_per_second, 96_000);
    assert_eq!(header.bytes_per_sample, 2);
    assert_eq!(header.bits_per_sample, 16);
    match data {
        wav::BitDepth::Sixteen(samples) => samples,
        _ => panic!("the file does not hold samples of two bytes"),
    }
}

#[test]
fn file_names_have_eight_digits() {
    assert_eq!(format_filename(0), "00000000.wav");
    assert_eq!(format_filename(12), "00000012.wav");
    assert_eq!(format_filename(99_999_999), "99999999.wav");
    assert_eq!(format_filename(123_456_789), "123456789.wav");
}

#[test]
fn directories_are_nested() {
    assert_eq!(recordings_dir(42), "recordings/42");
    let recorder = Recorder::new("rec".to_string());
    assert_eq!(recorder.session("a".to_string()).base, "rec/a");
    assert_eq!(recorder.session("/abs".to_string()).base, "/abs");
    let nested = Recorder::new("rec/".to_string());
    assert_eq!(nested.session("a".to_string()).base, "rec/a");
    let here = Recorder::new("".to_string());
    assert_eq!(here.session("a".to_string()).base, "a");
}

#[test]
fn paths_join_as_std_joins_them() {
    let bases = ["", "a", "a/", "/", "/a/b", "a//"];
    let names = ["", "x", "/x", "x/y", "./x", "../x"];
    for base in bases {
        for name in names {
            let expected = std::path::Path::new(base).join(name);
            let joined = melba_stt::text::join_path(base, name);
            assert_eq!(joined, expected.to_str().unwrap());
        }
    }
}

#[test]
fn a_short_recording_is_saved_at_the_end() {
    let mut sink = sink();
    assert!(sink.send_audio(Audio::Packets(vec![1, -2, 3])).unwrap().is_none());
    assert!(sink.send_audio(Audio::Silence).unwrap().is_none());
    assert!(sink.send_audio(Audio::Packets(vec![i16::MIN, i16::MAX])).unwrap().is_none());
    let merge = sink.do_merge();
    let mut expected = vec![1, -2, 3];
    expected.extend(vec![0; 960]);
    expected.extend([i16::MIN, i16::MAX]);
    assert_eq!(samples(&merge.last), expected);
    assert_eq!(merge.last.path, "recordings/7/12-34/99-5/00000000.wav");
    assert_eq!(merge.chunks, vec!["recordings/7/12-34/99-5/00000000.wav".to_string()]);
    assert_eq!(merge.list, "recordings/7/12-34/99-5/files.txt");
    assert_eq!(merge.output, "recordings/7/12-34/99-5/combined.flac");
}

#[test]
fn full_files_are_saved_and_nothing_is_lost() {
    let mut sink = sink();
    let mut recorded: Vec<i16> = vec![];
    let mut saved: Vec<i16> = vec![];
    let mut paths: Vec<String> = vec![];
    let packet: Vec<i16> = (0..50_021).map(|i| (i % 30_000) as i16 - 15_000).collect();
    for i in 0..120 {
        let audio = if i % 3 == 0 {
            recorded.extend(vec![0; 960]);
            Audio::Silence
        } else {
            recorded.extend(packet.clone());
            Audio::Packets(packet.clone())
        };
        if let Some(chunk) = sink.send_audio(audio).unwrap() {
            let held = samples(&chunk);
            assert!(held.len() >= CHUNK_SAMPLES);
            saved.extend(held);
            paths.push(chunk.path);
        }
    }
    assert_eq!(paths.len(), 1);
    assert_eq!(paths[0], "recordings/7/12-34/99-5/00000000.wav");
    let merge = sink.do_merge();
    assert_eq!(merge.last.path, "recordings/7/12-34/99-5/00000001.wav");
    assert_eq!(merge.chunks.len(), 2);
    saved.extend(samples(&merge.last));
    assert_eq!(saved, recorded);
}

#[test]
fn a_file_is_full_at_one_minute() {
    let mut sink = sink();
    let almost = vec![7i16; 48_000 * 60 - 1];
    assert!(sink.send_audio(Audio::Packets(almost)).unwrap().is_none());
    let chunk = sink.send_audio(Audio::Packets(vec![8])).unwrap().unwrap();
    let held = samples(&chunk);
    assert_eq!(held.len(), 48_000 * 60);
    assert_eq!(held[48_000 * 60 - 1], 8);
    assert!(samples(&sink.do_merge().last).is_empty());
}

#[test]
fn an_empty_wave_file_has_known_bytes() {
    let merge = sink().do_merge();
    let expected: Vec<u8> = vec![
        0x52, 0x49, 0x46, 0x46, 36, 0, 0, 0, 0x57, 0x41, 0x56, 0x45, 0x66, 0x6d, 0x74, 0x20, 16, 0,
        0, 0, 1, 0, 1, 0, 0x80, 0xbb, 0, 0, 0x00, 0x77, 1, 0, 2, 0, 16, 0, 0x64, 0x61, 0x74, 0x61,
        0, 0, 0, 0,
    ];
    assert_eq!(merge.last.bytes, expected);
}

#[test]
fn merging_lists_every_file() {
    let list = concat_list(&vec!["/a/0.wav".to_string(), "/a/1.wav".to_string()]);
    assert_eq!(list, "file '/a/0.wav'\nfile '/a/1.wav'");
    assert_eq!(concat_list(&vec![]), "");
    let arguments = merge_arguments("/a/files.txt", "a/combined.flac");
    let expected = [
        "-nostdin", "-f", "concat", "-safe", "0", "-i", "/a/files.txt", "-compression_level", "12",
        "a/combined.flac",
    ];
    assert_eq!(arguments, expected);
}
