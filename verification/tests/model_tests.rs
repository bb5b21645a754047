use melba_stt::ieee::Double;
use melba_stt::nn::model::{Decoder, DecoderConfig, Decoding, DecodingResult, Fallback, FallbackStep, Thresholds};
use melba_stt::nn::tokens::{english_token, read_text, SpecialTokens, TokenNames};
use tokenizers::Tokenizer;

fn double(v: f64) -> Double {
    Double { bits: v.to_bits() }
}

fn limits() -> Thresholds {
    Thresholds { compression_ratio: double(2.4), logprob: double(-1.0), no_speech: double(0.6) }
}

fn result(compression_ratio: f64, avg_logprob: f64, no_speech_prob: f64) -> DecodingResult {
    DecodingResult {
        tokens: vec![1],
        text: "text".to_string(),
        avg_logprob: double(avg_logprob),
        no_speech_prob: double(no_speech_prob),
        temperature: double(0.0),
        compression_ratio: double(compression_ratio),
    }
}

fn tokenizer_with(added: &str, decoder: &str, vocabulary: &str) -> Tokenizer {
    let json = format!(
        "{{\"version\":\"1.0\",\"truncation\":null,\"padding\":null,\"added_tokens\":[{added}],\
         \"normalizer\":null,\"pre_tokenizer\":null,\"post_processor\":null,\"decoder\":{decoder},\
         \"model\":{{\"type\":\"WordLevel\",\"vocab\":{vocabulary},\"unk_token\":\"?\"}}}}"
    );
    Tokenizer::from_bytes(json.as_bytes()).unwrap()
}

fn tokenizer(vocabulary: &str) -> Tokenizer {
    tokenizer_with("", "null", vocabulary)
}

fn names() -> TokenNames {
    TokenNames {
        sot: "<|startoftranscript|>".to_string(),
        transcribe: "<|transcribe|>".to_string(),
        translate: "<|translate|>".to_string(),
        eot: "<|endoftext|>".to_string(),
        no_speech: "<|nocaptions|>".to_string(),
        no_timestamps: "<|notimestamps|>".to_string(),
    }
}

const VOCABULARY: &str = "{\"?\":0,\"<|startoftranscript|>\":1,\"<|transcribe|>\":2,\
    \"<|translate|>\":3,\"<|endoftext|>\":4,\"<|nocaptions|>\":5,\"<|notimestamps|>\":6,\"<|en|>\":7}";

fn config() -> DecoderConfig {
    DecoderConfig { vocab_size: 9, suppress_tokens: vec![0, 3, 40], max_target_positions: 10 }
}

#[test]
fn steering_tokens_are_looked_up() {
    let tokenizer = tokenizer(VOCABULARY);
    let decoder = Decoder::for_speaker(&config(), &tokenizer, &names()).unwrap();
    assert_eq!(
        decoder.tokens,
        SpecialTokens {
            sot: 1,
            transcribe: 2,
            translate: 3,
            eot: 4,
            no_speech: 5,
            no_timestamps: 6,
        }
    );
    assert_eq!(decoder.language_token, Some(7));
    assert_eq!(english_token(&tokenizer), Some(7));
    assert_eq!(
        decoder.suppress_tokens,
        vec![true, false, false, true, false, false, true, false, false]
    );
    let other = Decoder::new(&config(), &tokenizer, &names(), None).unwrap();
    assert_eq!(other.language_token, None);
}

#[test]
fn a_missing_steering_token_is_noticed() {
    let tokenizer = tokenizer("{\"?\":0,\"<|startoftranscript|>\":1}");
    assert!(Decoder::for_speaker(&config(), &tokenizer, &names()).is_none());
    assert_eq!(english_token(&tokenizer), None);
}

fn decoder(language_token: Option<u32>) -> Decoder {
    let tokens = SpecialTokens {
        sot: 50,
        transcribe: 51,
        translate: 52,
        eot: 53,
        no_speech: 54,
        no_timestamps: 55,
    };
    Decoder::with_tokens(&config(), tokens, language_token)
}

#[test]
fn texts_begin_with_a_prompt() {
    assert_eq!(decoder(Some(9)).decode().tokens(), &vec![50, 9, 51, 55]);
    assert_eq!(decoder(None).decode().tokens(), &vec![50, 51, 55]);
}

#[test]
fn texts_end_with_the_ending_token() {
    let mut text = decoder(None).decode();
    assert_eq!(text.next_pass(), Some(true));
    assert!(text.take(7));
    assert_eq!(text.next_pass(), Some(false));
    assert!(!text.take(53));
    assert_eq!(text.next_pass(), None);
    assert_eq!(text.tokens(), &vec![50, 51, 55, 7, 53]);
}

#[test]
fn texts_end_after_half_the_positions() {
    let mut text = decoder(None).decode();
    for i in 0..5 {
        assert_eq!(text.next_pass(), Some(i == 0));
        assert!(text.take(i));
    }
    assert_eq!(text.next_pass(), None);
}

#[test]
fn texts_end_where_there_is_no_room() {
    let short = DecoderConfig { max_target_positions: 4, ..config() };
    let tokens = decoder(None).tokens;
    let mut text = Decoder::with_tokens(&short, tokens, Some(9)).decode();
    assert_eq!(text.next_pass(), Some(true));
    assert!(!text.take(7));
    assert_eq!(text.next_pass(), None);
}

#[test]
fn the_most_likely_token_has_the_greatest_score() {
    let scores: Vec<u32> = [0.5f32, f32::NEG_INFINITY, 2.5, 2.5, -1.0].iter().map(|v| v.to_bits()).collect();
    assert_eq!(Decoding::most_likely(&scores), Some(3));
    assert_eq!(Decoding::most_likely(&vec![]), None);
}

#[test]
fn chance_begins_above_zero() {
    assert!(!Decoding::is_drawn(&double(0.0)));
    assert!(!Decoding::is_drawn(&double(-0.0)));
    assert!(Decoding::is_drawn(&double(0.2)));
}

fn step(fallback: &mut Fallback, r: Result<DecodingResult, &'static str>) -> Option<Result<DecodingResult, &'static str>> {
    match fallback.decode_with_fallback(r, &limits()) {
        FallbackStep::Retry => None,
        FallbackStep::Done(r) => Some(r),
    }
}

#[test]
fn good_results_are_taken_at_once() {
    for good in [result(f64::NAN, -0.5, 0.1), result(2.4, -1.0, 0.1), result(1.0, -3.0, 0.7)] {
        let mut fallback = Fallback::new(6);
        assert!(step(&mut fallback, Ok(good)).is_some());
        assert_eq!(fallback.attempt(), 0);
    }
}

#[test]
fn poor_results_and_failures_are_tried_again() {
    let mut fallback = Fallback::new(4);
    assert!(step(&mut fallback, Ok(result(2.5, -0.5, 0.1))).is_none());
    assert_eq!(fallback.attempt(), 1);
    assert!(step(&mut fallback, Ok(result(f64::NAN, -1.5, 0.6))).is_none());
    assert!(step(&mut fallback, Err("failed")).is_none());
    assert_eq!(fallback.attempt(), 3);
    match step(&mut fallback, Err("failed again")) {
        Some(Err(e)) => assert_eq!(e, "failed again"),
        _ => panic!("the last attempt is taken as it is"),
    }
}

#[test]
fn the_last_attempt_is_taken_though_it_is_poor() {
    let mut fallback = Fallback::new(1);
    assert!(step(&mut fallback, Ok(result(9.0, -9.0, 0.0))).is_some());
}

#[test]
fn audio_is_listened_to_in_stretches() {
    let mut run = decoder(None).run(7000, 3000, 160);
    assert_eq!(run.next_stretch(), Some((0, 3000)));
    run.decoded(result(f64::NAN, -0.5, 0.1), &limits());
    assert_eq!(run.next_stretch(), Some((3000, 3000)));
    run.decoded(result(f64::NAN, -1.5, 0.7), &limits());
    assert_eq!(run.next_stretch(), Some((6000, 1000)));
    run.decoded(result(f64::NAN, -1.5, 0.6), &limits());
    assert_eq!(run.next_stretch(), None);
    let segments = run.segments();
    assert_eq!(segments.len(), 2);
    assert_eq!((segments[0].start, segments[0].duration), (0, 480_000));
    assert_eq!((segments[1].start, segments[1].duration), (960_000, 160_000));
    assert!(decoder(None).run(0, 3000, 160).next_stretch().is_none());
}

const WORDS: &str = "{\"?\":0,\"Hello\":1,\"\u{120}you\":2,\"<|endoftext|>\":3}";

const SPECIAL: &str = "{\"id\":3,\"content\":\"<|endoftext|>\",\"single_word\":false,\
    \"lstrip\":false,\"rstrip\":false,\"normalized\":false,\"special\":true}";

const BYTE_LEVEL: &str =
    "{\"type\":\"ByteLevel\",\"add_prefix_space\":true,\"trim_offsets\":true,\"use_regex\":true}";

#[test]
fn tokens_become_text() {
    let blanks = tokenizer_with(SPECIAL, "null", WORDS);
    assert_eq!(read_text(&blanks, &vec![1, 2, 99, 3]), Some("Hello \u{120}you".to_string()));
    let bytes = tokenizer_with(SPECIAL, BYTE_LEVEL, WORDS);
    assert_eq!(read_text(&bytes, &vec![1, 2, 3]), Some("Hello you".to_string()));
    assert_eq!(read_text(&bytes, &vec![]), Some("".to_string()));
    let fuse = tokenizer_with(SPECIAL, "{\"type\":\"Fuse\"}", WORDS);
    assert_eq!(read_text(&fuse, &vec![1, 1]), Some("HelloHello".to_string()));
}

#[test]
fn decoders_that_may_fail_are_left_out() {
    for decoder in [
        "{\"type\":\"Strip\",\"content\":\"H\",\"start\":1,\"stop\":1}",
        "{\"type\":\"BPEDecoder\",\"suffix\":\"x\"}",
        "{\"type\":\"Sequence\",\"decoders\":[{\"type\":\"Fuse\"}]}",
        "{\"type\":\"Replace\",\"pattern\":{\"String\":\"H\"},\"content\":\"J\"}",
    ] {
        let tokenizer = tokenizer_with(SPECIAL, decoder, WORDS);
        assert_eq!(read_text(&tokenizer, &vec![1]), None);
    }
}

#[test]
fn finished_texts_are_put_together() {
    let tokenizer = tokenizer_with(SPECIAL, BYTE_LEVEL, WORDS);
    let mut text = decoder(None).decode();
    text.take(1);
    text.take(2);
    let dr = text.finish(&tokenizer, double(-0.25), double(0.5), double(0.2)).unwrap();
    assert_eq!(dr.tokens, vec![50, 51, 55, 1, 2]);
    assert_eq!(dr.text, "Hello you");
    assert_eq!(dr.avg_logprob, double(-0.25));
    assert_eq!(dr.no_speech_prob, double(0.5));
    assert_eq!(dr.temperature, double(0.2));
    assert!(f64::from_bits(dr.compression_ratio.bits).is_nan());
    assert_eq!(dr.compression_ratio, double(f64::NAN));
    let other = text.result("given".to_string(), double(0.0), double(0.0), double(0.0));
    assert_eq!((other.text.as_str(), other.tokens.len()), ("given", 5));
    assert!(step(&mut Fallback::new(2), Ok(dr)).is_some());
    let poor = text.finish(&tokenizer, double(-1.5), double(0.5), double(0.2)).unwrap();
    assert!(step(&mut Fallback::new(2), Ok(poor)).is_none());
}

/// Decodes with scores that depend on the tokens so far, without chance.
fn greedy_text() -> Vec<u32> {
    let mut text = decoder(Some(9)).decode();
    while text.next_pass().is_some() {
        let seen: u32 = text.tokens().iter().sum();
        let scores: Vec<u32> =
            (0..60u32).map(|i| ((i * 7 + seen) % 13) as f32).map(f32::to_bits).collect();
        let token = Decoding::most_likely(&scores).unwrap();
        let best = f32::from_bits(scores[token as usize]);
        assert!(scores.iter().all(|s| f32::from_bits(*s) <= best));
        assert!(scores[token as usize + 1..].iter().all(|s| f32::from_bits(*s) < best));
        text.take(token);
    }
    text.tokens().clone()
}

#[test]
fn decoding_without_chance_gives_the_same_again() {
    let first = greedy_text();
    assert!(first.len() > 4);
    assert_eq!(first, greedy_text());
}
