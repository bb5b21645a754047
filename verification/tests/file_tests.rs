use melba_stt::nn::builder::Error;
use melba_stt::nn::file::{is_readable, read_tokenizer, MAX_ADDED};
use melba_stt::nn::tokens::{english_token, read_text};
use tokenizers::Tokenizer;

const BYTE_LEVEL: &str =
    "{\"type\":\"ByteLevel\",\"add_prefix_space\":false,\"trim_offsets\":true,\"use_regex\":true}";

const TEMPLATE: &str = "{\"type\":\"TemplateProcessing\",\
    \"single\":[{\"SpecialToken\":{\"id\":\"<|en|>\",\"type_id\":0}},{\"Sequence\":{\"id\":\"A\",\"type_id\":0}}],\
    \"pair\":[{\"Sequence\":{\"id\":\"A\",\"type_id\":0}},{\"Sequence\":{\"id\":\"B\",\"type_id\":1}}],\
    \"special_tokens\":{\"<|en|>\":{\"id\":\"<|en|>\",\"ids\":[4],\"tokens\":[\"<|en|>\"]}}}";

const MODEL: &str = "{\"type\":\"BPE\",\"dropout\":null,\"unk_token\":\"\",\
    \"continuing_subword_prefix\":\"\",\"end_of_word_suffix\":\"\",\"fuse_unk\":false,\
    \"vocab\":{\"a\":0,\"b\":1,\"ab\":2,\"\u{120}b\":3},\"merges\":[\"a b\"]}";

fn token(id: u32, content: &str) -> String {
    format!(
        "{{\"id\":{id},\"content\":\"{content}\",\"single_word\":false,\"lstrip\":false,\
         \"rstrip\":false,\"normalized\":false,\"special\":true}}"
    )
}

fn file(added: &str, normalizer: &str, pre: &str, post: &str, decoder: &str, model: &str) -> Vec<u8> {
    format!(
        "{{\"version\":\"1.0\",\"truncation\":null,\"padding\":null,\"added_tokens\":[{added}],\
         \"normalizer\":{normalizer},\"pre_tokenizer\":{pre},\"post_processor\":{post},\
         \"decoder\":{decoder},\"model\":{model}}}"
    )
    .into_bytes()
}

fn plain() -> Vec<u8> {
    file(&token(4, "<|en|>"), "null", BYTE_LEVEL, TEMPLATE, BYTE_LEVEL, MODEL)
}

#[test]
fn a_plain_tokenizer_file_is_read() {
    let tokenizer = match read_tokenizer(&plain()) {
        Some(Ok(tokenizer)) => tokenizer,
        _ => panic!("the file holds a tokenizer"),
    };
    assert_eq!(english_token(&tokenizer), Some(4));
    assert_eq!(read_text(&tokenizer, &vec![4, 2, 3, 9]), Some("ab b".to_string()));
    let direct = Tokenizer::from_bytes(plain()).unwrap();
    assert_eq!(tokenizer.get_vocab(true), direct.get_vocab(true));
    let bare = file("", "null", "null", "null", "null", MODEL);
    match read_tokenizer(&bare) {
        Some(Ok(tokenizer)) => {
            assert_eq!(read_text(&tokenizer, &vec![0, 1]), Some("a b".to_string()));
        }
        _ => panic!("the file holds a tokenizer"),
    }
}

#[test]
fn a_plain_file_that_holds_no_tokenizer_is_refused() {
    for bytes in [
        file("7", "null", "null", "null", "null", MODEL),
        file("", "null", "null", "null", "null", &MODEL.replace("a b", "a c")),
        file("", "null", "null", "{\"type\":\"Other\"}", "null", MODEL),
        file("", "null", "{\"type\":\"ByteLevel\"}", "null", "null", MODEL),
    ] {
        match read_tokenizer(&bytes) {
            Some(Err(Error::Tokenizers(_))) => {}
            _ => panic!("the file holds no tokenizer"),
        }
    }
}

fn assert_left_out(bytes: Vec<u8>) {
    assert!(!is_readable(&bytes));
    assert!(read_tokenizer(&bytes).is_none());
}

#[test]
fn files_that_might_panic_are_left_out() {
    let with_model = |model: &str| file(&token(4, "x"), "null", "null", "null", "null", model);
    assert!(is_readable(&with_model(MODEL)));
    assert_left_out(b"{\"decoder\":".to_vec());
    assert_left_out(b"[]".to_vec());
    assert_left_out(b"".to_vec());
    let prefix = "\"continuing_subword_prefix\":\"";
    assert_left_out(with_model(&MODEL.replace(prefix, "\"continuing_subword_prefix\":\"##")));
    assert_left_out(with_model(&MODEL.replace("\"ab\":2", "\"ab\":4294967295")));
    assert!(is_readable(&with_model(&MODEL.replace("\"ab\":2", "\"ab\":4294967294"))));
    assert_left_out(with_model(&MODEL.replace("BPE", "WordLevel")));
    assert_left_out(file("", "{\"type\":\"NFC\"}", "null", "null", "null", MODEL));
    assert_left_out(file("", "null", "{\"type\":\"Whitespace\"}", "null", "null", MODEL));
    assert_left_out(file("", "null", "null", "null", "{\"type\":\"Fuse\"}", MODEL));
    let nested = "{\"type\":\"Sequence\",\"processors\":[]}";
    assert_left_out(file("", "null", "null", nested, "null", MODEL));
    let long = TEMPLATE.replace(
        "\"single\":[",
        &format!("\"single\":[{}", "{\"Sequence\":{\"id\":\"A\",\"type_id\":0}},".repeat(256)),
    );
    assert_left_out(file("", "null", "null", &long, "null", MODEL));
}

#[test]
fn keys_that_occur_twice_are_left_out() {
    let text = String::from_utf8(plain()).unwrap();
    let twice = text.replace("\"truncation\":null", "\"truncation\":null,\"model\":null");
    assert_left_out(twice.into_bytes());
}

#[test]
fn too_many_added_tokens_are_left_out() {
    let tokens = |n: usize| {
        let list: Vec<String> = (0..n).map(|i| token(i as u32, &format!("t{i}"))).collect();
        file(&list.join(","), "null", "null", "null", "null", MODEL)
    };
    assert!(is_readable(&tokens(MAX_ADDED)));
    assert_left_out(tokens(MAX_ADDED + 1));
    let long = token(4, &"x".repeat(65_536));
    assert!(is_readable(&file(&long, "null", "null", "null", "null", MODEL)));
    let longer = format!("{long},{}", token(5, "y"));
    assert_left_out(file(&longer, "null", "null", "null", "null", MODEL));
}
