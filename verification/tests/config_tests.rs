use melba_stt::config::{is_ignored, FilesSpec, ModelSpec, Recorder, RepoSpec};
use melba_stt::nn::builder::{read_config, Device, Error, FetchStep, ModelBuilder, NnPaths};

fn assert_default(model: &ModelSpec) {
    assert_eq!(model.repo.name, "openai/whisper-tiny");
    assert_eq!(model.repo.revision, "main");
    assert_eq!(model.filenames.config, "config.json");
    assert_eq!(model.filenames.tokenizer, "tokenizer.json");
    assert_eq!(model.filenames.model, "model.safetensors");
}

#[test]
fn the_default_model_is_the_tiny_one() {
    assert_default(&ModelSpec::default());
    assert_default(&ModelSpec::from_table(None, None));
}

#[test]
fn naming_the_default_repo_is_the_same_as_naming_nothing() {
    let repo = RepoSpec::from_table(Some("openai/whisper-tiny".to_string()), None);
    assert_default(&ModelSpec::from_table(Some(repo), None));
}

#[test]
fn another_repo_can_be_named() {
    let repo = RepoSpec::from_table(Some("openai/whisper-base".to_string()), None);
    let model = ModelSpec::from_table(Some(repo), None);
    assert_eq!(model.repo.name, "openai/whisper-base");
    assert_eq!(model.repo.revision, "main");
    assert_eq!(model.filenames.model, "model.safetensors");
}

#[test]
fn absent_settings_in_tables() {
    let repo = RepoSpec::from_table(None, Some("v2".to_string()));
    assert_eq!((repo.name.as_str(), repo.revision.as_str()), ("", "v2"));
    let files = FilesSpec::from_table(None, Some("t.json".to_string()), None);
    assert_eq!(files.config, "");
    assert_eq!(files.tokenizer, "t.json");
    assert_eq!(files.model, "");
}

#[test]
fn recordings_have_a_default_place() {
    let recorder = Recorder::default();
    assert_eq!(recorder.directory, "./recordings/");
    assert!(recorder.ignored_users.is_empty());
}

#[test]
fn ignored_users_are_listed() {
    assert!(is_ignored(&vec![4, 5, 6], 6));
    assert!(!is_ignored(&vec![4, 5, 6], 7));
    assert!(!is_ignored(&vec![], 7));
}

#[test]
fn a_builder_names_the_first_missing_field() {
    let missing = |builder: ModelBuilder| match builder.finish() {
        Err(Error::MissingField(field)) => field,
        _ => panic!("a field should be missing"),
    };
    assert_eq!(missing(ModelBuilder::new()), "repo");
    assert_eq!(missing(ModelBuilder::new().set_repo(RepoSpec::default())), "file_spec");
    assert_eq!(missing(ModelBuilder::new().set_file_spec(FilesSpec::default())), "repo");
    assert_eq!(missing(ModelBuilder::default()), "device");
}

#[test]
fn a_complete_builder_says_what_to_load() {
    let load = match ModelBuilder::default().cuda_or_cpu(3).finish() {
        Ok(load) => load,
        Err(_) => panic!("nothing is missing"),
    };
    assert_eq!(load.repo.name, "openai/whisper-tiny");
    assert_eq!(load.files.config, "config.json");
    assert_eq!(load.device, Device::CudaIfAvailable(3));
    let load = match ModelBuilder::default().set_device(Device::Cpu).finish() {
        Ok(load) => load,
        Err(_) => panic!("nothing is missing"),
    };
    assert_eq!(load.device, Device::Cpu);
}

#[test]
fn errors_describe_themselves() {
    let text = |e: Error| e.message();
    assert_eq!(text(Error::HfHub("x".to_string())), "error from hf_hub client: x");
    assert_eq!(text(Error::MissingField("repo".to_string())), "missing field `repo`");
    assert_eq!(text(Error::IoError("x".to_string())), "io operation failed x");
    assert_eq!(text(Error::Json("x".to_string())), "json failed x");
    assert_eq!(text(Error::Tokenizers("x".to_string())), "tokenizers error x");
    assert_eq!(text(Error::Candle("x".to_string())), "candle errir x");
}

#[test]
fn filter_banks_are_read_as_patterns() {
    let values = [0.25f32, -3.5, 1e-10];
    let mut bytes: Vec<u8> = values.iter().flat_map(|v| v.to_le_bytes()).collect();
    bytes.push(7);
    let expected: Vec<u32> = values.iter().map(|v| v.to_bits()).collect();
    assert_eq!(ModelBuilder::mel_filters(80, &bytes), expected);
}

fn fetch(fetched: Vec<Result<String, u8>>) -> FetchStep<u8> {
    NnPaths::get_all(&RepoSpec::default(), &FilesSpec::default(), fetched)
}

#[test]
fn the_files_of_a_model_are_fetched_in_order() {
    let mut fetched: Vec<Result<String, u8>> = vec![];
    for wanted in ["config.json", "tokenizer.json", "model.safetensors"] {
        match fetch(fetched.clone()) {
            FetchStep::Get { name, revision, file } => {
                assert_eq!(name, "openai/whisper-tiny");
                assert_eq!(revision, "main");
                assert_eq!(file, wanted);
            }
            _ => panic!("a file should be fetched"),
        }
        fetched.push(Ok(format!("/cache/{wanted}")));
    }
    match fetch(fetched) {
        FetchStep::Done(paths) => {
            assert_eq!(paths.config, "/cache/config.json");
            assert_eq!(paths.tokenizer, "/cache/tokenizer.json");
            assert_eq!(paths.model, "/cache/model.safetensors");
        }
        _ => panic!("all files were fetched"),
    }
}

#[test]
fn the_first_failed_fetch_is_the_end() {
    let path = || Ok("/cache/file".to_string());
    assert!(matches!(fetch(vec![Err(1)]), FetchStep::Failed(1)));
    assert!(matches!(fetch(vec![path(), Err(2)]), FetchStep::Failed(2)));
    assert!(matches!(fetch(vec![path(), path(), Err(3)]), FetchStep::Failed(3)));
    assert!(matches!(fetch(vec![Err(1), Err(2)]), FetchStep::Failed(1)));
}

const TINY: &str = "{\"num_mel_bins\":80,\"max_source_positions\":1500,\"d_model\":384,\
    \"encoder_attention_heads\":6,\"encoder_layers\":4,\"vocab_size\":51865,\
    \"max_target_positions\":448,\"decoder_attention_heads\":6,\"decoder_layers\":4";

#[test]
fn the_configuration_of_a_model_is_read() {
    let text = format!("{TINY},\"suppress_tokens\":[1,2,50361],\"other\":true}}");
    let (decoding, whole) = match read_config(&text) {
        Ok(config) => config,
        Err(_) => panic!("the text is a configuration"),
    };
    assert_eq!(decoding.vocab_size, 51865);
    assert_eq!(decoding.suppress_tokens, vec![1, 2, 50361]);
    assert_eq!(decoding.max_target_positions, 448);
    assert_eq!((whole.num_mel_bins, whole.d_model), (80, 384));
    assert_eq!((whole.max_source_positions, whole.encoder_layers), (1500, 4));
    assert_eq!((whole.encoder_attention_heads, whole.decoder_attention_heads), (6, 6));
    assert_eq!((whole.decoder_layers, whole.vocab_size), (4, 51865));
    assert_eq!(whole.suppress_tokens, decoding.suppress_tokens);
    let (decoding, _) = read_config(&format!("{TINY}}}")).unwrap();
    assert!(decoding.suppress_tokens.is_empty());
}

#[test]
fn what_is_no_configuration_is_refused() {
    for text in ["", "{}", "[1]", TINY, "{\"vocab_size\":-1}"] {
        match read_config(text) {
            Err(Error::Json(_)) => {}
            _ => panic!("the text is no configuration"),
        }
    }
    assert!(read_config("{}").unwrap_err().message().starts_with("json failed Error("));
}
