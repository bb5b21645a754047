//! Which model is loaded, from which files, onto which device, and how its
//! configuration is read.

use crate::config::{default_files, default_repo, FilesSpec, FilesView, RepoSpec, RepoView};
use crate::nn::iterator::{load_mel_filters, words};
use crate::nn::model::DecoderConfig;
use candle_transformers::models::whisper::Config as WhisperConfig;
use vstd::prelude::*;
use vstd::string::*;

verus! {

/// Why a model cannot be had. What another library reported is kept as its text.
#[derive(Clone, Debug)]
pub enum Error {
    HfHub(String),
    MissingField(String),
    IoError(String),
    Json(String),
    Tokenizers(String),
    Candle(String),
}

impl Error {
    /// The message that describes the error.
    pub open spec fn text(self) -> Seq<char> {
        match self {
            Error::HfHub(e) => "error from hf_hub client: "@ + e@,
            Error::MissingField(field) => "missing field `"@ + field@ + "`"@,
            Error::IoError(e) => "io operation failed "@ + e@,
            Error::Json(e) => "json failed "@ + e@,
            Error::Tokenizers(e) => "tokenizers error "@ + e@,
            Error::Candle(e) => "candle errir "@ + e@,
        }
    }

    /// Writes the message that describes the error.
    pub fn message(&self) -> (r: String)
        ensures
            r@ == self.text(),
    {
        match self {
            Error::HfHub(e) => "error from hf_hub client: ".to_owned().concat(e.as_str()),
            Error::MissingField(field) => "missing field `".to_owned().concat(
                field.as_str(),
            ).concat("`"),
            Error::IoError(e) => "io operation failed ".to_owned().concat(e.as_str()),
            Error::Json(e) => "json failed ".to_owned().concat(e.as_str()),
            Error::Tokenizers(e) => "tokenizers error ".to_owned().concat(e.as_str()),
            Error::Candle(e) => "candle errir ".to_owned().concat(e.as_str()),
        }
    }
}

/// The device that a model is to run on.
#[derive(Clone, Copy, Debug, PartialEq, Eq, Structural)]
pub enum Device {
    Cpu,
    Cuda(usize),
    Metal(usize),
    /// The graphics device of that number where there is one, else the processor.
    CudaIfAvailable(usize),
}

/// Gathers what is needed to load a model.
pub struct ModelBuilder {
    pub repo: Option<RepoSpec>,
    pub file_spec: Option<FilesSpec>,
    pub device: Option<Device>,
}

/// What is needed to load a model.
pub struct ModelLoad {
    pub repo: RepoSpec,
    pub files: FilesSpec,
    pub device: Device,
}

/// The characters of a repository, where there is one.
pub open spec fn repo_view(repo: Option<RepoSpec>) -> Option<RepoView> {
    match repo {
        Some(repo) => Some(repo@),
        None => None,
    }
}

/// The characters of the file names, where there are any.
pub open spec fn files_view(files: Option<FilesSpec>) -> Option<FilesView> {
    match files {
        Some(files) => Some(files@),
        None => None,
    }
}

impl Default for ModelBuilder {
    fn default() -> (r: ModelBuilder)
        ensures
            repo_view(r.repo) == Some(default_repo()),
            files_view(r.file_spec) == Some(default_files()),
            r.device is None,
    {
        ModelBuilder {
            repo: Some(RepoSpec::default()),
            file_spec: Some(FilesSpec::default()),
            device: None,
        }
    }
}

impl ModelBuilder {
    /// A builder that has nothing yet.
    pub fn new() -> (r: ModelBuilder)
        ensures
            r.repo is None,
            r.file_spec is None,
            r.device is None,
    {
        ModelBuilder { repo: None, file_spec: None, device: None }
    }

    /// Sets the repository.
    pub fn set_repo(self, repo: RepoSpec) -> (r: ModelBuilder)
        ensures
            r == (ModelBuilder { repo: Some(repo), ..self }),
    {
        ModelBuilder { repo: Some(repo), file_spec: self.file_spec, device: self.device }
    }

    /// Sets the file names.
    pub fn set_file_spec(self, spec: FilesSpec) -> (r: ModelBuilder)
        ensures
            r == (ModelBuilder { file_spec: Some(spec), ..self }),
    {
        ModelBuilder { repo: self.repo, file_spec: Some(spec), device: self.device }
    }

    /// Sets the device.
    pub fn set_device(self, device: Device) -> (r: ModelBuilder)
        ensures
            r == (ModelBuilder { device: Some(device), ..self }),
    {
        ModelBuilder { repo: self.repo, file_spec: self.file_spec, device: Some(device) }
    }

    /// Asks for a graphics device, or the processor where there is none.
    pub fn cuda_or_cpu(self, index: usize) -> (r: ModelBuilder)
        ensures
            r == (ModelBuilder { device: Some(Device::CudaIfAvailable(index)), ..self }),
    {
        self.set_device(Device::CudaIfAvailable(index))
    }

    /// The bit patterns of the filter bank with `size` filters, read from the bytes
    /// that hold them. Only the bank with eighty filters can be had.
    pub fn mel_filters(size: usize, filter_bytes: &Vec<u8>) -> (r: Vec<u32>)
        requires
            size == 80,
        ensures
            r@ == words(filter_bytes@),
    {
        load_mel_filters(filter_bytes)
    }

    /// What is to be loaded, or the first thing that is missing.
    pub fn finish(self) -> (r: Result<ModelLoad, Error>)
        ensures
            match r {
                Ok(load) => {
                    &&& self.repo == Some(load.repo)
                    &&& self.file_spec == Some(load.files)
                    &&& self.device == Some(load.device)
                },
                Err(Error::MissingField(field)) => if self.repo is None {
                    field@ == "repo"@
                } else if self.file_spec is None {
                    field@ == "file_spec"@
                } else {
                    self.device is None && field@ == "device"@
                },
                Err(_) => false,
            },
    {
        let repo: RepoSpec = match self.repo {
            Some(repo) => repo,
            None => return Err(Error::MissingField("repo".to_owned())),
        };
        let files: FilesSpec = match self.file_spec {
            Some(files) => files,
            None => return Err(Error::MissingField("file_spec".to_owned())),
        };
        let device: Device = match self.device {
            Some(device) => device,
            None => return Err(Error::MissingField("device".to_owned())),
        };
        Ok(ModelLoad { repo, files, device })
    }
}

/// Where the files of a model were put.
#[derive(Clone, Debug)]
pub struct NnPaths {
    pub config: String,
    pub tokenizer: String,
    pub model: String,
}

impl NnPaths {
    /// What follows the fetches that were made: each gave the place of a file, or a
    /// failure. The files are fetched one after the other, the first failure is the
    /// end, and the places of the three files are the result.
    pub fn get_all<E>(repo: &RepoSpec, files: &FilesSpec, fetched: Vec<Result<String, E>>) -> (r: FetchStep<E>)
        ensures
            ({
                let f = fetched@;
                if f.len() == 0 {
                    r.gets(repo@, files@.config)
                } else if f[0] is Err {
                    r == FetchStep::Failed(f[0]->Err_0)
                } else if f.len() == 1 {
                    r.gets(repo@, files@.tokenizer)
                } else if f[1] is Err {
                    r == FetchStep::Failed(f[1]->Err_0)
                } else if f.len() == 2 {
                    r.gets(repo@, files@.model)
                } else if f[2] is Err {
                    r == FetchStep::Failed(f[2]->Err_0)
                } else {
                    r == FetchStep::<E>::Done(
                        NnPaths { config: f[0]->Ok_0, tokenizer: f[1]->Ok_0, model: f[2]->Ok_0 },
                    )
                }
            }),
    {
        let mut fetched: Vec<Result<String, E>> = fetched;
        if fetched.len() == 0 {
            return FetchStep::get(repo, files.config.as_str());
        }
        let config: String = match fetched.remove(0) {
            Ok(path) => path,
            Err(e) => return FetchStep::Failed(e),
        };
        if fetched.len() == 0 {
            return FetchStep::get(repo, files.tokenizer.as_str());
        }
        let tokenizer: String = match fetched.remove(0) {
            Ok(path) => path,
            Err(e) => return FetchStep::Failed(e),
        };
        if fetched.len() == 0 {
            return FetchStep::get(repo, files.model.as_str());
        }
        let model: String = match fetched.remove(0) {
            Ok(path) => path,
            Err(e) => return FetchStep::Failed(e),
        };
        FetchStep::Done(NnPaths { config, tokenizer, model })
    }
}

/// What follows some fetches.
#[derive(Debug)]
pub enum FetchStep<E> {
    /// Fetch a file of a repository at a revision.
    Get { name: String, revision: String, file: String },
    /// All files were fetched.
    Done(NnPaths),
    /// A file could not be fetched.
    Failed(E),
}

impl<E> FetchStep<E> {
    /// Whether a file of a repository is to be fetched.
    pub open spec fn gets(self, repo: RepoView, file: Seq<char>) -> bool {
        self matches FetchStep::Get { name, revision, file: wanted } && name@ == repo.name
            && revision@ == repo.revision && wanted@ == file
    }

    /// Asks for a file of a repository.
    fn get(repo: &RepoSpec, file: &str) -> (r: FetchStep<E>)
        ensures
            r.gets(repo@, file@),
    {
        FetchStep::Get {
            name: repo.name.clone(),
            revision: repo.revision.clone(),
            file: file.to_owned(),
        }
    }
}

/// `candle_transformers::models::whisper::Config`, whose inside stays hidden.
#[verifier::external_type_specification]
#[verifier::external_body]
pub struct ExWhisperConfig(WhisperConfig);

/// The settings of a Whisper configuration.
pub struct WhisperSettings {
    pub num_mel_bins: nat,
    pub max_source_positions: nat,
    pub d_model: nat,
    pub encoder_attention_heads: nat,
    pub encoder_layers: nat,
    pub vocab_size: nat,
    pub max_target_positions: nat,
    pub decoder_attention_heads: nat,
    pub decoder_layers: nat,
    pub suppress_tokens: Seq<u32>,
}

/// The settings that a Whisper configuration holds.
pub uninterp spec fn settings_of(config: WhisperConfig) -> WhisperSettings;

/// The settings that the text of a Whisper configuration gives, where it is one.
pub uninterp spec fn settings_in(text: Seq<char>) -> Option<WhisperSettings>;

/// Whether what decoding needs is taken from the settings.
pub open spec fn is_taken_from(decoding: DecoderConfig, settings: WhisperSettings) -> bool {
    &&& decoding.vocab_size == settings.vocab_size
    &&& decoding.suppress_tokens@ == settings.suppress_tokens
    &&& decoding.max_target_positions == settings.max_target_positions
}

/// `serde_json::from_str` into a Whisper configuration: it fails exactly on the texts
/// that are none, and the configuration holds the settings that the text gives. What
/// decoding needs of them is copied from it.
#[verifier::external_body]
fn config_from_str(text: &str) -> (r: Result<(DecoderConfig, WhisperConfig), String>)
    ensures
        match r {
            Ok(c) => settings_in(text@) == Some(settings_of(c.1)),
            Err(_) => settings_in(text@) is None,
        },
        r matches Ok(c) ==> is_taken_from(c.0, settings_of(c.1)),
{
    let config: WhisperConfig = serde_json::from_str(text).map_err(|e| format!("{e:?}"))?;
    let decoding = DecoderConfig {
        vocab_size: config.vocab_size,
        suppress_tokens: config.suppress_tokens.clone(),
        max_target_positions: config.max_target_positions,
    };
    Ok((decoding, config))
}

/// Reads the configuration of a model: what decoding needs of it, and the whole.
pub fn read_config(text: &str) -> (r: Result<(DecoderConfig, WhisperConfig), Error>)
    ensures
        match r {
            Ok(c) => {
                &&& settings_in(text@) == Some(settings_of(c.1))
                &&& is_taken_from(c.0, settings_of(c.1))
            },
            Err(Error::Json(_)) => settings_in(text@) is None,
            Err(_) => false,
        },
{
    match config_from_str(text) {
        Ok(config) => Ok(config),
        Err(e) => Err(Error::Json(e)),
    }
}

/// Nothing but a device has to be given for the default model.
pub proof fn default_needs_only_a_device(builder: ModelBuilder, device: Device, r: Result<ModelLoad, Error>)
    requires
        call_ensures(ModelBuilder::default, (), builder),
        call_ensures(
            ModelBuilder::finish,
            (ModelBuilder { device: Some(device), ..builder },),
            r,
        ),
    ensures
        r matches Ok(load) && load.repo@ == default_repo() && load.files@ == default_files()
            && load.device == device,
{
}

/// A step that fetches a file asks for it by its name, from the repository and at the
/// revision that are configured.
pub proof fn fetches_name_their_file<E>(step: FetchStep<E>, repo: RepoView, file: Seq<char>)
    ensures
        step.gets(repo, file) <==> step is Get && step->name@ == repo.name && step->revision@
            == repo.revision && step->file@ == file,
{
}

/// Every error message ends with what was reported, after words that say where; only the
/// name of a missing field is put in quotes.
pub proof fn errors_repeat_what_was_reported(reported: String)
    ensures
        Error::HfHub(reported).text() == "error from hf_hub client: "@ + reported@,
        Error::MissingField(reported).text() == "missing field `"@ + reported@ + "`"@,
        Error::IoError(reported).text() == "io operation failed "@ + reported@,
        Error::Json(reported).text() == "json failed "@ + reported@,
        Error::Tokenizers(reported).text() == "tokenizers error "@ + reported@,
        Error::Candle(reported).text() == "candle errir "@ + reported@,
{
}

/// What decoding takes from a configuration is what the configuration says.
pub proof fn decoding_keeps_the_settings(decoding: DecoderConfig, settings: WhisperSettings)
    ensures
        is_taken_from(decoding, settings) <==> decoding.vocab_size == settings.vocab_size
            && decoding.max_target_positions == settings.max_target_positions
            && decoding.suppress_tokens@ == settings.suppress_tokens,
{
}

} // verus!
