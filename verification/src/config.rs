//! The settings of the bot, and the values that stand in for absent ones.

use vstd::prelude::*;

verus! {

/// What must not be shared: the token of the bot's account.
#[derive(Clone, Debug)]
pub struct Secrets {
    pub discord_token: String,
}

/// The voice channel to join and the guild it belongs to.
#[derive(Clone, Copy, Debug, PartialEq, Eq, Structural)]
pub struct Channel {
    pub guild_id: u64,
    pub channel_id: u64,
}

/// The settings of the transcribing bot.
#[derive(Clone, Debug)]
pub struct SttConfig {
    pub channel_to_join: Channel,
    pub ignored_users: Vec<u64>,
    pub model: ModelSpec,
}

/// Which model to load, and from which files of its repository.
#[derive(Clone, Debug)]
pub struct ModelSpec {
    pub repo: RepoSpec,
    pub filenames: FilesSpec,
}

/// A model repository at one of its revisions.
#[derive(Clone, Debug)]
pub struct RepoSpec {
    pub name: String,
    pub revision: String,
}

/// The names of a model's files.
#[derive(Clone, Debug)]
pub struct FilesSpec {
    pub config: String,
    pub tokenizer: String,
    pub model: String,
}

/// The settings of the recording bot.
#[derive(Clone, Debug)]
pub struct Config {
    pub stt: Stt,
    pub recorder: Recorder,
    pub ws: Websocket,
}

/// The channel to transcribe and the users to leave out.
#[derive(Clone, Debug)]
pub struct Stt {
    pub channel_to_join: Channel,
    pub ignored_users: Vec<u64>,
}

/// Where the backend listens.
#[derive(Clone, Debug)]
pub struct Websocket {
    pub url: String,
}

/// Where recordings go and which users are not recorded.
#[derive(Clone, Debug)]
pub struct Recorder {
    pub directory: String,
    pub ignored_users: Vec<u64>,
}

/// The characters of a repository's name and revision.
pub struct RepoView {
    pub name: Seq<char>,
    pub revision: Seq<char>,
}

/// The characters of the file names.
pub struct FilesView {
    pub config: Seq<char>,
    pub tokenizer: Seq<char>,
    pub model: Seq<char>,
}

/// A model's repository and files, as characters.
pub struct ModelView {
    pub repo: RepoView,
    pub filenames: FilesView,
}

impl View for RepoSpec {
    type V = RepoView;

    open spec fn view(&self) -> RepoView {
        RepoView { name: self.name@, revision: self.revision@ }
    }
}

impl View for FilesSpec {
    type V = FilesView;

    open spec fn view(&self) -> FilesView {
        FilesView { config: self.config@, tokenizer: self.tokenizer@, model: self.model@ }
    }
}

impl View for ModelSpec {
    type V = ModelView;

    open spec fn view(&self) -> ModelView {
        ModelView { repo: self.repo@, filenames: self.filenames@ }
    }
}

/// The repository that is used where none is configured.
pub open spec fn default_repo() -> RepoView {
    RepoView { name: "openai/whisper-tiny"@, revision: "main"@ }
}

/// The file names that are used where none are configured.
pub open spec fn default_files() -> FilesView {
    FilesView {
        config: "config.json"@,
        tokenizer: "tokenizer.json"@,
        model: "model.safetensors"@,
    }
}

/// The model that is used where none is configured.
pub open spec fn default_model() -> ModelView {
    ModelView { repo: default_repo(), filenames: default_files() }
}

/// The characters of a setting, where it is present.
pub open spec fn setting(s: Option<String>) -> Option<Seq<char>> {
    match s {
        Some(s) => Some(s@),
        None => None,
    }
}

/// The characters of a setting, or `absent` where it is not present.
pub open spec fn setting_or(s: Option<Seq<char>>, absent: Seq<char>) -> Seq<char> {
    match s {
        Some(s) => s,
        None => absent,
    }
}

/// What a `repo` table configures: the default revision stands in for an absent one.
pub open spec fn configured_repo(name: Option<Seq<char>>, revision: Option<Seq<char>>) -> RepoView {
    RepoView { name: setting_or(name, ""@), revision: setting_or(revision, default_repo().revision) }
}

/// What a `filenames` table configures: an absent name is empty.
pub open spec fn configured_files(
    config: Option<Seq<char>>,
    tokenizer: Option<Seq<char>>,
    model: Option<Seq<char>>,
) -> FilesView {
    FilesView {
        config: setting_or(config, ""@),
        tokenizer: setting_or(tokenizer, ""@),
        model: setting_or(model, ""@),
    }
}

/// What a `model` table configures: defaults stand in for absent tables.
pub open spec fn configured_model(repo: Option<RepoView>, filenames: Option<FilesView>) -> ModelView {
    ModelView {
        repo: match repo {
            Some(repo) => repo,
            None => default_repo(),
        },
        filenames: match filenames {
            Some(filenames) => filenames,
            None => default_files(),
        },
    }
}

/// A setting, or `absent` where it is not present.
fn or_else(s: Option<String>, absent: &str) -> (r: String)
    ensures
        r@ == setting_or(setting(s), absent@),
{
    match s {
        Some(s) => s,
        None => absent.to_owned(),
    }
}

impl Default for RepoSpec {
    fn default() -> (r: RepoSpec)
        ensures
            r@ == default_repo(),
    {
        RepoSpec { name: "openai/whisper-tiny".to_owned(), revision: "main".to_owned() }
    }
}

impl RepoSpec {
    /// The repository that a `repo` table with these settings names.
    pub fn from_table(name: Option<String>, revision: Option<String>) -> (r: RepoSpec)
        ensures
            r@ == configured_repo(setting(name), setting(revision)),
    {
        RepoSpec { name: or_else(name, ""), revision: or_else(revision, "main") }
    }
}

impl Default for FilesSpec {
    fn default() -> (r: FilesSpec)
        ensures
            r@ == default_files(),
    {
        FilesSpec {
            config: "config.json".to_owned(),
            tokenizer: "tokenizer.json".to_owned(),
            model: "model.safetensors".to_owned(),
        }
    }
}

impl FilesSpec {
    /// The files that a `filenames` table with these settings names.
    pub fn from_table(
        config: Option<String>,
        tokenizer: Option<String>,
        model: Option<String>,
    ) -> (r: FilesSpec)
        ensures
            r@ == configured_files(setting(config), setting(tokenizer), setting(model)),
    {
        FilesSpec {
            config: or_else(config, ""),
            tokenizer: or_else(tokenizer, ""),
            model: or_else(model, ""),
        }
    }
}

impl Default for ModelSpec {
    fn default() -> (r: ModelSpec)
        ensures
            r@ == default_model(),
    {
        ModelSpec { repo: RepoSpec::default(), filenames: FilesSpec::default() }
    }
}

impl ModelSpec {
    /// The model that a `model` table with these tables names.
    pub fn from_table(repo: Option<RepoSpec>, filenames: Option<FilesSpec>) -> (r: ModelSpec)
        ensures
            r@ == configured_model(
                match repo {
                    Some(repo) => Some(repo@),
                    None => None,
                },
                match filenames {
                    Some(filenames) => Some(filenames@),
                    None => None,
                },
            ),
    {
        ModelSpec {
            repo: match repo {
                Some(repo) => repo,
                None => RepoSpec::default(),
            },
            filenames: match filenames {
                Some(filenames) => filenames,
                None => FilesSpec::default(),
            },
        }
    }
}

impl Default for Recorder {
    fn default() -> (r: Recorder)
        ensures
            r.directory@ == "./recordings/"@,
            r.ignored_users@.len() == 0,
    {
        Recorder { directory: "./recordings/".to_owned(), ignored_users: Vec::new() }
    }
}

/// Whether a user is on the list of users to leave out.
pub fn is_ignored(ignored_users: &Vec<u64>, user_id: u64) -> (r: bool)
    ensures
        r == ignored_users@.contains(user_id),
{
    for i in 0..ignored_users.len()
        invariant
            forall|j: int| 0 <= j < i ==> ignored_users@[j] != user_id,
    {
        if ignored_users[i] == user_id {
            return true;
        }
    }
    false
}

/// Naming the default repository and nothing else configures the default model.
pub proof fn naming_the_default_repo_changes_nothing()
    ensures
        configured_model(
            Some(configured_repo(Some("openai/whisper-tiny"@), None)),
            None,
        ) == default_model(),
        configured_model(None, None) == default_model(),
{
}

/// Another repository can be named without naming a revision or files.
pub proof fn another_repo_keeps_the_rest(name: Seq<char>)
    ensures
        ({
            let model = configured_model(Some(configured_repo(Some(name), None)), None);
            &&& model.repo.name == name
            &&& model.repo.revision == default_model().repo.revision
            &&& model.filenames == default_model().filenames
        }),
{
}

/// What stands in for absent settings: the files of a model have their usual names, and
/// the model is the smallest one, at its main revision.
pub proof fn absent_tables_have_defaults(repo: RepoView, filenames: FilesView)
    ensures
        configured_model(Some(repo), Some(filenames)).repo == repo,
        configured_model(Some(repo), Some(filenames)).filenames == filenames,
        configured_model(Some(repo), None).repo == repo,
        configured_model(None, Some(filenames)).filenames == filenames,
        configured_model(None, Some(filenames)).repo.name == "openai/whisper-tiny"@,
        configured_model(None, Some(filenames)).repo.revision == "main"@,
        configured_model(Some(repo), None).filenames.config == "config.json"@,
        configured_model(Some(repo), None).filenames.tokenizer == "tokenizer.json"@,
        configured_model(Some(repo), None).filenames.model == "model.safetensors"@,
        configured_model(None, None).repo == configured_model(None, Some(filenames)).repo,
        configured_model(None, None).filenames == configured_model(Some(repo), None).filenames,
{
}

/// A setting that is present is taken as it is, whichever others are.
pub proof fn present_settings_are_kept(
    a: Seq<char>,
    b: Seq<char>,
    c: Seq<char>,
    other: Option<Seq<char>>,
    another: Option<Seq<char>>,
)
    ensures
        configured_repo(Some(a), other).name == a,
        configured_repo(other, Some(b)).revision == b,
        configured_repo(other, None).revision == "main"@,
        configured_repo(None, other).name.len() == 0,
        configured_files(Some(a), other, another).config == a,
        configured_files(other, Some(b), another).tokenizer == b,
        configured_files(other, another, Some(c)).model == c,
        configured_files(None, other, another).config.len() == 0,
        configured_files(other, None, another).tokenizer.len() == 0,
        configured_files(other, another, None).model.len() == 0,
{
    reveal_strlit("");
}

} // verus!
