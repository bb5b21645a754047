//! Recordings: each speaker's audio is cut into numbered wave files, which are
//! merged when the speaker leaves.

use crate::text::{decimal, decimal_is_digits, decimal_reads_back, join, join_path, joined, pad_left, padding_keeps_value, path_in, value_of, views, write_decimal, write_padded};
use crate::wave::{countable, fits_wave, heads_are_laid_out, le16, le32, numbers_read_back, sample_bytes, samples_read_back, wave_file, wave_head, write_wave};
use vstd::prelude::*;
use vstd::string::*;

verus! {

/// Samples per second of a recording.
pub const SAMPLERATE: usize = 48_000;

/// Channels of a recording.
pub const N_CHANNELS: u16 = 1;

/// The samples of one minute, which make a file full.
pub const CHUNK_SAMPLES: usize = 2_880_000;

/// The samples that stand for a tick of silence: a fiftieth of a second.
pub const SILENCE_SAMPLES: usize = 960;

/// The format tag of uncompressed samples in a wave file.
pub const WAV_FORMAT_PCM: u16 = 1;

/// The bits of a sample.
pub const SAMPLE_BITS: u16 = 16;

/// What is recorded.
#[derive(Clone, Debug)]
pub enum Audio {
    Packets(Vec<i16>),
    Silence,
}

/// What is recorded, with the samples as a sequence.
pub enum AudioView {
    Packets(Seq<i16>),
    Silence,
}

impl View for Audio {
    type V = AudioView;

    open spec fn view(&self) -> AudioView {
        match self {
            Audio::Packets(samples) => AudioView::Packets(samples@),
            Audio::Silence => AudioView::Silence,
        }
    }
}

/// The samples that audio adds to a recording.
pub open spec fn samples_of(audio: AudioView) -> Seq<i16> {
    match audio {
        AudioView::Packets(samples) => samples,
        AudioView::Silence => Seq::new(SILENCE_SAMPLES as nat, |i: int| 0i16),
    }
}

/// The name of a numbered file: eight digits, or more where they do not suffice.
pub open spec fn chunk_name(sequence: nat) -> Seq<char> {
    pad_left(decimal(sequence), 8, '0') + ".wav"@
}

/// The path of a numbered file in a directory.
pub open spec fn chunk_path(base: Seq<char>, sequence: nat) -> Seq<char> {
    path_in(base, chunk_name(sequence))
}

/// The bytes of a recorded file.
pub open spec fn chunk_bytes(samples: Seq<i16>) -> Seq<u8> {
    wave_file(WAV_FORMAT_PCM, N_CHANNELS, SAMPLERATE as u32, SAMPLE_BITS, samples)
}

/// Writes the name of a numbered file.
pub fn format_filename(sequence: usize) -> (r: String)
    ensures
        r@ == chunk_name(sequence as nat),
{
    proof {
        reveal_strlit("0");
    }
    let mut r: String = write_padded(write_decimal(sequence as u128).as_str(), 8, "0");
    r.append(".wav");
    r
}

/// The directory in which the recordings of a guild are kept.
pub fn recordings_dir(guild_id: u64) -> (r: String)
    ensures
        r@ == "recordings/"@ + decimal(guild_id as nat),
{
    let mut r: String = "recordings/".to_owned();
    r.append(write_decimal(guild_id as u128).as_str());
    r
}

/// Where all recordings are kept.
#[derive(Clone, Debug)]
pub struct Recorder {
    pub base: String,
}

/// Where the recordings of one session are kept.
#[derive(Clone, Debug)]
pub struct Session {
    pub base: String,
}

impl Recorder {
    /// A recorder that keeps recordings in the directory `base_dir`.
    pub fn new(base_dir: String) -> (r: Recorder)
        ensures
            r.base@ == base_dir@,
    {
        Recorder { base: base_dir }
    }

    /// The session whose recordings are kept in the subdirectory `id`.
    pub fn session(&self, id: String) -> (r: Session)
        ensures
            r.base@ == path_in(self.base@, id@),
    {
        Session { base: join_path(self.base.as_str(), id.as_str()) }
    }
}

impl Session {
    /// A speaker of whom nothing is recorded yet, with the subdirectory `id`.
    pub fn new_speaker(&self, id: String) -> (r: Speaker)
        ensures
            r@.wf(),
            r@ == (SpeakerView {
                base: path_in(self.base@, id@),
                sequence: 0,
                buffer: Seq::empty(),
            }),
    {
        Speaker {
            base: join_path(self.base.as_str(), id.as_str()),
            sequence: 0,
            buffer: Vec::with_capacity(SAMPLERATE * 60),
        }
    }
}

/// A speaker who is recorded: the directory of the files, the number of the next
/// one, and the samples that will go into it.
pub struct Speaker {
    base: String,
    sequence: usize,
    buffer: Vec<i16>,
}

/// A speaker who is recorded.
pub struct SpeakerView {
    pub base: Seq<char>,
    pub sequence: nat,
    pub buffer: Seq<i16>,
}

impl View for Speaker {
    type V = SpeakerView;

    closed spec fn view(&self) -> SpeakerView {
        SpeakerView {
            base: self.base@,
            sequence: self.sequence as nat,
            buffer: self.buffer@,
        }
    }
}

impl SpeakerView {
    /// What waits to be saved does not fill a file.
    pub open spec fn wf(self) -> bool {
        self.buffer.len() < CHUNK_SAMPLES
    }

    /// What waits to be saved once `audio` was added.
    pub open spec fn with(self, audio: AudioView) -> Seq<i16> {
        self.buffer + samples_of(audio)
    }

    /// Whether `audio` fills a file.
    pub open spec fn fills(self, audio: AudioView) -> bool {
        self.with(audio).len() >= CHUNK_SAMPLES
    }

    /// The speaker once `audio` was recorded: a full file is saved whole.
    pub open spec fn after(self, audio: AudioView) -> SpeakerView {
        if self.fills(audio) {
            SpeakerView { sequence: self.sequence + 1, buffer: Seq::empty(), ..self }
        } else {
            SpeakerView { buffer: self.with(audio), ..self }
        }
    }

    /// The speaker once several pieces of audio were recorded.
    pub open spec fn after_all(self, audios: Seq<AudioView>) -> SpeakerView
        decreases audios.len(),
    {
        if audios.len() == 0 {
            self
        } else {
            self.after_all(audios.drop_last()).after(audios.last())
        }
    }

    /// The samples of each file that is saved while several pieces of audio are
    /// recorded.
    pub open spec fn saved(self, audios: Seq<AudioView>) -> Seq<Seq<i16>>
        decreases audios.len(),
    {
        if audios.len() == 0 {
            Seq::empty()
        } else {
            let before = self.after_all(audios.drop_last());
            let files = self.saved(audios.drop_last());
            if before.fills(audios.last()) {
                files.push(before.with(audios.last()))
            } else {
                files
            }
        }
    }
}

/// The samples of several pieces of audio, in order.
pub open spec fn all_samples(audios: Seq<AudioView>) -> Seq<i16>
    decreases audios.len(),
{
    if audios.len() == 0 {
        Seq::empty()
    } else {
        all_samples(audios.drop_last()) + samples_of(audios.last())
    }
}

/// A file that is to be written.
#[derive(Clone, Debug)]
pub struct SavedChunk {
    pub path: String,
    pub bytes: Vec<u8>,
}

/// Why a file cannot be written.
#[derive(Clone, Copy, Debug, PartialEq, Eq, Structural)]
pub enum SaveError {
    /// There are more samples than a wave file can hold.
    TooLong,
}

impl Speaker {
    /// Starts recording the speaker.
    pub fn listen(self) -> (r: Sink)
        ensures
            r@ == self@,
    {
        Sink { speaker: self }
    }

    /// The numbered file that holds the samples.
    pub fn save_chunk(&self, seq: usize, samples: Vec<i16>) -> (r: Result<SavedChunk, SaveError>)
        requires
            countable(samples@.len()),
        ensures
            match r {
                Ok(chunk) => {
                    &&& fits_wave(samples@.len())
                    &&& chunk.path@ == chunk_path(self@.base, seq as nat)
                    &&& chunk.bytes@ == chunk_bytes(samples@)
                },
                Err(e) => !fits_wave(samples@.len()) && e == SaveError::TooLong,
            },
    {
        let path: String = join_path(self.base.as_str(), format_filename(seq).as_str());
        match write_wave(WAV_FORMAT_PCM, N_CHANNELS, SAMPLERATE as u32, SAMPLE_BITS, samples) {
            Ok(bytes) => Ok(SavedChunk { path, bytes }),
            Err(_) => Err(SaveError::TooLong),
        }
    }
}

/// The recording of a speaker.
pub struct Sink {
    speaker: Speaker,
}

impl View for Sink {
    type V = SpeakerView;

    closed spec fn view(&self) -> SpeakerView {
        self.speaker@
    }
}

/// How a recording is merged into one file.
#[derive(Clone, Debug)]
pub struct Merge {
    /// The last file, which is to be written first.
    pub last: SavedChunk,
    /// The files that are merged, in order.
    pub chunks: Vec<String>,
    /// The file that lists them.
    pub list: String,
    /// The merged file.
    pub output: String,
}

/// The line that names a file in a list of files.
pub open spec fn list_line(path: Seq<char>) -> Seq<char> {
    "file '"@ + path + "'"@
}

/// Writes a list of files, one in a line.
pub fn concat_list(paths: &Vec<String>) -> (r: String)
    ensures
        r@ == joined(
            Seq::new(paths@.len(), |i: int| list_line(paths@[i]@)),
            "\n"@,
        ),
{
    let mut lines: Vec<String> = Vec::new();
    for i in 0..paths.len()
        invariant
            lines@.len() == i,
            forall|j: int| 0 <= j < i ==> (#[trigger] lines@[j])@ == list_line(paths@[j]@),
    {
        let mut line: String = "file '".to_owned();
        line.append(paths[i].as_str());
        line.append("'");
        lines.push(line);
    }
    assert(views(lines@) =~= Seq::new(paths@.len(), |i: int| list_line(paths@[i]@)));
    join(&lines, "\n")
}

/// The arguments that have `ffmpeg` merge the files of a list into one.
pub fn merge_arguments(list: &str, output: &str) -> (r: Vec<String>)
    ensures
        views(r@) == seq![
            "-nostdin"@,
            "-f"@,
            "concat"@,
            "-safe"@,
            "0"@,
            "-i"@,
            list@,
            "-compression_level"@,
            "12"@,
            output@,
        ],
{
    let mut r: Vec<String> = Vec::new();
    r.push("-nostdin".to_owned());
    r.push("-f".to_owned());
    r.push("concat".to_owned());
    r.push("-safe".to_owned());
    r.push("0".to_owned());
    r.push("-i".to_owned());
    r.push(list.to_owned());
    r.push("-compression_level".to_owned());
    r.push("12".to_owned());
    r.push(output.to_owned());
    assert(views(r@) =~= seq![
        "-nostdin"@,
        "-f"@,
        "concat"@,
        "-safe"@,
        "0"@,
        "-i"@,
        list@,
        "-compression_level"@,
        "12"@,
        output@,
    ]);
    r
}

impl Sink {
    /// Records audio. Where it fills a file, the file comes back.
    pub fn send_audio(&mut self, audio: Audio) -> (r: Result<Option<SavedChunk>, SaveError>)
        requires
            old(self)@.wf(),
            old(self)@.fills(audio@) ==> old(self)@.sequence < usize::MAX && countable(
                old(self)@.with(audio@).len(),
            ),
        ensures
            final(self)@.wf(),
            match r {
                Ok(saved) => {
                    &&& final(self)@ == old(self)@.after(audio@)
                    &&& saved is Some == old(self)@.fills(audio@)
                    &&& saved matches Some(chunk) ==> {
                        &&& fits_wave(old(self)@.with(audio@).len())
                        &&& chunk.path@ == chunk_path(old(self)@.base, old(self)@.sequence)
                        &&& chunk.bytes@ == chunk_bytes(old(self)@.with(audio@))
                    }
                },
                Err(e) => {
                    &&& old(self)@.fills(audio@)
                    &&& !fits_wave(old(self)@.with(audio@).len())
                    &&& final(self)@ == SpeakerView { buffer: Seq::empty(), ..old(self)@ }
                },
            },
    {
        match audio {
            Audio::Packets(samples) => {
                let mut samples: Vec<i16> = samples;
                self.speaker.buffer.append(&mut samples);
            },
            Audio::Silence => {
                let mut silence: Vec<i16> = vec![0i16; SAMPLERATE / 50];
                assert(silence@ =~= samples_of(AudioView::Silence));
                self.speaker.buffer.append(&mut silence);
            },
        }
        if self.speaker.buffer.len() >= SAMPLERATE * 60 {
            let mut samples: Vec<i16> = Vec::new();
            samples.append(&mut self.speaker.buffer);
            assert(samples@ =~= old(self)@.with(audio@));
            let chunk = match self.speaker.save_chunk(self.speaker.sequence, samples) {
                Ok(chunk) => chunk,
                Err(e) => return Err(e),
            };
            self.speaker.sequence = self.speaker.sequence + 1;
            return Ok(Some(chunk));
        }
        Ok(None)
    }

    /// Ends the recording: what waits to be saved makes the last file, and all files
    /// are to be merged.
    pub fn do_merge(self) -> (r: Merge)
        requires
            self@.wf(),
            self@.sequence < usize::MAX,
        ensures
            r.last.path@ == chunk_path(self@.base, self@.sequence),
            r.last.bytes@ == chunk_bytes(self@.buffer),
            views(r.chunks@) == Seq::new(
                self@.sequence + 1,
                |i: int| chunk_path(self@.base, i as nat),
            ),
            r.list@ == path_in(self@.base, "files.txt"@),
            r.output@ == path_in(self@.base, "combined.flac"@),
    {
        let mut speaker: Speaker = self.speaker;
        let mut buffer: Vec<i16> = Vec::new();
        buffer.append(&mut speaker.buffer);
        assert(buffer@ =~= self@.buffer);
        let last: SavedChunk = match speaker.save_chunk(speaker.sequence, buffer) {
            Ok(chunk) => chunk,
            // Less than a full file always fits.
            Err(_) => SavedChunk { path: String::new(), bytes: Vec::new() },
        };
        let mut chunks: Vec<String> = Vec::new();
        let mut i: usize = 0;
        while i <= speaker.sequence
            invariant
                i <= speaker.sequence + 1,
                speaker.sequence < usize::MAX,
                speaker.base@ == self@.base,
                chunks@.len() == i,
                forall|j: int|
                    0 <= j < i ==> (#[trigger] chunks@[j])@ == chunk_path(self@.base, j as nat),
            decreases speaker.sequence + 1 - i,
        {
            chunks.push(join_path(speaker.base.as_str(), format_filename(i).as_str()));
            i = i + 1;
        }
        assert(views(chunks@) =~= Seq::new(
            self@.sequence + 1,
            |i: int| chunk_path(self@.base, i as nat),
        ));
        Merge {
            last,
            chunks,
            list: join_path(speaker.base.as_str(), "files.txt"),
            output: join_path(speaker.base.as_str(), "combined.flac"),
        }
    }
}

/// The samples of several files, one after the other.
pub open spec fn flat(files: Seq<Seq<i16>>) -> Seq<i16>
    decreases files.len(),
{
    if files.len() == 0 {
        Seq::empty()
    } else {
        flat(files.drop_last()) + files.last()
    }
}

/// Nothing is lost: the files that were saved, followed by what waits to be saved,
/// hold what was recorded, in order. Every file but the last is at least full, and
/// the files are numbered one after the other.
pub proof fn recordings_are_complete(start: SpeakerView, audios: Seq<AudioView>)
    requires
        start.wf(),
    ensures
        ({
            let files = start.saved(audios);
            let end = start.after_all(audios);
            &&& end.wf()
            &&& flat(files) + end.buffer == start.buffer + all_samples(audios)
            &&& end.sequence == start.sequence + files.len()
            &&& end.base == start.base
            &&& forall|i: int| 0 <= i < files.len() ==> (#[trigger] files[i]).len() >= CHUNK_SAMPLES
        }),
    decreases audios.len(),
{
    let files = start.saved(audios);
    let end = start.after_all(audios);
    if audios.len() == 0 {
        assert(flat(files) + end.buffer =~= start.buffer + all_samples(audios));
    } else {
        let rest = audios.drop_last();
        recordings_are_complete(start, rest);
        let before = start.after_all(rest);
        let new = samples_of(audios.last());
        if before.fills(audios.last()) {
            assert(files.drop_last() =~= start.saved(rest));
            assert(files.last() == before.buffer + new);
        }
        assert(flat(files) + end.buffer =~= (flat(start.saved(rest)) + before.buffer) + new);
        assert((start.buffer + all_samples(rest)) + new =~= start.buffer + all_samples(audios));
    }
}

/// The files that are written while several pieces of audio are recorded, each with its
/// path and its bytes.
pub open spec fn written(start: SpeakerView, audios: Seq<AudioView>) -> Seq<(Seq<char>, Seq<u8>)>
    decreases audios.len(),
{
    if audios.len() == 0 {
        Seq::empty()
    } else {
        let before = start.after_all(audios.drop_last());
        let files = written(start, audios.drop_last());
        if before.fills(audios.last()) {
            files.push(
                (
                    chunk_path(before.base, before.sequence),
                    chunk_bytes(before.with(audios.last())),
                ),
            )
        } else {
            files
        }
    }
}

/// A merged recording is what was recorded: the files that were written and the last
/// one, which the merge adds, have the paths that the merge lists, in its order, and
/// their samples are what was recorded, in order. Every file but the last is full, and
/// the last one is not.
pub proof fn merged_recordings_are_complete(base: Seq<char>, audios: Seq<AudioView>)
    ensures
        ({
            let start = SpeakerView { base, sequence: 0, buffer: Seq::empty() };
            let end = start.after_all(audios);
            let last = (chunk_path(end.base, end.sequence), chunk_bytes(end.buffer));
            let files = written(start, audios).push(last);
            let samples = start.saved(audios).push(end.buffer);
            &&& end.base == base
            &&& files.len() == end.sequence + 1
            &&& samples.len() == files.len()
            &&& forall|i: int|
                0 <= i < files.len() ==> #[trigger] files[i] == (
                    chunk_path(base, i as nat),
                    chunk_bytes(samples[i]),
                )
            &&& flat(samples) == all_samples(audios)
            &&& forall|i: int|
                0 <= i < samples.len() - 1 ==> (#[trigger] samples[i]).len() >= CHUNK_SAMPLES
            &&& samples.last().len() < CHUNK_SAMPLES
        }),
{
    let start = SpeakerView { base, sequence: 0, buffer: Seq::empty() };
    let end = start.after_all(audios);
    let samples = start.saved(audios).push(end.buffer);
    recordings_are_complete(start, audios);
    lemma_written(start, audios);
    assert(samples.drop_last() =~= start.saved(audios));
    assert(start.buffer + all_samples(audios) =~= all_samples(audios));
}

/// The files that are written are those that are saved, numbered one after the other.
proof fn lemma_written(start: SpeakerView, audios: Seq<AudioView>)
    requires
        start.wf(),
    ensures
        written(start, audios).len() == start.saved(audios).len(),
        forall|i: int|
            0 <= i < written(start, audios).len() ==> #[trigger] written(start, audios)[i] == (
                chunk_path(start.base, (start.sequence + i) as nat),
                chunk_bytes(start.saved(audios)[i]),
            ),
    decreases audios.len(),
{
    if audios.len() > 0 {
        lemma_written(start, audios.drop_last());
        recordings_are_complete(start, audios.drop_last());
    }
}

/// A recorded file has its samples after a head of fixed length, from where each
/// reads back as it was recorded.
pub proof fn recorded_samples_read_back(samples: Seq<i16>, i: int)
    requires
        0 <= i < samples.len(),
    ensures
        ({
            let bytes = chunk_bytes(samples);
            let word = bytes[44 + 2 * i] + 256 * bytes[44 + 2 * i + 1];
            &&& bytes.len() == 44 + 2 * samples.len()
            &&& samples[i] == if word < 32768 {
                word
            } else {
                word - 65536
            }
        }),
{
    let bytes = chunk_bytes(samples);
    let head = wave_head(WAV_FORMAT_PCM, N_CHANNELS, SAMPLERATE as u32, SAMPLE_BITS, samples.len());
    assert(head.len() == 44);
    assert(bytes[44 + 2 * i] == sample_bytes(samples)[2 * i]);
    assert(bytes[44 + 2 * i + 1] == sample_bytes(samples)[2 * i + 1]);
    samples_read_back(samples, i);
}

/// Files with different numbers have different names, and so different paths.
pub proof fn chunk_paths_differ(base: Seq<char>, a: nat, b: nat)
    requires
        a != b,
    ensures
        chunk_name(a) != chunk_name(b),
        chunk_path(base, a) != chunk_path(base, b),
{
    lemma_chunk_name(a);
    lemma_chunk_name(b);
    let (x, y) = (chunk_name(a), chunk_name(b));
    if chunk_path(base, a) == chunk_path(base, b) {
        let p = chunk_path(base, a);
        let front = if base.len() == 0 || base.last() == '/' {
            base
        } else {
            base.push('/')
        };
        assert(p.skip(front.len() as int) =~= x);
        assert(chunk_path(base, b).skip(front.len() as int) =~= y);
    }
}

/// The number of a file can be read from its name, which is no absolute path.
proof fn lemma_chunk_name(n: nat)
    ensures
        chunk_name(n).len() > 4,
        chunk_name(n)[0] != '/',
        value_of(chunk_name(n).take(chunk_name(n).len() - 4)) == n,
{
    reveal_strlit(".wav");
    let digits = pad_left(decimal(n), 8, '0');
    assert(chunk_name(n).take(chunk_name(n).len() - 4) =~= digits);
    padding_keeps_value(decimal(n), 8);
    decimal_reads_back(n);
    decimal_is_digits(n);
}

/// What recording a piece of audio does: its samples go behind those that wait, silence
/// as a fiftieth of a second of zeros, and as soon as a minute or more waits, all of it
/// makes the next file.
pub proof fn audio_is_recorded_as_it_is(start: SpeakerView, audio: AudioView)
    ensures
        ({
            let new = start.with(audio).skip(start.buffer.len() as int);
            let then = start.after(audio);
            let full = start.with(audio).len() >= 60 * 48_000;
            &&& start.with(audio).take(start.buffer.len() as int) == start.buffer
            &&& audio matches AudioView::Packets(samples) ==> new == samples
            &&& audio is Silence ==> new.len() == 960 && forall|i: int|
                0 <= i < new.len() ==> #[trigger] new[i] == 0
            &&& start.fills(audio) <==> full
            &&& then.base == start.base
            &&& full ==> then.buffer.len() == 0 && then.sequence == start.sequence + 1
            &&& !full ==> then.buffer == start.with(audio) && then.sequence == start.sequence
        }),
{
    let n = start.buffer.len() as int;
    assert(start.with(audio).take(n) =~= start.buffer);
    assert(start.with(audio).skip(n) =~= samples_of(audio));
}

/// What several pieces of audio hold grows by the samples of each piece.
pub proof fn recorded_samples_add_up(audios: Seq<AudioView>, samples: Seq<i16>)
    ensures
        all_samples(Seq::empty()).len() == 0,
        all_samples(audios.push(AudioView::Packets(samples))) == all_samples(audios) + samples,
        ({
            let quiet = all_samples(audios.push(AudioView::Silence));
            let n = all_samples(audios).len();
            &&& quiet.len() == n + 960
            &&& quiet.take(n as int) == all_samples(audios)
            &&& forall|i: int| n <= i < quiet.len() ==> #[trigger] quiet[i] == 0
        }),
{
    assert(audios.push(AudioView::Packets(samples)).drop_last() =~= audios);
    assert(audios.push(AudioView::Silence).drop_last() =~= audios);
    assert(all_samples(audios.push(AudioView::Silence)).take(all_samples(audios).len() as int)
        =~= all_samples(audios));
}

/// The names of the numbered files: the decimal, with zeros in front of it up to eight
/// digits, and the ending of a wave file.
pub proof fn files_are_named_by_their_number(n: nat)
    ensures
        ({
            let name = chunk_name(n);
            let digits = decimal(n);
            let len = name.len() - 4;
            &&& len == if digits.len() < 8 {
                8
            } else {
                digits.len()
            }
            &&& name.skip(len) == ".wav"@
            &&& name.subrange(len - digits.len(), len) == digits
            &&& forall|i: int| 0 <= i < len - digits.len() ==> #[trigger] name[i] == '0'
        }),
{
    reveal_strlit(".wav");
    let name = chunk_name(n);
    let digits = decimal(n);
    let len = name.len() - 4;
    assert(name.skip(len) =~= ".wav"@);
    assert(name.subrange(len - digits.len(), len) =~= digits);
}

/// What a recorded file says of its samples: one channel of uncompressed samples in
/// sixteen bits, 48000 in a second, and how many bytes they take.
pub proof fn recorded_files_say_what_they_hold(samples: Seq<i16>)
    requires
        36 + 2 * samples.len() <= u32::MAX,
    ensures
        ({
            let b = chunk_bytes(samples);
            &&& b[20] + 256 * b[21] == 1
            &&& b[22] + 256 * b[23] == 1
            &&& b[24] + 256 * b[25] + 65536 * b[26] + 16777216 * b[27] == 48_000
            &&& b[28] + 256 * b[29] + 65536 * b[30] + 16777216 * b[31] == 96_000
            &&& b[32] + 256 * b[33] == 2
            &&& b[34] + 256 * b[35] == 16
            &&& b[4] + 256 * b[5] + 65536 * b[6] + 16777216 * b[7] == 36 + 2 * samples.len()
            &&& b[40] + 256 * b[41] + 65536 * b[42] + 16777216 * b[43] == 2 * samples.len()
        }),
{
    let b = chunk_bytes(samples);
    let head = wave_head(WAV_FORMAT_PCM, N_CHANNELS, SAMPLERATE as u32, SAMPLE_BITS, samples.len());
    heads_are_laid_out(WAV_FORMAT_PCM, N_CHANNELS, SAMPLERATE as u32, SAMPLE_BITS, samples.len());
    assert(forall|i: int| 0 <= i < 44 ==> #[trigger] b[i] == head[i]);
    lemma_short_field(head, 20, 1);
    lemma_short_field(head, 22, 1);
    lemma_long_field(head, 24, 48_000);
    assert((SAMPLE_BITS / 8) * N_CHANNELS == 2);
    assert(((SAMPLE_BITS / 8) * N_CHANNELS) * (SAMPLERATE as u32) == 96_000) by (nonlinear_arith)
        requires
            (SAMPLE_BITS / 8) * N_CHANNELS == 2,
            SAMPLERATE as u32 == 48_000,
    ;
    lemma_long_field(head, 28, 96_000);
    lemma_short_field(head, 32, 2);
    lemma_short_field(head, 34, 16);
    lemma_long_field(head, 4, 36 + 2 * samples.len() as int);
    lemma_long_field(head, 40, 2 * samples.len() as int);
}

/// A field of two bytes reads back.
proof fn lemma_short_field(bytes: Seq<u8>, at: int, x: int)
    requires
        0 <= at && at + 2 <= bytes.len(),
        0 <= x < 65536,
        bytes.subrange(at, at + 2) == le16(x),
    ensures
        bytes[at] + 256 * bytes[at + 1] == x,
{
    numbers_read_back(x);
    assert(bytes.subrange(at, at + 2)[0] == bytes[at]);
    assert(bytes.subrange(at, at + 2)[1] == bytes[at + 1]);
}

/// A field of four bytes reads back.
proof fn lemma_long_field(bytes: Seq<u8>, at: int, x: int)
    requires
        0 <= at && at + 4 <= bytes.len(),
        0 <= x < 0x1_0000_0000,
        bytes.subrange(at, at + 4) == le32(x),
    ensures
        bytes[at] + 256 * bytes[at + 1] + 65536 * bytes[at + 2] + 16777216 * bytes[at + 3] == x,
{
    numbers_read_back(x);
    assert(bytes.subrange(at, at + 4)[0] == bytes[at]);
    assert(bytes.subrange(at, at + 4)[1] == bytes[at + 1]);
    assert(bytes.subrange(at, at + 4)[2] == bytes[at + 2]);
    assert(bytes.subrange(at, at + 4)[3] == bytes[at + 3]);
}

/// A file can be written exactly if its length can be counted in 32 bits.
pub proof fn files_fit_by_their_length(len: nat)
    ensures
        fits_wave(len) <==> 36 + 2 * len < 0x1_0000_0000,
{
}

/// A line of the list names its file between quotes.
pub proof fn list_lines_name_their_file(path: Seq<char>)
    ensures
        list_line(path) == seq!['f', 'i', 'l', 'e', ' ', '\''] + path + seq!['\''],
{
    reveal_strlit("file '");
    reveal_strlit("'");
    assert("file '"@ =~= seq!['f', 'i', 'l', 'e', ' ', '\'']);
    assert("'"@ =~= seq!['\'']);
}

} // verus!
