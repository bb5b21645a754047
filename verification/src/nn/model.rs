//! How the guesses of the speech model become text: which tokens it may give and
//! when it is done, when a guess is tried again, and which stretches of audio are
//! listened to.

use crate::ieee::{is_last_greatest, last_greatest, last_greatest_is_unique, nothing_is_above_the_greatest, Double};
use crate::nn::tokens::{decoder_of, english_token, read_text, text_of, vocabulary, SpecialTokens, TokenNames};
use tokenizers::Tokenizer;
use vstd::prelude::*;

verus! {

/// What the model made of a stretch of audio.
#[derive(Clone, Debug)]
pub struct DecodingResult {
    pub tokens: Vec<u32>,
    pub text: String,
    pub avg_logprob: Double,
    pub no_speech_prob: Double,
    pub temperature: Double,
    pub compression_ratio: Double,
}

/// A stretch of audio with speech in it. Its start and duration are counted in
/// samples at the rate of the model.
#[derive(Clone, Debug)]
pub struct Segment {
    pub start: usize,
    pub duration: usize,
    pub dr: DecodingResult,
}

/// The limits by which a result is judged.
#[derive(Clone, Copy, Debug, PartialEq, Eq, Structural)]
pub struct Thresholds {
    pub compression_ratio: Double,
    pub logprob: Double,
    pub no_speech: Double,
}

impl DecodingResult {
    /// Whether the text repeats itself too much, or is too unlikely.
    pub open spec fn is_poor(self, limits: Thresholds) -> bool {
        self.compression_ratio.exceeds(limits.compression_ratio) || limits.logprob.exceeds(
            self.avg_logprob,
        )
    }

    /// Whether a result is taken before the last temperature was tried: it is not
    /// poor, or it is likely that nothing was said.
    pub open spec fn is_settled(self, limits: Thresholds) -> bool {
        !self.is_poor(limits) || self.no_speech_prob.exceeds(limits.no_speech)
    }

    /// Whether nothing was said.
    pub open spec fn is_silent(self, limits: Thresholds) -> bool {
        self.no_speech_prob.exceeds(limits.no_speech) && limits.logprob.exceeds(self.avg_logprob)
    }
}

/// Trying a stretch of audio at one temperature after the other.
pub struct Fallback {
    attempt: usize,
    temperatures: usize,
}

/// What follows an attempt.
#[derive(Debug)]
pub enum FallbackStep<E> {
    /// Try the next temperature.
    Retry,
    /// Take the result, or the failure.
    Done(Result<DecodingResult, E>),
}

/// Which attempt is made, and how many there are.
pub struct FallbackView {
    pub attempt: nat,
    pub temperatures: nat,
}

impl FallbackView {
    /// There is a temperature for the attempt.
    pub open spec fn wf(self) -> bool {
        self.attempt < self.temperatures
    }

    /// Whether an attempt that gave `result` ends the search: the last one does,
    /// whatever it gave.
    pub open spec fn ends<E>(self, result: Result<DecodingResult, E>, limits: Thresholds) -> bool {
        self.attempt == self.temperatures - 1 || settles(result, limits)
    }

    /// The next attempt.
    pub open spec fn next(self) -> FallbackView {
        FallbackView { attempt: self.attempt + 1, ..self }
    }

    /// The attempt that ends the search, where the attempts give `results`.
    pub open spec fn taken<E>(self, results: Seq<Result<DecodingResult, E>>, limits: Thresholds) -> nat
        decreases self.temperatures - self.attempt,
    {
        if !self.wf() || self.ends(results[self.attempt as int], limits) {
            self.attempt
        } else {
            self.next().taken(results, limits)
        }
    }
}

impl View for Fallback {
    type V = FallbackView;

    closed spec fn view(&self) -> FallbackView {
        FallbackView { attempt: self.attempt as nat, temperatures: self.temperatures as nat }
    }
}

/// Whether an attempt ended the search before the last temperature.
pub open spec fn settles<E>(result: Result<DecodingResult, E>, limits: Thresholds) -> bool {
    match result {
        Ok(dr) => dr.is_settled(limits),
        Err(_) => false,
    }
}

impl Fallback {
    /// The first of several attempts.
    pub fn new(temperatures: usize) -> (r: Fallback)
        requires
            temperatures > 0,
        ensures
            r@.wf(),
            r@ == (FallbackView { attempt: 0, temperatures: temperatures as nat }),
    {
        Fallback { attempt: 0, temperatures }
    }

    /// The number of the temperature to try.
    pub fn attempt(&self) -> (r: usize)
        ensures
            r == self@.attempt,
    {
        self.attempt
    }

    /// Takes in what an attempt gave.
    pub fn decode_with_fallback<E>(
        &mut self,
        result: Result<DecodingResult, E>,
        limits: &Thresholds,
    ) -> (r: FallbackStep<E>)
        requires
            old(self)@.wf(),
        ensures
            final(self)@.wf(),
            if old(self)@.ends(result, *limits) {
                r == FallbackStep::Done(result) && final(self)@ == old(self)@
            } else {
                r is Retry && final(self)@ == old(self)@.next()
            },
            r is Retry <==> old(self)@.attempt + 1 < old(self)@.temperatures && (result matches Ok(dr)
                ==> !dr.no_speech_prob.exceeds(limits.no_speech) && (limits.logprob.exceeds(
                dr.avg_logprob,
            ) || dr.compression_ratio.exceeds(limits.compression_ratio))),
            r matches FallbackStep::Done(taken) ==> taken == result,
            final(self)@.temperatures == old(self)@.temperatures,
            final(self)@.attempt == old(self)@.attempt + if r is Retry {
                1int
            } else {
                0
            },
    {
        if self.attempt == self.temperatures - 1 {
            return FallbackStep::Done(result);
        }
        match result {
            Ok(dr) => {
                let needs_fallback = dr.compression_ratio.gt(&limits.compression_ratio)
                    || limits.logprob.gt(&dr.avg_logprob);
                if !needs_fallback || dr.no_speech_prob.gt(&limits.no_speech) {
                    return FallbackStep::Done(Ok(dr));
                }
            },
            Err(_) => {},
        }
        self.attempt = self.attempt + 1;
        FallbackStep::Retry
    }
}

/// The search ends at the first attempt that settles it, and at the last
/// temperature where none does.
pub proof fn fallback_takes_the_first_good_attempt<E>(
    from: FallbackView,
    results: Seq<Result<DecodingResult, E>>,
    limits: Thresholds,
)
    requires
        from.wf(),
        results.len() == from.temperatures,
    ensures
        ({
            let taken = from.taken(results, limits);
            &&& from.attempt <= taken < from.temperatures
            &&& forall|i: int| from.attempt <= i < taken ==> !settles(#[trigger] results[i], limits)
            &&& settles(results[taken as int], limits) || taken == from.temperatures - 1
        }),
    decreases from.temperatures - from.attempt,
{
    if !from.ends(results[from.attempt as int], limits) {
        fallback_takes_the_first_good_attempt(from.next(), results, limits);
    }
}

/// What the decoder needs to know of the model.
#[derive(Clone, Debug)]
pub struct DecoderConfig {
    pub vocab_size: usize,
    pub suppress_tokens: Vec<u32>,
    pub max_target_positions: usize,
}

/// Which tokens the model may not give: the suppressed ones, and the one that turns
/// timestamps off. Tokens are numbered in 32 bits, and so is their count.
pub open spec fn suppressed(config: DecoderConfig, no_timestamps: u32) -> Seq<bool> {
    Seq::new(
        (config.vocab_size as u32) as nat,
        |i: int| config.suppress_tokens@.contains(i as u32) || i == no_timestamps,
    )
}

/// Turns the guesses of the model into text.
pub struct Decoder {
    pub tokens: SpecialTokens,
    pub language_token: Option<u32>,
    pub suppress_tokens: Vec<bool>,
    pub max_target_positions: usize,
}

/// Whether a token is on a list.
fn holds(list: &Vec<u32>, token: u32) -> (r: bool)
    ensures
        r == list@.contains(token),
{
    for i in 0..list.len()
        invariant
            forall|j: int| 0 <= j < i ==> list@[j] != token,
    {
        if list[i] == token {
            return true;
        }
    }
    false
}

/// The tokens with which every text begins.
pub open spec fn prompt(tokens: SpecialTokens, language_token: Option<u32>) -> Seq<u32> {
    let start = match language_token {
        Some(language) => seq![tokens.sot, language],
        None => seq![tokens.sot],
    };
    start.push(tokens.transcribe).push(tokens.no_timestamps)
}

impl Decoder {
    /// A decoder for a model and its tokenizer. There is none where the tokenizer
    /// lacks a token that steers the model.
    pub fn new(
        config: &DecoderConfig,
        tokenizer: &Tokenizer,
        names: &TokenNames,
        language_token: Option<u32>,
    ) -> (r: Option<Decoder>)
        ensures
            r is Some == names.known(vocabulary(*tokenizer)),
            r matches Some(decoder) ==> {
                &&& decoder.tokens == names.ids(vocabulary(*tokenizer))
                &&& decoder.language_token == language_token
                &&& decoder.suppress_tokens@ == suppressed(*config, decoder.tokens.no_timestamps)
                &&& decoder.max_target_positions == config.max_target_positions
            },
    {
        let tokens: SpecialTokens = match names.look_up(tokenizer) {
            Some(tokens) => tokens,
            None => return None,
        };
        Some(Decoder::with_tokens(config, tokens, language_token))
    }

    /// A decoder for a model whose steering tokens are known.
    pub fn with_tokens(
        config: &DecoderConfig,
        tokens: SpecialTokens,
        language_token: Option<u32>,
    ) -> (decoder: Decoder)
        ensures
            decoder.tokens == tokens,
            decoder.language_token == language_token,
            decoder.suppress_tokens@ == suppressed(*config, tokens.no_timestamps),
            decoder.max_target_positions == config.max_target_positions,
    {
        let mut suppress_tokens: Vec<bool> = Vec::new();
        let count: u32 = config.vocab_size as u32;
        for token in 0..count
            invariant
                count == config.vocab_size as u32,
                suppress_tokens@ == suppressed(*config, tokens.no_timestamps).take(token as int),
        {
            suppress_tokens.push(
                holds(&config.suppress_tokens, token) || token == tokens.no_timestamps,
            );
            assert(suppress_tokens@ =~= suppressed(*config, tokens.no_timestamps).take(token + 1));
        }
        assert(suppressed(*config, tokens.no_timestamps).take(count as int)
            =~= suppressed(*config, tokens.no_timestamps));
        Decoder {
            tokens,
            language_token,
            suppress_tokens,
            max_target_positions: config.max_target_positions,
        }
    }

    /// A decoder that expects English, where the tokenizer has a token for it.
    pub fn for_speaker(config: &DecoderConfig, tokenizer: &Tokenizer, names: &TokenNames) -> (r: Option<Decoder>)
        ensures
            r is Some == names.known(vocabulary(*tokenizer)),
            r matches Some(decoder) ==> {
                &&& decoder.tokens == names.ids(vocabulary(*tokenizer))
                &&& decoder.language_token == vocabulary(*tokenizer).get("<|en|>"@)
                &&& decoder.suppress_tokens@ == suppressed(*config, decoder.tokens.no_timestamps)
                &&& decoder.max_target_positions == config.max_target_positions
            },
    {
        let language_token: Option<u32> = english_token(tokenizer);
        Decoder::new(config, tokenizer, names, language_token)
    }

    /// The beginning of a text.
    pub fn decode(&self) -> (r: Decoding)
        ensures
            r@ == (DecodingView {
                prompt: prompt(self.tokens, self.language_token),
                given: Seq::empty(),
                eot: self.tokens.eot,
                sample_len: (self.max_target_positions / 2) as nat,
                max_tokens: self.max_target_positions as nat,
            }),
            r.valid(),
            r@.wf(),
    {
        let mut tokens: Vec<u32> = Vec::new();
        tokens.push(self.tokens.sot);
        match self.language_token {
            Some(language) => tokens.push(language),
            None => {},
        }
        tokens.push(self.tokens.transcribe);
        tokens.push(self.tokens.no_timestamps);
        assert(tokens@ =~= prompt(self.tokens, self.language_token));
        let prompt_len: usize = tokens.len();
        let r = Decoding {
            tokens,
            prompt_len,
            eot: self.tokens.eot,
            sample_len: self.max_target_positions / 2,
            max_tokens: self.max_target_positions,
        };
        assert(r@.prompt =~= prompt(self.tokens, self.language_token));
        assert(r@.given =~= Seq::empty());
        r
    }

    /// The transcription of audio with `content_frames` frames, of which nothing was
    /// listened to yet.
    pub fn run(&self, content_frames: usize, n_frames: usize, hop_length: usize) -> (r: Transcription)
        requires
            n_frames > 0,
            content_frames * hop_length <= usize::MAX,
        ensures
            r@.wf(),
            r@ == (TranscriptionView {
                content_frames: content_frames as nat,
                n_frames: n_frames as nat,
                hop_length: hop_length as nat,
                seek: 0,
                segments: Seq::empty(),
            }),
    {
        Transcription { content_frames, n_frames, hop_length, seek: 0, segments: Vec::new() }
    }
}

/// A text in the making: the tokens with which it begins and those that the model
/// gave.
pub struct Decoding {
    tokens: Vec<u32>,
    prompt_len: usize,
    eot: u32,
    sample_len: usize,
    max_tokens: usize,
}

/// A text in the making.
pub struct DecodingView {
    /// The tokens with which it begins.
    pub prompt: Seq<u32>,
    /// The tokens that the model gave.
    pub given: Seq<u32>,
    /// The token that ends it.
    pub eot: u32,
    /// How many tokens the model may give.
    pub sample_len: nat,
    /// How many tokens the text may have without ending.
    pub max_tokens: nat,
}

impl DecodingView {
    /// The text ends with the token `token`, if the model gives it next.
    pub open spec fn ends_with(self, given: nat, token: u32) -> bool {
        token == self.eot || self.prompt.len() + given + 1 > self.max_tokens
    }

    /// Whether the text has ended.
    pub open spec fn ended(self) -> bool {
        self.given.len() > 0 && self.ends_with((self.given.len() - 1) as nat, self.given.last())
    }

    /// Whether the model is to give another token.
    pub open spec fn goes_on(self) -> bool {
        self.given.len() < self.sample_len && !self.ended()
    }

    /// Only the last token may end the text, and the model gave no more tokens than
    /// it may.
    pub open spec fn wf(self) -> bool {
        &&& self.given.len() <= self.sample_len
        &&& forall|i: int|
            0 <= i < self.given.len() - 1 ==> !self.ends_with(i as nat, #[trigger] self.given[i])
    }

    /// All the tokens.
    pub open spec fn tokens(self) -> Seq<u32> {
        self.prompt + self.given
    }
}

impl View for Decoding {
    type V = DecodingView;

    closed spec fn view(&self) -> DecodingView {
        DecodingView {
            prompt: self.tokens@.take(self.prompt_len as int),
            given: self.tokens@.skip(self.prompt_len as int),
            eot: self.eot,
            sample_len: self.sample_len as nat,
            max_tokens: self.max_tokens as nat,
        }
    }
}

impl Decoding {
    /// The prompt is held, and the text is one that the model may give.
    pub closed spec fn valid(self) -> bool {
        self.prompt_len <= self.tokens@.len() && self@.wf()
    }

    /// All the tokens so far.
    pub fn tokens(&self) -> (r: &Vec<u32>)
        requires
            self.valid(),
        ensures
            r@ == self@.tokens(),
    {
        assert(self.tokens@ =~= self@.tokens());
        &self.tokens
    }

    /// Whether the model is to run once more on the tokens, and where it is, whether
    /// it has to forget what it ran on before.
    pub fn next_pass(&self) -> (r: Option<bool>)
        requires
            self.valid(),
        ensures
            r == if self@.goes_on() {
                Some(self@.given.len() == 0)
            } else {
                None
            },
            r is Some <==> self@.given.len() < self@.sample_len && (self@.given.len() > 0
                ==> self@.given.last() != self@.eot && self@.prompt.len() + self@.given.len()
                <= self@.max_tokens),
            r matches Some(flush) ==> (flush <==> self@.given.len() == 0),
    {
        let given: usize = self.tokens.len() - self.prompt_len;
        if given >= self.sample_len {
            return None;
        }
        if given > 0 && (self.tokens[self.tokens.len() - 1] == self.eot || self.tokens.len()
            > self.max_tokens) {
            return None;
        }
        Some(given == 0)
    }

    /// Whether the next token is drawn by chance: above the temperature zero it is,
    /// else the most likely one is taken.
    pub fn is_drawn(temperature: &Double) -> (r: bool)
        ensures
            r == temperature.exceeds(Double { bits: 0 }),
    {
        temperature.gt(&Double { bits: 0 })
    }

    /// The token that the model finds most likely, where it finds any: the position
    /// of its greatest score, in 32 bits, and the last one of several that are
    /// equally great.
    pub fn most_likely(scores: &Vec<u32>) -> (r: Option<u32>)
        ensures
            match r {
                Some(token) => is_most_likely(scores@, token),
                None => scores@.len() == 0,
            },
    {
        match last_greatest(scores) {
            Some(k) => Some(k as u32),
            None => None,
        }
    }

    /// Takes in the token that the model gave. The result says whether the text goes
    /// on, and so whether the token counts towards how likely the text is.
    pub fn take(&mut self, next_token: u32) -> (r: bool)
        requires
            old(self).valid(),
            old(self)@.goes_on(),
        ensures
            final(self).valid(),
            final(self)@.wf(),
            final(self)@ == (DecodingView {
                given: old(self)@.given.push(next_token),
                ..old(self)@
            }),
            r == !final(self)@.ended(),
            r <==> next_token != old(self)@.eot && old(self)@.prompt.len() + old(self)@.given.len() + 1
                <= old(self)@.max_tokens,
    {
        self.tokens.push(next_token);
        assert(self@.prompt =~= old(self)@.prompt);
        assert(self@.given =~= old(self)@.given.push(next_token));
        assert forall|i: int| 0 <= i < self@.given.len() - 1 implies !self@.ends_with(
            i as nat,
            #[trigger] self@.given[i],
        ) by {
            if i < old(self)@.given.len() - 1 {
                assert(!old(self)@.ends_with(i as nat, old(self)@.given[i]));
            }
        }
        !(next_token == self.eot || self.tokens.len() > self.max_tokens)
    }

    /// What the model made of a stretch of audio, where its tokens stand for `text`.
    /// How much the text repeats itself is not known, which no number says.
    pub fn result(
        &self,
        text: String,
        avg_logprob: Double,
        no_speech_prob: Double,
        temperature: Double,
    ) -> (r: DecodingResult)
        requires
            self.valid(),
        ensures
            r.tokens@ == self@.tokens(),
            r.text@ == text@,
            r.avg_logprob == avg_logprob,
            r.no_speech_prob == no_speech_prob,
            r.temperature == temperature,
            r.compression_ratio == unknown_ratio(),
            r.compression_ratio.is_nan(),
    {
        let tokens: Vec<u32> = self.tokens().clone();
        assert(tokens@ =~= self@.tokens());
        DecodingResult {
            tokens,
            text,
            avg_logprob,
            no_speech_prob,
            temperature,
            compression_ratio: Double { bits: 0x7ff8_0000_0000_0000 },
        }
    }

    /// What the model made of a stretch of audio, with the text that the tokenizer
    /// makes of its tokens. There is none where the tokenizer has a decoder that may
    /// fail.
    pub fn finish(
        &self,
        tokenizer: &Tokenizer,
        avg_logprob: Double,
        no_speech_prob: Double,
        temperature: Double,
    ) -> (r: Option<DecodingResult>)
        requires
            self.valid(),
        ensures
            r is Some == decoder_of(*tokenizer).is_total(),
            r matches Some(dr) ==> {
                &&& dr.tokens@ == self@.tokens()
                &&& dr.text@ == text_of(*tokenizer, self@.tokens(), true)
                &&& dr.avg_logprob == avg_logprob
                &&& dr.no_speech_prob == no_speech_prob
                &&& dr.temperature == temperature
                &&& dr.compression_ratio == unknown_ratio()
                &&& dr.compression_ratio.is_nan()
            },
    {
        match read_text(tokenizer, self.tokens()) {
            Some(text) => Some(self.result(text, avg_logprob, no_speech_prob, temperature)),
            None => None,
        }
    }
}

/// Whether a token is the most likely one by the scores of a step.
pub open spec fn is_most_likely(scores: Seq<u32>, token: u32) -> bool {
    exists|k: int| #[trigger] is_last_greatest(scores, k) && token == k as u32
}

/// Whether every token that the model gave was the most likely one of its step, where
/// `scores` are the scores that the model gives after some tokens.
pub open spec fn is_greedy(text: DecodingView, scores: spec_fn(Seq<u32>) -> Seq<u32>) -> bool {
    forall|i: int|
        0 <= i < text.given.len() ==> is_most_likely(
            scores(text.prompt + text.given.take(i)),
            #[trigger] text.given[i],
        )
}

/// Taking the most likely token of every step makes a text greedy: it is so before the
/// first token, and stays so with each one.
pub proof fn most_likely_tokens_make_a_greedy_text(
    text: DecodingView,
    token: u32,
    scores: spec_fn(Seq<u32>) -> Seq<u32>,
)
    ensures
        text.given.len() == 0 ==> is_greedy(text, scores),
        is_greedy(text, scores) && is_most_likely(scores(text.tokens()), token) ==> is_greedy(
            DecodingView { given: text.given.push(token), ..text },
            scores,
        ),
{
    let more = DecodingView { given: text.given.push(token), ..text };
    if is_greedy(text, scores) && is_most_likely(scores(text.tokens()), token) {
        assert forall|i: int| 0 <= i < more.given.len() implies is_most_likely(
            scores(more.prompt + more.given.take(i)),
            #[trigger] more.given[i],
        ) by {
            if i < text.given.len() {
                assert(more.given.take(i) =~= text.given.take(i));
                assert(is_most_likely(scores(text.prompt + text.given.take(i)), text.given[i]));
            } else {
                assert(more.given.take(i) =~= text.given);
            }
        }
    }
}

/// Decoding again without chance gives the same text: two finished texts with one
/// beginning and the same limits, in which every token was the most likely one by the
/// same scores, have the same tokens, and so stand for the same words.
pub proof fn greedy_texts_come_again(
    a: DecodingView,
    b: DecodingView,
    scores: spec_fn(Seq<u32>) -> Seq<u32>,
    tokenizer: Tokenizer,
)
    requires
        a.wf(),
        b.wf(),
        !a.goes_on(),
        !b.goes_on(),
        is_greedy(a, scores),
        is_greedy(b, scores),
        a.prompt == b.prompt,
        a.eot == b.eot,
        a.sample_len == b.sample_len,
        a.max_tokens == b.max_tokens,
    ensures
        a.given == b.given,
        a.tokens() == b.tokens(),
        text_of(tokenizer, a.tokens(), true) == text_of(tokenizer, b.tokens(), true),
{
    let shared = if a.given.len() < b.given.len() {
        a.given.len()
    } else {
        b.given.len()
    };
    lemma_greedy_prefix(a, b, scores, shared);
    if a.given.len() <= b.given.len() {
        lemma_finished_whole(a, b);
    } else {
        lemma_finished_whole(b, a);
    }
    assert(a.given =~= a.given.take(shared as int));
    assert(b.given =~= b.given.take(shared as int));
}

/// Two greedy texts with one beginning agree as far as both go.
proof fn lemma_greedy_prefix(
    a: DecodingView,
    b: DecodingView,
    scores: spec_fn(Seq<u32>) -> Seq<u32>,
    n: nat,
)
    requires
        is_greedy(a, scores),
        is_greedy(b, scores),
        a.prompt == b.prompt,
        n <= a.given.len(),
        n <= b.given.len(),
    ensures
        a.given.take(n as int) == b.given.take(n as int),
    decreases n,
{
    if n > 0 {
        let i = n - 1;
        lemma_greedy_prefix(a, b, scores, i as nat);
        let s = scores(a.prompt + a.given.take(i));
        assert(is_most_likely(s, a.given[i]));
        assert(is_most_likely(s, b.given[i]));
        let j = choose|k: int| #[trigger] is_last_greatest(s, k) && a.given[i] == k as u32;
        let k = choose|k: int| #[trigger] is_last_greatest(s, k) && b.given[i] == k as u32;
        last_greatest_is_unique(s, j, k);
        assert(a.given.take(n as int) =~= a.given.take(i).push(a.given[i]));
        assert(b.given.take(n as int) =~= b.given.take(i).push(b.given[i]));
    }
}

/// A finished text that begins another one is the whole of it.
proof fn lemma_finished_whole(a: DecodingView, b: DecodingView)
    requires
        b.wf(),
        !a.goes_on(),
        a.given.len() <= b.given.len(),
        a.given.take(a.given.len() as int) == b.given.take(a.given.len() as int),
        a.prompt == b.prompt,
        a.eot == b.eot,
        a.sample_len == b.sample_len,
        a.max_tokens == b.max_tokens,
    ensures
        a.given.len() == b.given.len(),
{
    if a.given.len() < b.given.len() {
        let n = a.given.len() as int;
        assert(a.ended());
        assert(a.given.take(n)[n - 1] == b.given.take(n)[n - 1]);
        assert(!b.ends_with((n - 1) as nat, b.given[n - 1]));
    }
}

/// The pattern that stands for a ratio that is not known.
pub open spec fn unknown_ratio() -> Double {
    Double { bits: 0x7ff8_0000_0000_0000 }
}

/// A result whose ratio is not known is poor exactly if it is too unlikely, and so is
/// taken unless it is too unlikely and something was likely said.
pub proof fn unknown_ratios_do_not_count(dr: DecodingResult, limits: Thresholds)
    requires
        dr.compression_ratio == unknown_ratio(),
    ensures
        dr.is_poor(limits) == limits.logprob.exceeds(dr.avg_logprob),
        !dr.is_settled(limits) <==> limits.logprob.exceeds(dr.avg_logprob)
            && !dr.no_speech_prob.exceeds(limits.no_speech),
{
}

/// A text always begins with its prompt, never has more tokens than the prompt and
/// the model may give, and has the ending token among the model's tokens at most as
/// the last one.
pub proof fn texts_are_bounded(text: DecodingView)
    requires
        text.wf(),
    ensures
        text.tokens().take(text.prompt.len() as int) == text.prompt,
        text.tokens().len() <= text.prompt.len() + text.sample_len,
        forall|i: int| 0 <= i < text.given.len() - 1 ==> text.given[i] != text.eot,
{
    assert(text.tokens().take(text.prompt.len() as int) =~= text.prompt);
    assert forall|i: int| 0 <= i < text.given.len() - 1 implies text.given[i] != text.eot by {
        assert(!text.ends_with(i as nat, text.given[i]));
    }
}

/// Listening to audio one stretch after the other.
pub struct Transcription {
    content_frames: usize,
    n_frames: usize,
    hop_length: usize,
    seek: usize,
    segments: Vec<Segment>,
}

/// How far the listening has come, and what was said.
pub struct TranscriptionView {
    pub content_frames: nat,
    pub n_frames: nat,
    pub hop_length: nat,
    pub seek: nat,
    pub segments: Seq<Segment>,
}

impl TranscriptionView {
    /// The frames that are listened to next: a full stretch, or what is left.
    pub open spec fn segment_size(self) -> nat {
        if self.content_frames - self.seek < self.n_frames {
            (self.content_frames - self.seek) as nat
        } else {
            self.n_frames
        }
    }

    /// Segments follow one another and do not go past what was listened to.
    pub open spec fn wf(self) -> bool {
        &&& self.n_frames > 0
        &&& self.seek <= self.content_frames
        &&& self.content_frames * self.hop_length <= usize::MAX
        &&& forall|i: int, j: int|
            0 <= i < j < self.segments.len() ==> (#[trigger] self.segments[i]).start
                + self.segments[i].duration <= (#[trigger] self.segments[j]).start
        &&& forall|i: int|
            0 <= i < self.segments.len() ==> (#[trigger] self.segments[i]).start
                + self.segments[i].duration <= self.seek * self.hop_length
    }

    /// The transcription after the model made `dr` of the next stretch: it becomes a
    /// segment, unless nothing was said.
    pub open spec fn after(self, dr: DecodingResult, limits: Thresholds) -> TranscriptionView {
        TranscriptionView {
            seek: self.seek + self.segment_size(),
            segments: if dr.is_silent(limits) {
                self.segments
            } else {
                self.segments.push(
                    Segment {
                        start: (self.seek * self.hop_length) as usize,
                        duration: (self.segment_size() * self.hop_length) as usize,
                        dr,
                    },
                )
            },
            ..self
        }
    }
}

impl View for Transcription {
    type V = TranscriptionView;

    closed spec fn view(&self) -> TranscriptionView {
        TranscriptionView {
            content_frames: self.content_frames as nat,
            n_frames: self.n_frames as nat,
            hop_length: self.hop_length as nat,
            seek: self.seek as nat,
            segments: self.segments@,
        }
    }
}

impl Transcription {
    /// The first frame and the number of frames of the next stretch, where there is
    /// one.
    pub fn next_stretch(&self) -> (r: Option<(usize, usize)>)
        requires
            self@.wf(),
        ensures
            match r {
                Some((seek, size)) => {
                    &&& self@.seek < self@.content_frames
                    &&& seek == self@.seek
                    &&& size == self@.segment_size()
                    &&& 0 < size <= self@.n_frames
                    &&& seek + size <= self@.content_frames
                    &&& size < self@.n_frames ==> seek + size == self@.content_frames
                },
                None => self@.seek == self@.content_frames,
            },
    {
        if self.seek < self.content_frames {
            Some((self.seek, self.size_of_next()))
        } else {
            None
        }
    }

    /// The number of frames of the next stretch.
    fn size_of_next(&self) -> (r: usize)
        requires
            self@.wf(),
        ensures
            r == self@.segment_size(),
    {
        let left: usize = self.content_frames - self.seek;
        if left < self.n_frames {
            left
        } else {
            self.n_frames
        }
    }

    /// Takes in what the model made of the next stretch.
    pub fn decoded(&mut self, dr: DecodingResult, limits: &Thresholds)
        requires
            old(self)@.wf(),
            old(self)@.seek < old(self)@.content_frames,
        ensures
            final(self)@.wf(),
            final(self)@ == old(self)@.after(dr, *limits),
            dr.no_speech_prob.exceeds(limits.no_speech) && limits.logprob.exceeds(dr.avg_logprob)
                ==> final(self)@.segments == old(self)@.segments,
            !(dr.no_speech_prob.exceeds(limits.no_speech) && limits.logprob.exceeds(dr.avg_logprob))
                ==> {
                &&& final(self)@.segments.len() == old(self)@.segments.len() + 1
                &&& final(self)@.segments.drop_last() == old(self)@.segments
                &&& final(self)@.segments.last().dr == dr
                &&& final(self)@.segments.last().start == old(self)@.seek * old(self)@.hop_length
                &&& final(self)@.segments.last().duration == (final(self)@.seek - old(self)@.seek)
                    * old(self)@.hop_length
            },
    {
        let ghost before = self@;
        let segment_size: usize = self.size_of_next();
        let hop: usize = self.hop_length;
        proof {
            assert(self.seek * hop + segment_size * hop == (self.seek + segment_size) * hop)
                by (nonlinear_arith);
            assert((self.seek + segment_size) * hop <= self.content_frames * hop)
                by (nonlinear_arith)
                requires
                    self.seek + segment_size <= self.content_frames,
            ;
            assert(0 <= self.seek * hop && 0 <= segment_size * hop) by (nonlinear_arith);
        }
        let start: usize = self.seek * hop;
        let duration: usize = segment_size * hop;
        self.seek = self.seek + segment_size;
        assert(before.seek * before.hop_length + duration == self@.seek * self@.hop_length);
        if dr.no_speech_prob.gt(&limits.no_speech) && limits.logprob.gt(&dr.avg_logprob) {
            assert(self@.segments == before.segments);
            return;
        }
        self.segments.push(Segment { start, duration, dr });
        proof {
            let now = self@;
            assert forall|i: int, j: int| 0 <= i < j < now.segments.len() implies (
            #[trigger] now.segments[i]).start + now.segments[i].duration <= (
            #[trigger] now.segments[j]).start by {
                assert(now.segments[i] == before.segments[i]);
                if j < before.segments.len() {
                    assert(now.segments[j] == before.segments[j]);
                }
            }
            assert forall|i: int| 0 <= i < now.segments.len() implies (
            #[trigger] now.segments[i]).start + now.segments[i].duration <= now.seek
                * now.hop_length by {
                if i < before.segments.len() {
                    assert(now.segments[i] == before.segments[i]);
                }
            }
        }
    }

    /// What was said.
    pub fn segments(self) -> (r: Vec<Segment>)
        ensures
            r@ == self@.segments,
    {
        self.segments
    }
}

/// The transcription after the model made something of several stretches.
pub open spec fn listened(start: TranscriptionView, results: Seq<DecodingResult>, limits: Thresholds) -> TranscriptionView
    decreases results.len(),
{
    if results.len() == 0 {
        start
    } else {
        listened(start, results.drop_last(), limits).after(results.last(), limits)
    }
}

/// Every frame is listened to once: stretch number `k` begins where `k` full
/// stretches end, and no stretch is left exactly when that is past the last frame.
pub proof fn stretches_cover_the_audio(
    start: TranscriptionView,
    results: Seq<DecodingResult>,
    limits: Thresholds,
)
    requires
        start.n_frames > 0,
        start.seek == 0,
    ensures
        ({
            let end = listened(start, results, limits);
            let frames = results.len() * start.n_frames;
            &&& end.content_frames == start.content_frames
            &&& end.n_frames == start.n_frames
            &&& end.seek == if frames < start.content_frames {
                frames
            } else {
                start.content_frames
            }
            &&& end.segments.len() <= start.segments.len() + results.len()
        }),
    decreases results.len(),
{
    if results.len() == 0 {
        assert(0 * start.n_frames == 0) by (nonlinear_arith);
    } else {
        stretches_cover_the_audio(start, results.drop_last(), limits);
        let n = results.len();
        assert(n * start.n_frames == (n - 1) * start.n_frames + start.n_frames) by (nonlinear_arith)
            requires
                n > 0,
        ;
    }
}

/// Which results an attempt may have without ending the search, told by the numbers of
/// the results: the attempts before the one that is taken failed, or gave a text that is
/// too unlikely or repeats itself too much while something was likely said. The one
/// that is taken is not of that kind, unless it is the last.
pub proof fn attempts_are_judged_by_their_numbers<E>(
    from: FallbackView,
    results: Seq<Result<DecodingResult, E>>,
    limits: Thresholds,
)
    requires
        from.attempt < from.temperatures,
        results.len() == from.temperatures,
    ensures
        ({
            let taken = from.taken(results, limits) as int;
            &&& from.attempt <= taken < from.temperatures
            &&& forall|i: int|
                from.attempt <= i < taken ==> (#[trigger] results[i] matches Ok(dr)
                    ==> !dr.no_speech_prob.exceeds(limits.no_speech) && (limits.logprob.exceeds(
                    dr.avg_logprob,
                ) || dr.compression_ratio.exceeds(limits.compression_ratio)))
            &&& taken < from.temperatures - 1 ==> (results[taken] matches Ok(dr) && (
            dr.no_speech_prob.exceeds(limits.no_speech) || !limits.logprob.exceeds(dr.avg_logprob)
                && !dr.compression_ratio.exceeds(limits.compression_ratio)))
        }),
    decreases from.temperatures - from.attempt,
{
    if !from.ends(results[from.attempt as int], limits) {
        attempts_are_judged_by_their_numbers(from.next(), results, limits);
    }
}

/// A result ends the search before the last temperature exactly if it is good enough by
/// its numbers; at the last temperature anything does.
pub proof fn good_results_end_the_search<E>(
    at: FallbackView,
    result: Result<DecodingResult, E>,
    limits: Thresholds,
)
    ensures
        at.ends(result, limits) <==> {
            ||| at.attempt + 1 == at.temperatures
            ||| result matches Ok(dr) && dr.no_speech_prob.exceeds(limits.no_speech)
            ||| result matches Ok(dr) && !limits.logprob.exceeds(dr.avg_logprob)
                && !dr.compression_ratio.exceeds(limits.compression_ratio)
        },
{
}

/// Neither the temperature nor the tokens nor the text of a result play a part in
/// whether it is taken or is left out as silence: two results with the same three numbers
/// fare alike.
pub proof fn only_the_numbers_of_a_result_count<E>(
    a: DecodingResult,
    b: DecodingResult,
    at: FallbackView,
    transcription: TranscriptionView,
    limits: Thresholds,
)
    requires
        a.avg_logprob == b.avg_logprob,
        a.no_speech_prob == b.no_speech_prob,
        a.compression_ratio == b.compression_ratio,
    ensures
        at.ends(Ok::<DecodingResult, E>(a), limits) <==> at.ends(
            Ok::<DecodingResult, E>(b),
            limits,
        ),
        transcription.after(a, limits).segments.len() == transcription.after(b, limits).segments.len(),
{
}

/// When a text goes on: the model gave fewer tokens than it may, and where it gave any,
/// the last one is not the ending one and the text has no more tokens than it may have.
/// Which tokens came before plays no part, nor whether one came twice.
pub proof fn texts_go_on_until_they_end(text: DecodingView)
    ensures
        text.goes_on() <==> {
            &&& text.given.len() < text.sample_len
            &&& text.given.len() > 0 ==> text.given.last() != text.eot
            &&& text.given.len() > 0 ==> text.prompt.len() + text.given.len() <= text.max_tokens
        },
        text.wf() <==> {
            &&& text.given.len() <= text.sample_len
            &&& forall|i: int|
                0 <= i < text.given.len() - 1 ==> #[trigger] text.given[i] != text.eot
                    && text.prompt.len() + i + 1 <= text.max_tokens
        },
{
    if text.wf() {
        assert forall|i: int| 0 <= i < text.given.len() - 1 implies #[trigger] text.given[i]
            != text.eot && text.prompt.len() + i + 1 <= text.max_tokens by {
            assert(!text.ends_with(i as nat, text.given[i]));
        }
    }
}

/// A text that the model gave tokens for is finished for one of three reasons: it ends
/// with the ending token, it has more tokens than it may have, or the model gave all
/// that it may.
pub proof fn finished_texts_have_a_reason(text: DecodingView)
    requires
        !text.goes_on(),
    ensures
        ({
            ||| text.given.len() > 0 && text.given.last() == text.eot
            ||| text.given.len() > 0 && text.prompt.len() + text.given.len() > text.max_tokens
            ||| text.given.len() >= text.sample_len
        }),
{
}

/// Any token but the ending one can follow any tokens, as long as there is room: the
/// text then goes on.
pub proof fn any_token_may_follow(text: DecodingView, token: u32)
    requires
        text.wf(),
        text.goes_on(),
        token != text.eot,
        text.given.len() + 1 < text.sample_len,
        text.prompt.len() + text.given.len() < text.max_tokens,
    ensures
        (DecodingView { given: text.given.push(token), ..text }).goes_on(),
        (DecodingView { given: text.given.push(token), ..text }).wf(),
{
    let more = DecodingView { given: text.given.push(token), ..text };
    texts_go_on_until_they_end(text);
    texts_go_on_until_they_end(more);
    assert forall|i: int| 0 <= i < more.given.len() - 1 implies #[trigger] more.given[i] != more.eot
        && more.prompt.len() + i + 1 <= more.max_tokens by {
        assert(more.given[i] == text.given[i]);
    }
}

/// A text is its prompt, and then what the model gave, in order.
pub proof fn texts_are_prompt_and_given(text: DecodingView)
    ensures
        text.tokens().len() == text.prompt.len() + text.given.len(),
        forall|i: int| 0 <= i < text.prompt.len() ==> #[trigger] text.tokens()[i] == text.prompt[i],
        forall|i: int|
            text.prompt.len() <= i < text.tokens().len() ==> #[trigger] text.tokens()[i]
                == text.given[i - text.prompt.len()],
{
}

/// The prompt of a text: where it starts, the language where there is one, that it is to
/// be written down, and that without timestamps.
pub proof fn prompts_steer_the_model(tokens: SpecialTokens, language: u32)
    ensures
        prompt(tokens, Some(language)) == seq![
            tokens.sot,
            language,
            tokens.transcribe,
            tokens.no_timestamps,
        ],
        prompt(tokens, None) == seq![tokens.sot, tokens.transcribe, tokens.no_timestamps],
{
    assert(prompt(tokens, Some(language)) =~= seq![
        tokens.sot,
        language,
        tokens.transcribe,
        tokens.no_timestamps,
    ]);
    assert(prompt(tokens, None) =~= seq![tokens.sot, tokens.transcribe, tokens.no_timestamps]);
}

/// A token of the vocabulary is suppressed exactly if it is on the model's list, or turns
/// timestamps off.
pub proof fn suppressed_tokens_are_listed(config: DecoderConfig, no_timestamps: u32, token: u32)
    requires
        config.vocab_size <= u32::MAX,
        token < config.vocab_size,
    ensures
        suppressed(config, no_timestamps).len() == config.vocab_size,
        suppressed(config, no_timestamps)[token as int] <==> token == no_timestamps || exists|i: int|
            0 <= i < config.suppress_tokens@.len() && #[trigger] config.suppress_tokens@[i] == token,
{
}

/// The most likely token, told by the bits of the scores: no score is above its score,
/// and no later one is the same.
pub proof fn most_likely_tokens_score_highest(scores: Seq<u32>, token: u32)
    requires
        scores.len() <= u32::MAX,
    ensures
        is_most_likely(scores, token) <==> {
            &&& token < scores.len()
            &&& forall|i: int|
                0 <= i < scores.len() ==> !(if #[trigger] scores[i] < 0x8000_0000 {
                    scores[token as int] >= 0x8000_0000 || scores[i] > scores[token as int]
                } else {
                    scores[token as int] >= 0x8000_0000 && scores[i] < scores[token as int]
                })
            &&& forall|i: int|
                token < i < scores.len() ==> #[trigger] scores[i] != scores[token as int]
        },
{
    if is_most_likely(scores, token) {
        let k = choose|k: int| #[trigger] is_last_greatest(scores, k) && token == k as u32;
        nothing_is_above_the_greatest(scores, k);
    }
    if token < scores.len() {
        nothing_is_above_the_greatest(scores, token as int);
        if is_last_greatest(scores, token as int) {
            assert(is_most_likely(scores, token));
        }
    }
}

/// Which stretches become segments, told by the results: all but those where it is
/// likely that nothing was said and the text is too unlikely, in order, each with its
/// result. What was said before stays.
pub proof fn segments_are_the_results_with_speech(
    start: TranscriptionView,
    results: Seq<DecodingResult>,
    limits: Thresholds,
)
    ensures
        ({
            let end = listened(start, results, limits);
            let new = end.segments.skip(start.segments.len() as int);
            let spoken = results.filter(
                |dr: DecodingResult|
                    !dr.no_speech_prob.exceeds(limits.no_speech) || !limits.logprob.exceeds(
                        dr.avg_logprob,
                    ),
            );
            &&& end.segments.len() == start.segments.len() + spoken.len()
            &&& end.segments.take(start.segments.len() as int) == start.segments
            &&& forall|i: int| 0 <= i < new.len() ==> (#[trigger] new[i]).dr == spoken[i]
        }),
    decreases results.len(),
{
    reveal(Seq::filter);
    let end = listened(start, results, limits);
    let n = start.segments.len() as int;
    if results.len() == 0 {
        assert(end.segments.take(n) =~= start.segments);
    } else {
        let before = listened(start, results.drop_last(), limits);
        segments_are_the_results_with_speech(start, results.drop_last(), limits);
        assert(end.segments.take(n) =~= before.segments.take(n));
        assert forall|i: int| 0 <= i < before.segments.len() - n implies #[trigger] end.segments.skip(
            n,
        )[i] == before.segments.skip(n)[i] by {}
    }
}

/// No stretch whose text is likely enough is lost, nor one with speech in it: it is a
/// segment, which holds its result and lies where the stretch lies.
pub proof fn likely_stretches_become_segments(
    start: TranscriptionView,
    results: Seq<DecodingResult>,
    limits: Thresholds,
    k: int,
)
    requires
        start.wf(),
        start.seek == 0,
        0 <= k < results.len(),
        k * start.n_frames < start.content_frames,
        !limits.logprob.exceeds(results[k].avg_logprob) || !results[k].no_speech_prob.exceeds(
            limits.no_speech,
        ),
    ensures
        exists|i: int|
            #![trigger listened(start, results, limits).segments[i]]
            {
                let segments = listened(start, results, limits).segments;
                let left = start.content_frames - k * start.n_frames;
                &&& 0 <= i < segments.len()
                &&& segments[i].dr == results[k]
                &&& segments[i].start == k * start.n_frames * start.hop_length
                &&& segments[i].duration == (if left < start.n_frames {
                    left
                } else {
                    start.n_frames as int
                }) * start.hop_length
            },
    decreases results.len(),
{
    let before = listened(start, results.drop_last(), limits);
    let end = listened(start, results, limits);
    if k < results.len() - 1 {
        likely_stretches_become_segments(start, results.drop_last(), limits, k);
        let left = start.content_frames - k * start.n_frames;
        let i = choose|i: int|
            {
                &&& 0 <= i < before.segments.len()
                &&& (#[trigger] before.segments[i]).dr == results.drop_last()[k]
                &&& before.segments[i].start == k * start.n_frames * start.hop_length
                &&& before.segments[i].duration == (if left < start.n_frames {
                    left
                } else {
                    start.n_frames as int
                }) * start.hop_length
            };
        assert(end.segments[i] == before.segments[i]);
    } else {
        stretches_cover_the_audio(start, results.drop_last(), limits);
        lemma_listening_keeps_the_hop(start, results.drop_last(), limits);
        let size = before.segment_size();
        assert(before.seek == k * start.n_frames);
        assert(before.seek + size <= start.content_frames);
        assert(before.seek * start.hop_length <= start.content_frames * start.hop_length && size
            * start.hop_length <= start.content_frames * start.hop_length && 0 <= before.seek
            * start.hop_length && 0 <= size * start.hop_length) by (nonlinear_arith)
            requires
                before.seek + size <= start.content_frames,
        ;
        let i = end.segments.len() - 1;
        assert(end.segments[i].dr == results[k]);
        assert(end.segments[i].start == before.seek * start.hop_length);
    }
}

/// Listening does not change how many samples a frame stands for.
proof fn lemma_listening_keeps_the_hop(
    start: TranscriptionView,
    results: Seq<DecodingResult>,
    limits: Thresholds,
)
    ensures
        listened(start, results, limits).hop_length == start.hop_length,
    decreases results.len(),
{
    if results.len() > 0 {
        lemma_listening_keeps_the_hop(start, results.drop_last(), limits);
    }
}

} // verus!
