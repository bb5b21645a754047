//! The tokens that steer the speech model, and the text that tokens stand for.

use tokenizers::{DecoderWrapper, Tokenizer};
use vstd::prelude::*;

verus! {

/// `tokenizers::Tokenizer`, whose inside stays hidden.
#[verifier::external_type_specification]
#[verifier::external_body]
pub struct ExTokenizer(Tokenizer);

/// The tokens that a tokenizer holds, with their ids: those that were added to it
/// and those of its model.
pub uninterp spec fn vocabulary(tokenizer: Tokenizer) -> Map<Seq<char>, u32>;

/// `Tokenizer::token_to_id`: the id of a token, where the tokenizer holds it.
#[verifier::external_body]
fn token_to_id(tokenizer: &Tokenizer, token: &str) -> (r: Option<u32>)
    ensures
        r == vocabulary(*tokenizer).get(token@),
{
    tokenizer.token_to_id(token)
}

/// How a tokenizer puts tokens together.
#[derive(Clone, Copy, Debug, PartialEq, Eq, Structural)]
pub enum DecoderKind {
    /// With blanks between them.
    Blanks,
    Bpe,
    ByteLevel,
    WordPiece,
    Metaspace,
    Ctc,
    Sequence,
    Replace,
    Fuse,
    Strip,
    ByteFallback,
}

impl DecoderKind {
    /// Whether any tokens can be put together in this way. The others may fail, or
    /// panic, on some tokens.
    pub open spec fn is_total(self) -> bool {
        match self {
            DecoderKind::Bpe | DecoderKind::Sequence | DecoderKind::Replace | DecoderKind::Strip => false,
            _ => true,
        }
    }
}

/// How a tokenizer puts tokens together.
pub uninterp spec fn decoder_of(tokenizer: Tokenizer) -> DecoderKind;

/// The text that a tokenizer makes of the tokens with these ids, with or without the
/// special ones.
pub uninterp spec fn text_of(tokenizer: Tokenizer, ids: Seq<u32>, skip_special: bool) -> Seq<char>;

/// `Tokenizer::get_decoder`: which decoder the tokenizer has. One without a decoder
/// puts blanks between tokens.
#[verifier::external_body]
fn get_decoder(tokenizer: &Tokenizer) -> (r: DecoderKind)
    ensures
        r == decoder_of(*tokenizer),
{
    match tokenizer.get_decoder() {
        None => DecoderKind::Blanks,
        Some(DecoderWrapper::BPE(_)) => DecoderKind::Bpe,
        Some(DecoderWrapper::ByteLevel(_)) => DecoderKind::ByteLevel,
        Some(DecoderWrapper::WordPiece(_)) => DecoderKind::WordPiece,
        Some(DecoderWrapper::Metaspace(_)) => DecoderKind::Metaspace,
        Some(DecoderWrapper::CTC(_)) => DecoderKind::Ctc,
        Some(DecoderWrapper::Sequence(_)) => DecoderKind::Sequence,
        Some(DecoderWrapper::Replace(_)) => DecoderKind::Replace,
        Some(DecoderWrapper::Fuse(_)) => DecoderKind::Fuse,
        Some(DecoderWrapper::Strip(_)) => DecoderKind::Strip,
        Some(DecoderWrapper::ByteFallback(_)) => DecoderKind::ByteFallback,
    }
}

/// `Tokenizer::decode`: the text of tokens. With a decoder that can put any tokens
/// together it does not fail; the other decoders are left out.
#[verifier::external_body]
fn decode(tokenizer: &Tokenizer, ids: &Vec<u32>, skip_special: bool) -> (r: Option<String>)
    requires
        decoder_of(*tokenizer).is_total(),
    ensures
        r is Some,
        r->0@ == text_of(*tokenizer, ids@, skip_special),
{
    tokenizer.decode(ids, skip_special).ok()
}

/// The text of tokens, without the special ones. There is none where the tokenizer
/// has a decoder that may fail.
pub fn read_text(tokenizer: &Tokenizer, ids: &Vec<u32>) -> (r: Option<String>)
    ensures
        r is Some == decoder_of(*tokenizer).is_total(),
        r matches Some(text) ==> text@ == text_of(*tokenizer, ids@, true),
{
    match get_decoder(tokenizer) {
        DecoderKind::Bpe | DecoderKind::Sequence | DecoderKind::Replace | DecoderKind::Strip => None,
        _ => decode(tokenizer, ids, true),
    }
}

/// The names of the tokens that steer the model.
#[derive(Clone, Debug)]
pub struct TokenNames {
    pub sot: String,
    pub transcribe: String,
    pub translate: String,
    pub eot: String,
    pub no_speech: String,
    pub no_timestamps: String,
}

/// The ids of the tokens that steer the model.
#[derive(Clone, Copy, Debug, PartialEq, Eq, Structural)]
pub struct SpecialTokens {
    pub sot: u32,
    pub transcribe: u32,
    pub translate: u32,
    pub eot: u32,
    pub no_speech: u32,
    pub no_timestamps: u32,
}

impl TokenNames {
    /// Whether a vocabulary has all the tokens.
    pub open spec fn known(self, vocabulary: Map<Seq<char>, u32>) -> bool {
        &&& vocabulary.contains_key(self.sot@)
        &&& vocabulary.contains_key(self.transcribe@)
        &&& vocabulary.contains_key(self.translate@)
        &&& vocabulary.contains_key(self.eot@)
        &&& vocabulary.contains_key(self.no_speech@)
        &&& vocabulary.contains_key(self.no_timestamps@)
    }

    /// The ids of the tokens in a vocabulary.
    pub open spec fn ids(self, vocabulary: Map<Seq<char>, u32>) -> SpecialTokens {
        SpecialTokens {
            sot: vocabulary[self.sot@],
            transcribe: vocabulary[self.transcribe@],
            translate: vocabulary[self.translate@],
            eot: vocabulary[self.eot@],
            no_speech: vocabulary[self.no_speech@],
            no_timestamps: vocabulary[self.no_timestamps@],
        }
    }

    /// Looks the tokens up. There is no result where one of them is missing.
    pub fn look_up(&self, tokenizer: &Tokenizer) -> (r: Option<SpecialTokens>)
        ensures
            r == if self.known(vocabulary(*tokenizer)) {
                Some(self.ids(vocabulary(*tokenizer)))
            } else {
                None
            },
    {
        let no_timestamps: u32 = token_to_id(tokenizer, self.no_timestamps.as_str())?;
        let sot: u32 = token_to_id(tokenizer, self.sot.as_str())?;
        let transcribe: u32 = token_to_id(tokenizer, self.transcribe.as_str())?;
        let translate: u32 = token_to_id(tokenizer, self.translate.as_str())?;
        let eot: u32 = token_to_id(tokenizer, self.eot.as_str())?;
        let no_speech: u32 = token_to_id(tokenizer, self.no_speech.as_str())?;
        Some(SpecialTokens { sot, transcribe, translate, eot, no_speech, no_timestamps })
    }
}

/// The token that has the model expect English, where the tokenizer holds it.
pub fn english_token(tokenizer: &Tokenizer) -> (r: Option<u32>)
    ensures
        r == vocabulary(*tokenizer).get("<|en|>"@),
{
    token_to_id(tokenizer, "<|en|>")
}

/// The steering tokens are found by their names, each by its own.
pub proof fn steering_tokens_are_found_by_name(names: TokenNames, vocabulary: Map<Seq<char>, u32>)
    ensures
        names.known(vocabulary) <==> forall|name: Seq<char>|
            name == names.sot@ || name == names.transcribe@ || name == names.translate@ || name
                == names.eot@ || name == names.no_speech@ || name == names.no_timestamps@
                ==> #[trigger] vocabulary.contains_key(name),
        names.ids(vocabulary).sot == vocabulary[names.sot@],
        names.ids(vocabulary).transcribe == vocabulary[names.transcribe@],
        names.ids(vocabulary).translate == vocabulary[names.translate@],
        names.ids(vocabulary).eot == vocabulary[names.eot@],
        names.ids(vocabulary).no_speech == vocabulary[names.no_speech@],
        names.ids(vocabulary).no_timestamps == vocabulary[names.no_timestamps@],
{
    if forall|name: Seq<char>|
        name == names.sot@ || name == names.transcribe@ || name == names.translate@ || name
            == names.eot@ || name == names.no_speech@ || name == names.no_timestamps@
            ==> #[trigger] vocabulary.contains_key(name) {
        assert(vocabulary.contains_key(names.sot@));
        assert(vocabulary.contains_key(names.transcribe@));
        assert(vocabulary.contains_key(names.translate@));
        assert(vocabulary.contains_key(names.eot@));
        assert(vocabulary.contains_key(names.no_speech@));
        assert(vocabulary.contains_key(names.no_timestamps@));
    }
}

/// Which decoders may fail: four of them, and no other.
pub proof fn four_decoders_may_fail(kind: DecoderKind)
    ensures
        !kind.is_total() <==> kind is Bpe || kind is Sequence || kind is Replace || kind is Strip,
{
}

} // verus!
