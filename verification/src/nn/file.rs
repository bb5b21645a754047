//! Tokenizer files: which of them can be read without a panic, and reading them.

use crate::nn::builder::Error;
use crate::nn::json::{find, json_in, json_of, jsons, level, member, members, parse_object, same, Json, Level};
use crate::nn::tokens::{decoder_of, text_of, vocabulary, DecoderKind};
use serde_json::Value;
use tokenizers::Tokenizer;
use vstd::prelude::*;

verus! {

/// The bytes that a tokenizer file may have.
pub const MAX_BYTES: usize = 0x100_0000;

/// The tokens that a file may add to the model's.
pub const MAX_ADDED: usize = 4096;

/// The characters that the added tokens may have in all.
pub const MAX_ADDED_CHARS: usize = 65_536;

/// The pieces that a template of the post-processor may have.
pub const MAX_PIECES: usize = 256;

/// Whether a part of the file is an object of a type.
pub open spec fn is_type(part: Json, name: Seq<char>) -> bool {
    part matches Json::Object(entries) && member(entries, "type"@) == Json::Text(name)
}

/// Whether a part of the file is absent, or the byte-level one.
pub open spec fn is_byte_level_or_absent(part: Json) -> bool {
    part is Null || is_type(part, "ByteLevel"@)
}

/// The tokens that the file adds to the model's, where they are a list or absent.
pub open spec fn added(part: Json) -> Option<Seq<Json>> {
    match part {
        Json::Null => Some(Seq::empty()),
        Json::List(tokens) => Some(tokens),
        _ => None,
    }
}

/// How many characters an added token has.
pub open spec fn content_len(token: Json) -> nat {
    match token {
        Json::Object(entries) => match member(entries, "content"@) {
            Json::Text(content) => content.len(),
            _ => 0,
        },
        _ => 0,
    }
}

/// How many characters added tokens have in all.
pub open spec fn content_chars(tokens: Seq<Json>) -> nat
    decreases tokens.len(),
{
    if tokens.len() == 0 {
        0
    } else {
        content_chars(tokens.drop_last()) + content_len(tokens.last())
    }
}

/// Whether the added tokens are few and short enough for a search table of them.
pub open spec fn is_small(part: Json) -> bool {
    added(part) matches Some(tokens) && tokens.len() <= MAX_ADDED && content_chars(tokens)
        <= MAX_ADDED_CHARS
}

/// Whether a list has few items, where it is one.
pub open spec fn is_short(part: Json) -> bool {
    part matches Json::List(items) ==> items.len() <= MAX_PIECES
}

/// Whether the post-processor is absent, or a single one with short templates.
pub open spec fn is_plain_processor(part: Json) -> bool {
    part is Null || (part matches Json::Object(entries) && {
        &&& member(entries, "processors"@) is Null
        &&& is_short(member(entries, "single"@))
        &&& is_short(member(entries, "pair"@))
    })
}

/// Whether the ids of a vocabulary leave room in 32 bits for more tokens.
pub open spec fn leave_room(entries: Seq<(Seq<char>, Json)>, more: nat) -> bool {
    &&& entries.len() + more <= u32::MAX
    &&& forall|i: int|
        0 <= i < entries.len() ==> ((#[trigger] entries[i]).1 matches Json::Number(Some(id)) ==> id
            + more <= u32::MAX)
}

/// Whether the model is a byte-pair one without a subword prefix, whose ids leave room
/// for more tokens.
pub open spec fn is_plain_model(part: Json, more: nat) -> bool {
    part matches Json::Object(entries) && {
        &&& member(entries, "type"@) == Json::Text("BPE"@)
        &&& match member(entries, "continuing_subword_prefix"@) {
            Json::Null => true,
            Json::Text(prefix) => prefix.len() == 0,
            _ => false,
        }
        &&& member(entries, "vocab"@) matches Json::Object(words) && leave_room(words, more)
    }
}

/// Whether a file of `len` bytes that says `file` can be read without a panic: it has a
/// byte-pair model and no normalizer, its other parts are byte-level ones or absent, and
/// its added tokens and templates are within bounds.
pub open spec fn is_plain(file: Json, len: nat) -> bool {
    &&& len <= MAX_BYTES
    &&& file matches Json::Object(parts) && {
        &&& member(parts, "normalizer"@) is Null
        &&& is_byte_level_or_absent(member(parts, "pre_tokenizer"@))
        &&& is_byte_level_or_absent(member(parts, "decoder"@))
        &&& is_plain_processor(member(parts, "post_processor"@))
        &&& is_small(member(parts, "added_tokens"@))
        &&& is_plain_model(
            member(parts, "model"@),
            added(member(parts, "added_tokens"@))->0.len(),
        )
    }
}

/// Whether the bytes of a file can be read as a tokenizer without a panic.
pub open spec fn is_plain_file(bytes: Seq<u8>) -> bool {
    json_in(bytes) matches Some(file) && is_plain(file, bytes.len())
}

/// The vocabulary of the model in a file.
pub open spec fn model_words(file: Json) -> Seq<(Seq<char>, Json)> {
    match file {
        Json::Object(parts) => match member(parts, "model"@) {
            Json::Object(entries) => match member(entries, "vocab"@) {
                Json::Object(words) => words,
                _ => Seq::empty(),
            },
            _ => Seq::empty(),
        },
        _ => Seq::empty(),
    }
}

/// Whether no two words of the model in a file have the same id, so that every id stands
/// for one word.
pub open spec fn has_distinct_ids(bytes: Seq<u8>) -> bool {
    let words = model_words(json_in(bytes)->0);
    forall|i: int, j: int|
        0 <= i < j < words.len() ==> (#[trigger] words[i]).1 != (#[trigger] words[j]).1
}

/// The vocabulary of the tokenizer that a file holds, and its decoder, where the file
/// holds a tokenizer.
pub uninterp spec fn tokenizer_in(bytes: Seq<u8>) -> Option<(Map<Seq<char>, u32>, DecoderKind)>;

/// The text that the tokenizer in a file makes of the tokens with these ids, with or
/// without the special ones.
pub uninterp spec fn text_in(bytes: Seq<u8>, ids: Seq<u32>, skip_special: bool) -> Seq<char>;

/// `Tokenizer::from_bytes`: the tokenizer that a file holds, if it does. What it knows
/// is told by the bytes; which text it makes of tokens is told by them where no two words
/// of the model have the same id, since else the order of a hash map decides. Files on
/// which it may panic are left out: the slice by a subword prefix, a normalizer that
/// fails, ids that overflow, search tables and templates that are too large, and regular
/// expressions that the file holds.
#[verifier::external_body]
fn from_bytes(bytes: &Vec<u8>) -> (r: Result<Tokenizer, String>)
    requires
        is_plain_file(bytes@),
    ensures
        match r {
            Ok(tokenizer) => tokenizer_in(bytes@) == Some(
                (vocabulary(tokenizer), decoder_of(tokenizer)),
            ),
            Err(_) => tokenizer_in(bytes@) is None,
        },
        r is Ok && has_distinct_ids(bytes@) ==> forall|ids: Seq<u32>, skip_special: bool|
            #[trigger] text_of(r->Ok_0, ids, skip_special) == text_in(bytes@, ids, skip_special),
{
    Tokenizer::from_bytes(bytes).map_err(|e| format!("{e:?}"))
}

/// Whether an object has a type.
fn has_type(part: &Level, name: &str) -> (r: bool)
    ensures
        r == is_type(part@, name@),
{
    match part {
        Level::Object(entries) => match find(entries, "type") {
            Level::Text(text) => same(text.as_str(), name),
            _ => false,
        },
        _ => false,
    }
}

/// Whether a part is absent, or the byte-level one.
fn byte_level_or_absent(part: &Level) -> (r: bool)
    ensures
        r == is_byte_level_or_absent(part@),
{
    match part {
        Level::Null => true,
        _ => has_type(part, "ByteLevel"),
    }
}

/// How many tokens are added, where they are few and short enough.
fn count_added(part: &Level) -> (r: Option<usize>)
    ensures
        r is Some == is_small(part@),
        r matches Some(count) ==> count == added(part@)->0.len(),
{
    let tokens: &Vec<Value> = match part {
        Level::Null => return Some(0),
        Level::List(tokens) => tokens,
        _ => return None,
    };
    if tokens.len() > MAX_ADDED {
        return None;
    }
    let ghost all = jsons(tokens@);
    let mut chars: usize = 0;
    for i in 0..tokens.len()
        invariant
            all == jsons(tokens@),
            chars == content_chars(all.take(i as int)),
            chars <= MAX_ADDED_CHARS,
            part@ == Json::List(all),
    {
        proof {
            assert(all.take(i + 1).drop_last() =~= all.take(i as int));
            assert(all.take(i + 1).last() == json_of(tokens@[i as int]));
        }
        let len: usize = match level(&tokens[i]) {
            Level::Object(entries) => match find(&entries, "content") {
                Level::Text(content) => content.as_str().unicode_len(),
                _ => 0,
            },
            _ => 0,
        };
        if len > MAX_ADDED_CHARS - chars {
            proof {
                lemma_chars_grow(all, i + 1);
            }
            return None;
        }
        chars = chars + len;
    }
    assert(all.take(tokens@.len() as int) =~= all);
    Some(tokens.len())
}

/// More tokens do not have fewer characters.
proof fn lemma_chars_grow(tokens: Seq<Json>, n: int)
    requires
        0 <= n <= tokens.len(),
    ensures
        content_chars(tokens.take(n)) <= content_chars(tokens),
    decreases tokens.len() - n,
{
    if n < tokens.len() {
        lemma_chars_grow(tokens, n + 1);
        assert(tokens.take(n + 1).drop_last() =~= tokens.take(n));
    } else {
        assert(tokens.take(n) =~= tokens);
    }
}

/// Whether a list has few items, where it is one.
fn short(part: &Level) -> (r: bool)
    ensures
        r == is_short(part@),
{
    match part {
        Level::List(items) => items.len() <= MAX_PIECES,
        _ => true,
    }
}

/// Whether the post-processor is absent, or a single one with short templates.
fn plain_processor(part: &Level) -> (r: bool)
    ensures
        r == is_plain_processor(part@),
{
    match part {
        Level::Null => true,
        Level::Object(entries) => {
            let single = match find(entries, "processors") {
                Level::Null => true,
                _ => false,
            };
            single && short(&find(entries, "single")) && short(&find(entries, "pair"))
        },
        _ => false,
    }
}

/// Whether the ids of a vocabulary leave room for more tokens.
fn room_left(words: &Vec<(&String, &Value)>, more: usize) -> (r: bool)
    requires
        more <= MAX_ADDED,
    ensures
        r == leave_room(members(words@), more as nat),
{
    let limit: u32 = u32::MAX - more as u32;
    if words.len() > limit as usize {
        return false;
    }
    for i in 0..words.len()
        invariant
            more <= MAX_ADDED,
            limit == u32::MAX - more,
            words@.len() + more <= u32::MAX,
            forall|j: int|
                0 <= j < i ==> ((#[trigger] members(words@)[j]).1 matches Json::Number(Some(id))
                    ==> id + more <= u32::MAX),
    {
        match level(words[i].1) {
            Level::Number(Some(id)) => {
                if id > limit as u64 {
                    assert(!(members(words@)[i as int].1 matches Json::Number(Some(id)) ==> id
                        + more <= u32::MAX));
                    return false;
                }
            },
            _ => {},
        }
    }
    true
}

/// Whether the model is a byte-pair one without a subword prefix, whose ids leave room.
fn plain_model(part: &Level, more: usize) -> (r: bool)
    requires
        more <= MAX_ADDED,
    ensures
        r == is_plain_model(part@, more as nat),
{
    match part {
        Level::Object(entries) => {
            let no_prefix = match find(entries, "continuing_subword_prefix") {
                Level::Null => true,
                Level::Text(prefix) => prefix.as_str().unicode_len() == 0,
                _ => false,
            };
            let room = match find(entries, "vocab") {
                Level::Object(words) => room_left(&words, more),
                _ => false,
            };
            no_prefix && room && has_type(part, "BPE")
        },
        _ => false,
    }
}

/// Whether the bytes of a file can be read as a tokenizer without a panic.
pub fn is_readable(bytes: &Vec<u8>) -> (r: bool)
    ensures
        r == is_plain_file(bytes@),
{
    if bytes.len() > MAX_BYTES {
        return false;
    }
    let file: Value = match parse_object(bytes) {
        Some(file) => file,
        None => return false,
    };
    match level(&file) {
        Level::Object(parts) => {
            let normalizer = match find(&parts, "normalizer") {
                Level::Null => false,
                _ => true,
            };
            if normalizer {
                return false;
            }
            match count_added(&find(&parts, "added_tokens")) {
                Some(more) => {
                    byte_level_or_absent(&find(&parts, "pre_tokenizer")) && byte_level_or_absent(
                        &find(&parts, "decoder"),
                    ) && plain_processor(&find(&parts, "post_processor")) && plain_model(
                        &find(&parts, "model"),
                        more,
                    )
                },
                None => false,
            }
        },
        _ => false,
    }
}

/// Reads a tokenizer file. There is no result where the reading might panic.
pub fn read_tokenizer(bytes: &Vec<u8>) -> (r: Option<Result<Tokenizer, Error>>)
    ensures
        r is Some == is_plain_file(bytes@),
        r matches Some(read) ==> match read {
            Ok(tokenizer) => {
                &&& tokenizer_in(bytes@) == Some((vocabulary(tokenizer), decoder_of(tokenizer)))
                &&& has_distinct_ids(bytes@) ==> forall|ids: Seq<u32>, skip_special: bool|
                    #[trigger] text_of(tokenizer, ids, skip_special) == text_in(
                        bytes@,
                        ids,
                        skip_special,
                    )
            },
            Err(Error::Tokenizers(_)) => tokenizer_in(bytes@) is None,
            Err(_) => false,
        },
{
    if !is_readable(bytes) {
        return None;
    }
    Some(
        match from_bytes(bytes) {
            Ok(tokenizer) => Ok(tokenizer),
            Err(e) => Err(Error::Tokenizers(e)),
        },
    )
}

/// A byte-level tokenizer of byte pairs can be read: no normalizer, the other parts
/// byte-level or absent, at most one post-processor, no subword prefix, and as many added
/// tokens, characters in them and pieces of templates, and as large ids, as are within
/// bounds. Other parts of the file play no part.
pub proof fn byte_level_files_can_be_read(
    parts: Seq<(Seq<char>, Json)>,
    tokens: Seq<Json>,
    model: Seq<(Seq<char>, Json)>,
    words: Seq<(Seq<char>, Json)>,
    len: nat,
)
    requires
        len <= 16_777_216,
        member(parts, "normalizer"@) is Null,
        member(parts, "pre_tokenizer"@) is Null || (member(
            parts,
            "pre_tokenizer"@,
        ) matches Json::Object(entries) && member(entries, "type"@) == Json::Text("ByteLevel"@)),
        member(parts, "decoder"@) is Null || (member(parts, "decoder"@) matches Json::Object(entries)
            && member(entries, "type"@) == Json::Text("ByteLevel"@)),
        member(parts, "post_processor"@) is Null || (member(
            parts,
            "post_processor"@,
        ) matches Json::Object(entries) && member(entries, "processors"@) is Null && (member(
            entries,
            "single"@,
        ) matches Json::List(pieces) ==> pieces.len() <= 256) && (member(
            entries,
            "pair"@,
        ) matches Json::List(pieces) ==> pieces.len() <= 256)),
        member(parts, "added_tokens"@) == Json::List(tokens),
        tokens.len() <= 4096,
        content_chars(tokens) <= 65_536,
        member(parts, "model"@) == Json::Object(model),
        member(model, "type"@) == Json::Text("BPE"@),
        member(model, "continuing_subword_prefix"@) is Null || member(
            model,
            "continuing_subword_prefix"@,
        ) == Json::Text(Seq::empty()),
        member(model, "vocab"@) == Json::Object(words),
        words.len() + tokens.len() <= u32::MAX,
        forall|i: int|
            0 <= i < words.len() ==> ((#[trigger] words[i]).1 matches Json::Number(Some(id)) && id
                + tokens.len() <= u32::MAX),
    ensures
        is_plain(Json::Object(parts), len),
        model_words(Json::Object(parts)) == words,
{
}

/// The characters of added tokens are those of their contents, in all.
pub proof fn contents_add_up(tokens: Seq<Json>, entries: Seq<(Seq<char>, Json)>, content: Seq<char>)
    requires
        member(entries, "content"@) == Json::Text(content),
    ensures
        content_chars(Seq::empty()) == 0,
        content_chars(tokens.push(Json::Object(entries))) == content_chars(tokens) + content.len(),
{
    assert(tokens.push(Json::Object(entries)).drop_last() =~= tokens);
}

} // verus!
