//! The tokenizer of a model, as `shimmytok` loads it.
use crate::text;
use shimmytok::{GGUFValue, Tokenizer};
use vstd::prelude::*;
use vstd::utf8::encode_utf8;

pub mod laws;

verus! {

/// `shimmytok::Tokenizer`, carried as it is.
#[verifier::external_type_specification]
#[verifier::external_body]
pub struct ExTokenizer(Tokenizer);

/// The number of tokens in the vocabulary of a tokenizer.
pub uninterp spec fn vocabulary_size(tokenizer: Tokenizer) -> nat;

/// The token that ends a sequence.
pub uninterp spec fn end_token(tokenizer: Tokenizer) -> u32;

/// The algorithm by which a tokenizer encodes.
pub uninterp spec fn model_kind(tokenizer: Tokenizer) -> Seq<char>;

/// The patterns by which a byte-pair tokenizer splits a text, where its file names them.
pub uninterp spec fn pre_kind(tokenizer: Tokenizer) -> Option<Seq<char>>;

/// The entries of a tokenizer's metadata that hold a `u32`.
pub uninterp spec fn metadata_numbers(tokenizer: Tokenizer) -> Map<Seq<char>, u32>;

/// What `Tokenizer::encode` makes of a text: its tokens, or the text of the error.
pub uninterp spec fn encoded(
    tokenizer: Tokenizer,
    text: Seq<char>,
    add_special_tokens: bool,
) -> Result<Seq<u32>, Seq<char>>;

/// What `Tokenizer::decode` makes of tokens, `None` where it reports an error.
pub uninterp spec fn decoded(
    tokenizer: Tokenizer,
    tokens: Seq<u32>,
    skip_special_tokens: bool,
) -> Option<Seq<char>>;

/// `Tokenizer::vocab_size`: the number of tokens in the vocabulary, which is an attribute of
/// the tokenizer.
pub assume_specification[ Tokenizer::vocab_size ](tokenizer: &Tokenizer) -> (r: usize)
    ensures
        r == vocabulary_size(*tokenizer),
;

/// `Tokenizer::eos_token`: the token that ends a sequence, which is an attribute of the
/// tokenizer.
pub assume_specification[ Tokenizer::eos_token ](tokenizer: &Tokenizer) -> (r: u32)
    ensures
        r == end_token(*tokenizer),
;

/// `Tokenizer::model_type`: the algorithm by which the tokenizer encodes, which is an attribute
/// of the tokenizer.
pub assume_specification[ Tokenizer::model_type ](tokenizer: &Tokenizer) -> (r: &str)
    ensures
        r@ == model_kind(*tokenizer),
;

/// `Tokenizer::pre_type`: the patterns by which a byte-pair tokenizer splits a text, which is
/// an attribute of the tokenizer. Nothing where the file names none, or `default`.
pub assume_specification[ Tokenizer::pre_type ](tokenizer: &Tokenizer) -> (r: Option<&str>)
    ensures
        r is Some <==> pre_kind(*tokenizer) is Some,
        r matches Some(kind) ==> pre_kind(*tokenizer) == Some(kind@),
;

/// A lookup in `Tokenizer::metadata`: the number in the entry `key`, nothing where there is no
/// such entry or it does not hold a `u32`.
#[verifier::external_body]
fn metadata_number(tokenizer: &Tokenizer, key: &str) -> (r: Option<u32>)
    ensures
        r is Some <==> metadata_numbers(*tokenizer).dom().contains(key@),
        r matches Some(number) ==> metadata_numbers(*tokenizer)[key@] == number,
{
    match tokenizer.metadata().get(key) {
        Some(GGUFValue::U32(number)) => Some(*number),
        _ => None,
    }
}

// ---------------------------------------------------------------------------------------
// The texts that can be encoded
// ---------------------------------------------------------------------------------------

/// The entry of a file's metadata that gives its unknown token.
pub const UNKNOWN_KEY: &'static str = "tokenizer.ggml.unknown_token_id";

/// How many bytes a tokenizer that measures its input takes at most.
pub const MAX_MEASURED: usize = 10_485_760;

/// How many steps back the matcher of a byte-pair tokenizer has for the characters of a text.
pub const STEP_LIMIT: usize = 999_900;

/// How many tokens a text may have, those aside that mark its ends and that stand for a blank
/// before it.
pub const TOKEN_LIMIT: usize = 999_995;

/// The token that stands for what the vocabulary lacks: the first, where the file gives none.
pub open spec fn unknown_token(tokenizer: Tokenizer) -> u32 {
    if metadata_numbers(tokenizer).dom().contains(UNKNOWN_KEY@) {
        metadata_numbers(tokenizer)[UNKNOWN_KEY@]
    } else {
        0
    }
}

/// The kinds that merge byte pairs of what their patterns split off.
pub open spec fn is_byte_pair(kind: Seq<char>) -> bool {
    kind == "gpt2"@ || kind == "qwen"@ || kind == "qwen2"@
}

/// The kinds that merge sentence pieces.
pub open spec fn is_sentence_piece(kind: Seq<char>) -> bool {
    kind == "llama"@ || kind == "mistral"@ || kind == "gemma"@ || kind == "gemma4"@ || kind
        == "gemma6"@
}

/// The kinds that split words into pieces.
pub open spec fn is_word_piece(kind: Seq<char>) -> bool {
    kind == "bert"@ || kind == "wpm"@
}

/// The number of blanks in a text.
pub open spec fn blanks(text: Seq<char>) -> nat
    decreases text.len(),
{
    if text.len() == 0 {
        0
    } else {
        blanks(text.drop_last()) + if text.last() == ' ' {
            1nat
        } else {
            0nat
        }
    }
}

/// How many bytes a text has with U+2581, which has three, in place of each blank.
pub open spec fn marked_size(text: Seq<char>) -> nat {
    encode_utf8(text).len() + 2 * blanks(text)
}

/// How often the matcher of a byte-pair tokenizer backtracks at most for each character that
/// it goes over in search of one match. Most patterns match at whatever character the search
/// is at, and only go back over a run that they matched; these pass over others.
pub open spec fn steps_per_char(patterns: Option<Seq<char>>) -> int {
    if patterns == Some("deepseek-v3"@) || patterns == Some("hunyuan-dense"@) {
        9
    } else if patterns == Some("superbpe"@) {
        2
    } else {
        1
    }
}

/// How many tokens a text has at most, those aside that mark its ends and that stand for a
/// blank before it. A sentence piece is at least a byte of the marked text. A word has a piece
/// for each character at most, and one for the mark before it. The other kinds have at most a
/// token for each byte.
pub open spec fn token_bound(kind: Seq<char>, text: Seq<char>) -> nat {
    if is_sentence_piece(kind) {
        marked_size(text)
    } else if is_word_piece(kind) {
        2 * encode_utf8(text).len()
    } else {
        encode_utf8(text).len()
    }
}

/// Whether a tokenizer refuses a text for its size.
pub open spec fn is_too_large(tokenizer: Tokenizer, text: Seq<char>) -> bool {
    let kind = model_kind(tokenizer);
    ||| is_byte_pair(kind) && encode_utf8(text).len() > MAX_MEASURED
    ||| is_sentence_piece(kind) && marked_size(text) > MAX_MEASURED
}

/// Whether a tokenizer can be given a text: it refuses the text for its size, or the text has
/// few enough tokens and takes few enough steps, and the unknown token is in the vocabulary.
pub open spec fn is_encodable(tokenizer: Tokenizer, text: Seq<char>) -> bool {
    let kind = model_kind(tokenizer);
    ||| is_too_large(tokenizer, text)
    ||| {
        &&& token_bound(kind, text) <= TOKEN_LIMIT
        &&& is_byte_pair(kind) ==> steps_per_char(pre_kind(tokenizer)) * encode_utf8(text).len()
            <= STEP_LIMIT
        &&& unknown_token(tokenizer) < vocabulary_size(tokenizer)
    }
}

fn count_blanks(text: &str) -> (r: usize)
    ensures
        r == blanks(text@),
{
    let cs = text::chars(text);
    let mut count: usize = 0;
    let mut i: usize = 0;
    while i < cs.len()
        invariant
            i <= cs.len(),
            cs@ == text@,
            count <= i,
            count == blanks(text@.take(i as int)),
        decreases cs.len() - i,
    {
        assert(text@.take(i + 1).drop_last() == text@.take(i as int));
        if cs[i] == ' ' {
            count += 1;
        }
        i += 1;
    }
    assert(text@.take(i as int) == text@);
    count
}

fn pattern_steps(patterns: Option<&str>) -> (r: u128)
    ensures
        patterns matches Some(patterns) ==> r == steps_per_char(Some(patterns@)),
        patterns is None ==> r == steps_per_char(None),
        r <= 9,
{
    match patterns {
        Some(patterns) => {
            if text::same(patterns, "deepseek-v3") || text::same(patterns, "hunyuan-dense") {
                9
            } else if text::same(patterns, "superbpe") {
                2
            } else {
                1
            }
        },
        None => 1,
    }
}

/// Whether a tokenizer can be given a text.
pub fn can_encode(tokenizer: &Tokenizer, text: &str) -> (r: bool)
    ensures
        r == is_encodable(*tokenizer, text@),
{
    let size = text.as_bytes().len() as u128;
    let marked = size + 2 * (count_blanks(text) as u128);
    let kind = tokenizer.model_type();
    let byte_pair = text::same(kind, "gpt2") || text::same(kind, "qwen") || text::same(
        kind,
        "qwen2",
    );
    let sentence_piece = text::same(kind, "llama") || text::same(kind, "mistral") || text::same(
        kind,
        "gemma",
    ) || text::same(kind, "gemma4") || text::same(kind, "gemma6");
    if (byte_pair && size > MAX_MEASURED as u128) || (sentence_piece && marked
        > MAX_MEASURED as u128) {
        return true;
    }
    let tokens = if sentence_piece {
        marked
    } else if text::same(kind, "bert") || text::same(kind, "wpm") {
        2 * size
    } else {
        size
    };
    if tokens > TOKEN_LIMIT as u128 {
        return false;
    }
    let steps = pattern_steps(tokenizer.pre_type());
    assert(steps * size <= 9 * TOKEN_LIMIT) by (nonlinear_arith)
        requires
            steps <= 9,
            size <= TOKEN_LIMIT,
    ;
    if byte_pair && steps * size > STEP_LIMIT as u128 {
        return false;
    }
    let unknown = match metadata_number(tokenizer, UNKNOWN_KEY) {
        Some(number) => number,
        None => 0,
    };
    (unknown as usize) < tokenizer.vocab_size()
}

/// `Tokenizer::encode`, with an error as its text: the result is a function of the tokenizer,
/// the text and the flag. A byte-pair or sentence-piece tokenizer reports an error for a text
/// of more than ten mebibytes before it splits it, the latter once the blanks are marked.
///
/// The call must not be made on other texts that are too long, for two reasons. The matcher
/// that splits a text for a byte-pair tokenizer gives up a search at a million steps back or a
/// million branches kept, and `shimmytok` then asks for the same match again, without end. A
/// search goes back at most `steps_per_char` times for each character, keeps at most one branch
/// for each, and adds fewer than a hundred to either count. And in a build with debug
/// assertions `shimmytok` panics where a text has more than a million tokens, or one outside
/// the vocabulary, which the unknown token can be. A text has at most `token_bound` tokens,
/// three for a blank that is put before it, and two that mark its ends.
#[verifier::external_body]
pub(crate) fn encode(tokenizer: &Tokenizer, text: &str, add_special_tokens: bool) -> (r: Result<
    Vec<u32>,
    String,
>)
    requires
        is_encodable(*tokenizer, text@),
    ensures
        r is Ok <==> encoded(*tokenizer, text@, add_special_tokens) is Ok,
        r matches Ok(tokens) ==> encoded(*tokenizer, text@, add_special_tokens)->Ok_0 == tokens@,
        r matches Err(error) ==> encoded(*tokenizer, text@, add_special_tokens)->Err_0 == error@,
        is_too_large(*tokenizer, text@) ==> r is Err,
{
    tokenizer.encode(text, add_special_tokens).map_err(|e| e.to_string())
}

/// `Tokenizer::decode`, with nothing in place of an error: the result is a function of the
/// tokenizer, the tokens and the flag. It looks up the type of each token where special ones
/// are skipped, and panics on one that is not in the vocabulary.
#[verifier::external_body]
pub(crate) fn decode(tokenizer: &Tokenizer, tokens: &[u32], skip_special_tokens: bool) -> (r:
    Option<String>)
    requires
        skip_special_tokens ==> forall|i: int|
            0 <= i < tokens@.len() ==> #[trigger] tokens@[i] < vocabulary_size(*tokenizer),
    ensures
        r is Some <==> decoded(*tokenizer, tokens@, skip_special_tokens) is Some,
        r matches Some(text) ==> decoded(*tokenizer, tokens@, skip_special_tokens) == Some(text@),
{
    tokenizer.decode(tokens, skip_special_tokens).ok()
}

} // verus!
