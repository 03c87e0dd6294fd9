//! Which texts a tokenizer can be given, told by their bytes and blanks.
use super::{
    blanks, is_encodable, is_too_large, metadata_numbers, model_kind, pre_kind, unknown_token,
    vocabulary_size,
};
use shimmytok::Tokenizer;
use vstd::prelude::*;
use vstd::utf8::encode_utf8;

verus! {

/// The blanks of two texts are those of each together, and a blank is one.
pub proof fn law_blanks_are_counted(a: Seq<char>, b: Seq<char>, c: char)
    ensures
        blanks(a + b) == blanks(a) + blanks(b),
        blanks(seq![c]) == if c == ' ' {
            1nat
        } else {
            0nat
        },
    decreases b.len(),
{
    reveal_with_fuel(blanks, 2);
    assert(seq![c].drop_last() == Seq::<char>::empty());
    if b.len() == 0 {
        assert(a + b == a);
    } else {
        law_blanks_are_counted(a, b.drop_last(), c);
        assert((a + b).drop_last() == a + b.drop_last());
    }
}

/// The unknown token is the number that the file gives, and the first token without one.
pub proof fn law_unknown_tokens(tokenizer: Tokenizer)
    ensures
        metadata_numbers(tokenizer).dom().contains("tokenizer.ggml.unknown_token_id"@)
            ==> unknown_token(tokenizer)
            == metadata_numbers(tokenizer)["tokenizer.ggml.unknown_token_id"@],
        !metadata_numbers(tokenizer).dom().contains("tokenizer.ggml.unknown_token_id"@)
            ==> unknown_token(tokenizer) == 0,
{
}

/// A byte-pair tokenizer refuses texts of more than ten mebibytes. Of the others it can be
/// given those within a million steps of its matcher, a hundred aside.
pub proof fn law_byte_pair_texts(tokenizer: Tokenizer, text: Seq<char>)
    requires
        model_kind(tokenizer) == "gpt2"@ || model_kind(tokenizer) == "qwen"@ || model_kind(
            tokenizer,
        ) == "qwen2"@,
        unknown_token(tokenizer) < vocabulary_size(tokenizer),
    ensures
        ({
            let size = encode_utf8(text).len();
            let patterns = pre_kind(tokenizer);
            let slow = patterns == Some("deepseek-v3"@) || patterns == Some("hunyuan-dense"@);
            &&& is_too_large(tokenizer, text) <==> size > 10 * 1024 * 1024
            &&& slow ==> (is_encodable(tokenizer, text) <==> size <= 111_100 || size > 10 * 1024
                * 1024)
            &&& !slow && patterns == Some("superbpe"@) ==> (is_encodable(tokenizer, text) <==> size
                <= 499_950 || size > 10 * 1024 * 1024)
            &&& !slow && patterns != Some("superbpe"@) ==> (is_encodable(tokenizer, text) <==> size
                <= 999_900 || size > 10 * 1024 * 1024)
        }),
{
    lemma_kinds_differ();
}

/// A sentence-piece tokenizer refuses texts of more than ten mebibytes, with three bytes for
/// each blank. Of the others it can be given those of a million bytes, five aside.
pub proof fn law_sentence_piece_texts(tokenizer: Tokenizer, text: Seq<char>)
    requires
        model_kind(tokenizer) == "llama"@ || model_kind(tokenizer) == "mistral"@ || model_kind(
            tokenizer,
        ) == "gemma"@ || model_kind(tokenizer) == "gemma4"@ || model_kind(tokenizer) == "gemma6"@,
        unknown_token(tokenizer) < vocabulary_size(tokenizer),
    ensures
        ({
            let size = encode_utf8(text).len() + 2 * blanks(text);
            &&& is_too_large(tokenizer, text) <==> size > 10 * 1024 * 1024
            &&& is_encodable(tokenizer, text) <==> size <= 999_995 || size > 10 * 1024 * 1024
        }),
{
    lemma_kinds_differ();
}

/// A word-piece tokenizer can be given texts of half a million bytes, three aside.
pub proof fn law_word_piece_texts(tokenizer: Tokenizer, text: Seq<char>)
    requires
        model_kind(tokenizer) == "bert"@ || model_kind(tokenizer) == "wpm"@,
        unknown_token(tokenizer) < vocabulary_size(tokenizer),
    ensures
        !is_too_large(tokenizer, text),
        is_encodable(tokenizer, text) <==> encode_utf8(text).len() <= 499_997,
{
    lemma_kinds_differ();
}

/// Any other tokenizer can be given texts of a million bytes, five aside.
pub proof fn law_other_texts(tokenizer: Tokenizer, text: Seq<char>)
    requires
        model_kind(tokenizer) == "rwkv"@ || model_kind(tokenizer) == "t5"@ || model_kind(tokenizer)
            == "ugm"@ || model_kind(tokenizer) == "plamo2"@,
        unknown_token(tokenizer) < vocabulary_size(tokenizer),
    ensures
        !is_too_large(tokenizer, text),
        is_encodable(tokenizer, text) <==> encode_utf8(text).len() <= 999_995,
{
    lemma_kinds_differ();
}

/// Without an unknown token in the vocabulary only texts that are refused for their size can
/// be given.
pub proof fn law_texts_without_an_unknown_token(tokenizer: Tokenizer, text: Seq<char>)
    requires
        unknown_token(tokenizer) >= vocabulary_size(tokenizer),
    ensures
        is_encodable(tokenizer, text) <==> is_too_large(tokenizer, text),
{
}

proof fn lemma_kinds_differ()
    ensures
        forall|i: int, j: int|
            0 <= i < j < kinds().len() ==> #[trigger] kinds()[i] != #[trigger] kinds()[j],
        kinds().len() == 14,
        kinds()[0] == "gpt2"@ && kinds()[1] == "qwen"@ && kinds()[2] == "qwen2"@,
        kinds()[3] == "llama"@ && kinds()[4] == "mistral"@ && kinds()[5] == "gemma"@,
        kinds()[6] == "gemma4"@ && kinds()[7] == "gemma6"@ && kinds()[8] == "bert"@,
        kinds()[9] == "wpm"@ && kinds()[10] == "rwkv"@ && kinds()[11] == "t5"@,
        kinds()[12] == "ugm"@ && kinds()[13] == "plamo2"@,
{
    reveal_strlit("gpt2");
    reveal_strlit("qwen");
    reveal_strlit("qwen2");
    reveal_strlit("llama");
    reveal_strlit("mistral");
    reveal_strlit("gemma");
    reveal_strlit("gemma4");
    reveal_strlit("gemma6");
    reveal_strlit("bert");
    reveal_strlit("wpm");
    reveal_strlit("rwkv");
    reveal_strlit("t5");
    reveal_strlit("ugm");
    reveal_strlit("plamo2");
    assert forall|i: int, j: int| 0 <= i < j < kinds().len() implies #[trigger] kinds()[i]
        != #[trigger] kinds()[j] by {
        if kinds()[i].len() == kinds()[j].len() {
            assert(kinds()[i][0] != kinds()[j][0] || kinds()[i].last() != kinds()[j].last());
        }
    }
}

/// The kinds of tokenizers.
spec fn kinds() -> Seq<Seq<char>> {
    seq![
        "gpt2"@,
        "qwen"@,
        "qwen2"@,
        "llama"@,
        "mistral"@,
        "gemma"@,
        "gemma4"@,
        "gemma6"@,
        "bert"@,
        "wpm"@,
        "rwkv"@,
        "t5"@,
        "ugm"@,
        "plamo2"@,
    ]
}

} // verus!
