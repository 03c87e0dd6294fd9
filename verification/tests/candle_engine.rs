use candle_core::quantized::gguf_file::Content;
use shimmy::engine::candle_engine::{
    argmax, check_architecture, check_content, CandleEngine, Turn,
};
use shimmy::engine::tokenizer::can_encode;
use shimmy::engine::GenOptions;
use shimmytok::Tokenizer;

fn text(bytes: &mut Vec<u8>, s: &str) {
    bytes.extend((s.len() as u64).to_le_bytes());
    bytes.extend(s.as_bytes());
}

/// A GGUF file with nothing but a tokenizer: token 2 ends a sequence.
fn tokenizer(model: &str, tokens: &[&str]) -> Tokenizer {
    tokenizer_with(model, tokens, "default", 0)
}

/// The same, with the patterns that split a text and the unknown token.
fn tokenizer_with(model: &str, tokens: &[&str], patterns: &str, unknown: u32) -> Tokenizer {
    let mut bytes: Vec<u8> = Vec::new();
    bytes.extend(b"GGUF");
    bytes.extend(3u32.to_le_bytes());
    bytes.extend(0u64.to_le_bytes());
    bytes.extend(4u64.to_le_bytes());
    text(&mut bytes, "tokenizer.ggml.pre");
    bytes.extend(8u32.to_le_bytes());
    text(&mut bytes, patterns);
    text(&mut bytes, "tokenizer.ggml.unknown_token_id");
    bytes.extend(4u32.to_le_bytes());
    bytes.extend(unknown.to_le_bytes());
    text(&mut bytes, "tokenizer.ggml.model");
    bytes.extend(8u32.to_le_bytes());
    text(&mut bytes, model);
    text(&mut bytes, "tokenizer.ggml.tokens");
    bytes.extend(9u32.to_le_bytes());
    bytes.extend(8u32.to_le_bytes());
    bytes.extend((tokens.len() as u64).to_le_bytes());
    for token in tokens {
        text(&mut bytes, token);
    }
    Tokenizer::from_bytes(&bytes).unwrap()
}

fn words() -> Tokenizer {
    tokenizer("llama", &["<unk>", "<s>", "</s>", "\u{2581}hi", "!", "STOP", "ST", "OP", "\u{2581}h"])
}

fn options(max_tokens: usize, stops: &[&str]) -> GenOptions {
    GenOptions { max_tokens, stop_tokens: stops.iter().map(|s| s.to_string()).collect() }
}

/// Runs a turn on canned picks: what was heard, the offsets of the forward passes, the output.
fn run(tokenizer: &Tokenizer, options: GenOptions, picks: &[u32]) -> (Vec<String>, Vec<usize>, String) {
    let (ids, mut turn) = Turn::begin(tokenizer, "model.gguf", "hi", options).unwrap().unwrap();
    assert_eq!(ids, [1, 3]);
    let mut heard = Vec::new();
    let mut offsets = Vec::new();
    let mut next = 0;
    while turn.wants_token() {
        let step = turn.try_accept(tokenizer, picks[next]).unwrap();
        next += 1;
        if let Some(piece) = step.piece {
            heard.push(piece);
        }
        match step.forward_at {
            Some(offset) => offsets.push(offset),
            None => break,
        }
    }
    assert_eq!(next, picks.len());
    assert!(!turn.wants_token());
    (heard, offsets, turn.into_output())
}

#[test]
fn only_the_qwen3_family_is_taken() {
    for taken in ["qwen3", "qwen35", "qwen3moe", "qwen3vl"] {
        assert_eq!(check_architecture(Some(taken)), Ok(()));
    }
    assert_eq!(
        check_architecture(Some("llama")),
        Err("candle backend implements qwen3-family models; this GGUF is 'llama'".to_string())
    );
    assert_eq!(
        check_architecture(None),
        Err("candle backend implements qwen3-family models; this GGUF is ''".to_string())
    );
    assert!(check_architecture(Some("qwen2")).is_err());
    assert!(check_architecture(Some("Qwen3")).is_err());
}

/// A GGUF file with one entry of metadata and no tensors.
fn content(key: &str, value_type: u32, value: &[u8]) -> Content {
    let mut bytes: Vec<u8> = Vec::new();
    bytes.extend(b"GGUF");
    bytes.extend(3u32.to_le_bytes());
    bytes.extend(0u64.to_le_bytes());
    bytes.extend(1u64.to_le_bytes());
    text(&mut bytes, key);
    bytes.extend(value_type.to_le_bytes());
    bytes.extend(value);
    Content::read(&mut std::io::Cursor::new(bytes)).unwrap()
}

#[test]
fn the_architecture_is_read_from_the_metadata() {
    let mut qwen: Vec<u8> = Vec::new();
    text(&mut qwen, "qwen3");
    let mut llama: Vec<u8> = Vec::new();
    text(&mut llama, "llama");
    assert_eq!(check_content(&content("general.architecture", 8, &qwen)), Ok(()));
    assert_eq!(
        check_content(&content("general.architecture", 8, &llama)),
        Err("candle backend implements qwen3-family models; this GGUF is 'llama'".to_string())
    );
    // Another entry, and an entry of another type, name none.
    for other in [content("general.name", 8, &qwen), content("general.architecture", 4, &[3, 0, 0, 0])] {
        assert_eq!(
            check_content(&other),
            Err("candle backend implements qwen3-family models; this GGUF is ''".to_string())
        );
    }
}

#[test]
fn engines_are_alike() {
    assert_eq!(format!("{:?}", CandleEngine::new()), format!("{:?}", CandleEngine::default()));
}

fn pick(logits: &[f32]) -> u32 {
    let bits: Vec<u32> = logits.iter().map(|x| x.to_bits()).collect();
    argmax(&bits)
}

#[test]
fn greedy_picks() {
    assert_eq!(pick(&[]), 0);
    assert_eq!(pick(&[1.0, 3.0, 2.0]), 1);
    assert_eq!(pick(&[-3.0, -1.0, -2.0]), 1);
    assert_eq!(pick(&[-1.0, 1e-40, 0.0]), 1);
    // The first of equals.
    assert_eq!(pick(&[2.0, 5.0, 5.0]), 1);
    assert_eq!(pick(&[-0.0, 0.0]), 0);
    assert_eq!(pick(&[0.0, -0.0]), 0);
    assert_eq!(pick(&[f32::NEG_INFINITY, f32::MIN]), 1);
    assert_eq!(pick(&[f32::MAX, f32::INFINITY]), 1);
    // Nothing exceeds a NaN, and a NaN exceeds nothing.
    assert_eq!(pick(&[f32::NAN, 1.0]), 0);
    assert_eq!(pick(&[1.0, f32::NAN, -f32::NAN, 2.0]), 3);
}

#[test]
fn greedy_picks_compare_as_numbers_do() {
    let some = [
        0.0, -0.0, 1.0, -1.0, 1.5, 1e-45, -1e-45, f32::MAX, f32::MIN, f32::INFINITY,
        f32::NEG_INFINITY, f32::NAN, -f32::NAN, 0.1, -7.25,
    ];
    for a in some {
        for b in some {
            for c in some {
                let v = [a, b, c];
                let mut best = 0usize;
                for (i, x) in v.iter().enumerate() {
                    if *x > v[best] {
                        best = i;
                    }
                }
                assert_eq!(pick(&v), best as u32, "{v:?}");
            }
        }
    }
}

#[test]
fn a_turn_ends_on_the_end_token() {
    let t = words();
    let (heard, offsets, out) = run(&t, options(10, &[]), &[3, 4, 2]);
    assert_eq!(heard, [" hi", "!"]);
    assert_eq!(offsets, [2, 3]);
    assert_eq!(out, " hi!");
}

#[test]
fn a_turn_ends_with_its_budget() {
    let t = words();
    let (heard, offsets, out) = run(&t, options(2, &[]), &[3, 3]);
    assert_eq!(heard, [" hi", " hi"]);
    // The last token still goes through the model.
    assert_eq!(offsets, [2, 3]);
    assert_eq!(out, " hi hi");
    let (heard, offsets, out) = run(&t, options(0, &[]), &[]);
    assert!(heard.is_empty() && offsets.is_empty() && out.is_empty());
}

/// The same picks with a larger budget go on where the smaller one ended.
#[test]
fn a_larger_budget_extends_the_output() {
    let t = words();
    let picks = [3, 4, 6, 7, 4, 2];
    let mut last = String::new();
    for budget in 0..8 {
        let taken = budget.min(picks.len());
        let (_, _, out) = run(&t, options(budget, &[]), &picks[..taken]);
        assert!(out.starts_with(&last));
        last = out;
    }
    assert_eq!(last, " hi!STOP!");
}

#[test]
fn a_turn_ends_on_a_stop_text() {
    let t = words();
    // The text may be completed over several tokens, and stays in the output.
    let (heard, offsets, out) = run(&t, options(10, &["nope", "STOP"]), &[3, 6, 7]);
    assert_eq!(heard, [" hi", "ST", "OP"]);
    assert_eq!(offsets, [2, 3]);
    assert_eq!(out, " hiSTOP");
    // An empty stop text stops nothing.
    let (_, _, out) = run(&t, options(2, &[""]), &[3, 4]);
    assert_eq!(out, " hi!");
}

#[test]
fn special_tokens_are_silent() {
    let t = words();
    let (heard, offsets, out) = run(&t, options(2, &[]), &[1, 4]);
    assert_eq!(heard, ["", "!"]);
    assert_eq!(offsets, [2, 3]);
    assert_eq!(out, "!");
}

#[test]
fn a_token_that_does_not_decode_goes_through_the_model() {
    let mut turn = Turn::after_prompt(7, options(3, &["!"]), 2);
    let step = turn.accept_piece(9, None);
    assert_eq!(step.piece, None);
    assert_eq!(step.forward_at, Some(7));
    let step = turn.accept_piece(9, Some("!".to_string()));
    assert_eq!(step.piece.as_deref(), Some("!"));
    assert_eq!(step.forward_at, None);
    assert!(!turn.wants_token());
    assert_eq!(turn.into_output(), "!");
}

#[test]
fn the_end_token_adds_nothing() {
    let mut turn = Turn::after_prompt(1, options(3, &[]), 2);
    let step = turn.accept_piece(2, Some("</s>".to_string()));
    assert_eq!(step.piece, None);
    assert_eq!(step.forward_at, None);
    assert_eq!(turn.into_output(), "");
}

#[test]
fn tokens_outside_the_vocabulary_are_not_taken() {
    let t = words();
    let mut turn = Turn::after_prompt(4, options(3, &[]), 2);
    assert!(turn.try_accept(&t, 9).is_none());
    assert!(turn.try_accept(&t, u32::MAX).is_none());
    assert_eq!(turn.try_accept(&t, 8).unwrap().forward_at, Some(4));
    // The end token is never looked up.
    let mut turn = Turn::after_prompt(4, options(3, &[]), 1000);
    assert_eq!(turn.try_accept(&t, 1000).unwrap().forward_at, None);
    // Nor is a position counted past the last.
    let mut turn = Turn::after_prompt(usize::MAX, options(3, &[]), 2);
    assert!(turn.try_accept(&t, 3).is_none());
    assert!(turn.wants_token());
}

#[test]
fn accepting_a_known_token() {
    let t = words();
    let (_, mut turn) = Turn::begin(&t, "m", "hi", options(5, &[])).unwrap().unwrap();
    let step = turn.accept(&t, 4);
    assert_eq!(step.piece.as_deref(), Some("!"));
    assert_eq!(step.forward_at, Some(2));
    assert_eq!(turn.accept(&t, 2).forward_at, None);
    assert_eq!(turn.into_output(), "!");
}

#[test]
fn an_empty_prompt_has_no_turn() {
    let t = tokenizer("gpt2", &["a", "b", "</s>"]);
    assert!(Turn::begin(&t, "m", "", options(5, &[])).unwrap().is_none());
    let (ids, _) = Turn::begin(&t, "m", "ab", options(5, &[])).unwrap().unwrap();
    assert_eq!(ids, [0, 1]);
}

#[test]
fn a_prompt_that_cannot_be_tokenized() {
    let t = words();
    let prompt = "x".repeat(10 * 1024 * 1024 + 1);
    assert!(can_encode(&t, &prompt));
    assert_eq!(
        Turn::try_begin(&t, "/m/q.gguf", &prompt, options(5, &[])).unwrap().unwrap_err(),
        "tokenizing failed for /m/q.gguf: Tokenization failed: Input text too large: 10485761 \
         bytes (max: 10485760)"
    );
}

/// A text of `size` bytes that makes the patterns go back over each character.
fn long_text(piece: &str, last: &str, size: usize) -> String {
    piece.repeat(size - 1) + last
}

/// Takes a text of `limit` bytes and none that is longer.
fn takes_up_to(t: &Tokenizer, piece: &str, last: &str, limit: usize) {
    let over = long_text(piece, last, limit + 1);
    assert!(!can_encode(t, &over));
    assert!(Turn::try_begin(t, "m", &over, options(5, &[])).is_none());
    let text = long_text(piece, last, limit);
    assert!(can_encode(t, &text));
    let (ids, turn) = Turn::try_begin(t, "m", &text, options(5, &[])).unwrap().unwrap().unwrap();
    assert!(!ids.is_empty() && ids.len() <= 3 * limit);
    assert!(turn.wants_token());
}

fn bytes_with(patterns: &str) -> Tokenizer {
    tokenizer_with("gpt2", &["a", "b", "</s>", "x"], patterns, 0)
}

#[test]
fn blanks_before_a_word_at_the_limit() {
    takes_up_to(&bytes_with("qwen2"), " ", "x", 999_900);
}

#[test]
fn capitals_before_a_word_at_the_limit() {
    takes_up_to(&bytes_with("tekken"), "A", "x", 999_900);
}

#[test]
fn letters_between_numbers_at_the_limit() {
    takes_up_to(&bytes_with("superbpe"), "a", "1", 499_950);
}

#[test]
fn characters_that_no_pattern_takes_at_the_limit() {
    takes_up_to(&bytes_with("deepseek-v3"), "\u{1}", "x", 111_100);
    takes_up_to(&bytes_with("hunyuan-dense"), "\u{1}", "x", 111_100);
}

#[test]
fn sentence_pieces_at_the_limit() {
    takes_up_to(&words(), "x", "x", 999_995);
    // A blank counts three times.
    takes_up_to(&words(), " ", "x", 333_332);
}

#[test]
fn word_pieces_at_the_limit() {
    takes_up_to(&tokenizer("bert", &["<unk>", "!", "</s>", "\u{2581}"]), "!", "!", 499_997);
}

#[test]
fn other_kinds_at_the_limit() {
    takes_up_to(&tokenizer("rwkv", &["<unk>", "a", "</s>"]), "a", "a", 999_995);
    takes_up_to(&tokenizer("t5", &["<unk>", "a", "</s>"]), "a", "a", 999_995);
}

#[test]
fn a_prompt_that_is_too_large_once_its_blanks_are_marked() {
    let t = words();
    let prompt = " ".repeat(4_000_000);
    assert_eq!(
        Turn::try_begin(&t, "m", &prompt, options(5, &[])).unwrap().unwrap_err(),
        "tokenizing failed for m: Tokenization failed: Processed text too large: 12000000 bytes \
         (max: 10485760)"
    );
    assert!(can_encode(&t, &" ".repeat(3_495_254)));
    assert!(!can_encode(&t, &" ".repeat(3_495_253)));
}

/// The limit counts bytes.
#[test]
fn the_limit_is_in_bytes() {
    let t = bytes_with("deepseek-v3");
    assert!(can_encode(&t, &"\u{ad}".repeat(55_550)));
    assert!(!can_encode(&t, &"\u{ad}".repeat(55_551)));
}

#[test]
fn an_unknown_token_outside_the_vocabulary() {
    for model in ["llama", "gpt2"] {
        for unknown in [3, u32::MAX] {
            let t = tokenizer_with(model, &["a", "b", "</s>"], "default", unknown);
            assert!(!can_encode(&t, "a"));
            assert!(Turn::try_begin(&t, "m", "a", options(5, &[])).is_none());
            // What is refused for its size is refused with the message all the same.
            let long = "x".repeat(10 * 1024 * 1024 + 1);
            assert!(Turn::try_begin(&t, "m", &long, options(5, &[])).unwrap().is_err());
        }
        let t = tokenizer_with(model, &["a", "b", "</s>"], "default", 2);
        assert!(can_encode(&t, "a"));
    }
}

#[test]
fn only_some_kinds_measure_their_input() {
    let long = "x".repeat(10 * 1024 * 1024 + 1);
    assert!(can_encode(&tokenizer("qwen2", &["a", "b", "</s>"]), &long));
    assert!(!can_encode(&tokenizer("bert", &["a", "b", "</s>"]), &long));
    assert!(!can_encode(&words(), &long[1..]));
}
