//! What the decisions of the candle engine are, told by numbers, texts and tokens.
use super::{
    after, architecture, exceeds, is_answer, is_beginning, is_greedy_pick, is_known, is_nan,
    is_qwen3_family, rank, refusal, Step, Taken, Turn, TurnState,
};
use crate::engine::gguf::metadata_texts;
use crate::engine::tokenizer::{encoded, end_token, vocabulary_size};
use crate::engine::GenOptions;
use candle_core::quantized::gguf_file::Content;
use shimmytok::Tokenizer;
use vstd::arithmetic::power2::{lemma_pow2_pos, lemma_pow2_strictly_increases, lemma_pow2_unfold, pow2};
use vstd::prelude::*;

verus! {

// ---------------------------------------------------------------------------------------
// Architectures
// ---------------------------------------------------------------------------------------

/// The family is that of the architectures that begin with `qwen3`, whatever follows.
pub proof fn law_family_is_told_by_its_beginning(architecture: Seq<char>, rest: Seq<char>)
    ensures
        is_qwen3_family("qwen3"@ + rest),
        is_qwen3_family(architecture) ==> architecture.len() >= 5 && architecture.take(5)
            == seq!['q', 'w', 'e', 'n', '3'],
{
    reveal_strlit("qwen3");
    reveal_strlit("qwen35");
    assert(("qwen3"@ + rest).take(5) == "qwen3"@);
    super::law_one_prefix_tells_the_family(architecture);
    if is_qwen3_family(architecture) {
        assert(architecture.take(5) == "qwen3"@);
    }
}

/// A refusal quotes the architecture.
pub proof fn law_refusal_quotes_the_architecture(architecture: Seq<char>)
    ensures
        refusal(architecture) == "candle backend implements qwen3-family models; this GGUF is '"@
            + architecture + "'"@,
{
}

/// The architecture of a file is the text under `general.architecture`, and empty without one.
pub proof fn law_architecture_of_a_file(content: Content)
    ensures
        metadata_texts(content).dom().contains("general.architecture"@) ==> architecture(content)
            == metadata_texts(content)["general.architecture"@],
        !metadata_texts(content).dom().contains("general.architecture"@) ==> architecture(
            content,
        ).len() == 0,
{
}

// ---------------------------------------------------------------------------------------
// The greedy pick
// ---------------------------------------------------------------------------------------

/// The exponent field of a single-precision number.
pub open spec fn exponent(bits: u32) -> nat {
    ((bits as nat / 0x80_0000) % 256) as nat
}

/// The fraction field of a single-precision number.
pub open spec fn fraction(bits: u32) -> nat {
    (bits as nat % 0x80_0000) as nat
}

/// The number that the fields of a finite one stand for, without its sign, in units of the
/// least positive number.
pub open spec fn units(exponent: nat, fraction: nat) -> nat {
    if exponent == 0 {
        fraction
    } else {
        (0x80_0000 + fraction) * pow2((exponent - 1) as nat)
    }
}

/// The number that the bits of a finite one stand for, in units of the least positive number.
pub open spec fn value(bits: u32) -> int {
    if bits >= 0x8000_0000 {
        -units(exponent(bits), fraction(bits))
    } else {
        units(exponent(bits), fraction(bits)) as int
    }
}

/// Numbers grow with their exponents, and with their fractions where those agree.
proof fn lemma_units_grow(e: nat, f: nat, g: nat, h: nat)
    requires
        f < 0x80_0000,
        h < 0x80_0000,
        e < g || (e == g && f < h),
    ensures
        units(e, f) < units(g, h),
{
    if e == g {
        if e > 0 {
            let p = pow2((e - 1) as nat);
            lemma_pow2_pos((e - 1) as nat);
            assert((0x80_0000 + f) * p < (0x80_0000 + h) * p) by (nonlinear_arith)
                requires
                    p > 0,
                    f < h,
            ;
        }
    } else {
        let q = pow2((g - 1) as nat);
        lemma_pow2_pos((g - 1) as nat);
        assert((0x80_0000 + h) * q >= 0x80_0000 * q) by (nonlinear_arith)
            requires
                q > 0,
                h >= 0,
        ;
        if e == 0 {
            assert(0x80_0000 * q >= 0x80_0000) by (nonlinear_arith)
                requires
                    q > 0,
            ;
        } else {
            let p = pow2((e - 1) as nat);
            lemma_pow2_pos((e - 1) as nat);
            lemma_pow2_unfold(e);
            assert(pow2(e) == 2 * p);
            if e < g - 1 {
                lemma_pow2_strictly_increases(e, (g - 1) as nat);
            }
            assert(q >= 2 * p);
            assert((0x80_0000 + f) * p < 0x100_0000 * p) by (nonlinear_arith)
                requires
                    p > 0,
                    f < 0x80_0000,
            ;
            assert(0x80_0000 * q >= 0x100_0000 * p) by (nonlinear_arith)
                requires
                    q >= 2 * p,
            ;
        }
    }
}

/// Of two finite numbers the greater exceeds the other. The two zeros are equal.
pub proof fn law_finite_numbers_compare_by_value(a: u32, b: u32)
    requires
        exponent(a) < 255,
        exponent(b) < 255,
    ensures
        exceeds(a, b) <==> value(a) > value(b),
{
    let (e, f) = (exponent(a), fraction(a));
    let (g, h) = (exponent(b), fraction(b));
    if e < g || (e == g && f < h) {
        lemma_units_grow(e, f, g, h);
    } else if g < e || (g == e && h < f) {
        lemma_units_grow(g, h, e, f);
    }
    if e > 0 || f > 0 {
        lemma_units_grow(0, 0, e, f);
    }
    if g > 0 || h > 0 {
        lemma_units_grow(0, 0, g, h);
    }
    let m = if a >= 0x8000_0000 {
        a - 0x8000_0000
    } else {
        a as int
    };
    let n = if b >= 0x8000_0000 {
        b - 0x8000_0000
    } else {
        b as int
    };
    assert(m == e * 0x80_0000 + f);
    assert(n == g * 0x80_0000 + h);
}

/// The ranks of positive numbers are ordered as their bits are, those of negative numbers the
/// other way round, and a positive number ranks above a negative one.
pub proof fn law_ranks_are_strict(a: u32, b: u32)
    ensures
        a < 0x8000_0000 && b < 0x8000_0000 ==> (rank(a) > rank(b) <==> a > b),
        a >= 0x8000_0000 && b >= 0x8000_0000 ==> (rank(a) > rank(b) <==> a < b),
        0 < a < 0x8000_0000 && b >= 0x8000_0000 ==> rank(a) > rank(b),
        rank(0) == 0 && rank(0x8000_0000) == 0,
{
}

/// Infinity exceeds every finite number, and every finite number exceeds minus infinity.
pub proof fn law_infinities(a: u32)
    requires
        exponent(a) < 255,
    ensures
        exceeds(0x7f80_0000, a),
        exceeds(a, 0xff80_0000),
        exceeds(0x7f80_0000, 0xff80_0000),
        !exceeds(0x7f80_0000, 0x7f80_0000) && !exceeds(0xff80_0000, 0xff80_0000),
        !exceeds(a, 0x7f80_0000) && !exceeds(0xff80_0000, a),
{
}

/// A number with the greatest exponent and a fraction is a NaN, and no other is. It exceeds
/// nothing, and nothing exceeds it.
pub proof fn law_nan(a: u32, b: u32)
    ensures
        is_nan(a) <==> exponent(a) == 255 && fraction(a) != 0,
        is_nan(a) ==> !exceeds(a, b) && !exceeds(b, a),
{
}

/// The greedy pick from finite logits is the first of the greatest.
pub proof fn law_pick_is_the_first_of_the_greatest(logits: Seq<u32>, i: int)
    requires
        is_greedy_pick(logits, i),
        logits.len() > 0,
        forall|j: int| 0 <= j < logits.len() ==> exponent(#[trigger] logits[j]) < 255,
    ensures
        0 <= i < logits.len(),
        forall|j: int| 0 <= j < logits.len() ==> value(#[trigger] logits[j]) <= value(logits[i]),
        forall|j: int| 0 <= j < i ==> value(#[trigger] logits[j]) < value(logits[i]),
{
    assert forall|j: int| 0 <= j < logits.len() implies value(#[trigger] logits[j]) <= value(
        logits[i],
    ) by {
        law_finite_numbers_compare_by_value(logits[j], logits[i]);
        assert(!exceeds(logits[j], logits[i]));
    }
    assert forall|j: int| 0 <= j < i implies value(#[trigger] logits[j]) < value(logits[i]) by {
        law_finite_numbers_compare_by_value(logits[i], logits[j]);
        law_nan(logits[j], logits[i]);
        assert(is_nan(logits[j]) || exceeds(logits[i], logits[j]));
    }
}

/// Where there are NaNs among the logits: one that comes first is picked, and any other is
/// passed over, so that the pick is the first that nothing exceeds. Without logits the pick is
/// the first token.
pub proof fn law_pick_among_nans(logits: Seq<u32>, i: int)
    requires
        is_greedy_pick(logits, i),
    ensures
        logits.len() == 0 ==> i == 0,
        logits.len() > 0 && is_nan(logits[0]) ==> i == 0,
        logits.len() > 0 && !is_nan(logits[0]) ==> {
            &&& 0 <= i < logits.len()
            &&& !is_nan(logits[i])
            &&& forall|j: int| 0 <= j < logits.len() ==> !exceeds(#[trigger] logits[j], logits[i])
            &&& forall|j: int|
                0 <= j < i && !is_nan(#[trigger] logits[j]) ==> exceeds(logits[i], logits[j])
        },
{
    if logits.len() > 0 && is_nan(logits[0]) && i > 0 {
        let first: int = 0;
        assert(is_nan(logits[first]));
    }
}

// ---------------------------------------------------------------------------------------
// A turn
// ---------------------------------------------------------------------------------------

/// A turn begins with what it is given: the budget, all the stop texts, the end token and the
/// positions of the prompt. Nothing is taken and nothing is put out.
pub proof fn law_a_turn_begins_with_what_it_is_given(
    length: nat,
    max_tokens: nat,
    stops: Seq<Seq<char>>,
    eos: u32,
)
    ensures
        ({
            let start = TurnState::initial(length, max_tokens, stops, eos);
            &&& start.max_tokens == max_tokens
            &&& start.stops == stops
            &&& start.eos == eos
            &&& start.offset == length
            &&& start.taken == 0
            &&& start.out.len() == 0
            &&& !start.stopped
            &&& start.wants_token() <==> max_tokens > 0
        }),
{
}

/// The turn after a further token.
proof fn lemma_push(start: TurnState, tokens: Seq<Taken>, further: Taken)
    ensures
        after(start, tokens.push(further)) == after(start, tokens).next(
            further.token,
            further.piece,
        ),
{
    assert(tokens.push(further).drop_last() == tokens);
}

/// What a turn keeps while it takes tokens.
proof fn lemma_kept(start: TurnState, tokens: Seq<Taken>)
    ensures
        after(start, tokens).max_tokens == start.max_tokens,
        after(start, tokens).stops == start.stops,
        after(start, tokens).eos == start.eos,
        after(start, tokens).taken == start.taken + tokens.len(),
    decreases tokens.len(),
{
    if tokens.len() > 0 {
        lemma_kept(start, tokens.drop_last());
    }
}

/// A turn ends on each of the stop texts that it began with: once a token makes the output end
/// in one of them, the turn wants no further token.
pub proof fn law_every_stop_text_ends_the_turn(
    length: nat,
    max_tokens: nat,
    stops: Seq<Seq<char>>,
    eos: u32,
    tokens: Seq<Taken>,
    token: u32,
    piece: Seq<char>,
    k: int,
    rest: Seq<char>,
)
    requires
        0 <= k < stops.len(),
        stops[k].len() > 0,
        token != eos,
        after(TurnState::initial(length, max_tokens, stops, eos), tokens).out + piece == rest
            + stops[k],
    ensures
        !after(
            TurnState::initial(length, max_tokens, stops, eos),
            tokens.push(Taken { token, piece: Some(piece) }),
        ).wants_token(),
        after(
            TurnState::initial(length, max_tokens, stops, eos),
            tokens.push(Taken { token, piece: Some(piece) }),
        ).out == rest + stops[k],
{
    let start = TurnState::initial(length, max_tokens, stops, eos);
    let before = after(start, tokens);
    lemma_push(start, tokens, Taken { token, piece: Some(piece) });
    lemma_kept(start, tokens);
    let out = before.out + piece;
    assert(stops[k].is_suffix_of(out)) by {
        assert(out.skip(out.len() - stops[k].len()) == stops[k]);
    }
    assert(before.stops[k] == stops[k]);
}

/// The end token ends a turn and adds nothing to the output, whatever it decodes to.
pub proof fn law_end_token_ends_the_turn(
    length: nat,
    max_tokens: nat,
    stops: Seq<Seq<char>>,
    eos: u32,
    tokens: Seq<Taken>,
    piece: Option<Seq<char>>,
)
    ensures
        ({
            let start = TurnState::initial(length, max_tokens, stops, eos);
            let end = after(start, tokens.push(Taken { token: eos, piece }));
            !end.wants_token() && end.out == after(start, tokens).out
        }),
{
    let start = TurnState::initial(length, max_tokens, stops, eos);
    lemma_push(start, tokens, Taken { token: eos, piece });
    lemma_kept(start, tokens);
}

/// A turn goes on within its budget where a token is not the end token and does not make the
/// output end in a stop text.
pub proof fn law_nothing_else_ends_the_turn(
    length: nat,
    max_tokens: nat,
    stops: Seq<Seq<char>>,
    eos: u32,
    tokens: Seq<Taken>,
    token: u32,
    piece: Option<Seq<char>>,
)
    requires
        token != eos,
        tokens.len() + 1 < max_tokens,
        piece is Some ==> forall|k: int, rest: Seq<char>|
            0 <= k < stops.len() && stops[k].len() > 0 ==> after(
                TurnState::initial(length, max_tokens, stops, eos),
                tokens,
            ).out + piece.unwrap() != #[trigger] (rest + stops[k]),
    ensures
        after(
            TurnState::initial(length, max_tokens, stops, eos),
            tokens.push(Taken { token, piece }),
        ).wants_token(),
{
    let start = TurnState::initial(length, max_tokens, stops, eos);
    let before = after(start, tokens);
    lemma_push(start, tokens, Taken { token, piece });
    lemma_kept(start, tokens);
    if before.ends_on(token, piece) {
        let out = before.out + piece.unwrap();
        let k = choose|k: int|
            0 <= k < stops.len() && (#[trigger] stops[k]).len() > 0 && stops[k].is_suffix_of(out);
        let rest = out.take(out.len() - stops[k].len());
        assert(out == rest + stops[k]);
    }
}

/// A turn wants no token once it has taken as many as its budget allows.
pub proof fn law_the_budget_ends_the_turn(
    length: nat,
    max_tokens: nat,
    stops: Seq<Seq<char>>,
    eos: u32,
    tokens: Seq<Taken>,
)
    requires
        tokens.len() >= max_tokens,
    ensures
        !after(TurnState::initial(length, max_tokens, stops, eos), tokens).wants_token(),
{
    lemma_kept(TurnState::initial(length, max_tokens, stops, eos), tokens);
}

/// Each token but the end token adds what it decodes to behind the output, and one that does
/// not decode adds nothing.
pub proof fn law_tokens_add_what_they_decode_to(
    start: TurnState,
    tokens: Seq<Taken>,
    token: u32,
    piece: Option<Seq<char>>,
)
    requires
        token != start.eos,
    ensures
        piece is Some ==> after(start, tokens.push(Taken { token, piece })).out == after(
            start,
            tokens,
        ).out + piece.unwrap(),
        piece is None ==> after(start, tokens.push(Taken { token, piece })).out == after(
            start,
            tokens,
        ).out,
{
    lemma_push(start, tokens, Taken { token, piece });
    lemma_kept(start, tokens);
}

/// A token that leaves a turn open within its budget goes through the model at the position
/// that is next, which is then counted. One that ends it does not, and is not counted.
pub proof fn law_positions_of_tokens(
    before: TurnState,
    token: u32,
    piece: Option<Seq<char>>,
    step: Step,
)
    requires
        is_answer(step, before, token, piece),
        before.taken + 1 < before.max_tokens,
    ensures
        before.next(token, piece).wants_token() ==> step.forward_at is Some
            && step.forward_at.unwrap() == before.offset && before.next(token, piece).offset
            == before.offset + 1,
        !before.next(token, piece).wants_token() ==> step.forward_at is None && before.next(
            token,
            piece,
        ).offset == before.offset,
{
}

/// A token goes through the model at the next position where it is not the end token and does
/// not make the output end in a stop text, whether or not the budget is spent with it.
pub proof fn law_tokens_go_through_the_model(
    before: TurnState,
    token: u32,
    piece: Option<Seq<char>>,
    step: Step,
)
    requires
        is_answer(step, before, token, piece),
        token != before.eos,
        piece is Some ==> forall|k: int, rest: Seq<char>|
            0 <= k < before.stops.len() && before.stops[k].len() > 0 ==> before.out
                + piece.unwrap() != #[trigger] (rest + before.stops[k]),
    ensures
        step.forward_at is Some,
        step.forward_at.unwrap() == before.offset,
        before.next(token, piece).offset == before.offset + 1,
        before.next(token, piece).taken == before.taken + 1,
{
    if before.ends_on(token, piece) {
        let out = before.out + piece.unwrap();
        let k = choose|k: int|
            0 <= k < before.stops.len() && (#[trigger] before.stops[k]).len() > 0
                && before.stops[k].is_suffix_of(out);
        let rest = out.take(out.len() - before.stops[k].len());
        assert(out == rest + before.stops[k]);
    }
}

/// A token that makes the output end in a stop text does not go through the model.
pub proof fn law_stop_texts_keep_tokens_from_the_model(
    before: TurnState,
    token: u32,
    piece: Seq<char>,
    step: Step,
    k: int,
    rest: Seq<char>,
)
    requires
        is_answer(step, before, token, Some(piece)),
        token != before.eos,
        0 <= k < before.stops.len(),
        before.stops[k].len() > 0,
        before.out + piece == rest + before.stops[k],
    ensures
        step.forward_at is None,
        step.piece is Some,
        step.piece.unwrap()@ == piece,
        before.next(token, Some(piece)).offset == before.offset,
{
    let out = before.out + piece;
    assert(before.stops[k].is_suffix_of(out)) by {
        assert(out.skip(out.len() - before.stops[k].len()) == before.stops[k]);
    }
}

/// The listener is handed what a token decodes to, unless it is the end token.
pub proof fn law_the_listener_hears_every_piece(
    before: TurnState,
    token: u32,
    piece: Option<Seq<char>>,
    step: Step,
)
    requires
        is_answer(step, before, token, piece),
    ensures
        token == before.eos ==> step.piece is None && step.forward_at is None,
        token != before.eos && piece is Some ==> step.piece is Some && step.piece.unwrap()@
            == piece.unwrap(),
        token != before.eos && piece is None ==> step.piece is None && step.forward_at is Some
            && step.forward_at.unwrap() == before.offset,
{
}

/// A turn begins behind all the tokens of its prompt with the options that it is given. A
/// prompt without tokens has no turn. A prompt that cannot be tokenized gives a message with
/// the path of the model and the error.
pub proof fn law_beginnings(
    begun: Result<Option<(Vec<u32>, Turn)>, String>,
    tokenizer: Tokenizer,
    path: Seq<char>,
    prompt: Seq<char>,
    options: GenOptions,
)
    requires
        is_beginning(begun, tokenizer, path, prompt, options),
    ensures
        match encoded(tokenizer, prompt, true) {
            Ok(ids) => {
                &&& ids.len() == 0 ==> begun is Ok && begun->Ok_0 is None
                &&& ids.len() > 0 ==> {
                    &&& begun matches Ok(Some((tokens, turn)))
                    &&& tokens@ == ids
                    &&& turn@.offset == ids.len()
                    &&& turn@.eos == end_token(tokenizer)
                    &&& turn@.max_tokens == options.max_tokens
                    &&& turn@.taken == 0
                    &&& turn@.out.len() == 0
                    &&& !turn@.stopped
                    &&& turn@.stops.len() == options.stop_tokens@.len()
                    &&& forall|i: int|
                        0 <= i < options.stop_tokens@.len() ==> #[trigger] turn@.stops[i]
                            == options.stop_tokens@[i]@
                }
            },
            Err(error) => begun matches Err(message) && message@ == "tokenizing failed for "@ + path
                + ": "@ + error,
        },
{
}

/// A token is counted, adds what it decodes to unless it is the end token, and changes neither
/// the budget nor the stop texts nor the end token.
pub proof fn law_what_a_token_changes(before: TurnState, token: u32, piece: Option<Seq<char>>)
    ensures
        ({
            let next = before.next(token, piece);
            &&& next.max_tokens == before.max_tokens
            &&& next.stops == before.stops
            &&& next.eos == before.eos
            &&& next.taken == before.taken + 1
            &&& token != before.eos && piece is Some ==> next.out == before.out + piece.unwrap()
            &&& token == before.eos || piece is None ==> next.out == before.out
        }),
{
}

/// A turn is over after the end token, after a stop text and with its budget.
pub proof fn law_when_a_turn_is_over(
    before: TurnState,
    token: u32,
    piece: Seq<char>,
    k: int,
    rest: Seq<char>,
)
    ensures
        !before.next(before.eos, Some(piece)).wants_token(),
        !before.next(before.eos, None).wants_token(),
        before.taken + 1 >= before.max_tokens ==> !before.next(token, Some(piece)).wants_token()
            && !before.next(token, None).wants_token(),
        0 <= k < before.stops.len() && before.stops[k].len() > 0 && before.out + piece == rest
            + before.stops[k] ==> !before.next(token, Some(piece)).wants_token(),
{
    let out = before.out + piece;
    if 0 <= k < before.stops.len() && out == rest + before.stops[k] {
        assert(before.stops[k].is_suffix_of(out)) by {
            assert(out.skip(out.len() - before.stops[k].len()) == before.stops[k]);
        }
    }
}

/// A turn goes on within its budget after any other token.
pub proof fn law_when_a_turn_goes_on(before: TurnState, token: u32, piece: Option<Seq<char>>)
    requires
        token != before.eos,
        before.taken + 1 < before.max_tokens,
        piece is Some ==> forall|k: int, rest: Seq<char>|
            0 <= k < before.stops.len() && before.stops[k].len() > 0 ==> before.out
                + piece.unwrap() != #[trigger] (rest + before.stops[k]),
    ensures
        before.next(token, piece).wants_token(),
{
    if before.ends_on(token, piece) {
        let out = before.out + piece.unwrap();
        let k = choose|k: int|
            0 <= k < before.stops.len() && (#[trigger] before.stops[k]).len() > 0
                && before.stops[k].is_suffix_of(out);
        let rest = out.take(out.len() - before.stops[k].len());
        assert(out == rest + before.stops[k]);
    }
}

/// A turn is what it began as before the first token, and after each token what that one makes
/// of it.
pub proof fn law_a_turn_token_by_token(start: TurnState, tokens: Seq<Taken>, further: Taken)
    ensures
        after(start, Seq::empty()) == start,
        after(start, tokens.push(further)) == after(start, tokens).next(
            further.token,
            further.piece,
        ),
{
    lemma_push(start, tokens, further);
}

/// A turn can ask for what any token of the vocabulary decodes to, and takes the end token
/// without asking.
pub proof fn law_known_tokens(tokenizer: Tokenizer, state: TurnState, token: u32)
    ensures
        token < vocabulary_size(tokenizer) ==> is_known(tokenizer, state, token),
        token == state.eos ==> is_known(tokenizer, state, token),
        token >= vocabulary_size(tokenizer) && token != state.eos ==> !is_known(
            tokenizer,
            state,
            token,
        ),
{
}

} // verus!
