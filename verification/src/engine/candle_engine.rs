//! The decisions of the candle engine: which models it takes, and how a turn of greedy
//! decoding proceeds.
//!
//! A turn alternates with forward passes of the model. `begin` gives the tokens of the prompt,
//! which go through the model at offset zero. As long as the turn wants a token, the greedy
//! pick from the latest logits is handed to it, and it answers with the text to emit and the
//! offset at which that token goes through the model in turn.
use super::gguf::{metadata_text, metadata_texts};
use super::tokenizer::{
    can_encode, decode, decoded, encode, encoded, end_token, is_encodable, is_too_large,
    vocabulary_size,
};
use super::GenOptions;
use crate::text;
use candle_core::quantized::gguf_file::Content;
use shimmytok::Tokenizer;
use vstd::prelude::*;
use vstd::string::*;

pub mod laws;

verus! {

/// The engine for GGUF models of the qwen3 family.
#[derive(Debug, Clone, Copy)]
pub struct CandleEngine;

impl CandleEngine {
    pub fn new() -> (r: Self)
        ensures
            r == CandleEngine,
    {
        CandleEngine
    }
}

impl Default for CandleEngine {
    fn default() -> (r: Self)
        ensures
            r == CandleEngine,
    {
        Self::new()
    }
}

// ---------------------------------------------------------------------------------------
// Architectures
// ---------------------------------------------------------------------------------------

/// Whether the engine implements an architecture.
pub open spec fn is_qwen3_family(architecture: Seq<char>) -> bool {
    "qwen3"@.is_prefix_of(architecture) || "qwen35"@.is_prefix_of(architecture)
}

/// What is said of an architecture that the engine does not implement.
pub open spec fn refusal(architecture: Seq<char>) -> Seq<char> {
    "candle backend implements qwen3-family models; this GGUF is '"@ + architecture + "'"@
}

/// Whether a model can be loaded, by the architecture that its file names, if any.
pub fn check_architecture(architecture: Option<&str>) -> (r: Result<(), String>)
    ensures
        ({
            let named = match architecture {
                Some(architecture) => architecture@,
                None => Seq::empty(),
            };
            match r {
                Ok(_) => is_qwen3_family(named),
                Err(message) => !is_qwen3_family(named) && message@ == refusal(named),
            }
        }),
{
    let none = String::new();
    let named = match architecture {
        Some(architecture) => architecture,
        None => none.as_str(),
    };
    if text::starts_with(named, "qwen3") || text::starts_with(named, "qwen35") {
        return Ok(());
    }
    let mut message = "candle backend implements qwen3-family models; this GGUF is '".to_owned();
    message.append(named);
    message.append("'");
    Err(message)
}

/// The entry of a file's metadata that names its architecture.
pub const ARCHITECTURE_KEY: &'static str = "general.architecture";

/// The architecture that a file names, empty where it names none.
pub open spec fn architecture(content: Content) -> Seq<char> {
    if metadata_texts(content).dom().contains(ARCHITECTURE_KEY@) {
        metadata_texts(content)[ARCHITECTURE_KEY@]
    } else {
        Seq::empty()
    }
}

/// Whether the model in a file can be loaded.
pub fn check_content(content: &Content) -> (r: Result<(), String>)
    ensures
        match r {
            Ok(_) => is_qwen3_family(architecture(*content)),
            Err(message) => !is_qwen3_family(architecture(*content)) && message@ == refusal(
                architecture(*content),
            ),
        },
{
    match metadata_text(content, ARCHITECTURE_KEY) {
        Some(named) => check_architecture(Some(named.as_str())),
        None => check_architecture(None),
    }
}

/// The family is told by the shorter of the two prefixes alone.
pub proof fn law_one_prefix_tells_the_family(architecture: Seq<char>)
    ensures
        is_qwen3_family(architecture) <==> "qwen3"@.is_prefix_of(architecture),
{
    reveal_strlit("qwen3");
    reveal_strlit("qwen35");
    if "qwen35"@.is_prefix_of(architecture) {
        assert("qwen3"@ == "qwen35"@.take(5));
        assert("qwen3"@ == architecture.take(5));
    }
}

// ---------------------------------------------------------------------------------------
// The greedy pick
// ---------------------------------------------------------------------------------------

/// The bits of a logit, a single-precision number, without its sign.
pub open spec fn magnitude(bits: u32) -> int {
    if bits >= 0x8000_0000 {
        bits - 0x8000_0000
    } else {
        bits as int
    }
}

/// Whether the bits are those of a NaN.
pub open spec fn is_nan(bits: u32) -> bool {
    magnitude(bits) > 0x7f80_0000
}

/// The place of a number among the others: numbers compare as their ranks do. The two zeros
/// share one.
pub open spec fn rank(bits: u32) -> int {
    if bits >= 0x8000_0000 {
        -magnitude(bits)
    } else {
        magnitude(bits)
    }
}

/// Whether the number with the bits `a` is greater than the one with the bits `b`. A NaN is
/// neither greater nor less than anything.
pub open spec fn exceeds(a: u32, b: u32) -> bool {
    !is_nan(a) && !is_nan(b) && rank(a) > rank(b)
}

/// Whether `i` is the greedy pick: nothing exceeds it, and it exceeds every number before it.
/// Where the first logit is a NaN, nothing exceeds that, and it is the pick.
pub open spec fn is_greedy_pick(logits: Seq<u32>, i: int) -> bool {
    if logits.len() == 0 {
        i == 0
    } else {
        &&& 0 <= i < logits.len()
        &&& forall|j: int| 0 <= j < logits.len() ==> !exceeds(#[trigger] logits[j], logits[i])
        &&& forall|j: int|
            0 <= j < i ==> !is_nan(logits[0]) && (is_nan(#[trigger] logits[j]) || exceeds(
                logits[i],
                logits[j],
            ))
        &&& i > 0 ==> !is_nan(logits[i])
    }
}

fn number_exceeds(a: u32, b: u32) -> (r: bool)
    ensures
        r == exceeds(a, b),
{
    let (a_negative, a_magnitude): (bool, u32) = if a >= 0x8000_0000 {
        (true, a - 0x8000_0000)
    } else {
        (false, a)
    };
    let (b_negative, b_magnitude): (bool, u32) = if b >= 0x8000_0000 {
        (true, b - 0x8000_0000)
    } else {
        (false, b)
    };
    if a_magnitude > 0x7f80_0000 || b_magnitude > 0x7f80_0000 {
        false
    } else if a_negative {
        b_negative && a_magnitude < b_magnitude
    } else if b_negative {
        a_magnitude > 0 || b_magnitude > 0
    } else {
        a_magnitude > b_magnitude
    }
}

/// Greedy pick from the logits of one position, each given by its bits.
pub fn argmax(logits: &[u32]) -> (r: u32)
    ensures
        exists|i: int| #[trigger] is_greedy_pick(logits@, i) && r == i as u32,
{
    let mut best: usize = 0;
    let mut i: usize = 0;
    while i < logits.len()
        invariant
            i <= logits.len(),
            i == 0 ==> best == 0,
            i > 0 ==> best < i,
            forall|j: int| 0 <= j < i ==> !exceeds(#[trigger] logits[j], logits[best as int]),
            forall|j: int|
                0 <= j < best ==> !is_nan(logits[0]) && (is_nan(#[trigger] logits[j]) || exceeds(
                    logits[best as int],
                    logits[j],
                )),
            best > 0 ==> !is_nan(logits[best as int]) && !is_nan(logits[0]),
        decreases logits.len() - i,
    {
        if number_exceeds(logits[i], logits[best]) {
            best = i;
        }
        i += 1;
    }
    assert(is_greedy_pick(logits@, best as int));
    best as u32
}

/// There is one greedy pick.
pub proof fn law_greedy_pick_is_unique(logits: Seq<u32>, i: int, j: int)
    requires
        is_greedy_pick(logits, i),
        is_greedy_pick(logits, j),
    ensures
        i == j,
{
    if i < j {
        assert(exceeds(logits[j], logits[i]) || is_nan(logits[i]));
    }
    if j < i {
        assert(exceeds(logits[i], logits[j]) || is_nan(logits[j]));
    }
}

// ---------------------------------------------------------------------------------------
// A turn of generation
// ---------------------------------------------------------------------------------------

/// A turn of generation between two forward passes.
#[derive(Debug)]
pub struct Turn {
    max_tokens: usize,
    stop_tokens: Vec<String>,
    eos: u32,
    offset: usize,
    taken: usize,
    out: String,
    stopped: bool,
}

/// What a `Turn` holds.
pub struct TurnState {
    /// How many tokens may be taken in all.
    pub max_tokens: nat,
    /// The texts that end the turn where the output ends in one of them.
    pub stops: Seq<Seq<char>>,
    /// The token that ends the turn.
    pub eos: u32,
    /// How many positions have gone through the model.
    pub offset: nat,
    /// How many tokens have been taken.
    pub taken: nat,
    /// The output so far.
    pub out: Seq<char>,
    /// Whether a token or a stop text has ended the turn.
    pub stopped: bool,
}

impl View for Turn {
    type V = TurnState;

    closed spec fn view(&self) -> TurnState {
        TurnState {
            max_tokens: self.max_tokens as nat,
            stops: self.stop_tokens@.map_values(|s: String| s@),
            eos: self.eos,
            offset: self.offset as nat,
            taken: self.taken as nat,
            out: self.out@,
            stopped: self.stopped,
        }
    }
}

/// What a turn answers to a token.
#[derive(Debug)]
pub struct Step {
    /// The text to hand to the listener.
    pub piece: Option<String>,
    /// The offset at which the token goes through the model, none where the turn is over.
    pub forward_at: Option<usize>,
}

/// Whether an output ends in a stop text. An empty stop text stops nothing.
pub open spec fn ends_in_stop(out: Seq<char>, stops: Seq<Seq<char>>) -> bool {
    exists|i: int|
        0 <= i < stops.len() && (#[trigger] stops[i]).len() > 0 && stops[i].is_suffix_of(out)
}

impl TurnState {
    /// A turn after a prompt of `length` tokens.
    pub open spec fn initial(
        length: nat,
        max_tokens: nat,
        stops: Seq<Seq<char>>,
        eos: u32,
    ) -> TurnState {
        TurnState {
            max_tokens,
            stops,
            eos,
            offset: length,
            taken: 0,
            out: Seq::empty(),
            stopped: false,
        }
    }

    /// Whether the turn goes on.
    pub open spec fn wants_token(self) -> bool {
        !self.stopped && self.taken < self.max_tokens
    }

    /// What a token adds to the output. The end token adds nothing, and neither does a token
    /// that does not decode.
    pub open spec fn added(self, token: u32, piece: Option<Seq<char>>) -> Seq<char> {
        match piece {
            Some(piece) => if token == self.eos {
                Seq::empty()
            } else {
                piece
            },
            None => Seq::empty(),
        }
    }

    /// Whether a token ends the turn: it is the end token, or what it decodes to completes a
    /// stop text.
    pub open spec fn ends_on(self, token: u32, piece: Option<Seq<char>>) -> bool {
        token == self.eos || (piece is Some && ends_in_stop(
            self.out + self.added(token, piece),
            self.stops,
        ))
    }

    /// The turn after a token that decodes to `piece`.
    pub open spec fn next(self, token: u32, piece: Option<Seq<char>>) -> TurnState {
        TurnState {
            offset: if self.ends_on(token, piece) {
                self.offset
            } else {
                self.offset + 1
            },
            taken: self.taken + 1,
            out: self.out + self.added(token, piece),
            stopped: self.ends_on(token, piece),
            ..self
        }
    }
}

/// Whether `step` is what a turn answers to a token that decodes to `piece`.
pub open spec fn is_answer(
    step: Step,
    before: TurnState,
    token: u32,
    piece: Option<Seq<char>>,
) -> bool {
    &&& step.piece is Some <==> token != before.eos && piece is Some
    &&& step.piece matches Some(text) ==> piece == Some(text@)
    &&& step.forward_at is None <==> before.ends_on(token, piece)
    &&& step.forward_at matches Some(offset) ==> offset == before.offset
}

/// Whether the tokenizer can say what a token decodes to, should the turn ask for it.
pub open spec fn is_known(tokenizer: Tokenizer, state: TurnState, token: u32) -> bool {
    token == state.eos || token < vocabulary_size(tokenizer)
}

/// Whether an output ends in a stop text.
fn completes_stop(out: &str, stops: &Vec<String>) -> (r: bool)
    ensures
        r == ends_in_stop(out@, stops@.map_values(|s: String| s@)),
{
    let ghost texts = stops@.map_values(|s: String| s@);
    let mut i: usize = 0;
    while i < stops.len()
        invariant
            i <= stops.len(),
            texts == stops@.map_values(|s: String| s@),
            forall|j: int|
                0 <= j < i ==> !((#[trigger] texts[j]).len() > 0 && texts[j].is_suffix_of(out@)),
        decreases stops.len() - i,
    {
        let stop = stops[i].as_str();
        assert(texts[i as int] == stop@);
        if !stop.is_empty() && text::ends_with(out, stop) {
            return true;
        }
        i += 1;
    }
    false
}

/// What is said of a prompt that cannot be tokenized.
pub open spec fn tokenizing_failure(path: Seq<char>, error: Seq<char>) -> Seq<char> {
    "tokenizing failed for "@ + path + ": "@ + error
}

/// Whether `begun` is how a turn begins: with the tokens of the prompt, or not at all where it
/// has none, or with the message that it cannot be tokenized.
pub open spec fn is_beginning(
    begun: Result<Option<(Vec<u32>, Turn)>, String>,
    tokenizer: Tokenizer,
    path: Seq<char>,
    prompt: Seq<char>,
    options: GenOptions,
) -> bool {
    match encoded(tokenizer, prompt, true) {
        Ok(ids) => if ids.len() == 0 {
            begun == Ok::<Option<(Vec<u32>, Turn)>, String>(None)
        } else {
            &&& begun matches Ok(Some((tokens, turn)))
            &&& tokens@ == ids
            &&& turn@ == TurnState::initial(
                ids.len(),
                options.max_tokens as nat,
                options.stop_tokens@.map_values(|s: String| s@),
                end_token(tokenizer),
            )
        },
        Err(error) => begun matches Err(message) && message@ == tokenizing_failure(path, error),
    }
}

impl Turn {
    /// A turn after a prompt of `length` tokens.
    pub fn after_prompt(length: usize, options: GenOptions, eos: u32) -> (r: Turn)
        ensures
            r@ == TurnState::initial(
                length as nat,
                options.max_tokens as nat,
                options.stop_tokens@.map_values(|s: String| s@),
                eos,
            ),
    {
        Turn {
            max_tokens: options.max_tokens,
            stop_tokens: options.stop_tokens,
            eos,
            offset: length,
            taken: 0,
            out: String::new(),
            stopped: false,
        }
    }

    /// Begins a turn of the model at `path`: the tokens of the prompt, which go through the
    /// model at offset zero, and the turn that follows. A prompt without tokens has no turn,
    /// and the output is empty.
    pub fn begin(
        tokenizer: &Tokenizer,
        path: &str,
        prompt: &str,
        options: GenOptions,
    ) -> (r: Result<Option<(Vec<u32>, Turn)>, String>)
        requires
            is_encodable(*tokenizer, prompt@),
        ensures
            is_beginning(r, *tokenizer, path@, prompt@, options),
            is_too_large(*tokenizer, prompt@) ==> r is Err,
    {
        match encode(tokenizer, prompt, true) {
            Ok(ids) => {
                if ids.len() == 0 {
                    return Ok(None);
                }
                let turn = Turn::after_prompt(ids.len(), options, tokenizer.eos_token());
                Ok(Some((ids, turn)))
            },
            Err(error) => {
                let mut message = "tokenizing failed for ".to_owned();
                message.append(path);
                message.append(": ");
                message.append(error.as_str());
                Err(message)
            },
        }
    }

    /// Begins a turn if the tokenizer can be given the prompt.
    pub fn try_begin(
        tokenizer: &Tokenizer,
        path: &str,
        prompt: &str,
        options: GenOptions,
    ) -> (r: Option<Result<Option<(Vec<u32>, Turn)>, String>>)
        ensures
            r is Some <==> is_encodable(*tokenizer, prompt@),
            r matches Some(begun) ==> is_beginning(begun, *tokenizer, path@, prompt@, options),
            is_too_large(*tokenizer, prompt@) ==> r matches Some(Err(_)),
    {
        if can_encode(tokenizer, prompt) {
            Some(Turn::begin(tokenizer, path, prompt, options))
        } else {
            None
        }
    }

    /// Whether the turn goes on.
    pub fn wants_token(&self) -> (r: bool)
        ensures
            r == self@.wants_token(),
    {
        !self.stopped && self.taken < self.max_tokens
    }

    /// Takes a token that decodes to `piece`.
    pub fn accept_piece(&mut self, token: u32, piece: Option<String>) -> (r: Step)
        requires
            old(self)@.wants_token(),
            old(self)@.offset < usize::MAX,
        ensures
            ({
                let view = match piece {
                    Some(piece) => Some(piece@),
                    None => None,
                };
                &&& final(self)@ == old(self)@.next(token, view)
                &&& is_answer(r, old(self)@, token, view)
            }),
    {
        let ghost before = self@;
        self.taken = self.taken + 1;
        if token == self.eos {
            self.stopped = true;
            assert(self@ == before.next(token, match piece {
                Some(piece) => Some(piece@),
                None => None,
            }));
            return Step { piece: None, forward_at: None };
        }
        if let Some(piece) = &piece {
            self.out.append(piece.as_str());
            if completes_stop(self.out.as_str(), &self.stop_tokens) {
                self.stopped = true;
            }
        }
        let forward_at = if self.stopped {
            None
        } else {
            Some(self.offset)
        };
        if !self.stopped {
            self.offset = self.offset + 1;
        }
        assert(self@ == before.next(token, match piece {
            Some(piece) => Some(piece@),
            None => None,
        }));
        Step { piece, forward_at }
    }

    /// Takes a token that the tokenizer knows.
    pub fn accept(&mut self, tokenizer: &Tokenizer, token: u32) -> (r: Step)
        requires
            old(self)@.wants_token(),
            old(self)@.offset < usize::MAX,
            is_known(*tokenizer, old(self)@, token),
        ensures
            final(self)@ == old(self)@.next(token, decoded(*tokenizer, seq![token], true)),
            is_answer(r, old(self)@, token, decoded(*tokenizer, seq![token], true)),
    {
        if token == self.eos {
            return self.accept_piece(token, None);
        }
        let one: Vec<u32> = vec![token];
        assert(one@ == seq![token]);
        let piece = decode(tokenizer, one.as_slice(), true);
        self.accept_piece(token, piece)
    }

    /// Takes a token if the tokenizer knows it and a further position can be counted, and
    /// otherwise leaves the turn as it is.
    pub fn try_accept(&mut self, tokenizer: &Tokenizer, token: u32) -> (r: Option<Step>)
        requires
            old(self)@.wants_token(),
        ensures
            r is Some <==> old(self)@.offset < usize::MAX && is_known(
                *tokenizer,
                old(self)@,
                token,
            ),
            r is None ==> final(self)@ == old(self)@,
            r matches Some(step) ==> {
                &&& final(self)@ == old(self)@.next(token, decoded(*tokenizer, seq![token], true))
                &&& is_answer(step, old(self)@, token, decoded(*tokenizer, seq![token], true))
            },
    {
        if self.offset < usize::MAX && (token == self.eos || (token as usize)
            < tokenizer.vocab_size()) {
            Some(self.accept(tokenizer, token))
        } else {
            None
        }
    }

    /// The output of the turn.
    pub fn into_output(self) -> (r: String)
        ensures
            r@ == self@.out,
    {
        self.out
    }
}

/// A token that a turn took, with what it decodes to.
pub struct Taken {
    pub token: u32,
    pub piece: Option<Seq<char>>,
}

/// A turn after the tokens that it took.
pub open spec fn after(start: TurnState, tokens: Seq<Taken>) -> TurnState
    decreases tokens.len(),
{
    if tokens.len() == 0 {
        start
    } else {
        after(start, tokens.drop_last()).next(tokens.last().token, tokens.last().piece)
    }
}

/// Whether the turn wanted each of the tokens when it took it.
pub open spec fn is_run(start: TurnState, tokens: Seq<Taken>) -> bool {
    forall|k: int| 0 <= k < tokens.len() ==> after(start, #[trigger] tokens.take(k)).wants_token()
}

/// Whether `steps` are the answers to the tokens.
pub open spec fn are_answers(start: TurnState, tokens: Seq<Taken>, steps: Seq<Step>) -> bool {
    &&& steps.len() == tokens.len()
    &&& forall|k: int|
        0 <= k < tokens.len() ==> is_answer(
            #[trigger] steps[k],
            after(start, tokens.take(k)),
            tokens[k].token,
            tokens[k].piece,
        )
}

/// What the listener hears over the steps of a turn.
pub open spec fn heard(steps: Seq<Step>) -> Seq<char>
    decreases steps.len(),
{
    if steps.len() == 0 {
        Seq::empty()
    } else {
        heard(steps.drop_last()) + match steps.last().piece {
            Some(piece) => piece@,
            None => Seq::empty(),
        }
    }
}

proof fn lemma_run_prefix(start: TurnState, tokens: Seq<Taken>)
    requires
        is_run(start, tokens),
        tokens.len() > 0,
    ensures
        is_run(start, tokens.drop_last()),
        after(start, tokens.drop_last()).wants_token(),
{
    assert(tokens.drop_last() == tokens.take(tokens.len() - 1));
    assert forall|k: int| 0 <= k < tokens.len() - 1 implies after(
        start,
        #[trigger] tokens.drop_last().take(k),
    ).wants_token() by {
        assert(tokens.drop_last().take(k) == tokens.take(k));
    }
}

/// The output of a turn is what the listener heard, piece by piece.
pub proof fn law_output_is_what_was_heard(
    start: TurnState,
    tokens: Seq<Taken>,
    steps: Seq<Step>,
)
    requires
        are_answers(start, tokens, steps),
    ensures
        after(start, tokens).out == start.out + heard(steps),
    decreases tokens.len(),
{
    if tokens.len() == 0 {
        assert(start.out + heard(steps) == start.out);
    } else {
        let n = tokens.len() - 1;
        assert(tokens.take(n) == tokens.drop_last());
        assert forall|k: int| 0 <= k < n implies is_answer(
            #[trigger] steps.drop_last()[k],
            after(start, tokens.drop_last().take(k)),
            tokens.drop_last()[k].token,
            tokens.drop_last()[k].piece,
        ) by {
            assert(tokens.drop_last().take(k) == tokens.take(k));
            assert(steps.drop_last()[k] == steps[k]);
        }
        law_output_is_what_was_heard(start, tokens.drop_last(), steps.drop_last());
        assert(is_answer(
            steps[n],
            after(start, tokens.take(n)),
            tokens[n].token,
            tokens[n].piece,
        ));
        assert(after(start, tokens).out == start.out + heard(steps));
    }
}

/// A turn takes no more tokens than its options allow.
pub proof fn law_budget_is_kept(start: TurnState, tokens: Seq<Taken>)
    requires
        is_run(start, tokens),
        start.taken <= start.max_tokens,
    ensures
        after(start, tokens).taken == start.taken + tokens.len(),
        after(start, tokens).taken <= start.max_tokens,
        after(start, tokens).max_tokens == start.max_tokens,
    decreases tokens.len(),
{
    if tokens.len() > 0 {
        lemma_run_prefix(start, tokens);
        law_budget_is_kept(start, tokens.drop_last());
    }
}

/// The same turn with another budget.
pub open spec fn with_budget(state: TurnState, max_tokens: nat) -> TurnState {
    TurnState { max_tokens, ..state }
}

/// A budget changes nothing of a turn but when it is spent.
proof fn lemma_budget(start: TurnState, more: nat, tokens: Seq<Taken>)
    ensures
        after(with_budget(start, more), tokens) == with_budget(after(start, tokens), more),
        after(start, tokens).max_tokens == start.max_tokens,
    decreases tokens.len(),
{
    if tokens.len() > 0 {
        lemma_budget(start, more, tokens.drop_last());
    }
}

/// The output of a turn only grows.
proof fn lemma_output_grows(start: TurnState, tokens: Seq<Taken>, further: Seq<Taken>)
    ensures
        after(start, tokens).out.is_prefix_of(after(start, tokens + further).out),
    decreases further.len(),
{
    let whole = tokens + further;
    if further.len() == 0 {
        assert(whole == tokens);
    } else {
        lemma_output_grows(start, tokens, further.drop_last());
        assert(whole.drop_last() == tokens + further.drop_last());
        let before = after(start, whole.drop_last()).out;
        assert(before.is_prefix_of(after(start, whole).out));
        assert(after(start, whole).out.take(after(start, tokens).out.len() as int) == before.take(
            after(start, tokens).out.len() as int,
        ));
    }
}

/// A larger budget only extends the output: what a turn took it takes with the larger budget
/// too, to the same output, and whatever follows is added behind it.
pub proof fn law_larger_budget_extends_output(
    start: TurnState,
    more: nat,
    tokens: Seq<Taken>,
    further: Seq<Taken>,
)
    requires
        is_run(start, tokens),
        more >= start.max_tokens,
    ensures
        is_run(with_budget(start, more), tokens),
        after(with_budget(start, more), tokens).out == after(start, tokens).out,
        after(start, tokens).out.is_prefix_of(
            after(with_budget(start, more), tokens + further).out,
        ),
{
    assert forall|k: int| 0 <= k < tokens.len() implies after(
        with_budget(start, more),
        #[trigger] tokens.take(k),
    ).wants_token() by {
        lemma_budget(start, more, tokens.take(k));
        assert(after(start, tokens.take(k)).wants_token());
    }
    lemma_budget(start, more, tokens);
    lemma_output_grows(with_budget(start, more), tokens, further);
}

/// Whether each token is the one that a model gives behind those before it.
pub open spec fn follows(model: spec_fn(Seq<Taken>) -> Taken, tokens: Seq<Taken>) -> bool {
    forall|k: int| 0 <= k < tokens.len() ==> #[trigger] tokens[k] == model(tokens.take(k))
}

/// Two turns of one model that differ in their budgets alone, the second run to its end: the
/// second takes the tokens of the first and perhaps more, and its output begins with that of
/// the first.
pub proof fn law_same_model_with_larger_budget(
    model: spec_fn(Seq<Taken>) -> Taken,
    start: TurnState,
    more: nat,
    first: Seq<Taken>,
    second: Seq<Taken>,
)
    requires
        more >= start.max_tokens,
        is_run(start, first),
        follows(model, first),
        is_run(with_budget(start, more), second),
        follows(model, second),
        !after(with_budget(start, more), second).wants_token(),
    ensures
        first.is_prefix_of(second),
        after(start, first).out.is_prefix_of(after(with_budget(start, more), second).out),
{
    let common = if first.len() <= second.len() {
        first.len() as int
    } else {
        second.len() as int
    };
    lemma_same_tokens(model, first, second, common);
    law_larger_budget_extends_output(start, more, first, Seq::empty());
    if second.len() < first.len() {
        assert(second == first.take(common)) by {
            assert(second.take(common) == second);
        }
        assert(after(with_budget(start, more), first.take(common)).wants_token());
    }
    assert(first.take(common) == first);
    assert(second == first + second.skip(common));
    law_larger_budget_extends_output(start, more, first, second.skip(common));
}

proof fn lemma_same_tokens(
    model: spec_fn(Seq<Taken>) -> Taken,
    first: Seq<Taken>,
    second: Seq<Taken>,
    k: int,
)
    requires
        follows(model, first),
        follows(model, second),
        0 <= k <= first.len(),
        k <= second.len(),
    ensures
        first.take(k) == second.take(k),
    decreases k,
{
    if k > 0 {
        lemma_same_tokens(model, first, second, k - 1);
        assert(first[k - 1] == second[k - 1]);
        assert(first.take(k) == first.take(k - 1).push(first[k - 1]));
        assert(second.take(k) == second.take(k - 1).push(second[k - 1]));
    }
}

/// The tokens of a turn go through the model at consecutive positions behind the prompt: the
/// token at `k` is answered with the position `k` behind the first, or ends the turn.
pub proof fn law_positions_are_consecutive(
    start: TurnState,
    tokens: Seq<Taken>,
    steps: Seq<Step>,
    k: int,
)
    requires
        is_run(start, tokens),
        are_answers(start, tokens, steps),
        0 <= k < tokens.len(),
    ensures
        steps[k].forward_at matches Some(offset) ==> offset == start.offset + k,
        steps[k].forward_at is None ==> k == tokens.len() - 1,
{
    lemma_offset(start, tokens, k);
    if steps[k].forward_at is None && k < tokens.len() - 1 {
        assert(tokens.take(k + 1).drop_last() == tokens.take(k));
        assert(after(start, tokens.take(k + 1)).wants_token());
    }
}

proof fn lemma_offset(start: TurnState, tokens: Seq<Taken>, k: int)
    requires
        is_run(start, tokens),
        0 <= k < tokens.len(),
    ensures
        after(start, tokens.take(k)).offset == start.offset + k,
    decreases k,
{
    if k > 0 {
        lemma_offset(start, tokens, k - 1);
        assert(tokens.take(k).drop_last() == tokens.take(k - 1));
        assert(after(start, tokens.take(k)).wants_token());
    }
}

/// A turn is over before its budget is spent only on the end token, or where its output ends
/// in a stop text.
pub proof fn law_reason_to_stop(start: TurnState, tokens: Seq<Taken>)
    requires
        is_run(start, tokens),
        tokens.len() > 0,
        start.taken <= start.max_tokens,
        !after(start, tokens).wants_token(),
    ensures
        after(start, tokens).taken == start.max_tokens || tokens.last().token == start.eos
            || ends_in_stop(after(start, tokens).out, start.stops),
{
    law_budget_is_kept(start, tokens);
    lemma_constants(start, tokens.drop_last());
}

proof fn lemma_constants(start: TurnState, tokens: Seq<Taken>)
    ensures
        after(start, tokens).eos == start.eos,
        after(start, tokens).stops == start.stops,
    decreases tokens.len(),
{
    if tokens.len() > 0 {
        lemma_constants(start, tokens.drop_last());
    }
}

/// A turn that goes on has neither taken the end token nor, at its last token that decoded,
/// ended in a stop text.
pub proof fn law_no_stop_is_missed(start: TurnState, tokens: Seq<Taken>)
    requires
        is_run(start, tokens),
        tokens.len() > 0,
        after(start, tokens).wants_token(),
    ensures
        tokens.last().token != start.eos,
        tokens.last().piece is Some ==> !ends_in_stop(after(start, tokens).out, start.stops),
{
    lemma_constants(start, tokens.drop_last());
}

} // verus!
