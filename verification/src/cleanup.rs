//! The cleanup pass: whether a transcription is sent to a language model, what is
//! sent, and what becomes of the answer.

use crate::app_context::AppContext;
use crate::preview;
use crate::preview::PreviewEdit;
use crate::reply;
use crate::session;
use crate::settings;
use crate::settings::{
    AppSettings, PostProcessProvider, TonePreset, APPLE_INTELLIGENCE_PROVIDER_ID,
    CUSTOM_PROVIDER_ID, OPENROUTER_PROVIDER_ID,
};
use crate::text;
use crate::tone;
use vstd::prelude::*;
use vstd::slice::slice_subrange;

verus! {

/// The place of the transcription in a prompt template.
pub const PLACEHOLDER: &'static str = "${output}";

/// Whether a transcription holds nothing to clean up.
pub fn is_blank_transcription(transcription: &str) -> (r: bool)
    ensures
        r == text::blank(transcription@),
{
    text::is_blank(transcription)
}

/// A template as a system prompt: without the placeholder, since the
/// transcription is sent on its own.
pub open spec fn system_template(template: Seq<char>) -> Seq<char> {
    text::trimmed(text::replaced(template, PLACEHOLDER@, Seq::empty()))
}

/// A template with the transcription in place of the placeholder.
pub open spec fn filled_template(template: Seq<char>, transcription: Seq<char>) -> Seq<char> {
    text::replaced(template, PLACEHOLDER@, transcription)
}

fn replace_placeholder(template: &str, with: &str) -> (r: Vec<char>)
    ensures
        r@ == text::replaced(template@, PLACEHOLDER@, with@),
{
    proof {
        reveal_strlit("${output}");
    }
    let chars = text::chars_of(template);
    let placeholder = text::chars_of(PLACEHOLDER);
    let replacement = text::chars_of(with);
    text::replace_chars(chars.as_slice(), placeholder.as_slice(), replacement.as_slice())
}

/// A template as a system prompt.
pub fn build_system_prompt(prompt_template: &str) -> (r: String)
    ensures
        r@ == system_template(prompt_template@),
{
    let nothing = String::new();
    let without = replace_placeholder(prompt_template, nothing.as_str());
    assert(nothing@ =~= Seq::<char>::empty());
    text::string_of(text::trim_chars(without.as_slice()))
}

/// How a provider is told to leave out reasoning.
#[derive(Debug)]
pub struct ReasoningConfig {
    pub effort: Option<String>,
    pub exclude: Option<bool>,
}

/// What a cleanup pass is run with.
#[derive(Debug)]
pub struct CleanupSetup {
    pub provider: PostProcessProvider,
    pub model: String,
    pub api_key: String,
    /// The prompt template.
    pub prompt: String,
    /// Ask for temperature zero.
    pub greedy: bool,
    pub reasoning_effort: Option<String>,
    pub reasoning: Option<ReasoningConfig>,
}

/// The effort that switches reasoning off.
pub const NO_REASONING: &'static str = "none";

/// The model chosen for the provider in use.
pub open spec fn chosen_model(settings: AppSettings) -> Seq<char> {
    match settings.active_provider() {
        Some(provider) => settings::value_for(settings.post_process_models@, provider.id@),
        None => Seq::empty(),
    }
}

/// Whether a transcription is cleaned up: it is not blank, and a provider, a
/// model for it and a prompt that is not blank are selected.
pub open spec fn cleanup_wanted(settings: AppSettings, transcription: Seq<char>) -> bool {
    &&& !text::blank(transcription)
    &&& settings.active_provider() is Some
    &&& !text::blank(chosen_model(settings))
    &&& settings.selected_prompt() is Some
    &&& !text::blank(settings.selected_prompt()->0.prompt@)
}

/// Whether a setup is the one that the settings ask for.
pub open spec fn setup_follows(setup: CleanupSetup, settings: AppSettings) -> bool {
    let provider = settings.active_provider()->0;
    let custom = provider.id@ == CUSTOM_PROVIDER_ID@;
    let openrouter = provider.id@ == OPENROUTER_PROVIDER_ID@;
    &&& setup.provider == provider
    &&& setup.model@ == chosen_model(settings)
    &&& setup.api_key@ == settings::value_for(settings.post_process_api_keys@, provider.id@)
    &&& setup.prompt == settings.selected_prompt()->0.prompt
    &&& setup.greedy == custom
    &&& text::opt_text(setup.reasoning_effort) == (if custom {
        Some(NO_REASONING@)
    } else {
        None
    })
    &&& setup.reasoning is Some <==> openrouter && !custom
    &&& setup.reasoning matches Some(config) ==> text::opt_text(config.effort) == Some(
        NO_REASONING@,
    ) && config.exclude == Some(true)
}

/// What a transcription is cleaned up with; nothing where it is left alone.
pub fn select_cleanup(settings: &AppSettings, transcription: &str) -> (r: Option<CleanupSetup>)
    ensures
        r is Some <==> cleanup_wanted(*settings, transcription@),
        r matches Some(setup) ==> setup_follows(setup, *settings),
{
    if is_blank_transcription(transcription) {
        return None;
    }
    let provider = match settings.active_post_process_provider() {
        Some(provider) => provider.clone(),
        None => {
            return None;
        },
    };
    let model = settings.post_process_models.value(provider.id.as_str());
    if text::is_blank(model.as_str()) {
        return None;
    }
    let prompt = match settings.selected_post_process_prompt() {
        Some(selected) => selected.prompt.clone(),
        None => {
            return None;
        },
    };
    if text::is_blank(prompt.as_str()) {
        return None;
    }
    let api_key = settings.post_process_api_keys.value(provider.id.as_str());
    let custom = text::same_text(provider.id.as_str(), CUSTOM_PROVIDER_ID);
    let openrouter = text::same_text(provider.id.as_str(), OPENROUTER_PROVIDER_ID);
    let reasoning_effort = if custom {
        Some(NO_REASONING.to_string())
    } else {
        None
    };
    let reasoning = if openrouter && !custom {
        Some(ReasoningConfig { effort: Some(NO_REASONING.to_string()), exclude: Some(true) })
    } else {
        None
    };
    Some(
        CleanupSetup {
            provider,
            model,
            api_key,
            prompt,
            greedy: custom,
            reasoning_effort,
            reasoning,
        },
    )
}

/// The value behind an optional reference.
pub open spec fn opt_value<T>(r: Option<&T>) -> Option<T> {
    match r {
        Some(v) => Some(*v),
        None => None,
    }
}

/// A block in front of a prompt.
pub open spec fn prepended(block: Option<Seq<char>>, prompt: Seq<char>) -> Seq<char> {
    match block {
        Some(b) => b + prompt,
        None => prompt,
    }
}

/// The context block of a destination, where there is one.
pub open spec fn block_for(
    settings: AppSettings,
    default_presets: Seq<TonePreset>,
    ctx: Option<AppContext>,
) -> Option<Seq<char>> {
    match ctx {
        Some(c) => tone::context_block(settings, default_presets, c),
        None => None,
    }
}

/// A prompt with the context block and, before that, the user's edit in front.
pub open spec fn framed(
    settings: AppSettings,
    default_presets: Seq<TonePreset>,
    ctx: Option<AppContext>,
    edit: PreviewEdit,
    transcription: Seq<char>,
    prompt: Seq<char>,
) -> Seq<char> {
    prepended(
        preview::user_edit_block(edit, transcription),
        prepended(block_for(settings, default_presets, ctx), prompt),
    )
}

fn prepend(block: Option<String>, prompt: String) -> (r: String)
    ensures
        r@ == prepended(text::opt_text(block), prompt@),
{
    match block {
        Some(b) => {
            let mut out = b;
            out.append(prompt.as_str());
            out
        },
        None => prompt,
    }
}

/// A prompt with a context block and, before that, a block with the user's edit in
/// front, as far as there are any.
pub fn frame_prompt(
    edit_block: Option<String>,
    context_block: Option<String>,
    prompt: String,
) -> (r: String)
    ensures
        r@ == prepended(
            text::opt_text(edit_block),
            prepended(text::opt_text(context_block), prompt@),
        ),
{
    prepend(edit_block, prepend(context_block, prompt))
}

fn frame(
    settings: &AppSettings,
    default_presets: &Vec<TonePreset>,
    ctx: Option<&AppContext>,
    edit: &PreviewEdit,
    transcription: &str,
    prompt: String,
) -> (r: String)
    ensures
        r@ == framed(
            *settings,
            default_presets@,
            opt_value(ctx),
            *edit,
            transcription@,
            prompt@,
        ),
{
    let context = match ctx {
        Some(c) => tone::build_context_block(settings, default_presets, c),
        None => None,
    };
    frame_prompt(preview::build_user_edit_block(edit, transcription), context, prompt)
}

/// The value of a decimal digit.
pub open spec fn digit(c: char) -> int {
    c as int - '0' as int
}

/// The number that decimal digits spell.
pub open spec fn decimal(digits: Seq<char>) -> int
    decreases digits.len(),
{
    if digits.len() == 0 {
        0
    } else {
        10 * decimal(digits.drop_last()) + digit(digits.last())
    }
}

/// Whether a text is one or more decimal digits.
pub open spec fn all_digits(s: Seq<char>) -> bool {
    s.len() > 0 && forall|i: int| 0 <= i < s.len() ==> '0' <= #[trigger] s[i] && s[i] <= '9'
}

/// The number that a text spells: digits with an optional sign.
pub open spec fn signed_number(s: Seq<char>) -> Option<int> {
    let signed = s.len() > 0 && (s[0] == '+' || s[0] == '-');
    let digits = if signed {
        s.skip(1)
    } else {
        s
    };
    if all_digits(digits) {
        if signed && s[0] == '-' {
            Some(-decimal(digits))
        } else {
            Some(decimal(digits))
        }
    } else {
        None
    }
}

/// The token limit that a model name spells; zero where it spells none that
/// fits 32 bits.
pub open spec fn token_limit_in(model: Seq<char>) -> int {
    match signed_number(text::trimmed(model)) {
        Some(n) => if i32::MIN <= n <= i32::MAX {
            n
        } else {
            0
        },
        None => 0,
    }
}

proof fn lemma_decimal_grows(digits: Seq<char>, k: int)
    requires
        all_digits(digits),
        0 <= k <= digits.len(),
    ensures
        0 <= decimal(digits.take(k)) <= decimal(digits),
    decreases digits.len(),
{
    if digits.len() == k {
        assert(digits.take(k) =~= digits);
        if k > 1 {
            let front = digits.drop_last();
            assert(all_digits(front)) by {
                assert forall|i: int| 0 <= i < front.len() implies '0' <= #[trigger] front[i]
                    && front[i] <= '9' by {
                    assert(front[i] == digits[i]);
                }
            }
            lemma_decimal_grows(front, k - 1);
            assert(front.take(k - 1) =~= front);
        } else {
            assert(decimal(digits.drop_last()) == 0);
        }
        assert('0' <= digits[k - 1]);
    } else {
        let front = digits.drop_last();
        assert(digits.take(k) =~= front.take(k));
        assert('0' <= digits[digits.len() - 1]);
        if front.len() > 0 {
            assert(all_digits(front)) by {
                assert forall|i: int| 0 <= i < front.len() implies '0' <= #[trigger] front[i]
                    && front[i] <= '9' by {
                    assert(front[i] == digits[i]);
                }
            }
            lemma_decimal_grows(front, k);
        } else {
            assert(front.take(k) =~= Seq::<char>::empty());
        }
    }
}

/// The number that digits spell, where it is at most `2^31`.
fn small_decimal(digits: &[char]) -> (r: Option<i64>)
    ensures
        match r {
            Some(n) => all_digits(digits@) && n == decimal(digits@) && 0 <= n <= 0x8000_0000,
            None => !all_digits(digits@) || decimal(digits@) > 0x8000_0000,
        },
{
    let n: usize = digits.len();
    if n == 0 {
        return None;
    }
    let mut value: i64 = 0;
    let mut i: usize = 0;
    while i < n
        invariant
            0 < n == digits@.len(),
            i <= n,
            0 <= value <= 0x8000_0000,
            value == decimal(digits@.take(i as int)),
            forall|j: int| 0 <= j < i ==> '0' <= #[trigger] digits@[j] && digits@[j] <= '9',
        decreases n - i,
    {
        let c = digits[i];
        if c < '0' || c > '9' {
            assert(!('0' <= digits@[i as int] && digits@[i as int] <= '9'));
            return None;
        }
        let next: i64 = value * 10 + (c as u32 - '0' as u32) as i64;
        assert(digits@.take(i + 1).drop_last() =~= digits@.take(i as int));
        assert(next == decimal(digits@.take(i + 1)));
        if next > 0x8000_0000 {
            proof {
                if all_digits(digits@) {
                    lemma_decimal_grows(digits@, i + 1);
                }
            }
            return None;
        }
        value = next;
        i = i + 1;
    }
    assert(digits@.take(n as int) =~= digits@);
    Some(value)
}

/// The token limit that a model name spells; zero where it spells none.
pub fn parse_token_limit(model: &str) -> (r: i32)
    ensures
        r == token_limit_in(model@),
{
    let all = text::chars_of(model);
    let s = text::trim_chars(all.as_slice());
    let n: usize = s.len();
    let signed = n > 0 && (s[0] == '+' || s[0] == '-');
    let negative = signed && s[0] == '-';
    let digits = if signed {
        assert(s@.subrange(1, n as int) =~= s@.skip(1));
        slice_subrange(s, 1, n)
    } else {
        s
    };
    match small_decimal(digits) {
        Some(value) => if negative {
            (-value) as i32
        } else if value <= 0x7fff_ffff {
            value as i32
        } else {
            0
        },
        None => 0,
    }
}

/// The first request of a cleanup pass.
#[derive(Debug)]
pub enum CleanupRequest {
    /// Apple's on-device model.
    Apple { system_prompt: String, user_content: String, token_limit: i32 },
    /// A chat completion with a JSON schema for the answer.
    Structured { system_prompt: String, user_content: String },
    /// A plain chat completion.
    Plain { prompt: String },
}

/// What a chat completion came back with.
#[derive(Debug)]
pub enum ChatReply {
    Content { text: String },
    NoContent,
    Failed,
}

/// What Apple's on-device model came back with.
#[derive(Debug)]
pub enum AppleReply {
    /// Not on this platform, or not available at the moment.
    Unavailable,
    Content { text: String },
    Failed,
}

/// What follows the answer to a structured request.
#[derive(Debug)]
pub enum AfterStructured {
    /// The pass is over; no text leaves the transcription as it is.
    Finished { text: Option<String> },
    /// The request failed: a plain one is sent.
    AskPlain { prompt: String },
}

/// The prompt of a plain request.
pub open spec fn plain_prompt(
    setup: CleanupSetup,
    settings: AppSettings,
    default_presets: Seq<TonePreset>,
    ctx: Option<AppContext>,
    edit: PreviewEdit,
    transcription: Seq<char>,
) -> Seq<char> {
    framed(
        settings,
        default_presets,
        ctx,
        edit,
        transcription,
        filled_template(setup.prompt@, transcription),
    )
}

/// The system prompt of a structured request.
pub open spec fn structured_prompt(
    setup: CleanupSetup,
    settings: AppSettings,
    default_presets: Seq<TonePreset>,
    ctx: Option<AppContext>,
    edit: PreviewEdit,
    transcription: Seq<char>,
) -> Seq<char> {
    framed(
        settings,
        default_presets,
        ctx,
        edit,
        transcription,
        system_template(setup.prompt@),
    )
}

impl CleanupSetup {
    /// The first request of the pass.
    pub fn first_request(
        &self,
        settings: &AppSettings,
        default_presets: &Vec<TonePreset>,
        ctx: Option<&AppContext>,
        edit: &PreviewEdit,
        transcription: &str,
    ) -> (r: CleanupRequest)
        ensures
            ({
                let apple = self.provider.id@ == APPLE_INTELLIGENCE_PROVIDER_ID@;
                let structured = self.provider.supports_structured_output;
                let system = structured_prompt(
                    *self,
                    *settings,
                    default_presets@,
                    opt_value(ctx),
                    *edit,
                    transcription@,
                );
                match r {
                    CleanupRequest::Apple { system_prompt, user_content, token_limit } => {
                        &&& structured && apple
                        &&& system_prompt@ == system
                        &&& user_content@ == transcription@
                        &&& token_limit == token_limit_in(self.model@)
                    },
                    CleanupRequest::Structured { system_prompt, user_content } => {
                        &&& structured && !apple
                        &&& system_prompt@ == system
                        &&& user_content@ == transcription@
                    },
                    CleanupRequest::Plain { prompt } => {
                        &&& !structured
                        &&& prompt@ == plain_prompt(
                            *self,
                            *settings,
                            default_presets@,
                            opt_value(ctx),
                            *edit,
                            transcription@,
                        )
                    },
                }
            }),
    {
        if !self.provider.supports_structured_output {
            let prompt = self.plain_request(settings, default_presets, ctx, edit, transcription);
            return CleanupRequest::Plain { prompt };
        }
        let base = build_system_prompt(self.prompt.as_str());
        let system_prompt = frame(settings, default_presets, ctx, edit, transcription, base);
        let user_content = transcription.to_string();
        if text::same_text(self.provider.id.as_str(), APPLE_INTELLIGENCE_PROVIDER_ID) {
            let token_limit = parse_token_limit(self.model.as_str());
            CleanupRequest::Apple { system_prompt, user_content, token_limit }
        } else {
            CleanupRequest::Structured { system_prompt, user_content }
        }
    }

    /// The prompt of a plain request.
    pub fn plain_request(
        &self,
        settings: &AppSettings,
        default_presets: &Vec<TonePreset>,
        ctx: Option<&AppContext>,
        edit: &PreviewEdit,
        transcription: &str,
    ) -> (r: String)
        ensures
            r@ == plain_prompt(
                *self,
                *settings,
                default_presets@,
                opt_value(ctx),
                *edit,
                transcription@,
            ),
    {
        let filled = replace_placeholder(self.prompt.as_str(), transcription);
        let base = text::string_of(filled.as_slice());
        frame(settings, default_presets, ctx, edit, transcription, base)
    }

    /// What follows the answer to a structured request.
    pub fn after_structured(
        &self,
        settings: &AppSettings,
        default_presets: &Vec<TonePreset>,
        ctx: Option<&AppContext>,
        edit: &PreviewEdit,
        transcription: &str,
        answer: &ChatReply,
    ) -> (r: AfterStructured)
        ensures
            match answer {
                ChatReply::Content { text } => r is Finished && text::opt_text(r->text) == Some(
                    reply::structured_text(text@, crate::json::json_of_text(text@)),
                ),
                ChatReply::NoContent => r is Finished && r->text is None,
                ChatReply::Failed => r is AskPlain && r->prompt@ == plain_prompt(
                    *self,
                    *settings,
                    default_presets@,
                    opt_value(ctx),
                    *edit,
                    transcription@,
                ),
            },
    {
        match answer {
            ChatReply::Content { text } => AfterStructured::Finished {
                text: Some(reply::structured_reply(text.as_str())),
            },
            ChatReply::NoContent => AfterStructured::Finished { text: None },
            ChatReply::Failed => AfterStructured::AskPlain {
                prompt: self.plain_request(settings, default_presets, ctx, edit, transcription),
            },
        }
    }
}

/// What becomes of the answer to a plain request.
pub fn after_plain(answer: &ChatReply) -> (r: Option<String>)
    ensures
        text::opt_text(r) == (match answer {
            ChatReply::Content { text } => Some(reply::cleaned(text@)),
            _ => None,
        }),
{
    match answer {
        ChatReply::Content { text } => Some(reply::clean_reply(text.as_str())),
        _ => None,
    }
}

/// What becomes of the answer of Apple's on-device model.
pub fn after_apple(answer: &AppleReply) -> (r: Option<String>)
    ensures
        text::opt_text(r) == (match answer {
            AppleReply::Content { text } => if text::blank(text@) {
                None
            } else {
                Some(reply::visible(text@))
            },
            _ => None,
        }),
{
    match answer {
        AppleReply::Content { text } => if text::is_blank(text.as_str()) {
            None
        } else {
            Some(reply::strip_invisible_chars(text.as_str()))
        },
        _ => None,
    }
}

/// Nothing is sent for a blank transcription.
pub proof fn law_blank_transcriptions_are_left_alone(settings: AppSettings, transcription: Seq<char>)
    requires
        text::blank(transcription),
    ensures
        !cleanup_wanted(settings, transcription),
{
}

/// The context and the user's edit stand in front of a prompt, never behind it:
/// the prompt ends as the template does, and a user's edit comes first.
pub proof fn law_blocks_stand_in_front(
    settings: AppSettings,
    default_presets: Seq<TonePreset>,
    ctx: Option<AppContext>,
    edit: PreviewEdit,
    transcription: Seq<char>,
    prompt: Seq<char>,
)
    ensures
        ({
            let whole = framed(settings, default_presets, ctx, edit, transcription, prompt);
            &&& text::ends_with(whole, prompt)
            &&& preview::user_edit_block(edit, transcription) matches Some(block) ==> block.len()
                <= whole.len() && whole.take(block.len() as int) == block
            &&& preview::user_edit_block(edit, transcription) is None && block_for(
                settings,
                default_presets,
                ctx,
            ) is None ==> whole == prompt
        }),
{
    let whole = framed(settings, default_presets, ctx, edit, transcription, prompt);
    assert(whole.skip(whole.len() - prompt.len()) =~= prompt);
    match preview::user_edit_block(edit, transcription) {
        Some(block) => {
            assert(whole.take(block.len() as int) =~= block);
        },
        None => {},
    }
}

/// The placeholder of a template gives way to the transcription, and the rest of
/// the template stays.
pub proof fn law_placeholder_gives_way(head: Seq<char>, tail: Seq<char>, transcription: Seq<char>)
    requires
        !text::occurs(head, "${output}"@),
    ensures
        filled_template(head + "${output}"@ + tail, transcription) == head + transcription
            + filled_template(tail, transcription),
        filled_template(head, transcription) == head,
{
    reveal_strlit("${output}");
    let mark = "${output}"@;
    let s = head + mark + tail;
    let n = head.len() as int;
    text::lemma_find(head, mark);
    assert(s.subrange(n, n + mark.len()) =~= mark);
    assert forall|j: int| 0 <= j < n implies !text::occurs_at(s, mark, j) by {
        if text::occurs_at(s, mark, j) {
            let found = s.subrange(j, j + mark.len());
            if j + mark.len() <= n {
                assert(head.subrange(j, j + mark.len()) =~= found);
                assert(text::occurs_at(head, mark, j));
            } else {
                assert(found[n - j] == s[n]);
                assert(s[n] == mark[0]);
            }
        }
    }
    text::lemma_find_is(s, mark, n);
    assert(s.take(n) =~= head);
    assert(s.skip(n + mark.len()) =~= tail);
}

/// A prompt is the block of the user's edit, if there is one, then the context block of
/// the destination, if it has one, then the text of the template, each whole and with
/// nothing between them; with a block or without the other.
pub proof fn law_prompts_hold_every_block(
    settings: AppSettings,
    default_presets: Seq<TonePreset>,
    ctx: AppContext,
    edit: PreviewEdit,
    transcription: Seq<char>,
    prompt: Seq<char>,
)
    ensures
        ({
            let edit_block = preview::user_edit_block(edit, transcription);
            let context = tone::context_block(settings, default_presets, ctx);
            let with = framed(settings, default_presets, Some(ctx), edit, transcription, prompt);
            let without = framed(settings, default_presets, None, edit, transcription, prompt);
            &&& edit_block is Some && context is Some ==> with == edit_block->0 + context->0
                + prompt
            &&& edit_block is None && context is Some ==> with == context->0 + prompt
            &&& edit_block is Some && context is None ==> with == edit_block->0 + prompt
            &&& edit_block is None && context is None ==> with == prompt
            &&& edit_block is Some ==> without == edit_block->0 + prompt
            &&& edit_block is None ==> without == prompt
        }),
{
    let edit_block = preview::user_edit_block(edit, transcription);
    let context = tone::context_block(settings, default_presets, ctx);
    if edit_block is Some && context is Some {
        assert(edit_block->0 + (context->0 + prompt) =~= edit_block->0 + context->0 + prompt);
    }
}

/// A plain request carries the template with the transcription in place of the
/// placeholder, and a structured one the template without it, each framed in the same
/// way: the context block of the destination stands right in front of the template text,
/// whether there is an edit or not.
pub proof fn law_requests_carry_the_template(
    setup: CleanupSetup,
    settings: AppSettings,
    default_presets: Seq<TonePreset>,
    ctx: AppContext,
    edit: PreviewEdit,
    transcription: Seq<char>,
)
    ensures
        ({
            let context = match tone::context_block(settings, default_presets, ctx) {
                Some(block) => block,
                None => Seq::empty(),
            };
            let front = match preview::user_edit_block(edit, transcription) {
                Some(block) => block,
                None => Seq::empty(),
            };
            &&& plain_prompt(setup, settings, default_presets, Some(ctx), edit, transcription)
                == front + context + filled_template(setup.prompt@, transcription)
            &&& structured_prompt(setup, settings, default_presets, Some(ctx), edit, transcription)
                == front + context + text::trimmed(filled_template(setup.prompt@, Seq::empty()))
            &&& plain_prompt(setup, settings, default_presets, None, edit, transcription) == front
                + filled_template(setup.prompt@, transcription)
            &&& structured_prompt(setup, settings, default_presets, None, edit, transcription)
                == front + text::trimmed(filled_template(setup.prompt@, Seq::empty()))
        }),
{
    let plain = filled_template(setup.prompt@, transcription);
    let system = text::trimmed(filled_template(setup.prompt@, Seq::empty()));
    law_prompts_hold_every_block(settings, default_presets, ctx, edit, transcription, plain);
    law_prompts_hold_every_block(settings, default_presets, ctx, edit, transcription, system);
    let none = Seq::<char>::empty();
    if let Some(context) = tone::context_block(settings, default_presets, ctx) {
        assert(none + context + plain =~= context + plain);
        assert(none + context + system =~= context + system);
    }
    if let Some(block) = preview::user_edit_block(edit, transcription) {
        assert(block + none + plain =~= block + plain);
        assert(block + none + system =~= block + system);
    }
    assert(none + none + plain =~= plain);
    assert(none + none + system =~= system);
    assert(none + plain =~= plain);
    assert(none + system =~= system);
}

/// A transcription is cleaned up exactly where it is not blank, the provider in use
/// exists, a model that is not blank is stored for it, and the selected prompt exists and
/// is not blank.
pub proof fn law_cleanup_needs_all_its_parts(
    settings: AppSettings,
    transcription: Seq<char>,
    provider: Option<PostProcessProvider>,
    prompt: Option<settings::PostProcessPrompt>,
)
    requires
        provider == settings::provider_with_id(
            settings.post_process_providers@,
            settings.post_process_provider_id@,
        ),
        prompt == (match settings.post_process_selected_prompt_id {
            Some(id) => settings::prompt_with_id(settings.post_process_prompts@, id@),
            None => None,
        }),
    ensures
        cleanup_wanted(settings, transcription) <==> {
            &&& !text::blank(transcription)
            &&& provider matches Some(p) && settings.post_process_models@.contains_key(p.id@)
                && !text::blank(settings.post_process_models@[p.id@])
            &&& prompt matches Some(p) && !text::blank(p.prompt@)
        },
{
}

/// A cleanup pass runs with the provider, the model, the key and the prompt that are
/// selected. Only the local server is asked for temperature zero and told to spend no
/// effort on reasoning; only OpenRouter is told to leave reasoning out.
pub proof fn law_a_pass_runs_with_what_is_selected(
    setup: CleanupSetup,
    settings: AppSettings,
    transcription: Seq<char>,
)
    requires
        cleanup_wanted(settings, transcription),
        setup_follows(setup, settings),
    ensures
        settings::provider_with_id(
            settings.post_process_providers@,
            settings.post_process_provider_id@,
        ) == Some(setup.provider),
        setup.model@ == settings.post_process_models@[setup.provider.id@],
        settings.post_process_api_keys@.contains_key(setup.provider.id@) ==> setup.api_key@
            == settings.post_process_api_keys@[setup.provider.id@],
        !settings.post_process_api_keys@.contains_key(setup.provider.id@) ==> setup.api_key@.len()
            == 0,
        settings.post_process_selected_prompt_id is Some,
        settings::prompt_with_id(
            settings.post_process_prompts@,
            settings.post_process_selected_prompt_id->0@,
        ) matches Some(p) && p.prompt == setup.prompt,
        setup.greedy <==> setup.provider.id@ == "custom"@,
        setup.reasoning_effort is Some <==> setup.provider.id@ == "custom"@,
        setup.reasoning_effort matches Some(e) ==> e@ == "none"@,
        setup.reasoning is Some <==> setup.provider.id@ == "openrouter"@,
        setup.reasoning matches Some(c) ==> c.effort matches Some(e) && e@ == "none"@ && c.exclude
            == Some(true),
{
    reveal_strlit("custom");
    reveal_strlit("openrouter");
    assert("custom"@.len() == 6 && "openrouter"@.len() == 10);
    assert(text::blank(Seq::<char>::empty()));
}

/// The limit that a model name spells is the number itself, with or without a plus sign
/// and padding, as long as it fits 32 bits; a larger number, and any text that is not a
/// number, spell zero.
pub proof fn law_token_limits_are_numbers(n: int, before: Seq<char>, after: Seq<char>)
    requires
        text::blank(before),
        text::blank(after),
    ensures
        i32::MIN <= n <= i32::MAX ==> token_limit_in(before + session::decimal_text(n) + after)
            == n,
        0 <= n <= i32::MAX ==> token_limit_in(
            before + (seq!['+'] + session::decimal_text(n)) + after,
        ) == n,
        !(i32::MIN <= n <= i32::MAX) ==> token_limit_in(
            before + session::decimal_text(n) + after,
        ) == 0,
{
    session::law_file_names_spell_the_time(n);
    let s = session::decimal_text(n);
    if n >= 0 {
        assert('0' <= s[0] && s[0] <= '9');
        assert('0' <= s[s.len() - 1] && s[s.len() - 1] <= '9');
    } else {
        let d = s.skip(1);
        assert('0' <= d[d.len() - 1] && d[d.len() - 1] <= '9');
        assert(s.last() == d[d.len() - 1]);
    }
    text::law_trimming_ignores_padding(before, s, after);
    let plus = seq!['+'] + s;
    assert(plus.skip(1) =~= s);
    assert(plus.last() == s.last());
    text::law_trimming_ignores_padding(before, plus, after);
}

/// A text that holds anything but digits behind an optional sign spells no limit.
pub proof fn law_other_names_spell_no_limit(model: Seq<char>, i: int)
    requires
        0 <= i < text::trimmed(model).len(),
        !('0' <= text::trimmed(model)[i] && text::trimmed(model)[i] <= '9'),
        i > 0 || text::trimmed(model)[i] != '+' && text::trimmed(model)[i] != '-',
    ensures
        token_limit_in(model) == 0,
{
    let s = text::trimmed(model);
    let signed = s[0] == '+' || s[0] == '-';
    if signed {
        assert(s.skip(1)[i - 1] == s[i]);
    }
}

/// As a system prompt a template loses its placeholders and the white space at its ends,
/// and nothing else.
pub proof fn law_system_prompts_lose_the_placeholder(head: Seq<char>, tail: Seq<char>)
    requires
        !text::occurs(head, "${output}"@),
    ensures
        system_template(head) == text::trimmed(head),
        system_template(head + "${output}"@ + tail) == text::trimmed(
            head + filled_template(tail, Seq::empty()),
        ),
{
    law_placeholder_gives_way(head, tail, Seq::empty());
    assert(head + Seq::<char>::empty() =~= head);
}

/// Digits spell their number, whatever zeros lead them, and with either sign in front; a
/// number that does not fit 32 bits spells zero, as do no text and a bare sign.
pub proof fn law_digits_spell_the_limit(digits: Seq<char>)
    requires
        all_digits(digits),
    ensures
        token_limit_in(digits) == (if decimal(digits) <= 0x7fff_ffff {
            decimal(digits)
        } else {
            0
        }),
        token_limit_in(seq!['+'] + digits) == token_limit_in(digits),
        token_limit_in(seq!['-'] + digits) == (if decimal(digits) <= 0x8000_0000 {
            -decimal(digits)
        } else {
            0
        }),
        token_limit_in(Seq::empty()) == 0,
        token_limit_in(seq!['+']) == 0,
        token_limit_in(seq!['-']) == 0,
{
    let none = Seq::<char>::empty();
    let plus = seq!['+'] + digits;
    let minus = seq!['-'] + digits;
    assert('0' <= digits[0] && digits[0] <= '9');
    assert('0' <= digits[digits.len() - 1] && digits[digits.len() - 1] <= '9');
    lemma_decimal_grows(digits, 0);
    assert(plus.skip(1) =~= digits);
    assert(minus.skip(1) =~= digits);
    assert(plus.last() == digits.last() && minus.last() == digits.last());
    text::law_trimming_ignores_padding(none, digits, none);
    text::law_trimming_ignores_padding(none, plus, none);
    text::law_trimming_ignores_padding(none, minus, none);
    text::law_trimming_ignores_padding(none, none, none);
    text::law_trimming_ignores_padding(none, seq!['+'], none);
    text::law_trimming_ignores_padding(none, seq!['-'], none);
    assert(none + digits + none =~= digits);
    assert(none + plus + none =~= plus);
    assert(none + minus + none =~= minus);
    assert(none + none + none =~= none);
    assert(none + seq!['+'] + none =~= seq!['+']);
    assert(none + seq!['-'] + none =~= seq!['-']);
    assert(seq!['+'].skip(1) =~= none);
    assert(seq!['-'].skip(1) =~= none);
}

} // verus!
