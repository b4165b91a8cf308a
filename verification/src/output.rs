//! From a raw transcription to the text that is pasted and the record that is
//! kept of it.

use crate::app_context::AppContext;
use crate::chinese;
use crate::settings::AppSettings;
use crate::text;
use vstd::prelude::*;

verus! {

/// A transcription as it is pasted, and what the history keeps of its making.
#[derive(Debug)]
pub struct ProcessedTranscription {
    pub final_text: String,
    pub post_processed_text: Option<String>,
    pub post_process_prompt: Option<String>,
}

/// The model whose abilities decide on the language: the loaded one, or else the
/// selected one.
pub fn active_model(loaded: Option<String>, settings: &AppSettings) -> (r: String)
    ensures
        r == (match loaded {
            Some(model) => model,
            None => settings.selected_model,
        }),
{
    match loaded {
        Some(model) => model,
        None => settings.selected_model.clone(),
    }
}

/// The language that a transcription ran in: what the active model made of the
/// selected one, or the selected one where the model is not known.
pub fn resolve_effective_language(coerced: Option<String>, settings: &AppSettings) -> (r: String)
    ensures
        r == (match coerced {
            Some(language) => language,
            None => settings.selected_language,
        }),
{
    match coerced {
        Some(language) => language,
        None => settings.selected_language.clone(),
    }
}

/// The destination that a transcription is adapted to. Only a live dictation is:
/// the last capture says nothing of where a retry goes.
pub fn output_context(apply_app_context: bool, last: Option<AppContext>) -> (r: Option<AppContext>)
    ensures
        r == (if apply_app_context {
            last
        } else {
            None
        }),
{
    if apply_app_context {
        last
    } else {
        None
    }
}

/// The text that a transcription is handled as: what it was converted to, or the
/// transcription itself.
pub open spec fn handled_text(transcription: Seq<char>, converted: Option<Seq<char>>) -> Seq<char> {
    match converted {
        Some(t) => t,
        None => transcription,
    }
}

/// The text that a transcription is handled as, given what it was converted to.
pub fn converted_text(transcription: &str, converted: &Option<String>) -> (r: String)
    ensures
        r@ == handled_text(transcription@, text::opt_text(*converted)),
{
    match converted {
        Some(t) => t.clone(),
        None => transcription.to_string(),
    }
}

/// The text that a transcription in a language is handled as: in the script of a
/// Chinese language, else as it is. It is what an actual conversion gave; the
/// transcription itself comes back only where that conversion gave nothing.
pub fn text_in_script(effective_language: &str, transcription: &str) -> (r: String)
    ensures
        chinese::conversion_for(effective_language@) is None ==> r@ == transcription@,
        r@ == transcription@ || r@ == chinese::opencc_text(
            chinese::conversion_for(effective_language@) == Some(chinese::Conversion::Tw2sp),
            transcription@,
        ),
        exists|converted: Option<String>| #[trigger]
            call_ensures(
                chinese::maybe_convert_chinese_variant,
                (effective_language, transcription),
                converted,
            ) && r@ == (match converted {
                Some(t) => t@,
                None => transcription@,
            }),
{
    let converted = chinese::maybe_convert_chinese_variant(effective_language, transcription);
    converted_text(transcription, &converted)
}

/// The prompt template that was in use.
pub open spec fn prompt_in_use(settings: AppSettings) -> Option<Seq<char>> {
    match settings.selected_prompt() {
        Some(p) => Some(p.prompt@),
        None => None,
    }
}

/// The result for a transcription that was converted to `converted` and, where a
/// cleanup pass was asked for, came back from it as `processed`.
pub fn process_transcription_output(
    settings: &AppSettings,
    transcription: &str,
    converted: String,
    post_process: bool,
    processed: Option<String>,
) -> (r: ProcessedTranscription)
    ensures
        post_process && processed is Some ==> {
            &&& r.final_text@ == processed->0@
            &&& text::opt_text(r.post_processed_text) == Some(processed->0@)
            &&& text::opt_text(r.post_process_prompt) == prompt_in_use(*settings)
        },
        !(post_process && processed is Some) ==> {
            &&& r.final_text@ == converted@
            &&& r.post_process_prompt is None
            &&& text::opt_text(r.post_processed_text) == (if !post_process && converted@
                != transcription@ {
                Some(converted@)
            } else {
                None
            })
        },
{
    if post_process {
        match processed {
            Some(text) => {
                let post_process_prompt = match settings.selected_post_process_prompt() {
                    Some(p) => Some(p.prompt.clone()),
                    None => None,
                };
                ProcessedTranscription {
                    final_text: text.clone(),
                    post_processed_text: Some(text),
                    post_process_prompt,
                }
            },
            None => ProcessedTranscription {
                final_text: converted,
                post_processed_text: None,
                post_process_prompt: None,
            },
        }
    } else {
        let post_processed_text = if text::same_text(converted.as_str(), transcription) {
            None
        } else {
            Some(converted.clone())
        };
        ProcessedTranscription {
            final_text: converted,
            post_processed_text,
            post_process_prompt: None,
        }
    }
}

/// The text that a transcription is handled as is its conversion, whole, where there is
/// one, and else the transcription, unchanged.
pub proof fn law_conversions_take_the_place_of_the_transcription(
    transcription: Seq<char>,
    converted: Seq<char>,
)
    ensures
        handled_text(transcription, Some(converted)) == converted,
        handled_text(transcription, None) == transcription,
{
}

/// The prompt that is kept beside a cleaned text is the template that was selected, by
/// its id; none where no template with that id is there.
pub proof fn law_the_selected_prompt_is_kept(settings: AppSettings)
    ensures
        settings.post_process_selected_prompt_id is None ==> prompt_in_use(settings) is None,
        settings.post_process_selected_prompt_id matches Some(id) ==> {
            let found = crate::settings::prompt_with_id(settings.post_process_prompts@, id@);
            &&& found matches Some(p) ==> prompt_in_use(settings) == Some(p.prompt@)
            &&& found is None ==> prompt_in_use(settings) is None
        },
{
}

} // verus!
