//! Conversion of a transcription between the Chinese scripts.

use crate::text;
use vstd::prelude::*;

verus! {

/// The OpenCC conversions in use.
#[derive(Clone, Copy, Debug, PartialEq, Eq, Structural)]
pub enum Conversion {
    /// Traditional (Taiwan, with phrases) to Simplified.
    Tw2sp,
    /// Simplified to Traditional (Taiwan).
    S2tw,
}

/// What OpenCC makes of a text under a built-in configuration, which is
/// `Tw2sp` or else `S2tw`.
pub uninterp spec fn opencc_text(to_simplified: bool, text: Seq<char>) -> Seq<char>;

/// `ferrous_opencc::OpenCC::from_config` on a built-in configuration, followed by
/// `OpenCC::convert`. The contract names the converted text. It leaves open
/// whether the configuration loads: the crate checks the alignment of the memory
/// that its dictionaries are read into, which the allocator decides.
#[verifier::external_body]
fn opencc_convert(conversion: Conversion, text: &str) -> (r: Option<String>)
    ensures
        r matches Some(t) ==> t@ == opencc_text(conversion == Conversion::Tw2sp, text@),
{
    let config = match conversion {
        Conversion::Tw2sp => ferrous_opencc::config::BuiltinConfig::Tw2sp,
        Conversion::S2tw => ferrous_opencc::config::BuiltinConfig::S2tw,
    };
    match ferrous_opencc::OpenCC::from_config(config) {
        Ok(converter) => Some(converter.convert(text)),
        Err(_) => None,
    }
}

/// The language tag of Simplified Chinese.
pub const SIMPLIFIED: &'static str = "zh-Hans";

/// The language tag of Traditional Chinese.
pub const TRADITIONAL: &'static str = "zh-Hant";

/// The conversion that text in a language needs.
pub open spec fn conversion_for(language: Seq<char>) -> Option<Conversion> {
    if language == SIMPLIFIED@ {
        Some(Conversion::Tw2sp)
    } else if language == TRADITIONAL@ {
        Some(Conversion::S2tw)
    } else {
        None
    }
}

/// The conversion that text in a language needs.
pub fn variant_conversion(effective_language: &str) -> (r: Option<Conversion>)
    ensures
        r == conversion_for(effective_language@),
{
    if text::same_text(effective_language, SIMPLIFIED) {
        Some(Conversion::Tw2sp)
    } else if text::same_text(effective_language, TRADITIONAL) {
        Some(Conversion::S2tw)
    } else {
        None
    }
}

/// Whether a result is what a call of the converter gave for a text.
pub closed spec fn converter_gave(conversion: Conversion, text: &str, r: Option<String>) -> bool {
    call_ensures(opencc_convert, (conversion, text), r)
}

/// What the converter gave came of a call of it.
proof fn lemma_converter_was_called(conversion: Conversion, text: &str, r: Option<String>)
    requires
        converter_gave(conversion, text, r),
    ensures
        call_ensures(opencc_convert, (conversion, text), r),
        r matches Some(t) ==> t@ == opencc_text(conversion == Conversion::Tw2sp, text@),
{
}

/// The transcription in the script of the language it was made in: what the converter
/// gave, whatever the transcription holds. Nothing for any language but the two Chinese
/// ones, and where the converter does not load.
pub fn maybe_convert_chinese_variant(effective_language: &str, transcription: &str) -> (r: Option<
    String,
>)
    ensures
        conversion_for(effective_language@) is None ==> r is None,
        r matches Some(t) ==> t@ == opencc_text(
            conversion_for(effective_language@) == Some(Conversion::Tw2sp),
            transcription@,
        ),
        effective_language@ == "zh-Hans"@ ==> converter_gave(Conversion::Tw2sp, transcription, r),
        effective_language@ == "zh-Hant"@ ==> converter_gave(Conversion::S2tw, transcription, r),
{
    proof {
        reveal_strlit("zh-Hans");
        reveal_strlit("zh-Hant");
        assert("zh-Hans"@[6] != "zh-Hant"@[6]);
    }
    match variant_conversion(effective_language) {
        Some(conversion) => opencc_convert(conversion, transcription),
        None => None,
    }
}

/// Text in Simplified Chinese is converted to the simplified script, and text in
/// Traditional Chinese to the traditional one.
pub proof fn law_each_script_has_its_conversion()
    ensures
        conversion_for("zh-Hans"@) == Some(Conversion::Tw2sp),
        conversion_for("zh-Hant"@) == Some(Conversion::S2tw),
{
    reveal_strlit("zh-Hans");
    reveal_strlit("zh-Hant");
    assert("zh-Hans"@[6] != "zh-Hant"@[6]);
}

/// Text in a language that is not written in a Chinese script is never converted.
pub proof fn law_other_languages_are_not_converted(language: Seq<char>)
    requires
        language != "zh-Hans"@,
        language != "zh-Hant"@,
    ensures
        conversion_for(language) is None,
{
}

} // verus!
