//! Choosing the processing route, and the integer part of fitting a
//! synthesized cue into its time slot.

use vstd::prelude::*;

use crate::media::{StreamInfo, SubtitleKind};
use crate::text::{lowercase, same_text, to_lower, trim, trimmed};

verus! {

/// The processing branch after subtitles were chosen.
#[derive(Clone, Copy, Debug, PartialEq, Eq, Structural)]
pub enum PipelineRoute {
    UseRussianSubtitles,
    TranslateSubtitles,
    TranscribeAndTranslate,
}

/// The names by which Russian is tagged, after trimming and lower-casing.
pub open spec fn is_russian_code(l: Seq<char>) -> bool {
    l == "ru"@ || l == "rus"@ || l == "russian"@
}

/// `ru` for every spelling of Russian, otherwise the language unchanged.
pub open spec fn canonical(language: Seq<char>) -> Seq<char> {
    if is_russian_code(lowercase(trim(language))) {
        "ru"@
    } else {
        language
    }
}

/// Maps the spellings of Russian to `ru`; returns other languages as given.
pub fn canonical_language(language: &str) -> (c: &str)
    ensures
        c@ == canonical(language@),
{
    let t = trimmed(language);
    let l = to_lower(t.as_str());
    if same_text(l.as_str(), "ru") || same_text(l.as_str(), "rus") || same_text(
        l.as_str(),
        "russian",
    ) {
        "ru"
    } else {
        language
    }
}

/// A stream tagged with the target language, comparing canonical forms.
pub open spec fn same_language(stream_language: Option<Seq<char>>, target: Seq<char>) -> bool {
    match stream_language {
        Some(l) => canonical(l) == canonical(target),
        None => false,
    }
}

/// Whether the stream's language is the target language.
pub fn is_same_language(stream_language: Option<&str>, target_language: &str) -> (b: bool)
    ensures
        b == same_language(
            match stream_language {
                Some(l) => Some(l@),
                None => None,
            },
            target_language@,
        ),
{
    let target = canonical_language(target_language);
    match stream_language {
        Some(l) => same_text(canonical_language(l), target),
        None => false,
    }
}

/// The route for the chosen subtitles: without subtitles, or with bitmap
/// ones, speech is transcribed and translated; text subtitles already in
/// the target language are used as they are; others are translated.
pub open spec fn route_for(subtitle: Option<StreamInfo>, target: Seq<char>) -> PipelineRoute {
    match subtitle {
        None => PipelineRoute::TranscribeAndTranslate,
        Some(s) => if s.subtitle_kind == Some(SubtitleKind::Image) {
            PipelineRoute::TranscribeAndTranslate
        } else if same_language(
            match s.language {
                Some(l) => Some(l@),
                None => None,
            },
            target,
        ) {
            PipelineRoute::UseRussianSubtitles
        } else {
            PipelineRoute::TranslateSubtitles
        },
    }
}

/// Chooses the pipeline branch from the kind and language of the chosen
/// subtitles.
pub fn choose_pipeline_route(subtitle: Option<&StreamInfo>, target_language: &str) -> (r:
    PipelineRoute)
    ensures
        r == route_for(
            match subtitle {
                Some(s) => Some(*s),
                None => None,
            },
            target_language@,
        ),
{
    match subtitle {
        None => PipelineRoute::TranscribeAndTranslate,
        Some(s) => {
            if s.subtitle_kind == Some(SubtitleKind::Image) {
                return PipelineRoute::TranscribeAndTranslate;
            }
            let language = match &s.language {
                Some(l) => Some(l.as_str()),
                None => None,
            };
            if is_same_language(language, target_language) {
                PipelineRoute::UseRussianSubtitles
            } else {
                PipelineRoute::TranslateSubtitles
            }
        },
    }
}

/// A synthesized cue fits its slot when it is empty or at most 10% longer
/// than the slot; the 110% bound saturates at `u64::MAX` before dividing.
pub open spec fn fits_slot(slot_ms: u64, synthesized_ms: u64) -> bool {
    let scaled: int = if slot_ms * 110 > u64::MAX {
        u64::MAX as int
    } else {
        slot_ms * 110
    };
    synthesized_ms == 0 || synthesized_ms <= scaled / 100
}

/// Whether a synthesized cue can be accepted as it is.
pub fn fits_in_slot(slot_ms: u64, synthesized_ms: u64) -> (b: bool)
    ensures
        b == fits_slot(slot_ms, synthesized_ms),
{
    let scaled: u64 = if slot_ms > u64::MAX / 110 {
        u64::MAX
    } else {
        slot_ms * 110
    };
    synthesized_ms == 0 || synthesized_ms <= scaled / 100
}


/// Bitmap subtitles cannot be read as text: whenever the chosen subtitle
/// stream is a bitmap one, speech is transcribed and translated, whatever
/// its language and the target language.
pub proof fn lemma_bitmap_subtitles_are_transcribed(s: StreamInfo, target: Seq<char>)
    requires
        s.subtitle_kind == Some(SubtitleKind::Image),
    ensures
        route_for(Some(s), target) == PipelineRoute::TranscribeAndTranslate,
{
}

/// Without subtitles speech is transcribed and translated; subtitles are
/// used as they are only when they are text subtitles tagged with the
/// target language.
pub proof fn lemma_subtitles_used_only_as_text_in_target_language(
    subtitle: Option<StreamInfo>,
    target: Seq<char>,
)
    ensures
        subtitle is None ==> route_for(subtitle, target) == PipelineRoute::TranscribeAndTranslate,
        route_for(subtitle, target) == PipelineRoute::UseRussianSubtitles ==> (subtitle matches Some(
            s,
        ) && s.subtitle_kind != Some(SubtitleKind::Image) && (s.language matches Some(l)
            && canonical(l@) == canonical(target))),
{
}

} // verus!
