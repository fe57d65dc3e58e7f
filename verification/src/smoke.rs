//! Reading the command line of the headless smoke run.

use vstd::prelude::*;
use vstd::string::{StrSliceExecFns, StringExecFns};

use crate::text::{ascii_lower, parse_unsigned, same_text};
use crate::tts::TtsEngine;

verus! {

/// What `str::parse::<usize>` reports for text that is not a `usize`.
pub uninterp spec fn int_parse_error(s: Seq<char>) -> Seq<char>;

/// Reads a `usize`.
///
/// Trusted: calls `str::parse::<usize>`. std documents the accepted text as
/// an optional `+` followed by decimal digits whose value fits the type,
/// which `parse_unsigned` states; the error's `Display` text is named
/// `int_parse_error` of the input.
#[verifier::external_body]
fn parse_usize(value: &str) -> (r: Result<usize, String>)
    ensures
        match r {
            Ok(n) => parse_unsigned(value@, usize::MAX as nat) == Ok::<nat, crate::text::IntErrorKind>(
                n as nat,
            ),
            Err(e) => parse_unsigned(value@, usize::MAX as nat) is Err && e@ == int_parse_error(
                value@,
            ),
        },
{
    match value.parse::<usize>() {
        Ok(n) => Ok(n),
        Err(error) => Err(error.to_string()),
    }
}

/// A count argument, or the message that names the argument and the
/// reason it could not be read.
pub open spec fn count_argument(value: Seq<char>, name: Seq<char>) -> Result<nat, Seq<char>> {
    match parse_unsigned(value, usize::MAX as nat) {
        Ok(n) => Ok(n),
        Err(_) => Err("Неверный "@ + name + ": "@ + int_parse_error(value)),
    }
}

/// Reads a count argument of the smoke run.
pub fn parse(value: &str, name: &str) -> (r: Result<usize, String>)
    ensures
        match r {
            Ok(n) => count_argument(value@, name@) == Ok::<nat, Seq<char>>(n as nat),
            Err(e) => count_argument(value@, name@) == Err::<nat, Seq<char>>(e@),
        },
{
    match parse_usize(value) {
        Ok(n) => Ok(n),
        Err(reason) => {
            let mut m = String::from_str("Неверный ");
            m.append(name);
            m.append(": ");
            m.append(reason.as_str());
            Err(m)
        },
    }
}

/// The arguments of a smoke run, all but the duration, which is read as a
/// float by the caller.
#[derive(Clone, Debug)]
pub struct SmokeArguments {
    pub input_path: String,
    pub runtime_root: String,
    pub audio_stream_index: usize,
    pub subtitle_stream_index: Option<usize>,
    pub subtitle_language: Option<String>,
    pub existing_audio_streams: usize,
    pub duration_text: String,
    pub engine: TtsEngine,
}

pub open spec fn usage_message() -> Seq<char> {
    "Использование: dub-smoke INPUT RUNTIME AUDIO_INDEX SUBTITLE_INDEX DURATION_SECONDS AUDIO_STREAM_COUNT TTS [SUBTITLE_LANGUAGE]. Вместо SUBTITLE_INDEX можно указать none."@
}

/// The engine named on the command line.
pub open spec fn engine_named(name: Seq<char>) -> Option<TtsEngine> {
    if name == "piper"@ {
        Some(TtsEngine::PiperDmitriFp32)
    } else if name == "silero"@ {
        Some(TtsEngine::SileroEugene)
    } else {
        None
    }
}

/// `none` in any ASCII case.
pub open spec fn names_none(s: Seq<char>) -> bool {
    s.map_values(|c: char| ascii_lower(c)) == "none"@
}

fn is_none_word(s: &str) -> (b: bool)
    ensures
        b == names_none(s@),
{
    proof {
        reveal_strlit("none");
    }
    let n = s.unicode_len();
    if n != 4 {
        assert(s@.map_values(|c: char| ascii_lower(c)).len() != "none"@.len());
        return false;
    }
    let word = ['n', 'o', 'n', 'e'];
    let mut i: usize = 0;
    while i < 4
        invariant
            0 <= i <= 4,
            s@.len() == 4,
            word@ == "none"@,
            forall|j: int| 0 <= j < i ==> ascii_lower(s@[j]) == word@[j],
        decreases 4 - i,
    {
        let c = s.get_char(i);
        let lower = if 'A' <= c && c <= 'Z' {
            ((c as u32) + 32) as u8 as char
        } else {
            c
        };
        assert(lower == ascii_lower(c)) by {
            if 'A' <= c && c <= 'Z' {
                assert(((c as u32) + 32) as u8 as char == ((c as u32) + 32) as char);
            }
        }
        if lower != word[i] {
            assert(s@.map_values(|c: char| ascii_lower(c))[i as int] != "none"@[i as int]);
            return false;
        }
        i = i + 1;
    }
    assert(s@.map_values(|c: char| ascii_lower(c)) =~= "none"@);
    true
}

/// The numbers and choices read from the smoke run's arguments, or the
/// first error: the argument count, then the engine, the subtitle index,
/// the audio index and the audio stream count, in that order.
pub open spec fn smoke_outcome(args: Seq<Seq<char>>) -> Result<
    (nat, Option<nat>, nat, TtsEngine),
    Seq<char>,
> {
    if args.len() < 8 || args.len() > 9 {
        Err(usage_message())
    } else {
        match engine_named(args[7]) {
            None => Err("Неизвестный TTS: "@ + args[7]),
            Some(engine) => {
                let subtitle: Result<Option<nat>, Seq<char>> = if names_none(args[4]) {
                    Ok(None)
                } else {
                    match count_argument(args[4], "SUBTITLE_INDEX"@) {
                        Ok(n) => Ok(Some(n)),
                        Err(e) => Err(e),
                    }
                };
                match subtitle {
                    Err(e) => Err(e),
                    Ok(sub) => match count_argument(args[3], "AUDIO_INDEX"@) {
                        Err(e) => Err(e),
                        Ok(audio) => match count_argument(args[6], "AUDIO_STREAM_COUNT"@) {
                            Err(e) => Err(e),
                            Ok(count) => Ok((audio, sub, count, engine)),
                        },
                    },
                }
            },
        }
    }
}

pub open spec fn arg_views(args: Seq<String>) -> Seq<Seq<char>> {
    args.map_values(|a: String| a@)
}

/// Reads the smoke run's command line (the program name first).
pub fn read_smoke_arguments(args: &Vec<String>) -> (r: Result<SmokeArguments, String>)
    ensures
        match r {
            Err(e) => smoke_outcome(arg_views(args@)) == Err::<
                (nat, Option<nat>, nat, TtsEngine),
                Seq<char>,
            >(e@),
            Ok(a) => {
                &&& smoke_outcome(arg_views(args@)) == Ok::<
                    (nat, Option<nat>, nat, TtsEngine),
                    Seq<char>,
                >(
                    (
                        a.audio_stream_index as nat,
                        match a.subtitle_stream_index {
                            Some(n) => Some(n as nat),
                            None => None,
                        },
                        a.existing_audio_streams as nat,
                        a.engine,
                    ),
                )
                &&& a.input_path@ == args@[1]@
                &&& a.runtime_root@ == args@[2]@
                &&& a.duration_text@ == args@[5]@
                &&& match a.subtitle_stream_index {
                    None => a.subtitle_language is None,
                    Some(_) => a.subtitle_language matches Some(l) && l@ == if args@.len() > 8 {
                        args@[8]@
                    } else {
                        "rus"@
                    },
                }
            },
        },
{
    let ghost av = arg_views(args@);
    if args.len() < 8 || args.len() > 9 {
        return Err(String::from_str(
            "Использование: dub-smoke INPUT RUNTIME AUDIO_INDEX SUBTITLE_INDEX DURATION_SECONDS AUDIO_STREAM_COUNT TTS [SUBTITLE_LANGUAGE]. Вместо SUBTITLE_INDEX можно указать none.",
        ));
    }
    assert(av[7] == args@[7]@ && av[4] == args@[4]@ && av[3] == args@[3]@ && av[6] == args@[6]@);
    let engine = if same_text(args[7].as_str(), "piper") {
        TtsEngine::PiperDmitriFp32
    } else if same_text(args[7].as_str(), "silero") {
        TtsEngine::SileroEugene
    } else {
        let mut m = String::from_str("Неизвестный TTS: ");
        m.append(args[7].as_str());
        return Err(m);
    };
    let subtitle_stream_index = if is_none_word(args[4].as_str()) {
        None
    } else {
        match parse(args[4].as_str(), "SUBTITLE_INDEX") {
            Ok(n) => Some(n),
            Err(e) => return Err(e),
        }
    };
    let audio_stream_index = match parse(args[3].as_str(), "AUDIO_INDEX") {
        Ok(n) => n,
        Err(e) => return Err(e),
    };
    let existing_audio_streams = match parse(args[6].as_str(), "AUDIO_STREAM_COUNT") {
        Ok(n) => n,
        Err(e) => return Err(e),
    };
    let subtitle_language = match subtitle_stream_index {
        None => None,
        Some(_) => Some(
            if args.len() > 8 {
                args[8].clone()
            } else {
                String::from_str("rus")
            },
        ),
    };
    Ok(
        SmokeArguments {
            input_path: args[1].clone(),
            runtime_root: args[2].clone(),
            audio_stream_index,
            subtitle_stream_index,
            subtitle_language,
            existing_audio_streams,
            duration_text: args[5].clone(),
            engine,
        },
    )
}

} // verus!
