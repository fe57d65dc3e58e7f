//! Command-line arguments for the external media tools.

use vstd::prelude::*;
use vstd::string::StringExecFns;

use crate::text::{chars_of, decimal, push_decimal, string_of};

verus! {

/// Options of a `whisper.cpp` run; paths are given as text.
pub struct WhisperOptions<'a> {
    pub model_path: &'a str,
    pub audio_path: &'a str,
    pub output_base: &'a str,
    pub language: &'a str,
    pub vad_model_path: Option<&'a str>,
}

/// Options of the Silero TTS worker process.
pub struct SileroOptions<'a> {
    pub model_path: &'a str,
    pub input_manifest: &'a str,
    pub output_dir: &'a str,
    pub speaker: &'a str,
    pub sample_rate: u32,
}

/// Options for adding the dubbed track to a Matroska file.
pub struct MuxOptions<'a> {
    pub input_path: &'a str,
    pub dubbed_audio_path: &'a str,
    pub output_path: &'a str,
    pub existing_audio_streams: usize,
    pub make_default: bool,
}

/// A path as tool arguments carry it: backslashes become slashes.
pub open spec fn path_arg(path: Seq<char>) -> Seq<char> {
    path.map_values(|c: char| if c == '\\' { '/' } else { c })
}

/// The text of a path with forward slashes.
pub fn path_text(path: &str) -> (t: String)
    ensures
        t@ == path_arg(path@),
{
    let cs = chars_of(path);
    let mut out: Vec<char> = Vec::new();
    let mut k: usize = 0;
    while k < cs.len()
        invariant
            0 <= k <= cs.len(),
            out@ == path_arg(cs@.subrange(0, k as int)),
        decreases cs.len() - k,
    {
        let c = cs[k];
        out.push(if c == '\\' { '/' } else { c });
        assert(path_arg(cs@.subrange(0, k + 1)) =~= path_arg(cs@.subrange(0, k as int)).push(
            if c == '\\' { '/' } else { c },
        ));
        k = k + 1;
    }
    assert(cs@.subrange(0, cs.len() as int) =~= cs@);
    string_of(&out)
}

/// The views of a list of arguments.
pub open spec fn arg_views(args: Seq<String>) -> Seq<Seq<char>> {
    args.map_values(|a: String| a@)
}

fn push_arg(args: &mut Vec<String>, a: String)
    ensures
        arg_views(final(args)@) == arg_views(old(args)@).push(a@),
{
    let ghost before = args@;
    args.push(a);
    assert(arg_views(args@) =~= arg_views(before).push(a@));
}

/// The arguments of a JSON transcription with progress and flash attention,
/// with voice activity detection when a VAD model is given.
pub open spec fn whisper_arg_list(
    model: Seq<char>,
    audio: Seq<char>,
    output_base: Seq<char>,
    language: Seq<char>,
    vad: Option<Seq<char>>,
) -> Seq<Seq<char>> {
    let base = seq![
        "--model"@,
        path_arg(model),
        "--file"@,
        path_arg(audio),
        "--output-file"@,
        path_arg(output_base),
        "--language"@,
        language,
        "--output-json"@,
        "--print-progress"@,
        "--flash-attn"@,
    ];
    match vad {
        Some(v) => base + seq!["--vad"@, "--vad-model"@, path_arg(v)],
        None => base,
    }
}

/// Builds the `whisper.cpp` command line.
pub fn build_whisper_args(options: &WhisperOptions) -> (args: Vec<String>)
    ensures
        arg_views(args@) == whisper_arg_list(
            options.model_path@,
            options.audio_path@,
            options.output_base@,
            options.language@,
            match options.vad_model_path {
                Some(p) => Some(p@),
                None => None,
            },
        ),
{
    let mut args: Vec<String> = Vec::new();
    push_arg(&mut args, String::from_str("--model"));
    push_arg(&mut args, path_text(options.model_path));
    push_arg(&mut args, String::from_str("--file"));
    push_arg(&mut args, path_text(options.audio_path));
    push_arg(&mut args, String::from_str("--output-file"));
    push_arg(&mut args, path_text(options.output_base));
    push_arg(&mut args, String::from_str("--language"));
    push_arg(&mut args, String::from_str(options.language));
    push_arg(&mut args, String::from_str("--output-json"));
    push_arg(&mut args, String::from_str("--print-progress"));
    push_arg(&mut args, String::from_str("--flash-attn"));
    let ghost base = arg_views(args@);
    match options.vad_model_path {
        Some(vad) => {
            push_arg(&mut args, String::from_str("--vad"));
            push_arg(&mut args, String::from_str("--vad-model"));
            push_arg(&mut args, path_text(vad));
        },
        None => {},
    }
    assert(arg_views(args@) =~= whisper_arg_list(
        options.model_path@,
        options.audio_path@,
        options.output_base@,
        options.language@,
        match options.vad_model_path {
            Some(p) => Some(p@),
            None => None,
        },
    ));
    args
}

/// The arguments of the Silero worker.
pub open spec fn silero_arg_list(
    model: Seq<char>,
    manifest: Seq<char>,
    output_dir: Seq<char>,
    speaker: Seq<char>,
    sample_rate: nat,
) -> Seq<Seq<char>> {
    seq![
        "--model"@,
        path_arg(model),
        "--input"@,
        path_arg(manifest),
        "--output-dir"@,
        path_arg(output_dir),
        "--speaker"@,
        speaker,
        "--sample-rate"@,
        decimal(sample_rate),
    ]
}

/// The decimal text of `n`.
pub fn decimal_string(n: u64) -> (s: String)
    ensures
        s@ == decimal(n as nat),
{
    let mut digits: Vec<char> = Vec::new();
    push_decimal(&mut digits, n);
    assert(digits@ =~= decimal(n as nat));
    string_of(&digits)
}

/// Builds the Silero worker command line.
pub fn build_silero_args(options: &SileroOptions) -> (args: Vec<String>)
    ensures
        arg_views(args@) == silero_arg_list(
            options.model_path@,
            options.input_manifest@,
            options.output_dir@,
            options.speaker@,
            options.sample_rate as nat,
        ),
{
    let mut args: Vec<String> = Vec::new();
    push_arg(&mut args, String::from_str("--model"));
    push_arg(&mut args, path_text(options.model_path));
    push_arg(&mut args, String::from_str("--input"));
    push_arg(&mut args, path_text(options.input_manifest));
    push_arg(&mut args, String::from_str("--output-dir"));
    push_arg(&mut args, path_text(options.output_dir));
    push_arg(&mut args, String::from_str("--speaker"));
    push_arg(&mut args, String::from_str(options.speaker));
    push_arg(&mut args, String::from_str("--sample-rate"));
    push_arg(&mut args, decimal_string(options.sample_rate as u64));
    assert(arg_views(args@) =~= silero_arg_list(
        options.model_path@,
        options.input_manifest@,
        options.output_dir@,
        options.speaker@,
        options.sample_rate as nat,
    ));
    args
}

/// `-disposition:a:{i} 0` for every copied audio stream `i < n`, so that
/// none of them stays default.
pub open spec fn clear_dispositions(n: nat) -> Seq<Seq<char>>
    decreases n,
{
    if n == 0 {
        seq![]
    } else {
        clear_dispositions((n - 1) as nat) + seq!["-disposition:a:"@ + decimal((n - 1) as nat), "0"@]
    }
}

/// The `ffmpeg` arguments that copy every stream of the input, add the
/// dubbed audio as audio stream number `index` encoded as 192 kbit/s AAC,
/// label it Russian, and mark it default or not; when it is default, the
/// copied audio streams lose their default flag, so the dub is the only
/// default audio stream.
pub open spec fn mux_arg_list(
    input: Seq<char>,
    dubbed: Seq<char>,
    output: Seq<char>,
    index: nat,
    make_default: bool,
) -> Seq<Seq<char>> {
    let n = decimal(index);
    seq![
        "-i"@,
        path_arg(input),
        "-i"@,
        path_arg(dubbed),
        "-map"@,
        "0"@,
        "-map"@,
        "1:a:0"@,
        "-map_metadata"@,
        "0"@,
        "-map_chapters"@,
        "0"@,
        "-c"@,
        "copy"@,
        "-c:a:"@ + n,
        "aac"@,
        "-b:a:"@ + n,
        "192k"@,
        "-metadata:s:a:"@ + n,
        "language=rus"@,
        "-metadata:s:a:"@ + n,
        "title=Русский одноголосый дубляж"@,
        "-disposition:a:"@ + n,
        if make_default {
            "default"@
        } else {
            "0"@
        },
    ] + (if make_default {
        clear_dispositions(index)
    } else {
        seq![]
    }) + seq![path_arg(output)]
}

fn keyed(prefix: &str, index: usize) -> (s: String)
    ensures
        s@ == prefix@ + decimal(index as nat),
{
    let mut s = String::from_str(prefix);
    let d = decimal_string(index as u64);
    s.append(d.as_str());
    s
}

/// Builds the `ffmpeg` arguments that keep the source streams and add the
/// dubbed track.
pub fn build_mux_args(options: &MuxOptions) -> (args: Vec<String>)
    ensures
        arg_views(args@) == mux_arg_list(
            options.input_path@,
            options.dubbed_audio_path@,
            options.output_path@,
            options.existing_audio_streams as nat,
            options.make_default,
        ),
{
    let audio_index = options.existing_audio_streams;
    let mut args: Vec<String> = Vec::new();
    push_arg(&mut args, String::from_str("-i"));
    push_arg(&mut args, path_text(options.input_path));
    push_arg(&mut args, String::from_str("-i"));
    push_arg(&mut args, path_text(options.dubbed_audio_path));
    push_arg(&mut args, String::from_str("-map"));
    push_arg(&mut args, String::from_str("0"));
    push_arg(&mut args, String::from_str("-map"));
    push_arg(&mut args, String::from_str("1:a:0"));
    push_arg(&mut args, String::from_str("-map_metadata"));
    push_arg(&mut args, String::from_str("0"));
    push_arg(&mut args, String::from_str("-map_chapters"));
    push_arg(&mut args, String::from_str("0"));
    push_arg(&mut args, String::from_str("-c"));
    push_arg(&mut args, String::from_str("copy"));
    push_arg(&mut args, keyed("-c:a:", audio_index));
    push_arg(&mut args, String::from_str("aac"));
    push_arg(&mut args, keyed("-b:a:", audio_index));
    push_arg(&mut args, String::from_str("192k"));
    push_arg(&mut args, keyed("-metadata:s:a:", audio_index));
    push_arg(&mut args, String::from_str("language=rus"));
    push_arg(&mut args, keyed("-metadata:s:a:", audio_index));
    push_arg(&mut args, String::from_str("title=Русский одноголосый дубляж"));
    push_arg(&mut args, keyed("-disposition:a:", audio_index));
    push_arg(
        &mut args,
        String::from_str(
            if options.make_default {
                "default"
            } else {
                "0"
            },
        ),
    );
    if options.make_default {
        let mut i: usize = 0;
        let ghost start = arg_views(args@);
        while i < audio_index
            invariant
                0 <= i <= audio_index,
                arg_views(args@) == start + clear_dispositions(i as nat),
            decreases audio_index - i,
        {
            push_arg(&mut args, keyed("-disposition:a:", i));
            push_arg(&mut args, String::from_str("0"));
            assert(start + clear_dispositions((i + 1) as nat) =~= start + clear_dispositions(
                i as nat,
            ) + seq!["-disposition:a:"@ + decimal(i as nat), "0"@]);
            i = i + 1;
        }
    }
    push_arg(&mut args, path_text(options.output_path));
    assert(arg_views(args@) =~= mux_arg_list(
        options.input_path@,
        options.dubbed_audio_path@,
        options.output_path@,
        options.existing_audio_streams as nat,
        options.make_default,
    ));
    args
}


/// The value that follows the flag at position `i` of `args`.
pub open spec fn flag_value(args: Seq<Seq<char>>, i: int, flag: Seq<char>, value: Seq<char>) -> bool {
    0 <= i && i + 1 < args.len() && args[i] == flag && args[i + 1] == value
}

/// In the `whisper.cpp` command line each flag carries its own option: the
/// model after `--model`, the audio after `--file`, the output base after
/// `--output-file`, the language after `--language`, and the VAD model, when
/// given, after `--vad-model`, last.
pub proof fn lemma_whisper_flags_carry_their_options(options: WhisperOptions, args: Seq<String>)
    requires
        arg_views(args) == whisper_arg_list(
            options.model_path@,
            options.audio_path@,
            options.output_base@,
            options.language@,
            match options.vad_model_path {
                Some(p) => Some(p@),
                None => None,
            },
        ),
    ensures
        flag_value(arg_views(args), 0, "--model"@, path_arg(options.model_path@)),
        flag_value(arg_views(args), 2, "--file"@, path_arg(options.audio_path@)),
        flag_value(arg_views(args), 4, "--output-file"@, path_arg(options.output_base@)),
        flag_value(arg_views(args), 6, "--language"@, options.language@),
        options.vad_model_path matches Some(v) ==> args.len() == 14 && flag_value(
            arg_views(args),
            12,
            "--vad-model"@,
            path_arg(v@),
        ),
        options.vad_model_path is None ==> args.len() == 11,
{
    let a = arg_views(args);
    assert(a.len() == args.len());
}

/// In the Silero worker's command line each flag carries its own option:
/// the model after `--model`, the input manifest after `--input`, the output
/// directory after `--output-dir`, the speaker after `--speaker` and the
/// sample rate in decimal after `--sample-rate`.
pub proof fn lemma_silero_flags_carry_their_options(options: SileroOptions, args: Seq<String>)
    requires
        arg_views(args) == silero_arg_list(
            options.model_path@,
            options.input_manifest@,
            options.output_dir@,
            options.speaker@,
            options.sample_rate as nat,
        ),
    ensures
        args.len() == 10,
        flag_value(arg_views(args), 0, "--model"@, path_arg(options.model_path@)),
        flag_value(arg_views(args), 2, "--input"@, path_arg(options.input_manifest@)),
        flag_value(arg_views(args), 4, "--output-dir"@, path_arg(options.output_dir@)),
        flag_value(arg_views(args), 6, "--speaker"@, options.speaker@),
        flag_value(arg_views(args), 8, "--sample-rate"@, decimal(options.sample_rate as nat)),
{
    let a = arg_views(args);
    assert(a.len() == args.len());
}

/// The mux reads the source file as its first input and the dubbed audio as
/// its second, so `-map 0` keeps every stream of the source and `-map 1:a:0`
/// adds the dub; the output path is the last argument.
pub proof fn lemma_mux_inputs_source_then_dub(options: MuxOptions, args: Seq<String>)
    requires
        arg_views(args) == mux_arg_list(
            options.input_path@,
            options.dubbed_audio_path@,
            options.output_path@,
            options.existing_audio_streams as nat,
            options.make_default,
        ),
    ensures
        flag_value(arg_views(args), 0, "-i"@, path_arg(options.input_path@)),
        flag_value(arg_views(args), 2, "-i"@, path_arg(options.dubbed_audio_path@)),
        flag_value(arg_views(args), 4, "-map"@, "0"@),
        flag_value(arg_views(args), 6, "-map"@, "1:a:0"@),
        args.len() > 8,
        arg_views(args)[args.len() - 1] == path_arg(options.output_path@),
{
    let a = arg_views(args);
    assert(a.len() == args.len());
}


proof fn lemma_clear_dispositions_at(n: nat, i: int)
    ensures
        clear_dispositions(n).len() == 2 * n,
        0 <= i < n ==> clear_dispositions(n)[2 * i] == "-disposition:a:"@ + decimal(i as nat)
            && clear_dispositions(n)[2 * i + 1] == "0"@,
    decreases n,
{
    if n > 0 {
        lemma_clear_dispositions_at((n - 1) as nat, i);
    }
}

/// Copied audio stream `i` is set to not default, right after the dub's
/// own disposition.
pub open spec fn clears_default(args: Seq<Seq<char>>, i: int) -> bool {
    flag_value(args, 24 + 2 * i, "-disposition:a:"@ + decimal(i as nat), "0"@)
}

/// The dub is added as audio stream number `existing_audio_streams`: that
/// stream is encoded as 192 kbit/s AAC after every other stream is copied,
/// labelled Russian, and made default exactly when asked; when it is made
/// default, each copied audio stream before it loses its default flag.
pub proof fn lemma_mux_dub_stream_options(options: MuxOptions, args: Seq<String>)
    requires
        arg_views(args) == mux_arg_list(
            options.input_path@,
            options.dubbed_audio_path@,
            options.output_path@,
            options.existing_audio_streams as nat,
            options.make_default,
        ),
    ensures
        flag_value(arg_views(args), 12, "-c"@, "copy"@),
        flag_value(
            arg_views(args),
            14,
            "-c:a:"@ + decimal(options.existing_audio_streams as nat),
            "aac"@,
        ),
        flag_value(
            arg_views(args),
            16,
            "-b:a:"@ + decimal(options.existing_audio_streams as nat),
            "192k"@,
        ),
        flag_value(
            arg_views(args),
            18,
            "-metadata:s:a:"@ + decimal(options.existing_audio_streams as nat),
            "language=rus"@,
        ),
        flag_value(
            arg_views(args),
            22,
            "-disposition:a:"@ + decimal(options.existing_audio_streams as nat),
            if options.make_default {
                "default"@
            } else {
                "0"@
            },
        ),
        args.len() == 25 + if options.make_default {
            2 * options.existing_audio_streams
        } else {
            0
        },
        options.make_default ==> forall|i: int|
            0 <= i < options.existing_audio_streams ==> #[trigger] clears_default(
                arg_views(args),
                i,
            ),
{
    let a = arg_views(args);
    assert(a.len() == args.len());
    let n = options.existing_audio_streams as nat;
    lemma_clear_dispositions_at(n, 0);
    if options.make_default {
        assert forall|i: int| 0 <= i < n implies #[trigger] clears_default(a, i) by {
            lemma_clear_dispositions_at(n, i);
            assert(a[24 + 2 * i] == clear_dispositions(n)[2 * i]);
            assert(a[24 + 2 * i + 1] == clear_dispositions(n)[2 * i + 1]);
        }
    }
}

} // verus!
