//! The supported TTS engines and the layout of their local runtime.

use vstd::prelude::*;
use vstd::string::{StrSliceExecFns, StringExecFns};

use crate::text::{debug_list, debug_list_text, string_of};

verus! {

/// The TTS engine chosen for a job.
#[derive(Clone, Copy, Debug, PartialEq, Eq, Structural)]
pub enum TtsEngine {
    /// Native Piper FP32 through `sherpa-onnx`.
    PiperDmitriFp32,
    /// Silero 5.5 in an isolated standalone runtime.
    SileroEugene,
}

impl Default for TtsEngine {
    fn default() -> (e: Self)
        ensures
            e == TtsEngine::PiperDmitriFp32,
    {
        TtsEngine::PiperDmitriFp32
    }
}

/// How synthesis runs.
#[derive(Clone, Copy, Debug, PartialEq, Eq, Structural)]
pub enum TtsBackend {
    SherpaOnnx,
    SileroStandalone,
}

/// The fixed synthesis parameters of an engine.
#[derive(Clone, Copy, Debug, PartialEq, Eq)]
pub struct TtsEngineDescriptor {
    pub engine: TtsEngine,
    pub backend: TtsBackend,
    pub model_id: &'static str,
    pub speaker: &'static str,
    pub sample_rate: u32,
}

/// The stable identifier used in settings, the cache and the API.
pub open spec fn engine_id(e: TtsEngine) -> Seq<char> {
    match e {
        TtsEngine::PiperDmitriFp32 => "piper-dmitri-fp32"@,
        TtsEngine::SileroEugene => "silero-v5-5-eugene"@,
    }
}

/// The name of the engine and voice shown to users.
pub open spec fn engine_display_name(e: TtsEngine) -> Seq<char> {
    match e {
        TtsEngine::PiperDmitriFp32 => "Piper · Dmitri FP32"@,
        TtsEngine::SileroEugene => "Silero 5.5 · Eugene"@,
    }
}

/// The descriptor of an engine: backend, model, speaker and sample rate.
pub open spec fn describes(d: TtsEngineDescriptor, e: TtsEngine) -> bool {
    &&& d.engine == e
    &&& match e {
        TtsEngine::PiperDmitriFp32 => {
            &&& d.backend == TtsBackend::SherpaOnnx
            &&& d.model_id@ == "ru_RU-dmitri-medium"@
            &&& d.speaker@ == "dmitri"@
            &&& d.sample_rate == 22_050
        },
        TtsEngine::SileroEugene => {
            &&& d.backend == TtsBackend::SileroStandalone
            &&& d.model_id@ == "v5_5_ru"@
            &&& d.speaker@ == "eugene"@
            &&& d.sample_rate == 48_000
        },
    }
}

impl TtsEngine {
    /// Stable identifier for settings, the cache and the API.
    pub fn id(self) -> (s: &'static str)
        ensures
            s@ == engine_id(self),
    {
        match self {
            TtsEngine::PiperDmitriFp32 => "piper-dmitri-fp32",
            TtsEngine::SileroEugene => "silero-v5-5-eugene",
        }
    }

    /// User-facing name of the engine and its voice.
    pub fn display_name(self) -> (s: &'static str)
        ensures
            s@ == engine_display_name(self),
    {
        match self {
            TtsEngine::PiperDmitriFp32 => "Piper · Dmitri FP32",
            TtsEngine::SileroEugene => "Silero 5.5 · Eugene",
        }
    }

    /// The fixed synthesis parameters of the engine.
    pub fn descriptor(self) -> (d: TtsEngineDescriptor)
        ensures
            describes(d, self),
    {
        match self {
            TtsEngine::PiperDmitriFp32 => TtsEngineDescriptor {
                engine: self,
                backend: TtsBackend::SherpaOnnx,
                model_id: "ru_RU-dmitri-medium",
                speaker: "dmitri",
                sample_rate: 22_050,
            },
            TtsEngine::SileroEugene => TtsEngineDescriptor {
                engine: self,
                backend: TtsBackend::SileroStandalone,
                model_id: "v5_5_ru",
                speaker: "eugene",
                sample_rate: 48_000,
            },
        }
    }
}

/// The platform's main path separator.
///
/// Trusted: returns `std::path::MAIN_SEPARATOR`, which depends on the
/// platform the library is built for; nothing is stated of it.
#[verifier::external_body]
fn main_separator() -> char {
    std::path::MAIN_SEPARATOR
}

/// Whether a path ends in a separator: `/`, or the platform's `sep`.
pub open spec fn ends_in_separator(base: Seq<char>, sep: char) -> bool {
    base.len() > 0 && (base.last() == '/' || base.last() == sep)
}

/// A relative part joined to a path with the separator `sep`: the part
/// follows the base, with `sep` between them unless the base is empty or
/// already ends in a separator.
pub open spec fn join_path(base: Seq<char>, part: Seq<char>, sep: char) -> Seq<char> {
    if base.len() == 0 || ends_in_separator(base, sep) {
        base + part
    } else {
        base + seq![sep] + part
    }
}

/// Joins a relative part to a path with the separator `sep`.
fn join(base: &str, part: &str, sep: char) -> (p: String)
    ensures
        p@ == join_path(base@, part@, sep),
{
    let n = base.unicode_len();
    let mut p = String::from_str(base);
    if n > 0 {
        let last = base.get_char(n - 1);
        if last != '/' && last != sep {
            let mut one: Vec<char> = Vec::new();
            one.push(sep);
            let s = string_of(&one);
            assert(s@ =~= seq![sep]);
            p.append(s.as_str());
        }
    }
    p.append(part);
    p
}

/// The directory of an engine under the runtime root.
pub open spec fn engine_root(root: Seq<char>, e: TtsEngine, sep: char) -> Seq<char> {
    join_path(join_path(root, "tts"@, sep), engine_id(e), sep)
}

/// The file `file` in the directory `dir` of an engine under the runtime
/// root.
pub open spec fn under(
    root: Seq<char>,
    e: TtsEngine,
    dir: Seq<char>,
    file: Seq<char>,
    sep: char,
) -> Seq<char> {
    join_path(join_path(engine_root(root, e, sep), dir, sep), file, sep)
}

/// The files of the native Piper runtime.
#[derive(Clone, Debug, PartialEq, Eq)]
pub struct PiperRuntime {
    pub library_path: String,
    pub model_path: String,
    pub tokens_path: String,
    pub data_dir: String,
}

/// The files of the standalone Silero runtime.
#[derive(Clone, Debug, PartialEq, Eq)]
pub struct SileroRuntime {
    pub worker_path: String,
    pub model_path: String,
}

/// The Piper runtime expected under `root`.
pub open spec fn piper_expected(p: PiperRuntime, root: Seq<char>, sep: char) -> bool {
    let e = TtsEngine::PiperDmitriFp32;
    &&& p.library_path@ == under(root, e, "bin"@, "sherpa-onnx-c-api.dll"@, sep)
    &&& p.model_path@ == under(root, e, "model"@, "ru_RU-dmitri-medium.onnx"@, sep)
    &&& p.tokens_path@ == under(root, e, "model"@, "tokens.txt"@, sep)
    &&& p.data_dir@ == under(root, e, "model"@, "espeak-ng-data"@, sep)
}

/// The Silero runtime expected under `root`.
pub open spec fn silero_expected(s: SileroRuntime, root: Seq<char>, sep: char) -> bool {
    let e = TtsEngine::SileroEugene;
    &&& s.worker_path@ == under(root, e, "worker"@, "silero-worker.exe"@, sep)
    &&& s.model_path@ == under(root, e, "models"@, "v5_5_ru.pt"@, sep)
}

fn engine_file(root: &str, e: TtsEngine, dir: &str, file: &str, sep: char) -> (p: String)
    ensures
        p@ == under(root@, e, dir@, file@, sep),
{
    let tts = join(root, "tts", sep);
    let base = join(tts.as_str(), e.id(), sep);
    let d = join(base.as_str(), dir, sep);
    join(d.as_str(), file, sep)
}

impl PiperRuntime {
    /// Where the Piper files are expected under the shared runtime root,
    /// joined with the platform's path separator.
    pub fn expected(root: &str) -> (r: Self)
        ensures
            exists|sep: char| piper_expected(r, root@, sep),
    {
        Self::expected_with_separator(root, main_separator())
    }

    /// Where the Piper files are expected under `root`, joined with `sep`.
    pub fn expected_with_separator(root: &str, sep: char) -> (r: Self)
        ensures
            piper_expected(r, root@, sep),
    {
        let e = TtsEngine::PiperDmitriFp32;
        PiperRuntime {
            library_path: engine_file(root, e, "bin", "sherpa-onnx-c-api.dll", sep),
            model_path: engine_file(root, e, "model", "ru_RU-dmitri-medium.onnx", sep),
            tokens_path: engine_file(root, e, "model", "tokens.txt", sep),
            data_dir: engine_file(root, e, "model", "espeak-ng-data", sep),
        }
    }

    /// The entries that must exist: three files and the data directory.
    pub fn required_entries(&self) -> (v: Vec<RequiredEntry>)
        ensures
            entry_views(v@) == seq![
                (self.library_path@, false),
                (self.model_path@, false),
                (self.tokens_path@, false),
                (self.data_dir@, true),
            ],
            v@.len() == 4,
    {
        let v = vec![
            RequiredEntry { path: self.library_path.clone(), is_directory: false },
            RequiredEntry { path: self.model_path.clone(), is_directory: false },
            RequiredEntry { path: self.tokens_path.clone(), is_directory: false },
            RequiredEntry { path: self.data_dir.clone(), is_directory: true },
        ];
        assert(entry_views(v@) =~= seq![
            (self.library_path@, false),
            (self.model_path@, false),
            (self.tokens_path@, false),
            (self.data_dir@, true),
        ]);
        v
    }
}

impl SileroRuntime {
    /// Where the Silero files are expected under the shared runtime root,
    /// joined with the platform's path separator.
    pub fn expected(root: &str) -> (r: Self)
        ensures
            exists|sep: char| silero_expected(r, root@, sep),
    {
        Self::expected_with_separator(root, main_separator())
    }

    /// Where the Silero files are expected under `root`, joined with `sep`.
    pub fn expected_with_separator(root: &str, sep: char) -> (r: Self)
        ensures
            silero_expected(r, root@, sep),
    {
        let e = TtsEngine::SileroEugene;
        SileroRuntime {
            worker_path: engine_file(root, e, "worker", "silero-worker.exe", sep),
            model_path: engine_file(root, e, "models", "v5_5_ru.pt", sep),
        }
    }

    /// The entries that must exist: the worker and the model file.
    pub fn required_entries(&self) -> (v: Vec<RequiredEntry>)
        ensures
            entry_views(v@) == seq![(self.worker_path@, false), (self.model_path@, false)],
            v@.len() == 2,
    {
        let v = vec![
            RequiredEntry { path: self.worker_path.clone(), is_directory: false },
            RequiredEntry { path: self.model_path.clone(), is_directory: false },
        ];
        assert(entry_views(v@) =~= seq![(self.worker_path@, false), (self.model_path@, false)]);
        v
    }
}

/// A path that a runtime needs, and whether it is a directory.
#[derive(Clone, Debug)]
pub struct RequiredEntry {
    pub path: String,
    pub is_directory: bool,
}

pub open spec fn entry_views(v: Seq<RequiredEntry>) -> Seq<(Seq<char>, bool)> {
    v.map_values(|e: RequiredEntry| (e.path@, e.is_directory))
}

/// The entries that a runtime under `root` needs for engine `e`, joined with
/// `sep`.
pub open spec fn required_for(root: Seq<char>, e: TtsEngine, sep: char) -> Seq<(Seq<char>, bool)> {
    match e {
        TtsEngine::PiperDmitriFp32 => seq![
            (under(root, e, "bin"@, "sherpa-onnx-c-api.dll"@, sep), false),
            (under(root, e, "model"@, "ru_RU-dmitri-medium.onnx"@, sep), false),
            (under(root, e, "model"@, "tokens.txt"@, sep), false),
            (under(root, e, "model"@, "espeak-ng-data"@, sep), true),
        ],
        TtsEngine::SileroEugene => seq![
            (under(root, e, "worker"@, "silero-worker.exe"@, sep), false),
            (under(root, e, "models"@, "v5_5_ru.pt"@, sep), false),
        ],
    }
}

/// How many entries engine `e` needs.
pub open spec fn required_count(e: TtsEngine) -> nat {
    match e {
        TtsEngine::PiperDmitriFp32 => 4,
        TtsEngine::SileroEugene => 2,
    }
}

/// The entries that engine `e` needs under `root`, joined with the
/// platform's path separator, in the order that `resolve_tts_runtime`
/// expects their presence flags.
pub fn tts_required_entries(root: &str, e: TtsEngine) -> (v: Vec<RequiredEntry>)
    ensures
        exists|sep: char| entry_views(v@) == required_for(root@, e, sep),
        v@.len() == required_count(e),
{
    tts_required_entries_with_separator(root, e, main_separator())
}

/// The entries that engine `e` needs under `root`, joined with `sep`.
pub fn tts_required_entries_with_separator(root: &str, e: TtsEngine, sep: char) -> (v: Vec<
    RequiredEntry,
>)
    ensures
        entry_views(v@) == required_for(root@, e, sep),
        v@.len() == required_count(e),
{
    match e {
        TtsEngine::PiperDmitriFp32 => PiperRuntime::expected_with_separator(
            root,
            sep,
        ).required_entries(),
        TtsEngine::SileroEugene => SileroRuntime::expected_with_separator(
            root,
            sep,
        ).required_entries(),
    }
}

/// The paths of the entries whose presence flag is false, in order.
pub open spec fn missing_of(entries: Seq<(Seq<char>, bool)>, present: Seq<bool>) -> Seq<Seq<char>>
    decreases entries.len(),
{
    if entries.len() == 0 {
        seq![]
    } else {
        let rest = missing_of(entries.drop_last(), present);
        if present[entries.len() - 1] {
            rest
        } else {
            rest.push(entries.last().0)
        }
    }
}

pub open spec fn string_views(v: Seq<String>) -> Seq<Seq<char>> {
    v.map_values(|s: String| s@)
}

/// The paths of the required entries that are not present.
pub fn missing_paths(entries: &Vec<RequiredEntry>, present: &[bool]) -> (m: Vec<String>)
    requires
        present@.len() == entries@.len(),
    ensures
        string_views(m@) == missing_of(entry_views(entries@), present@),
{
    let mut m: Vec<String> = Vec::new();
    let mut i: usize = 0;
    while i < entries.len()
        invariant
            0 <= i <= entries@.len(),
            present@.len() == entries@.len(),
            string_views(m@) == missing_of(entry_views(entries@.subrange(0, i as int)), present@),
        decreases entries.len() - i,
    {
        let ghost pre = entry_views(entries@.subrange(0, i + 1));
        assert(pre.drop_last() =~= entry_views(entries@.subrange(0, i as int)));
        if !present[i] {
            let ghost before = string_views(m@);
            m.push(entries[i].path.clone());
            assert(string_views(m@) =~= before.push(entries@[i as int].path@));
        }
        i = i + 1;
    }
    assert(entries@.subrange(0, entries@.len() as int) =~= entries@);
    m
}

/// A runtime whose files were all found.
#[derive(Clone, Debug, PartialEq, Eq)]
pub enum TtsRuntime {
    Piper(PiperRuntime),
    Silero(SileroRuntime),
}

/// Why the chosen engine cannot be used.
#[derive(Clone, Debug)]
pub enum TtsRuntimeError {
    /// The runtime of `engine` lacks the listed paths.
    MissingFiles { engine: TtsEngine, missing: Vec<String> },
}

/// The text of a missing-runtime error: the engine's display name, the
/// missing paths as a debug-formatted list, and a hint to install it.
pub open spec fn missing_runtime_message(engine: TtsEngine, missing: Seq<Seq<char>>) -> Seq<char> {
    "TTS-движок «"@ + engine_display_name(engine) + "» не установлен: отсутствуют файлы "@
        + debug_list(missing) + ". Установите его в настройках приложения."@
}

impl TtsRuntimeError {
    /// The user-facing description of the error.
    pub fn message(&self) -> (m: String)
        ensures
            match self {
                TtsRuntimeError::MissingFiles { engine, missing } => m@ == missing_runtime_message(
                    *engine,
                    string_views(missing@),
                ),
            },
    {
        match self {
            TtsRuntimeError::MissingFiles { engine, missing } => {
                let mut m = String::from_str("TTS-движок «");
                m.append(engine.display_name());
                m.append("» не установлен: отсутствуют файлы ");
                let listed = debug_list_text(missing);
                m.append(listed.as_str());
                m.append(". Установите его в настройках приложения.");
                m
            },
        }
    }
}

/// Succeeds when nothing is missing; otherwise names the engine and the
/// missing paths.
pub fn ensure_present(engine: TtsEngine, missing: Vec<String>) -> (r: Result<(), TtsRuntimeError>)
    ensures
        missing@.len() == 0 <==> r is Ok,
        r matches Err(TtsRuntimeError::MissingFiles { engine: e, missing: m }) ==> e == engine
            && m@ == missing@,
{
    if missing.len() == 0 {
        Ok(())
    } else {
        Err(TtsRuntimeError::MissingFiles { engine, missing })
    }
}

/// What checking the files of `engine` under `root`, joined with `sep`,
/// gives for the presence flags `present`: the runtime of exactly that
/// engine when nothing is missing, else the missing paths in order.
pub open spec fn resolved_as(
    r: Result<TtsRuntime, TtsRuntimeError>,
    root: Seq<char>,
    engine: TtsEngine,
    present: Seq<bool>,
    sep: char,
) -> bool {
    &&& (missing_of(required_for(root, engine, sep), present).len() == 0 <==> r is Ok)
    &&& (r matches Ok(TtsRuntime::Piper(p)) ==> engine == TtsEngine::PiperDmitriFp32
        && piper_expected(p, root, sep))
    &&& (r matches Ok(TtsRuntime::Silero(s)) ==> engine == TtsEngine::SileroEugene
        && silero_expected(s, root, sep))
    &&& (r matches Err(TtsRuntimeError::MissingFiles { engine: e, missing: m }) ==> e == engine
        && string_views(m@) == missing_of(required_for(root, engine, sep), present))
}

/// Checks the files of exactly the chosen engine, never substituting
/// another one, with paths joined by the platform's separator.
/// `present[i]` tells whether the `i`-th entry of
/// `tts_required_entries(root, engine)` exists on disk.
pub fn resolve_tts_runtime(root: &str, engine: TtsEngine, present: &[bool]) -> (r: Result<
    TtsRuntime,
    TtsRuntimeError,
>)
    requires
        present@.len() == required_count(engine),
    ensures
        exists|sep: char| resolved_as(r, root@, engine, present@, sep),
{
    resolve_tts_runtime_with_separator(root, engine, present, main_separator())
}

/// Checks the files of exactly the chosen engine under `root`, with paths
/// joined by `sep`.
pub fn resolve_tts_runtime_with_separator(
    root: &str,
    engine: TtsEngine,
    present: &[bool],
    sep: char,
) -> (r: Result<TtsRuntime, TtsRuntimeError>)
    requires
        present@.len() == required_count(engine),
    ensures
        resolved_as(r, root@, engine, present@, sep),
{
    match engine {
        TtsEngine::PiperDmitriFp32 => {
            let runtime = PiperRuntime::expected_with_separator(root, sep);
            let missing = missing_paths(&runtime.required_entries(), present);
            match ensure_present(engine, missing) {
                Ok(()) => Ok(TtsRuntime::Piper(runtime)),
                Err(e) => Err(e),
            }
        },
        TtsEngine::SileroEugene => {
            let runtime = SileroRuntime::expected_with_separator(root, sep);
            let missing = missing_paths(&runtime.required_entries(), present);
            match ensure_present(engine, missing) {
                Ok(()) => Ok(TtsRuntime::Silero(runtime)),
                Err(e) => Err(e),
            }
        },
    }
}

} // verus!
