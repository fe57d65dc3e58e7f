//! Preparing the application's private runtime: which components to
//! install, and reading the installer's output.

use vstd::prelude::*;
use vstd::string::{StrSliceExecFns, StringExecFns};

use crate::text::{
    chars_of, copy_range, find, find_exec, is_blank, parse_unsigned, parse_unsigned_range,
    string_of, trim, trim_range, trimmed,
};
use crate::tts::TtsEngine;

verus! {

/// An installer progress line: `[progress]`, a `u8` percent, `|`, and a
/// message, which is trimmed.
pub open spec fn installer_progress(line: Seq<char>) -> Option<(u8, Seq<char>)> {
    let tag = "[progress]"@;
    if line.len() >= 10 && line.subrange(0, 10) == tag {
        let payload = line.subrange(10, line.len() as int);
        match find(payload, seq!['|']) {
            None => None,
            Some(i) => match parse_unsigned(payload.subrange(0, i), 255) {
                Ok(n) => Some((n as u8, trim(payload.subrange(i + 1, payload.len() as int)))),
                Err(_) => None,
            },
        }
    } else {
        None
    }
}

/// Reads a progress line of the runtime installer.
pub fn parse_progress(line: &str) -> (r: Option<(u8, String)>)
    ensures
        match r {
            Some((p, m)) => installer_progress(line@) == Some((p, m@)),
            None => installer_progress(line@) is None,
        },
{
    let cs = chars_of(line);
    let tag = chars_of("[progress]");
    proof {
        reveal_strlit("[progress]");
    }
    assert(cs@.subrange(0, cs@.len() as int) =~= cs@);
    if cs.len() < 10 {
        return None;
    }
    if !crate::text::matches_at_exec(&cs, &tag, 0, cs.len()) {
        return None;
    }
    assert(cs@.subrange(0, 10) =~= tag@);
    let bar = vec!['|'];
    assert(bar@ =~= seq!['|']);
    match find_exec(&cs, &bar, 10, cs.len()) {
        None => None,
        Some(j) => {
            let ghost payload = cs@.subrange(10, cs@.len() as int);
            proof {
                crate::text::lemma_find_from_bounds(payload, bar@, 0);
            }
            assert(payload.subrange(0, j - 10) =~= cs@.subrange(10, j as int));
            match parse_unsigned_range(&cs, 10, j, 255) {
                Err(_) => None,
                Ok(n) => {
                    let (a, b) = trim_range(&cs, j + 1, cs.len());
                    assert(payload.subrange(j - 10 + 1, payload.len() as int) =~= cs@.subrange(
                        j + 1,
                        cs@.len() as int,
                    ));
                    Some((n as u8, string_of(&copy_range(&cs, a, b))))
                },
            }
        },
    }
}


/// The components a job lacks and the installer must add.
#[derive(Clone, Copy, Debug, PartialEq, Eq, Structural)]
pub struct InstallPlan {
    pub piper: bool,
    pub silero: bool,
    pub whisper: bool,
}

/// Only the chosen engine is installed, and only when its runtime does not
/// resolve; Whisper is installed when the job needs it and its program or
/// model is absent.
pub open spec fn install_plan(
    engine: TtsEngine,
    engine_ready: bool,
    needs_whisper: bool,
    whisper_cli_present: bool,
    whisper_model_present: bool,
) -> InstallPlan {
    InstallPlan {
        piper: engine == TtsEngine::PiperDmitriFp32 && !engine_ready,
        silero: engine == TtsEngine::SileroEugene && !engine_ready,
        whisper: needs_whisper && (!whisper_cli_present || !whisper_model_present),
    }
}

/// Decides which components to install for a job.
pub fn plan_installation(
    engine: TtsEngine,
    engine_ready: bool,
    needs_whisper: bool,
    whisper_cli_present: bool,
    whisper_model_present: bool,
) -> (p: InstallPlan)
    ensures
        p == install_plan(
            engine,
            engine_ready,
            needs_whisper,
            whisper_cli_present,
            whisper_model_present,
        ),
{
    InstallPlan {
        piper: engine == TtsEngine::PiperDmitriFp32 && !engine_ready,
        silero: engine == TtsEngine::SileroEugene && !engine_ready,
        whisper: needs_whisper && (!whisper_cli_present || !whisper_model_present),
    }
}

impl InstallPlan {
    /// Whether nothing needs installing.
    pub fn is_complete(&self) -> (b: bool)
        ensures
            b == (!self.piper && !self.silero && !self.whisper),
    {
        !self.piper && !self.silero && !self.whisper
    }

    /// The installer switches, in the order Piper, Whisper, Silero.
    pub fn switches(&self) -> (v: Vec<String>)
        ensures
            v@.map_values(|x: String| x@) == (if self.piper {
                seq!["-InstallPiper"@]
            } else {
                seq![]
            }) + (if self.whisper {
                seq!["-InstallWhisper"@]
            } else {
                seq![]
            }) + (if self.silero {
                seq!["-InstallSilero"@]
            } else {
                seq![]
            }),
    {
        let mut v: Vec<String> = Vec::new();
        if self.piper {
            v.push(String::from_str("-InstallPiper"));
        }
        let ghost a = v@.map_values(|x: String| x@);
        if self.whisper {
            v.push(String::from_str("-InstallWhisper"));
            assert(v@.map_values(|x: String| x@) =~= a.push("-InstallWhisper"@));
        }
        let ghost b = v@.map_values(|x: String| x@);
        if self.silero {
            v.push(String::from_str("-InstallSilero"));
            assert(v@.map_values(|x: String| x@) =~= b.push("-InstallSilero"@));
        }
        assert(v@.map_values(|x: String| x@) =~= (if self.piper {
            seq!["-InstallPiper"@]
        } else {
            seq![]
        }) + (if self.whisper {
            seq!["-InstallWhisper"@]
        } else {
            seq![]
        }) + (if self.silero {
            seq!["-InstallSilero"@]
        } else {
            seq![]
        }));
        v
    }
}

/// A line of installer output.
#[derive(Clone, Debug)]
pub enum InstallerLine {
    /// A progress report, already mapped into the job's runtime stage.
    Progress { percent: u8, message: String },
    /// Other text, kept for the error report.
    Output(String),
    /// A blank line.
    Blank,
}

/// Sorts a line of installer output. Progress reports take the first tenth
/// of the stage after its first percent: `1 + percent / 10`.
pub fn installer_line(line: &str) -> (l: InstallerLine)
    ensures
        match l {
            InstallerLine::Progress { percent, message } => installer_progress(line@) matches Some(
                (p, m),
            ) && percent == 1 + p / 10 && message@ == m,
            InstallerLine::Output(text) => installer_progress(line@) is None && !is_blank(line@)
                && text@ == line@,
            InstallerLine::Blank => installer_progress(line@) is None && is_blank(line@),
        },
{
    match parse_progress(line) {
        Some((p, message)) => InstallerLine::Progress { percent: 1 + p / 10, message },
        None => {
            let t = trimmed(line);
            if t.as_str().unicode_len() == 0 {
                InstallerLine::Blank
            } else {
                InstallerLine::Output(String::from_str(line))
            }
        },
    }
}

/// The parts joined with `sep` between them.
pub open spec fn joined(parts: Seq<Seq<char>>, sep: Seq<char>) -> Seq<char>
    decreases parts.len(),
{
    if parts.len() == 0 {
        seq![]
    } else if parts.len() == 1 {
        parts[0]
    } else {
        joined(parts.drop_last(), sep) + sep + parts.last()
    }
}

fn join_lines(parts: &Vec<String>) -> (s: String)
    ensures
        s@ == joined(parts@.map_values(|x: String| x@), seq!['\n']),
{
    let ghost pv = parts@.map_values(|x: String| x@);
    let mut s = String::new();
    let mut i: usize = 0;
    while i < parts.len()
        invariant
            0 <= i <= parts@.len(),
            pv == parts@.map_values(|x: String| x@),
            s@ == joined(pv.subrange(0, i as int), seq!['\n']),
        decreases parts.len() - i,
    {
        assert(pv.subrange(0, i + 1).drop_last() =~= pv.subrange(0, i as int));
        if i > 0 {
            s.append("\n");
            proof {
                reveal_strlit("\n");
            }
        }
        s.append(parts[i].as_str());
        i = i + 1;
    }
    assert(pv.subrange(0, parts@.len() as int) =~= pv);
    s
}

/// The report of a failed installation: the collected output lines joined
/// by newlines, then the trimmed error output, skipping whichever is empty;
/// the exit status when both are.
pub open spec fn installer_failure(output: Seq<Seq<char>>, stderr: Seq<char>, status: Seq<char>) -> Seq<
    char,
> {
    let a = joined(output, seq!['\n']);
    let b = trim(stderr);
    let details = if a.len() == 0 {
        b
    } else if b.len() == 0 {
        a
    } else {
        a + seq!['\n'] + b
    };
    "Установка компонентов завершилась с ошибкой: "@ + if details.len() == 0 {
        status
    } else {
        details
    }
}

/// Builds the message for a failed installation.
pub fn installer_failure_message(output: &Vec<String>, stderr: &str, status: &str) -> (m: String)
    ensures
        m@ == installer_failure(output@.map_values(|x: String| x@), stderr@, status@),
{
    let a = join_lines(output);
    let b = trimmed(stderr);
    let la = a.as_str().unicode_len();
    let lb = b.as_str().unicode_len();
    let mut m = String::from_str("Установка компонентов завершилась с ошибкой: ");
    if la == 0 && lb == 0 {
        m.append(status);
    } else if la == 0 {
        m.append(b.as_str());
    } else if lb == 0 {
        m.append(a.as_str());
    } else {
        m.append(a.as_str());
        m.append("\n");
        proof {
            reveal_strlit("\n");
        }
        m.append(b.as_str());
    }
    m
}

} // verus!
