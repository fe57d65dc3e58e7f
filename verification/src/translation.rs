//! Retry and fallback policy for translating a batch of cues.
//!
//! A batch is first translated as a whole, up to `max_attempts` times. When
//! every attempt fails, a one-cue batch counts as skipped; a longer batch is
//! retried cue by cue, each cue up to `max_attempts` times, and only the cues
//! that fail every attempt are skipped.

use vstd::prelude::*;
use vstd::slice::slice_subrange;

use crate::subtitles::{SegmentView, SubtitleSegment};

verus! {

/// The views of a list of cues.
pub open spec fn seg_views(s: Seq<SubtitleSegment>) -> Seq<SegmentView> {
    s.map_values(|x: SubtitleSegment| x@)
}

/// One call of the translator: the cues `lo..hi` of the batch were handed
/// to it, it returned `output` (`None` for an error), and the driver paused
/// afterwards when `paused` holds.
pub struct TranslateCall {
    pub lo: nat,
    pub hi: nat,
    pub output: Option<Seq<SegmentView>>,
    pub paused: bool,
}

/// Where the fallback policy stands.
pub enum FallbackStage {
    /// Translating the whole batch; `attempt` calls have failed so far.
    Whole { attempt: nat },
    /// Translating cue `index` alone; `attempt` calls for it have failed.
    Item { index: nat, attempt: nat },
    /// Nothing is left to translate.
    Finished,
}

/// The policy's state: its stage, the translated cues so far and the number
/// of skipped cues.
pub struct FallbackState {
    pub stage: FallbackStage,
    pub translated: Seq<SegmentView>,
    pub skipped: nat,
}

/// The number of attempts made per request: at least one.
pub open spec fn attempt_limit(max_attempts: nat) -> nat {
    if max_attempts == 0 {
        1
    } else {
        max_attempts
    }
}

pub open spec fn initial_state() -> FallbackState {
    FallbackState { stage: FallbackStage::Whole { attempt: 0 }, translated: seq![], skipped: 0 }
}

/// The stage that works on cue `index` of an `n`-cue batch, if any is left.
pub open spec fn item_stage(index: nat, n: nat) -> FallbackStage {
    if index < n {
        FallbackStage::Item { index, attempt: 0 }
    } else {
        FallbackStage::Finished
    }
}

/// The cues that the policy hands to the translator next.
pub open spec fn next_request(st: FallbackState, n: nat) -> Option<(nat, nat)> {
    match st.stage {
        FallbackStage::Whole { .. } => Some((0, n)),
        FallbackStage::Item { index, .. } => Some((index, index + 1)),
        FallbackStage::Finished => None,
    }
}

/// The attempt count of the current request.
pub open spec fn stage_attempt(stage: FallbackStage) -> nat {
    match stage {
        FallbackStage::Whole { attempt } => attempt,
        FallbackStage::Item { attempt, .. } => attempt,
        FallbackStage::Finished => 0,
    }
}

/// A failed call is followed by a pause exactly when the same request will
/// be tried again.
pub open spec fn pauses_after(st: FallbackState, m: nat, output: Option<Seq<SegmentView>>) -> bool {
    output is None && stage_attempt(st.stage) + 1 < m
}

/// The state after a call of the current request returned `output`.
pub open spec fn advance(st: FallbackState, n: nat, m: nat, output: Option<Seq<SegmentView>>) -> FallbackState {
    match st.stage {
        FallbackStage::Whole { attempt } => match output {
            Some(out) => FallbackState { stage: FallbackStage::Finished, translated: out, skipped: 0 },
            None => if attempt + 1 < m {
                FallbackState { stage: FallbackStage::Whole { attempt: attempt + 1 }, ..st }
            } else if n == 1 {
                FallbackState { stage: FallbackStage::Finished, translated: seq![], skipped: 1 }
            } else {
                FallbackState { stage: item_stage(0, n), translated: seq![], skipped: 0 }
            },
        },
        FallbackStage::Item { index, attempt } => match output {
            Some(out) => FallbackState {
                stage: item_stage(index + 1, n),
                translated: st.translated + out,
                skipped: st.skipped,
            },
            None => if attempt + 1 < m {
                FallbackState { stage: FallbackStage::Item { index, attempt: attempt + 1 }, ..st }
            } else {
                FallbackState {
                    stage: item_stage(index + 1, n),
                    translated: st.translated,
                    skipped: st.skipped + 1,
                }
            },
        },
        FallbackStage::Finished => st,
    }
}

/// The state after `call`, when it is the call the policy asks for.
pub open spec fn step(n: nat, m: nat, st: FallbackState, call: TranslateCall) -> Option<FallbackState> {
    if next_request(st, n) == Some((call.lo, call.hi)) && call.paused == pauses_after(
        st,
        m,
        call.output,
    ) {
        Some(advance(st, n, m, call.output))
    } else {
        None
    }
}

/// Replays a sequence of calls on an `n`-cue batch with `m` attempts per
/// request; `None` when some call is not the one the policy asks for.
pub open spec fn replay(n: nat, m: nat, calls: Seq<TranslateCall>) -> Option<FallbackState>
    decreases calls.len(),
{
    if calls.len() == 0 {
        Some(initial_state())
    } else {
        match replay(n, m, calls.drop_last()) {
            Some(st) => step(n, m, st, calls.last()),
            None => None,
        }
    }
}

/// The translated cues of a batch and how many cues were given up.
pub struct TranslationBatchResult {
    pub segments: Vec<SubtitleSegment>,
    pub skipped_count: usize,
    /// The calls made, in order.
    pub calls: Ghost<Seq<TranslateCall>>,
}

/// Whatever the translator returns, a replayed run never skips more cues
/// than the batch holds, and while the whole batch is being tried nothing
/// is skipped or translated yet.
pub proof fn lemma_replay_skips_at_most_batch(n: nat, m: nat, calls: Seq<TranslateCall>)
    requires
        replay(n, m, calls) is Some,
    ensures
        replay(n, m, calls)->Some_0.skipped <= n,
        replay(n, m, calls)->Some_0.stage matches FallbackStage::Whole { .. } ==> replay(
            n,
            m,
            calls,
        )->Some_0.skipped == 0 && replay(n, m, calls)->Some_0.translated.len() == 0,
        replay(n, m, calls)->Some_0.stage matches FallbackStage::Item { index, .. } ==> index < n
            && replay(n, m, calls)->Some_0.skipped <= index,
    decreases calls.len(),
{
    if calls.len() > 0 {
        lemma_replay_skips_at_most_batch(n, m, calls.drop_last());
    }
}

proof fn lemma_replay_push(n: nat, m: nat, calls: Seq<TranslateCall>, call: TranslateCall)
    ensures
        replay(n, m, calls.push(call)) == match replay(n, m, calls) {
            Some(st) => step(n, m, st, call),
            None => None,
        },
{
    assert(calls.push(call).drop_last() =~= calls);
}

/// What a translator call returned, as plain values: the cues, or `None`
/// for an error.
pub open spec fn output_of(o: Result<Vec<SubtitleSegment>, String>) -> Option<Seq<SegmentView>> {
    match o {
        Ok(v) => Some(seg_views(v@)),
        Err(_) => None,
    }
}

/// A logged call was a real call of `f`: it was handed the cues
/// `lo..hi` of `batch` and returned what the log records.
pub open spec fn answered<F: Fn(&[SubtitleSegment]) -> Result<Vec<SubtitleSegment>, String>>(
    f: F,
    batch: Seq<SubtitleSegment>,
    c: TranslateCall,
) -> bool {
    exists|s: &[SubtitleSegment], o: Result<Vec<SubtitleSegment>, String>|
        #![trigger call_ensures(f, (s,), o)]
        s@ == batch.subrange(c.lo as int, c.hi as int) && call_ensures(f, (s,), o) && c.output
            == output_of(o)
}

/// Every logged call was a real call of `f` on its cues.
pub open spec fn all_answered<F: Fn(&[SubtitleSegment]) -> Result<Vec<SubtitleSegment>, String>>(
    f: F,
    batch: Seq<SubtitleSegment>,
    calls: Seq<TranslateCall>,
) -> bool {
    forall|k: int| 0 <= k < calls.len() ==> answered(f, batch, #[trigger] calls[k])
}

/// Every logged pause was a real call of `pause`.
pub open spec fn pauses_done<P: Fn()>(pause: P, calls: Seq<TranslateCall>) -> bool {
    forall|k: int| 0 <= k < calls.len() && (#[trigger] calls[k]).paused ==> call_ensures(pause, (), ())
}

/// Translates `batch` with `translate`, retrying and falling back to single
/// cues as the policy above says; `pause` runs between two attempts of the
/// same request. Each logged call is a call of `translate` on the cues it
/// names, with the result it returned; the calls follow the policy, and
/// the result is what the policy ends with.
pub fn translate_with_fallback<F, P>(
    batch: &[SubtitleSegment],
    max_attempts: usize,
    pause: P,
    translate: F,
) -> (result: TranslationBatchResult) where
    F: Fn(&[SubtitleSegment]) -> Result<Vec<SubtitleSegment>, String>,
    P: Fn(),

    requires
        forall|s: &[SubtitleSegment]| call_requires(translate, (s,)),
        call_requires(pause, ()),
    ensures
        replay(batch@.len(), attempt_limit(max_attempts as nat), result.calls@) == Some(
            FallbackState {
                stage: FallbackStage::Finished,
                translated: seg_views(result.segments@),
                skipped: result.skipped_count as nat,
            },
        ),
        all_answered(translate, batch@, result.calls@),
        pauses_done(pause, result.calls@),
{
    run_fallback(batch, max_attempts, &pause, &translate)
}

fn run_fallback<F, P>(
    batch: &[SubtitleSegment],
    max_attempts: usize,
    pause: &P,
    translate: &F,
) -> (result: TranslationBatchResult) where
    F: Fn(&[SubtitleSegment]) -> Result<Vec<SubtitleSegment>, String>,
    P: Fn(),

    requires
        forall|s: &[SubtitleSegment]| call_requires(*translate, (s,)),
        call_requires(*pause, ()),
    ensures
        replay(batch@.len(), attempt_limit(max_attempts as nat), result.calls@) == Some(
            FallbackState {
                stage: FallbackStage::Finished,
                translated: seg_views(result.segments@),
                skipped: result.skipped_count as nat,
            },
        ),
        all_answered(*translate, batch@, result.calls@),
        pauses_done(*pause, result.calls@),
{
    let n = batch.len();
    let m: usize = if max_attempts == 0 {
        1
    } else {
        max_attempts
    };
    let ghost gn = n as nat;
    let ghost gm = m as nat;
    let mut whole = true;
    let mut finished = false;
    let mut index: usize = 0;
    let mut attempt: usize = 0;
    let mut translated: Vec<SubtitleSegment> = Vec::new();
    let mut skipped: usize = 0;
    let ghost mut calls: Seq<TranslateCall> = seq![];
    assert(seg_views(translated@) =~= Seq::<SegmentView>::empty());
    while !finished
        invariant
            gn == batch@.len(),
            gm == attempt_limit(max_attempts as nat),
            m >= 1,
            m as nat == gm,
            n == batch@.len(),
            index <= n,
            attempt < m,
            skipped <= index,
            whole ==> index == 0 && skipped == 0 && translated@.len() == 0,
            !finished && !whole ==> index < n,
            forall|s: &[SubtitleSegment]| call_requires(*translate, (s,)),
            call_requires(*pause, ()),
            all_answered(*translate, batch@, calls),
            pauses_done(*pause, calls),
            replay(gn, gm, calls) == Some(
                FallbackState {
                    stage: if finished {
                        FallbackStage::Finished
                    } else if whole {
                        FallbackStage::Whole { attempt: attempt as nat }
                    } else {
                        FallbackStage::Item { index: index as nat, attempt: attempt as nat }
                    },
                    translated: seg_views(translated@),
                    skipped: skipped as nat,
                },
            ),
        decreases (if finished {
            0int
        } else if whole {
            2int
        } else {
            1int
        }), n - index, m - attempt,
    {
        let ghost st = replay(gn, gm, calls)->Some_0;
        let lo: usize = if whole {
            0
        } else {
            index
        };
        let hi: usize = if whole {
            n
        } else {
            index + 1
        };
        let handed = slice_subrange(batch, lo, hi);
        let outcome = translate(handed);
        let again = match &outcome {
            Ok(_) => false,
            Err(_) => attempt + 1 < m,
        };
        let ghost output: Option<Seq<SegmentView>> = match outcome {
            Ok(ref v) => Some(seg_views(v@)),
            Err(_) => None,
        };
        let ghost call = TranslateCall { lo: lo as nat, hi: hi as nat, output, paused: again };
        let ghost logged = calls;
        proof {
            lemma_replay_push(gn, gm, calls, call);
            assert(answered(*translate, batch@, call));
            let old_calls = calls;
            calls = calls.push(call);
            assert forall|k: int| 0 <= k < calls.len() implies answered(
                *translate,
                batch@,
                #[trigger] calls[k],
            ) by {
                if k < old_calls.len() {
                    assert(calls[k] == old_calls[k]);
                }
            }
            assert(next_request(st, gn) == Some((lo as nat, hi as nat)));
            assert(again == pauses_after(st, gm, output));
            assert(replay(gn, gm, calls) == Some(advance(st, gn, gm, output)));
        }
        match outcome {
            Ok(mut out) => {
                if whole {
                    translated = out;
                    whole = false;
                    finished = true;
                } else {
                    let ghost before = seg_views(translated@);
                    let ghost added = seg_views(out@);
                    translated.append(&mut out);
                    assert(seg_views(translated@) =~= before + added);
                    index = index + 1;
                    attempt = 0;
                    if index == n {
                        finished = true;
                    }
                }
            },
            Err(_) => {
                if again {
                    pause();
                    attempt = attempt + 1;
                } else if whole {
                    whole = false;
                    attempt = 0;
                    if n == 1 {
                        skipped = 1;
                        index = 1;
                        finished = true;
                    } else if n == 0 {
                        finished = true;
                    }
                } else {
                    skipped = skipped + 1;
                    index = index + 1;
                    attempt = 0;
                    if index == n {
                        finished = true;
                    }
                }
            },
        }
        assert forall|k: int| 0 <= k < calls.len() && (#[trigger] calls[k]).paused implies call_ensures(
            *pause,
            (),
            (),
        ) by {
            if k < logged.len() {
                assert(calls[k] == logged[k]);
            }
        }
        assert(advance(st, gn, gm, output).skipped == skipped as nat);
        assert(advance(st, gn, gm, output).translated =~= seg_views(translated@));
        assert(advance(st, gn, gm, output).stage == (if finished {
                        FallbackStage::Finished
                    } else if whole {
                        FallbackStage::Whole { attempt: attempt as nat }
                    } else {
                        FallbackStage::Item { index: index as nat, attempt: attempt as nat }
                    }));
    }
    TranslationBatchResult { segments: translated, skipped_count: skipped, calls: Ghost(calls) }
}

/// Cues are translated in batches of this many.
pub const TRANSLATION_BATCH: usize = 24;

/// One batch of a batched translation: the cues `lo..hi`, the translator
/// calls made for it, and what the fallback policy ended with.
pub struct BatchRun {
    pub lo: nat,
    pub hi: nat,
    pub calls: Seq<TranslateCall>,
    pub translated: Seq<SegmentView>,
    pub skipped: nat,
}

/// The translated cues of all batches, in order.
pub open spec fn all_translated(runs: Seq<BatchRun>) -> Seq<SegmentView>
    decreases runs.len(),
{
    if runs.len() == 0 {
        seq![]
    } else {
        all_translated(runs.drop_last()) + runs.last().translated
    }
}

/// The number of skipped cues over all batches.
pub open spec fn all_skipped(runs: Seq<BatchRun>) -> nat
    decreases runs.len(),
{
    if runs.len() == 0 {
        0
    } else {
        all_skipped(runs.drop_last()) + runs.last().skipped
    }
}

/// Batch `k` of `n` cues covers `k * size .. min((k + 1) * size, n)`, and
/// the policy ran on it to the end with `m` attempts per request.
pub open spec fn batch_ok(run: BatchRun, k: int, n: nat, size: nat, m: nat) -> bool {
    &&& run.lo == k * size
    &&& run.hi == if (k + 1) * size < n {
        ((k + 1) * size) as nat
    } else {
        n
    }
    &&& replay((run.hi - run.lo) as nat, m, run.calls) == Some(
        FallbackState { stage: FallbackStage::Finished, translated: run.translated, skipped: run.skipped },
    )
}

/// The cues translated batch by batch, how many were given up, and the
/// batches as they ran.
pub struct BatchedTranslation {
    pub segments: Vec<SubtitleSegment>,
    pub skipped_count: usize,
    pub runs: Ghost<Seq<BatchRun>>,
    /// The arguments handed to the progress callback, call by call.
    pub reports: Ghost<Seq<(usize, usize, usize, usize)>>,
}

/// What is reported after batch `k` (counted from zero): the batches done,
/// the number of batches, and the translated and skipped cues so far.
pub open spec fn report_after(
    r: (usize, usize, usize, usize),
    runs: Seq<BatchRun>,
    k: int,
    batches: nat,
) -> bool {
    &&& r.0 == k + 1
    &&& r.1 == batches
    &&& r.2 == all_translated(runs.take(k + 1)).len()
    &&& r.3 == all_skipped(runs.take(k + 1))
}

/// Every call of a batch's run was a real call of `f` on that batch.
pub open spec fn run_answered<F: Fn(&[SubtitleSegment]) -> Result<Vec<SubtitleSegment>, String>>(
    f: F,
    segments: Seq<SubtitleSegment>,
    run: BatchRun,
) -> bool {
    all_answered(f, segments.subrange(run.lo as int, run.hi as int), run.calls)
}

/// Translates the cues in batches of `TRANSLATION_BATCH`, each with the
/// retry and fallback policy and three attempts per request. After each
/// batch `report` is called once with the number of finished batches, the
/// number of batches, and the counts of translated and skipped cues so far.
pub fn translate_in_batches<F, P, R>(
    segments: &[SubtitleSegment],
    pause: P,
    translate: F,
    report: R,
) -> (result: BatchedTranslation) where
    F: Fn(&[SubtitleSegment]) -> Result<Vec<SubtitleSegment>, String>,
    P: Fn(),
    R: Fn(usize, usize, usize, usize),

    requires
        forall|s: &[SubtitleSegment]| call_requires(translate, (s,)),
        call_requires(pause, ()),
        forall|a: usize, b: usize, c: usize, d: usize| call_requires(report, (a, b, c, d)),
    ensures
        result.runs@.len() == (segments@.len() + TRANSLATION_BATCH - 1) / (TRANSLATION_BATCH as int),
        forall|k: int|
            0 <= k < result.runs@.len() ==> batch_ok(
                #[trigger] result.runs@[k],
                k,
                segments@.len(),
                TRANSLATION_BATCH as nat,
                3,
            ),
        seg_views(result.segments@) == all_translated(result.runs@),
        result.skipped_count == all_skipped(result.runs@),
        forall|k: int|
            0 <= k < result.runs@.len() ==> run_answered(
                translate,
                segments@,
                #[trigger] result.runs@[k],
            ) && pauses_done(pause, result.runs@[k].calls),
        result.reports@.len() == result.runs@.len(),
        forall|k: int|
            0 <= k < result.reports@.len() ==> report_after(
                #[trigger] result.reports@[k],
                result.runs@,
                k,
                result.runs@.len(),
            ) && call_ensures(report, result.reports@[k], ()),
{
    let n = segments.len();
    let batches = n / TRANSLATION_BATCH + if n % TRANSLATION_BATCH == 0 {
        0
    } else {
        1
    };
    assert(batches == (n + TRANSLATION_BATCH - 1) / (TRANSLATION_BATCH as int));
    let mut translated: Vec<SubtitleSegment> = Vec::new();
    let mut skipped: usize = 0;
    let ghost mut runs: Seq<BatchRun> = seq![];
    let ghost mut reports: Seq<(usize, usize, usize, usize)> = seq![];
    let mut k: usize = 0;
    assert(seg_views(translated@) =~= all_translated(runs));
    while k < batches
        invariant
            n == segments@.len(),
            batches == (n + TRANSLATION_BATCH - 1) / (TRANSLATION_BATCH as int),
            0 <= k <= batches,
            runs.len() == k,
            forall|j: int| 0 <= j < k ==> batch_ok(#[trigger] runs[j], j, n as nat, 24, 3),
            seg_views(translated@) == all_translated(runs),
            skipped == all_skipped(runs),
            skipped <= k * 24,
            forall|j: int|
                0 <= j < k ==> run_answered(translate, segments@, #[trigger] runs[j]) && pauses_done(
                    pause,
                    runs[j].calls,
                ),
            reports.len() == k,
            forall|j: int|
                0 <= j < k ==> report_after(#[trigger] reports[j], runs, j, batches as nat)
                    && call_ensures(report, reports[j], ()),
            forall|s: &[SubtitleSegment]| call_requires(translate, (s,)),
            call_requires(pause, ()),
            forall|a: usize, b: usize, c: usize, d: usize| call_requires(report, (a, b, c, d)),
        decreases batches - k,
    {
        assert(k * 24 < n) by (nonlinear_arith)
            requires
                k < batches,
                batches == (n + 24 - 1) / 24,
        ;
        let lo = k * TRANSLATION_BATCH;
        let hi = if n - lo > TRANSLATION_BATCH {
            lo + TRANSLATION_BATCH
        } else {
            n
        };
        let batch = slice_subrange(segments, lo, hi);
        let outcome = run_fallback(batch, 3, &pause, &translate);
        proof {
            lemma_replay_skips_at_most_batch((hi - lo) as nat, 3, outcome.calls@);
        }
        let ghost run = BatchRun {
            lo: lo as nat,
            hi: hi as nat,
            calls: outcome.calls@,
            translated: seg_views(outcome.segments@),
            skipped: outcome.skipped_count as nat,
        };
        let ghost before = seg_views(translated@);
        let ghost old_runs = runs;
        let mut part = outcome.segments;
        translated.append(&mut part);
        skipped = skipped + outcome.skipped_count;
        proof {
            assert(runs.push(run).drop_last() =~= runs);
            assert(seg_views(translated@) =~= before + run.translated);
            assert(segments@.subrange(lo as int, hi as int) == batch@);
            assert(run_answered(translate, segments@, run));
            runs = runs.push(run);
            assert forall|j: int| 0 <= j < k + 1 implies run_answered(
                translate,
                segments@,
                #[trigger] runs[j],
            ) && pauses_done(pause, runs[j].calls) by {
                if j < k {
                    assert(runs[j] == old_runs[j]);
                }
            }
        }
        let done = k + 1;
        let count = translated.len();
        report(done, batches, count, skipped);
        proof {
            let old_reports = reports;
            reports = reports.push((done, batches, count, skipped));
            assert(count == all_translated(runs).len());
            assert forall|j: int| 0 <= j < k + 1 implies report_after(
                #[trigger] reports[j],
                runs,
                j,
                batches as nat,
            ) && call_ensures(report, reports[j], ()) by {
                if j < k {
                    assert(runs.take(j + 1) =~= old_runs.take(j + 1));
                    assert(reports[j] == old_reports[j]);
                } else {
                    assert(runs.take(k + 1) =~= runs);
                }
            }
        }
        k = k + 1;
    }
    BatchedTranslation {
        segments: translated,
        skipped_count: skipped,
        runs: Ghost(runs),
        reports: Ghost(reports),
    }
}


/// A translator that hands every request back unchanged.
pub open spec fn returns_input<F: Fn(&[SubtitleSegment]) -> Result<Vec<SubtitleSegment>, String>>(
    f: F,
) -> bool {
    forall|s: &[SubtitleSegment], o: Result<Vec<SubtitleSegment>, String>|
        #[trigger] call_ensures(f, (s,), o) ==> o is Ok && o->Ok_0@ == s@
}

/// With a translator that returns its input, the policy makes one call, on
/// the whole batch, and ends with the batch itself.
proof fn lemma_echo_run<F: Fn(&[SubtitleSegment]) -> Result<Vec<SubtitleSegment>, String>>(
    f: F,
    batch: Seq<SubtitleSegment>,
    m: nat,
    calls: Seq<TranslateCall>,
)
    requires
        returns_input(f),
        all_answered(f, batch, calls),
        replay(batch.len(), m, calls) is Some,
    ensures
        calls.len() == 0 ==> replay(batch.len(), m, calls) == Some(initial_state()),
        calls.len() > 0 ==> calls.len() == 1 && replay(batch.len(), m, calls) == Some(
            FallbackState {
                stage: FallbackStage::Finished,
                translated: seg_views(batch),
                skipped: 0,
            },
        ),
    decreases calls.len(),
{
    if calls.len() > 0 {
        let prev = calls.drop_last();
        assert forall|k: int| 0 <= k < prev.len() implies answered(f, batch, #[trigger] prev[k]) by {
            assert(prev[k] == calls[k]);
        }
        lemma_echo_run(f, batch, m, prev);
        let c = calls.last();
        assert(answered(f, batch, calls[calls.len() - 1]));
        let (s, o) = choose|s: &[SubtitleSegment], o: Result<Vec<SubtitleSegment>, String>|
            s@ == batch.subrange(c.lo as int, c.hi as int) && call_ensures(f, (s,), o)
                && c.output == output_of(o);
        assert(o is Ok && o->Ok_0@ == s@);
        if prev.len() == 0 {
            assert(batch.subrange(0, batch.len() as int) =~= batch);
        }
    }
}

/// One batch run with a translator that returns its input: the batch's
/// cues come back unchanged and none is skipped.
proof fn lemma_echo_batch<F: Fn(&[SubtitleSegment]) -> Result<Vec<SubtitleSegment>, String>>(
    f: F,
    segments: Seq<SubtitleSegment>,
    run: BatchRun,
    k: int,
)
    requires
        returns_input(f),
        0 <= k,
        k * 24 < segments.len(),
        batch_ok(run, k, segments.len(), 24, 3),
        run_answered(f, segments, run),
    ensures
        run.lo <= run.hi <= segments.len(),
        run.translated == seg_views(segments.subrange(run.lo as int, run.hi as int)),
        run.skipped == 0,
{
    let batch = segments.subrange(run.lo as int, run.hi as int);
    assert(batch.len() == run.hi - run.lo);
    lemma_echo_run(f, batch, 3, run.calls);
}

proof fn lemma_echo_prefix<F: Fn(&[SubtitleSegment]) -> Result<Vec<SubtitleSegment>, String>>(
    f: F,
    segments: Seq<SubtitleSegment>,
    runs: Seq<BatchRun>,
    k: int,
)
    requires
        returns_input(f),
        0 <= k <= runs.len(),
        runs.len() == (segments.len() + 24 - 1) / 24,
        forall|j: int| 0 <= j < runs.len() ==> batch_ok(#[trigger] runs[j], j, segments.len(), 24, 3),
        forall|j: int| 0 <= j < runs.len() ==> run_answered(f, segments, #[trigger] runs[j]),
    ensures
        all_translated(runs.take(k)) == seg_views(
            segments.subrange(0, if k == 0 { 0 } else { runs[k - 1].hi as int }),
        ),
        all_skipped(runs.take(k)) == 0,
        k > 0 ==> runs[k - 1].hi == if k * 24 < segments.len() { k * 24 } else { segments.len() as int },
    decreases k,
{
    let n = segments.len();
    if k > 0 {
        lemma_echo_prefix(f, segments, runs, k - 1);
        let j = k - 1;
        assert(j * 24 < n) by (nonlinear_arith)
            requires
                0 <= j < runs.len(),
                runs.len() == (n + 24 - 1) / 24,
        ;
        assert(batch_ok(runs[j], j, n, 24, 3));
        assert(run_answered(f, segments, runs[j]));
        lemma_echo_batch(f, segments, runs[j], j);
        assert(runs.take(k).drop_last() =~= runs.take(j));
        assert(runs.take(k).last() == runs[j]);
        let before = if j == 0 { 0 } else { runs[j - 1].hi as int };
        assert(before == runs[j].lo);
        assert(seg_views(segments.subrange(0, before)) + seg_views(
            segments.subrange(runs[j].lo as int, runs[j].hi as int),
        ) =~= seg_views(segments.subrange(0, runs[j].hi as int)));
    }
}

/// The batches are translated in order and put together in order: with a
/// translator that returns its input, the batched translation gives back
/// every cue in its source order and skips none.
pub proof fn lemma_batches_keep_source_order<
    F: Fn(&[SubtitleSegment]) -> Result<Vec<SubtitleSegment>, String>,
>(segments: Seq<SubtitleSegment>, translate: F, result: BatchedTranslation)
    requires
        returns_input(translate),
        result.runs@.len() == (segments.len() + TRANSLATION_BATCH - 1) / (TRANSLATION_BATCH as int),
        forall|k: int|
            0 <= k < result.runs@.len() ==> batch_ok(
                #[trigger] result.runs@[k],
                k,
                segments.len(),
                TRANSLATION_BATCH as nat,
                3,
            ),
        seg_views(result.segments@) == all_translated(result.runs@),
        result.skipped_count == all_skipped(result.runs@),
        forall|k: int|
            0 <= k < result.runs@.len() ==> run_answered(
                translate,
                segments,
                #[trigger] result.runs@[k],
            ),
    ensures
        seg_views(result.segments@) == seg_views(segments),
        result.skipped_count == 0,
{
    let runs = result.runs@;
    let n = segments.len();
    let r = runs.len() as int;
    lemma_echo_prefix(translate, segments, runs, r);
    assert(runs.take(r) =~= runs);
    if r == 0 {
        assert(n == 0) by (nonlinear_arith)
            requires
                r == (n + 24 - 1) / 24,
                r == 0,
        ;
    } else {
        assert(r * 24 >= n) by (nonlinear_arith)
            requires
                r == (n + 24 - 1) / 24,
        ;
    }
    assert(segments.subrange(0, n as int) =~= segments);
}


/// A translator that fails on every request of other than one cue and hands
/// a one-cue request back unchanged.
pub open spec fn echoes_single_cues<F: Fn(&[SubtitleSegment]) -> Result<Vec<SubtitleSegment>, String>>(
    f: F,
) -> bool {
    forall|s: &[SubtitleSegment], o: Result<Vec<SubtitleSegment>, String>|
        #[trigger] call_ensures(f, (s,), o) ==> if s@.len() == 1 {
            o is Ok && o->Ok_0@ == s@
        } else {
            o is Err
        }
}

/// A translator that fails on every request.
pub open spec fn always_fails<F: Fn(&[SubtitleSegment]) -> Result<Vec<SubtitleSegment>, String>>(
    f: F,
) -> bool {
    forall|s: &[SubtitleSegment], o: Result<Vec<SubtitleSegment>, String>|
        #[trigger] call_ensures(f, (s,), o) ==> o is Err
}

/// What a logged call returned, given that it was a real call on its cues.
proof fn lemma_answered_output<F: Fn(&[SubtitleSegment]) -> Result<Vec<SubtitleSegment>, String>>(
    f: F,
    batch: Seq<SubtitleSegment>,
    c: TranslateCall,
)
    requires
        answered(f, batch, c),
        c.lo <= c.hi <= batch.len(),
    ensures
        echoes_single_cues(f) ==> if c.hi - c.lo == 1 {
            c.output == Some(seg_views(batch.subrange(c.lo as int, c.hi as int)))
        } else {
            c.output is None
        },
        always_fails(f) ==> c.output is None,
{
    let (s, o) = choose|s: &[SubtitleSegment], o: Result<Vec<SubtitleSegment>, String>|
        s@ == batch.subrange(c.lo as int, c.hi as int) && call_ensures(f, (s,), o)
            && c.output == output_of(o);
    assert(s@.len() == c.hi - c.lo);
}

/// Where the policy stands while only one-cue requests succeed: the cues
/// before the current one are translated in order and none is skipped.
pub open spec fn single_cue_progress(st: FallbackState, batch: Seq<SubtitleSegment>, m: nat) -> bool {
    &&& st.skipped == 0
    &&& match st.stage {
        FallbackStage::Whole { attempt } => attempt < m && st.translated.len() == 0,
        FallbackStage::Item { index, attempt } => index < batch.len() && attempt == 0
            && st.translated == seg_views(batch.take(index as int)),
        FallbackStage::Finished => st.translated == seg_views(batch),
    }
}

/// Where the policy stands while every request fails: nothing is
/// translated, and every cue before the current one is skipped.
pub open spec fn failing_progress(st: FallbackState, n: nat, m: nat) -> bool {
    &&& st.translated.len() == 0
    &&& match st.stage {
        FallbackStage::Whole { attempt } => attempt < m && st.skipped == 0,
        FallbackStage::Item { index, attempt } => index < n && attempt < m && st.skipped == index,
        FallbackStage::Finished => st.skipped == n,
    }
}

proof fn lemma_replay_progress<F: Fn(&[SubtitleSegment]) -> Result<Vec<SubtitleSegment>, String>>(
    f: F,
    batch: Seq<SubtitleSegment>,
    m: nat,
    calls: Seq<TranslateCall>,
)
    requires
        m >= 1,
        all_answered(f, batch, calls),
        replay(batch.len(), m, calls) is Some,
    ensures
        echoes_single_cues(f) ==> single_cue_progress(replay(batch.len(), m, calls)->Some_0, batch, m),
        always_fails(f) ==> failing_progress(replay(batch.len(), m, calls)->Some_0, batch.len(), m),
    decreases calls.len(),
{
    let n = batch.len();
    if calls.len() > 0 {
        let prev = calls.drop_last();
        assert forall|k: int| 0 <= k < prev.len() implies answered(f, batch, #[trigger] prev[k]) by {
            assert(prev[k] == calls[k]);
        }
        lemma_replay_progress(f, batch, m, prev);
        let st = replay(n, m, prev)->Some_0;
        let c = calls.last();
        assert(answered(f, batch, calls[calls.len() - 1]));
        assert(next_request(st, n) == Some((c.lo, c.hi)));
        if echoes_single_cues(f) {
            assert(single_cue_progress(st, batch, m));
        }
        match st.stage {
            FallbackStage::Item { index, attempt } => {
                if echoes_single_cues(f) {
                    assert(index < n);
                } else if always_fails(f) {
                    assert(index < n);
                }
                if index < n {
                    lemma_answered_output(f, batch, c);
                    assert(batch.take(index as int + 1) =~= batch.take(index as int) + batch.subrange(
                        index as int,
                        index as int + 1,
                    ));
                    assert(seg_views(batch.take(index as int + 1)) =~= seg_views(batch.take(index as int))
                        + seg_views(batch.subrange(index as int, index as int + 1)));
                    assert(index + 1 == n ==> batch.take(index as int + 1) =~= batch);
                }
            },
            FallbackStage::Whole { .. } => {
                lemma_answered_output(f, batch, c);
                assert(batch.subrange(0, n as int) =~= batch);
                assert(batch.take(0) =~= Seq::<SubtitleSegment>::empty());
                assert(seg_views(batch.take(0)) =~= Seq::<SegmentView>::empty());
                if n == 0 {
                    assert(seg_views(batch) =~= Seq::<SegmentView>::empty());
                }
            },
            FallbackStage::Finished => {},
        }
    }
}

/// When only one-cue requests succeed, the per-cue fallback translates
/// every cue and puts them together in the batch's order, skipping none.
pub proof fn lemma_fallback_keeps_cue_order<
    F: Fn(&[SubtitleSegment]) -> Result<Vec<SubtitleSegment>, String>,
>(batch: Seq<SubtitleSegment>, max_attempts: nat, translate: F, result: TranslationBatchResult)
    requires
        echoes_single_cues(translate),
        replay(batch.len(), attempt_limit(max_attempts), result.calls@) == Some(
            FallbackState {
                stage: FallbackStage::Finished,
                translated: seg_views(result.segments@),
                skipped: result.skipped_count as nat,
            },
        ),
        all_answered(translate, batch, result.calls@),
    ensures
        seg_views(result.segments@) == seg_views(batch),
        result.skipped_count == 0,
{
    lemma_replay_progress(translate, batch, attempt_limit(max_attempts), result.calls@);
}

/// When every request fails, nothing is translated and every cue of the
/// batch is counted as skipped.
pub proof fn lemma_failing_translator_skips_every_cue<
    F: Fn(&[SubtitleSegment]) -> Result<Vec<SubtitleSegment>, String>,
>(batch: Seq<SubtitleSegment>, max_attempts: nat, translate: F, result: TranslationBatchResult)
    requires
        always_fails(translate),
        replay(batch.len(), attempt_limit(max_attempts), result.calls@) == Some(
            FallbackState {
                stage: FallbackStage::Finished,
                translated: seg_views(result.segments@),
                skipped: result.skipped_count as nat,
            },
        ),
        all_answered(translate, batch, result.calls@),
    ensures
        result.segments@.len() == 0,
        result.skipped_count == batch.len(),
{
    lemma_replay_progress(translate, batch, attempt_limit(max_attempts), result.calls@);
}

} // verus!
