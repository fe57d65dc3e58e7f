//! Decisions of a dubbing job: its stages and their progress, reading tool
//! output, and merging a translation into the cues.

use vstd::prelude::*;
use vstd::string::{StrSliceExecFns, StringExecFns};

use crate::pipeline::is_russian_code;
use crate::subtitles::{SegmentView, SubtitleSegment};
use crate::text::{
    chars_of, decimal, find, find_exec, lowercase, parse_unsigned,
    parse_unsigned_range, push_decimal, same_text, string_of, to_lower, trim, trim_range, trimmed,
};

verus! {

/// A progress event for the user interface.
#[derive(Clone, Debug)]
pub struct JobProgress {
    pub percent: u8,
    pub stage: &'static str,
    pub stage_index: u8,
    pub stage_count: u8,
    pub message: String,
}

/// A stage of a job: its number, the number of stages, and its name.
#[derive(Clone, Copy, Debug)]
pub struct StageProgress {
    pub index: u8,
    pub count: u8,
    pub stage: &'static str,
}

impl StageProgress {
    /// Stage `index` of `count`, named `stage`.
    pub fn new(index: u8, count: u8, stage: &'static str) -> (s: Self)
        ensures
            s.index == index,
            s.count == count,
            s.stage == stage,
    {
        StageProgress { index, count, stage }
    }

    /// The event that reports `percent` (at most 100) of this stage.
    pub fn progress(&self, percent: u8, message: &str) -> (p: JobProgress)
        ensures
            p.percent == if percent < 100 {
                percent
            } else {
                100
            },
            p.stage == self.stage,
            p.stage_index == self.index,
            p.stage_count == self.count,
            p.message@ == message@,
    {
        JobProgress {
            percent: if percent < 100 {
                percent
            } else {
                100
            },
            stage: self.stage,
            stage_index: self.index,
            stage_count: self.count,
            message: String::from_str(message),
        }
    }
}

/// A language tag that names Russian: `ru`, `rus` or `russian` in any
/// case, with surrounding whitespace; no tag is not Russian.
pub open spec fn russian_tag(language: Option<Seq<char>>) -> bool {
    is_russian_code(
        lowercase(
            trim(
                match language {
                    Some(l) => l,
                    None => seq![],
                },
            ),
        ),
    )
}

/// Whether a language tag names Russian.
pub fn is_russian(language: Option<&str>) -> (b: bool)
    ensures
        b == russian_tag(
            match language {
                Some(l) => Some(l@),
                None => None,
            },
        ),
{
    let t = match language {
        Some(l) => trimmed(l),
        None => String::new(),
    };
    let l = to_lower(t.as_str());
    same_text(l.as_str(), "ru") || same_text(l.as_str(), "rus") || same_text(l.as_str(), "russian")
}

/// The stages of a job and their numbers. Text subtitles skip speech
/// recognition; subtitles already in Russian skip translation.
#[derive(Clone, Copy, Debug)]
pub struct StagePlan {
    pub uses_text_subtitles: bool,
    pub needs_translation: bool,
    pub stage_count: u8,
    pub prepare: u8,
    pub asr: Option<u8>,
    pub translate: Option<u8>,
    pub tts: u8,
    pub align: u8,
    pub balance: u8,
    pub mux: u8,
}

/// Subtitles are used as text when a subtitle stream is chosen and its
/// kind is `text`.
pub open spec fn uses_text(index: Option<usize>, kind: Option<Seq<char>>) -> bool {
    index is Some && kind == Some("text"@)
}

/// The plan's stage numbers run from one to the stage count, in the order
/// prepare, recognition, translation, synthesis, alignment, balance, mux,
/// each present stage once.
pub open spec fn numbered_in_order(p: StagePlan) -> bool {
    let after_asr: int = match p.asr {
        Some(a) => a as int,
        None => p.prepare as int,
    };
    let after_translate: int = match p.translate {
        Some(t) => t as int,
        None => after_asr,
    };
    &&& p.prepare == 1
    &&& p.asr matches Some(a) ==> a == 2
    &&& p.translate matches Some(t) ==> t == after_asr + 1
    &&& p.tts == after_translate + 1
    &&& p.align == p.tts + 1
    &&& p.balance == p.align + 1
    &&& p.mux == p.balance + 1
    &&& p.mux == p.stage_count
}

/// Plans the stages of a job from the chosen subtitles.
pub fn plan_stages(
    subtitle_stream_index: Option<usize>,
    subtitle_kind: Option<&str>,
    subtitle_language: Option<&str>,
) -> (p: StagePlan)
    ensures
        p.uses_text_subtitles == uses_text(
            subtitle_stream_index,
            match subtitle_kind {
                Some(k) => Some(k@),
                None => None,
            },
        ),
        p.needs_translation == (!p.uses_text_subtitles || !russian_tag(
            match subtitle_language {
                Some(l) => Some(l@),
                None => None,
            },
        )),
        p.asr is Some <==> !p.uses_text_subtitles,
        p.translate is Some <==> p.needs_translation,
        p.stage_count == 5 + (if p.uses_text_subtitles {
            0int
        } else {
            1int
        }) + (if p.needs_translation {
            1int
        } else {
            0int
        }),
        numbered_in_order(p),
{
    let uses_text_subtitles = subtitle_stream_index.is_some() && match subtitle_kind {
        Some(k) => same_text(k, "text"),
        None => false,
    };
    let needs_translation = !uses_text_subtitles || !is_russian(subtitle_language);
    let stage_count: u8 = 5 + (if uses_text_subtitles {
        0
    } else {
        1
    }) + (if needs_translation {
        1
    } else {
        0
    });
    let mut next: u8 = 2;
    let asr = if uses_text_subtitles {
        None
    } else {
        next = 3;
        Some(2)
    };
    let translate = if needs_translation {
        let t = next;
        next = next + 1;
        Some(t)
    } else {
        None
    };
    StagePlan {
        uses_text_subtitles,
        needs_translation,
        stage_count,
        prepare: 1,
        asr,
        translate,
        tts: next,
        align: next + 1,
        balance: next + 2,
        mux: next + 3,
    }
}

/// A tool's percent mapped into the part `start..end` of a stage, both
/// bounds limited to 0..=100 and the end kept no lower than the start.
pub open spec fn scaled_percent(percent: u8, start_percent: u8, end_percent: u8) -> int {
    let start: int = if start_percent < 100 {
        start_percent as int
    } else {
        100
    };
    let end: int = if end_percent < start {
        start
    } else if end_percent > 100 {
        100
    } else {
        end_percent as int
    };
    let p: int = if percent < 100 {
        percent as int
    } else {
        100
    };
    start + (p * (end - start)) / 100
}

/// Maps a subprocess's own percent into its range of the stage.
pub fn scale_progress(percent: u8, start_percent: u8, end_percent: u8) -> (r: u8)
    ensures
        r == scaled_percent(percent, start_percent, end_percent),
        r <= 100,
        start_percent <= end_percent <= 100 ==> start_percent <= r <= end_percent,
{
    let start: u8 = if start_percent < 100 {
        start_percent
    } else {
        100
    };
    let end: u8 = if end_percent < start {
        start
    } else if end_percent > 100 {
        100
    } else {
        end_percent
    };
    let p: u16 = if percent < 100 {
        percent as u16
    } else {
        100
    };
    let span: u16 = (end - start) as u16;
    assert(p * span <= 100 * span) by (nonlinear_arith)
        requires
            p <= 100,
    ;
    assert(100 * span <= 10000) by (nonlinear_arith)
        requires
            span <= 100,
    ;
    let part: u16 = (p * span) / 100;
    assert(part <= span) by (nonlinear_arith)
        requires
            part as int == (p as int * span as int) / 100,
            p * span <= 100 * span,
    ;
    start + (part as u8)
}

/// `complete` out of `total` as a whole percent, rounded down; an empty
/// total counts as one.
pub open spec fn percent_of(complete: nat, total: nat) -> nat {
    (complete * 100) / (if total == 0 {
        1
    } else {
        total
    })
}

/// The share of finished work in whole percent.
pub fn completion_percent(complete: usize, total: usize) -> (p: u8)
    requires
        complete <= total,
        total <= usize::MAX / 100,
    ensures
        p == percent_of(complete as nat, total as nat),
        p <= 100,
{
    let d: usize = if total == 0 {
        1
    } else {
        total
    };
    assert(complete * 100 <= d * 100) by (nonlinear_arith)
        requires
            complete <= d,
    ;
    let q = (complete * 100) / d;
    assert(q <= 100) by (nonlinear_arith)
        requires
            q as int == (complete as int * 100) / (d as int),
            complete * 100 <= d * 100,
            d >= 1,
    ;
    q as u8
}

/// The message that reports synthesized cues.
pub open spec fn tts_message(complete: nat, total: nat) -> Seq<char> {
    "Озвучено "@ + decimal(complete) + " из "@ + decimal(total) + " реплик"@
}

/// The message that reports translated and skipped cues.
pub open spec fn translation_message(translated: nat, total: nat, skipped: nat) -> Seq<char> {
    "Переведено "@ + decimal(translated) + " из "@ + decimal(total) + " реплик, пропущено "@
        + decimal(skipped)
}

/// The progress event after `done` of `batches` translation batches.
pub fn translation_progress(
    stage: &StageProgress,
    done: usize,
    batches: usize,
    translated: usize,
    total: usize,
    skipped: usize,
) -> (p: JobProgress)
    requires
        done <= batches,
        batches <= usize::MAX / 100,
    ensures
        p.percent == percent_of(done as nat, batches as nat),
        p.stage == stage.stage,
        p.stage_index == stage.index,
        p.stage_count == stage.count,
        p.message@ == translation_message(translated as nat, total as nat, skipped as nat),
{
    let percent = completion_percent(done, batches);
    let mut message = String::from_str("Переведено ");
    message.append(decimal_text(translated).as_str());
    message.append(" из ");
    message.append(decimal_text(total).as_str());
    message.append(" реплик, пропущено ");
    message.append(decimal_text(skipped).as_str());
    stage.progress(percent, message.as_str())
}

fn decimal_text(n: usize) -> (s: String)
    ensures
        s@ == decimal(n as nat),
{
    let mut digits: Vec<char> = Vec::new();
    push_decimal(&mut digits, n as u64);
    assert(digits@ =~= decimal(n as nat));
    string_of(&digits)
}

/// The progress event after `complete` of `total` cues were synthesized.
pub fn tts_progress(stage: &StageProgress, complete: usize, total: usize) -> (p: JobProgress)
    requires
        complete <= total,
        total <= usize::MAX / 100,
    ensures
        p.percent == percent_of(complete as nat, total as nat),
        p.stage == stage.stage,
        p.stage_index == stage.index,
        p.stage_count == stage.count,
        p.message@ == tts_message(complete as nat, total as nat),
{
    let percent = completion_percent(complete, total);
    let mut message = String::from_str("Озвучено ");
    message.append(decimal_text(complete).as_str());
    message.append(" из ");
    message.append(decimal_text(total).as_str());
    message.append(" реплик");
    stage.progress(percent, message.as_str())
}


/// `s` without every trailing `c`.
pub open spec fn strip_trailing(s: Seq<char>, c: char) -> Seq<char>
    decreases s.len(),
{
    if s.len() > 0 && s.last() == c {
        strip_trailing(s.drop_last(), c)
    } else {
        s
    }
}

/// The percent in a `whisper.cpp` progress line: the text after the first
/// `progress =`, trimmed, without trailing `%`, trimmed again, read as a
/// `u8` and capped at 100.
pub open spec fn whisper_percent(line: Seq<char>) -> Option<u8> {
    match find(line, "progress ="@) {
        None => None,
        Some(i) => {
            let value = trim(line.subrange(i + 10, line.len() as int));
            match parse_unsigned(trim(strip_trailing(value, '%')), 255) {
                Ok(n) => Some(
                    if n < 100 {
                        n as u8
                    } else {
                        100u8
                    },
                ),
                Err(_) => None,
            }
        },
    }
}

fn strip_trailing_range(v: &Vec<char>, lo: usize, hi: usize, c: char) -> (b: usize)
    requires
        lo <= hi <= v.len(),
    ensures
        lo <= b <= hi,
        v@.subrange(lo as int, b as int) == strip_trailing(v@.subrange(lo as int, hi as int), c),
{
    let mut b = hi;
    while b > lo && v[b - 1] == c
        invariant
            lo <= b <= hi <= v.len(),
            strip_trailing(v@.subrange(lo as int, hi as int), c) == strip_trailing(
                v@.subrange(lo as int, b as int),
                c,
            ),
        decreases b - lo,
    {
        assert(v@.subrange(lo as int, b as int).drop_last() =~= v@.subrange(lo as int, b - 1));
        b = b - 1;
    }
    b
}

/// Reads the percent from a line of `whisper.cpp`'s progress output.
pub fn parse_whisper_progress(line: &str) -> (r: Option<u8>)
    ensures
        r == whisper_percent(line@),
{
    let cs = chars_of(line);
    let marker = chars_of("progress =");
    proof {
        reveal_strlit("progress =");
    }
    assert(cs@.subrange(0, cs@.len() as int) =~= cs@);
    match find_exec(&cs, &marker, 0, cs.len()) {
        None => None,
        Some(i) => {
            proof {
                crate::text::lemma_find_from_bounds(cs@, marker@, 0);
                assert(marker@.len() == 10);
            }
            let (a, b) = trim_range(&cs, i + 10, cs.len());
            let e = strip_trailing_range(&cs, a, b, '%');
            let (c, d) = trim_range(&cs, a, e);
            match parse_unsigned_range(&cs, c, d, 255) {
                Ok(n) => Some(
                    if n < 100 {
                        n as u8
                    } else {
                        100
                    },
                ),
                Err(_) => None,
            }
        },
    }
}

/// The last position of `c` in `s`.
pub open spec fn last_index_of(s: Seq<char>, c: char) -> Option<int>
    decreases s.len(),
{
    if s.len() == 0 {
        None
    } else if s.last() == c {
        Some(s.len() - 1)
    } else {
        last_index_of(s.drop_last(), c)
    }
}

/// A reply can be cut at its braces: when it has both a `{` and a `}`, the
/// last `}` comes no earlier than just before the first `{`. (A `}` right
/// before the first `{` and none after gives the empty cut.)
pub open spec fn braces_ordered(s: Seq<char>) -> bool {
    match (find(s, seq!['{']), last_index_of(s, '}')) {
        (Some(a), Some(b)) => a <= b + 1,
        _ => true,
    }
}

/// The text from the first `{` to the last `}` of a model reply; empty
/// when the last `}` comes right before the first `{`.
pub open spec fn json_object_in(s: Seq<char>) -> Result<Seq<char>, Seq<char>> {
    match find(s, seq!['{']) {
        None => Err("Модель не вернула JSON-объект"@),
        Some(a) => match last_index_of(s, '}') {
            None => Err("Модель вернула незавершённый JSON-объект"@),
            Some(b) => Ok(s.subrange(a, b + 1)),
        },
    }
}

proof fn lemma_last_index_bounds(s: Seq<char>, c: char)
    ensures
        last_index_of(s, c) matches Some(i) ==> 0 <= i < s.len(),
    decreases s.len(),
{
    if s.len() > 0 && s.last() != c {
        lemma_last_index_bounds(s.drop_last(), c);
    }
}

fn last_position(v: &Vec<char>, c: char) -> (r: Option<usize>)
    ensures
        match r {
            Some(i) => last_index_of(v@, c) == Some(i as int),
            None => last_index_of(v@, c) is None,
        },
{
    let mut k = v.len();
    assert(v@.subrange(0, k as int) =~= v@);
    while k > 0
        invariant
            0 <= k <= v.len(),
            last_index_of(v@, c) == last_index_of(v@.subrange(0, k as int), c),
        decreases k,
    {
        assert(v@.subrange(0, k as int).drop_last() =~= v@.subrange(0, k - 1));
        if v[k - 1] == c {
            return Some(k - 1);
        }
        k = k - 1;
    }
    None
}

/// Cuts the JSON object out of a model reply.
pub fn extract_json_object(content: &str) -> (r: Result<&str, String>)
    requires
        braces_ordered(content@),
    ensures
        result_text(r) == json_object_in(content@),
{
    let cs = chars_of(content);
    assert(cs@.subrange(0, cs@.len() as int) =~= cs@);
    let open = vec!['{'];
    assert(open@ =~= seq!['{']);
    match find_exec(&cs, &open, 0, cs.len()) {
        None => Err(String::from_str("Модель не вернула JSON-объект")),
        Some(a) => match last_position(&cs, '}') {
            None => Err(String::from_str("Модель вернула незавершённый JSON-объект")),
            Some(b) => {
                proof {
                    crate::text::lemma_find_from_bounds(cs@, open@, 0);
                    lemma_last_index_bounds(cs@, '}');
                }
                Ok(content.substring_char(a, b + 1))
            },
        },
    }
}

pub open spec fn result_text(r: Result<&str, String>) -> Result<Seq<char>, Seq<char>> {
    match r {
        Ok(s) => Ok(s@),
        Err(e) => Err(e@),
    }
}


/// One translated cue as the model returned it.
#[derive(Clone, Debug)]
pub struct TranslatedItem {
    pub id: String,
    pub text: String,
}

pub open spec fn item_views(items: Seq<TranslatedItem>) -> Seq<(Seq<char>, Seq<char>)> {
    items.map_values(|t: TranslatedItem| (t.id@, t.text@))
}

/// The first item with the given id.
pub open spec fn first_with_id(items: Seq<(Seq<char>, Seq<char>)>, id: Seq<char>) -> Option<int>
    decreases items.len(),
{
    if items.len() == 0 {
        None
    } else {
        match first_with_id(items.drop_last(), id) {
            Some(i) => Some(i),
            None => if items.last().0 == id {
                Some(items.len() - 1)
            } else {
                None
            },
        }
    }
}

/// The first `k` cues of the batch with their translated text: each cue
/// takes the trimmed text of the first item with its id, keeping its id
/// and timing; a missing id or a blank text stops the merge.
pub open spec fn merge_prefix(
    batch: Seq<SegmentView>,
    items: Seq<(Seq<char>, Seq<char>)>,
    k: nat,
) -> Result<Seq<SegmentView>, Seq<char>>
    decreases k,
{
    if k == 0 {
        Ok(seq![])
    } else {
        match merge_prefix(batch, items, (k - 1) as nat) {
            Err(e) => Err(e),
            Ok(done) => {
                let o = batch[k - 1];
                match first_with_id(items, o.id) {
                    None => Err("В переводе отсутствует id "@ + o.id),
                    Some(i) => {
                        let t = trim(items[i].1);
                        if t.len() == 0 {
                            Err("Пустой перевод для id "@ + o.id)
                        } else {
                            Ok(
                                done.push(
                                    SegmentView {
                                        id: o.id,
                                        start_ms: o.start_ms,
                                        end_ms: o.end_ms,
                                        text: t,
                                    },
                                ),
                            )
                        }
                    },
                }
            },
        }
    }
}

/// The translated batch: the model must return one item per cue, and
/// every cue must find a non-blank translation by its id.
pub open spec fn merged_translation(
    batch: Seq<SegmentView>,
    items: Seq<(Seq<char>, Seq<char>)>,
) -> Result<Seq<SegmentView>, Seq<char>> {
    if items.len() != batch.len() {
        Err(
            "Модель вернула "@ + decimal(items.len()) + " реплик вместо "@ + decimal(
                batch.len(),
            ),
        )
    } else {
        merge_prefix(batch, items, batch.len())
    }
}

pub open spec fn merge_view(r: Result<Vec<SubtitleSegment>, String>) -> Result<
    Seq<SegmentView>,
    Seq<char>,
> {
    match r {
        Ok(v) => Ok(v@.map_values(|x: SubtitleSegment| x@)),
        Err(e) => Err(e@),
    }
}

fn find_item(items: &[TranslatedItem], id: &str) -> (r: Option<usize>)
    ensures
        match r {
            Some(i) => first_with_id(item_views(items@), id@) == Some(i as int),
            None => first_with_id(item_views(items@), id@) is None,
        },
{
    let mut k: usize = 0;
    while k < items.len()
        invariant
            0 <= k <= items@.len(),
            first_with_id(item_views(items@.subrange(0, k as int)), id@) is None,
        decreases items.len() - k,
    {
        let ghost pre = item_views(items@.subrange(0, k + 1));
        assert(pre.drop_last() =~= item_views(items@.subrange(0, k as int)));
        if same_text(items[k].id.as_str(), id) {
            proof {
                lemma_first_with_id_prefix(item_views(items@), id@, (k + 1) as nat);
                assert(item_views(items@).subrange(0, k + 1) =~= pre);
            }
            return Some(k);
        }
        k = k + 1;
    }
    proof {
        assert(items@.subrange(0, k as int) =~= items@);
    }
    None
}

/// A merged translation has one cue per cue of the batch, in the batch's
/// order, each keeping its id and timing and carrying non-blank text.
pub proof fn lemma_merge_keeps_ids_and_timing(
    batch: Seq<SegmentView>,
    items: Seq<(Seq<char>, Seq<char>)>,
    k: nat,
)
    requires
        k <= batch.len(),
        merge_prefix(batch, items, k) is Ok,
    ensures
        merge_prefix(batch, items, k)->Ok_0.len() == k,
        forall|j: int|
            0 <= j < k ==> {
                let out = #[trigger] merge_prefix(batch, items, k)->Ok_0[j];
                &&& out.id == batch[j].id
                &&& out.start_ms == batch[j].start_ms
                &&& out.end_ms == batch[j].end_ms
                &&& out.text.len() > 0
            },
    decreases k,
{
    if k > 0 {
        lemma_merge_keeps_ids_and_timing(batch, items, (k - 1) as nat);
    }
}

proof fn lemma_first_with_id_prefix(items: Seq<(Seq<char>, Seq<char>)>, id: Seq<char>, n: nat)
    requires
        n <= items.len(),
        first_with_id(items.subrange(0, n as int), id) is Some,
    ensures
        first_with_id(items, id) == first_with_id(items.subrange(0, n as int), id),
    decreases items.len() - n,
{
    if n < items.len() {
        assert(items.subrange(0, n + 1 as int).drop_last() =~= items.subrange(0, n as int));
        lemma_first_with_id_prefix(items, id, n + 1);
    } else {
        assert(items.subrange(0, n as int) =~= items);
    }
}

proof fn lemma_first_with_id_bounds(items: Seq<(Seq<char>, Seq<char>)>, id: Seq<char>)
    ensures
        first_with_id(items, id) matches Some(i) ==> 0 <= i < items.len() && items[i].0 == id,
    decreases items.len(),
{
    if items.len() > 0 {
        lemma_first_with_id_bounds(items.drop_last(), id);
    }
}

proof fn lemma_merge_error_extends(
    batch: Seq<SegmentView>,
    items: Seq<(Seq<char>, Seq<char>)>,
    k: nat,
    n: nat,
)
    requires
        k <= n,
        merge_prefix(batch, items, k) is Err,
    ensures
        merge_prefix(batch, items, n) == merge_prefix(batch, items, k),
    decreases n - k,
{
    if k < n {
        lemma_merge_error_extends(batch, items, k, (n - 1) as nat);
    }
}

/// Merges the model's translation into the batch.
pub fn merge_translation(batch: &[SubtitleSegment], items: &[TranslatedItem]) -> (r: Result<
    Vec<SubtitleSegment>,
    String,
>)
    ensures
        merge_view(r) == merged_translation(
            batch@.map_values(|x: SubtitleSegment| x@),
            item_views(items@),
        ),
{
    let ghost bv = batch@.map_values(|x: SubtitleSegment| x@);
    let ghost iv = item_views(items@);
    if items.len() != batch.len() {
        let mut m = String::from_str("Модель вернула ");
        m.append(decimal_text(items.len()).as_str());
        m.append(" реплик вместо ");
        m.append(decimal_text(batch.len()).as_str());
        return Err(m);
    }
    let mut out: Vec<SubtitleSegment> = Vec::new();
    let mut k: usize = 0;
    assert(out@.map_values(|x: SubtitleSegment| x@) =~= Seq::<SegmentView>::empty());
    while k < batch.len()
        invariant
            0 <= k <= batch@.len(),
            items@.len() == batch@.len(),
            bv == batch@.map_values(|x: SubtitleSegment| x@),
            iv == item_views(items@),
            merge_prefix(bv, iv, k as nat) == Ok::<Seq<SegmentView>, Seq<char>>(
                out@.map_values(|x: SubtitleSegment| x@),
            ),
        decreases batch.len() - k,
    {
        let original = &batch[k];
        match find_item(items, original.id.as_str()) {
            None => {
                let mut m = String::from_str("В переводе отсутствует id ");
                m.append(original.id.as_str());
                proof {
                    lemma_merge_error_extends(bv, iv, (k + 1) as nat, batch@.len());
                }
                return Err(m);
            },
            Some(i) => {
                proof {
                    lemma_first_with_id_bounds(iv, original.id@);
                }
                let text = trimmed(items[i].text.as_str());
                if text.as_str().unicode_len() == 0 {
                    let mut m = String::from_str("Пустой перевод для id ");
                    m.append(original.id.as_str());
                    proof {
                        lemma_merge_error_extends(bv, iv, (k + 1) as nat, batch@.len());
                    }
                    return Err(m);
                }
                let ghost before = out@.map_values(|x: SubtitleSegment| x@);
                let seg = SubtitleSegment {
                    id: original.id.clone(),
                    start_ms: original.start_ms,
                    end_ms: original.end_ms,
                    text,
                };
                out.push(seg);
                assert(out@.map_values(|x: SubtitleSegment| x@) =~= before.push(seg@));
            },
        }
        k = k + 1;
    }
    Ok(out)
}


/// What a failed tool run reports: the context, then the trimmed error
/// output, or the exit status when that output is blank.
pub open spec fn failure_report(context: Seq<char>, stderr: Seq<char>, status: Seq<char>) -> Seq<
    char,
> {
    context + ": "@ + if trim(stderr).len() == 0 {
        "процесс завершился с кодом "@ + status
    } else {
        trim(stderr)
    }
}

/// The message for a tool that exited with an error.
pub fn process_failure_message(context: &str, stderr: &str, status: &str) -> (m: String)
    ensures
        m@ == failure_report(context@, stderr@, status@),
{
    let details = trimmed(stderr);
    let mut m = String::from_str(context);
    m.append(": ");
    if details.as_str().unicode_len() == 0 {
        m.append("процесс завершился с кодом ");
        m.append(status);
    } else {
        m.append(details.as_str());
    }
    m
}

/// The name of the dubbed file: `{stem}.dub.ru.mkv`, or with a copy number
/// before the extension.
pub open spec fn dubbed_file_name(stem: Seq<char>, copy: Option<u32>) -> Seq<char> {
    match copy {
        None => stem + ".dub.ru.mkv"@,
        Some(n) => stem + ".dub.ru."@ + decimal(n as nat) + ".mkv"@,
    }
}

/// Names the output file of a job.
pub fn output_file_name(stem: &str, copy: Option<u32>) -> (name: String)
    ensures
        name@ == dubbed_file_name(stem@, copy),
{
    let mut name = String::from_str(stem);
    match copy {
        None => {
            name.append(".dub.ru.mkv");
        },
        Some(n) => {
            name.append(".dub.ru.");
            name.append(decimal_text(n as usize).as_str());
            name.append(".mkv");
        },
    }
    name
}

/// Passes on a tool's progress only when the percent changes, and reports
/// completion unless the last percent passed on was already the completion.
#[derive(Clone, Copy, Debug)]
pub struct ProgressFilter {
    pub last: Option<u8>,
}

impl ProgressFilter {
    /// A filter that has passed nothing on yet.
    pub fn new() -> (f: Self)
        ensures
            f.last is None,
    {
        ProgressFilter { last: None }
    }

    /// The percent to report for a line of tool output, if any: a parsed
    /// percent that differs from the last one reported.
    pub fn observe(&mut self, percent: Option<u8>) -> (emit: Option<u8>)
        ensures
            match percent {
                Some(p) => if old(self).last == Some(p) {
                    emit is None && final(self).last == old(self).last
                } else {
                    emit == Some(p) && final(self).last == Some(p)
                },
                None => emit is None && final(self).last == old(self).last,
            },
    {
        match percent {
            Some(p) => {
                if self.last == Some(p) {
                    None
                } else {
                    self.last = Some(p);
                    Some(p)
                }
            },
            None => None,
        }
    }

    /// The percent to report when the tool succeeded.
    pub fn completion(&self, completion_percent: u8) -> (emit: Option<u8>)
        ensures
            emit == if self.last == Some(completion_percent) {
                None
            } else {
                Some(completion_percent)
            },
    {
        if self.last == Some(completion_percent) {
            None
        } else {
            Some(completion_percent)
        }
    }
}

/// What the Silero worker reports for one cue.
#[derive(Clone, Debug)]
pub struct SileroResult {
    pub audio_path: Option<String>,
    pub error: Option<String>,
}

pub open spec fn silero_views(r: Seq<SileroResult>) -> Seq<(Option<Seq<char>>, Option<Seq<char>>)> {
    r.map_values(
        |x: SileroResult|
            (
                match x.audio_path {
                    Some(p) => Some(p@),
                    None => None,
                },
                match x.error {
                    Some(e) => Some(e@),
                    None => None,
                },
            ),
    )
}

/// The audio paths of the first `k` results, or the first problem among
/// them: a reported error, then a missing path.
pub open spec fn silero_prefix(r: Seq<(Option<Seq<char>>, Option<Seq<char>>)>, k: nat) -> Result<
    Seq<Seq<char>>,
    Seq<char>,
>
    decreases k,
{
    if k == 0 {
        Ok(seq![])
    } else {
        match silero_prefix(r, (k - 1) as nat) {
            Err(e) => Err(e),
            Ok(paths) => match r[k - 1].1 {
                Some(e) => Err("Ошибка Silero: "@ + e),
                None => match r[k - 1].0 {
                    Some(p) => Ok(paths.push(p)),
                    None => Err("Silero не вернул путь аудиофрагмента"@),
                },
            },
        }
    }
}

/// The fragments of a Silero run: one result per cue, none with an error
/// and each with a path.
pub open spec fn silero_fragments(r: Seq<(Option<Seq<char>>, Option<Seq<char>>)>, cues: nat) -> Result<
    Seq<Seq<char>>,
    Seq<char>,
> {
    if r.len() != cues {
        Err("Silero вернул неверное количество аудиофрагментов"@)
    } else {
        silero_prefix(r, r.len())
    }
}

proof fn lemma_silero_error_extends(r: Seq<(Option<Seq<char>>, Option<Seq<char>>)>, k: nat, n: nat)
    requires
        k <= n,
        silero_prefix(r, k) is Err,
    ensures
        silero_prefix(r, n) == silero_prefix(r, k),
    decreases n - k,
{
    if k < n {
        lemma_silero_error_extends(r, k, (n - 1) as nat);
    }
}

/// Checks the Silero worker's results and takes their audio paths.
pub fn silero_audio_paths(results: &Vec<SileroResult>, cues: usize) -> (r: Result<
    Vec<String>,
    String,
>)
    ensures
        match r {
            Ok(paths) => silero_fragments(silero_views(results@), cues as nat) == Ok::<
                Seq<Seq<char>>,
                Seq<char>,
            >(paths@.map_values(|p: String| p@)),
            Err(e) => silero_fragments(silero_views(results@), cues as nat) == Err::<
                Seq<Seq<char>>,
                Seq<char>,
            >(e@),
        },
{
    let ghost rv = silero_views(results@);
    if results.len() != cues {
        return Err(String::from_str("Silero вернул неверное количество аудиофрагментов"));
    }
    let mut paths: Vec<String> = Vec::new();
    let mut k: usize = 0;
    assert(paths@.map_values(|p: String| p@) =~= Seq::<Seq<char>>::empty());
    while k < results.len()
        invariant
            0 <= k <= results@.len(),
            results@.len() == cues,
            rv == silero_views(results@),
            silero_prefix(rv, k as nat) == Ok::<Seq<Seq<char>>, Seq<char>>(
                paths@.map_values(|p: String| p@),
            ),
        decreases results.len() - k,
    {
        let result = &results[k];
        assert(rv[k as int] == silero_views(results@)[k as int]);
        match &result.error {
            Some(e) => {
                let mut m = String::from_str("Ошибка Silero: ");
                m.append(e.as_str());
                proof {
                    assert(rv[k as int].1 == Some(e@));
                    assert(silero_prefix(rv, (k + 1) as nat) == Err::<Seq<Seq<char>>, Seq<char>>(
                        m@,
                    ));
                    lemma_silero_error_extends(rv, (k + 1) as nat, results@.len());
                }
                return Err(m);
            },
            None => {},
        }
        match &result.audio_path {
            Some(p) => {
                let ghost before = paths@.map_values(|p: String| p@);
                paths.push(p.clone());
                assert(paths@.map_values(|p: String| p@) =~= before.push(p@));
            },
            None => {
                let m = String::from_str("Silero не вернул путь аудиофрагмента");
                proof {
                    assert(rv[k as int].0 is None);
                    assert(rv[k as int].1 is None);
                    assert(silero_prefix(rv, (k + 1) as nat) == Err::<Seq<Seq<char>>, Seq<char>>(
                        m@,
                    ));
                    lemma_silero_error_extends(rv, (k + 1) as nat, results@.len());
                }
                return Err(m);
            },
        }
        k = k + 1;
    }
    Ok(paths)
}

/// The copy numbers tried after the plain name, in order: 2 up to 9999.
pub open spec fn copy_candidate(k: nat) -> Option<u32> {
    if k == 0 {
        None
    } else {
        Some((k + 1) as u32)
    }
}

/// `taken` is what `f` answered when asked about `name`.
pub open spec fn answered_name<E: Fn(&str) -> bool>(f: E, name: Seq<char>, taken: bool) -> bool {
    exists|s: &str| #![trigger call_ensures(f, (s,), taken)] s@ == name && call_ensures(f, (s,), taken)
}

/// Picks the output name: the plain name, else the first numbered copy
/// from 2 to 9999 that `is_taken` reports free; `None` when all are taken.
/// The ghost part records each name asked about and what `is_taken`
/// answered, in order.
pub fn choose_output_name<E>(stem: &str, is_taken: E) -> (r: (
    Option<String>,
    Ghost<Seq<(Seq<char>, bool)>>,
)) where E: Fn(&str) -> bool,

    requires
        forall|s: &str| call_requires(is_taken, (s,)),
    ensures
        ({
            let asked = r.1@;
            &&& 1 <= asked.len() <= 9999
            &&& forall|k: int|
                0 <= k < asked.len() ==> (#[trigger] asked[k]).0 == dubbed_file_name(
                    stem@,
                    copy_candidate(k as nat),
                )
            &&& forall|k: int|
                0 <= k < asked.len() ==> answered_name(
                    is_taken,
                    (#[trigger] asked[k]).0,
                    asked[k].1,
                )
            &&& forall|k: int| 0 <= k < asked.len() - 1 ==> (#[trigger] asked[k]).1
            &&& match r.0 {
                Some(name) => !asked.last().1 && name@ == asked.last().0,
                None => asked.len() == 9999 && asked.last().1,
            }
        }),
{
    let ghost mut asked: Seq<(Seq<char>, bool)> = seq![];
    let preferred = output_file_name(stem, None);
    let taken = is_taken(preferred.as_str());
    proof {
        assert(answered_name(is_taken, preferred@, taken));
        asked = asked.push((preferred@, taken));
    }
    if !taken {
        return (Some(preferred), Ghost(asked));
    }
    let mut copy: u32 = 2;
    while copy < 10_000
        invariant
            2 <= copy <= 10_000,
            asked.len() == copy - 1,
            forall|k: int|
                0 <= k < asked.len() ==> (#[trigger] asked[k]).0 == dubbed_file_name(
                    stem@,
                    copy_candidate(k as nat),
                ),
            forall|k: int| 0 <= k < asked.len() ==> (#[trigger] asked[k]).1,
            forall|k: int|
                0 <= k < asked.len() ==> answered_name(is_taken, (#[trigger] asked[k]).0, asked[k].1),
            forall|s: &str| call_requires(is_taken, (s,)),
        decreases 10_000 - copy,
    {
        let candidate = output_file_name(stem, Some(copy));
        let taken = is_taken(candidate.as_str());
        proof {
            assert(copy_candidate((copy - 1) as nat) == Some(copy));
            assert(answered_name(is_taken, candidate@, taken));
            let old = asked;
            asked = asked.push((candidate@, taken));
            assert forall|k: int| 0 <= k < asked.len() implies answered_name(
                is_taken,
                (#[trigger] asked[k]).0,
                asked[k].1,
            ) by {
                if k < old.len() {
                    assert(asked[k] == old[k]);
                }
            }
        }
        if !taken {
            return (Some(candidate), Ghost(asked));
        }
        copy = copy + 1;
    }
    (None, Ghost(asked))
}

/// The sample rate of the voice track.
pub const VOICE_SAMPLE_RATE: u64 = 48_000;

/// The number of voice-track samples in `ms` milliseconds, rounded down:
/// where a cue starts and how long it may last on the track.
pub fn samples_for(ms: u64) -> (n: u64)
    requires
        ms <= u64::MAX / 48_000,
    ensures
        n == ms * 48_000 / 1000,
{
    ms * VOICE_SAMPLE_RATE / 1000
}

} // verus!
