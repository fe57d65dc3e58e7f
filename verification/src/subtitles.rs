//! Timed subtitle cues and the SRT format.

use vstd::prelude::*;
use vstd::string::StringExecFns;

use crate::text::{
    push_zero_padded, zero_padded,
    chars_of,
    contains, copy_range, decimal, first_word, first_word_range, is_blank, push_decimal, string_of, trim, trim_range,
    collapse_range, collapse_whitespace, replace_all, replace_range,
    find, find_exec, lemma_find_from_bounds, lemma_parse_unsigned_short, parse_unsigned, parse_unsigned_range, split_by,
    split_ranges,
};

verus! {

/// A text cue with an absolute time interval.
#[derive(Clone, Debug, PartialEq, Eq)]
pub struct SubtitleSegment {
    pub id: String,
    pub start_ms: u64,
    pub end_ms: u64,
    pub text: String,
}

/// A cue as plain values.
pub struct SegmentView {
    pub id: Seq<char>,
    pub start_ms: u64,
    pub end_ms: u64,
    pub text: Seq<char>,
}

impl View for SubtitleSegment {
    type V = SegmentView;

    open spec fn view(&self) -> SegmentView {
        SegmentView { id: self.id@, start_ms: self.start_ms, end_ms: self.end_ms, text: self.text@ }
    }
}

impl SubtitleSegment {
    /// The time available for the cue; zero when the interval is reversed.
    pub fn duration_ms(&self) -> (d: u64)
        ensures
            d == (if self.end_ms >= self.start_ms {
                self.end_ms - self.start_ms
            } else {
                0
            }),
    {
        if self.end_ms >= self.start_ms {
            self.end_ms - self.start_ms
        } else {
            0
        }
    }
}

/// Why an SRT document was rejected.
#[derive(Clone, Debug)]
pub enum SubtitleError {
    /// The document has text but no cue with speakable text.
    EmptyBlock,
    /// Block `block` (counted from one) has no line with `-->`.
    MissingTiming { block: usize },
    /// A timestamp could not be read.
    InvalidTimestamp { value: String },
    /// Block `block` ends no later than it starts.
    ReversedInterval { block: usize },
}

/// A parse error as plain values.
pub enum SubtitleErrorView {
    EmptyBlock,
    MissingTiming { block: nat },
    InvalidTimestamp { value: Seq<char> },
    ReversedInterval { block: nat },
}

impl View for SubtitleError {
    type V = SubtitleErrorView;

    open spec fn view(&self) -> SubtitleErrorView {
        match self {
            SubtitleError::EmptyBlock => SubtitleErrorView::EmptyBlock,
            SubtitleError::MissingTiming { block } => SubtitleErrorView::MissingTiming {
                block: *block as nat,
            },
            SubtitleError::InvalidTimestamp { value } => SubtitleErrorView::InvalidTimestamp {
                value: value@,
            },
            SubtitleError::ReversedInterval { block } => SubtitleErrorView::ReversedInterval {
                block: *block as nat,
            },
        }
    }
}

pub open spec fn u64_max() -> nat {
    0xFFFF_FFFF_FFFF_FFFFnat
}

/// `s` with every `.` read as `,`.
pub open spec fn dots_to_commas(s: Seq<char>) -> Seq<char> {
    s.map_values(|c: char| if c == '.' { ',' } else { c })
}

/// The millisecond field: one digit counts hundreds, two digits count tens,
/// and from three characters on only the first three are read.
pub open spec fn millis_value(ms: Seq<char>) -> Option<nat> {
    let n = ms.len();
    let head = if n < 3 { n } else { 3 };
    if n == 0 {
        None
    } else if exists|i: int| 0 <= i < head && (ms[i] as u32) >= 128 {
        None
    } else {
        match parse_unsigned(ms.subrange(0, head as int), u64_max()) {
            Ok(v) => if n == 1 {
                Some(v * 100)
            } else if n == 2 {
                Some(v * 10)
            } else {
                Some(v)
            },
            Err(_) => None,
        }
    }
}

/// A timestamp `H:MM:SS,mmm` (or with `.`) in milliseconds.
pub open spec fn timestamp_value(value: Seq<char>) -> Option<nat> {
    let norm = dots_to_commas(value);
    match find(norm, seq![',']) {
        None => None,
        Some(i) => {
            let parts = split_by(norm.subrange(0, i), seq![':']);
            let millis = norm.subrange(i + 1, norm.len() as int);
            if parts.len() != 3 {
                None
            } else {
                match (
                    parse_unsigned(parts[0], u64_max()),
                    parse_unsigned(parts[1], u64_max()),
                    parse_unsigned(parts[2], u64_max()),
                    millis_value(millis),
                ) {
                    (Ok(h), Ok(m), Ok(s), Some(f)) => {
                        if m >= 60 || s >= 60 {
                            None
                        } else if ((h * 60 + m) * 60 + s) * 1000 + f > u64_max() {
                            None
                        } else {
                            Some(((h * 60 + m) * 60 + s) * 1000 + f)
                        }
                    },
                    _ => None,
                }
            }
        },
    }
}

/// Reads the timestamp `v[lo..hi]`.
#[verifier::loop_isolation(false)]
fn parse_timestamp_range(v: &Vec<char>, lo: usize, hi: usize) -> (r: Option<u64>)
    requires
        lo <= hi <= v.len(),
    ensures
        match r {
            Some(t) => timestamp_value(v@.subrange(lo as int, hi as int)) == Some(t as nat),
            None => timestamp_value(v@.subrange(lo as int, hi as int)) is None,
        },
{
    let ghost value = v@.subrange(lo as int, hi as int);
    let mut norm: Vec<char> = Vec::new();
    let mut k = lo;
    while k < hi
        invariant
            lo <= k <= hi <= v.len(),
            norm@ == dots_to_commas(v@.subrange(lo as int, k as int)),
        decreases hi - k,
    {
        let c = v[k];
        norm.push(if c == '.' { ',' } else { c });
        assert(dots_to_commas(v@.subrange(lo as int, k + 1)) =~= dots_to_commas(
            v@.subrange(lo as int, k as int),
        ).push(if c == '.' { ',' } else { c }));
        k = k + 1;
    }
    let comma = vec![','];
    assert(comma@ =~= seq![',']);
    let i = match find_exec(&norm, &comma, 0, norm.len()) {
        Some(i) => i,
        None => {
            assert(norm@.subrange(0, norm@.len() as int) =~= norm@);
            return None;
        },
    };
    proof {
        assert(norm@.subrange(0, norm@.len() as int) =~= norm@);
        lemma_find_from_bounds(norm@, seq![','], 0);
    }
    let colon = vec![':'];
    assert(colon@ =~= seq![':']);
    let parts = split_ranges(&norm, 0, i, &colon);
    if parts.len() != 3 {
        return None;
    }
    let h = match parse_unsigned_range(&norm, parts[0].0, parts[0].1, u64::MAX) {
        Ok(x) => x,
        Err(_) => return None,
    };
    let m = match parse_unsigned_range(&norm, parts[1].0, parts[1].1, u64::MAX) {
        Ok(x) => x,
        Err(_) => return None,
    };
    let s = match parse_unsigned_range(&norm, parts[2].0, parts[2].1, u64::MAX) {
        Ok(x) => x,
        Err(_) => return None,
    };
    let ms_lo = i + 1;
    let n = norm.len() - ms_lo;
    let ghost millis = norm@.subrange(ms_lo as int, norm@.len() as int);
    if n == 0 {
        return None;
    }
    let head = if n < 3 {
        n
    } else {
        3
    };
    let mut j: usize = 0;
    while j < head
        invariant
            0 <= j <= head <= n,
            ms_lo + n == norm.len(),
            millis == norm@.subrange(ms_lo as int, norm@.len() as int),
            millis.len() == n,
            forall|q: int| 0 <= q < j ==> (millis[q] as u32) < 128,
        decreases head - j,
    {
        if (norm[ms_lo + j] as u32) >= 128 {
            assert(millis[j as int] == norm@[ms_lo + j]);
            assert((millis[j as int] as u32) >= 128);
            return None;
        }
        assert(millis[j as int] == norm@[ms_lo + j]);
        j = j + 1;
    }
    let f0 = match parse_unsigned_range(&norm, ms_lo, ms_lo + head, u64::MAX) {
        Ok(x) => x,
        Err(_) => {
            assert(millis.subrange(0, head as int) =~= norm@.subrange(ms_lo as int, ms_lo + head));
            return None;
        },
    };
    assert(millis.subrange(0, head as int) =~= norm@.subrange(ms_lo as int, ms_lo + head));
    proof {
        lemma_parse_unsigned_short(norm@.subrange(ms_lo as int, ms_lo + head), u64_max());
    }
    let f: u64 = if n == 1 {
        f0 * 100
    } else if n == 2 {
        f0 * 10
    } else {
        f0
    };
    if m >= 60 || s >= 60 {
        return None;
    }
    let total: u128 = ((h as u128 * 60 + m as u128) * 60 + s as u128) * 1000 + f as u128;
    if total > u64::MAX as u128 {
        return None;
    }
    Some(total as u64)
}


/// The characters outside `<...>` tags and `{...}` override blocks; a tag
/// may nest, and a `{` inside a tag is part of the tag.
pub open spec fn strip_markup_from(s: Seq<char>, i: int, angle: nat, brace: nat) -> Seq<char>
    decreases s.len() - i,
{
    if i < 0 || i >= s.len() {
        seq![]
    } else {
        let c = s[i];
        if c == '<' {
            strip_markup_from(s, i + 1, angle + 1, brace)
        } else if c == '>' && angle > 0 {
            strip_markup_from(s, i + 1, (angle - 1) as nat, brace)
        } else if c == '{' && angle == 0 {
            strip_markup_from(s, i + 1, angle, brace + 1)
        } else if c == '}' && brace > 0 {
            strip_markup_from(s, i + 1, angle, (brace - 1) as nat)
        } else if angle == 0 && brace == 0 {
            seq![c] + strip_markup_from(s, i + 1, 0, 0)
        } else {
            strip_markup_from(s, i + 1, angle, brace)
        }
    }
}

pub open spec fn amp_entity() -> Seq<char> {
    seq!['&', 'a', 'm', 'p', ';']
}

pub open spec fn quot_entity() -> Seq<char> {
    seq!['&', 'q', 'u', 'o', 't', ';']
}

pub open spec fn apos_entity() -> Seq<char> {
    seq!['&', '#', '3', '9', ';']
}

/// Cue text as it is spoken: markup removed, the entities `&amp;`,
/// `&quot;` and `&#39;` decoded in that order, and whitespace collapsed.
pub open spec fn spoken_text(s: Seq<char>) -> Seq<char> {
    collapse_whitespace(
        replace_all(
            replace_all(
                replace_all(strip_markup_from(s, 0, 0, 0), amp_entity(), seq!['&']),
                quot_entity(),
                seq!['"'],
            ),
            apos_entity(),
            seq!['\''],
        ),
    )
}

/// Lines joined with single spaces.
pub open spec fn join_space(ls: Seq<Seq<char>>) -> Seq<char>
    decreases ls.len(),
{
    if ls.len() == 0 {
        seq![]
    } else if ls.len() == 1 {
        ls[0]
    } else {
        join_space(ls.drop_last()) + seq![' '] + ls.last()
    }
}

/// The spoken form of `v`.
fn normalize_spoken_text(v: &Vec<char>) -> (r: Vec<char>)
    ensures
        r@ == spoken_text(v@),
{
    let mut stripped: Vec<char> = Vec::new();
    let mut angle: usize = 0;
    let mut brace: usize = 0;
    let mut k: usize = 0;
    while k < v.len()
        invariant
            0 <= k <= v.len(),
            angle <= k,
            brace <= k,
            stripped@ + strip_markup_from(v@, k as int, angle as nat, brace as nat)
                == strip_markup_from(v@, 0, 0, 0),
        decreases v.len() - k,
    {
        let c = v[k];
        if c == '<' {
            angle = angle + 1;
        } else if c == '>' && angle > 0 {
            angle = angle - 1;
        } else if c == '{' && angle == 0 {
            brace = brace + 1;
        } else if c == '}' && brace > 0 {
            brace = brace - 1;
        } else if angle == 0 && brace == 0 {
            assert(stripped@.push(c) + strip_markup_from(v@, k + 1, 0, 0) =~= stripped@ + (seq![c]
                + strip_markup_from(v@, k + 1, 0, 0)));
            stripped.push(c);
        }
        k = k + 1;
    }
    assert(stripped@ + strip_markup_from(v@, k as int, angle as nat, brace as nat) =~= stripped@);
    let amp = vec!['&', 'a', 'm', 'p', ';'];
    let quot = vec!['&', 'q', 'u', 'o', 't', ';'];
    let apos = vec!['&', '#', '3', '9', ';'];
    assert(amp@ =~= amp_entity());
    assert(quot@ =~= quot_entity());
    assert(apos@ =~= apos_entity());
    let amp_rep = vec!['&'];
    let quot_rep = vec!['"'];
    let apos_rep = vec!['\''];
    assert(amp_rep@ =~= seq!['&']);
    assert(quot_rep@ =~= seq!['"']);
    assert(apos_rep@ =~= seq!['\'']);
    let r1 = replace_range(&stripped, 0, stripped.len(), &amp, &amp_rep);
    assert(stripped@.subrange(0, stripped@.len() as int) =~= stripped@);
    let r2 = replace_range(&r1, 0, r1.len(), &quot, &quot_rep);
    assert(r1@.subrange(0, r1@.len() as int) =~= r1@);
    let r3 = replace_range(&r2, 0, r2.len(), &apos, &apos_rep);
    assert(r2@.subrange(0, r2@.len() as int) =~= r2@);
    let r = collapse_range(&r3, 0, r3.len());
    assert(r3@.subrange(0, r3@.len() as int) =~= r3@);
    r
}


pub open spec fn newline() -> Seq<char> {
    seq!['\n']
}

pub open spec fn arrow() -> Seq<char> {
    seq!['-', '-', '>']
}

/// The lines that are not blank, in order.
pub open spec fn nonblank(ls: Seq<Seq<char>>) -> Seq<Seq<char>>
    decreases ls.len(),
{
    if ls.len() == 0 {
        seq![]
    } else if is_blank(ls.last()) {
        nonblank(ls.drop_last())
    } else {
        nonblank(ls.drop_last()).push(ls.last())
    }
}

/// The non-blank lines of a block.
pub open spec fn block_lines(block: Seq<char>) -> Seq<Seq<char>> {
    nonblank(split_by(block, newline()))
}

/// The first line at or after `i` that holds `-->`.
pub open spec fn first_timing_from(ls: Seq<Seq<char>>, i: int) -> Option<int>
    decreases ls.len() - i,
{
    if i < 0 || i >= ls.len() {
        None
    } else if contains(ls[i], arrow()) {
        Some(i)
    } else {
        first_timing_from(ls, i + 1)
    }
}

/// What one block of an SRT document contributes.
pub enum BlockOutcome {
    /// Nothing: the block is blank or has no speakable text.
    Skip,
    /// The document is rejected.
    Fail(SubtitleErrorView),
    /// One cue.
    Keep(SegmentView),
}

/// The outcome of block number `number` (from one) when `kept` cues have
/// been read before it. The timing line is the first line with `-->`; the
/// line before it, if any, is the cue id, else the id is the cue's
/// position; the lines after it are the text.
#[verifier::opaque]
pub open spec fn block_outcome(block: Seq<char>, number: nat, kept: nat) -> BlockOutcome {
    let lines = block_lines(block);
    if lines.len() == 0 {
        BlockOutcome::Skip
    } else {
        match first_timing_from(lines, 0) {
            None => BlockOutcome::Fail(SubtitleErrorView::MissingTiming { block: number }),
            Some(t) => {
                let timing = lines[t];
                match find(timing, arrow()) {
                    None => BlockOutcome::Skip,
                    Some(k) => {
                        let start_text = trim(timing.subrange(0, k));
                        let end_text = first_word(timing.subrange(k + 3, timing.len() as int));
                        match timestamp_value(start_text) {
                            None => BlockOutcome::Fail(
                                SubtitleErrorView::InvalidTimestamp { value: start_text },
                            ),
                            Some(st) => match timestamp_value(end_text) {
                                None => BlockOutcome::Fail(
                                    SubtitleErrorView::InvalidTimestamp { value: end_text },
                                ),
                                Some(en) => {
                                    if en <= st {
                                        BlockOutcome::Fail(
                                            SubtitleErrorView::ReversedInterval { block: number },
                                        )
                                    } else {
                                        let id = if t > 0 {
                                            trim(lines[t - 1])
                                        } else {
                                            decimal(kept + 1)
                                        };
                                        let text = spoken_text(
                                            join_space(lines.subrange(t + 1, lines.len() as int)),
                                        );
                                        if text.len() == 0 {
                                            BlockOutcome::Skip
                                        } else {
                                            BlockOutcome::Keep(
                                                SegmentView {
                                                    id,
                                                    start_ms: st as u64,
                                                    end_ms: en as u64,
                                                    text,
                                                },
                                            )
                                        }
                                    }
                                },
                            },
                        }
                    },
                }
            },
        }
    }
}

/// What a block yields at run time.
pub enum BlockStep {
    Skip,
    Fail(SubtitleError),
    Keep(SubtitleSegment),
}

pub open spec fn step_matches(step: BlockStep, outcome: BlockOutcome) -> bool {
    match (step, outcome) {
        (BlockStep::Skip, BlockOutcome::Skip) => true,
        (BlockStep::Fail(e), BlockOutcome::Fail(ev)) => e@ == ev,
        (BlockStep::Keep(seg), BlockOutcome::Keep(sv)) => seg@ == sv,
        _ => false,
    }
}

/// Reads the block `n[lo..hi]`.
#[verifier::loop_isolation(false)]
fn read_block(n: &Vec<char>, lo: usize, hi: usize, number: usize, kept: usize) -> (r: BlockStep)
    requires
        lo <= hi <= n.len(),
        kept < usize::MAX,
    ensures
        step_matches(r, block_outcome(n@.subrange(lo as int, hi as int), number as nat, kept as nat)),
{
    reveal(block_outcome);
    let ghost block = n@.subrange(lo as int, hi as int);
    let ghost pieces = split_by(block, newline());
    let lf = vec!['\n'];
    assert(lf@ =~= newline());
    let line_ranges = split_ranges(n, lo, hi, &lf);
    let mut lines: Vec<(usize, usize)> = Vec::new();
    let mut li: usize = 0;
    while li < line_ranges.len()
        invariant
            0 <= li <= line_ranges.len(),
            line_ranges@.len() == pieces.len(),
            lines@.map_values(|p: (usize, usize)| n@.subrange(p.0 as int, p.1 as int)) == nonblank(
                pieces.take(li as int),
            ),
            forall|k: int| 0 <= k < lines@.len() ==> lo <= (#[trigger] lines@[k]).0 <= lines@[k].1 <= hi,
        decreases line_ranges.len() - li,
    {
        let (la, lb) = line_ranges[li];
        let (ta, tb) = trim_range(n, la, lb);
        proof {
            assert(pieces.take(li + 1).drop_last() =~= pieces.take(li as int));
            assert(pieces.take(li + 1).last() == n@.subrange(la as int, lb as int));
        }
        if ta < tb {
            proof {
                assert(lines@.push((la, lb)).map_values(
                    |p: (usize, usize)| n@.subrange(p.0 as int, p.1 as int),
                ) =~= lines@.map_values(|p: (usize, usize)| n@.subrange(p.0 as int, p.1 as int)).push(
                    n@.subrange(la as int, lb as int),
                ));
            }
            lines.push((la, lb));
        }
        li = li + 1;
    }
    assert(pieces.take(pieces.len() as int) =~= pieces);
    let ghost ls = block_lines(block);
    assert(ls == lines@.map_values(|p: (usize, usize)| n@.subrange(p.0 as int, p.1 as int)));
    if lines.len() == 0 {
        return BlockStep::Skip;
    }
    let arrow_v = vec!['-', '-', '>'];
    assert(arrow_v@ =~= arrow());
    let mut t: usize = 0;
    let mut found: Option<usize> = None;
    while t < lines.len() && found.is_none()
        invariant
            0 <= t <= lines.len(),
            found is None ==> first_timing_from(ls, 0) == first_timing_from(ls, t as int),
            found matches Some(k) ==> first_timing_from(ls, 0) == Some(t as int) && t < lines.len()
                && find(ls[t as int], arrow()) == Some(k - lines@[t as int].0),
        decreases lines.len() - t + (if found is None { 1int } else { 0int }),
    {
        let (la, lb) = lines[t];
        assert(ls[t as int] == n@.subrange(la as int, lb as int));
        match find_exec(n, &arrow_v, la, lb) {
            Some(k) => {
                found = Some(k);
            },
            None => {
                t = t + 1;
            },
        }
    }
    let k = match found {
        Some(k) => k,
        None => {
            return BlockStep::Fail(SubtitleError::MissingTiming { block: number });
        },
    };
    let (la, lb) = lines[t];
    let ghost timing = ls[t as int];
    proof {
        assert(timing == n@.subrange(la as int, lb as int));
        lemma_find_from_bounds(timing, arrow(), 0);
        assert(timing.subrange(0, k - la) =~= n@.subrange(la as int, k as int));
        assert(timing.subrange(k - la + 3, timing.len() as int) =~= n@.subrange(k + 3, lb as int));
    }
    let (sa, sb) = trim_range(n, la, k);
    let start = match parse_timestamp_range(n, sa, sb) {
        Some(x) => x,
        None => {
            let value = string_of(&copy_range(n, sa, sb));
            return BlockStep::Fail(SubtitleError::InvalidTimestamp { value });
        },
    };
    let (ea, eb) = first_word_range(n, k + 3, lb);
    let end = match parse_timestamp_range(n, ea, eb) {
        Some(x) => x,
        None => {
            let value = string_of(&copy_range(n, ea, eb));
            return BlockStep::Fail(SubtitleError::InvalidTimestamp { value });
        },
    };
    if end <= start {
        return BlockStep::Fail(SubtitleError::ReversedInterval { block: number });
    }
    let id = if t > 0 {
        let (pa, pb) = lines[t - 1];
        assert(ls[t - 1] == n@.subrange(pa as int, pb as int));
        let (ia, ib) = trim_range(n, pa, pb);
        string_of(&copy_range(n, ia, ib))
    } else {
        let mut digits: Vec<char> = Vec::new();
        push_decimal(&mut digits, (kept + 1) as u64);
        assert(digits@ =~= decimal((kept + 1) as nat));
        string_of(&digits)
    };
    let ghost rest = ls.subrange(t + 1, ls.len() as int);
    let mut joined: Vec<char> = Vec::new();
    let mut q = t + 1;
    while q < lines.len()
        invariant
            t + 1 <= q <= lines.len(),
            joined@ == join_space(ls.subrange(t + 1, q as int)),
        decreases lines.len() - q,
    {
        let (qa, qb) = lines[q];
        assert(ls[q as int] == n@.subrange(qa as int, qb as int));
        let ghost before = joined@;
        if q > t + 1 {
            joined.push(' ');
        }
        let mut c = qa;
        let ghost mid = joined@;
        while c < qb
            invariant
                qa <= c <= qb <= n.len(),
                joined@ == mid + n@.subrange(qa as int, c as int),
            decreases qb - c,
        {
            joined.push(n[c]);
            assert(n@.subrange(qa as int, c + 1) =~= n@.subrange(qa as int, c as int).push(
                n@[c as int],
            ));
            c = c + 1;
        }
        proof {
            let upto = ls.subrange(t + 1, q + 1);
            assert(upto.drop_last() =~= ls.subrange(t + 1, q as int));
            assert(upto.last() == ls[q as int]);
            if q == t + 1 {
                assert(ls.subrange(t + 1, q as int) =~= Seq::<Seq<char>>::empty());
                assert(joined@ =~= ls[q as int]);
            } else {
                assert(joined@ =~= before + seq![' '] + ls[q as int]);
            }
        }
        q = q + 1;
    }
    let text_chars = normalize_spoken_text(&joined);
    if text_chars.len() == 0 {
        return BlockStep::Skip;
    }
    let text = string_of(&text_chars);
    BlockStep::Keep(SubtitleSegment { id, start_ms: start, end_ms: end, text })
}


/// `s` without its leading byte-order marks.
pub open spec fn strip_boms(s: Seq<char>) -> Seq<char>
    decreases s.len(),
{
    if s.len() > 0 && s[0] == '\u{feff}' {
        strip_boms(s.drop_first())
    } else {
        s
    }
}

/// The document with byte-order marks removed and every line ending turned
/// into `\n`.
pub open spec fn normalized_document(input: Seq<char>) -> Seq<char> {
    replace_all(replace_all(strip_boms(input), seq!['\r', '\n'], seq!['\n']), seq!['\r'], seq!['\n'])
}

/// The blocks of a document: the pieces between blank-line separators.
pub open spec fn document_blocks(input: Seq<char>) -> Seq<Seq<char>> {
    split_by(normalized_document(input), seq!['\n', '\n'])
}

/// Reads the blocks from `k` on, after the cues `acc`; the first failing
/// block decides the error.
pub open spec fn read_blocks(blocks: Seq<Seq<char>>, k: int, acc: Seq<SegmentView>) -> Result<
    Seq<SegmentView>,
    SubtitleErrorView,
>
    decreases blocks.len() - k,
{
    if k < 0 || k >= blocks.len() {
        Ok(acc)
    } else {
        match block_outcome(blocks[k], (k + 1) as nat, acc.len()) {
            BlockOutcome::Skip => read_blocks(blocks, k + 1, acc),
            BlockOutcome::Fail(e) => Err(e),
            BlockOutcome::Keep(seg) => read_blocks(blocks, k + 1, acc.push(seg)),
        }
    }
}

/// What an SRT document reads as: its cues in order, or the first error;
/// a document with text but no cue is rejected as empty.
pub open spec fn srt_cues(input: Seq<char>) -> Result<Seq<SegmentView>, SubtitleErrorView> {
    match read_blocks(document_blocks(input), 0, seq![]) {
        Err(e) => Err(e),
        Ok(cues) => if cues.len() == 0 && !is_blank(normalized_document(input)) {
            Err(SubtitleErrorView::EmptyBlock)
        } else {
            Ok(cues)
        },
    }
}

/// Parses an SRT document into cues whose text is in spoken form.
pub fn parse_srt(input: &str) -> (r: Result<Vec<SubtitleSegment>, SubtitleError>)
    ensures
        match r {
            Ok(segs) => srt_cues(input@) == Ok::<Seq<SegmentView>, SubtitleErrorView>(
                segs@.map_values(|s: SubtitleSegment| s@),
            ),
            Err(e) => srt_cues(input@) == Err::<Seq<SegmentView>, SubtitleErrorView>(e@),
        },
{
    let chars = chars_of(input);
    let mut a: usize = 0;
    assert(chars@.subrange(0, chars@.len() as int) =~= chars@);
    while a < chars.len() && chars[a] == '\u{feff}'
        invariant
            0 <= a <= chars.len(),
            strip_boms(chars@) == strip_boms(chars@.subrange(a as int, chars@.len() as int)),
        decreases chars.len() - a,
    {
        assert(chars@.subrange(a as int, chars@.len() as int).drop_first() =~= chars@.subrange(
            a + 1,
            chars@.len() as int,
        ));
        a = a + 1;
    }
    assert(strip_boms(chars@.subrange(a as int, chars@.len() as int)) == chars@.subrange(
        a as int,
        chars@.len() as int,
    ));
    let crlf = vec!['\r', '\n'];
    let cr = vec!['\r'];
    let lf = vec!['\n'];
    let lflf = vec!['\n', '\n'];
    assert(crlf@ =~= seq!['\r', '\n']);
    assert(cr@ =~= seq!['\r']);
    assert(lf@ =~= seq!['\n']);
    assert(lflf@ =~= seq!['\n', '\n']);
    let n1 = replace_range(&chars, a, chars.len(), &crlf, &lf);
    let n = replace_range(&n1, 0, n1.len(), &cr, &lf);
    assert(n1@.subrange(0, n1@.len() as int) =~= n1@);
    let ghost doc = normalized_document(input@);
    assert(n@ == doc);
    let blocks = split_ranges(&n, 0, n.len(), &lflf);
    assert(n@.subrange(0, n@.len() as int) =~= n@);
    let ghost bs = document_blocks(input@);
    let mut segments: Vec<SubtitleSegment> = Vec::new();
    let mut bi: usize = 0;
    assert(segments@.map_values(|s: SubtitleSegment| s@) =~= Seq::<SegmentView>::empty());
    while bi < blocks.len()
        invariant
            0 <= bi <= blocks.len(),
            blocks@.len() == bs.len(),
            n@ == doc,
            doc == normalized_document(input@),
            bs == document_blocks(input@),
            bs == split_by(n@, seq!['\n', '\n']),
            segments@.len() <= bi,
            forall|k: int|
                0 <= k < blocks@.len() ==> 0 <= (#[trigger] blocks@[k]).0 <= blocks@[k].1 <= n@.len()
                    && n@.subrange(blocks@[k].0 as int, blocks@[k].1 as int) == bs[k],
            read_blocks(bs, 0, seq![]) == read_blocks(
                bs,
                bi as int,
                segments@.map_values(|s: SubtitleSegment| s@),
            ),
        decreases blocks.len() - bi,
    {
        let (ba, bb) = blocks[bi];
        let ghost acc = segments@.map_values(|s: SubtitleSegment| s@);
        assert(n@.subrange(ba as int, bb as int) == bs[bi as int]);
        assert(acc.len() == segments.len());
        match read_block(&n, ba, bb, bi + 1, segments.len()) {
            BlockStep::Skip => {},
            BlockStep::Fail(e) => {
                proof {
                    let o = block_outcome(bs[bi as int], (bi + 1) as nat, acc.len());
                    assert(o is Fail);
                    assert(read_blocks(bs, bi as int, acc) == Err::<Seq<SegmentView>, SubtitleErrorView>(
                        o->Fail_0,
                    ));
                }
                return Err(e);
            },
            BlockStep::Keep(seg) => {
                proof {
                    assert(segments@.push(seg).map_values(|s: SubtitleSegment| s@) =~= acc.push(
                        seg@,
                    ));
                }
                segments.push(seg);
            },
        }
        bi = bi + 1;
    }
    if segments.len() == 0 {
        let (ta, tb) = trim_range(&n, 0, n.len());
        if ta < tb {
            return Err(SubtitleError::EmptyBlock);
        }
    }
    Ok(segments)
}


/// `HH:MM:SS,mmm`; hours keep all their digits beyond two.
pub open spec fn timestamp_text(v: nat) -> Seq<char> {
    let millis = v % 1000;
    let total_seconds = v / 1000;
    let seconds = total_seconds % 60;
    let total_minutes = total_seconds / 60;
    let minutes = total_minutes % 60;
    let hours = total_minutes / 60;
    zero_padded(hours, 2) + seq![':'] + zero_padded(minutes, 2) + seq![':'] + zero_padded(
        seconds,
        2,
    ) + seq![','] + zero_padded(millis, 3)
}

pub open spec fn arrow_separator() -> Seq<char> {
    seq![' ', '-', '-', '>', ' ']
}

/// The SRT block of the cue at `position` (from zero): its number, the
/// timing line and the text, followed by a blank line.
pub open spec fn srt_block(position: nat, seg: SegmentView) -> Seq<char> {
    decimal(position + 1) + seq!['\n'] + timestamp_text(seg.start_ms as nat) + arrow_separator()
        + timestamp_text(seg.end_ms as nat) + seq!['\n'] + seg.text + seq!['\n', '\n']
}

/// The SRT document of a list of cues: their blocks in order.
pub open spec fn srt_document(segs: Seq<SegmentView>) -> Seq<char>
    decreases segs.len(),
{
    if segs.len() == 0 {
        seq![]
    } else {
        srt_document(segs.drop_last()) + srt_block((segs.len() - 1) as nat, segs.last())
    }
}

/// Appends `HH:MM:SS,mmm`.
/// Reads a timestamp `H:MM:SS,mmm` (or with `.`) as milliseconds.
pub fn parse_timestamp(value: &str) -> (r: Result<u64, SubtitleError>)
    ensures
        match r {
            Ok(t) => timestamp_value(value@) == Some(t as nat),
            Err(e) => timestamp_value(value@) is None && e@ == SubtitleErrorView::InvalidTimestamp {
                value: value@,
            },
        },
{
    let cs = chars_of(value);
    assert(cs@.subrange(0, cs@.len() as int) =~= cs@);
    match parse_timestamp_range(&cs, 0, cs.len()) {
        Some(t) => Ok(t),
        None => Err(SubtitleError::InvalidTimestamp { value: String::from_str(value) }),
    }
}

/// Writes milliseconds as `HH:MM:SS,mmm`.
pub fn format_timestamp(value_ms: u64) -> (s: String)
    ensures
        s@ == timestamp_text(value_ms as nat),
{
    let mut out: Vec<char> = Vec::new();
    push_timestamp(&mut out, value_ms);
    assert(out@ =~= timestamp_text(value_ms as nat));
    string_of(&out)
}

fn push_timestamp(out: &mut Vec<char>, value_ms: u64)
    ensures
        final(out)@ == old(out)@ + timestamp_text(value_ms as nat),
{
    let millis = value_ms % 1000;
    let total_seconds = value_ms / 1000;
    let seconds = total_seconds % 60;
    let total_minutes = total_seconds / 60;
    let minutes = total_minutes % 60;
    let hours = total_minutes / 60;
    let ghost start = out@;
    push_zero_padded(out, hours, 2);
    out.push(':');
    push_zero_padded(out, minutes, 2);
    out.push(':');
    push_zero_padded(out, seconds, 2);
    out.push(',');
    push_zero_padded(out, millis, 3);
    assert(out@ =~= start + timestamp_text(value_ms as nat));
}

/// Appends the characters of `s`.
fn push_str(out: &mut Vec<char>, s: &str)
    ensures
        final(out)@ == old(out)@ + s@,
{
    let cs = chars_of(s);
    let ghost start = out@;
    let mut k: usize = 0;
    while k < cs.len()
        invariant
            0 <= k <= cs.len(),
            out@ == start + cs@.subrange(0, k as int),
        decreases cs.len() - k,
    {
        out.push(cs[k]);
        assert(cs@.subrange(0, k + 1) =~= cs@.subrange(0, k as int).push(cs@[k as int]));
        k = k + 1;
    }
    assert(cs@.subrange(0, cs.len() as int) =~= cs@);
}

/// Appends the SRT block of `segment` at `position`.
fn push_block(doc: &mut Vec<char>, position: usize, segment: &SubtitleSegment)
    requires
        position < usize::MAX,
    ensures
        final(doc)@ == old(doc)@ + srt_block(position as nat, segment@),
{
    let ghost before = doc@;
    let ghost p1 = decimal((position + 1) as nat) + seq!['\n'];
    let ghost p2 = p1 + timestamp_text(segment.start_ms as nat);
    let ghost p3 = p2 + arrow_separator();
    let ghost p4 = p3 + timestamp_text(segment.end_ms as nat);
    let ghost p5 = p4 + seq!['\n'];
    let ghost p6 = p5 + segment.text@;
    let ghost p7 = p6 + seq!['\n', '\n'];
    push_decimal(doc, (position + 1) as u64);
    doc.push('\n');
    assert(doc@ =~= before + p1);
    push_timestamp(doc, segment.start_ms);
    assert(doc@ =~= before + p2);
    doc.push(' ');
    doc.push('-');
    doc.push('-');
    doc.push('>');
    doc.push(' ');
    assert(doc@ =~= before + p3);
    push_timestamp(doc, segment.end_ms);
    assert(doc@ =~= before + p4);
    doc.push('\n');
    assert(doc@ =~= before + p5);
    push_str(doc, segment.text.as_str());
    assert(doc@ =~= before + p6);
    doc.push('\n');
    doc.push('\n');
    assert(doc@ =~= before + p7);
}

/// Serialises cues as a standard SRT document, numbering them from one.
pub fn write_srt(segments: &[SubtitleSegment]) -> (out: String)
    ensures
        out@ == srt_document(segments@.map_values(|s: SubtitleSegment| s@)),
{
    let mut doc: Vec<char> = Vec::new();
    let mut position: usize = 0;
    while position < segments.len()
        invariant
            0 <= position <= segments@.len(),
            doc@ == srt_document(
                segments@.subrange(0, position as int).map_values(|s: SubtitleSegment| s@),
            ),
        decreases segments@.len() - position,
    {
        let ghost before = doc@;
        push_block(&mut doc, position, &segments[position]);
        proof {
            let upto = segments@.subrange(0, position + 1).map_values(|s: SubtitleSegment| s@);
            assert(upto.drop_last() =~= segments@.subrange(0, position as int).map_values(
                |s: SubtitleSegment| s@,
            ));
            assert(upto.last() == segments@[position as int]@);
        }
        position = position + 1;
    }
    assert(segments@.subrange(0, segments@.len() as int) =~= segments@);
    string_of(&doc)
}

impl SubtitleError {
    /// The human-readable description of the error.
    pub fn message(&self) -> (m: String)
        ensures
            m@ == match self@ {
                SubtitleErrorView::EmptyBlock => "пустой блок субтитров"@,
                SubtitleErrorView::MissingTiming { block } => "в блоке "@ + decimal(block)
                    + " отсутствует строка времени"@,
                SubtitleErrorView::InvalidTimestamp { value } => "неверная временная метка «"@
                    + value + "»"@,
                SubtitleErrorView::ReversedInterval { block } => "неверный интервал в блоке "@
                    + decimal(block) + ": конец не позже начала"@,
            },
    {
        match self {
            SubtitleError::EmptyBlock => String::from_str("пустой блок субтитров"),
            SubtitleError::MissingTiming { block } => {
                let mut m = String::from_str("в блоке ");
                let mut digits: Vec<char> = Vec::new();
                push_decimal(&mut digits, *block as u64);
                let d = string_of(&digits);
                m.append(d.as_str());
                m.append(" отсутствует строка времени");
                m
            },
            SubtitleError::InvalidTimestamp { value } => {
                let mut m = String::from_str("неверная временная метка «");
                m.append(value.as_str());
                m.append("»");
                m
            },
            SubtitleError::ReversedInterval { block } => {
                let mut m = String::from_str("неверный интервал в блоке ");
                let mut digits: Vec<char> = Vec::new();
                push_decimal(&mut digits, *block as u64);
                let d = string_of(&digits);
                m.append(d.as_str());
                m.append(": конец не позже начала");
                m
            },
        }
    }
}

} // verus!
