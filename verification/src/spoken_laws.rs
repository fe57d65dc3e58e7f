//! What the spoken form of a cue is free of: the `&#39;` and `&quot;`
//! entities never survive into a parsed cue's text.

use vstd::prelude::*;

use crate::subtitles::{
    apos_entity, block_lines, block_outcome, first_timing_from, join_space, quot_entity,
    read_blocks, spoken_text, srt_cues, document_blocks, BlockOutcome, SegmentView,
};
use crate::text::{
    collapse_whitespace, find, first_white_from, is_white, lemma_find_from_bounds,
    lemma_first_white_from, lemma_trim_shape, matches_at, replace_all, trim,
};

verus! {

/// `pat` occurs nowhere in `s`.
pub open spec fn free_of(s: Seq<char>, pat: Seq<char>) -> bool {
    forall|k: int| !#[trigger] matches_at(s, pat, k)
}

/// A cue text that holds neither `&#39;` nor `&quot;`.
pub open spec fn entity_free(t: Seq<char>) -> bool {
    free_of(t, apos_entity()) && free_of(t, quot_entity())
}

proof fn lemma_subrange_free(s: Seq<char>, pat: Seq<char>, a: int, b: int)
    requires
        0 <= a <= b <= s.len(),
        free_of(s, pat),
    ensures
        free_of(s.subrange(a, b), pat),
{
    assert forall|k: int| !matches_at(s.subrange(a, b), pat, k) by {
        if matches_at(s.subrange(a, b), pat, k) {
            assert(s.subrange(a, b).subrange(k, k + pat.len()) =~= s.subrange(
                a + k,
                a + k + pat.len(),
            ));
            assert(matches_at(s, pat, a + k));
        }
    }
}

/// An occurrence of `pat` in `x + seq![c] + y` either lies in `x`, lies in
/// `y`, or covers the character `c`.
proof fn lemma_occurrence_split(x: Seq<char>, c: char, y: Seq<char>, pat: Seq<char>, k: int)
    requires
        pat.len() > 0,
        matches_at(x + seq![c] + y, pat, k),
    ensures
        k + pat.len() <= x.len() ==> matches_at(x, pat, k),
        k > x.len() ==> matches_at(y, pat, k - x.len() - 1),
        k <= x.len() < k + pat.len() ==> pat[x.len() - k] == c,
{
    let out = x + seq![c] + y;
    let e = k + pat.len();
    if e <= x.len() {
        assert(out.subrange(k, e) =~= x.subrange(k, e));
    } else if k > x.len() {
        assert(out.subrange(k, e) =~= y.subrange(k - x.len() - 1, e - x.len() - 1));
    } else {
        assert(out.subrange(k, e)[x.len() - k] == out[x.len() as int]);
    }
}

/// Replacing every occurrence of `pat` by a character that `pat` does not
/// hold leaves no occurrence of `pat`.
proof fn lemma_replace_all_removes(s: Seq<char>, pat: Seq<char>, c: char)
    requires
        pat.len() > 0,
        forall|j: int| 0 <= j < pat.len() ==> pat[j] != c,
    ensures
        free_of(replace_all(s, pat, seq![c]), pat),
    decreases s.len(),
{
    lemma_find_from_bounds(s, pat, 0);
    match find(s, pat) {
        None => {},
        Some(i) => {
            let rest = s.subrange(i + pat.len(), s.len() as int);
            lemma_replace_all_removes(rest, pat, c);
            let x = s.subrange(0, i);
            let r = replace_all(rest, pat, seq![c]);
            assert(replace_all(s, pat, seq![c]) == x + seq![c] + r);
            assert forall|k: int| !matches_at(x + seq![c] + r, pat, k) by {
                if matches_at(x + seq![c] + r, pat, k) {
                    lemma_occurrence_split(x, c, r, pat, k);
                    if k + pat.len() <= x.len() {
                        assert(x.subrange(k, k + pat.len()) =~= s.subrange(k, k + pat.len()));
                        assert(matches_at(s, pat, k));
                    }
                }
            }
        },
    }
}

/// Replacing occurrences of some pattern by a character that `pat` does not
/// hold creates no occurrence of `pat`.
proof fn lemma_replace_all_keeps_free(s: Seq<char>, other: Seq<char>, c: char, pat: Seq<char>)
    requires
        pat.len() > 0,
        forall|j: int| 0 <= j < pat.len() ==> pat[j] != c,
        free_of(s, pat),
    ensures
        free_of(replace_all(s, other, seq![c]), pat),
    decreases s.len(),
{
    if other.len() > 0 {
        lemma_find_from_bounds(s, other, 0);
        match find(s, other) {
            None => {},
            Some(i) => {
                let rest = s.subrange(i + other.len(), s.len() as int);
                lemma_subrange_free(s, pat, i + other.len(), s.len() as int);
                lemma_replace_all_keeps_free(rest, other, c, pat);
                let x = s.subrange(0, i);
                lemma_subrange_free(s, pat, 0, i);
                let r = replace_all(rest, other, seq![c]);
                assert(replace_all(s, other, seq![c]) == x + seq![c] + r);
                assert forall|k: int| !matches_at(x + seq![c] + r, pat, k) by {
                    if matches_at(x + seq![c] + r, pat, k) {
                        lemma_occurrence_split(x, c, r, pat, k);
                    }
                }
            },
        }
    }
}

/// Collapsing whitespace creates no occurrence of a pattern without
/// whitespace.
proof fn lemma_collapse_keeps_free(s: Seq<char>, pat: Seq<char>)
    requires
        pat.len() > 0,
        forall|j: int| 0 <= j < pat.len() ==> !is_white(pat[j]),
        free_of(s, pat),
    ensures
        free_of(collapse_whitespace(s), pat),
    decreases s.len(),
{
    let ab = lemma_trim_shape(s);
    let t = trim(s);
    lemma_subrange_free(s, pat, ab.0, ab.1);
    lemma_first_white_from(t, 0);
    match first_white_from(t, 0) {
        None => {},
        Some(i) => {
            assert(t[0] == s[ab.0]);
            assert(i > 0);
            let rest = t.subrange(i, t.len() as int);
            lemma_subrange_free(t, pat, i, t.len() as int);
            lemma_collapse_keeps_free(rest, pat);
            let x = t.subrange(0, i);
            lemma_subrange_free(t, pat, 0, i);
            let r = collapse_whitespace(rest);
            assert(collapse_whitespace(s) == x + seq![' '] + r);
            assert(is_white(' '));
            assert forall|k: int| !matches_at(x + seq![' '] + r, pat, k) by {
                if matches_at(x + seq![' '] + r, pat, k) {
                    lemma_occurrence_split(x, ' ', r, pat, k);
                }
            }
        },
    }
}

/// The spoken form of any text holds neither the `&#39;` nor the `&quot;`
/// entity: every one left after markup removal is decoded, and neither the
/// later decoding nor the whitespace collapse creates a new one.
pub proof fn lemma_spoken_text_has_no_entities(s: Seq<char>)
    ensures
        free_of(spoken_text(s), apos_entity()),
        free_of(spoken_text(s), quot_entity()),
{
    let apos = apos_entity();
    let quot = quot_entity();
    let decoded_amp = replace_all(
        crate::subtitles::strip_markup_from(s, 0, 0, 0),
        crate::subtitles::amp_entity(),
        seq!['&'],
    );
    let decoded_quot = replace_all(decoded_amp, quot, seq!['"']);
    let decoded = replace_all(decoded_quot, apos, seq!['\'']);
    lemma_replace_all_removes(decoded_quot, apos, '\'');
    lemma_replace_all_removes(decoded_amp, quot, '"');
    lemma_replace_all_keeps_free(decoded_quot, apos, '\'', quot);
    assert forall|j: int| 0 <= j < apos.len() implies !is_white(apos[j]) by {}
    assert forall|j: int| 0 <= j < quot.len() implies !is_white(quot[j]) by {}
    lemma_collapse_keeps_free(decoded, apos);
    lemma_collapse_keeps_free(decoded, quot);
}

proof fn lemma_kept_cue_is_entity_free(block: Seq<char>, number: nat, kept: nat)
    ensures
        block_outcome(block, number, kept) matches BlockOutcome::Keep(seg) ==> entity_free(
            seg.text,
        ),
{
    reveal(block_outcome);
    let lines = block_lines(block);
    if lines.len() > 0 {
        if let Some(t) = first_timing_from(lines, 0) {
            lemma_spoken_text_has_no_entities(join_space(lines.subrange(t + 1, lines.len() as int)));
        }
    }
}

proof fn lemma_read_blocks_entity_free(blocks: Seq<Seq<char>>, k: int, acc: Seq<SegmentView>)
    requires
        forall|j: int| 0 <= j < acc.len() ==> entity_free(#[trigger] acc[j].text),
    ensures
        read_blocks(blocks, k, acc) matches Ok(cues) ==> forall|j: int|
            0 <= j < cues.len() ==> entity_free(#[trigger] cues[j].text),
    decreases blocks.len() - k,
{
    if 0 <= k < blocks.len() {
        lemma_kept_cue_is_entity_free(blocks[k], (k + 1) as nat, acc.len());
        match block_outcome(blocks[k], (k + 1) as nat, acc.len()) {
            BlockOutcome::Skip => lemma_read_blocks_entity_free(blocks, k + 1, acc),
            BlockOutcome::Fail(_) => {},
            BlockOutcome::Keep(seg) => {
                let next = acc.push(seg);
                assert forall|j: int| 0 <= j < next.len() implies entity_free(
                    #[trigger] next[j].text,
                ) by {
                    if j < acc.len() {
                        assert(next[j] == acc[j]);
                    }
                }
                lemma_read_blocks_entity_free(blocks, k + 1, next);
            },
        }
    }
}

/// Every cue that an SRT document reads as has its `&#39;` and `&quot;`
/// entities decoded: its text holds neither of them.
pub proof fn lemma_parsed_cues_have_no_entities(input: Seq<char>)
    ensures
        srt_cues(input) matches Ok(cues) ==> forall|j: int|
            0 <= j < cues.len() ==> entity_free(#[trigger] cues[j].text),
{
    lemma_read_blocks_entity_free(document_blocks(input), 0, seq![]);
}

} // verus!
