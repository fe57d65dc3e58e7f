//! What writing cues as SRT and reading them back preserves.

use vstd::prelude::*;

use crate::subtitles::{
    amp_entity, apos_entity, arrow, arrow_separator, block_lines, block_outcome, first_timing_from,
    join_space, millis_value, newline, nonblank, quot_entity, spoken_text, strip_markup_from,
    timestamp_text, timestamp_value, u64_max, BlockOutcome, SegmentView,
    document_blocks, normalized_document, read_blocks, srt_block, srt_cues, srt_document, strip_boms,
    SubtitleErrorView,
};
use crate::text::{
    collapse_whitespace, decimal, find, is_blank, first_white_from, is_digit, first_word, is_white, lemma_collapse_shape,
    lemma_decimal_digits, lemma_find_from_is, lemma_first_white_from, lemma_not_blank,
    lemma_trim_end_is, lemma_trim_fixed, lemma_trim_start_is, matches_at, replace_all, trim,
    lemma_decimal_len, lemma_find_absent, lemma_find_single_after,
    lemma_parse_zero_padded, lemma_split_by_first, lemma_zero_padded_digits,
    split_by, zero_padded,
};

verus! {

/// `c` does not occur in `s`.
pub open spec fn lacks(s: Seq<char>, c: char) -> bool {
    forall|i: int| 0 <= i < s.len() ==> s[i] != c
}

/// Every character of `s` is an ASCII digit.
pub open spec fn all_digits(s: Seq<char>) -> bool {
    forall|i: int| 0 <= i < s.len() ==> is_digit(#[trigger] s[i])
}

proof fn lemma_digits_lack(s: Seq<char>, c: char)
    requires
        all_digits(s),
        !is_digit(c),
    ensures
        lacks(s, c),
{
    assert forall|i: int| 0 <= i < s.len() implies s[i] != c by {
        assert(is_digit(s[i]));
    }
}

proof fn lemma_lacks_concat(a: Seq<char>, b: Seq<char>, c: char)
    requires
        lacks(a, c),
        lacks(b, c),
    ensures
        lacks(a + b, c),
{
    assert forall|i: int| 0 <= i < (a + b).len() implies (a + b)[i] != c by {
        if i < a.len() {
            assert((a + b)[i] == a[i]);
        } else {
            assert((a + b)[i] == b[i - a.len()]);
        }
    }
}

proof fn lemma_split_absent(s: Seq<char>, c: char)
    requires
        lacks(s, c),
    ensures
        split_by(s, seq![c]) == seq![s],
{
    lemma_find_absent(s, seq![c]);
}

proof fn lemma_padded_facts(n: nat, w: nat)
    ensures
        all_digits(zero_padded(n, w)),
        zero_padded(n, w).len() >= 1,
        lacks(zero_padded(n, w), ':'),
        lacks(zero_padded(n, w), ','),
        lacks(zero_padded(n, w), '.'),
{
    lemma_zero_padded_digits(n, w);
    lemma_digits_lack(zero_padded(n, w), ':');
    lemma_digits_lack(zero_padded(n, w), ',');
    lemma_digits_lack(zero_padded(n, w), '.');
}

/// A formatted timestamp reads back as the same number of milliseconds.
pub proof fn lemma_timestamp_round_trip(v: u64)
    ensures
        timestamp_value(timestamp_text(v as nat)) == Some(v as nat),
{
    let millis = (v as nat) % 1000;
    let total_seconds = (v as nat) / 1000;
    let seconds = total_seconds % 60;
    let total_minutes = total_seconds / 60;
    let minutes = total_minutes % 60;
    let hours = total_minutes / 60;
    let ph = zero_padded(hours, 2);
    let pm = zero_padded(minutes, 2);
    let ps = zero_padded(seconds, 2);
    let pf = zero_padded(millis, 3);
    lemma_padded_facts(hours, 2);
    lemma_padded_facts(minutes, 2);
    lemma_padded_facts(seconds, 2);
    lemma_padded_facts(millis, 3);
    let tail = pm + seq![':'] + ps;
    let clock = ph + seq![':'] + tail;
    let x = timestamp_text(v as nat);
    assert(x =~= clock + seq![','] + pf);
    // no dots
    assert(crate::subtitles::dots_to_commas(x) =~= x) by {
        assert forall|i: int| 0 <= i < x.len() implies x[i] != '.' by {
            lemma_lacks_concat(ph, seq![':'], '.');
            lemma_lacks_concat(ph + seq![':'], pm, '.');
            lemma_lacks_concat(ph + seq![':'] + pm, seq![':'], '.');
            lemma_lacks_concat(ph + seq![':'] + pm + seq![':'], ps, '.');
            lemma_lacks_concat(ph + seq![':'] + pm + seq![':'] + ps, seq![','], '.');
            lemma_lacks_concat(ph + seq![':'] + pm + seq![':'] + ps + seq![','], pf, '.');
        }
    }
    // the comma
    lemma_lacks_concat(ph, seq![':'], ',');
    lemma_lacks_concat(pm, seq![':'], ',');
    lemma_lacks_concat(pm + seq![':'], ps, ',');
    lemma_lacks_concat(ph + seq![':'], tail, ',');
    lemma_find_single_after(clock, ',', pf);
    assert(x.subrange(0, clock.len() as int) =~= clock);
    assert(x.subrange((clock.len() + 1) as int, x.len() as int) =~= pf);
    // the colons
    lemma_find_single_after(ph, ':', tail);
    lemma_split_by_first(ph, seq![':'], tail);
    lemma_find_single_after(pm, ':', ps);
    lemma_split_by_first(pm, seq![':'], ps);
    lemma_split_absent(ps, ':');
    assert(split_by(clock, seq![':']) =~= seq![ph, pm, ps]);
    // the numbers
    lemma_parse_zero_padded(hours, 2, u64_max());
    lemma_parse_zero_padded(minutes, 2, u64_max());
    lemma_parse_zero_padded(seconds, 2, u64_max());
    lemma_parse_zero_padded(millis, 3, u64_max());
    lemma_decimal_len(millis);
    assert(pf.len() == 3);
    assert(pf.subrange(0, 3) =~= pf);
    assert forall|i: int| 0 <= i < 3 implies (pf[i] as u32) < 128 by {
        assert(is_digit(pf[i]));
    }
    assert(millis_value(pf) == Some(millis));
    assert(v as nat == ((hours * 60 + minutes) * 60 + seconds) * 1000 + millis);
}


/// A character that may appear in a formatted timestamp.
pub open spec fn clock_char(c: char) -> bool {
    is_digit(c) || c == ':' || c == ','
}

/// A formatted timestamp holds only digits, `:` and `,`, and starts and
/// ends with a digit.
pub proof fn lemma_timestamp_chars(v: nat)
    ensures
        timestamp_text(v).len() > 0,
        forall|i: int| 0 <= i < timestamp_text(v).len() ==> clock_char(#[trigger] timestamp_text(v)[i]),
        is_digit(timestamp_text(v)[0]),
        is_digit(timestamp_text(v)[timestamp_text(v).len() - 1]),
{
    let millis = v % 1000;
    let total_seconds = v / 1000;
    let seconds = total_seconds % 60;
    let total_minutes = total_seconds / 60;
    let minutes = total_minutes % 60;
    let hours = total_minutes / 60;
    let ph = zero_padded(hours, 2);
    let pm = zero_padded(minutes, 2);
    let ps = zero_padded(seconds, 2);
    let pf = zero_padded(millis, 3);
    lemma_padded_facts(hours, 2);
    lemma_padded_facts(minutes, 2);
    lemma_padded_facts(seconds, 2);
    lemma_padded_facts(millis, 3);
    let x = timestamp_text(v);
    let a = ph + seq![':'];
    let b = a + pm;
    let c = b + seq![':'];
    let d = c + ps;
    let e = d + seq![','];
    assert(x == e + pf);
    assert forall|i: int| 0 <= i < x.len() implies clock_char(#[trigger] x[i]) by {
        if i < ph.len() {
            assert(x[i] == ph[i]);
        } else if i < a.len() {
        } else if i < b.len() {
            assert(x[i] == pm[i - a.len()]);
        } else if i < c.len() {
        } else if i < d.len() {
            assert(x[i] == ps[i - c.len()]);
        } else if i < e.len() {
        } else {
            assert(x[i] == pf[i - e.len()]);
        }
    }
    assert(x[0] == ph[0]);
    assert(x[x.len() - 1] == pf[pf.len() - 1]);
}


/// The timing line of a cue.
pub open spec fn timing_line(seg: SegmentView) -> Seq<char> {
    timestamp_text(seg.start_ms as nat) + arrow_separator() + timestamp_text(seg.end_ms as nat)
}

/// The block of the cue at `position` without its trailing blank line.
pub open spec fn cue_block(position: nat, seg: SegmentView) -> Seq<char> {
    decimal(position + 1) + seq!['\n'] + timing_line(seg) + seq!['\n'] + seg.text
}

/// A cue that survives a write and a read: a non-empty interval and
/// non-empty text already in spoken form.
pub open spec fn writable_cue(seg: SegmentView) -> bool {
    &&& seg.start_ms < seg.end_ms
    &&& seg.text.len() > 0
    &&& spoken_text(seg.text) == seg.text
}

/// Spoken text has no whitespace but single spaces and starts and ends
/// with a visible character.
pub proof fn lemma_spoken_shape(t: Seq<char>)
    requires
        t.len() > 0,
        spoken_text(t) == t,
    ensures
        forall|i: int| 0 <= i < t.len() ==> !is_white(#[trigger] t[i]) || t[i] == ' ',
        !is_white(t[0]),
        !is_white(t[t.len() - 1]),
{
    let inner = replace_all(
        replace_all(
            replace_all(strip_markup_from(t, 0, 0, 0), amp_entity(), seq!['&']),
            quot_entity(),
            seq!['"'],
        ),
        apos_entity(),
        seq!['\''],
    );
    lemma_collapse_shape(inner);
    assert(collapse_whitespace(inner) == t);
}

proof fn lemma_digits_facts(s: Seq<char>)
    requires
        all_digits(s),
    ensures
        forall|i: int| 0 <= i < s.len() ==> !is_white(#[trigger] s[i]),
        lacks(s, '\n'),
        lacks(s, '\r'),
        lacks(s, '-'),
        lacks(s, '\u{feff}'),
{
    assert forall|i: int| 0 <= i < s.len() implies !is_white(#[trigger] s[i]) by {
        assert(is_digit(s[i]));
    }
    lemma_digits_lack(s, '\n');
    lemma_digits_lack(s, '\r');
    lemma_digits_lack(s, '-');
    lemma_digits_lack(s, '\u{feff}');
}

/// The lines of a written block: number, timing line, text.
proof fn lemma_block_lines(position: nat, seg: SegmentView)
    requires
        writable_cue(seg),
    ensures
        block_lines(cue_block(position, seg)) == seq![decimal(position + 1), timing_line(seg), seg.text],
        !crate::text::contains(decimal(position + 1), arrow()),
        trim(decimal(position + 1)) == decimal(position + 1),
{
    let d = decimal(position + 1);
    let ts = timestamp_text(seg.start_ms as nat);
    let te = timestamp_text(seg.end_ms as nat);
    let l = timing_line(seg);
    let t = seg.text;
    let block = cue_block(position, seg);
    lemma_decimal_digits(position + 1);
    lemma_decimal_len(position + 1);
    assert(all_digits(d));
    lemma_digits_facts(d);
    lemma_timestamp_chars(seg.start_ms as nat);
    lemma_timestamp_chars(seg.end_ms as nat);
    lemma_spoken_shape(t);
    assert forall|i: int| 0 <= i < l.len() implies l[i] != '\n' by {
        if i < ts.len() {
            assert(l[i] == ts[i]);
            assert(clock_char(ts[i]));
        } else if i < ts.len() + 5 {
        } else {
            assert(l[i] == te[i - ts.len() - 5]);
            assert(clock_char(te[i - ts.len() - 5]));
        }
    }
    assert forall|i: int| 0 <= i < t.len() implies t[i] != '\n' by {
        assert(!is_white(t[i]) || t[i] == ' ');
    }
    assert(block =~= d + seq!['\n'] + (l + seq!['\n'] + t));
    lemma_find_single_after(d, '\n', l + seq!['\n'] + t);
    lemma_split_by_first(d, seq!['\n'], l + seq!['\n'] + t);
    lemma_find_single_after(l, '\n', t);
    lemma_split_by_first(l, seq!['\n'], t);
    lemma_split_absent(t, '\n');
    let lines = seq![d, l, t];
    assert(split_by(block, newline()) =~= lines);
    lemma_not_blank(d);
    assert(l[0] == ts[0]);
    lemma_not_blank(l);
    lemma_not_blank(t);
    assert(lines.drop_last() =~= seq![d, l]);
    assert(seq![d, l].drop_last() =~= seq![d]);
    assert(seq![d].drop_last() =~= Seq::<Seq<char>>::empty());
    assert(nonblank(Seq::<Seq<char>>::empty()) == Seq::<Seq<char>>::empty());
    assert(nonblank(seq![d]) =~= seq![d]);
    assert(nonblank(seq![d, l]) =~= seq![d, l]);
    assert(nonblank(lines) =~= lines);
    lemma_find_absent(d, arrow());
    lemma_trim_fixed(d);
}

/// Where the arrow of a timing line is, and the stamps on either side.
proof fn lemma_timing_line(seg: SegmentView)
    ensures
        find(timing_line(seg), arrow()) == Some(timestamp_text(seg.start_ms as nat).len() as int + 1),
        trim(
            timing_line(seg).subrange(0, timestamp_text(seg.start_ms as nat).len() as int + 1),
        ) == timestamp_text(seg.start_ms as nat),
        first_word(
            timing_line(seg).subrange(
                timestamp_text(seg.start_ms as nat).len() as int + 4,
                timing_line(seg).len() as int,
            ),
        ) == timestamp_text(seg.end_ms as nat),
{
    let ts = timestamp_text(seg.start_ms as nat);
    let te = timestamp_text(seg.end_ms as nat);
    let l = timing_line(seg);
    lemma_timestamp_chars(seg.start_ms as nat);
    lemma_timestamp_chars(seg.end_ms as nat);
    let k = ts.len() as int + 1;
    assert(l.subrange(k, k + 3) =~= arrow());
    assert forall|j: int| 0 <= j < k implies !matches_at(l, arrow(), j) by {
        if matches_at(l, arrow(), j) {
            assert(l.subrange(j, j + 3)[0] == l[j]);
            if j < ts.len() {
                assert(l[j] == ts[j]);
                assert(clock_char(ts[j]));
            }
        }
    }
    lemma_find_from_is(l, arrow(), 0, k);
    let before = l.subrange(0, k);
    assert(before =~= ts + seq![' ']);
    lemma_trim_start_is(before, 0);
    assert(before.subrange(0, before.len() as int) =~= before);
    lemma_trim_end_is(before, ts.len() as int);
    assert(before.subrange(0, ts.len() as int) =~= ts);
    let after = l.subrange(k + 3, l.len() as int);
    assert(after =~= seq![' '] + te);
    lemma_trim_start_is(after, 1);
    assert(after.subrange(1, after.len() as int) =~= te);
    lemma_first_white_from(te, 0);
    if first_white_from(te, 0) is Some {
        let f = first_white_from(te, 0)->0;
        assert(clock_char(te[f]));
    }
}

/// One written block reads back as its cue, renumbered.
pub proof fn lemma_block_reads_back(position: nat, seg: SegmentView, kept: nat)
    requires
        writable_cue(seg),
    ensures
        block_outcome(cue_block(position, seg), position + 1, kept) == BlockOutcome::Keep(
            SegmentView {
                id: decimal(position + 1),
                start_ms: seg.start_ms,
                end_ms: seg.end_ms,
                text: seg.text,
            },
        ),
{
    reveal(block_outcome);
    let d = decimal(position + 1);
    let l = timing_line(seg);
    let t = seg.text;
    let lines = seq![d, l, t];
    lemma_block_lines(position, seg);
    lemma_timing_line(seg);
    assert(lines[0] == d && lines[1] == l);
    assert(crate::text::contains(l, arrow()));
    assert(first_timing_from(lines, 1) == Some(1int));
    assert(first_timing_from(lines, 0) == Some(1int));
    lemma_timestamp_round_trip(seg.start_ms);
    lemma_timestamp_round_trip(seg.end_ms);
    assert(lines.subrange(2, 3) =~= seq![t]);
    assert(join_space(seq![t]) == t);
}

/// Blocks joined, each followed by a blank line.
pub open spec fn join_blocks(bs: Seq<Seq<char>>) -> Seq<char>
    decreases bs.len(),
{
    if bs.len() == 0 {
        seq![]
    } else {
        bs[0] + seq!['\n', '\n'] + join_blocks(bs.drop_first())
    }
}

/// The written blocks of a list of cues.
pub open spec fn cue_blocks(segs: Seq<SegmentView>) -> Seq<Seq<char>> {
    Seq::new(segs.len(), |i: int| cue_block(i as nat, segs[i]))
}

/// Cues as they read back: numbered from one, timing and text unchanged.
pub open spec fn renumbered(segs: Seq<SegmentView>) -> Seq<SegmentView> {
    Seq::new(
        segs.len(),
        |i: int|
            SegmentView {
                id: decimal((i + 1) as nat),
                start_ms: segs[i].start_ms,
                end_ms: segs[i].end_ms,
                text: segs[i].text,
            },
    )
}

/// A block that cannot be confused with a separator: no blank line inside
/// and no newline at its end.
pub open spec fn separable(b: Seq<char>) -> bool {
    &&& forall|k: int| 0 <= k < b.len() - 1 ==> !(#[trigger] b[k] == '\n' && b[k + 1] == '\n')
    &&& (b.len() == 0 || b[b.len() - 1] != '\n')
}

proof fn lemma_join_push(bs: Seq<Seq<char>>, b: Seq<char>)
    ensures
        join_blocks(bs.push(b)) == join_blocks(bs) + b + seq!['\n', '\n'],
    decreases bs.len(),
{
    if bs.len() == 0 {
        assert(bs.push(b).drop_first() =~= Seq::<Seq<char>>::empty());
        assert(join_blocks(Seq::<Seq<char>>::empty()) == Seq::<char>::empty());
        assert(join_blocks(bs) == Seq::<char>::empty());
        assert(join_blocks(bs.push(b)) =~= b + seq!['\n', '\n']);
    } else {
        lemma_join_push(bs.drop_first(), b);
        assert(bs.push(b).drop_first() =~= bs.drop_first().push(b));
        assert(join_blocks(bs.push(b)) =~= join_blocks(bs) + b + seq!['\n', '\n']);
    }
}

/// The written document is the written blocks joined.
proof fn lemma_document_is_join(segs: Seq<SegmentView>)
    ensures
        srt_document(segs) == join_blocks(cue_blocks(segs)),
    decreases segs.len(),
{
    if segs.len() > 0 {
        let init = segs.drop_last();
        lemma_document_is_join(init);
        lemma_join_push(cue_blocks(init), cue_block((segs.len() - 1) as nat, segs.last()));
        assert(cue_blocks(segs) =~= cue_blocks(init).push(
            cue_block((segs.len() - 1) as nat, segs.last()),
        ));
        assert(srt_block((segs.len() - 1) as nat, segs.last()) =~= cue_block(
            (segs.len() - 1) as nat,
            segs.last(),
        ) + seq!['\n', '\n']);
    } else {
        assert(cue_blocks(segs) =~= Seq::<Seq<char>>::empty());
    }
}

/// The separator after a separable block is the first one.
proof fn lemma_find_separator(b: Seq<char>, rest: Seq<char>)
    requires
        separable(b),
    ensures
        find(b + seq!['\n', '\n'] + rest, seq!['\n', '\n']) == Some(b.len() as int),
{
    let s = b + seq!['\n', '\n'] + rest;
    let sep = seq!['\n', '\n'];
    assert(s.subrange(b.len() as int, b.len() as int + 2) =~= sep);
    assert forall|k: int| 0 <= k < b.len() implies !matches_at(s, sep, k) by {
        if matches_at(s, sep, k) {
            assert(s.subrange(k, k + 2)[0] == s[k]);
            assert(s.subrange(k, k + 2)[1] == s[k + 1]);
            if k + 1 < b.len() {
                assert(s[k] == b[k] && s[k + 1] == b[k + 1]);
            } else {
                assert(s[k] == b[b.len() - 1]);
            }
        }
    }
    lemma_find_from_is(s, sep, 0, b.len() as int);
}

/// Joined separable blocks split back into the blocks and a final empty
/// piece.
proof fn lemma_split_join(bs: Seq<Seq<char>>)
    requires
        forall|i: int| 0 <= i < bs.len() ==> separable(#[trigger] bs[i]),
    ensures
        split_by(join_blocks(bs), seq!['\n', '\n']) == bs.push(Seq::<char>::empty()),
    decreases bs.len(),
{
    let sep = seq!['\n', '\n'];
    if bs.len() == 0 {
        lemma_find_absent(Seq::<char>::empty(), sep);
        assert(bs.push(Seq::<char>::empty()) =~= seq![Seq::<char>::empty()]);
    } else {
        let rest = bs.drop_first();
        assert forall|i: int| 0 <= i < rest.len() implies separable(#[trigger] rest[i]) by {
            assert(rest[i] == bs[i + 1]);
        }
        lemma_split_join(rest);
        assert(separable(bs[0]));
        lemma_find_separator(bs[0], join_blocks(rest));
        lemma_split_by_first(bs[0], sep, join_blocks(rest));
        assert(bs.push(Seq::<char>::empty()) =~= seq![bs[0]] + rest.push(Seq::<char>::empty()));
    }
}

/// A written block is separable, holds no carriage return and starts with a
/// digit.
proof fn lemma_cue_block_shape(position: nat, seg: SegmentView)
    requires
        writable_cue(seg),
    ensures
        separable(cue_block(position, seg)),
        lacks(cue_block(position, seg), '\r'),
        is_digit(cue_block(position, seg)[0]),
{
    let d = decimal(position + 1);
    let ts = timestamp_text(seg.start_ms as nat);
    let te = timestamp_text(seg.end_ms as nat);
    let l = timing_line(seg);
    let t = seg.text;
    let b = cue_block(position, seg);
    lemma_decimal_digits(position + 1);
    lemma_decimal_len(position + 1);
    assert(all_digits(d));
    lemma_digits_facts(d);
    lemma_timestamp_chars(seg.start_ms as nat);
    lemma_timestamp_chars(seg.end_ms as nat);
    lemma_spoken_shape(t);
    let p1 = d.len() as int;
    let p2 = d.len() as int + 1 + l.len() as int;
    assert forall|i: int| 0 <= i < b.len() && i != p1 && i != p2 implies b[i] != '\n' && b[i] != '\r' by {
        if i < p1 {
            assert(b[i] == d[i]);
        } else if i < p2 {
            let j = i - p1 - 1;
            assert(b[i] == l[j]);
            if j < ts.len() {
                assert(l[j] == ts[j]);
                assert(clock_char(ts[j]));
            } else if j < ts.len() + 5 {
            } else {
                assert(l[j] == te[j - ts.len() - 5]);
                assert(clock_char(te[j - ts.len() - 5]));
            }
        } else {
            assert(b[i] == t[i - p2 - 1]);
            assert(!is_white(t[i - p2 - 1]) || t[i - p2 - 1] == ' ');
        }
    }
    assert(b[p1 + 1] == l[0]);
    assert(l[0] == ts[0]);
    assert(b[p2 + 1] == t[0]);
    assert(b[b.len() - 1] == t[t.len() - 1]);
    assert(b[0] == d[0]);
}

proof fn lemma_join_shape(bs: Seq<Seq<char>>)
    requires
        forall|i: int| 0 <= i < bs.len() ==> lacks(#[trigger] bs[i], '\r'),
    ensures
        lacks(join_blocks(bs), '\r'),
    decreases bs.len(),
{
    if bs.len() > 0 {
        let rest = bs.drop_first();
        assert forall|i: int| 0 <= i < rest.len() implies lacks(#[trigger] rest[i], '\r') by {
            assert(rest[i] == bs[i + 1]);
        }
        lemma_join_shape(rest);
        assert(lacks(bs[0], '\r'));
        lemma_lacks_concat(bs[0], seq!['\n', '\n'], '\r');
        lemma_lacks_concat(bs[0] + seq!['\n', '\n'], join_blocks(rest), '\r');
    }
}

/// Reading the written blocks from `k` on, after the first `k` cues.
proof fn lemma_read_written(segs: Seq<SegmentView>, k: int)
    requires
        0 <= k <= segs.len(),
        forall|i: int| 0 <= i < segs.len() ==> writable_cue(#[trigger] segs[i]),
    ensures
        read_blocks(
            cue_blocks(segs).push(Seq::<char>::empty()),
            k,
            renumbered(segs).take(k),
        ) == Ok::<Seq<SegmentView>, SubtitleErrorView>(renumbered(segs)),
    decreases segs.len() - k,
{
    let bs = cue_blocks(segs).push(Seq::<char>::empty());
    if k == segs.len() {
        reveal(block_outcome);
        let empty = Seq::<char>::empty();
        lemma_find_absent(empty, newline());
        assert(split_by(empty, newline()) == seq![empty]);
        assert(seq![empty].drop_last() =~= Seq::<Seq<char>>::empty());
        assert(is_blank(empty));
        assert(nonblank(Seq::<Seq<char>>::empty()) == Seq::<Seq<char>>::empty());
        assert(nonblank(seq![empty]) == Seq::<Seq<char>>::empty());
        assert(block_lines(empty) =~= Seq::<Seq<char>>::empty());
        assert(bs[k] == empty);
        assert(block_outcome(bs[k], (k + 1) as nat, renumbered(segs).take(k).len()) is Skip);
        assert(renumbered(segs).take(k) =~= renumbered(segs));
        assert(read_blocks(bs, k + 1, renumbered(segs)) == Ok::<Seq<SegmentView>, SubtitleErrorView>(
            renumbered(segs),
        ));
    } else {
        lemma_read_written(segs, k + 1);
        lemma_block_reads_back(k as nat, segs[k], renumbered(segs).take(k).len());
        assert(bs[k] == cue_block(k as nat, segs[k]));
        assert(renumbered(segs).take(k).push(renumbered(segs)[k]) =~= renumbered(segs).take(k + 1));
    }
}

/// Writing cues as SRT and reading the document back gives the same cues,
/// numbered from one: timings and texts are kept for every cue with a
/// non-empty interval and non-empty text already in spoken form.
pub proof fn lemma_srt_round_trip(segs: Seq<SegmentView>)
    requires
        forall|i: int| 0 <= i < segs.len() ==> writable_cue(#[trigger] segs[i]),
    ensures
        srt_cues(srt_document(segs)) == Ok::<Seq<SegmentView>, SubtitleErrorView>(
            renumbered(segs),
        ),
{
    let bs = cue_blocks(segs);
    let doc = srt_document(segs);
    lemma_document_is_join(segs);
    assert forall|i: int| 0 <= i < bs.len() implies separable(#[trigger] bs[i]) && lacks(
        bs[i],
        '\r',
    ) by {
        lemma_cue_block_shape(i as nat, segs[i]);
    }
    lemma_join_shape(bs);
    // nothing to normalise
    if doc.len() > 0 {
        lemma_cue_block_shape(0, segs[0]);
        assert(doc[0] == bs[0][0]);
    }
    assert(strip_boms(doc) == doc);
    lemma_find_absent(doc, seq!['\r', '\n']);
    lemma_find_absent(doc, seq!['\r']);
    assert(normalized_document(doc) == doc);
    lemma_split_join(bs);
    assert(document_blocks(doc) == bs.push(Seq::<char>::empty()));
    lemma_read_written(segs, 0);
    assert(renumbered(segs).take(0) =~= Seq::<SegmentView>::empty());
    if segs.len() == 0 {
        assert(doc =~= Seq::<char>::empty());
        assert(is_blank(doc));
    }
}

} // verus!
