//! Reading SRT does not depend on a leading byte-order mark or on the kind
//! of line endings.

use vstd::prelude::*;

use crate::subtitles::{normalized_document, srt_cues, strip_boms};
use crate::text::{
    find, lemma_find_absent, lemma_find_from_bounds, lemma_find_from_is, matches_at, replace_all,
};

verus! {

/// `s` has no carriage return.
pub open spec fn no_cr(s: Seq<char>) -> bool {
    forall|i: int| 0 <= i < s.len() ==> s[i] != '\r'
}

/// `s` with every `\n` written as `\r\n`.
pub open spec fn crlf_endings(s: Seq<char>) -> Seq<char>
    decreases s.len(),
{
    if s.len() == 0 {
        seq![]
    } else {
        (if s[0] == '\n' {
            seq!['\r', '\n']
        } else {
            seq![s[0]]
        }) + crlf_endings(s.drop_first())
    }
}

/// `s` with every `\n` written as `\r`.
pub open spec fn cr_endings(s: Seq<char>) -> Seq<char>
    decreases s.len(),
{
    if s.len() == 0 {
        seq![]
    } else {
        (if s[0] == '\n' {
            seq!['\r']
        } else {
            seq![s[0]]
        }) + cr_endings(s.drop_first())
    }
}

proof fn lemma_crlf_concat(a: Seq<char>, b: Seq<char>)
    ensures
        crlf_endings(a + b) == crlf_endings(a) + crlf_endings(b),
    decreases a.len(),
{
    if a.len() == 0 {
        assert(a + b =~= b);
        assert(crlf_endings(a) + crlf_endings(b) =~= crlf_endings(b));
    } else {
        assert((a + b).drop_first() =~= a.drop_first() + b);
        assert((a + b)[0] == a[0]);
        lemma_crlf_concat(a.drop_first(), b);
        let h = if a[0] == '\n' {
            seq!['\r', '\n']
        } else {
            seq![a[0]]
        };
        assert(crlf_endings(a + b) =~= h + (crlf_endings(a.drop_first()) + crlf_endings(b)));
        assert(crlf_endings(a) + crlf_endings(b) =~= h + (crlf_endings(a.drop_first())
            + crlf_endings(b)));
    }
}

proof fn lemma_cr_concat(a: Seq<char>, b: Seq<char>)
    ensures
        cr_endings(a + b) == cr_endings(a) + cr_endings(b),
    decreases a.len(),
{
    if a.len() == 0 {
        assert(a + b =~= b);
        assert(cr_endings(a) + cr_endings(b) =~= cr_endings(b));
    } else {
        assert((a + b).drop_first() =~= a.drop_first() + b);
        assert((a + b)[0] == a[0]);
        lemma_cr_concat(a.drop_first(), b);
        let h = if a[0] == '\n' {
            seq!['\r']
        } else {
            seq![a[0]]
        };
        assert(cr_endings(a + b) =~= h + (cr_endings(a.drop_first()) + cr_endings(b)));
        assert(cr_endings(a) + cr_endings(b) =~= h + (cr_endings(a.drop_first()) + cr_endings(b)));
    }
}

/// Text without a newline is left as it is.
proof fn lemma_endings_plain(x: Seq<char>)
    requires
        forall|i: int| 0 <= i < x.len() ==> x[i] != '\n',
    ensures
        crlf_endings(x) == x,
        cr_endings(x) == x,
    decreases x.len(),
{
    if x.len() > 0 {
        lemma_endings_plain(x.drop_first());
        assert(x =~= seq![x[0]] + x.drop_first());
    }
}

/// `pat` is found right after a prefix that holds no `pat[0]`.
proof fn lemma_find_after(x: Seq<char>, pat: Seq<char>, y: Seq<char>)
    requires
        pat.len() > 0,
        forall|i: int| 0 <= i < x.len() ==> x[i] != pat[0],
    ensures
        find(x + pat + y, pat) == Some(x.len() as int),
{
    let s = x + pat + y;
    assert(s.subrange(x.len() as int, (x.len() + pat.len()) as int) =~= pat);
    assert forall|k: int| 0 <= k < x.len() implies !matches_at(s, pat, k) by {
        if matches_at(s, pat, k) {
            assert(s.subrange(k, k + pat.len())[0] == s[k]);
        }
    }
    lemma_find_from_is(s, pat, 0, x.len() as int);
}

/// Replacing a pattern that does not occur leaves the text as it is.
proof fn lemma_replace_absent(t: Seq<char>, pat: Seq<char>, rep: Seq<char>)
    requires
        pat.len() > 0,
        forall|i: int| 0 <= i < t.len() ==> t[i] != pat[0],
    ensures
        replace_all(t, pat, rep) == t,
{
    lemma_find_absent(t, pat);
}

/// Splits `s` at its first newline, or says there is none.
proof fn lemma_first_newline(s: Seq<char>) -> (i: Option<int>)
    ensures
        match i {
            Some(k) => 0 <= k < s.len() && s[k] == '\n' && forall|j: int|
                0 <= j < k ==> s[j] != '\n',
            None => forall|j: int| 0 <= j < s.len() ==> s[j] != '\n',
        },
{
    lemma_find_from_bounds(s, seq!['\n'], 0);
    match find(s, seq!['\n']) {
        Some(k) => {
            assert(s.subrange(k, k + 1)[0] == s[k]);
            assert forall|j: int| 0 <= j < k implies s[j] != '\n' by {
                if s[j] == '\n' {
                    assert(s.subrange(j, j + 1) =~= seq!['\n']);
                    assert(matches_at(s, seq!['\n'], j));
                }
            }
            Some(k)
        },
        None => {
            assert forall|j: int| 0 <= j < s.len() implies s[j] != '\n' by {
                if s[j] == '\n' {
                    assert(s.subrange(j, j + 1) =~= seq!['\n']);
                    assert(matches_at(s, seq!['\n'], j));
                }
            }
            None
        },
    }
}

/// Turning `\r\n` back into `\n` undoes `crlf_endings` on text without
/// carriage returns.
proof fn lemma_replace_crlf(s: Seq<char>)
    requires
        no_cr(s),
    ensures
        replace_all(crlf_endings(s), seq!['\r', '\n'], seq!['\n']) == s,
    decreases s.len(),
{
    match lemma_first_newline(s) {
        None => {
            lemma_endings_plain(s);
            lemma_replace_absent(s, seq!['\r', '\n'], seq!['\n']);
        },
        Some(k) => {
            let x = s.subrange(0, k);
            let y = s.subrange(k + 1, s.len() as int);
            assert(s =~= x + seq!['\n'] + y);
            lemma_endings_plain(x);
            lemma_crlf_concat(x + seq!['\n'], y);
            lemma_crlf_concat(x, seq!['\n']);
            assert(crlf_endings(seq!['\n']) =~= seq!['\r', '\n']) by {
                assert(seq!['\n'].drop_first() =~= Seq::<char>::empty());
                assert(crlf_endings(Seq::<char>::empty()) =~= Seq::<char>::empty());
                assert(crlf_endings(seq!['\n']) == seq!['\r', '\n'] + crlf_endings(
                    seq!['\n'].drop_first(),
                ));
            }
            let t = crlf_endings(s);
            assert(t =~= x + seq!['\r', '\n'] + crlf_endings(y));
            lemma_find_after(x, seq!['\r', '\n'], crlf_endings(y));
            assert(t.subrange(0, k) =~= x);
            assert(t.subrange(k + 2, t.len() as int) =~= crlf_endings(y));
            lemma_replace_crlf(y);
            assert(replace_all(t, seq!['\r', '\n'], seq!['\n']) =~= x + seq!['\n'] + y);
        },
    }
}

/// Turning `\r` into `\n` undoes `cr_endings` on text without carriage
/// returns.
proof fn lemma_replace_cr(s: Seq<char>)
    requires
        no_cr(s),
    ensures
        replace_all(cr_endings(s), seq!['\r'], seq!['\n']) == s,
    decreases s.len(),
{
    match lemma_first_newline(s) {
        None => {
            lemma_endings_plain(s);
            lemma_replace_absent(s, seq!['\r'], seq!['\n']);
        },
        Some(k) => {
            let x = s.subrange(0, k);
            let y = s.subrange(k + 1, s.len() as int);
            assert(s =~= x + seq!['\n'] + y);
            lemma_endings_plain(x);
            lemma_cr_concat(x + seq!['\n'], y);
            lemma_cr_concat(x, seq!['\n']);
            assert(cr_endings(seq!['\n']) =~= seq!['\r']) by {
                assert(seq!['\n'].drop_first() =~= Seq::<char>::empty());
                assert(cr_endings(Seq::<char>::empty()) =~= Seq::<char>::empty());
                assert(cr_endings(seq!['\n']) == seq!['\r'] + cr_endings(seq!['\n'].drop_first()));
            }
            let t = cr_endings(s);
            assert(t =~= x + seq!['\r'] + cr_endings(y));
            lemma_find_after(x, seq!['\r'], cr_endings(y));
            assert(t.subrange(0, k) =~= x);
            assert(t.subrange(k + 1, t.len() as int) =~= cr_endings(y));
            lemma_replace_cr(y);
            assert(replace_all(t, seq!['\r'], seq!['\n']) =~= x + seq!['\n'] + y);
        },
    }
}

/// `cr_endings` leaves no newline behind.
proof fn lemma_cr_no_newline(s: Seq<char>)
    ensures
        forall|i: int| 0 <= i < cr_endings(s).len() ==> cr_endings(s)[i] != '\n',
    decreases s.len(),
{
    if s.len() > 0 {
        lemma_cr_no_newline(s.drop_first());
        let h = if s[0] == '\n' {
            seq!['\r']
        } else {
            seq![s[0]]
        };
        assert forall|i: int| 0 <= i < cr_endings(s).len() implies cr_endings(s)[i] != '\n' by {
            if i >= h.len() {
                assert(cr_endings(s)[i] == cr_endings(s.drop_first())[i - h.len()]);
            }
        }
    }
}

/// Without newlines, `\r\n` does not occur.
proof fn lemma_no_crlf(t: Seq<char>)
    requires
        forall|i: int| 0 <= i < t.len() ==> t[i] != '\n',
    ensures
        replace_all(t, seq!['\r', '\n'], seq!['\n']) == t,
{
    assert forall|k: int| 0 <= k implies !matches_at(t, seq!['\r', '\n'], k) by {
        if matches_at(t, seq!['\r', '\n'], k) {
            assert(t.subrange(k, k + 2)[1] == t[k + 1]);
        }
    }
    crate::text::lemma_find_from_none(t, seq!['\r', '\n'], 0);
}

proof fn lemma_strip_boms_no_cr(s: Seq<char>)
    requires
        no_cr(s),
    ensures
        no_cr(strip_boms(s)),
    decreases s.len(),
{
    if s.len() > 0 && s[0] == '\u{feff}' {
        lemma_strip_boms_no_cr(s.drop_first());
    }
}

proof fn lemma_strip_boms_crlf(s: Seq<char>)
    ensures
        strip_boms(crlf_endings(s)) == crlf_endings(strip_boms(s)),
        strip_boms(cr_endings(s)) == cr_endings(strip_boms(s)),
    decreases s.len(),
{
    if s.len() > 0 {
        let a = crlf_endings(s);
        let b = cr_endings(s);
        if s[0] == '\u{feff}' {
            assert(a =~= seq!['\u{feff}'] + crlf_endings(s.drop_first()));
            assert(b =~= seq!['\u{feff}'] + cr_endings(s.drop_first()));
            assert(a.drop_first() =~= crlf_endings(s.drop_first()));
            assert(b.drop_first() =~= cr_endings(s.drop_first()));
            lemma_strip_boms_crlf(s.drop_first());
        } else {
            assert(a[0] != '\u{feff}');
            assert(b[0] != '\u{feff}');
        }
    }
}

/// A leading byte-order mark, and `\r\n` or `\r` line endings in place of
/// `\n`, leave what an SRT document reads as unchanged: the same cues, or
/// the same error.
pub proof fn lemma_srt_ignores_bom_and_line_endings(s: Seq<char>)
    ensures
        srt_cues(seq!['\u{feff}'] + s) == srt_cues(s),
        no_cr(s) ==> srt_cues(crlf_endings(s)) == srt_cues(s),
        no_cr(s) ==> srt_cues(cr_endings(s)) == srt_cues(s),
{
    assert((seq!['\u{feff}'] + s).drop_first() =~= s);
    assert(normalized_document(seq!['\u{feff}'] + s) == normalized_document(s));
    if no_cr(s) {
        let t = strip_boms(s);
        lemma_strip_boms_no_cr(s);
        lemma_strip_boms_crlf(s);
        lemma_replace_crlf(t);
        lemma_replace_absent(t, seq!['\r'], seq!['\n']);
        lemma_replace_absent(t, seq!['\r', '\n'], seq!['\n']);
        assert(normalized_document(crlf_endings(s)) == normalized_document(s));
        lemma_cr_no_newline(t);
        lemma_no_crlf(cr_endings(t));
        lemma_replace_cr(t);
        assert(normalized_document(cr_endings(s)) == normalized_document(s));
    }
}

} // verus!
