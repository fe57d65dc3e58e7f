//! Character-level helpers shared by the parsers and formatters.

use vstd::prelude::*;

verus! {

/// Appends one character to a string.
///
/// Trusted: calls `String::push`, which std documents as appending the
/// given `char` to the end of the string.
#[verifier::external_body]
pub(crate) fn push_char(s: &mut String, c: char)
    ensures
        final(s)@ == old(s)@.push(c),
{
    s.push(c);
}

/// What `{:?}` prints for a list of strings.
pub uninterp spec fn debug_list(items: Seq<Seq<char>>) -> Seq<char>;

/// Formats a list of strings with `{:?}`.
///
/// Trusted: calls the `Debug` impl of `Vec<String>` through `format!`; the
/// text is named by `debug_list` of the items, as a function of them alone.
#[verifier::external_body]
pub(crate) fn debug_list_text(items: &Vec<String>) -> (s: String)
    ensures
        s@ == debug_list(items@.map_values(|x: String| x@)),
{
    format!("{:?}", items)
}

/// The characters of a string slice, in order.
pub fn chars_of(s: &str) -> (out: Vec<char>)
    ensures
        out@ == s@,
{
    let mut out: Vec<char> = Vec::new();
    for c in it: s.chars()
        invariant
            out@ == it.seq().take(it.index() as int),
            it.seq() == s@,
    {
        out.push(c);
    }
    out
}

/// A string holding exactly the given characters.
pub fn string_of(chars: &Vec<char>) -> (s: String)
    ensures
        s@ == chars@,
{
    let mut s = String::new();
    let mut i: usize = 0;
    while i < chars.len()
        invariant
            0 <= i <= chars.len(),
            s@ == chars@.take(i as int),
        decreases chars.len() - i,
    {
        push_char(&mut s, chars[i]);
        assert(chars@.take(i + 1) == chars@.take(i as int).push(chars@[i as int]));
        i = i + 1;
    }
    assert(chars@.take(chars.len() as int) == chars@);
    s
}


/// `char::is_whitespace`: the Unicode `White_Space` property.
pub open spec fn is_white(c: char) -> bool {
    let u = c as u32;
    ||| 9 <= u <= 13
    ||| u == 32
    ||| u == 0x85
    ||| u == 0xA0
    ||| u == 0x1680
    ||| 0x2000 <= u <= 0x200A
    ||| u == 0x2028
    ||| u == 0x2029
    ||| u == 0x202F
    ||| u == 0x205F
    ||| u == 0x3000
}

/// Executable `char::is_whitespace`.
pub fn is_white_char(c: char) -> (b: bool)
    ensures
        b == is_white(c),
{
    let u = c as u32;
    (9 <= u && u <= 13) || u == 32 || u == 0x85 || u == 0xA0 || u == 0x1680 || (0x2000 <= u
        && u <= 0x200A) || u == 0x2028 || u == 0x2029 || u == 0x202F || u == 0x205F || u
        == 0x3000
}

/// `s` without its leading whitespace.
pub open spec fn trim_start(s: Seq<char>) -> Seq<char>
    decreases s.len(),
{
    if s.len() > 0 && is_white(s[0]) {
        trim_start(s.subrange(1, s.len() as int))
    } else {
        s
    }
}

/// `s` without its trailing whitespace.
pub open spec fn trim_end(s: Seq<char>) -> Seq<char>
    decreases s.len(),
{
    if s.len() > 0 && is_white(s[s.len() - 1]) {
        trim_end(s.subrange(0, s.len() - 1))
    } else {
        s
    }
}

/// `str::trim`: `s` without leading and trailing whitespace.
pub open spec fn trim(s: Seq<char>) -> Seq<char> {
    trim_end(trim_start(s))
}

/// A string that is empty or whitespace only.
pub open spec fn is_blank(s: Seq<char>) -> bool {
    trim(s).len() == 0
}

/// The bounds of `trim(v[lo..hi])` inside `v`.
pub fn trim_range(v: &Vec<char>, lo: usize, hi: usize) -> (r: (usize, usize))
    requires
        lo <= hi <= v.len(),
    ensures
        lo <= r.0 <= r.1 <= hi,
        v@.subrange(r.0 as int, r.1 as int) == trim(v@.subrange(lo as int, hi as int)),
{
    let mut a = lo;
    while a < hi && is_white_char(v[a])
        invariant
            lo <= a <= hi <= v.len(),
            trim_start(v@.subrange(lo as int, hi as int)) == trim_start(
                v@.subrange(a as int, hi as int),
            ),
        decreases hi - a,
    {
        assert(v@.subrange(a as int, hi as int).subrange(1, (hi - a) as int) =~= v@.subrange(
            a + 1,
            hi as int,
        ));
        a = a + 1;
    }
    let mut b = hi;
    while b > a && is_white_char(v[b - 1])
        invariant
            lo <= a <= b <= hi <= v.len(),
            trim(v@.subrange(lo as int, hi as int)) == trim_end(v@.subrange(a as int, b as int)),
        decreases b - a,
    {
        assert(v@.subrange(a as int, b as int).subrange(0, (b - a - 1) as int) =~= v@.subrange(
            a as int,
            b - 1,
        ));
        b = b - 1;
    }
    (a, b)
}


/// `pat` occurs in `s` at position `i`.
pub open spec fn matches_at(s: Seq<char>, pat: Seq<char>, i: int) -> bool {
    0 <= i && i + pat.len() <= s.len() && s.subrange(i, i + pat.len()) == pat
}

/// The leftmost occurrence of `pat` in `s` at or after `i`.
pub open spec fn find_from(s: Seq<char>, pat: Seq<char>, i: int) -> Option<int>
    decreases s.len() + 1 - i,
{
    if i < 0 || i + pat.len() > s.len() {
        None
    } else if matches_at(s, pat, i) {
        Some(i)
    } else {
        find_from(s, pat, i + 1)
    }
}

/// The leftmost occurrence of `pat` in `s`.
pub open spec fn find(s: Seq<char>, pat: Seq<char>) -> Option<int> {
    find_from(s, pat, 0)
}

/// `s` contains `pat`.
pub open spec fn contains(s: Seq<char>, pat: Seq<char>) -> bool {
    find(s, pat) is Some
}

pub proof fn lemma_find_from_bounds(s: Seq<char>, pat: Seq<char>, i: int)
    requires
        0 <= i,
    ensures
        find_from(s, pat, i) matches Some(j) ==> i <= j && matches_at(s, pat, j) && forall|
            k: int,
        | i <= k < j ==> !matches_at(s, pat, k),
        find_from(s, pat, i) is None ==> forall|k: int| i <= k ==> !matches_at(s, pat, k),
    decreases s.len() + 1 - i,
{
    if i < 0 || i + pat.len() > s.len() {
    } else if matches_at(s, pat, i) {
    } else {
        lemma_find_from_bounds(s, pat, i + 1);
    }
}

/// Characterises `find_from` by its defining property.
pub proof fn lemma_find_from_is(s: Seq<char>, pat: Seq<char>, i: int, j: int)
    requires
        0 <= i <= j,
        matches_at(s, pat, j),
        forall|k: int| i <= k < j ==> !matches_at(s, pat, k),
    ensures
        find_from(s, pat, i) == Some(j),
    decreases j - i,
{
    if i < j {
        lemma_find_from_is(s, pat, i + 1, j);
    }
}

pub proof fn lemma_find_from_none(s: Seq<char>, pat: Seq<char>, i: int)
    requires
        0 <= i,
        forall|k: int| i <= k ==> !matches_at(s, pat, k),
    ensures
        find_from(s, pat, i) is None,
    decreases s.len() + 1 - i,
{
    if i + pat.len() > s.len() {
    } else if matches_at(s, pat, i) {
    } else {
        lemma_find_from_none(s, pat, i + 1);
    }
}

/// Whether `pat` occurs in `v` at position `i`.
pub fn matches_at_exec(v: &Vec<char>, pat: &Vec<char>, i: usize, hi: usize) -> (b: bool)
    requires
        i <= hi <= v.len(),
    ensures
        b == matches_at(v@.subrange(0, hi as int), pat@, i as int),
{
    if pat.len() > hi - i {
        return false;
    }
    let mut k: usize = 0;
    while k < pat.len()
        invariant
            i + pat.len() <= hi <= v.len(),
            0 <= k <= pat.len(),
            forall|m: int| 0 <= m < k ==> v@[i + m] == pat@[m],
        decreases pat.len() - k,
    {
        if v[i + k] != pat[k] {
            assert(v@.subrange(0, hi as int).subrange(i as int, i + pat.len())[k as int]
                != pat@[k as int]);
            return false;
        }
        k = k + 1;
    }
    assert(v@.subrange(0, hi as int).subrange(i as int, i + pat.len()) =~= pat@);
    true
}

/// The leftmost occurrence of `pat` in `v[from..hi]`, as a position in `v`.
pub fn find_exec(v: &Vec<char>, pat: &Vec<char>, from: usize, hi: usize) -> (r: Option<usize>)
    requires
        from <= hi <= v.len(),
        pat.len() > 0,
    ensures
        r matches Some(j) ==> find(v@.subrange(from as int, hi as int), pat@) == Some(
            j - from,
        ),
        r is None ==> find(v@.subrange(from as int, hi as int), pat@) is None,
{
    let ghost sub = v@.subrange(from as int, hi as int);
    let mut j = from;
    while j < hi
        invariant
            from <= j <= hi <= v.len(),
            sub == v@.subrange(from as int, hi as int),
            forall|k: int| 0 <= k < j - from ==> !matches_at(sub, pat@, k),
        decreases hi - j,
    {
        let m = matches_at_exec(v, pat, j, hi);
        proof {
            let whole = v@.subrange(0, hi as int);
            if m {
                assert(sub.subrange(j - from, j - from + pat@.len()) =~= whole.subrange(
                    j as int,
                    j + pat@.len(),
                ));
            } else {
                if matches_at(sub, pat@, j - from) {
                    assert(sub.subrange(j - from, j - from + pat@.len()) =~= whole.subrange(
                        j as int,
                        j + pat@.len(),
                    ));
                }
            }
        }
        if m {
            proof {
                lemma_find_from_is(sub, pat@, 0, j - from);
            }
            return Some(j);
        }
        j = j + 1;
    }
    proof {
        assert forall|k: int| 0 <= k implies !matches_at(sub, pat@, k) by {}
        lemma_find_from_none(sub, pat@, 0);
    }
    None
}


/// `str::split` with a non-empty string pattern: the pieces between the
/// leftmost non-overlapping occurrences of `pat`.
pub open spec fn split_by(s: Seq<char>, pat: Seq<char>) -> Seq<Seq<char>>
    decreases s.len(),
{
    if pat.len() == 0 {
        seq![s]
    } else {
        match find(s, pat) {
            Some(i) => {
                proof {
                    lemma_find_from_bounds(s, pat, 0);
                }
                seq![s.subrange(0, i)] + split_by(s.subrange(i + pat.len(), s.len() as int), pat)
            },
            None => seq![s],
        }
    }
}

/// `str::replace` with a non-empty pattern: every leftmost non-overlapping
/// occurrence of `pat` replaced by `rep`.
pub open spec fn replace_all(s: Seq<char>, pat: Seq<char>, rep: Seq<char>) -> Seq<char>
    decreases s.len(),
{
    if pat.len() == 0 {
        s
    } else {
        match find(s, pat) {
            Some(i) => {
                proof {
                    lemma_find_from_bounds(s, pat, 0);
                }
                s.subrange(0, i) + rep + replace_all(
                    s.subrange(i + pat.len(), s.len() as int),
                    pat,
                    rep,
                )
            },
            None => s,
        }
    }
}

/// The pieces of `v[lo..hi]` split at `pat`, as ranges of `v`.
pub fn split_ranges(v: &Vec<char>, lo: usize, hi: usize, pat: &Vec<char>) -> (r: Vec<
    (usize, usize),
>)
    requires
        lo <= hi <= v.len(),
        pat.len() > 0,
    ensures
        r@.len() == split_by(v@.subrange(lo as int, hi as int), pat@).len(),
        forall|k: int|
            0 <= k < r@.len() ==> lo <= (#[trigger] r@[k]).0 <= r@[k].1 <= hi && v@.subrange(
                r@[k].0 as int,
                r@[k].1 as int,
            ) == split_by(v@.subrange(lo as int, hi as int), pat@)[k],
{
    let ghost whole = split_by(v@.subrange(lo as int, hi as int), pat@);
    let mut r: Vec<(usize, usize)> = Vec::new();
    let mut cur = lo;
    loop
        invariant
            lo <= cur <= hi <= v.len(),
            pat.len() > 0,
            whole == split_by(v@.subrange(lo as int, hi as int), pat@),
            whole == r@.map_values(|p: (usize, usize)| v@.subrange(p.0 as int, p.1 as int))
                + split_by(v@.subrange(cur as int, hi as int), pat@),
            forall|k: int| 0 <= k < r@.len() ==> lo <= (#[trigger] r@[k]).0 <= r@[k].1 <= hi,
        decreases hi - cur,
    {
        let ghost rest = v@.subrange(cur as int, hi as int);
        match find_exec(v, pat, cur, hi) {
            Some(j) => {
                proof {
                    lemma_find_from_bounds(rest, pat@, 0);
                    assert(rest.subrange(0, j - cur) =~= v@.subrange(cur as int, j as int));
                    assert(rest.subrange(j - cur + pat@.len(), rest.len() as int) =~= v@.subrange(
                        j + pat@.len(),
                        hi as int,
                    ));
                    assert(r@.push((cur, j)).map_values(
                        |p: (usize, usize)| v@.subrange(p.0 as int, p.1 as int),
                    ) =~= r@.map_values(|p: (usize, usize)| v@.subrange(p.0 as int, p.1 as int))
                        + seq![v@.subrange(cur as int, j as int)]);
                }
                r.push((cur, j));
                cur = j + pat.len();
            },
            None => {
                proof {
                    assert(r@.push((cur, hi)).map_values(
                        |p: (usize, usize)| v@.subrange(p.0 as int, p.1 as int),
                    ) =~= r@.map_values(|p: (usize, usize)| v@.subrange(p.0 as int, p.1 as int))
                        + seq![v@.subrange(cur as int, hi as int)]);
                }
                r.push((cur, hi));
                proof {
                    assert forall|k: int| 0 <= k < r@.len() implies v@.subrange(
                        r@[k].0 as int,
                        r@[k].1 as int,
                    ) == whole[k] by {
                        assert(whole == r@.map_values(
                            |p: (usize, usize)| v@.subrange(p.0 as int, p.1 as int),
                        ));
                    }
                }
                return r;
            },
        }
    }
}

/// `v[lo..hi]` with every occurrence of `pat` replaced by `rep`.
pub fn replace_range(v: &Vec<char>, lo: usize, hi: usize, pat: &Vec<char>, rep: &Vec<char>) -> (r:
    Vec<char>)
    requires
        lo <= hi <= v.len(),
        pat.len() > 0,
    ensures
        r@ == replace_all(v@.subrange(lo as int, hi as int), pat@, rep@),
{
    let mut out: Vec<char> = Vec::new();
    let mut cur = lo;
    loop
        invariant
            lo <= cur <= hi <= v.len(),
            pat.len() > 0,
            replace_all(v@.subrange(lo as int, hi as int), pat@, rep@) == out@ + replace_all(
                v@.subrange(cur as int, hi as int),
                pat@,
                rep@,
            ),
        decreases hi - cur,
    {
        let ghost rest = v@.subrange(cur as int, hi as int);
        match find_exec(v, pat, cur, hi) {
            Some(j) => {
                proof {
                    lemma_find_from_bounds(rest, pat@, 0);
                    assert(rest.subrange(0, j - cur) =~= v@.subrange(cur as int, j as int));
                    assert(rest.subrange(j - cur + pat@.len(), rest.len() as int) =~= v@.subrange(
                        j + pat@.len(),
                        hi as int,
                    ));
                }
                let ghost before = out@;
                let mut k = cur;
                while k < j
                    invariant
                        cur <= k <= j <= hi <= v.len(),
                        out@ == before + v@.subrange(cur as int, k as int),
                    decreases j - k,
                {
                    out.push(v[k]);
                    assert(v@.subrange(cur as int, k + 1) =~= v@.subrange(cur as int, k as int).push(
                        v@[k as int],
                    ));
                    k = k + 1;
                }
                let ghost mid = out@;
                let mut m: usize = 0;
                while m < rep.len()
                    invariant
                        0 <= m <= rep.len(),
                        out@ == mid + rep@.subrange(0, m as int),
                    decreases rep.len() - m,
                {
                    out.push(rep[m]);
                    assert(rep@.subrange(0, m + 1) =~= rep@.subrange(0, m as int).push(rep@[m as int]));
                    m = m + 1;
                }
                assert(rep@.subrange(0, rep.len() as int) =~= rep@);
                assert(out@ =~= before + v@.subrange(cur as int, j as int) + rep@);
                cur = j + pat.len();
            },
            None => {
                let ghost before = out@;
                let mut k = cur;
                while k < hi
                    invariant
                        cur <= k <= hi <= v.len(),
                        out@ == before + v@.subrange(cur as int, k as int),
                    decreases hi - k,
                {
                    out.push(v[k]);
                    assert(v@.subrange(cur as int, k + 1) =~= v@.subrange(cur as int, k as int).push(
                        v@[k as int],
                    ));
                    k = k + 1;
                }
                return out;
            },
        }
    }
}

/// The ASCII character of a decimal digit.
pub open spec fn digit_char(d: nat) -> char {
    ((d + 48) as u8) as char
}

/// The decimal representation of `n`, without leading zeros.
pub open spec fn decimal(n: nat) -> Seq<char>
    decreases n,
{
    if n < 10 {
        seq![digit_char(n)]
    } else {
        decimal(n / 10).push(digit_char(n % 10))
    }
}

/// The decimal representation of `n`, left-padded with zeros to `width`.
pub open spec fn zero_padded(n: nat, width: nat) -> Seq<char> {
    let d = decimal(n);
    if d.len() >= width {
        d
    } else {
        Seq::new((width - d.len()) as nat, |_i: int| '0') + d
    }
}

pub proof fn lemma_decimal_len(n: nat)
    ensures
        decimal(n).len() >= 1,
        n < 10 <==> decimal(n).len() == 1,
        n < 100 ==> decimal(n).len() <= 2,
        n < 1000 ==> decimal(n).len() <= 3,
    decreases n,
{
    if n >= 10 {
        lemma_decimal_len(n / 10);
    }
}

/// Appends the decimal representation of `n`.
pub fn push_decimal(out: &mut Vec<char>, n: u64)
    ensures
        final(out)@ == old(out)@ + decimal(n as nat),
    decreases n,
{
    if n >= 10 {
        push_decimal(out, n / 10);
    }
    let d = (n % 10) as u8;
    out.push((d + 48u8) as char);
}

/// Appends `n` in decimal, left-padded with zeros to `width` digits.
pub fn push_zero_padded(out: &mut Vec<char>, n: u64, width: usize)
    requires
        width <= 64,
    ensures
        final(out)@ == old(out)@ + zero_padded(n as nat, width as nat),
{
    let mut digits: Vec<char> = Vec::new();
    push_decimal(&mut digits, n);
    assert(digits@ =~= decimal(n as nat));
    let ghost before = out@;
    if digits.len() < width {
        let pad = width - digits.len();
        let mut k: usize = 0;
        while k < pad
            invariant
                0 <= k <= pad,
                out@ == before + Seq::new(k as nat, |_i: int| '0'),
            decreases pad - k,
        {
            out.push('0');
            assert(Seq::new((k + 1) as nat, |_i: int| '0') =~= Seq::new(k as nat, |_i: int| '0').push(
                '0',
            ));
            k = k + 1;
        }
    }
    let ghost mid = out@;
    let mut m: usize = 0;
    while m < digits.len()
        invariant
            0 <= m <= digits.len(),
            out@ == mid + digits@.subrange(0, m as int),
        decreases digits.len() - m,
    {
        out.push(digits[m]);
        assert(digits@.subrange(0, m + 1) =~= digits@.subrange(0, m as int).push(digits@[m as int]));
        m = m + 1;
    }
    assert(digits@.subrange(0, digits.len() as int) =~= digits@);
    assert(out@ =~= before + zero_padded(n as nat, width as nat));
}

/// Why an unsigned integer could not be read (`core::num::IntErrorKind`).
#[derive(Clone, Copy, Debug, PartialEq, Eq, Structural)]
pub enum IntErrorKind {
    Empty,
    InvalidDigit,
    PosOverflow,
}

pub open spec fn is_digit(c: char) -> bool {
    48 <= (c as u32) <= 57
}

pub open spec fn digit_value(c: char) -> nat {
    ((c as u32) - 48) as nat
}

/// Reads ASCII digits left to right, failing at the first non-digit or at
/// the first digit that takes the value above `max`.
pub open spec fn scan_digits(s: Seq<char>, max: nat) -> Result<nat, IntErrorKind>
    decreases s.len(),
{
    if s.len() == 0 {
        Ok(0)
    } else {
        match scan_digits(s.drop_last(), max) {
            Err(e) => Err(e),
            Ok(v) => {
                let c = s.last();
                if !is_digit(c) {
                    Err(IntErrorKind::InvalidDigit)
                } else if v * 10 + digit_value(c) > max {
                    Err(IntErrorKind::PosOverflow)
                } else {
                    Ok(v * 10 + digit_value(c))
                }
            },
        }
    }
}

/// `FromStr` of an unsigned integer type whose largest value is `max`:
/// an optional `+`, then one or more ASCII digits.
pub open spec fn parse_unsigned(s: Seq<char>, max: nat) -> Result<nat, IntErrorKind> {
    if s.len() == 0 {
        Err(IntErrorKind::Empty)
    } else if s[0] == '+' {
        if s.len() == 1 {
            Err(IntErrorKind::InvalidDigit)
        } else {
            scan_digits(s.drop_first(), max)
        }
    } else {
        scan_digits(s, max)
    }
}

/// Reads `v[lo..hi]` as an unsigned integer no larger than `max`.
pub fn parse_unsigned_range(v: &Vec<char>, lo: usize, hi: usize, max: u64) -> (r: Result<
    u64,
    IntErrorKind,
>)
    requires
        lo <= hi <= v.len(),
    ensures
        match r {
            Ok(n) => parse_unsigned(v@.subrange(lo as int, hi as int), max as nat) == Ok::<
                nat,
                IntErrorKind,
            >(n as nat),
            Err(e) => parse_unsigned(v@.subrange(lo as int, hi as int), max as nat) == Err::<
                nat,
                IntErrorKind,
            >(e),
        },
{
    let ghost s = v@.subrange(lo as int, hi as int);
    if lo == hi {
        return Err(IntErrorKind::Empty);
    }
    let mut start = lo;
    if v[lo] == '+' {
        if hi - lo == 1 {
            return Err(IntErrorKind::InvalidDigit);
        }
        start = lo + 1;
        assert(s.drop_first() =~= v@.subrange(start as int, hi as int));
    } else {
        assert(s =~= v@.subrange(start as int, hi as int));
    }
    let mut acc: u64 = 0;
    let mut k = start;
    assert(v@.subrange(start as int, start as int) =~= Seq::<char>::empty());
    while k < hi
        invariant
            lo <= start <= k <= hi <= v.len(),
            acc <= max,
            parse_unsigned(v@.subrange(lo as int, hi as int), max as nat) == scan_digits(
                v@.subrange(start as int, hi as int),
                max as nat,
            ),
            scan_digits(v@.subrange(start as int, k as int), max as nat) == Ok::<
                nat,
                IntErrorKind,
            >(acc as nat),
        decreases hi - k,
    {
        let c = v[k];
        let ghost pre = v@.subrange(start as int, (k + 1) as int);
        assert(pre.drop_last() =~= v@.subrange(start as int, k as int));
        let code = c as u32;
        if code < 48 || code > 57 {
            proof {
                assert(v@.subrange(start as int, hi as int).subrange(0, (k + 1 - start) as int)
                    =~= pre);
                lemma_scan_digits_error_extends(
                    v@.subrange(start as int, hi as int),
                    (k + 1 - start) as int,
                    max as nat,
                );
            }
            return Err(IntErrorKind::InvalidDigit);
        }
        let d = (code - 48) as u64;
        if (acc as u128) * 10 + (d as u128) > (max as u128) {
            proof {
                assert(v@.subrange(start as int, hi as int).subrange(0, (k + 1 - start) as int)
                    =~= pre);
                lemma_scan_digits_error_extends(
                    v@.subrange(start as int, hi as int),
                    (k + 1 - start) as int,
                    max as nat,
                );
            }
            return Err(IntErrorKind::PosOverflow);
        }
        acc = acc * 10 + d;
        k = k + 1;
    }
    assert(v@.subrange(start as int, k as int) =~= v@.subrange(start as int, hi as int));
    Ok(acc)
}

/// Once a prefix fails to scan, the whole string fails the same way.
pub proof fn lemma_scan_digits_error_extends(s: Seq<char>, n: int, max: nat)
    requires
        0 <= n <= s.len(),
        scan_digits(s.subrange(0, n), max) is Err,
    ensures
        scan_digits(s, max) == scan_digits(s.subrange(0, n), max),
    decreases s.len() - n,
{
    if n < s.len() {
        assert(s.subrange(0, n + 1).drop_last() =~= s.subrange(0, n));
        lemma_scan_digits_error_extends(s, n + 1, max);
    } else {
        assert(s.subrange(0, n) =~= s);
    }
}


/// `trim_start` removes exactly the leading run of whitespace.
pub proof fn lemma_trim_start_is(s: Seq<char>, k: int)
    requires
        0 <= k <= s.len(),
        forall|j: int| 0 <= j < k ==> is_white(s[j]),
        k < s.len() ==> !is_white(s[k]),
    ensures
        trim_start(s) == s.subrange(k, s.len() as int),
    decreases k,
{
    if k == 0 {
        assert(s.subrange(0, s.len() as int) =~= s);
        if s.len() > 0 {
        }
    } else {
        let t = s.subrange(1, s.len() as int);
        assert forall|j: int| 0 <= j < k - 1 implies is_white(t[j]) by {
            assert(t[j] == s[j + 1]);
        }
        lemma_trim_start_is(t, k - 1);
        assert(t.subrange(k - 1, t.len() as int) =~= s.subrange(k, s.len() as int));
    }
}

/// `trim_end` removes exactly the trailing run of whitespace.
pub proof fn lemma_trim_end_is(s: Seq<char>, k: int)
    requires
        0 <= k <= s.len(),
        forall|j: int| k <= j < s.len() ==> is_white(s[j]),
        k > 0 ==> !is_white(s[k - 1]),
    ensures
        trim_end(s) == s.subrange(0, k),
    decreases s.len() - k,
{
    if k == s.len() {
        assert(s.subrange(0, k) =~= s);
    } else {
        let t = s.subrange(0, s.len() - 1);
        assert forall|j: int| k <= j < t.len() implies is_white(t[j]) by {
            assert(t[j] == s[j]);
        }
        lemma_trim_end_is(t, k);
        assert(t.subrange(0, k) =~= s.subrange(0, k));
    }
}

proof fn leading_white_end(s: Seq<char>, i: int) -> (a: int)
    requires
        0 <= i <= s.len(),
        forall|j: int| 0 <= j < i ==> is_white(s[j]),
    ensures
        i <= a <= s.len(),
        forall|j: int| 0 <= j < a ==> is_white(s[j]),
        a < s.len() ==> !is_white(s[a]),
    decreases s.len() - i,
{
    if i < s.len() && is_white(s[i]) {
        leading_white_end(s, i + 1)
    } else {
        i
    }
}

proof fn trailing_white_start(s: Seq<char>, a: int, b: int) -> (c: int)
    requires
        0 <= a <= b <= s.len(),
        forall|j: int| b <= j < s.len() ==> is_white(s[j]),
    ensures
        a <= c <= b,
        forall|j: int| c <= j < s.len() ==> is_white(s[j]),
        c > a ==> !is_white(s[c - 1]),
    decreases b - a,
{
    if b > a && is_white(s[b - 1]) {
        trailing_white_start(s, a, b - 1)
    } else {
        b
    }
}

/// The shape of `trim(s)`: a range `[a, b)` of `s` with only whitespace
/// outside it and non-whitespace at both of its ends.
pub proof fn lemma_trim_shape(s: Seq<char>) -> (r: (int, int))
    ensures
        0 <= r.0 <= r.1 <= s.len(),
        trim(s) == s.subrange(r.0, r.1),
        forall|j: int| 0 <= j < r.0 ==> is_white(s[j]),
        forall|j: int| r.1 <= j < s.len() ==> is_white(s[j]),
        r.0 < r.1 ==> !is_white(s[r.0]) && !is_white(s[r.1 - 1]),
        r.0 == r.1 ==> forall|j: int| 0 <= j < s.len() ==> is_white(s[j]),
{
    let a = leading_white_end(s, 0);
    lemma_trim_start_is(s, a);
    let t = s.subrange(a, s.len() as int);
    let b = trailing_white_start(s, a, s.len() as int);
    assert forall|j: int| b - a <= j < t.len() implies is_white(t[j]) by {
        assert(t[j] == s[j + a]);
    }
    lemma_trim_end_is(t, b - a);
    assert(t.subrange(0, b - a) =~= s.subrange(a, b));
    (a, b)
}

/// A string with non-whitespace at both ends is its own trim.
pub proof fn lemma_trim_fixed(s: Seq<char>)
    requires
        s.len() > 0 ==> !is_white(s[0]) && !is_white(s[s.len() - 1]),
    ensures
        trim(s) == s,
{
    lemma_trim_start_is(s, 0);
    assert(s.subrange(0, s.len() as int) =~= s);
    lemma_trim_end_is(s, s.len() as int);
}

/// The leftmost whitespace character of `s` at or after `i`.
pub open spec fn first_white_from(s: Seq<char>, i: int) -> Option<int>
    decreases s.len() - i,
{
    if i < 0 || i >= s.len() {
        None
    } else if is_white(s[i]) {
        Some(i)
    } else {
        first_white_from(s, i + 1)
    }
}

pub proof fn lemma_first_white_from(s: Seq<char>, i: int)
    requires
        0 <= i,
    ensures
        first_white_from(s, i) matches Some(j) ==> i <= j < s.len() && is_white(s[j]) && forall|
            k: int,
        | i <= k < j ==> !is_white(s[k]),
        first_white_from(s, i) is None ==> forall|k: int| i <= k < s.len() ==> !is_white(s[k]),
    decreases s.len() - i,
{
    if i < s.len() && !is_white(s[i]) {
        lemma_first_white_from(s, i + 1);
    }
}

/// `split_whitespace` joined with single spaces: the trimmed text, its first
/// word, one space, and the same applied to the rest.
pub open spec fn collapse_whitespace(s: Seq<char>) -> Seq<char>
    decreases s.len(),
{
    let t = trim(s);
    match first_white_from(t, 0) {
        None => t,
        Some(i) => {
            proof {
                let ab = lemma_trim_shape(s);
                lemma_first_white_from(t, 0);
            }
            t.subrange(0, i) + seq![' '] + collapse_whitespace(t.subrange(i, t.len() as int))
        },
    }
}

/// `v[lo..hi]` with whitespace runs collapsed to single spaces and the ends
/// trimmed.
pub fn collapse_range(v: &Vec<char>, lo: usize, hi: usize) -> (r: Vec<char>)
    requires
        lo <= hi <= v.len(),
    ensures
        r@ == collapse_whitespace(v@.subrange(lo as int, hi as int)),
{
    let ghost whole = v@.subrange(lo as int, hi as int);
    let (mut a, b) = trim_range(v, lo, hi);
    proof {
        let ab = lemma_trim_shape(whole);
        let t = v@.subrange(a as int, b as int);
        assert(t == whole.subrange(ab.0, ab.1));
        assert(t.len() == ab.1 - ab.0);
        if a < b {
            assert(t[0] == whole.subrange(ab.0, ab.1)[0]);
            assert(t[t.len() - 1] == whole.subrange(ab.0, ab.1)[ab.1 - ab.0 - 1]);
        }
        lemma_trim_fixed(t);
    }
    let mut out: Vec<char> = Vec::new();
    loop
        invariant
            lo <= a <= b <= hi <= v.len(),
            whole == v@.subrange(lo as int, hi as int),
            trim(v@.subrange(a as int, b as int)) == v@.subrange(a as int, b as int),
            a < b ==> !is_white(v@[b - 1]),
            collapse_whitespace(whole) == out@ + collapse_whitespace(
                v@.subrange(a as int, b as int),
            ),
        decreases b - a,
    {
        let ghost t = v@.subrange(a as int, b as int);
        let mut i = a;
        while i < b && !is_white_char(v[i])
            invariant
                a <= i <= b,
                b <= v.len(),
                forall|k: int| a <= k < i ==> !is_white(v@[k]),
            decreases b - i,
        {
            i = i + 1;
        }
        let ghost before = out@;
        let mut k = a;
        while k < i
            invariant
                a <= k <= i <= b <= v.len(),
                out@ == before + v@.subrange(a as int, k as int),
            decreases i - k,
        {
            out.push(v[k]);
            assert(v@.subrange(a as int, k + 1) =~= v@.subrange(a as int, k as int).push(
                v@[k as int],
            ));
            k = k + 1;
        }
        if i == b {
            proof {
                lemma_first_white_from(t, 0);
                if first_white_from(t, 0) is Some {
                    let j = first_white_from(t, 0)->0;
                    assert(t[j] == v@[a + j]);
                }
            }
            return out;
        }
        proof {
            assert forall|m: int| 0 <= m < i - a implies !is_white(t[m]) by {
                assert(t[m] == v@[a + m]);
            }
            assert(t[i - a] == v@[i as int]);
            lemma_first_white_from(t, 0);
            let j = first_white_from(t, 0)->0;
            if j < i - a {
                assert(t[j] == v@[a + j]);
            }
            assert(j == i - a);
            assert(t.subrange(0, i - a) =~= v@.subrange(a as int, i as int));
        }
        out.push(' ');
        let mut j = i;
        while j < b && is_white_char(v[j])
            invariant
                i <= j <= b <= v.len(),
                a < b,
                !is_white(v@[b - 1]),
                forall|m: int| i <= m < j ==> is_white(v@[m]),
            decreases b - j,
        {
            j = j + 1;
        }
        proof {
            let rest = t.subrange(i - a, t.len() as int);
            assert(rest =~= v@.subrange(i as int, b as int));
            let tail = v@.subrange(j as int, b as int);
            assert forall|m: int| 0 <= m < j - i implies is_white(rest[m]) by {
                assert(rest[m] == v@[i + m]);
            }
            if j < b {
                assert(rest[j - i] == v@[j as int]);
            }
            lemma_trim_start_is(rest, j - i);
            assert(rest.subrange(j - i, rest.len() as int) =~= tail);
            if j < b {
                assert(tail[0] == v@[j as int]);
                assert(tail[tail.len() - 1] == v@[b - 1]);
            }
            lemma_trim_fixed(tail);
            assert(trim(rest) == tail);
            assert(collapse_whitespace(rest) == collapse_whitespace(tail));
            assert(collapse_whitespace(t) == t.subrange(0, i - a) + seq![' '] + collapse_whitespace(rest));
            assert(out@ =~= before + v@.subrange(a as int, i as int) + seq![' ']);
        }
        a = j;
    }
}


pub open spec fn pow10(n: nat) -> nat
    decreases n,
{
    if n == 0 {
        1
    } else {
        10 * pow10((n - 1) as nat)
    }
}

pub proof fn lemma_scan_digits_bound(s: Seq<char>, max: nat)
    ensures
        scan_digits(s, max) matches Ok(v) ==> v < pow10(s.len()),
    decreases s.len(),
{
    if s.len() > 0 {
        lemma_scan_digits_bound(s.drop_last(), max);
        if let Ok(v) = scan_digits(s, max) {
            let w = scan_digits(s.drop_last(), max)->Ok_0;
            let p = pow10(s.drop_last().len());
            let d = digit_value(s.last());
            assert(w < p && d <= 9 ==> w * 10 + d < 10 * p) by (nonlinear_arith);
        }
    }
}

/// A successfully read number of at most three characters is below 1000,
/// and below 10 or 100 for one or two characters.
pub proof fn lemma_parse_unsigned_short(s: Seq<char>, max: nat)
    requires
        1 <= s.len() <= 3,
    ensures
        parse_unsigned(s, max) matches Ok(v) ==> v < 1000 && (s.len() == 1 ==> v < 10) && (
        s.len() == 2 ==> v < 100),
{
    lemma_scan_digits_bound(s, max);
    lemma_scan_digits_bound(s.drop_first(), max);
    assert(pow10(0) == 1);
    assert(pow10(1) == 10);
    assert(pow10(2) == 100);
    assert(pow10(3) == 1000);
}


/// A copy of `v[lo..hi]`.
pub fn copy_range(v: &Vec<char>, lo: usize, hi: usize) -> (r: Vec<char>)
    requires
        lo <= hi <= v.len(),
    ensures
        r@ == v@.subrange(lo as int, hi as int),
{
    let mut r: Vec<char> = Vec::new();
    let mut k = lo;
    while k < hi
        invariant
            lo <= k <= hi <= v.len(),
            r@ == v@.subrange(lo as int, k as int),
        decreases hi - k,
    {
        r.push(v[k]);
        assert(v@.subrange(lo as int, k + 1) =~= v@.subrange(lo as int, k as int).push(v@[k as int]));
        k = k + 1;
    }
    r
}

/// The first whitespace-separated word of `s` (`split_whitespace().next()`),
/// or the empty string when there is none.
pub open spec fn first_word(s: Seq<char>) -> Seq<char> {
    let t = trim_start(s);
    match first_white_from(t, 0) {
        None => t,
        Some(i) => t.subrange(0, i),
    }
}

/// The bounds of `first_word(v[lo..hi])` inside `v`.
pub fn first_word_range(v: &Vec<char>, lo: usize, hi: usize) -> (r: (usize, usize))
    requires
        lo <= hi <= v.len(),
    ensures
        lo <= r.0 <= r.1 <= hi,
        v@.subrange(r.0 as int, r.1 as int) == first_word(v@.subrange(lo as int, hi as int)),
{
    let ghost sub = v@.subrange(lo as int, hi as int);
    let mut a = lo;
    while a < hi && is_white_char(v[a])
        invariant
            lo <= a <= hi <= v.len(),
            forall|j: int| lo <= j < a ==> is_white(v@[j]),
        decreases hi - a,
    {
        a = a + 1;
    }
    proof {
        assert forall|j: int| 0 <= j < a - lo implies is_white(sub[j]) by {
            assert(sub[j] == v@[lo + j]);
        }
        if a < hi {
            assert(sub[a - lo] == v@[a as int]);
        }
        lemma_trim_start_is(sub, a - lo);
        assert(sub.subrange(a - lo, sub.len() as int) =~= v@.subrange(a as int, hi as int));
    }
    let mut b = a;
    while b < hi && !is_white_char(v[b])
        invariant
            a <= b <= hi <= v.len(),
            forall|j: int| a <= j < b ==> !is_white(v@[j]),
        decreases hi - b,
    {
        b = b + 1;
    }
    proof {
        let t = v@.subrange(a as int, hi as int);
        lemma_first_white_from(t, 0);
        assert forall|j: int| 0 <= j < b - a implies !is_white(t[j]) by {
            assert(t[j] == v@[a + j]);
        }
        if b < hi {
            assert(t[b - a] == v@[b as int]);
            assert(first_white_from(t, 0) == Some((b - a) as int)) by {
                let f = first_white_from(t, 0)->0;
                if f < b - a {
                    assert(!is_white(t[f]));
                }
            }
            assert(t.subrange(0, b - a) =~= v@.subrange(a as int, b as int));
        } else {
            assert(first_white_from(t, 0) is None) by {
                if first_white_from(t, 0) is Some {
                    let f = first_white_from(t, 0)->0;
                    assert(!is_white(t[f]));
                }
            }
        }
    }
    (a, b)
}


/// A pattern whose first character does not occur in `s` is not found.
pub proof fn lemma_find_absent(s: Seq<char>, pat: Seq<char>)
    requires
        pat.len() > 0,
        forall|i: int| 0 <= i < s.len() ==> s[i] != pat[0],
    ensures
        find(s, pat) is None,
{
    assert forall|k: int| 0 <= k implies !matches_at(s, pat, k) by {
        if matches_at(s, pat, k) {
            assert(s.subrange(k, k + pat.len())[0] == s[k]);
        }
    }
    lemma_find_from_none(s, pat, 0);
}

/// Splitting at the first occurrence of the separator.
pub proof fn lemma_split_by_first(x: Seq<char>, sep: Seq<char>, y: Seq<char>)
    requires
        sep.len() > 0,
        find(x + sep + y, sep) == Some(x.len() as int),
    ensures
        split_by(x + sep + y, sep) == seq![x] + split_by(y, sep),
{
    let s = x + sep + y;
    assert(s.subrange(0, x.len() as int) =~= x);
    assert(s.subrange((x.len() + sep.len()) as int, s.len() as int) =~= y);
}

/// A one-character separator is found first right after a prefix that
/// does not contain it.
pub proof fn lemma_find_single_after(x: Seq<char>, c: char, y: Seq<char>)
    requires
        forall|i: int| 0 <= i < x.len() ==> x[i] != c,
    ensures
        find(x + seq![c] + y, seq![c]) == Some(x.len() as int),
{
    let s = x + seq![c] + y;
    assert(s.subrange(x.len() as int, (x.len() + 1) as int) =~= seq![c]);
    assert forall|k: int| 0 <= k < x.len() implies !matches_at(s, seq![c], k) by {
        if matches_at(s, seq![c], k) {
            assert(s.subrange(k, k + 1)[0] == s[k]);
        }
    }
    lemma_find_from_is(s, seq![c], 0, x.len() as int);
}

/// Every character of a decimal representation is an ASCII digit.
pub proof fn lemma_decimal_digits(n: nat)
    ensures
        forall|i: int| 0 <= i < decimal(n).len() ==> is_digit(#[trigger] decimal(n)[i]),
    decreases n,
{
    if n >= 10 {
        lemma_decimal_digits(n / 10);
        assert forall|i: int| 0 <= i < decimal(n).len() implies is_digit(#[trigger] decimal(n)[i]) by {
            if i < decimal(n / 10).len() {
                assert(decimal(n)[i] == decimal(n / 10)[i]);
            }
        }
    }
}

/// Every character of a zero-padded number is an ASCII digit.
pub proof fn lemma_zero_padded_digits(n: nat, w: nat)
    ensures
        zero_padded(n, w).len() >= 1,
        zero_padded(n, w).len() >= w,
        forall|i: int| 0 <= i < zero_padded(n, w).len() ==> is_digit(#[trigger] zero_padded(n, w)[i]),
{
    lemma_decimal_digits(n);
    lemma_decimal_len(n);
    let d = decimal(n);
    if d.len() < w {
        let z = Seq::new((w - d.len()) as nat, |_i: int| '0');
        assert forall|i: int| 0 <= i < zero_padded(n, w).len() implies is_digit(
            #[trigger] zero_padded(n, w)[i],
        ) by {
            if i < z.len() {
                assert(zero_padded(n, w)[i] == '0');
            } else {
                assert(zero_padded(n, w)[i] == d[i - z.len()]);
            }
        }
    }
}

pub proof fn lemma_digit_char(d: nat)
    requires
        d < 10,
    ensures
        is_digit(digit_char(d)),
        digit_value(digit_char(d)) == d,
{
    assert(((d + 48) as u8) as char as u32 == d + 48);
}

/// A decimal representation reads back as its number.
pub proof fn lemma_scan_decimal(n: nat, max: nat)
    requires
        n <= max,
    ensures
        scan_digits(decimal(n), max) == Ok::<nat, IntErrorKind>(n),
    decreases n,
{
    lemma_digit_char(n % 10);
    if n < 10 {
        assert(decimal(n).drop_last() =~= Seq::<char>::empty());
        assert(decimal(n).last() == digit_char(n));
        assert(scan_digits(Seq::<char>::empty(), max) == Ok::<nat, IntErrorKind>(0));
        assert(scan_digits(decimal(n).drop_last(), max) == Ok::<nat, IntErrorKind>(0));
    } else {
        lemma_scan_decimal(n / 10, max);
        assert(decimal(n).drop_last() =~= decimal(n / 10));
        assert(decimal(n).last() == digit_char(n % 10));
        assert((n / 10) * 10 + n % 10 == n);
        assert(scan_digits(decimal(n).drop_last(), max) == Ok::<nat, IntErrorKind>(n / 10));
    }
}

/// Leading zeros do not change the value read.
pub proof fn lemma_scan_leading_zeros(k: nat, d: Seq<char>, max: nat)
    ensures
        scan_digits(Seq::new(k, |_i: int| '0') + d, max) == scan_digits(d, max),
    decreases d.len() + k,
{
    let z = Seq::new(k, |_i: int| '0');
    if d.len() == 0 {
        assert(z + d =~= z);
        if k > 0 {
            lemma_scan_leading_zeros((k - 1) as nat, d, max);
            assert(z.drop_last() =~= Seq::new((k - 1) as nat, |_i: int| '0'));
            assert(Seq::new((k - 1) as nat, |_i: int| '0') + d =~= Seq::new(
                (k - 1) as nat,
                |_i: int| '0',
            ));
        }
    } else {
        lemma_scan_leading_zeros(k, d.drop_last(), max);
        assert((z + d).drop_last() =~= z + d.drop_last());
    }
}

/// A zero-padded number reads back as its number.
pub proof fn lemma_parse_zero_padded(n: nat, w: nat, max: nat)
    requires
        n <= max,
    ensures
        parse_unsigned(zero_padded(n, w), max) == Ok::<nat, IntErrorKind>(n),
{
    lemma_scan_decimal(n, max);
    lemma_zero_padded_digits(n, w);
    let d = decimal(n);
    if d.len() < w {
        lemma_scan_leading_zeros((w - d.len()) as nat, d, max);
    }
    assert(is_digit(zero_padded(n, w)[0]));
}


/// Collapsed text holds no whitespace but single spaces, and does not start
/// or end with a space; it is empty only for blank input.
pub proof fn lemma_collapse_shape(s: Seq<char>)
    ensures
        forall|i: int|
            0 <= i < collapse_whitespace(s).len() ==> !is_white(
                #[trigger] collapse_whitespace(s)[i],
            ) || collapse_whitespace(s)[i] == ' ',
        collapse_whitespace(s).len() > 0 ==> !is_white(collapse_whitespace(s)[0]) && !is_white(
            collapse_whitespace(s)[collapse_whitespace(s).len() - 1],
        ),
        (collapse_whitespace(s).len() == 0) == (trim(s).len() == 0),
    decreases s.len(),
{
    let t = trim(s);
    let ab = lemma_trim_shape(s);
    lemma_first_white_from(t, 0);
    let c = collapse_whitespace(s);
    if t.len() > 0 {
        assert(t[0] == s[ab.0]);
        assert(t[t.len() - 1] == s[ab.1 - 1]);
    }
    match first_white_from(t, 0) {
        None => {
            assert(c == t);
        },
        Some(i) => {
            let rest = t.subrange(i, t.len() as int);
            lemma_collapse_shape(rest);
            let rab = lemma_trim_shape(rest);
            assert(rest[rest.len() - 1] == t[t.len() - 1]);
            if rab.0 == rab.1 {
                assert(is_white(rest[rest.len() - 1]));
            }
            let cr = collapse_whitespace(rest);
            assert(c == t.subrange(0, i) + seq![' '] + cr);
            assert forall|j: int| 0 <= j < c.len() implies !is_white(#[trigger] c[j]) || c[j] == ' ' by {
                if j < i {
                    assert(c[j] == t[j]);
                } else if j == i {
                } else {
                    assert(c[j] == cr[j - i - 1]);
                }
            }
            assert(c[0] == t[0]);
            assert(c[c.len() - 1] == cr[cr.len() - 1]);
        },
    }
}

/// A string starting with a non-whitespace character is not blank.
pub proof fn lemma_not_blank(s: Seq<char>)
    requires
        s.len() > 0,
        !is_white(s[0]),
    ensures
        !is_blank(s),
{
    let ab = lemma_trim_shape(s);
}


/// `s.trim()` as a new string.
pub fn trimmed(s: &str) -> (t: String)
    ensures
        t@ == trim(s@),
{
    let cs = chars_of(s);
    let (a, b) = trim_range(&cs, 0, cs.len());
    assert(cs@.subrange(0, cs@.len() as int) =~= cs@);
    string_of(&copy_range(&cs, a, b))
}

/// Whether two strings hold the same characters.
pub fn same_text(a: &str, b: &str) -> (r: bool)
    ensures
        r == (a@ == b@),
{
    let x = chars_of(a);
    let y = chars_of(b);
    if x.len() != y.len() {
        return false;
    }
    let mut i: usize = 0;
    while i < x.len()
        invariant
            0 <= i <= x.len(),
            x.len() == y.len(),
            x@ == a@,
            y@ == b@,
            forall|j: int| 0 <= j < i ==> x@[j] == y@[j],
        decreases x.len() - i,
    {
        if x[i] != y[i] {
            return false;
        }
        i = i + 1;
    }
    assert(x@ =~= y@);
    true
}

/// ASCII `A`..`Z` mapped to `a`..`z`; every other character unchanged.
pub open spec fn ascii_lower(c: char) -> char {
    if 'A' <= c <= 'Z' {
        ((c as u32) + 32) as char
    } else {
        c
    }
}

/// What `str::to_lowercase` returns for `s`: the Unicode lowercase mapping,
/// which depends on the characters alone.
pub uninterp spec fn lowercase(s: Seq<char>) -> Seq<char>;

/// `s.to_lowercase()`.
///
/// Trusted: calls `str::to_lowercase`. Its result is named `lowercase(s)`;
/// std documents it as the Unicode lowercase mapping, which on ASCII text
/// maps `A`..`Z` to `a`..`z` and keeps every other character. That ASCII
/// case is stated; the rest of Unicode is left to the name.
#[verifier::external_body]
pub(crate) fn to_lower(s: &str) -> (r: String)
    ensures
        r@ == lowercase(s@),
        (forall|i: int| 0 <= i < s@.len() ==> (s@[i] as u32) < 128) ==> r@ == s@.map_values(
            |c: char| ascii_lower(c),
        ),
{
    s.to_lowercase()
}

} // verus!
