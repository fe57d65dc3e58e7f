//! The job key's JSON text determines the job's inputs: two inputs that
//! differ in any field give different texts.

use vstd::prelude::*;

use crate::cache::{
    field_names, field_values, fingerprint_json, hex_digit, json_escape, json_escaped,
    json_key, json_optional, json_string, members, JobFingerprintInput,
};
use crate::text::{decimal, is_digit, lemma_decimal_digits, lemma_scan_decimal};

verus! {

proof fn lemma_cancel_prefix(p: Seq<char>, x: Seq<char>, y: Seq<char>)
    requires
        p + x == p + y,
    ensures
        x == y,
{
    assert(x =~= (p + x).subrange(p.len() as int, (p + x).len() as int));
    assert(y =~= (p + y).subrange(p.len() as int, (p + y).len() as int));
}

/// Equal texts that start with sequences of the same length agree on both
/// parts.
proof fn lemma_split_equal(a: Seq<char>, x: Seq<char>, b: Seq<char>, y: Seq<char>)
    requires
        a + x == b + y,
        a.len() == b.len(),
    ensures
        a == b,
        x == y,
{
    assert(a =~= (a + x).subrange(0, a.len() as int));
    assert(b =~= (b + y).subrange(0, b.len() as int));
    lemma_cancel_prefix(a, x, y);
}

proof fn lemma_escaped_front(c: char, s: Seq<char>)
    ensures
        json_escaped(seq![c] + s) == json_escape(c) + json_escaped(s),
    decreases s.len(),
{
    if s.len() == 0 {
        assert((seq![c] + s).drop_last() =~= Seq::<char>::empty());
        assert(seq![c] + s =~= seq![c]);
        assert(json_escaped(seq![c]) == json_escaped(Seq::<char>::empty()) + json_escape(c));
        assert(json_escaped(seq![c]) =~= json_escape(c) + json_escaped(s));
    } else {
        let t = s.drop_last();
        lemma_escaped_front(c, t);
        assert((seq![c] + s).drop_last() =~= seq![c] + t);
        assert((seq![c] + s).last() == s.last());
        assert(json_escaped(seq![c] + s) =~= json_escape(c) + json_escaped(s));
    }
}

proof fn lemma_hex_digit_injective(a: nat, b: nat)
    requires
        a < 16,
        b < 16,
        hex_digit(a) == hex_digit(b),
    ensures
        a == b,
{
    assert(hex_digit(a) as u32 == (if a < 10 {
        48 + a
    } else {
        87 + a
    }));
    assert(hex_digit(b) as u32 == (if b < 10 {
        48 + b
    } else {
        87 + b
    }));
}

/// No character's escape begins with an unescaped quote.
proof fn lemma_escape_shape(c: char)
    ensures
        json_escape(c).len() >= 1,
        json_escape(c)[0] != '"',
        json_escape(c)[0] != '\\' ==> json_escape(c) == seq![c],
        json_escape(c)[0] == '\\' ==> json_escape(c).len() >= 2,
{
}

/// Escapes are prefix-free: the escape of one character cannot be a proper
/// start of another's, so equal texts begin with the same character.
proof fn lemma_escape_unique(a: char, x: Seq<char>, b: char, y: Seq<char>)
    requires
        json_escape(a) + x == json_escape(b) + y,
    ensures
        a == b,
        x == y,
{
    let ea = json_escape(a);
    let eb = json_escape(b);
    let t = ea + x;
    lemma_escape_shape(a);
    lemma_escape_shape(b);
    assert(t[0] == ea[0]);
    assert(t[0] == eb[0]);
    if ea[0] != '\\' {
        assert(eb[0] != '\\');
        assert(a == b);
    } else {
        assert(t[1] == ea[1]);
        assert(t[1] == eb[1]);
        let ua = a as u32;
        let ub = b as u32;
        if ea[1] == 'u' {
            assert(eb[1] == 'u');
            assert(ea.len() == 6 && eb.len() == 6);
            assert(t[4] == ea[4] && t[4] == eb[4]);
            assert(t[5] == ea[5] && t[5] == eb[5]);
            lemma_hex_digit_injective((ua / 16) as nat, (ub / 16) as nat);
            lemma_hex_digit_injective((ua % 16) as nat, (ub % 16) as nat);
            assert(ua == ub);
        } else {
            assert(eb[1] != 'u');
        }
        assert(a == b);
    }
    lemma_cancel_prefix(ea, x, y);
}

/// The escaped text of a string, followed by a closing quote, determines
/// the string and what follows.
proof fn lemma_escaped_unique(s1: Seq<char>, r1: Seq<char>, s2: Seq<char>, r2: Seq<char>)
    requires
        r1.len() > 0,
        r1[0] == '"',
        r2.len() > 0,
        r2[0] == '"',
        json_escaped(s1) + r1 == json_escaped(s2) + r2,
    ensures
        s1 == s2,
        r1 == r2,
    decreases s1.len(),
{
    if s1.len() == 0 && s2.len() == 0 {
        assert(json_escaped(s1) =~= Seq::<char>::empty());
        assert(json_escaped(s2) =~= Seq::<char>::empty());
        assert(r1 =~= json_escaped(s1) + r1);
        assert(r2 =~= json_escaped(s2) + r2);
        assert(s1 =~= s2);
    } else if s1.len() == 0 {
        let c = s2[0];
        let rest = s2.drop_first();
        assert(s2 =~= seq![c] + rest);
        lemma_escaped_front(c, rest);
        lemma_escape_shape(c);
        assert(json_escaped(s1) =~= Seq::<char>::empty());
        assert((json_escaped(s1) + r1)[0] == r1[0]);
        assert((json_escape(c) + json_escaped(rest) + r2)[0] == json_escape(c)[0]);
        assert(json_escaped(s2) + r2 =~= json_escape(c) + json_escaped(rest) + r2);
    } else if s2.len() == 0 {
        let c = s1[0];
        let rest = s1.drop_first();
        assert(s1 =~= seq![c] + rest);
        lemma_escaped_front(c, rest);
        lemma_escape_shape(c);
        assert(json_escaped(s2) =~= Seq::<char>::empty());
        assert((json_escaped(s2) + r2)[0] == r2[0]);
        assert((json_escape(c) + json_escaped(rest) + r1)[0] == json_escape(c)[0]);
        assert(json_escaped(s1) + r1 =~= json_escape(c) + json_escaped(rest) + r1);
    } else {
        let a = s1[0];
        let b = s2[0];
        let t1 = s1.drop_first();
        let t2 = s2.drop_first();
        assert(s1 =~= seq![a] + t1);
        assert(s2 =~= seq![b] + t2);
        lemma_escaped_front(a, t1);
        lemma_escaped_front(b, t2);
        assert(json_escaped(s1) + r1 =~= json_escape(a) + (json_escaped(t1) + r1));
        assert(json_escaped(s2) + r2 =~= json_escape(b) + (json_escaped(t2) + r2));
        lemma_escape_unique(a, json_escaped(t1) + r1, b, json_escaped(t2) + r2);
        lemma_escaped_unique(t1, r1, t2, r2);
        assert(s1 =~= s2);
    }
}

/// A JSON string literal determines its string and what follows it.
proof fn lemma_json_string_unique(s1: Seq<char>, r1: Seq<char>, s2: Seq<char>, r2: Seq<char>)
    requires
        json_string(s1) + r1 == json_string(s2) + r2,
    ensures
        s1 == s2,
        r1 == r2,
{
    let q = seq!['"'];
    assert(json_string(s1) + r1 =~= q + (json_escaped(s1) + (q + r1)));
    assert(json_string(s2) + r2 =~= q + (json_escaped(s2) + (q + r2)));
    lemma_cancel_prefix(q, json_escaped(s1) + (q + r1), json_escaped(s2) + (q + r2));
    lemma_escaped_unique(s1, q + r1, s2, q + r2);
    lemma_cancel_prefix(q, r1, r2);
}

/// A decimal followed by a non-digit determines the number and what
/// follows it.
proof fn lemma_decimal_unique(n1: nat, r1: Seq<char>, n2: nat, r2: Seq<char>)
    requires
        r1.len() > 0,
        !is_digit(r1[0]),
        r2.len() > 0,
        !is_digit(r2[0]),
        decimal(n1) + r1 == decimal(n2) + r2,
    ensures
        n1 == n2,
        r1 == r2,
{
    let d1 = decimal(n1);
    let d2 = decimal(n2);
    lemma_decimal_digits(n1);
    lemma_decimal_digits(n2);
    let t = d1 + r1;
    if d1.len() < d2.len() {
        assert(t[d1.len() as int] == r1[0]);
        assert((d2 + r2)[d1.len() as int] == d2[d1.len() as int]);
        assert(false);
    }
    if d2.len() < d1.len() {
        assert((d2 + r2)[d2.len() as int] == r2[0]);
        assert(t[d2.len() as int] == d1[d2.len() as int]);
        assert(false);
    }
    lemma_split_equal(d1, r1, d2, r2);
    lemma_scan_decimal(n1, n1 + n2);
    lemma_scan_decimal(n2, n1 + n2);
}

/// The value of an optional number followed by a non-digit determines the
/// option and what follows it.
proof fn lemma_optional_unique(o1: Option<u32>, r1: Seq<char>, o2: Option<u32>, r2: Seq<char>)
    requires
        r1.len() > 0,
        !is_digit(r1[0]),
        r2.len() > 0,
        !is_digit(r2[0]),
        json_optional(o1) + r1 == json_optional(o2) + r2,
    ensures
        o1 == o2,
        r1 == r2,
{
    reveal_strlit("null");
    match (o1, o2) {
        (Some(a), Some(b)) => {
            lemma_decimal_unique(a as nat, r1, b as nat, r2);
        },
        (None, None) => {
            lemma_cancel_prefix("null"@, r1, r2);
        },
        (Some(a), None) => {
            lemma_decimal_digits(a as nat);
            assert((decimal(a as nat) + r1)[0] == decimal(a as nat)[0]);
            assert(("null"@ + r2)[0] == 'n');
        },
        (None, Some(b)) => {
            lemma_decimal_digits(b as nat);
            assert((decimal(b as nat) + r2)[0] == decimal(b as nat)[0]);
            assert(("null"@ + r1)[0] == 'n');
        },
    }
}

/// How a value is followed inside the object: by a comma or the closing
/// brace, neither a digit nor a quote.
spec fn follows_value(r: Seq<char>) -> bool {
    r.len() > 0 && (r[0] == ',' || r[0] == '}')
}

proof fn lemma_members_follow(names: Seq<Seq<char>>, values: Seq<Seq<char>>, k: int)
    requires
        names.len() == values.len(),
        0 <= k < names.len(),
    ensures
        members(names.subrange(k, names.len() as int), values.subrange(k, values.len() as int))
            == json_key(names[k]) + (values[k] + (if k + 1 < names.len() {
            seq![','] + members(
                names.subrange(k + 1, names.len() as int),
                values.subrange(k + 1, values.len() as int),
            )
        } else {
            seq!['}']
        })),
{
    let ns = names.subrange(k, names.len() as int);
    let vs = values.subrange(k, values.len() as int);
    assert(ns.drop_first() =~= names.subrange(k + 1, names.len() as int));
    assert(vs.drop_first() =~= values.subrange(k + 1, values.len() as int));
    assert(ns[0] == names[k]);
    assert(vs[0] == values[k]);
}

/// Members with the same names and equal texts have equal values, when
/// each value determines itself in front of a comma or brace.
proof fn lemma_members_unique(
    names: Seq<Seq<char>>,
    v1: Seq<Seq<char>>,
    v2: Seq<Seq<char>>,
    k: int,
)
    requires
        names.len() == v1.len(),
        names.len() == v2.len(),
        0 <= k < names.len(),
        members(names.subrange(k, names.len() as int), v1.subrange(k, v1.len() as int)) == members(
            names.subrange(k, names.len() as int),
            v2.subrange(k, v2.len() as int),
        ),
        forall|j: int, r1: Seq<char>, r2: Seq<char>|
            k <= j < names.len() && follows_value(r1) && follows_value(r2) && #[trigger] (v1[j]
                + r1) == #[trigger] (v2[j] + r2) ==> v1[j] == v2[j] && r1 == r2,
    ensures
        forall|j: int| k <= j < names.len() ==> v1[j] == v2[j],
    decreases names.len() - k,
{
    lemma_members_follow(names, v1, k);
    lemma_members_follow(names, v2, k);
    let rest1 = if k + 1 < names.len() {
        seq![','] + members(
            names.subrange(k + 1, names.len() as int),
            v1.subrange(k + 1, v1.len() as int),
        )
    } else {
        seq!['}']
    };
    let rest2 = if k + 1 < names.len() {
        seq![','] + members(
            names.subrange(k + 1, names.len() as int),
            v2.subrange(k + 1, v2.len() as int),
        )
    } else {
        seq!['}']
    };
    lemma_cancel_prefix(json_key(names[k]), v1[k] + rest1, v2[k] + rest2);
    assert(follows_value(rest1));
    assert(follows_value(rest2));
    assert(v1[k] == v2[k] && rest1 == rest2);
    if k + 1 < names.len() {
        lemma_cancel_prefix(
            seq![','],
            members(names.subrange(k + 1, names.len() as int), v1.subrange(k + 1, v1.len() as int)),
            members(names.subrange(k + 1, names.len() as int), v2.subrange(k + 1, v2.len() as int)),
        );
        lemma_members_unique(names, v1, v2, k + 1);
    }
}

/// The job key's text determines every input: two inputs whose JSON texts
/// are equal agree in every field, so a change in any semantic input
/// changes the text that is hashed.
pub proof fn lemma_fingerprint_json_injective(a: JobFingerprintInput, b: JobFingerprintInput)
    requires
        fingerprint_json(a) == fingerprint_json(b),
    ensures
        a.input_path@ == b.input_path@,
        a.input_size == b.input_size,
        a.input_modified_unix_ms == b.input_modified_unix_ms,
        a.audio_stream_index == b.audio_stream_index,
        a.subtitle_stream_index == b.subtitle_stream_index,
        a.translation_model@ == b.translation_model@,
        a.tts_engine@ == b.tts_engine@,
        a.tts_model@ == b.tts_model@,
        a.tts_speaker@ == b.tts_speaker@,
        a.original_volume_milli == b.original_volume_milli,
{
    let names = field_names();
    let v1 = field_values(a);
    let v2 = field_values(b);
    lemma_cancel_prefix(seq!['{'], members(names, v1), members(names, v2));
    assert(names.subrange(0, 10) =~= names);
    assert(v1.subrange(0, 10) =~= v1);
    assert(v2.subrange(0, 10) =~= v2);
    assert forall|j: int, r1: Seq<char>, r2: Seq<char>|
        0 <= j < names.len() && follows_value(r1) && follows_value(r2) && #[trigger] (v1[j] + r1)
            == #[trigger] (v2[j] + r2) implies v1[j] == v2[j] && r1 == r2 by {
        if j == 0 {
            lemma_json_string_unique(a.input_path@, r1, b.input_path@, r2);
        } else if j == 1 {
            lemma_decimal_unique(a.input_size as nat, r1, b.input_size as nat, r2);
        } else if j == 2 {
            lemma_decimal_unique(
                a.input_modified_unix_ms as nat,
                r1,
                b.input_modified_unix_ms as nat,
                r2,
            );
        } else if j == 3 {
            lemma_decimal_unique(a.audio_stream_index as nat, r1, b.audio_stream_index as nat, r2);
        } else if j == 4 {
            lemma_optional_unique(a.subtitle_stream_index, r1, b.subtitle_stream_index, r2);
        } else if j == 5 {
            lemma_json_string_unique(a.translation_model@, r1, b.translation_model@, r2);
        } else if j == 6 {
            lemma_json_string_unique(a.tts_engine@, r1, b.tts_engine@, r2);
        } else if j == 7 {
            lemma_json_string_unique(a.tts_model@, r1, b.tts_model@, r2);
        } else if j == 8 {
            lemma_json_string_unique(a.tts_speaker@, r1, b.tts_speaker@, r2);
        } else {
            lemma_decimal_unique(
                a.original_volume_milli as nat,
                r1,
                b.original_volume_milli as nat,
                r2,
            );
        }
    }
    lemma_members_unique(names, v1, v2, 0);
    let c = seq![','];
    assert(v1[0] + c == v2[0] + c);
    lemma_json_string_unique(a.input_path@, c, b.input_path@, c);
    assert(v1[1] + c == v2[1] + c);
    lemma_decimal_unique(a.input_size as nat, c, b.input_size as nat, c);
    assert(v1[2] + c == v2[2] + c);
    lemma_decimal_unique(a.input_modified_unix_ms as nat, c, b.input_modified_unix_ms as nat, c);
    assert(v1[3] + c == v2[3] + c);
    lemma_decimal_unique(a.audio_stream_index as nat, c, b.audio_stream_index as nat, c);
    assert(v1[4] + c == v2[4] + c);
    lemma_optional_unique(a.subtitle_stream_index, c, b.subtitle_stream_index, c);
    assert(v1[5] + c == v2[5] + c);
    lemma_json_string_unique(a.translation_model@, c, b.translation_model@, c);
    assert(v1[6] + c == v2[6] + c);
    lemma_json_string_unique(a.tts_engine@, c, b.tts_engine@, c);
    assert(v1[7] + c == v2[7] + c);
    lemma_json_string_unique(a.tts_model@, c, b.tts_model@, c);
    assert(v1[8] + c == v2[8] + c);
    lemma_json_string_unique(a.tts_speaker@, c, b.tts_speaker@, c);
    assert(v1[9] + c == v2[9] + c);
    lemma_decimal_unique(a.original_volume_milli as nat, c, b.original_volume_milli as nat, c);
}

} // verus!
