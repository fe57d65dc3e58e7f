//! A deterministic job key for the result cache: the job's semantic inputs
//! as compact JSON, hashed with SHA-256 and written in lower-case hex.

use vstd::prelude::*;
use vstd::utf8::encode_utf8;

use crate::text::{chars_of, decimal, push_decimal, string_of};

verus! {

/// The inputs that decide the result of a dubbing job.
#[derive(Clone, Copy, Debug)]
pub struct JobFingerprintInput<'a> {
    pub input_path: &'a str,
    pub input_size: u64,
    pub input_modified_unix_ms: u64,
    pub audio_stream_index: u32,
    pub subtitle_stream_index: Option<u32>,
    pub translation_model: &'a str,
    pub tts_engine: &'a str,
    pub tts_model: &'a str,
    pub tts_speaker: &'a str,
    pub original_volume_milli: u16,
}

/// A lower-case hexadecimal digit.
pub open spec fn hex_digit(d: nat) -> char {
    if d < 10 {
        ((48 + d) as u8) as char
    } else {
        ((87 + d) as u8) as char
    }
}

/// How a character appears inside a JSON string: `"` and `\` and the
/// control characters are escaped, with the short forms for backspace,
/// tab, newline, form feed and carriage return and `\u00XX` for the rest.
pub open spec fn json_escape(c: char) -> Seq<char> {
    let u = c as u32;
    if c == '"' {
        seq!['\\', '"']
    } else if c == '\\' {
        seq!['\\', '\\']
    } else if u == 8 {
        seq!['\\', 'b']
    } else if u == 9 {
        seq!['\\', 't']
    } else if u == 10 {
        seq!['\\', 'n']
    } else if u == 12 {
        seq!['\\', 'f']
    } else if u == 13 {
        seq!['\\', 'r']
    } else if u < 32 {
        seq!['\\', 'u', '0', '0', hex_digit((u / 16) as nat), hex_digit((u % 16) as nat)]
    } else {
        seq![c]
    }
}

/// The characters of `s` escaped for a JSON string.
pub open spec fn json_escaped(s: Seq<char>) -> Seq<char>
    decreases s.len(),
{
    if s.len() == 0 {
        seq![]
    } else {
        json_escaped(s.drop_last()) + json_escape(s.last())
    }
}

/// A JSON string literal.
pub open spec fn json_string(s: Seq<char>) -> Seq<char> {
    seq!['"'] + json_escaped(s) + seq!['"']
}

/// `"name":` as JSON object members begin.
pub open spec fn json_key(name: Seq<char>) -> Seq<char> {
    json_string(name) + seq![':']
}

/// The JSON text of an optional number: the number, or `null`.
pub open spec fn json_optional(n: Option<u32>) -> Seq<char> {
    match n {
        Some(v) => decimal(v as nat),
        None => "null"@,
    }
}

/// The object's members from `names` and `values`, `"name":value` joined
/// by commas, then the closing brace.
pub open spec fn members(names: Seq<Seq<char>>, values: Seq<Seq<char>>) -> Seq<char>
    decreases names.len(),
{
    if names.len() <= 1 || values.len() <= 1 {
        if names.len() == 0 || values.len() == 0 {
            seq!['}']
        } else {
            json_key(names[0]) + (values[0] + seq!['}'])
        }
    } else {
        json_key(names[0]) + (values[0] + (seq![','] + members(
            names.drop_first(),
            values.drop_first(),
        )))
    }
}

/// The field names of the inputs, in declaration order.
pub open spec fn field_names() -> Seq<Seq<char>> {
    seq![
        "input_path"@,
        "input_size"@,
        "input_modified_unix_ms"@,
        "audio_stream_index"@,
        "subtitle_stream_index"@,
        "translation_model"@,
        "tts_engine"@,
        "tts_model"@,
        "tts_speaker"@,
        "original_volume_milli"@,
    ]
}

/// The JSON values of the inputs, in declaration order.
pub open spec fn field_values(i: JobFingerprintInput) -> Seq<Seq<char>> {
    seq![
        json_string(i.input_path@),
        decimal(i.input_size as nat),
        decimal(i.input_modified_unix_ms as nat),
        decimal(i.audio_stream_index as nat),
        json_optional(i.subtitle_stream_index),
        json_string(i.translation_model@),
        json_string(i.tts_engine@),
        json_string(i.tts_model@),
        json_string(i.tts_speaker@),
        decimal(i.original_volume_milli as nat),
    ]
}

/// The compact JSON object of the inputs, fields in declaration order:
/// what `serde_json::to_vec` writes for the struct.
pub open spec fn fingerprint_json(i: JobFingerprintInput) -> Seq<char> {
    seq!['{'] + members(field_names(), field_values(i))
}

/// Each byte as two lower-case hexadecimal digits.
pub open spec fn lower_hex(bytes: Seq<u8>) -> Seq<char>
    decreases bytes.len(),
{
    if bytes.len() == 0 {
        seq![]
    } else {
        lower_hex(bytes.drop_last()) + seq![
            hex_digit((bytes.last() / 16) as nat),
            hex_digit((bytes.last() % 16) as nat),
        ]
    }
}

/// The SHA-256 digest of a byte string.
pub uninterp spec fn sha256_digest(data: Seq<u8>) -> Seq<u8>;

/// Hashes bytes with SHA-256.
///
/// Trusted: calls `sha2::Sha256::digest`; the digest is named
/// `sha256_digest` of the input bytes and, as the output type fixes, is 32
/// bytes long.
#[verifier::external_body]
fn sha256(data: &[u8]) -> (d: Vec<u8>)
    ensures
        d@ == sha256_digest(data@),
        d@.len() == 32,
{
    <sha2::Sha256 as sha2::Digest>::digest(data).to_vec()
}

fn push_text(out: &mut Vec<char>, s: &str)
    ensures
        final(out)@ == old(out)@ + s@,
{
    let cs = chars_of(s);
    let mut i: usize = 0;
    let ghost start = out@;
    while i < cs.len()
        invariant
            0 <= i <= cs@.len(),
            cs@ == s@,
            out@ == start + cs@.subrange(0, i as int),
        decreases cs.len() - i,
    {
        out.push(cs[i]);
        assert(cs@.subrange(0, i + 1) =~= cs@.subrange(0, i as int).push(cs@[i as int]));
        i = i + 1;
    }
    assert(cs@.subrange(0, cs@.len() as int) =~= cs@);
}

fn hex_char(d: u8) -> (c: char)
    requires
        d < 16,
    ensures
        c == hex_digit(d as nat),
{
    if d < 10 {
        (48 + d) as char
    } else {
        (87 + d) as char
    }
}

fn push_escaped(out: &mut Vec<char>, c: char)
    ensures
        final(out)@ == old(out)@ + json_escape(c),
{
    let u = c as u32;
    let ghost start = out@;
    if c == '"' {
        out.push('\\');
        out.push('"');
    } else if c == '\\' {
        out.push('\\');
        out.push('\\');
    } else if u == 8 {
        out.push('\\');
        out.push('b');
    } else if u == 9 {
        out.push('\\');
        out.push('t');
    } else if u == 10 {
        out.push('\\');
        out.push('n');
    } else if u == 12 {
        out.push('\\');
        out.push('f');
    } else if u == 13 {
        out.push('\\');
        out.push('r');
    } else if u < 32 {
        out.push('\\');
        out.push('u');
        out.push('0');
        out.push('0');
        out.push(hex_char((u / 16) as u8));
        out.push(hex_char((u % 16) as u8));
    } else {
        out.push(c);
    }
    assert(out@ =~= start + json_escape(c));
}

fn push_json_string(out: &mut Vec<char>, s: &str)
    ensures
        final(out)@ == old(out)@ + json_string(s@),
{
    let cs = chars_of(s);
    let ghost start = out@;
    out.push('"');
    let mut i: usize = 0;
    while i < cs.len()
        invariant
            0 <= i <= cs@.len(),
            cs@ == s@,
            out@ == start + seq!['"'] + json_escaped(cs@.subrange(0, i as int)),
        decreases cs.len() - i,
    {
        push_escaped(out, cs[i]);
        assert(cs@.subrange(0, i + 1).drop_last() =~= cs@.subrange(0, i as int));
        i = i + 1;
    }
    assert(cs@.subrange(0, cs@.len() as int) =~= cs@);
    out.push('"');
    assert(out@ =~= start + json_string(s@));
}

fn push_key(out: &mut Vec<char>, name: &str)
    ensures
        final(out)@ == old(out)@ + json_key(name@),
{
    let ghost start = out@;
    push_json_string(out, name);
    out.push(':');
    assert(out@ =~= start + json_key(name@));
}

fn push_number(out: &mut Vec<char>, n: u64)
    ensures
        final(out)@ == old(out)@ + decimal(n as nat),
{
    push_decimal(out, n);
}

fn json_string_chars(s: &str) -> (v: Vec<char>)
    ensures
        v@ == json_string(s@),
{
    let mut v: Vec<char> = Vec::new();
    push_json_string(&mut v, s);
    assert(v@ =~= json_string(s@));
    v
}

fn number_chars(n: u64) -> (v: Vec<char>)
    ensures
        v@ == decimal(n as nat),
{
    let mut v: Vec<char> = Vec::new();
    push_number(&mut v, n);
    assert(v@ =~= decimal(n as nat));
    v
}

pub open spec fn vec_views(v: Seq<Vec<char>>) -> Seq<Seq<char>> {
    v.map_values(|x: Vec<char>| x@)
}

pub open spec fn str_views(v: Seq<&str>) -> Seq<Seq<char>> {
    v.map_values(|x: &str| x@)
}

/// Writes the members of an object and its closing brace.
fn push_members(out: &mut Vec<char>, names: &Vec<&str>, values: &Vec<Vec<char>>)
    requires
        names@.len() == values@.len(),
        names@.len() >= 1,
    ensures
        final(out)@ == old(out)@ + members(str_views(names@), vec_views(values@)),
{
    let ghost start = out@;
    let ghost nv = str_views(names@);
    let ghost vv = vec_views(values@);
    let mut k: usize = 0;
    assert(nv.subrange(0, nv.len() as int) =~= nv);
    assert(vv.subrange(0, vv.len() as int) =~= vv);
    while k < names.len()
        invariant
            0 <= k <= names@.len(),
            names@.len() == values@.len(),
            names@.len() >= 1,
            nv == str_views(names@),
            vv == vec_views(values@),
            k < names@.len() ==> out@ + members(
                nv.subrange(k as int, nv.len() as int),
                vv.subrange(k as int, vv.len() as int),
            ) == start + members(nv, vv),
            k == names@.len() ==> out@ == start + members(nv, vv),
        decreases names.len() - k,
    {
        let ghost before = out@;
        let ghost ns = nv.subrange(k as int, nv.len() as int);
        let ghost vs = vv.subrange(k as int, vv.len() as int);
        assert(ns[0] == names@[k as int]@);
        assert(vs[0] == values@[k as int]@);
        push_key(out, names[k]);
        let value = &values[k];
        let mut j: usize = 0;
        let ghost mid = out@;
        while j < value.len()
            invariant
                0 <= j <= value@.len(),
                out@ == mid + value@.subrange(0, j as int),
            decreases value.len() - j,
        {
            out.push(value[j]);
            assert(value@.subrange(0, j + 1) =~= value@.subrange(0, j as int).push(
                value@[j as int],
            ));
            j = j + 1;
        }
        assert(value@.subrange(0, value@.len() as int) =~= value@);
        if k + 1 < names.len() {
            out.push(',');
            proof {
                assert(ns.drop_first() =~= nv.subrange(k + 1, nv.len() as int));
                assert(vs.drop_first() =~= vv.subrange(k + 1, vv.len() as int));
                let tail = members(ns.drop_first(), vs.drop_first());
                assert(members(ns, vs) == json_key(ns[0]) + (vs[0] + (seq![','] + tail)));
                assert(out@ =~= before + json_key(ns[0]) + vs[0] + seq![',']);
                assert(out@ + tail =~= before + members(ns, vs));
            }
        } else {
            out.push('}');
            proof {
                assert(members(ns, vs) == json_key(ns[0]) + (vs[0] + seq!['}']));
                assert(out@ =~= before + members(ns, vs));
            }
        }
        k = k + 1;
    }
}

/// The JSON text of the inputs.
pub fn fingerprint_text(input: &JobFingerprintInput) -> (s: String)
    ensures
        s@ == fingerprint_json(*input),
{
    let names: Vec<&str> = vec![
        "input_path",
        "input_size",
        "input_modified_unix_ms",
        "audio_stream_index",
        "subtitle_stream_index",
        "translation_model",
        "tts_engine",
        "tts_model",
        "tts_speaker",
        "original_volume_milli",
    ];
    let optional = match input.subtitle_stream_index {
        Some(n) => number_chars(n as u64),
        None => {
            let mut v: Vec<char> = Vec::new();
            push_text(&mut v, "null");
            assert(v@ =~= "null"@);
            v
        },
    };
    let values: Vec<Vec<char>> = vec![
        json_string_chars(input.input_path),
        number_chars(input.input_size),
        number_chars(input.input_modified_unix_ms),
        number_chars(input.audio_stream_index as u64),
        optional,
        json_string_chars(input.translation_model),
        json_string_chars(input.tts_engine),
        json_string_chars(input.tts_model),
        json_string_chars(input.tts_speaker),
        number_chars(input.original_volume_milli as u64),
    ];
    assert(str_views(names@) =~= field_names());
    assert(vec_views(values@) =~= field_values(*input));
    let mut out: Vec<char> = Vec::new();
    out.push('{');
    push_members(&mut out, &names, &values);
    assert(out@ =~= fingerprint_json(*input));
    string_of(&out)
}

fn hex_text(bytes: &Vec<u8>) -> (s: String)
    ensures
        s@ == lower_hex(bytes@),
        s@.len() == 2 * bytes@.len(),
{
    let mut out: Vec<char> = Vec::new();
    let mut i: usize = 0;
    while i < bytes.len()
        invariant
            0 <= i <= bytes@.len(),
            out@ == lower_hex(bytes@.subrange(0, i as int)),
            out@.len() == 2 * i,
        decreases bytes.len() - i,
    {
        let b = bytes[i];
        out.push(hex_char(b / 16));
        out.push(hex_char(b % 16));
        assert(bytes@.subrange(0, i + 1).drop_last() =~= bytes@.subrange(0, i as int));
        assert(out@ =~= lower_hex(bytes@.subrange(0, i + 1)));
        i = i + 1;
    }
    assert(bytes@.subrange(0, bytes@.len() as int) =~= bytes@);
    string_of(&out)
}

/// The job key: the lower-case hex SHA-256 digest of the inputs' compact
/// JSON text in UTF-8, 64 characters long.
pub fn job_fingerprint(input: &JobFingerprintInput) -> (key: String)
    ensures
        key@ == lower_hex(sha256_digest(encode_utf8(fingerprint_json(*input)))),
        key@.len() == 64,
{
    let text = fingerprint_text(input);
    let digest = sha256(text.as_str().as_bytes());
    hex_text(&digest)
}

} // verus!
