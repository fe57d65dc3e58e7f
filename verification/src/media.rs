//! Normalising `ffprobe` metadata and classifying media streams.

use vstd::prelude::*;

use crate::text::{lowercase, same_text, to_lower, trim, trimmed};

verus! {

/// The kind of a stream inside a media container.
#[derive(Clone, Copy, Debug, PartialEq, Eq, Structural)]
pub enum StreamType {
    Video,
    Audio,
    Subtitle,
    Other,
}

/// How subtitles are stored, which decides the processing route.
#[derive(Clone, Copy, Debug, PartialEq, Eq, Structural)]
pub enum SubtitleKind {
    Text,
    Image,
}

/// A normalised stream description.
#[derive(Clone, Debug, PartialEq, Eq)]
pub struct StreamInfo {
    pub index: u32,
    pub stream_type: StreamType,
    pub codec_name: Option<String>,
    pub language: Option<String>,
    pub title: Option<String>,
    pub channels: Option<u32>,
    pub channel_layout: Option<String>,
    pub is_default: bool,
    pub subtitle_kind: Option<SubtitleKind>,
}

/// The container and its streams. The container's duration is read from
/// text as a float and is kept beside this value by its callers.
#[derive(Clone, Debug, PartialEq, Eq)]
pub struct MediaInfo {
    pub streams: Vec<StreamInfo>,
    pub chapter_count: usize,
    pub format_name: Option<String>,
}

/// One stream of an `ffprobe` report, as plain values: the stream fields,
/// the `default` flag of its disposition (`None` without a disposition),
/// and the `language` and `title` tags.
#[derive(Clone, Debug)]
pub struct ProbeStream {
    pub index: u32,
    pub codec_name: Option<String>,
    pub codec_type: String,
    pub channels: Option<u32>,
    pub channel_layout: Option<String>,
    pub default_flag: Option<u8>,
    pub language_tag: Option<String>,
    pub title_tag: Option<String>,
}

/// An `ffprobe` report as plain values.
#[derive(Clone, Debug)]
pub struct ProbeReport {
    pub streams: Vec<ProbeStream>,
    pub chapter_count: usize,
    pub format_name: Option<String>,
}

pub open spec fn opt_view(o: Option<String>) -> Option<Seq<char>> {
    match o {
        Some(s) => Some(s@),
        None => None,
    }
}

/// The stream type named by `ffprobe`'s `codec_type`.
pub open spec fn stream_type_of(codec_type: Seq<char>) -> StreamType {
    if codec_type == "video"@ {
        StreamType::Video
    } else if codec_type == "audio"@ {
        StreamType::Audio
    } else if codec_type == "subtitle"@ {
        StreamType::Subtitle
    } else {
        StreamType::Other
    }
}

/// Bitmap subtitle codecs; every other codec, or none, is text.
pub open spec fn subtitle_kind_of(codec: Option<Seq<char>>) -> SubtitleKind {
    match codec {
        Some(c) => if c == "hdmv_pgs_subtitle"@ || c == "dvd_subtitle"@ || c == "dvb_subtitle"@
            || c == "xsub"@ {
            SubtitleKind::Image
        } else {
            SubtitleKind::Text
        },
        None => SubtitleKind::Text,
    }
}

/// A language tag without surrounding whitespace, in lower case.
pub open spec fn normalized_language(language: Seq<char>) -> Seq<char> {
    lowercase(trim(language))
}

/// The normalised description of a probed stream.
pub open spec fn stream_from_probe(raw: ProbeStream, info: StreamInfo) -> bool {
    let t = stream_type_of(raw.codec_type@);
    &&& info.index == raw.index
    &&& info.stream_type == t
    &&& opt_view(info.codec_name) == opt_view(raw.codec_name)
    &&& opt_view(info.language) == match raw.language_tag {
        Some(l) => Some(normalized_language(l@)),
        None => None,
    }
    &&& opt_view(info.title) == opt_view(raw.title_tag)
    &&& info.channels == raw.channels
    &&& opt_view(info.channel_layout) == opt_view(raw.channel_layout)
    &&& info.is_default == (raw.default_flag == Some(1u8))
    &&& info.subtitle_kind == if t == StreamType::Subtitle {
        Some(subtitle_kind_of(opt_view(raw.codec_name)))
    } else {
        None
    }
}

fn clone_opt(o: &Option<String>) -> (r: Option<String>)
    ensures
        opt_view(r) == opt_view(*o),
{
    match o {
        Some(s) => Some(s.clone()),
        None => None,
    }
}

/// Classifies subtitles by codec: bitmap codecs are images, the rest text.
pub fn classify_subtitle(codec_name: Option<&str>) -> (k: SubtitleKind)
    ensures
        k == subtitle_kind_of(
            match codec_name {
                Some(c) => Some(c@),
                None => None,
            },
        ),
{
    match codec_name {
        Some(c) => {
            if same_text(c, "hdmv_pgs_subtitle") || same_text(c, "dvd_subtitle") || same_text(
                c,
                "dvb_subtitle",
            ) || same_text(c, "xsub") {
                SubtitleKind::Image
            } else {
                SubtitleKind::Text
            }
        },
        None => SubtitleKind::Text,
    }
}

/// Trims a language tag and puts it in lower case.
pub fn normalize_language(language: &str) -> (l: String)
    ensures
        l@ == normalized_language(language@),
{
    let t = trimmed(language);
    to_lower(t.as_str())
}

fn stream_type_from(codec_type: &str) -> (t: StreamType)
    ensures
        t == stream_type_of(codec_type@),
{
    if same_text(codec_type, "video") {
        StreamType::Video
    } else if same_text(codec_type, "audio") {
        StreamType::Audio
    } else if same_text(codec_type, "subtitle") {
        StreamType::Subtitle
    } else {
        StreamType::Other
    }
}

/// Normalises one probed stream.
pub fn stream_info_from_probe(raw: &ProbeStream) -> (info: StreamInfo)
    ensures
        stream_from_probe(*raw, info),
{
    let stream_type = stream_type_from(raw.codec_type.as_str());
    let subtitle_kind = if stream_type == StreamType::Subtitle {
        Some(
            classify_subtitle(
                match &raw.codec_name {
                    Some(c) => Some(c.as_str()),
                    None => None,
                },
            ),
        )
    } else {
        None
    };
    let language = match &raw.language_tag {
        Some(l) => Some(normalize_language(l.as_str())),
        None => None,
    };
    let is_default = match raw.default_flag {
        Some(d) => d == 1,
        None => false,
    };
    StreamInfo {
        index: raw.index,
        stream_type,
        codec_name: clone_opt(&raw.codec_name),
        language,
        title: clone_opt(&raw.title_tag),
        channels: raw.channels,
        channel_layout: clone_opt(&raw.channel_layout),
        is_default,
        subtitle_kind,
    }
}

/// The container description of a probe report: every stream normalised,
/// in order, with the chapter count and format name.
pub fn media_info_from_probe(raw: &ProbeReport) -> (m: MediaInfo)
    ensures
        m.streams@.len() == raw.streams@.len(),
        forall|i: int|
            0 <= i < raw.streams@.len() ==> stream_from_probe(
                #[trigger] raw.streams@[i],
                m.streams@[i],
            ),
        m.chapter_count == raw.chapter_count,
        opt_view(m.format_name) == opt_view(raw.format_name),
{
    let mut streams: Vec<StreamInfo> = Vec::new();
    let mut i: usize = 0;
    while i < raw.streams.len()
        invariant
            0 <= i <= raw.streams@.len(),
            streams@.len() == i,
            forall|j: int|
                0 <= j < i ==> stream_from_probe(#[trigger] raw.streams@[j], streams@[j]),
        decreases raw.streams.len() - i,
    {
        streams.push(stream_info_from_probe(&raw.streams[i]));
        i = i + 1;
    }
    MediaInfo {
        streams,
        chapter_count: raw.chapter_count,
        format_name: clone_opt(&raw.format_name),
    }
}

/// The streams of type `t`, in their original order.
pub open spec fn streams_of_type(s: Seq<StreamInfo>, t: StreamType) -> Seq<StreamInfo>
    decreases s.len(),
{
    if s.len() == 0 {
        seq![]
    } else {
        let rest = streams_of_type(s.drop_last(), t);
        if s.last().stream_type == t {
            rest.push(s.last())
        } else {
            rest
        }
    }
}

fn select_streams<'a>(streams: &'a Vec<StreamInfo>, t: StreamType) -> (r: Vec<&'a StreamInfo>)
    ensures
        r@.map_values(|x: &StreamInfo| *x) == streams_of_type(streams@, t),
{
    let mut r: Vec<&StreamInfo> = Vec::new();
    let mut i: usize = 0;
    while i < streams.len()
        invariant
            0 <= i <= streams@.len(),
            r@.map_values(|x: &StreamInfo| *x) == streams_of_type(
                streams@.subrange(0, i as int),
                t,
            ),
        decreases streams.len() - i,
    {
        assert(streams@.subrange(0, i + 1).drop_last() =~= streams@.subrange(0, i as int));
        let ghost before = r@.map_values(|x: &StreamInfo| *x);
        if streams[i].stream_type == t {
            r.push(&streams[i]);
            assert(r@.map_values(|x: &StreamInfo| *x) =~= before.push(streams@[i as int]));
        }
        i = i + 1;
    }
    assert(streams@.subrange(0, streams@.len() as int) =~= streams@);
    r
}

impl MediaInfo {
    /// Every audio stream, in the original order.
    pub fn audio_streams(&self) -> (r: Vec<&StreamInfo>)
        ensures
            r@.map_values(|x: &StreamInfo| *x) == streams_of_type(self.streams@, StreamType::Audio),
    {
        select_streams(&self.streams, StreamType::Audio)
    }

    /// Every subtitle stream, in the original order.
    pub fn subtitle_streams(&self) -> (r: Vec<&StreamInfo>)
        ensures
            r@.map_values(|x: &StreamInfo| *x) == streams_of_type(
                self.streams@,
                StreamType::Subtitle,
            ),
    {
        select_streams(&self.streams, StreamType::Subtitle)
    }
}

} // verus!
