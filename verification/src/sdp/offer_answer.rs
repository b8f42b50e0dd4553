//! Answering an offer: choice of the audio codec and of telephone events.
pub mod laws;

use crate::sdp::{MediaDesc, SessionDesc};
use crate::text::{eq_ignore_ascii_case, parse_decimal, split_all, split_whitespace, text_eq};
use vstd::prelude::*;

verus! {

use crate::sdp::{text_view, AttributeView, MediaView};
use crate::text::{decimal_value, lemma_decimal_value, parts, same_ignoring_case, texts, words};

/// Audio codecs that can be negotiated.
#[derive(Debug, Clone, Copy, PartialEq, Eq, Structural)]
pub enum AudioCodec {
    /// G.711 with the mu-law.
    Pcmu,
    /// G.711 with the A-law.
    Pcma,
}

impl AudioCodec {
    /// The payload type that is assigned to the codec.
    pub fn static_payload_type(self) -> (r: u8)
        ensures
            r == (match self {
                AudioCodec::Pcmu => 0u8,
                AudioCodec::Pcma => 8u8,
            }),
    {
        match self {
            AudioCodec::Pcmu => 0,
            AudioCodec::Pcma => 8,
        }
    }

    /// The name of the codec in an `rtpmap` attribute.
    pub open spec fn name(self) -> Seq<char> {
        match self {
            AudioCodec::Pcmu => "PCMU"@,
            AudioCodec::Pcma => "PCMA"@,
        }
    }

    /// The name of the codec in an `rtpmap` attribute.
    pub fn encoding_name(self) -> (r: &'static str)
        ensures
            r@ == self.name(),
    {
        match self {
            AudioCodec::Pcmu => "PCMU",
            AudioCodec::Pcma => "PCMA",
        }
    }
}

/// What this side can do with audio.
#[derive(Debug, Clone, Copy, PartialEq, Eq)]
pub struct AudioCaps {
    /// The codec to choose if there is a choice.
    pub prefer: AudioCodec,
    /// Whether mu-law may be chosen.
    pub allow_pcmu: bool,
    /// Whether A-law may be chosen.
    pub allow_pcma: bool,
    /// Whether telephone events are wanted.
    pub accept_dtmf: bool,
}

impl AudioCaps {
    /// Capabilities with these values.
    pub fn new(prefer: AudioCodec, allow_pcmu: bool, allow_pcma: bool, accept_dtmf: bool) -> (r: Self)
        ensures
            r == (AudioCaps { prefer, allow_pcmu, allow_pcma, accept_dtmf }),
    {
        AudioCaps { prefer, allow_pcmu, allow_pcma, accept_dtmf }
    }

    /// Whether the codec may be chosen.
    pub open spec fn allows(&self, codec: AudioCodec) -> bool {
        match codec {
            AudioCodec::Pcmu => self.allow_pcmu,
            AudioCodec::Pcma => self.allow_pcma,
        }
    }

    /// Whether the codec may be chosen.
    pub fn permits(&self, codec: AudioCodec) -> (r: bool)
        ensures
            r == self.allows(codec),
    {
        match codec {
            AudioCodec::Pcmu => self.allow_pcmu,
            AudioCodec::Pcma => self.allow_pcma,
        }
    }
}

/// What this side can do.
#[derive(Debug, Clone, Copy, PartialEq, Eq)]
pub struct AnswerCapabilities {
    /// Audio.
    pub audio: AudioCaps,
}

impl AnswerCapabilities {
    /// Audio and nothing else.
    pub fn audio_only(audio: AudioCaps) -> (r: Self)
        ensures
            r == (AnswerCapabilities { audio }),
    {
        AnswerCapabilities { audio }
    }
}

/// The mapping of a payload type to an encoding.
#[derive(Debug, Clone, Copy, PartialEq, Eq)]
pub struct RtpmapRef<'a> {
    /// Name of the encoding.
    pub encoding: &'a str,
    /// Clock rate in hertz.
    pub clock_rate: u32,
    /// Parameters of the encoding.
    pub encoding_params: Option<&'a str>,
}

/// Agreed telephone events.
#[derive(Debug, Clone, PartialEq, Eq)]
pub struct TelephoneEvent<'a> {
    /// Payload type of the events.
    pub payload_type: u8,
    /// Clock rate in hertz.
    pub clock_rate: u32,
    /// The events that the offer lists.
    pub events: &'a str,
}

/// An accepted audio stream.
#[derive(Debug, Clone, PartialEq, Eq)]
pub struct AudioAcceptPlan<'a> {
    /// Payload type of the stream.
    pub payload_type: u8,
    /// Codec of the stream.
    pub codec: AudioCodec,
    /// Mapping of the payload type.
    pub rtpmap: RtpmapRef<'a>,
    /// Telephone events, if both sides want them.
    pub telephone_event: Option<TelephoneEvent<'a>>,
}

/// The answer to an audio offer.
#[derive(Debug, Clone, PartialEq, Eq)]
pub enum AudioAnswer<'a> {
    /// The stream is accepted.
    Accepted(AudioAcceptPlan<'a>),
    /// No offered codec may be chosen.
    Rejected,
}

/// The answer to an offer.
#[derive(Debug, Clone, PartialEq, Eq)]
pub struct AnswerPlan<'a> {
    /// The answer to the audio media, if the offer holds one.
    pub audio: Option<AudioAnswer<'a>>,
}

/// The contents of a mapping.
pub struct RtpmapView {
    /// Name of the encoding.
    pub encoding: Seq<char>,
    /// Clock rate in hertz.
    pub clock_rate: u32,
    /// Parameters of the encoding.
    pub encoding_params: Option<Seq<char>>,
}

impl<'a> View for RtpmapRef<'a> {
    type V = RtpmapView;

    open spec fn view(&self) -> RtpmapView {
        RtpmapView {
            encoding: self.encoding@,
            clock_rate: self.clock_rate,
            encoding_params: text_view(self.encoding_params),
        }
    }
}

/// The contents of agreed telephone events.
pub struct TelephoneEventView {
    /// Payload type of the events.
    pub payload_type: u8,
    /// Clock rate in hertz.
    pub clock_rate: u32,
    /// The events that the offer lists.
    pub events: Seq<char>,
}

impl<'a> View for TelephoneEvent<'a> {
    type V = TelephoneEventView;

    open spec fn view(&self) -> TelephoneEventView {
        TelephoneEventView {
            payload_type: self.payload_type,
            clock_rate: self.clock_rate,
            events: self.events@,
        }
    }
}

/// The contents of an accepted audio stream.
pub struct AudioAcceptView {
    /// Payload type of the stream.
    pub payload_type: u8,
    /// Codec of the stream.
    pub codec: AudioCodec,
    /// Mapping of the payload type.
    pub rtpmap: RtpmapView,
    /// Telephone events, if both sides want them.
    pub telephone_event: Option<TelephoneEventView>,
}

/// The contents of optional telephone events.
pub open spec fn event_view(event: Option<TelephoneEvent<'_>>) -> Option<TelephoneEventView> {
    match event {
        Some(event) => Some(event@),
        None => None,
    }
}

/// The contents of an audio answer: the accepted stream, or nothing.
pub open spec fn answer_view(answer: AudioAnswer<'_>) -> Option<AudioAcceptView> {
    match answer {
        AudioAnswer::Accepted(plan) => Some(
            AudioAcceptView {
                payload_type: plan.payload_type,
                codec: plan.codec,
                rtpmap: plan.rtpmap@,
                telephone_event: event_view(plan.telephone_event),
            },
        ),
        AudioAnswer::Rejected => None,
    }
}

/// An `rtpmap` attribute.
#[derive(Debug, Clone, Copy, PartialEq, Eq)]
struct ParsedRtpmap<'a> {
    payload_type: &'a str,
    encoding: &'a str,
    clock_rate: u32,
    encoding_params: Option<&'a str>,
}

/// An `fmtp` attribute.
#[derive(Debug, Clone, Copy, PartialEq, Eq)]
struct ParsedFmtp<'a> {
    payload_type: &'a str,
    params: &'a str,
}

/// The contents of an `rtpmap` attribute.
pub struct RtpmapEntry {
    /// The payload type that is mapped.
    pub payload_type: Seq<char>,
    /// What it is mapped to.
    pub map: RtpmapView,
}

/// The contents of an `fmtp` attribute.
pub struct FmtpEntry {
    /// The payload type that is described.
    pub payload_type: Seq<char>,
    /// The first word of the description.
    pub params: Seq<char>,
}

impl<'a> ParsedRtpmap<'a> {
    spec fn entry(&self) -> RtpmapEntry {
        RtpmapEntry {
            payload_type: self.payload_type@,
            map: RtpmapView {
                encoding: self.encoding@,
                clock_rate: self.clock_rate,
                encoding_params: text_view(self.encoding_params),
            },
        }
    }
}

impl<'a> ParsedFmtp<'a> {
    spec fn entry(&self) -> FmtpEntry {
        FmtpEntry { payload_type: self.payload_type@, params: self.params@ }
    }
}

/// What an `rtpmap` value says: payload type, then encoding, clock rate and parameters between
/// slashes.
pub open spec fn rtpmap_of(value: Seq<char>) -> Option<RtpmapEntry> {
    let w = words(value);
    if w.len() < 2 {
        None
    } else {
        let p = parts(w[1], '/');
        if p.len() < 2 {
            None
        } else {
            match decimal_value(p[1], u32::MAX as int) {
                Some(rate) => Some(
                    RtpmapEntry {
                        payload_type: w[0],
                        map: RtpmapView {
                            encoding: p[0],
                            clock_rate: rate as u32,
                            encoding_params: if p.len() >= 3 {
                                Some(p[2])
                            } else {
                                None
                            },
                        },
                    },
                ),
                None => None,
            }
        }
    }
}

/// What an `fmtp` value says: payload type, then parameters.
pub open spec fn fmtp_of(value: Seq<char>) -> Option<FmtpEntry> {
    let w = words(value);
    if w.len() < 2 {
        None
    } else {
        Some(FmtpEntry { payload_type: w[0], params: w[1] })
    }
}

/// The valid `rtpmap` attributes, in order.
pub open spec fn rtpmaps(list: Seq<AttributeView>) -> Seq<RtpmapEntry>
    decreases list.len(),
{
    if list.len() == 0 {
        Seq::empty()
    } else {
        let before = rtpmaps(list.drop_last());
        match list.last().value {
            Some(value) => if same_ignoring_case(list.last().key, "rtpmap"@) {
                match rtpmap_of(value) {
                    Some(entry) => before.push(entry),
                    None => before,
                }
            } else {
                before
            },
            None => before,
        }
    }
}

/// The valid `fmtp` attributes, in order.
pub open spec fn fmtps(list: Seq<AttributeView>) -> Seq<FmtpEntry>
    decreases list.len(),
{
    if list.len() == 0 {
        Seq::empty()
    } else {
        let before = fmtps(list.drop_last());
        match list.last().value {
            Some(value) => if same_ignoring_case(list.last().key, "fmtp"@) {
                match fmtp_of(value) {
                    Some(entry) => before.push(entry),
                    None => before,
                }
            } else {
                before
            },
            None => before,
        }
    }
}

/// The first mapping of a payload type.
pub open spec fn find_rtpmap(list: Seq<RtpmapEntry>, payload_type: Seq<char>) -> Option<RtpmapEntry>
    decreases list.len(),
{
    if list.len() == 0 {
        None
    } else if list[0].payload_type == payload_type {
        Some(list[0])
    } else {
        find_rtpmap(list.drop_first(), payload_type)
    }
}

/// The first mapping to telephone events.
pub open spec fn find_events(list: Seq<RtpmapEntry>) -> Option<RtpmapEntry>
    decreases list.len(),
{
    if list.len() == 0 {
        None
    } else if same_ignoring_case(list[0].map.encoding, "telephone-event"@) {
        Some(list[0])
    } else {
        find_events(list.drop_first())
    }
}

/// The first description of a payload type.
pub open spec fn find_fmtp(list: Seq<FmtpEntry>, payload_type: Seq<char>) -> Option<FmtpEntry>
    decreases list.len(),
{
    if list.len() == 0 {
        None
    } else if list[0].payload_type == payload_type {
        Some(list[0])
    } else {
        find_fmtp(list.drop_first(), payload_type)
    }
}

/// The codec of a format: by its static payload type, else by its mapping.
pub open spec fn codec_of(format: Seq<char>, map: Option<RtpmapEntry>) -> Option<AudioCodec> {
    if format == "0"@ {
        Some(AudioCodec::Pcmu)
    } else if format == "8"@ {
        Some(AudioCodec::Pcma)
    } else {
        match map {
            Some(entry) => if same_ignoring_case(entry.map.encoding, "PCMU"@) {
                Some(AudioCodec::Pcmu)
            } else if same_ignoring_case(entry.map.encoding, "PCMA"@) {
                Some(AudioCodec::Pcma)
            } else {
                None
            },
            None => None,
        }
    }
}

/// Whether a format can carry the codec: it has that codec and its number fits in a byte.
pub open spec fn format_offers(
    format: Seq<char>,
    maps: Seq<RtpmapEntry>,
    codec: AudioCodec,
) -> bool {
    &&& codec_of(format, find_rtpmap(maps, format)) == Some(codec)
    &&& decimal_value(format, u8::MAX as int) is Some
}

/// The first format that can carry the codec, as payload type and mapping.
pub open spec fn candidate_of(
    formats: Seq<Seq<char>>,
    maps: Seq<RtpmapEntry>,
    codec: AudioCodec,
) -> Option<(u8, Option<RtpmapEntry>)>
    decreases formats.len(),
{
    if formats.len() == 0 {
        None
    } else {
        match candidate_of(formats.drop_last(), maps, codec) {
            Some(candidate) => Some(candidate),
            None => if format_offers(formats.last(), maps, codec) {
                Some(
                    (
                        decimal_value(formats.last(), u8::MAX as int)->0 as u8,
                        find_rtpmap(maps, formats.last()),
                    ),
                )
            } else {
                None
            },
        }
    }
}

/// The telephone events that an offer holds: a mapping, and a description of the same payload type.
pub open spec fn events_of(maps: Seq<RtpmapEntry>, fmtps: Seq<FmtpEntry>) -> Option<
    TelephoneEventView,
> {
    match find_events(maps) {
        Some(entry) => match find_fmtp(fmtps, entry.payload_type) {
            Some(fmtp) => match decimal_value(entry.payload_type, u8::MAX as int) {
                Some(payload_type) => Some(
                    TelephoneEventView {
                        payload_type: payload_type as u8,
                        clock_rate: entry.map.clock_rate,
                        events: fmtp.params,
                    },
                ),
                None => None,
            },
            None => None,
        },
        None => None,
    }
}

/// The other codec.
pub open spec fn other_codec(codec: AudioCodec) -> AudioCodec {
    match codec {
        AudioCodec::Pcmu => AudioCodec::Pcma,
        AudioCodec::Pcma => AudioCodec::Pcmu,
    }
}

/// The stream that choosing a codec leads to, if that codec is permitted and offered.
pub open spec fn accept_with(media: MediaView, caps: AudioCaps, codec: AudioCodec) -> Option<
    AudioAcceptView,
> {
    let maps = rtpmaps(media.attributes);
    match candidate_of(media.formats, maps, codec) {
        Some((payload_type, map)) => if caps.allows(codec) {
            Some(
                AudioAcceptView {
                    payload_type,
                    codec,
                    rtpmap: match map {
                        Some(entry) => entry.map,
                        None => RtpmapView {
                            encoding: codec.name(),
                            clock_rate: 8000,
                            encoding_params: None,
                        },
                    },
                    telephone_event: if caps.accept_dtmf {
                        events_of(maps, fmtps(media.attributes))
                    } else {
                        None
                    },
                },
            )
        } else {
            None
        },
        None => None,
    }
}

/// The answer to an audio offer: the preferred codec if that can be had, else the other one.
pub open spec fn audio_answer(media: MediaView, caps: AudioCaps) -> Option<AudioAcceptView> {
    match accept_with(media, caps, caps.prefer) {
        Some(plan) => Some(plan),
        None => accept_with(media, caps, other_codec(caps.prefer)),
    }
}

/// The first audio media of an offer.
pub open spec fn first_audio(list: Seq<MediaView>) -> Option<MediaView>
    decreases list.len(),
{
    if list.len() == 0 {
        None
    } else if same_ignoring_case(list[0].media, "audio"@) {
        Some(list[0])
    } else {
        first_audio(list.drop_first())
    }
}

/// Reads an `rtpmap` value.
fn parse_rtpmap<'a>(value: &'a str) -> (r: Option<ParsedRtpmap<'a>>)
    ensures
        match r {
            Some(entry) => rtpmap_of(value@) == Some(entry.entry()),
            None => rtpmap_of(value@) is None,
        },
{
    let w = split_whitespace(value);
    assert(texts(w@) == words(value@));
    if w.len() < 2 {
        return None;
    }
    let pieces = split_all(w[1], '/');
    assert(texts(pieces@) == parts(w@[1]@, '/'));
    if pieces.len() < 2 {
        return None;
    }
    match parse_decimal(pieces[1], u32::MAX) {
        Some(clock_rate) => Some(
            ParsedRtpmap {
                payload_type: w[0],
                encoding: pieces[0],
                clock_rate,
                encoding_params: if pieces.len() >= 3 {
                    Some(pieces[2])
                } else {
                    None
                },
            },
        ),
        None => None,
    }
}

/// Reads an `fmtp` value.
fn parse_fmtp<'a>(value: &'a str) -> (r: Option<ParsedFmtp<'a>>)
    ensures
        match r {
            Some(entry) => fmtp_of(value@) == Some(entry.entry()),
            None => fmtp_of(value@) is None,
        },
{
    let w = split_whitespace(value);
    assert(texts(w@) == words(value@));
    if w.len() < 2 {
        return None;
    }
    Some(ParsedFmtp { payload_type: w[0], params: w[1] })
}

spec fn rtpmap_entries(list: Seq<ParsedRtpmap<'_>>) -> Seq<RtpmapEntry> {
    Seq::new(list.len(), |i: int| list[i].entry())
}

spec fn fmtp_entries(list: Seq<ParsedFmtp<'_>>) -> Seq<FmtpEntry> {
    Seq::new(list.len(), |i: int| list[i].entry())
}

/// Collects the valid `rtpmap` attributes of a media.
fn collect_rtpmap<'a>(media: &'a MediaDesc<'a>) -> (r: Vec<ParsedRtpmap<'a>>)
    ensures
        rtpmap_entries(r@) == rtpmaps(media@.attributes),
{
    let ghost all = media@.attributes;
    let mut out: Vec<ParsedRtpmap<'a>> = Vec::new();
    let mut i: usize = 0;
    assert(rtpmap_entries(out@) =~= rtpmaps(all.take(0)));
    while i < media.attributes.len()
        invariant
            i <= media.attributes@.len(),
            all == media@.attributes,
            rtpmap_entries(out@) == rtpmaps(all.take(i as int)),
        decreases media.attributes@.len() - i,
    {
        let attribute = &media.attributes[i];
        proof {
            assert(all.take(i + 1).drop_last() =~= all.take(i as int));
            assert(all.take(i + 1).last() == attribute@);
        }
        let ghost before = rtpmap_entries(out@);
        if let Some(value) = attribute.value {
            if eq_ignore_ascii_case(attribute.key, "rtpmap") {
                if let Some(entry) = parse_rtpmap(value) {
                    out.push(entry);
                    assert(rtpmap_entries(out@) =~= before.push(entry.entry()));
                }
            }
        }
        i += 1;
    }
    assert(all.take(i as int) =~= all);
    out
}

/// Collects the valid `fmtp` attributes of a media.
fn collect_fmtp<'a>(media: &'a MediaDesc<'a>) -> (r: Vec<ParsedFmtp<'a>>)
    ensures
        fmtp_entries(r@) == fmtps(media@.attributes),
{
    let ghost all = media@.attributes;
    let mut out: Vec<ParsedFmtp<'a>> = Vec::new();
    let mut i: usize = 0;
    assert(fmtp_entries(out@) =~= fmtps(all.take(0)));
    while i < media.attributes.len()
        invariant
            i <= media.attributes@.len(),
            all == media@.attributes,
            fmtp_entries(out@) == fmtps(all.take(i as int)),
        decreases media.attributes@.len() - i,
    {
        let attribute = &media.attributes[i];
        proof {
            assert(all.take(i + 1).drop_last() =~= all.take(i as int));
            assert(all.take(i + 1).last() == attribute@);
        }
        let ghost before = fmtp_entries(out@);
        if let Some(value) = attribute.value {
            if eq_ignore_ascii_case(attribute.key, "fmtp") {
                if let Some(entry) = parse_fmtp(value) {
                    out.push(entry);
                    assert(fmtp_entries(out@) =~= before.push(entry.entry()));
                }
            }
        }
        i += 1;
    }
    assert(all.take(i as int) =~= all);
    out
}

spec fn entry_of(found: Option<ParsedRtpmap<'_>>) -> Option<RtpmapEntry> {
    match found {
        Some(entry) => Some(entry.entry()),
        None => None,
    }
}

/// The first mapping of a payload type.
fn lookup_rtpmap<'a>(list: &Vec<ParsedRtpmap<'a>>, payload_type: &str) -> (r: Option<
    ParsedRtpmap<'a>,
>)
    ensures
        entry_of(r) == find_rtpmap(rtpmap_entries(list@), payload_type@),
{
    let ghost all = rtpmap_entries(list@);
    let mut i: usize = 0;
    assert(all.skip(0) =~= all);
    while i < list.len()
        invariant
            i <= list@.len(),
            all == rtpmap_entries(list@),
            find_rtpmap(all, payload_type@) == find_rtpmap(all.skip(i as int), payload_type@),
        decreases list@.len() - i,
    {
        let entry = list[i];
        assert(all.skip(i as int)[0] == entry.entry());
        if text_eq(entry.payload_type, payload_type) {
            return Some(entry);
        }
        assert(all.skip(i as int).drop_first() =~= all.skip(i + 1));
        i += 1;
    }
    None
}

/// The codec of a format.
fn identify_codec(format: &str, map: Option<ParsedRtpmap<'_>>) -> (r: Option<AudioCodec>)
    ensures
        r == codec_of(format@, entry_of(map)),
{
    if text_eq(format, "0") {
        return Some(AudioCodec::Pcmu);
    }
    if text_eq(format, "8") {
        return Some(AudioCodec::Pcma);
    }
    match map {
        Some(entry) => if eq_ignore_ascii_case(entry.encoding, "PCMU") {
            Some(AudioCodec::Pcmu)
        } else if eq_ignore_ascii_case(entry.encoding, "PCMA") {
            Some(AudioCodec::Pcma)
        } else {
            None
        },
        None => None,
    }
}

/// The mapping that holds for a static payload type.
fn default_rtpmap(codec: AudioCodec) -> (r: RtpmapRef<'static>)
    ensures
        r@ == (RtpmapView { encoding: codec.name(), clock_rate: 8000, encoding_params: None }),
{
    RtpmapRef { encoding: codec.encoding_name(), clock_rate: 8000, encoding_params: None }
}

/// The telephone events that an offer holds.
fn negotiate_dtmf<'a>(
    maps: &Vec<ParsedRtpmap<'a>>,
    fmtps: &Vec<ParsedFmtp<'a>>,
) -> (r: Option<TelephoneEvent<'a>>)
    ensures
        event_view(r) == events_of(rtpmap_entries(maps@), fmtp_entries(fmtps@)),
{
    let ghost all = rtpmap_entries(maps@);
    let ghost descriptions = fmtp_entries(fmtps@);
    let mut i: usize = 0;
    assert(all.skip(0) =~= all);
    while i < maps.len()
        invariant
            i <= maps@.len(),
            all == rtpmap_entries(maps@),
            descriptions == fmtp_entries(fmtps@),
            find_events(all) == find_events(all.skip(i as int)),
        decreases maps@.len() - i,
    {
        let entry = maps[i];
        assert(all.skip(i as int)[0] == entry.entry());
        if eq_ignore_ascii_case(entry.encoding, "telephone-event") {
            let mut k: usize = 0;
            assert(descriptions.skip(0) =~= descriptions);
            while k < fmtps.len()
                invariant
                    k <= fmtps@.len(),
                    find_events(all) == Some(entry.entry()),
                    all == rtpmap_entries(maps@),
                    descriptions == fmtp_entries(fmtps@),
                    find_fmtp(descriptions, entry.payload_type@) == find_fmtp(
                        descriptions.skip(k as int),
                        entry.payload_type@,
                    ),
                decreases fmtps@.len() - k,
            {
                let fmtp = fmtps[k];
                assert(descriptions.skip(k as int)[0] == fmtp.entry());
                if text_eq(fmtp.payload_type, entry.payload_type) {
                    return match parse_decimal(entry.payload_type, 255) {
                        Some(payload_type) => Some(
                            TelephoneEvent {
                                payload_type: payload_type as u8,
                                clock_rate: entry.clock_rate,
                                events: fmtp.params,
                            },
                        ),
                        None => None,
                    };
                }
                assert(descriptions.skip(k as int).drop_first() =~= descriptions.skip(k + 1));
                k += 1;
            }
            return None;
        }
        assert(all.skip(i as int).drop_first() =~= all.skip(i + 1));
        i += 1;
    }
    None
}

/// A format that can carry a codec.
#[derive(Debug, Clone, Copy, PartialEq, Eq)]
struct AudioCandidate<'a> {
    payload_type: u8,
    rtpmap: Option<ParsedRtpmap<'a>>,
}

spec fn candidate_view(candidate: Option<AudioCandidate<'_>>) -> Option<
    (u8, Option<RtpmapEntry>),
> {
    match candidate {
        Some(candidate) => Some((candidate.payload_type, entry_of(candidate.rtpmap))),
        None => None,
    }
}

/// Answers an audio offer.
fn negotiate_audio<'a>(media: &'a MediaDesc<'a>, caps: AudioCaps) -> (r: AudioAnswer<'a>)
    ensures
        answer_view(r) == audio_answer(media@, caps),
{
    let maps = collect_rtpmap(media);
    let descriptions = collect_fmtp(media);
    let ghost entries = rtpmaps(media@.attributes);
    let ghost formats = media@.formats;
    let mut pcmu_candidate: Option<AudioCandidate<'a>> = None;
    let mut pcma_candidate: Option<AudioCandidate<'a>> = None;
    let mut i: usize = 0;
    while i < media.formats.len()
        invariant
            i <= media.formats@.len(),
            formats == texts(media.formats@),
            entries == rtpmap_entries(maps@),
            candidate_view(pcmu_candidate) == candidate_of(
                formats.take(i as int),
                entries,
                AudioCodec::Pcmu,
            ),
            candidate_view(pcma_candidate) == candidate_of(
                formats.take(i as int),
                entries,
                AudioCodec::Pcma,
            ),
        decreases media.formats@.len() - i,
    {
        let format = media.formats[i];
        let map = lookup_rtpmap(&maps, format);
        proof {
            assert(formats.take(i + 1).drop_last() =~= formats.take(i as int));
            assert(formats.take(i + 1).last() == format@);
        }
        let codec = identify_codec(format, map);
        let number = parse_decimal(format, 255);
        if let Some(codec) = codec {
            if let Some(number) = number {
                let candidate = AudioCandidate { payload_type: number as u8, rtpmap: map };
                match codec {
                    AudioCodec::Pcmu => {
                        if pcmu_candidate.is_none() {
                            pcmu_candidate = Some(candidate);
                        }
                    },
                    AudioCodec::Pcma => {
                        if pcma_candidate.is_none() {
                            pcma_candidate = Some(candidate);
                        }
                    },
                }
            }
        }
        i += 1;
    }
    assert(formats.take(i as int) =~= formats);
    let order: [AudioCodec; 2] = match caps.prefer {
        AudioCodec::Pcmu => [AudioCodec::Pcmu, AudioCodec::Pcma],
        AudioCodec::Pcma => [AudioCodec::Pcma, AudioCodec::Pcmu],
    };
    let mut k: usize = 0;
    while k < 2
        invariant
            k <= 2,
            order@[0] == caps.prefer,
            order@[1] == other_codec(caps.prefer),
            formats == media@.formats,
            entries == rtpmaps(media@.attributes),
            entries == rtpmap_entries(maps@),
            fmtp_entries(descriptions@) == fmtps(media@.attributes),
            candidate_view(pcmu_candidate) == candidate_of(formats, entries, AudioCodec::Pcmu),
            candidate_view(pcma_candidate) == candidate_of(formats, entries, AudioCodec::Pcma),
            k >= 1 ==> accept_with(media@, caps, caps.prefer) is None,
            k >= 2 ==> accept_with(media@, caps, other_codec(caps.prefer)) is None,
        decreases 2 - k,
    {
        let codec = order[k];
        if caps.permits(codec) {
            let candidate = match codec {
                AudioCodec::Pcmu => pcmu_candidate,
                AudioCodec::Pcma => pcma_candidate,
            };
            if let Some(candidate) = candidate {
                let rtpmap = match candidate.rtpmap {
                    Some(entry) => RtpmapRef {
                        encoding: entry.encoding,
                        clock_rate: entry.clock_rate,
                        encoding_params: entry.encoding_params,
                    },
                    None => default_rtpmap(codec),
                };
                let telephone_event = if caps.accept_dtmf {
                    negotiate_dtmf(&maps, &descriptions)
                } else {
                    None
                };
                return AudioAnswer::Accepted(
                    AudioAcceptPlan {
                        payload_type: candidate.payload_type,
                        codec,
                        rtpmap,
                        telephone_event,
                    },
                );
            }
        }
        k += 1;
    }
    AudioAnswer::Rejected
}

/// Answers an offer: the first audio media is negotiated, other media are left alone.
pub fn apply_offer_answer<'a>(
    offer: &'a SessionDesc<'a>,
    caps: &AnswerCapabilities,
) -> (r: AnswerPlan<'a>)
    ensures
        match r.audio {
            Some(answer) => first_audio(offer@.media) is Some && answer_view(answer)
                == audio_answer(first_audio(offer@.media)->0, caps.audio),
            None => first_audio(offer@.media) is None,
        },
{
    let ghost all = offer@.media;
    let mut i: usize = 0;
    assert(all.skip(0) =~= all);
    while i < offer.media.len()
        invariant
            i <= offer.media@.len(),
            all == offer@.media,
            first_audio(all) == first_audio(all.skip(i as int)),
        decreases offer.media@.len() - i,
    {
        let media = &offer.media[i];
        assert(all.skip(i as int)[0] == media@);
        if eq_ignore_ascii_case(media.media, "audio") {
            return AnswerPlan { audio: Some(negotiate_audio(media, caps.audio)) };
        }
        assert(all.skip(i as int).drop_first() =~= all.skip(i + 1));
        i += 1;
    }
    AnswerPlan { audio: None }
}

/// An accepted stream uses a permitted codec, and the preferred one whenever that is permitted and
/// offered.
pub proof fn law_answer_respects_capabilities(media: MediaView, caps: AudioCaps)
    ensures
        audio_answer(media, caps) matches Some(plan) ==> caps.allows(plan.codec),
        caps.allows(caps.prefer) && candidate_of(
            media.formats,
            rtpmaps(media.attributes),
            caps.prefer,
        ) is Some ==> (audio_answer(media, caps) matches Some(plan) && plan.codec == caps.prefer),
        !caps.accept_dtmf ==> (audio_answer(media, caps) matches Some(plan)
            ==> plan.telephone_event is None),
{
}

/// A candidate is one of the offered formats, by its number.
pub proof fn law_candidate_is_offered(
    formats: Seq<Seq<char>>,
    maps: Seq<RtpmapEntry>,
    codec: AudioCodec,
)
    ensures
        candidate_of(formats, maps, codec) matches Some((payload_type, _)) ==> exists|i: int|
            0 <= i < formats.len() && format_offers(#[trigger] formats[i], maps, codec)
                && decimal_value(formats[i], u8::MAX as int) == Some(payload_type as int),
    decreases formats.len(),
{
    if formats.len() > 0 {
        let init = formats.drop_last();
        law_candidate_is_offered(init, maps, codec);
        if let Some((payload_type, _)) = candidate_of(init, maps, codec) {
            let i = choose|i: int|
                0 <= i < init.len() && format_offers(#[trigger] init[i], maps, codec)
                    && decimal_value(init[i], u8::MAX as int) == Some(payload_type as int);
            assert(formats[i] == init[i]);
        } else if format_offers(formats.last(), maps, codec) {
            lemma_decimal_value(formats.last(), u8::MAX as int);
            assert(format_offers(formats[formats.len() - 1], maps, codec));
        }
    }
}

} // verus!
