//! What an answer takes from an offer, whatever the offer is.
use vstd::prelude::*;

verus! {

use crate::sdp::offer_answer::{
    answer_view, audio_answer, candidate_of, codec_of, events_of, find_events, find_fmtp,
    find_rtpmap, first_audio, fmtp_of, fmtps, format_offers, rtpmap_of, rtpmaps, AudioAnswer,
    AudioCaps, AudioCodec, FmtpEntry, RtpmapEntry,
};
use crate::sdp::{AttributeView, MediaView};
use crate::text::laws::{law_pieces, law_words};
use crate::text::{decimal, decimal_value, lemma_decimal_value, same_ignoring_case};

/// The media that is answered is the first whose kind is audio, in whatever case; there is none only
/// where no media is audio.
pub proof fn law_first_audio_is_answered(list: Seq<MediaView>, k: int)
    ensures
        0 <= k < list.len() && same_ignoring_case(list[k].media, "audio"@) && (forall|i: int|
            0 <= i < k ==> !same_ignoring_case(#[trigger] list[i].media, "audio"@)) ==> first_audio(
            list,
        ) == Some(list[k]),
        first_audio(list) is None <==> forall|i: int|
            0 <= i < list.len() ==> !same_ignoring_case(#[trigger] list[i].media, "audio"@),
    decreases list.len(),
{
    if list.len() > 0 {
        let rest = list.drop_first();
        law_first_audio_is_answered(rest, k - 1);
        assert(forall|i: int| 0 <= i < rest.len() ==> rest[i] == #[trigger] list[i + 1]);
        assert(forall|i: int| 0 < i < list.len() ==> #[trigger] list[i] == rest[i - 1]);
    }
}

/// The first mapping with the payload type is the one that is found.
pub proof fn law_first_mapping_counts(list: Seq<RtpmapEntry>, payload_type: Seq<char>, k: int)
    ensures
        0 <= k < list.len() && list[k].payload_type == payload_type && (forall|i: int|
            0 <= i < k ==> #[trigger] list[i].payload_type != payload_type) ==> find_rtpmap(
            list,
            payload_type,
        ) == Some(list[k]),
        find_rtpmap(list, payload_type) is None <==> forall|i: int|
            0 <= i < list.len() ==> #[trigger] list[i].payload_type != payload_type,
    decreases list.len(),
{
    if list.len() > 0 {
        let rest = list.drop_first();
        law_first_mapping_counts(rest, payload_type, k - 1);
        assert(forall|i: int| 0 <= i < rest.len() ==> rest[i] == #[trigger] list[i + 1]);
        assert(forall|i: int| 0 < i < list.len() ==> #[trigger] list[i] == rest[i - 1]);
    }
}

/// The first mapping to `telephone-event`, in whatever case, is the one that is found.
pub proof fn law_first_events_count(list: Seq<RtpmapEntry>, k: int)
    ensures
        0 <= k < list.len() && same_ignoring_case(list[k].map.encoding, "telephone-event"@) && (
        forall|i: int|
            0 <= i < k ==> !same_ignoring_case(#[trigger] list[i].map.encoding, "telephone-event"@))
            ==> find_events(list) == Some(list[k]),
        find_events(list) is None <==> forall|i: int|
            0 <= i < list.len() ==> !same_ignoring_case(
                #[trigger] list[i].map.encoding,
                "telephone-event"@,
            ),
    decreases list.len(),
{
    if list.len() > 0 {
        let rest = list.drop_first();
        law_first_events_count(rest, k - 1);
        assert(forall|i: int| 0 <= i < rest.len() ==> rest[i] == #[trigger] list[i + 1]);
        assert(forall|i: int| 0 < i < list.len() ==> #[trigger] list[i] == rest[i - 1]);
    }
}

/// The first description with the payload type is the one that is found.
pub proof fn law_first_description_counts(list: Seq<FmtpEntry>, payload_type: Seq<char>, k: int)
    ensures
        0 <= k < list.len() && list[k].payload_type == payload_type && (forall|i: int|
            0 <= i < k ==> #[trigger] list[i].payload_type != payload_type) ==> find_fmtp(
            list,
            payload_type,
        ) == Some(list[k]),
        find_fmtp(list, payload_type) is None <==> forall|i: int|
            0 <= i < list.len() ==> #[trigger] list[i].payload_type != payload_type,
    decreases list.len(),
{
    if list.len() > 0 {
        let rest = list.drop_first();
        law_first_description_counts(rest, payload_type, k - 1);
        assert(forall|i: int| 0 <= i < rest.len() ==> rest[i] == #[trigger] list[i + 1]);
        assert(forall|i: int| 0 < i < list.len() ==> #[trigger] list[i] == rest[i - 1]);
    }
}

/// The mappings of a media are what its `rtpmap` attributes say and the descriptions what its `fmtp`
/// attributes say, in order; every other attribute, and one that cannot be read, gives nothing.
pub proof fn law_attributes_are_collected(list: Seq<AttributeView>, last: AttributeView)
    ensures
        rtpmaps(Seq::empty()) == Seq::<RtpmapEntry>::empty(),
        fmtps(Seq::empty()) == Seq::<FmtpEntry>::empty(),
        last.value is None ==> rtpmaps(list.push(last)) == rtpmaps(list) && fmtps(list.push(last))
            == fmtps(list),
        !same_ignoring_case(last.key, "rtpmap"@) ==> rtpmaps(list.push(last)) == rtpmaps(list),
        !same_ignoring_case(last.key, "fmtp"@) ==> fmtps(list.push(last)) == fmtps(list),
        last.value matches Some(value) ==> {
            &&& same_ignoring_case(last.key, "rtpmap"@) ==> match rtpmap_of(value) {
                Some(entry) => rtpmaps(list.push(last)) == rtpmaps(list).push(entry),
                None => rtpmaps(list.push(last)) == rtpmaps(list),
            }
            &&& same_ignoring_case(last.key, "fmtp"@) ==> match fmtp_of(value) {
                Some(entry) => fmtps(list.push(last)) == fmtps(list).push(entry),
                None => fmtps(list.push(last)) == fmtps(list),
            }
        },
{
    assert(list.push(last).drop_last() =~= list);
}

/// Whether a text is one word without a slash.
pub open spec fn is_plain_part(s: Seq<char>) -> bool {
    &&& s.len() > 0
    &&& !s.contains('/')
    &&& forall|i: int| 0 <= i < s.len() ==> !crate::text::is_white_space(#[trigger] s[i])
}

/// Without white space, behind a word and a space stand exactly two words.
proof fn lemma_two_words(a: Seq<char>, b: Seq<char>)
    requires
        a.len() > 0,
        b.len() > 0,
        forall|i: int| 0 <= i < a.len() ==> !crate::text::is_white_space(#[trigger] a[i]),
        forall|i: int| 0 <= i < b.len() ==> !crate::text::is_white_space(#[trigger] b[i]),
    ensures
        crate::text::words(a + seq![' '] + b) == seq![a, b],
{
    law_words(a, seq![' '], b);
    law_words(b, seq![' '], a);
    assert(seq![a] + seq![b] =~= seq![a, b]);
}

/// A mapping is written as payload type, space, encoding, slash, clock rate, and optionally slash and
/// parameters; each goes where its name says.
pub proof fn law_mappings_are_read(
    payload_type: Seq<char>,
    encoding: Seq<char>,
    rate: u32,
    params: Option<Seq<char>>,
)
    requires
        is_plain_part(payload_type),
        is_plain_part(encoding),
        params matches Some(p) ==> is_plain_part(p),
    ensures
        ({
            let slash = seq!['/'];
            let front = encoding + slash + decimal(rate as int);
            let value = payload_type + seq![' '] + (match params {
                Some(p) => front + slash + p,
                None => front,
            });
            &&& rtpmap_of(value) matches Some(entry)
            &&& entry.payload_type == payload_type
            &&& entry.map.encoding == encoding
            &&& entry.map.clock_rate == rate
            &&& entry.map.encoding_params == params
        }),
{
    let slash = seq!['/'];
    let number = decimal(rate as int);
    crate::text::lemma_decimal_round_trip(rate as int);
    let front = encoding + slash + number;
    assert(!number.contains('/')) by {
        if number.contains('/') {
            let i = choose|i: int| 0 <= i < number.len() && number[i] == '/';
            assert(crate::text::is_digit(number[i]));
        }
    }
    law_pieces(encoding, '/', number);
    law_pieces(number, '/', encoding);
    let second = match params {
        Some(p) => front + slash + p,
        None => front,
    };
    assert(crate::text::parts(front, '/') == seq![encoding] + seq![number]);
    if let Some(p) = params {
        law_pieces(front, '/', p);
        law_pieces(p, '/', p);
        assert(crate::text::parts(second, '/') == seq![encoding] + seq![number] + seq![p]);
    }
    assert forall|i: int| 0 <= i < second.len() implies !crate::text::is_white_space(
        #[trigger] second[i],
    ) by {
        let n = encoding.len() as int;
        let m = front.len() as int;
        if i < n {
            assert(second[i] == encoding[i]);
        } else if n < i < m {
            assert(second[i] == number[i - n - 1]);
            assert(crate::text::is_digit(number[i - n - 1]));
        } else if i > m {
            assert(second[i] == params->0[i - m - 1]);
        }
    }
    lemma_two_words(payload_type, second);
}

/// A description is written as payload type, space, parameters; more words are left alone.
pub proof fn law_descriptions_are_read(payload_type: Seq<char>, params: Seq<char>, more: Seq<char>)
    requires
        is_plain_part(payload_type),
        params.len() > 0,
        forall|i: int| 0 <= i < params.len() ==> !crate::text::is_white_space(#[trigger] params[i]),
    ensures
        ({
            let value = payload_type + seq![' '] + params;
            &&& fmtp_of(value) == Some(FmtpEntry { payload_type, params })
            &&& fmtp_of(value + seq![' '] + more) == Some(FmtpEntry { payload_type, params })
            &&& fmtp_of(payload_type) is None
        }),
{
    lemma_two_words(payload_type, params);
    law_words(payload_type + seq![' '] + params, seq![' '], more);
    law_words(payload_type, seq![' '], more);
}

/// A format has a codec by its number, zero for mu-law and eight for A-law, and else by the name that
/// it is mapped to, in whatever case.
pub proof fn law_formats_have_codecs(format: Seq<char>, map: Option<RtpmapEntry>)
    ensures
        codec_of("0"@, map) == Some(AudioCodec::Pcmu),
        codec_of("8"@, map) == Some(AudioCodec::Pcma),
        format != "0"@ && format != "8"@ ==> {
            &&& map is None ==> codec_of(format, map) is None
            &&& map matches Some(entry) ==> {
                let name = entry.map.encoding;
                &&& codec_of(format, map) == Some(AudioCodec::Pcmu) <==> same_ignoring_case(
                    name,
                    "PCMU"@,
                )
                &&& codec_of(format, map) == Some(AudioCodec::Pcma) <==> same_ignoring_case(
                    name,
                    "PCMA"@,
                )
            }
        },
{
    reveal_strlit("0");
    reveal_strlit("8");
    assert("0"@[0] != "8"@[0]);
    if let Some(entry) = map {
        let name = entry.map.encoding;
        reveal_strlit("PCMU");
        reveal_strlit("PCMA");
        if same_ignoring_case(name, "PCMU"@) && same_ignoring_case(name, "PCMA"@) {
            crate::text::laws::law_case_is_ignored(name, "PCMU"@);
            crate::text::laws::law_case_is_ignored(name, "PCMA"@);
            assert("PCMU"@[3] == 'U' && "PCMA"@[3] == 'A');
            assert(name[3] == 'U' || name[3] as int == 'U' as int + 32);
            assert(name[3] == 'A' || name[3] as int == 'A' as int + 32);
            assert(false);
        }
    }
}

/// The candidate for a codec is the first format that has the codec and whose number fits in a byte,
/// with that number and with the mapping of that format.
pub proof fn law_first_format_is_taken(
    formats: Seq<Seq<char>>,
    maps: Seq<RtpmapEntry>,
    codec: AudioCodec,
    k: int,
)
    ensures
        0 <= k < formats.len() && format_offers(formats[k], maps, codec) && (forall|i: int|
            0 <= i < k ==> !format_offers(#[trigger] formats[i], maps, codec)) ==> {
            &&& candidate_of(formats, maps, codec) matches Some((payload_type, map))
            &&& decimal_value(formats[k], 255) == Some(payload_type as int)
            &&& map == find_rtpmap(maps, formats[k])
        },
        candidate_of(formats, maps, codec) is None <==> forall|i: int|
            0 <= i < formats.len() ==> !format_offers(#[trigger] formats[i], maps, codec),
    decreases formats.len(),
{
    if formats.len() > 0 {
        let init = formats.drop_last();
        law_first_format_is_taken(init, maps, codec, k);
        assert(forall|i: int| 0 <= i < init.len() ==> init[i] == #[trigger] formats[i]);
        assert(formats[formats.len() - 1] == formats.last());
        lemma_decimal_value(formats.last(), 255);
    }
}

/// A format offers a codec exactly if it has that codec and is a number below 256.
pub proof fn law_offered_formats(format: Seq<char>, maps: Seq<RtpmapEntry>, codec: AudioCodec)
    ensures
        format_offers(format, maps, codec) <==> codec_of(format, find_rtpmap(maps, format)) == Some(
            codec,
        ) && decimal_value(format, 255) is Some,
{
}

/// Telephone events are agreed exactly if there is a mapping to them, a description of the same
/// payload type, and that payload type is a number below 256; rate and events are taken from there.
pub proof fn law_events_are_taken(maps: Seq<RtpmapEntry>, list: Seq<FmtpEntry>)
    ensures
        events_of(maps, list) is Some <==> {
            &&& find_events(maps) matches Some(entry)
            &&& find_fmtp(list, entry.payload_type) is Some
            &&& decimal_value(entry.payload_type, 255) is Some
        },
        events_of(maps, list) matches Some(event) ==> {
            let entry = find_events(maps)->0;
            &&& decimal_value(entry.payload_type, 255) == Some(event.payload_type as int)
            &&& event.clock_rate == entry.map.clock_rate
            &&& event.events == find_fmtp(list, entry.payload_type)->0.params
        },
{
    if let Some(entry) = find_events(maps) {
        lemma_decimal_value(entry.payload_type, 255);
    }
}

/// The preferred codec is chosen where it is permitted and offered, else the other one where that is
/// permitted and offered, else none. The stream has the number and the mapping of the first format
/// that offers the codec, or, without a mapping, the codec's own name at 8000 hertz. It has the
/// telephone events of the offer exactly if those are wanted.
pub proof fn law_answer_takes_from_the_offer(media: MediaView, caps: AudioCaps, codec: AudioCodec)
    ensures
        ({
            let maps = rtpmaps(media.attributes);
            let can = |c: AudioCodec|
                (match c {
                    AudioCodec::Pcmu => caps.allow_pcmu,
                    AudioCodec::Pcma => caps.allow_pcma,
                }) && candidate_of(media.formats, maps, c) is Some;
            &&& audio_answer(media, caps) is None <==> !can(AudioCodec::Pcmu) && !can(
                AudioCodec::Pcma,
            )
            &&& can(codec) && (codec == caps.prefer || !can(caps.prefer)) ==> {
                let (number, map) = candidate_of(media.formats, maps, codec)->0;
                &&& audio_answer(media, caps) matches Some(plan)
                &&& plan.codec == codec
                &&& plan.payload_type == number
                &&& map matches Some(entry) ==> plan.rtpmap == entry.map
                &&& map is None ==> plan.rtpmap.clock_rate == 8000 && plan.rtpmap.encoding_params is None
                &&& map is None && codec == AudioCodec::Pcmu ==> plan.rtpmap.encoding == "PCMU"@
                &&& map is None && codec == AudioCodec::Pcma ==> plan.rtpmap.encoding == "PCMA"@
                &&& plan.telephone_event == (if caps.accept_dtmf {
                    events_of(maps, fmtps(media.attributes))
                } else {
                    None
                })
            }
        }),
{
}

/// The view of an answer holds what its fields hold, and a refusal is no stream.
pub proof fn law_answer_is_seen(answer: AudioAnswer<'_>)
    ensures
        answer_view(answer) is None <==> answer == AudioAnswer::Rejected,
        answer matches AudioAnswer::Accepted(plan) ==> {
            &&& answer_view(answer) matches Some(seen)
            &&& seen.payload_type == plan.payload_type
            &&& seen.codec == plan.codec
            &&& seen.rtpmap.encoding == plan.rtpmap.encoding@
            &&& seen.rtpmap.clock_rate == plan.rtpmap.clock_rate
            &&& plan.rtpmap.encoding_params matches Some(p) ==> seen.rtpmap.encoding_params == Some(p@)
            &&& plan.rtpmap.encoding_params is None ==> seen.rtpmap.encoding_params is None
            &&& plan.telephone_event is None <==> seen.telephone_event is None
            &&& plan.telephone_event matches Some(event) ==> {
                &&& seen.telephone_event->0.payload_type == event.payload_type
                &&& seen.telephone_event->0.clock_rate == event.clock_rate
                &&& seen.telephone_event->0.events == event.events@
            }
        },
{
}

} // verus!
