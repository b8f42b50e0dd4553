use spark_codecs::sdp::offer_answer::{
    apply_offer_answer, AnswerCapabilities, AudioAnswer, AudioCaps, AudioCodec,
};
use spark_codecs::sdp::{format_sdp, parse_sdp, SdpParseError};

const HEAD: &str = "v=0\r\no=- 1 1 IN IP4 127.0.0.1\r\ns=call\r\nt=0 0\r\n";

fn offer(media: &str) -> String {
    format!("{HEAD}{media}")
}

#[test]
fn parse_and_format_basic() {
    let text = "v=0\r\no=- 0 0 IN IP4 127.0.0.1\r\ns=Test\r\nc=IN IP4 0.0.0.0\r\nt=0 0\r\na=tool:unit\r\nm=audio 49170 RTP/AVP 0 96\r\nc=IN IP4 203.0.113.1\r\na=rtpmap:0 PCMU/8000\r\na=rtpmap:96 opus/48000/2\r\n";
    let parsed = parse_sdp(text).expect("should parse");
    assert_eq!(parsed.version, "0");
    assert_eq!(parsed.origin.address, "127.0.0.1");
    assert_eq!(parsed.session_name, "Test");
    assert_eq!(parsed.connection.as_ref().unwrap().address, "0.0.0.0");
    assert_eq!(parsed.timing.start, "0");
    assert_eq!(parsed.attributes[0].key, "tool");
    assert_eq!(parsed.media.len(), 1);
    let media = &parsed.media[0];
    assert_eq!(media.media, "audio");
    assert_eq!(media.formats, vec!["0", "96"]);
    assert_eq!(media.attributes.len(), 2);

    let formatted = format_sdp(&parsed);
    assert!(formatted.contains("m=audio 49170 RTP/AVP 0 96\r\n"));
}

#[test]
fn tck_offer_answer_basic_pcm() {
    let text = offer("m=audio 49170 RTP/AVP 0 8\r\na=rtpmap:0 PCMU/8000\r\na=rtpmap:8 PCMA/8000\r\n");
    let session = parse_sdp(&text).expect("should parse");
    let caps = AnswerCapabilities::audio_only(AudioCaps::new(AudioCodec::Pcmu, true, true, false));
    let plan = apply_offer_answer(&session, &caps);
    match plan.audio {
        Some(AudioAnswer::Accepted(accepted)) => {
            assert_eq!(accepted.payload_type, 0);
            assert_eq!(accepted.codec, AudioCodec::Pcmu);
            assert_eq!(accepted.rtpmap.encoding, "PCMU");
            assert_eq!(accepted.rtpmap.clock_rate, 8000);
            assert_eq!(accepted.rtpmap.encoding_params, None);
            assert!(accepted.telephone_event.is_none());
        }
        _ => panic!("the offer is acceptable"),
    }
}

#[test]
fn tck_offer_answer_negotiate_dtmf() {
    let text = offer("m=audio 49170 RTP/AVP 0 101\r\na=rtpmap:0 PCMU/8000\r\na=rtpmap:101 telephone-event/8000\r\na=fmtp:101 0-16\r\n");
    let session = parse_sdp(&text).expect("should parse");
    let caps = AnswerCapabilities::audio_only(AudioCaps::new(AudioCodec::Pcmu, true, true, true));
    let plan = apply_offer_answer(&session, &caps);
    match plan.audio {
        Some(AudioAnswer::Accepted(accepted)) => {
            let event = accepted.telephone_event.expect("the event is negotiated");
            assert_eq!(event.payload_type, 101);
            assert_eq!(event.clock_rate, 8000);
            assert_eq!(event.events, "0-16");
        }
        _ => panic!("the offer is acceptable"),
    }
}

#[test]
fn a_description_that_was_formatted_is_parsed_back() {
    let text = "v=0\r\no=a 1 2 IN IP4 h\r\ns=x\r\nc=IN IP4 0.0.0.0\r\nt=3 4\r\na=tool:unit\r\na=lone\r\nm=audio 1 RTP/AVP 0 96\r\nc=IN IP4 h\r\na=rtpmap:96 opus/48000/2\r\nm=video 2 RTP/AVP 31\r\n";
    let parsed = parse_sdp(text).expect("should parse");
    assert_eq!(parsed.attributes[1].key, "lone");
    assert_eq!(parsed.attributes[1].value, None);
    let formatted = format_sdp(&parsed);
    assert_eq!(formatted, text);
    assert_eq!(parse_sdp(&formatted).expect("should parse"), parsed);
}

#[test]
fn descriptions_that_lack_something_are_refused() {
    let cases = [
        ("o=- 1 1 IN IP4 h\r\ns=x\r\nt=0 0\r\n", SdpParseError::MissingVersion),
        ("v=0\r\ns=x\r\nt=0 0\r\n", SdpParseError::MissingOrigin),
        ("v=0\r\no=- 1 1 IN IP4\r\ns=x\r\nt=0 0\r\n", SdpParseError::InvalidOrigin),
        ("v=0\r\no=- 1 1 IN IP4 h\r\nt=0 0\r\n", SdpParseError::MissingSessionName),
        ("v=0\r\no=- 1 1 IN IP4 h\r\ns=x\r\n", SdpParseError::MissingTiming),
        ("v=0\r\no=- 1 1 IN IP4 h\r\ns=x\r\nt=0\r\n", SdpParseError::InvalidTiming),
        (
            "v=0\r\no=- 1 1 IN IP4 h\r\ns=x\r\nc=IN IP4\r\nt=0 0\r\n",
            SdpParseError::InvalidConnection,
        ),
        (
            "v=0\r\no=- 1 1 IN IP4 h\r\ns=x\r\nt=0 0\r\nm=audio 1 RTP/AVP\r\n",
            SdpParseError::InvalidMedia,
        ),
    ];
    for (text, error) in cases {
        assert_eq!(parse_sdp(text), Err(error), "{text}");
    }
    assert_eq!(SdpParseError::MissingVersion.message(), "SDP 缺少 v= 版本行");
}

fn answer(media: &str, caps: AudioCaps) -> Option<u8> {
    let text = offer(media);
    let session = parse_sdp(&text).expect("should parse");
    match apply_offer_answer(&session, &AnswerCapabilities::audio_only(caps)).audio {
        Some(AudioAnswer::Accepted(accepted)) => Some(accepted.payload_type),
        Some(AudioAnswer::Rejected) => Some(255),
        None => None,
    }
}

#[test]
fn the_preferred_codec_is_chosen_if_it_is_offered() {
    let both = "m=audio 1 RTP/AVP 0 8\r\n";
    let one = "m=audio 1 RTP/AVP 0\r\n";
    let prefer_a = AudioCaps::new(AudioCodec::Pcma, true, true, false);
    let only_a = AudioCaps::new(AudioCodec::Pcma, false, true, false);
    assert_eq!(answer(both, prefer_a.clone()), Some(8));
    assert_eq!(answer(one, prefer_a), Some(0));
    assert_eq!(answer(one, only_a.clone()), Some(255));
    assert_eq!(answer("m=video 1 RTP/AVP 31\r\n", only_a), None);
    assert_eq!(AudioCodec::Pcma.static_payload_type(), 8);
    assert_eq!(AudioCodec::Pcmu.encoding_name(), "PCMU");
}

#[test]
fn a_description_read_from_any_text_reads_back() {
    for text in [
        "v=0\no=a  b c d e f g\ns= spaced  name \nt=1\t2 3\nx=unknown\nb=AS:64\nv= 1 \n",
        "junk\r\nt=0 0\r\ns=\r\r\no=- 1 1 IN IP4 h\r\nv=\r\na=:x:y\r\na= key : value \r\na=\r\n",
        "v=0\no=- 1 1 IN IP4 h\ns=x\nt=0 0\nm=audio 1 RTP/AVP 0\nc=IN IP4 a b\nc=IN IP4 c\na=x",
        HEAD,
    ] {
        let session = parse_sdp(text).expect("should parse");
        let formatted = format_sdp(&session);
        assert_eq!(parse_sdp(&formatted).expect("should parse"), session, "{text}");
    }
}
