//! Session descriptions: parsing and formatting.
pub mod laws;
pub mod offer_answer;
pub mod round_trip;

use crate::text::{first_char, after_first, split_all, split_once, split_whitespace, trim, trim_end_cr};
use vstd::prelude::*;
use vstd::string::*;

verus! {

use crate::text::{parts, split_char, texts, trimmed, trimmed_end_of, words};

/// Marker for the session description codec.
#[derive(Debug, Clone, Copy)]
pub struct SdpCodecScaffold;

impl Default for SdpCodecScaffold {
    fn default() -> (r: Self)
        ensures
            r == SdpCodecScaffold,
    {
        SdpCodecScaffold
    }
}

impl SdpCodecScaffold {
    /// The marker.
    pub fn new() -> (r: Self)
        ensures
            r == SdpCodecScaffold,
    {
        SdpCodecScaffold
    }
}

/// Why a text is not a session description.
#[derive(Debug, Clone, PartialEq, Eq)]
pub enum SdpParseError {
    /// No `v=` line.
    MissingVersion,
    /// No `o=` line.
    MissingOrigin,
    /// An `o=` line with fewer than six fields.
    InvalidOrigin,
    /// No `s=` line.
    MissingSessionName,
    /// No `t=` line.
    MissingTiming,
    /// A `t=` line without start and stop.
    InvalidTiming,
    /// A `c=` line with fewer than three fields.
    InvalidConnection,
    /// An `m=` line without media, port, transport and a format.
    InvalidMedia,
}

impl SdpParseError {
    /// What the error means, in words.
    pub open spec fn message_spec(&self) -> &'static str {
        match self {
            SdpParseError::MissingVersion => "SDP 缺少 v= 版本行",
            SdpParseError::MissingOrigin => "SDP 缺少 o= 会话发起人行",
            SdpParseError::InvalidOrigin => "o= 行字段不足，需提供 6 个片段",
            SdpParseError::MissingSessionName => "SDP 缺少 s= 会话名称行",
            SdpParseError::MissingTiming => "SDP 缺少 t= 时间行",
            SdpParseError::InvalidTiming => "t= 行需要包含开始与结束时间",
            SdpParseError::InvalidConnection => "c= 行需要提供网络/地址类型与地址",
            SdpParseError::InvalidMedia => "m= 行需要包含媒体、端口、传输与至少一个格式",
        }
    }

    /// What the error means, in words.
    pub fn message(&self) -> (r: &'static str)
        ensures
            r == self.message_spec(),
    {
        match self {
            SdpParseError::MissingVersion => "SDP 缺少 v= 版本行",
            SdpParseError::MissingOrigin => "SDP 缺少 o= 会话发起人行",
            SdpParseError::InvalidOrigin => "o= 行字段不足，需提供 6 个片段",
            SdpParseError::MissingSessionName => "SDP 缺少 s= 会话名称行",
            SdpParseError::MissingTiming => "SDP 缺少 t= 时间行",
            SdpParseError::InvalidTiming => "t= 行需要包含开始与结束时间",
            SdpParseError::InvalidConnection => "c= 行需要提供网络/地址类型与地址",
            SdpParseError::InvalidMedia => "m= 行需要包含媒体、端口、传输与至少一个格式",
        }
    }
}

/// The `o=` line.
#[derive(Debug, Clone, PartialEq, Eq)]
pub struct Origin<'a> {
    /// Login of the originator.
    pub username: &'a str,
    /// Identifier of the session.
    pub session_id: &'a str,
    /// Version of the description.
    pub session_version: &'a str,
    /// Network type.
    pub net_type: &'a str,
    /// Address type.
    pub addr_type: &'a str,
    /// Address of the originator.
    pub address: &'a str,
}

/// A `c=` line.
#[derive(Debug, Clone, PartialEq, Eq)]
pub struct Connection<'a> {
    /// Network type.
    pub net_type: &'a str,
    /// Address type.
    pub addr_type: &'a str,
    /// Connection address.
    pub address: &'a str,
}

/// The `t=` line.
#[derive(Debug, Clone, PartialEq, Eq)]
pub struct Timing<'a> {
    /// Start of the session.
    pub start: &'a str,
    /// End of the session.
    pub stop: &'a str,
}

/// An `a=` line.
#[derive(Debug, Clone, PartialEq, Eq)]
pub struct Attribute<'a> {
    /// What stands in front of the first colon.
    pub key: &'a str,
    /// What stands behind the first colon.
    pub value: Option<&'a str>,
}

/// An `m=` line and the lines that belong to it.
#[derive(Debug, Clone, PartialEq, Eq)]
pub struct MediaDesc<'a> {
    /// Kind of media.
    pub media: &'a str,
    /// Transport port.
    pub port: &'a str,
    /// Transport protocol.
    pub proto: &'a str,
    /// Media formats.
    pub formats: Vec<&'a str>,
    /// Connection for this media.
    pub connection: Option<Connection<'a>>,
    /// Attributes of this media.
    pub attributes: Vec<Attribute<'a>>,
}

/// A session description.
#[derive(Debug, Clone, PartialEq, Eq)]
pub struct SessionDesc<'a> {
    /// Protocol version.
    pub version: &'a str,
    /// Originator.
    pub origin: Origin<'a>,
    /// Session name.
    pub session_name: &'a str,
    /// Connection for all media.
    pub connection: Option<Connection<'a>>,
    /// Times of the session.
    pub timing: Timing<'a>,
    /// Attributes of the session.
    pub attributes: Vec<Attribute<'a>>,
    /// Media, in order.
    pub media: Vec<MediaDesc<'a>>,
}

/// The contents of an `o=` line.
pub struct OriginView {
    /// Login of the originator.
    pub username: Seq<char>,
    /// Identifier of the session.
    pub session_id: Seq<char>,
    /// Version of the description.
    pub session_version: Seq<char>,
    /// Network type.
    pub net_type: Seq<char>,
    /// Address type.
    pub addr_type: Seq<char>,
    /// Address of the originator.
    pub address: Seq<char>,
}

/// The contents of a `c=` line.
pub struct ConnectionView {
    /// Network type.
    pub net_type: Seq<char>,
    /// Address type.
    pub addr_type: Seq<char>,
    /// Connection address.
    pub address: Seq<char>,
}

/// The contents of a `t=` line.
pub struct TimingView {
    /// Start of the session.
    pub start: Seq<char>,
    /// End of the session.
    pub stop: Seq<char>,
}

/// The contents of an `a=` line.
pub struct AttributeView {
    /// What stands in front of the first colon.
    pub key: Seq<char>,
    /// What stands behind the first colon.
    pub value: Option<Seq<char>>,
}

/// The contents of an `m=` line and the lines that belong to it.
pub struct MediaView {
    /// Kind of media.
    pub media: Seq<char>,
    /// Transport port.
    pub port: Seq<char>,
    /// Transport protocol.
    pub proto: Seq<char>,
    /// Media formats.
    pub formats: Seq<Seq<char>>,
    /// Connection for this media.
    pub connection: Option<ConnectionView>,
    /// Attributes of this media.
    pub attributes: Seq<AttributeView>,
}

/// The contents of a session description.
pub struct SessionView {
    /// Protocol version.
    pub version: Seq<char>,
    /// Originator.
    pub origin: OriginView,
    /// Session name.
    pub session_name: Seq<char>,
    /// Connection for all media.
    pub connection: Option<ConnectionView>,
    /// Times of the session.
    pub timing: TimingView,
    /// Attributes of the session.
    pub attributes: Seq<AttributeView>,
    /// Media, in order.
    pub media: Seq<MediaView>,
}

impl<'a> View for Origin<'a> {
    type V = OriginView;

    open spec fn view(&self) -> OriginView {
        OriginView {
            username: self.username@,
            session_id: self.session_id@,
            session_version: self.session_version@,
            net_type: self.net_type@,
            addr_type: self.addr_type@,
            address: self.address@,
        }
    }
}

impl<'a> View for Connection<'a> {
    type V = ConnectionView;

    open spec fn view(&self) -> ConnectionView {
        ConnectionView {
            net_type: self.net_type@,
            addr_type: self.addr_type@,
            address: self.address@,
        }
    }
}

impl<'a> View for Timing<'a> {
    type V = TimingView;

    open spec fn view(&self) -> TimingView {
        TimingView { start: self.start@, stop: self.stop@ }
    }
}

impl<'a> View for Attribute<'a> {
    type V = AttributeView;

    open spec fn view(&self) -> AttributeView {
        AttributeView {
            key: self.key@,
            value: match self.value {
                Some(value) => Some(value@),
                None => None,
            },
        }
    }
}

/// The contents of an optional connection.
pub open spec fn connection_view(connection: Option<Connection<'_>>) -> Option<ConnectionView> {
    match connection {
        Some(connection) => Some(connection@),
        None => None,
    }
}

/// The contents of a list of attributes.
pub open spec fn attribute_views(list: Seq<Attribute<'_>>) -> Seq<AttributeView> {
    Seq::new(list.len(), |i: int| list[i]@)
}

impl<'a> View for MediaDesc<'a> {
    type V = MediaView;

    open spec fn view(&self) -> MediaView {
        MediaView {
            media: self.media@,
            port: self.port@,
            proto: self.proto@,
            formats: texts(self.formats@),
            connection: connection_view(self.connection),
            attributes: attribute_views(self.attributes@),
        }
    }
}

/// The contents of a list of media.
pub open spec fn media_views(list: Seq<MediaDesc<'_>>) -> Seq<MediaView> {
    Seq::new(list.len(), |i: int| list[i]@)
}

impl<'a> View for SessionDesc<'a> {
    type V = SessionView;

    open spec fn view(&self) -> SessionView {
        SessionView {
            version: self.version@,
            origin: self.origin@,
            session_name: self.session_name@,
            connection: connection_view(self.connection),
            timing: self.timing@,
            attributes: attribute_views(self.attributes@),
            media: media_views(self.media@),
        }
    }
}

/// The originator that an `o=` value names.
pub open spec fn origin_of(value: Seq<char>) -> Option<OriginView> {
    let w = words(value);
    if w.len() >= 6 {
        Some(
            OriginView {
                username: w[0],
                session_id: w[1],
                session_version: w[2],
                net_type: w[3],
                addr_type: w[4],
                address: w[5],
            },
        )
    } else {
        None
    }
}

/// The connection that a `c=` value names.
pub open spec fn connection_of(value: Seq<char>) -> Option<ConnectionView> {
    let w = words(value);
    if w.len() >= 3 {
        Some(ConnectionView { net_type: w[0], addr_type: w[1], address: w[2] })
    } else {
        None
    }
}

/// The times that a `t=` value names.
pub open spec fn timing_of(value: Seq<char>) -> Option<TimingView> {
    let w = words(value);
    if w.len() >= 2 {
        Some(TimingView { start: w[0], stop: w[1] })
    } else {
        None
    }
}

/// The media that an `m=` value names.
pub open spec fn media_of(value: Seq<char>) -> Option<MediaView> {
    let w = words(value);
    if w.len() >= 4 {
        Some(
            MediaView {
                media: w[0],
                port: w[1],
                proto: w[2],
                formats: w.skip(3),
                connection: None,
                attributes: Seq::empty(),
            },
        )
    } else {
        None
    }
}

/// The attribute that an `a=` value names.
pub open spec fn attribute_of(value: Seq<char>) -> AttributeView {
    match split_char(value, ':') {
        Some((key, rest)) => AttributeView { key, value: Some(rest) },
        None => AttributeView { key: value, value: None },
    }
}

/// What the lines read so far have set.
pub struct SdpLines {
    /// Value of the last `v=` line.
    pub version: Option<Seq<char>>,
    /// Value of the last `o=` line.
    pub origin: Option<OriginView>,
    /// Value of the last `s=` line.
    pub session_name: Option<Seq<char>>,
    /// Value of the last `c=` line in front of all media.
    pub connection: Option<ConnectionView>,
    /// Value of the last `t=` line.
    pub timing: Option<TimingView>,
    /// Attributes in front of all media.
    pub attributes: Seq<AttributeView>,
    /// Media with the lines that follow each.
    pub media: Seq<MediaView>,
}

/// Nothing set.
pub open spec fn no_lines() -> SdpLines {
    SdpLines {
        version: None,
        origin: None,
        session_name: None,
        connection: None,
        timing: None,
        attributes: Seq::empty(),
        media: Seq::empty(),
    }
}

/// What one more line changes. Lines of an unknown kind change nothing.
pub open spec fn add_line(state: SdpLines, raw: Seq<char>) -> Result<SdpLines, SdpParseError> {
    let line = trimmed_end_of(raw, '\r');
    if line.len() < 2 || line[1] != '=' {
        Ok(state)
    } else {
        let value = trimmed(line.skip(2));
        let kind = line[0];
        if kind == 'v' {
            Ok(SdpLines { version: Some(value), ..state })
        } else if kind == 'o' {
            match origin_of(value) {
                Some(origin) => Ok(SdpLines { origin: Some(origin), ..state }),
                None => Err(SdpParseError::InvalidOrigin),
            }
        } else if kind == 's' {
            Ok(SdpLines { session_name: Some(value), ..state })
        } else if kind == 'c' {
            match connection_of(value) {
                Some(connection) => if state.media.len() == 0 {
                    Ok(SdpLines { connection: Some(connection), ..state })
                } else {
                    Ok(
                        SdpLines {
                            media: state.media.update(
                                state.media.len() - 1,
                                MediaView { connection: Some(connection), ..state.media.last() },
                            ),
                            ..state
                        },
                    )
                },
                None => Err(SdpParseError::InvalidConnection),
            }
        } else if kind == 't' {
            match timing_of(value) {
                Some(timing) => Ok(SdpLines { timing: Some(timing), ..state }),
                None => Err(SdpParseError::InvalidTiming),
            }
        } else if kind == 'm' {
            match media_of(value) {
                Some(media) => Ok(SdpLines { media: state.media.push(media), ..state }),
                None => Err(SdpParseError::InvalidMedia),
            }
        } else if kind == 'a' {
            let attribute = attribute_of(value);
            if state.media.len() == 0 {
                Ok(SdpLines { attributes: state.attributes.push(attribute), ..state })
            } else {
                Ok(
                    SdpLines {
                        media: state.media.update(
                            state.media.len() - 1,
                            MediaView {
                                attributes: state.media.last().attributes.push(attribute),
                                ..state.media.last()
                            },
                        ),
                        ..state
                    },
                )
            }
        } else {
            Ok(state)
        }
    }
}

/// What a list of lines sets, or the first error.
pub open spec fn add_lines(state: SdpLines, lines: Seq<Seq<char>>) -> Result<SdpLines, SdpParseError>
    decreases lines.len(),
{
    if lines.len() == 0 {
        Ok(state)
    } else {
        match add_line(state, lines[0]) {
            Ok(next) => add_lines(next, lines.drop_first()),
            Err(e) => Err(e),
        }
    }
}

/// The description that complete lines make up. A missing line is reported in the order version,
/// origin, session name, timing.
pub open spec fn finish_lines(state: SdpLines) -> Result<SessionView, SdpParseError> {
    if state.version is None {
        Err(SdpParseError::MissingVersion)
    } else if state.origin is None {
        Err(SdpParseError::MissingOrigin)
    } else if state.session_name is None {
        Err(SdpParseError::MissingSessionName)
    } else if state.timing is None {
        Err(SdpParseError::MissingTiming)
    } else {
        Ok(
            SessionView {
                version: state.version->0,
                origin: state.origin->0,
                session_name: state.session_name->0,
                connection: state.connection,
                timing: state.timing->0,
                attributes: state.attributes,
                media: state.media,
            },
        )
    }
}

/// The description that a text denotes, or why it denotes none.
pub open spec fn sdp_of(text: Seq<char>) -> Result<SessionView, SdpParseError> {
    match add_lines(no_lines(), parts(text, '\n')) {
        Ok(state) => finish_lines(state),
        Err(e) => Err(e),
    }
}

/// Reads an `o=` value.
fn parse_origin<'a>(value: &'a str) -> (r: Result<Origin<'a>, SdpParseError>)
    ensures
        match r {
            Ok(origin) => origin_of(value@) == Some(origin@),
            Err(e) => origin_of(value@) is None && e == SdpParseError::InvalidOrigin,
        },
{
    let w = split_whitespace(value);
    assert(texts(w@) == words(value@));
    if w.len() >= 6 {
        Ok(
            Origin {
                username: w[0],
                session_id: w[1],
                session_version: w[2],
                net_type: w[3],
                addr_type: w[4],
                address: w[5],
            },
        )
    } else {
        Err(SdpParseError::InvalidOrigin)
    }
}

/// Reads a `c=` value.
fn parse_connection<'a>(value: &'a str) -> (r: Result<Connection<'a>, SdpParseError>)
    ensures
        match r {
            Ok(connection) => connection_of(value@) == Some(connection@),
            Err(e) => connection_of(value@) is None && e == SdpParseError::InvalidConnection,
        },
{
    let w = split_whitespace(value);
    assert(texts(w@) == words(value@));
    if w.len() >= 3 {
        Ok(Connection { net_type: w[0], addr_type: w[1], address: w[2] })
    } else {
        Err(SdpParseError::InvalidConnection)
    }
}

/// Reads a `t=` value.
fn parse_timing<'a>(value: &'a str) -> (r: Result<Timing<'a>, SdpParseError>)
    ensures
        match r {
            Ok(timing) => timing_of(value@) == Some(timing@),
            Err(e) => timing_of(value@) is None && e == SdpParseError::InvalidTiming,
        },
{
    let w = split_whitespace(value);
    assert(texts(w@) == words(value@));
    if w.len() >= 2 {
        Ok(Timing { start: w[0], stop: w[1] })
    } else {
        Err(SdpParseError::InvalidTiming)
    }
}

/// Reads an `m=` value.
fn parse_media<'a>(value: &'a str) -> (r: Result<MediaDesc<'a>, SdpParseError>)
    ensures
        match r {
            Ok(media) => media_of(value@) == Some(media@),
            Err(e) => media_of(value@) is None && e == SdpParseError::InvalidMedia,
        },
{
    let mut w = split_whitespace(value);
    let ghost all = w@;
    assert(texts(all) == words(value@));
    if w.len() >= 4 {
        let formats = w.split_off(3);
        let media = MediaDesc {
            media: w[0],
            port: w[1],
            proto: w[2],
            formats,
            connection: None,
            attributes: Vec::new(),
        };
        proof {
            assert(formats@ =~= all.skip(3));
            assert(media@.formats =~= words(value@).skip(3));
            assert(media@.attributes =~= Seq::<AttributeView>::empty());
        }
        Ok(media)
    } else {
        Err(SdpParseError::InvalidMedia)
    }
}

/// Reads an `a=` value.
fn parse_attribute<'a>(value: &'a str) -> (r: Attribute<'a>)
    ensures
        r@ == attribute_of(value@),
{
    match split_once(value, ':') {
        Some((key, rest)) => Attribute { key, value: Some(rest) },
        None => Attribute { key: value, value: None },
    }
}

/// What the lines read so far have set.
struct SdpReader<'a> {
    version: Option<&'a str>,
    origin: Option<Origin<'a>>,
    session_name: Option<&'a str>,
    connection: Option<Connection<'a>>,
    timing: Option<Timing<'a>>,
    attributes: Vec<Attribute<'a>>,
    media: Vec<MediaDesc<'a>>,
}

/// The contents of an optional text.
pub open spec fn text_view(text: Option<&str>) -> Option<Seq<char>> {
    match text {
        Some(text) => Some(text@),
        None => None,
    }
}

impl<'a> SdpReader<'a> {
    spec fn lines(&self) -> SdpLines {
        SdpLines {
            version: text_view(self.version),
            origin: match self.origin {
                Some(origin) => Some(origin@),
                None => None,
            },
            session_name: text_view(self.session_name),
            connection: connection_view(self.connection),
            timing: match self.timing {
                Some(timing) => Some(timing@),
                None => None,
            },
            attributes: attribute_views(self.attributes@),
            media: media_views(self.media@),
        }
    }

    fn new() -> (r: Self)
        ensures
            r.lines() == no_lines(),
    {
        let r = SdpReader {
            version: None,
            origin: None,
            session_name: None,
            connection: None,
            timing: None,
            attributes: Vec::new(),
            media: Vec::new(),
        };
        assert(r.lines().attributes =~= Seq::<AttributeView>::empty());
        assert(r.lines().media =~= Seq::<MediaView>::empty());
        r
    }

    /// Takes in the connection of the session, or of the last media if there is one.
    fn set_connection(&mut self, connection: Connection<'a>)
        ensures
            old(self).media@.len() == 0 ==> final(self).lines() == (SdpLines {
                connection: Some(connection@),
                ..old(self).lines()
            }),
            old(self).media@.len() > 0 ==> final(self).lines() == (SdpLines {
                media: old(self).lines().media.update(
                    old(self).media@.len() - 1,
                    MediaView { connection: Some(connection@), ..old(self).lines().media.last() },
                ),
                ..old(self).lines()
            }),
    {
        let ghost before = self.lines();
        let n: usize = self.media.len();
        if n == 0 {
            self.connection = Some(connection);
        } else {
            self.media[n - 1].connection = Some(connection);
            assert(self.lines().media =~= before.media.update(
                n - 1,
                MediaView { connection: Some(connection@), ..before.media.last() },
            ));
        }
    }

    /// Takes in an attribute of the session, or of the last media if there is one.
    fn push_attribute(&mut self, attribute: Attribute<'a>)
        ensures
            old(self).media@.len() == 0 ==> final(self).lines() == (SdpLines {
                attributes: old(self).lines().attributes.push(attribute@),
                ..old(self).lines()
            }),
            old(self).media@.len() > 0 ==> final(self).lines() == (SdpLines {
                media: old(self).lines().media.update(
                    old(self).media@.len() - 1,
                    MediaView {
                        attributes: old(self).lines().media.last().attributes.push(attribute@),
                        ..old(self).lines().media.last()
                    },
                ),
                ..old(self).lines()
            }),
    {
        let ghost before = self.lines();
        let n: usize = self.media.len();
        if n == 0 {
            self.attributes.push(attribute);
            assert(self.lines().attributes =~= before.attributes.push(attribute@));
        } else {
            self.media[n - 1].attributes.push(attribute);
            proof {
                assert(self.media@[n - 1]@.attributes =~= before.media.last().attributes.push(
                    attribute@,
                ));
                assert(self.lines().media =~= before.media.update(
                    n - 1,
                    MediaView {
                        attributes: before.media.last().attributes.push(attribute@),
                        ..before.media.last()
                    },
                ));
            }
        }
    }

    /// Takes in one line.
    fn add(&mut self, raw: &'a str) -> (r: Result<(), SdpParseError>)
        ensures
            match r {
                Ok(_) => add_line(old(self).lines(), raw@) == Ok::<SdpLines, SdpParseError>(
                    final(self).lines(),
                ),
                Err(e) => add_line(old(self).lines(), raw@) == Err::<SdpLines, SdpParseError>(e),
            },
    {
        let line = trim_end_cr(raw);
        let kind: char = match first_char(line) {
            Some(kind) => kind,
            None => {
                return Ok(());
            },
        };
        let rest = after_first(line);
        match first_char(rest) {
            Some(c) => {
                if c != '=' {
                    return Ok(());
                }
            },
            None => {
                return Ok(());
            },
        }
        let tail = after_first(rest);
        assert(tail@ =~= line@.skip(2));
        let value = trim(tail);
        if kind == 'v' {
            self.version = Some(value);
        } else if kind == 'o' {
            match parse_origin(value) {
                Ok(origin) => {
                    self.origin = Some(origin);
                },
                Err(e) => {
                    return Err(e);
                },
            }
        } else if kind == 's' {
            self.session_name = Some(value);
        } else if kind == 'c' {
            match parse_connection(value) {
                Ok(connection) => {
                    self.set_connection(connection);
                },
                Err(e) => {
                    return Err(e);
                },
            }
        } else if kind == 't' {
            match parse_timing(value) {
                Ok(timing) => {
                    self.timing = Some(timing);
                },
                Err(e) => {
                    return Err(e);
                },
            }
        } else if kind == 'm' {
            match parse_media(value) {
                Ok(media) => {
                    let ghost before = self.lines();
                    self.media.push(media);
                    assert(self.lines().media =~= before.media.push(media@));
                },
                Err(e) => {
                    return Err(e);
                },
            }
        } else if kind == 'a' {
            self.push_attribute(parse_attribute(value));
        }
        Ok(())
    }
}

/// Parses a session description. Lines end in a line feed, with or without a carriage return; lines
/// of an unknown kind are skipped.
pub fn parse_sdp<'a>(input: &'a str) -> (r: Result<SessionDesc<'a>, SdpParseError>)
    ensures
        match r {
            Ok(desc) => sdp_of(input@) == Ok::<SessionView, SdpParseError>(desc@),
            Err(e) => sdp_of(input@) == Err::<SessionView, SdpParseError>(e),
        },
{
    let lines = split_all(input, '\n');
    let ghost all = texts(lines@);
    let mut reader = SdpReader::new();
    let mut i: usize = 0;
    assert(all.skip(0) =~= all);
    while i < lines.len()
        invariant
            i <= lines@.len(),
            all == texts(lines@),
            all == parts(input@, '\n'),
            add_lines(no_lines(), all) == add_lines(reader.lines(), all.skip(i as int)),
        decreases lines@.len() - i,
    {
        let line = lines[i];
        proof {
            assert(all.skip(i as int)[0] == line@);
            assert(all.skip(i as int).drop_first() =~= all.skip(i + 1));
        }
        match reader.add(line) {
            Ok(_) => {},
            Err(e) => {
                return Err(e);
            },
        }
        i += 1;
    }
    assert(all.skip(i as int).len() == 0);
    let version = match reader.version {
        Some(version) => version,
        None => {
            return Err(SdpParseError::MissingVersion);
        },
    };
    let origin = match reader.origin {
        Some(origin) => origin,
        None => {
            return Err(SdpParseError::MissingOrigin);
        },
    };
    let session_name = match reader.session_name {
        Some(session_name) => session_name,
        None => {
            return Err(SdpParseError::MissingSessionName);
        },
    };
    let timing = match reader.timing {
        Some(timing) => timing,
        None => {
            return Err(SdpParseError::MissingTiming);
        },
    };
    Ok(
        SessionDesc {
            version,
            origin,
            session_name,
            connection: reader.connection,
            timing,
            attributes: reader.attributes,
            media: reader.media,
        },
    )
}

/// Texts with one space between neighbours.
pub open spec fn spaced(list: Seq<Seq<char>>) -> Seq<char>
    decreases list.len(),
{
    if list.len() == 0 {
        Seq::empty()
    } else if list.len() == 1 {
        list[0]
    } else {
        spaced(list.drop_last()) + seq![' '] + list.last()
    }
}

/// Lines, each with its line end.
pub open spec fn joined_lines(lines: Seq<Seq<char>>) -> Seq<char>
    decreases lines.len(),
{
    if lines.len() == 0 {
        Seq::empty()
    } else {
        joined_lines(lines.drop_last()) + lines.last() + seq!['\r', '\n']
    }
}

/// The `o=` line.
pub open spec fn origin_line(origin: OriginView) -> Seq<char> {
    seq!['o', '='] + spaced(
        seq![
            origin.username,
            origin.session_id,
            origin.session_version,
            origin.net_type,
            origin.addr_type,
            origin.address,
        ],
    )
}

/// A `c=` line.
pub open spec fn connection_line(connection: ConnectionView) -> Seq<char> {
    seq!['c', '='] + spaced(
        seq![connection.net_type, connection.addr_type, connection.address],
    )
}

/// The `t=` line.
pub open spec fn timing_line(timing: TimingView) -> Seq<char> {
    seq!['t', '='] + spaced(seq![timing.start, timing.stop])
}

/// What stands behind `a=`.
pub open spec fn attribute_text(attribute: AttributeView) -> Seq<char> {
    match attribute.value {
        Some(value) => attribute.key + seq![':'] + value,
        None => attribute.key,
    }
}

/// The `a=` lines of a list of attributes.
pub open spec fn attribute_lines(list: Seq<AttributeView>) -> Seq<Seq<char>> {
    Seq::new(list.len(), |i: int| seq!['a', '='] + attribute_text(list[i]))
}

/// The `c=` line of an optional connection.
pub open spec fn connection_lines(connection: Option<ConnectionView>) -> Seq<Seq<char>> {
    match connection {
        Some(connection) => seq![connection_line(connection)],
        None => Seq::empty(),
    }
}

/// An `m=` line.
pub open spec fn media_line(media: MediaView) -> Seq<char> {
    seq!['m', '='] + spaced(seq![media.media, media.port, media.proto] + media.formats)
}

/// The lines of one media.
pub open spec fn media_lines(media: MediaView) -> Seq<Seq<char>> {
    seq![media_line(media)] + connection_lines(media.connection) + attribute_lines(media.attributes)
}

/// The lines of a list of media.
pub open spec fn all_media_lines(list: Seq<MediaView>) -> Seq<Seq<char>>
    decreases list.len(),
{
    if list.len() == 0 {
        Seq::empty()
    } else {
        all_media_lines(list.drop_last()) + media_lines(list.last())
    }
}

/// The lines of a session description, in the order version, origin, name, connection, timing,
/// attributes, media.
pub open spec fn session_lines(desc: SessionView) -> Seq<Seq<char>> {
    seq![seq!['v', '='] + desc.version, origin_line(desc.origin), seq!['s', '=']
        + desc.session_name] + connection_lines(desc.connection) + seq![timing_line(desc.timing)]
        + attribute_lines(desc.attributes) + all_media_lines(desc.media)
}

/// Joining lists of lines one after the other is joining their concatenation.
pub proof fn lemma_joined_lines_concat(a: Seq<Seq<char>>, b: Seq<Seq<char>>)
    ensures
        joined_lines(a + b) == joined_lines(a) + joined_lines(b),
    decreases b.len(),
{
    if b.len() == 0 {
        assert(a + b =~= a);
        assert(joined_lines(a) + joined_lines(b) =~= joined_lines(a));
    } else {
        lemma_joined_lines_concat(a, b.drop_last());
        assert((a + b).drop_last() =~= a + b.drop_last());
        assert(joined_lines(a + b) =~= joined_lines(a) + joined_lines(b));
    }
}

/// One line joined is the line with its line end.
pub proof fn lemma_joined_line(line: Seq<char>)
    ensures
        joined_lines(seq![line]) == line + seq!['\r', '\n'],
{
    reveal_with_fuel(joined_lines, 2);
    assert(seq![line].drop_last() =~= Seq::<Seq<char>>::empty());
    assert(joined_lines(seq![line]) =~= line + seq!['\r', '\n']);
}

/// Appends a line end.
fn push_line_end(buffer: &mut String)
    ensures
        final(buffer)@ == old(buffer)@ + seq!['\r', '\n'],
{
    proof {
        reveal_strlit("\r\n");
        assert("\r\n"@ =~= seq!['\r', '\n']);
    }
    buffer.append("\r\n");
}

/// Appends a line that begins with `prefix`.
fn push_line(buffer: &mut String, prefix: &str, content: &str)
    ensures
        final(buffer)@ == old(buffer)@ + joined_lines(seq![prefix@ + content@]),
{
    let ghost before = buffer@;
    buffer.append(prefix);
    buffer.append(content);
    push_line_end(buffer);
    proof {
        lemma_joined_line(prefix@ + content@);
        assert(buffer@ =~= before + joined_lines(seq![prefix@ + content@]));
    }
}

/// Appends a space and a text.
fn push_spaced(buffer: &mut String, text: &str)
    ensures
        final(buffer)@ == old(buffer)@ + seq![' '] + text@,
{
    proof {
        reveal_strlit(" ");
        assert(" "@ =~= seq![' ']);
    }
    buffer.append(" ");
    buffer.append(text);
}

/// One more text behind a space.
proof fn lemma_spaced_push(list: Seq<Seq<char>>, text: Seq<char>)
    requires
        list.len() > 0,
    ensures
        spaced(list.push(text)) == spaced(list) + seq![' '] + text,
{
    assert(list.push(text).drop_last() =~= list);
}

/// Appends the `o=` line.
fn push_origin(buffer: &mut String, origin: &Origin<'_>)
    ensures
        final(buffer)@ == old(buffer)@ + joined_lines(seq![origin_line(origin@)]),
{
    let ghost before = buffer@;
    proof {
        reveal_strlit("o=");
        assert("o="@ =~= seq!['o', '=']);
    }
    buffer.append("o=");
    buffer.append(origin.username);
    push_spaced(buffer, origin.session_id);
    push_spaced(buffer, origin.session_version);
    push_spaced(buffer, origin.net_type);
    push_spaced(buffer, origin.addr_type);
    push_spaced(buffer, origin.address);
    push_line_end(buffer);
    proof {
        let o = origin@;
        let w1 = seq![o.username];
        let w2 = w1.push(o.session_id);
        let w3 = w2.push(o.session_version);
        let w4 = w3.push(o.net_type);
        let w5 = w4.push(o.addr_type);
        lemma_spaced_push(w1, o.session_id);
        lemma_spaced_push(w2, o.session_version);
        lemma_spaced_push(w3, o.net_type);
        lemma_spaced_push(w4, o.addr_type);
        lemma_spaced_push(w5, o.address);
        assert(w5.push(o.address) =~= seq![
            o.username,
            o.session_id,
            o.session_version,
            o.net_type,
            o.addr_type,
            o.address,
        ]);
        lemma_joined_line(origin_line(o));
        assert(buffer@ =~= before + joined_lines(seq![origin_line(o)]));
    }
}

/// Appends a `c=` line.
fn push_connection(buffer: &mut String, connection: &Connection<'_>)
    ensures
        final(buffer)@ == old(buffer)@ + joined_lines(seq![connection_line(connection@)]),
{
    let ghost before = buffer@;
    proof {
        reveal_strlit("c=");
        assert("c="@ =~= seq!['c', '=']);
    }
    buffer.append("c=");
    buffer.append(connection.net_type);
    push_spaced(buffer, connection.addr_type);
    push_spaced(buffer, connection.address);
    push_line_end(buffer);
    proof {
        let c = connection@;
        let w1 = seq![c.net_type];
        let w2 = w1.push(c.addr_type);
        lemma_spaced_push(w1, c.addr_type);
        lemma_spaced_push(w2, c.address);
        assert(w2.push(c.address) =~= seq![c.net_type, c.addr_type, c.address]);
        lemma_joined_line(connection_line(c));
        assert(buffer@ =~= before + joined_lines(seq![connection_line(c)]));
    }
}

/// Appends the `t=` line.
fn push_timing(buffer: &mut String, timing: &Timing<'_>)
    ensures
        final(buffer)@ == old(buffer)@ + joined_lines(seq![timing_line(timing@)]),
{
    let ghost before = buffer@;
    proof {
        reveal_strlit("t=");
        assert("t="@ =~= seq!['t', '=']);
    }
    buffer.append("t=");
    buffer.append(timing.start);
    push_spaced(buffer, timing.stop);
    push_line_end(buffer);
    proof {
        let w1 = seq![timing@.start];
        lemma_spaced_push(w1, timing@.stop);
        assert(w1.push(timing@.stop) =~= seq![timing@.start, timing@.stop]);
        lemma_joined_line(timing_line(timing@));
        assert(buffer@ =~= before + joined_lines(seq![timing_line(timing@)]));
    }
}

/// Appends an `a=` line.
fn push_attribute(buffer: &mut String, attribute: &Attribute<'_>)
    ensures
        final(buffer)@ == old(buffer)@ + joined_lines(
            seq![seq!['a', '='] + attribute_text(attribute@)],
        ),
{
    let ghost before = buffer@;
    proof {
        reveal_strlit("a=");
        assert("a="@ =~= seq!['a', '=']);
        reveal_strlit(":");
        assert(":"@ =~= seq![':']);
    }
    buffer.append("a=");
    buffer.append(attribute.key);
    if let Some(value) = attribute.value {
        buffer.append(":");
        buffer.append(value);
    }
    push_line_end(buffer);
    proof {
        let line = seq!['a', '='] + attribute_text(attribute@);
        lemma_joined_line(line);
        assert(buffer@ =~= before + joined_lines(seq![line]));
    }
}

/// Appends the `a=` lines of a list.
fn push_attributes(buffer: &mut String, list: &Vec<Attribute<'_>>)
    ensures
        final(buffer)@ == old(buffer)@ + joined_lines(attribute_lines(attribute_views(list@))),
{
    let ghost before = buffer@;
    let ghost lines = attribute_lines(attribute_views(list@));
    let mut i: usize = 0;
    assert(before + joined_lines(lines.take(0)) =~= before);
    while i < list.len()
        invariant
            i <= list@.len(),
            lines == attribute_lines(attribute_views(list@)),
            buffer@ == before + joined_lines(lines.take(i as int)),
        decreases list@.len() - i,
    {
        push_attribute(buffer, &list[i]);
        proof {
            let line = lines[i as int];
            assert(line == seq!['a', '='] + attribute_text(list@[i as int]@));
            lemma_joined_lines_concat(lines.take(i as int), seq![line]);
            assert(lines.take(i as int) + seq![line] =~= lines.take(i + 1));
            assert(buffer@ =~= before + joined_lines(lines.take(i + 1)));
        }
        i += 1;
    }
    assert(lines.take(i as int) =~= lines);
}

/// Appends the lines of one media.
fn push_media(buffer: &mut String, media: &MediaDesc<'_>)
    ensures
        final(buffer)@ == old(buffer)@ + joined_lines(media_lines(media@)),
{
    let ghost before = buffer@;
    let ghost m = media@;
    proof {
        reveal_strlit("m=");
        assert("m="@ =~= seq!['m', '=']);
    }
    buffer.append("m=");
    buffer.append(media.media);
    push_spaced(buffer, media.port);
    push_spaced(buffer, media.proto);
    let ghost lead = seq![m.media, m.port, m.proto];
    proof {
        let w1 = seq![m.media];
        let w2 = w1.push(m.port);
        lemma_spaced_push(w1, m.port);
        lemma_spaced_push(w2, m.proto);
        assert(w2.push(m.proto) =~= lead);
        assert(lead + m.formats.take(0) =~= lead);
        assert(buffer@ =~= before + (seq!['m', '='] + spaced(lead)));
    }
    let mut i: usize = 0;
    while i < media.formats.len()
        invariant
            i <= media.formats@.len(),
            m == media@,
            lead.len() == 3,
            buffer@ == before + (seq!['m', '='] + spaced(lead + m.formats.take(i as int))),
        decreases media.formats@.len() - i,
    {
        push_spaced(buffer, media.formats[i]);
        proof {
            let so_far = lead + m.formats.take(i as int);
            lemma_spaced_push(so_far, m.formats[i as int]);
            assert(so_far.push(m.formats[i as int]) =~= lead + m.formats.take(i + 1));
            assert(buffer@ =~= before + (seq!['m', '='] + spaced(lead + m.formats.take(i + 1))));
        }
        i += 1;
    }
    push_line_end(buffer);
    proof {
        assert(m.formats.take(i as int) =~= m.formats);
        lemma_joined_line(media_line(m));
        assert(buffer@ =~= before + joined_lines(seq![media_line(m)]));
    }
    if let Some(connection) = &media.connection {
        push_connection(buffer, connection);
    }
    push_attributes(buffer, &media.attributes);
    proof {
        let head = seq![media_line(m)];
        let mid = connection_lines(m.connection);
        let tail = attribute_lines(m.attributes);
        lemma_joined_lines_concat(head, mid);
        lemma_joined_lines_concat(head + mid, tail);
        assert(buffer@ =~= before + joined_lines(media_lines(m)));
    }
}

/// Formats a session description, each line ended by a carriage return and a line feed.
pub fn format_sdp(desc: &SessionDesc<'_>) -> (r: String)
    ensures
        r@ == joined_lines(session_lines(desc@)),
{
    let ghost d = desc@;
    let mut output = String::new();
    proof {
        reveal_strlit("v=");
        reveal_strlit("s=");
        assert("v="@ =~= seq!['v', '=']);
        assert("s="@ =~= seq!['s', '=']);
    }
    push_line(&mut output, "v=", desc.version);
    push_origin(&mut output, &desc.origin);
    push_line(&mut output, "s=", desc.session_name);
    let ghost l1 = seq![seq!['v', '='] + d.version];
    let ghost l2 = seq![origin_line(d.origin)];
    let ghost l3 = seq![seq!['s', '='] + d.session_name];
    let ghost lead = seq![seq!['v', '='] + d.version, origin_line(d.origin), seq!['s', '=']
        + d.session_name];
    proof {
        lemma_joined_lines_concat(l1, l2);
        lemma_joined_lines_concat(l1 + l2, l3);
        assert(l1 + l2 + l3 =~= lead);
        assert(output@ =~= joined_lines(lead));
    }
    if let Some(connection) = &desc.connection {
        push_connection(&mut output, connection);
    }
    let ghost with_connection = lead + connection_lines(d.connection);
    proof {
        lemma_joined_lines_concat(lead, connection_lines(d.connection));
        assert(output@ =~= joined_lines(with_connection));
    }
    push_timing(&mut output, &desc.timing);
    let ghost with_timing = with_connection + seq![timing_line(d.timing)];
    proof {
        lemma_joined_lines_concat(with_connection, seq![timing_line(d.timing)]);
    }
    push_attributes(&mut output, &desc.attributes);
    let ghost head = with_timing + attribute_lines(d.attributes);
    proof {
        lemma_joined_lines_concat(with_timing, attribute_lines(d.attributes));
        assert(output@ =~= joined_lines(head));
        assert(head + all_media_lines(d.media.take(0)) =~= head);
    }
    let mut i: usize = 0;
    while i < desc.media.len()
        invariant
            i <= desc.media@.len(),
            d == desc@,
            output@ == joined_lines(head + all_media_lines(d.media.take(i as int))),
        decreases desc.media@.len() - i,
    {
        push_media(&mut output, &desc.media[i]);
        proof {
            let lines = all_media_lines(d.media.take(i as int));
            lemma_joined_lines_concat(head + lines, media_lines(d.media[i as int]));
            assert(d.media.take(i + 1).drop_last() =~= d.media.take(i as int));
            assert(head + lines + media_lines(d.media[i as int]) =~= head + all_media_lines(
                d.media.take(i + 1),
            ));
        }
        i += 1;
    }
    assert(d.media.take(i as int) =~= d.media);
    output
}

} // verus!
