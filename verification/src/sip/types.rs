//! SIP messages as structures that borrow the text they were read from.
use crate::text::{eq_ignore_ascii_case, split_all, strip_prefix, text_eq, trim_start};
use vstd::prelude::*;

verus! {

use crate::sdp::text_view;
use crate::text::{parts, same_ignoring_case, texts, trimmed_start};

/// A request method.
#[derive(Debug, Clone, Copy, PartialEq, Eq)]
pub enum Method<'a> {
    /// `INVITE`
    Invite,
    /// `ACK`
    Ack,
    /// `OPTIONS`
    Options,
    /// `BYE`
    Bye,
    /// `CANCEL`
    Cancel,
    /// `REGISTER`
    Register,
    /// `PRACK`
    Prack,
    /// `SUBSCRIBE`
    Subscribe,
    /// `NOTIFY`
    Notify,
    /// `PUBLISH`
    Publish,
    /// `INFO`
    Info,
    /// `REFER`
    Refer,
    /// `MESSAGE`
    Message,
    /// `UPDATE`
    Update,
    /// Any other method.
    Extension(&'a str),
}

/// The meaning of a method.
pub enum MethodView {
    /// `INVITE`
    Invite,
    /// `ACK`
    Ack,
    /// `OPTIONS`
    Options,
    /// `BYE`
    Bye,
    /// `CANCEL`
    Cancel,
    /// `REGISTER`
    Register,
    /// `PRACK`
    Prack,
    /// `SUBSCRIBE`
    Subscribe,
    /// `NOTIFY`
    Notify,
    /// `PUBLISH`
    Publish,
    /// `INFO`
    Info,
    /// `REFER`
    Refer,
    /// `MESSAGE`
    Message,
    /// `UPDATE`
    Update,
    /// Any other method.
    Extension(Seq<char>),
}

impl<'a> View for Method<'a> {
    type V = MethodView;

    open spec fn view(&self) -> MethodView {
        match self {
            Method::Invite => MethodView::Invite,
            Method::Ack => MethodView::Ack,
            Method::Options => MethodView::Options,
            Method::Bye => MethodView::Bye,
            Method::Cancel => MethodView::Cancel,
            Method::Register => MethodView::Register,
            Method::Prack => MethodView::Prack,
            Method::Subscribe => MethodView::Subscribe,
            Method::Notify => MethodView::Notify,
            Method::Publish => MethodView::Publish,
            Method::Info => MethodView::Info,
            Method::Refer => MethodView::Refer,
            Method::Message => MethodView::Message,
            Method::Update => MethodView::Update,
            Method::Extension(token) => MethodView::Extension(token@),
        }
    }
}

/// The token that stands for a method.
pub open spec fn method_token(method: MethodView) -> Seq<char> {
    match method {
        MethodView::Invite => "INVITE"@,
        MethodView::Ack => "ACK"@,
        MethodView::Options => "OPTIONS"@,
        MethodView::Bye => "BYE"@,
        MethodView::Cancel => "CANCEL"@,
        MethodView::Register => "REGISTER"@,
        MethodView::Prack => "PRACK"@,
        MethodView::Subscribe => "SUBSCRIBE"@,
        MethodView::Notify => "NOTIFY"@,
        MethodView::Publish => "PUBLISH"@,
        MethodView::Info => "INFO"@,
        MethodView::Refer => "REFER"@,
        MethodView::Message => "MESSAGE"@,
        MethodView::Update => "UPDATE"@,
        MethodView::Extension(token) => token,
    }
}

/// The method that a token stands for. Methods are case-sensitive.
pub open spec fn method_of(token: Seq<char>) -> MethodView {
    if token == "INVITE"@ {
        MethodView::Invite
    } else if token == "ACK"@ {
        MethodView::Ack
    } else if token == "OPTIONS"@ {
        MethodView::Options
    } else if token == "BYE"@ {
        MethodView::Bye
    } else if token == "CANCEL"@ {
        MethodView::Cancel
    } else if token == "REGISTER"@ {
        MethodView::Register
    } else if token == "PRACK"@ {
        MethodView::Prack
    } else if token == "SUBSCRIBE"@ {
        MethodView::Subscribe
    } else if token == "NOTIFY"@ {
        MethodView::Notify
    } else if token == "PUBLISH"@ {
        MethodView::Publish
    } else if token == "INFO"@ {
        MethodView::Info
    } else if token == "REFER"@ {
        MethodView::Refer
    } else if token == "MESSAGE"@ {
        MethodView::Message
    } else if token == "UPDATE"@ {
        MethodView::Update
    } else {
        MethodView::Extension(token)
    }
}

/// Whether a method is not written as an extension although it has a variant of its own.
pub open spec fn method_is_canonical(method: MethodView) -> bool {
    method matches MethodView::Extension(token) ==> method_of(token) == method
}

/// The token of a method that was read is the token it was read from.
pub proof fn law_method_token_round_trip(token: Seq<char>)
    ensures
        method_token(method_of(token)) == token,
        method_is_canonical(method_of(token)),
{
}

/// Reading the token of a method gives the method.
pub proof fn law_method_round_trip(method: MethodView)
    requires
        method_is_canonical(method),
    ensures
        method_of(method_token(method)) == method,
{
    reveal_strlit("INVITE");
    reveal_strlit("ACK");
    reveal_strlit("OPTIONS");
    reveal_strlit("BYE");
    reveal_strlit("CANCEL");
    reveal_strlit("REGISTER");
    reveal_strlit("PRACK");
    reveal_strlit("SUBSCRIBE");
    reveal_strlit("NOTIFY");
    reveal_strlit("PUBLISH");
    reveal_strlit("INFO");
    reveal_strlit("REFER");
    reveal_strlit("MESSAGE");
    reveal_strlit("UPDATE");
    assert("INVITE"@.len() == 6);
    assert("ACK"@.len() == 3);
    assert("OPTIONS"@.len() == 7);
    assert("BYE"@.len() == 3);
    assert("CANCEL"@.len() == 6);
    assert("REGISTER"@.len() == 8);
    assert("PRACK"@.len() == 5);
    assert("SUBSCRIBE"@.len() == 9);
    assert("NOTIFY"@.len() == 6);
    assert("PUBLISH"@.len() == 7);
    assert("INFO"@.len() == 4);
    assert("REFER"@.len() == 5);
    assert("MESSAGE"@.len() == 7);
    assert("UPDATE"@.len() == 6);
    assert("OPTIONS"@[0] == 'O');
    assert("PUBLISH"@[0] == 'P');
    assert("CANCEL"@[0] == 'C');
    assert("UPDATE"@[0] == 'U');
    assert("INVITE"@[0] == 'I');
    assert("NOTIFY"@[0] == 'N');
    assert("ACK"@[0] == 'A');
    assert("BYE"@[0] == 'B');
    assert("PRACK"@[0] == 'P');
    assert("REFER"@[0] == 'R');
    assert("MESSAGE"@[0] == 'M');
    match method {
        MethodView::Invite => {},
        MethodView::Ack => {},
        MethodView::Options => {},
        MethodView::Bye => {},
        MethodView::Cancel => {},
        MethodView::Register => {},
        MethodView::Prack => {},
        MethodView::Subscribe => {},
        MethodView::Notify => {},
        MethodView::Publish => {},
        MethodView::Info => {},
        MethodView::Refer => {},
        MethodView::Message => {},
        MethodView::Update => {},
        MethodView::Extension(token) => {
            assert(method_of(token) == method);
        },
    }
}

impl<'a> Method<'a> {
    /// Reads a method.
    pub fn from_token(token: &'a str) -> (r: Self)
        ensures
            r@ == method_of(token@),
    {
        if text_eq(token, "INVITE") {
            Method::Invite
        } else if text_eq(token, "ACK") {
            Method::Ack
        } else if text_eq(token, "OPTIONS") {
            Method::Options
        } else if text_eq(token, "BYE") {
            Method::Bye
        } else if text_eq(token, "CANCEL") {
            Method::Cancel
        } else if text_eq(token, "REGISTER") {
            Method::Register
        } else if text_eq(token, "PRACK") {
            Method::Prack
        } else if text_eq(token, "SUBSCRIBE") {
            Method::Subscribe
        } else if text_eq(token, "NOTIFY") {
            Method::Notify
        } else if text_eq(token, "PUBLISH") {
            Method::Publish
        } else if text_eq(token, "INFO") {
            Method::Info
        } else if text_eq(token, "REFER") {
            Method::Refer
        } else if text_eq(token, "MESSAGE") {
            Method::Message
        } else if text_eq(token, "UPDATE") {
            Method::Update
        } else {
            Method::Extension(token)
        }
    }

    /// The token of the method.
    pub fn as_str(self) -> (r: &'a str)
        ensures
            r@ == method_token(self@),
    {
        match self {
            Method::Invite => "INVITE",
            Method::Ack => "ACK",
            Method::Options => "OPTIONS",
            Method::Bye => "BYE",
            Method::Cancel => "CANCEL",
            Method::Register => "REGISTER",
            Method::Prack => "PRACK",
            Method::Subscribe => "SUBSCRIBE",
            Method::Notify => "NOTIFY",
            Method::Publish => "PUBLISH",
            Method::Info => "INFO",
            Method::Refer => "REFER",
            Method::Message => "MESSAGE",
            Method::Update => "UPDATE",
            Method::Extension(token) => token,
        }
    }
}

/// The scheme of a URI.
#[derive(Debug, Clone, Copy, PartialEq, Eq, Hash, Structural)]
pub enum SipScheme {
    /// `sip`
    Sip,
    /// `sips`
    Sips,
}

/// The name of a scheme.
pub open spec fn scheme_text(scheme: SipScheme) -> Seq<char> {
    match scheme {
        SipScheme::Sip => "sip"@,
        SipScheme::Sips => "sips"@,
    }
}

impl SipScheme {
    /// The name of the scheme.
    pub fn as_str(self) -> (r: &'static str)
        ensures
            r@ == scheme_text(self),
    {
        match self {
            SipScheme::Sip => "sip",
            SipScheme::Sips => "sips",
        }
    }
}

/// A SIP URI.
#[derive(Debug, Clone, Copy, PartialEq, Eq, Hash)]
pub struct SipUri<'a> {
    /// Scheme.
    pub scheme: SipScheme,
    /// What stands in front of the at sign.
    pub userinfo: Option<&'a str>,
    /// Host, without the brackets of an IPv6 reference.
    pub host: &'a str,
    /// Port.
    pub port: Option<u16>,
    /// Parameters, with the semicolon they begin with.
    pub params: Option<&'a str>,
    /// What stands behind the question mark.
    pub headers: Option<&'a str>,
}

/// The meaning of a URI.
pub struct UriView {
    /// Scheme.
    pub scheme: SipScheme,
    /// What stands in front of the at sign.
    pub userinfo: Option<Seq<char>>,
    /// Host, without the brackets of an IPv6 reference.
    pub host: Seq<char>,
    /// Port.
    pub port: Option<u16>,
    /// Parameters, with the semicolon they begin with.
    pub params: Option<Seq<char>>,
    /// What stands behind the question mark.
    pub headers: Option<Seq<char>>,
}

impl<'a> View for SipUri<'a> {
    type V = UriView;

    open spec fn view(&self) -> UriView {
        UriView {
            scheme: self.scheme,
            userinfo: text_view(self.userinfo),
            host: self.host@,
            port: self.port,
            params: text_view(self.params),
            headers: text_view(self.headers),
        }
    }
}

/// Whether one of the texts, leading white space aside, begins with `transport=`.
pub open spec fn names_transport(list: Seq<Seq<char>>) -> bool {
    exists|i: int|
        0 <= i < list.len() && "transport="@.is_prefix_of(trimmed_start(#[trigger] list[i]))
}

impl<'a> SipUri<'a> {
    /// Whether the parameters name a transport.
    pub fn has_transport_param(&self) -> (r: bool)
        ensures
            r == (self.params matches Some(params) && names_transport(parts(params@, ';'))),
    {
        let params = match self.params {
            Some(params) => params,
            None => {
                return false;
            },
        };
        let list = split_all(params, ';');
        let ghost all = texts(list@);
        let mut i: usize = 0;
        while i < list.len()
            invariant
                i <= list@.len(),
                all == texts(list@),
                all == parts(params@, ';'),
                forall|k: int|
                    0 <= k < i ==> !"transport="@.is_prefix_of(trimmed_start(#[trigger] all[k])),
                self.params == Some(params),
            decreases list@.len() - i,
        {
            assert(all[i as int] == list@[i as int]@);
            if strip_prefix(trim_start(list[i]), "transport=").is_some() {
                return true;
            }
            i += 1;
        }
        false
    }
}

/// An address with an optional display name and parameters.
#[derive(Debug, Clone, Copy, PartialEq, Eq)]
pub struct NameAddr<'a> {
    /// Display name, without its quotes.
    pub display_name: Option<&'a str>,
    /// Address.
    pub uri: SipUri<'a>,
    /// What follows the address.
    pub params: Option<&'a str>,
    /// Whether angle brackets enclose the address.
    pub enclosed: bool,
}

/// The meaning of an address.
pub struct NameAddrView {
    /// Display name, without its quotes.
    pub display_name: Option<Seq<char>>,
    /// Address.
    pub uri: UriView,
    /// What follows the address.
    pub params: Option<Seq<char>>,
    /// Whether angle brackets enclose the address.
    pub enclosed: bool,
}

impl<'a> View for NameAddr<'a> {
    type V = NameAddrView;

    open spec fn view(&self) -> NameAddrView {
        NameAddrView {
            display_name: text_view(self.display_name),
            uri: self.uri@,
            params: text_view(self.params),
            enclosed: self.enclosed,
        }
    }
}

/// The first line of a request.
#[derive(Debug, Clone, Copy, PartialEq, Eq)]
pub struct RequestLine<'a> {
    /// Method.
    pub method: Method<'a>,
    /// Target.
    pub uri: SipUri<'a>,
    /// Protocol version.
    pub version: &'a str,
}

/// The meaning of the first line of a request.
pub struct RequestLineView {
    /// Method.
    pub method: MethodView,
    /// Target.
    pub uri: UriView,
    /// Protocol version.
    pub version: Seq<char>,
}

impl<'a> View for RequestLine<'a> {
    type V = RequestLineView;

    open spec fn view(&self) -> RequestLineView {
        RequestLineView { method: self.method@, uri: self.uri@, version: self.version@ }
    }
}

/// The first line of a response.
#[derive(Debug, Clone, Copy, PartialEq, Eq)]
pub struct StatusLine<'a> {
    /// Protocol version.
    pub version: &'a str,
    /// Status code.
    pub status_code: u16,
    /// Reason phrase.
    pub reason: &'a str,
}

/// The meaning of the first line of a response.
pub struct StatusLineView {
    /// Protocol version.
    pub version: Seq<char>,
    /// Status code.
    pub status_code: u16,
    /// Reason phrase.
    pub reason: Seq<char>,
}

impl<'a> View for StatusLine<'a> {
    type V = StatusLineView;

    open spec fn view(&self) -> StatusLineView {
        StatusLineView {
            version: self.version@,
            status_code: self.status_code,
            reason: self.reason@,
        }
    }
}

/// Headers that have a structure of their own.
#[derive(Debug, Clone, Copy, PartialEq, Eq, Structural)]
pub enum HeaderKind {
    /// `Via`
    Via,
    /// `From`
    From,
    /// `To`
    To,
    /// `Call-ID`
    CallId,
    /// `CSeq`
    CSeq,
    /// `Max-Forwards`
    MaxForwards,
    /// `Contact`
    Contact,
    /// Any other header.
    Other,
}

/// The kind of header that a name denotes, whatever its case.
pub open spec fn kind_of(name: Seq<char>) -> HeaderKind {
    if same_ignoring_case(name, "via"@) {
        HeaderKind::Via
    } else if same_ignoring_case(name, "from"@) {
        HeaderKind::From
    } else if same_ignoring_case(name, "to"@) {
        HeaderKind::To
    } else if same_ignoring_case(name, "call-id"@) || same_ignoring_case(name, "callid"@) {
        HeaderKind::CallId
    } else if same_ignoring_case(name, "cseq"@) {
        HeaderKind::CSeq
    } else if same_ignoring_case(name, "max-forwards"@) || same_ignoring_case(
        name,
        "maxforwards"@,
    ) {
        HeaderKind::MaxForwards
    } else if same_ignoring_case(name, "contact"@) {
        HeaderKind::Contact
    } else {
        HeaderKind::Other
    }
}

/// The kind of a header does not depend on the case of its name.
pub proof fn law_kind_ignores_case(a: Seq<char>, b: Seq<char>)
    requires
        same_ignoring_case(a, b),
    ensures
        kind_of(a) == kind_of(b),
{
    lemma_same_kind(a, b, "via"@);
    lemma_same_kind(a, b, "from"@);
    lemma_same_kind(a, b, "to"@);
    lemma_same_kind(a, b, "call-id"@);
    lemma_same_kind(a, b, "callid"@);
    lemma_same_kind(a, b, "cseq"@);
    lemma_same_kind(a, b, "max-forwards"@);
    lemma_same_kind(a, b, "maxforwards"@);
    lemma_same_kind(a, b, "contact"@);
}

proof fn lemma_same_kind(a: Seq<char>, b: Seq<char>, c: Seq<char>)
    requires
        same_ignoring_case(a, b),
    ensures
        same_ignoring_case(a, c) == same_ignoring_case(b, c),
{
    if same_ignoring_case(b, c) {
        assert forall|i: int| 0 <= i < a.len() implies crate::text::ascii_lower(#[trigger] a[i])
            == crate::text::ascii_lower(c[i]) by {
            assert(crate::text::ascii_lower(b[i]) == crate::text::ascii_lower(c[i]));
        }
    }
    if same_ignoring_case(a, c) {
        assert forall|i: int| 0 <= i < b.len() implies crate::text::ascii_lower(#[trigger] b[i])
            == crate::text::ascii_lower(c[i]) by {
            assert(crate::text::ascii_lower(a[i]) == crate::text::ascii_lower(b[i]));
        }
    }
}

/// The name of a header.
#[derive(Debug, Clone, Copy, PartialEq, Eq)]
pub struct HeaderName<'a> {
    /// The name as it was written.
    pub raw: &'a str,
    /// What the name denotes.
    pub kind: HeaderKind,
}

impl<'a> HeaderName<'a> {
    /// Recognizes a name.
    pub fn new(name: &'a str) -> (r: Self)
        ensures
            r.raw == name,
            r.kind == kind_of(name@),
    {
        let kind = if eq_ignore_ascii_case(name, "via") {
            HeaderKind::Via
        } else if eq_ignore_ascii_case(name, "from") {
            HeaderKind::From
        } else if eq_ignore_ascii_case(name, "to") {
            HeaderKind::To
        } else if eq_ignore_ascii_case(name, "call-id") || eq_ignore_ascii_case(name, "callid") {
            HeaderKind::CallId
        } else if eq_ignore_ascii_case(name, "cseq") {
            HeaderKind::CSeq
        } else if eq_ignore_ascii_case(name, "max-forwards") || eq_ignore_ascii_case(
            name,
            "maxforwards",
        ) {
            HeaderKind::MaxForwards
        } else if eq_ignore_ascii_case(name, "contact") {
            HeaderKind::Contact
        } else {
            HeaderKind::Other
        };
        HeaderName { raw: name, kind }
    }
}

/// The `rport` parameter of a `Via` header.
#[derive(Debug, Clone, Copy, PartialEq, Eq, Structural)]
pub enum ViaParamRport {
    /// The parameter is absent.
    NotPresent,
    /// The parameter is there without a value.
    Requested,
    /// The parameter has this value.
    Value(u16),
}

/// A `Via` header.
#[derive(Debug, Clone, Copy, PartialEq, Eq)]
pub struct ViaHeader<'a> {
    /// Protocol and transport.
    pub sent_protocol: &'a str,
    /// Host of the sender.
    pub host: &'a str,
    /// Port of the sender.
    pub port: Option<u16>,
    /// The `branch` parameter.
    pub branch: Option<&'a str>,
    /// The `received` parameter.
    pub received: Option<&'a str>,
    /// The `rport` parameter.
    pub rport: ViaParamRport,
    /// All parameters, with the semicolon they begin with.
    pub params: Option<&'a str>,
}

/// The meaning of a `Via` header.
pub struct ViaView {
    /// Protocol and transport.
    pub sent_protocol: Seq<char>,
    /// Host of the sender.
    pub host: Seq<char>,
    /// Port of the sender.
    pub port: Option<u16>,
    /// The `branch` parameter.
    pub branch: Option<Seq<char>>,
    /// The `received` parameter.
    pub received: Option<Seq<char>>,
    /// The `rport` parameter.
    pub rport: ViaParamRport,
    /// All parameters, with the semicolon they begin with.
    pub params: Option<Seq<char>>,
}

impl<'a> View for ViaHeader<'a> {
    type V = ViaView;

    open spec fn view(&self) -> ViaView {
        ViaView {
            sent_protocol: self.sent_protocol@,
            host: self.host@,
            port: self.port,
            branch: text_view(self.branch),
            received: text_view(self.received),
            rport: self.rport,
            params: text_view(self.params),
        }
    }
}

/// A `From` or `To` header.
pub type FromToHeader<'a> = NameAddr<'a>;

/// A `Call-ID` header.
#[derive(Debug, Clone, Copy, PartialEq, Eq)]
pub struct CallIdHeader<'a> {
    /// The identifier.
    pub value: &'a str,
}

/// A `CSeq` header.
#[derive(Debug, Clone, Copy, PartialEq, Eq)]
pub struct CSeqHeader<'a> {
    /// Sequence number.
    pub sequence: u32,
    /// Method of the request.
    pub method: Method<'a>,
}

/// A `Max-Forwards` header.
#[derive(Debug, Clone, Copy, PartialEq, Eq, Structural)]
pub struct MaxForwardsHeader {
    /// How many hops are left.
    pub hops: u32,
}

/// A `Contact` header.
#[derive(Debug, Clone, Copy, PartialEq, Eq)]
pub struct ContactHeader<'a> {
    /// The address, unless the header is a wildcard.
    pub address: Option<NameAddr<'a>>,
    /// Whether the header is `*`.
    pub is_wildcard: bool,
}

/// A header.
#[derive(Debug, Clone, Copy, PartialEq, Eq)]
pub enum Header<'a> {
    /// `Via`
    Via(ViaHeader<'a>),
    /// `From`
    From(FromToHeader<'a>),
    /// `To`
    To(FromToHeader<'a>),
    /// `Call-ID`
    CallId(CallIdHeader<'a>),
    /// `CSeq`
    CSeq(CSeqHeader<'a>),
    /// `Max-Forwards`
    MaxForwards(MaxForwardsHeader),
    /// `Contact`
    Contact(ContactHeader<'a>),
    /// Any other header, as it was written.
    Extension {
        /// Name.
        name: HeaderName<'a>,
        /// Value.
        value: &'a str,
    },
}

/// The meaning of a header.
pub enum HeaderView {
    /// `Via`
    Via(ViaView),
    /// `From`
    From(NameAddrView),
    /// `To`
    To(NameAddrView),
    /// `Call-ID` with its identifier.
    CallId(Seq<char>),
    /// `CSeq` with sequence number and method.
    CSeq(u32, MethodView),
    /// `Max-Forwards` with the hops that are left.
    MaxForwards(u32),
    /// `Contact` with its address, if any, and whether it is a wildcard.
    Contact(Option<NameAddrView>, bool),
    /// Any other header: name, kind and value.
    Extension(Seq<char>, HeaderKind, Seq<char>),
}

impl<'a> View for Header<'a> {
    type V = HeaderView;

    open spec fn view(&self) -> HeaderView {
        match self {
            Header::Via(via) => HeaderView::Via(via@),
            Header::From(addr) => HeaderView::From(addr@),
            Header::To(addr) => HeaderView::To(addr@),
            Header::CallId(call_id) => HeaderView::CallId(call_id.value@),
            Header::CSeq(cseq) => HeaderView::CSeq(cseq.sequence, cseq.method@),
            Header::MaxForwards(max) => HeaderView::MaxForwards(max.hops),
            Header::Contact(contact) => HeaderView::Contact(
                match contact.address {
                    Some(addr) => Some(addr@),
                    None => None,
                },
                contact.is_wildcard,
            ),
            Header::Extension { name, value } => HeaderView::Extension(
                name.raw@,
                name.kind,
                value@,
            ),
        }
    }
}

/// The kind of a header.
pub open spec fn header_kind(header: HeaderView) -> HeaderKind {
    match header {
        HeaderView::Via(_) => HeaderKind::Via,
        HeaderView::From(_) => HeaderKind::From,
        HeaderView::To(_) => HeaderKind::To,
        HeaderView::CallId(_) => HeaderKind::CallId,
        HeaderView::CSeq(_, _) => HeaderKind::CSeq,
        HeaderView::MaxForwards(_) => HeaderKind::MaxForwards,
        HeaderView::Contact(_, _) => HeaderKind::Contact,
        HeaderView::Extension(_, kind, _) => kind,
    }
}

/// The meanings of a list of headers.
pub open spec fn header_views(list: Seq<Header<'_>>) -> Seq<HeaderView> {
    Seq::new(list.len(), |i: int| list[i]@)
}

/// The first line of a message.
#[derive(Debug, Clone, Copy, PartialEq, Eq)]
pub enum StartLine<'a> {
    /// The message is a request.
    Request(RequestLine<'a>),
    /// The message is a response.
    Response(StatusLine<'a>),
}

/// The meaning of the first line of a message.
pub enum StartLineView {
    /// The message is a request.
    Request(RequestLineView),
    /// The message is a response.
    Response(StatusLineView),
}

impl<'a> View for StartLine<'a> {
    type V = StartLineView;

    open spec fn view(&self) -> StartLineView {
        match self {
            StartLine::Request(line) => StartLineView::Request(line@),
            StartLine::Response(line) => StartLineView::Response(line@),
        }
    }
}

/// A message.
#[derive(Debug, Clone, PartialEq, Eq)]
pub struct SipMessage<'a> {
    /// First line.
    pub start_line: StartLine<'a>,
    /// Headers, in order.
    pub headers: Vec<Header<'a>>,
    /// Body.
    pub body: &'a [u8],
}

/// The meaning of a message.
pub struct MessageView {
    /// First line.
    pub start_line: StartLineView,
    /// Headers, in order.
    pub headers: Seq<HeaderView>,
    /// Body.
    pub body: Seq<u8>,
}

impl<'a> View for SipMessage<'a> {
    type V = MessageView;

    open spec fn view(&self) -> MessageView {
        MessageView {
            start_line: self.start_line@,
            headers: header_views(self.headers@),
            body: self.body@,
        }
    }
}

/// The kind of a header.
fn kind_of_header(header: &Header<'_>) -> (r: HeaderKind)
    ensures
        r == header_kind(header@),
{
    match header {
        Header::Via(_) => HeaderKind::Via,
        Header::From(_) => HeaderKind::From,
        Header::To(_) => HeaderKind::To,
        Header::CallId(_) => HeaderKind::CallId,
        Header::CSeq(_) => HeaderKind::CSeq,
        Header::MaxForwards(_) => HeaderKind::MaxForwards,
        Header::Contact(_) => HeaderKind::Contact,
        Header::Extension { name, .. } => name.kind,
    }
}

impl<'a> SipMessage<'a> {
    /// The first header of a kind.
    pub fn find_header(&self, kind: HeaderKind) -> (r: Option<&Header<'a>>)
        ensures
            match r {
                Some(header) => exists|i: int|
                    {
                        &&& 0 <= i < self.headers@.len()
                        &&& #[trigger] self.headers@[i] == *header
                        &&& header_kind(self.headers@[i]@) == kind
                        &&& forall|k: int|
                            0 <= k < i ==> header_kind(#[trigger] self.headers@[k]@) != kind
                    },
                None => forall|k: int|
                    0 <= k < self.headers@.len() ==> header_kind(#[trigger] self.headers@[k]@)
                        != kind,
            },
    {
        let mut i: usize = 0;
        while i < self.headers.len()
            invariant
                i <= self.headers@.len(),
                forall|k: int| 0 <= k < i ==> header_kind(#[trigger] self.headers@[k]@) != kind,
            decreases self.headers@.len() - i,
        {
            let header = &self.headers[i];
            if kind_of_header(header) == kind {
                assert(self.headers@[i as int] == *header);
                return Some(header);
            }
            i += 1;
        }
        None
    }
}

} // verus!
