//! Addresses of record and contacts, borrowed and owned.
use crate::sip::fmt::write_uri;
use crate::sip::types::{NameAddr, SipUri};
use vstd::prelude::*;
use vstd::string::*;

verus! {

use crate::sip::fmt::uri_text;

/// An address of record, borrowed from a message.
#[derive(Clone, Copy, Debug, Eq, Hash, PartialEq)]
pub struct AorRef<'a> {
    /// The address.
    pub uri: SipUri<'a>,
}

impl<'a> AorRef<'a> {
    /// The address as a value of its own.
    pub fn into_owned(self) -> (r: Aor)
        ensures
            r@ == uri_text(self.uri@),
    {
        Aor::from_uri(&self.uri)
    }

    /// The address.
    pub fn as_uri(&self) -> (r: &SipUri<'a>)
        ensures
            *r == self.uri,
    {
        &self.uri
    }
}

impl<'a> From<&NameAddr<'a>> for AorRef<'a> {
    fn from(addr: &NameAddr<'a>) -> (r: Self) {
        AorRef { uri: addr.uri }
    }
}

impl<'a> vstd::std_specs::convert::FromSpecImpl<&NameAddr<'a>> for AorRef<'a> {
    open spec fn obeys_from_spec() -> bool {
        true
    }

    open spec fn from_spec(addr: &NameAddr<'a>) -> Self {
        AorRef { uri: addr.uri }
    }
}

impl<'a> From<&SipUri<'a>> for AorRef<'a> {
    fn from(uri: &SipUri<'a>) -> (r: Self) {
        AorRef { uri: *uri }
    }
}

impl<'a> vstd::std_specs::convert::FromSpecImpl<&SipUri<'a>> for AorRef<'a> {
    open spec fn obeys_from_spec() -> bool {
        true
    }

    open spec fn from_spec(uri: &SipUri<'a>) -> Self {
        AorRef { uri: *uri }
    }
}

/// A contact address, borrowed from a message.
#[derive(Clone, Copy, Debug, Eq, Hash, PartialEq)]
pub struct ContactUriRef<'a> {
    /// The address.
    pub uri: SipUri<'a>,
}

impl<'a> ContactUriRef<'a> {
    /// The address.
    pub fn as_uri(&self) -> (r: &SipUri<'a>)
        ensures
            *r == self.uri,
    {
        &self.uri
    }

    /// The address as a value of its own.
    pub fn into_owned(self) -> (r: ContactUri)
        ensures
            r@ == uri_text(self.uri@),
    {
        ContactUri::from_uri(&self.uri)
    }
}

impl<'a> From<&NameAddr<'a>> for ContactUriRef<'a> {
    fn from(addr: &NameAddr<'a>) -> (r: Self) {
        ContactUriRef { uri: addr.uri }
    }
}

impl<'a> vstd::std_specs::convert::FromSpecImpl<&NameAddr<'a>> for ContactUriRef<'a> {
    open spec fn obeys_from_spec() -> bool {
        true
    }

    open spec fn from_spec(addr: &NameAddr<'a>) -> Self {
        ContactUriRef { uri: addr.uri }
    }
}

impl<'a> From<&SipUri<'a>> for ContactUriRef<'a> {
    fn from(uri: &SipUri<'a>) -> (r: Self) {
        ContactUriRef { uri: *uri }
    }
}

impl<'a> vstd::std_specs::convert::FromSpecImpl<&SipUri<'a>> for ContactUriRef<'a> {
    open spec fn obeys_from_spec() -> bool {
        true
    }

    open spec fn from_spec(uri: &SipUri<'a>) -> Self {
        ContactUriRef { uri: *uri }
    }
}

/// An address of record.
#[derive(Clone, Debug, Eq, Hash, PartialEq)]
pub struct Aor {
    text: String,
}

impl View for Aor {
    type V = Seq<char>;

    closed spec fn view(&self) -> Seq<char> {
        self.text@
    }
}

impl AsRef<str> for Aor {
    /// The text of the address.
    fn as_ref(&self) -> (r: &str)
        ensures
            r@ == self@,
    {
        self.text.as_str()
    }
}

impl core::ops::Deref for Aor {
    type Target = str;

    /// The text of the address.
    fn deref(&self) -> (r: &str)
        ensures
            r@ == self@,
    {
        self.text.as_str()
    }
}

impl Aor {
    /// The address with this text.
    pub fn new(raw: String) -> (r: Self)
        ensures
            r@ == raw@,
    {
        Aor { text: raw }
    }

    /// The address that a URI denotes.
    pub fn from_uri(uri: &SipUri<'_>) -> (r: Self)
        ensures
            r@ == uri_text(uri@),
    {
        Aor::new(format_sip_uri(uri))
    }

    /// The address inside a name and address.
    pub fn from_name_addr(addr: &NameAddr<'_>) -> (r: Self)
        ensures
            r@ == uri_text(addr.uri@),
    {
        Aor::from_uri(&addr.uri)
    }

    /// The text of the address.
    pub fn as_str(&self) -> (r: &str)
        ensures
            r@ == self@,
    {
        self.text.as_str()
    }
}

/// A contact address.
#[derive(Clone, Debug, Eq, Hash, PartialEq)]
pub struct ContactUri {
    text: String,
}

impl View for ContactUri {
    type V = Seq<char>;

    closed spec fn view(&self) -> Seq<char> {
        self.text@
    }
}

impl AsRef<str> for ContactUri {
    /// The text of the address.
    fn as_ref(&self) -> (r: &str)
        ensures
            r@ == self@,
    {
        self.text.as_str()
    }
}

impl core::ops::Deref for ContactUri {
    type Target = str;

    /// The text of the address.
    fn deref(&self) -> (r: &str)
        ensures
            r@ == self@,
    {
        self.text.as_str()
    }
}

impl ContactUri {
    /// The address with this text.
    pub fn new(raw: String) -> (r: Self)
        ensures
            r@ == raw@,
    {
        ContactUri { text: raw }
    }

    /// The address that a URI denotes.
    pub fn from_uri(uri: &SipUri<'_>) -> (r: Self)
        ensures
            r@ == uri_text(uri@),
    {
        ContactUri::new(format_sip_uri(uri))
    }

    /// The address inside a name and address.
    pub fn from_name_addr(addr: &NameAddr<'_>) -> (r: Self)
        ensures
            r@ == uri_text(addr.uri@),
    {
        ContactUri::from_uri(&addr.uri)
    }

    /// The text of the address.
    pub fn as_str(&self) -> (r: &str)
        ensures
            r@ == self@,
    {
        self.text.as_str()
    }
}

/// The text of a URI.
fn format_sip_uri(uri: &SipUri<'_>) -> (r: String)
    ensures
        r@ == uri_text(uri@),
{
    let mut text = String::new();
    write_uri(&mut text, uri);
    assert(text@ =~= uri_text(uri@));
    text
}

/// The address that is taken from a header is the one in it, and a bare one stays as it is.
pub proof fn law_addresses_are_taken<'a>(addr: &NameAddr<'a>, uri: &SipUri<'a>)
    ensures
        <AorRef<'a> as vstd::std_specs::convert::FromSpec<&NameAddr<'a>>>::obeys_from_spec(),
        <AorRef<'a> as vstd::std_specs::convert::FromSpec<&NameAddr<'a>>>::from_spec(addr).uri
            == addr.uri,
        <AorRef<'a> as vstd::std_specs::convert::FromSpec<&SipUri<'a>>>::obeys_from_spec(),
        <AorRef<'a> as vstd::std_specs::convert::FromSpec<&SipUri<'a>>>::from_spec(uri).uri == *uri,
        <ContactUriRef<'a> as vstd::std_specs::convert::FromSpec<&NameAddr<'a>>>::obeys_from_spec(),
        <ContactUriRef<'a> as vstd::std_specs::convert::FromSpec<&NameAddr<'a>>>::from_spec(addr).uri
            == addr.uri,
        <ContactUriRef<'a> as vstd::std_specs::convert::FromSpec<&SipUri<'a>>>::obeys_from_spec(),
        <ContactUriRef<'a> as vstd::std_specs::convert::FromSpec<&SipUri<'a>>>::from_spec(uri).uri
            == *uri,
{
}

} // verus!
