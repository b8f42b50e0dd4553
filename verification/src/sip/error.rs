//! Errors of the SIP codec and their category.
use crate::text::{push_decimal, text_eq};
use vstd::prelude::*;
use vstd::string::*;

verus! {

use crate::text::decimal;

/// How a failure is to be handled.
#[derive(Debug, Clone, Copy, PartialEq, Eq, Structural)]
pub enum ErrorCategory {
    /// Trying again may help.
    Retryable,
    /// Trying again does not help.
    NonRetryable,
    /// A budget is used up.
    ResourceExhausted,
    /// A security rule was broken.
    Security,
    /// The peer broke the protocol.
    ProtocolViolation,
    /// The work was cancelled.
    Cancelled,
    /// A deadline passed.
    Timeout,
}

/// A row of the category matrix.
#[derive(Debug, Clone)]
pub struct CategoryMatrixEntry {
    /// Error code.
    pub code: String,
    /// Category of that code.
    pub category: ErrorCategory,
}

/// The category that the first row with the code gives.
pub open spec fn entry_category(rows: Seq<CategoryMatrixEntry>, code: Seq<char>) -> Option<
    ErrorCategory,
>
    decreases rows.len(),
{
    if rows.len() == 0 {
        None
    } else if rows[0].code@ == code {
        Some(rows[0].category)
    } else {
        entry_category(rows.drop_first(), code)
    }
}

/// The category of an error code; a code without a row cannot be retried.
pub open spec fn category_of(rows: Seq<CategoryMatrixEntry>, code: Seq<char>) -> ErrorCategory {
    match entry_category(rows, code) {
        Some(category) => category,
        None => ErrorCategory::NonRetryable,
    }
}

/// The category of an error code.
fn category_for_code(rows: &Vec<CategoryMatrixEntry>, code: &str) -> (r: ErrorCategory)
    ensures
        r == category_of(rows@, code@),
{
    let mut i: usize = 0;
    assert(rows@.skip(0) =~= rows@);
    while i < rows.len()
        invariant
            i <= rows@.len(),
            entry_category(rows@, code@) == entry_category(rows@.skip(i as int), code@),
        decreases rows@.len() - i,
    {
        if text_eq(rows[i].code.as_str(), code) {
            return rows[i].category;
        }
        assert(rows@.skip(i as int).drop_first() =~= rows@.skip(i + 1));
        i += 1;
    }
    ErrorCategory::NonRetryable
}

/// Errors that have a category.
pub trait ToErrorCategory {
    /// The code under which the category matrix lists the error.
    spec fn code(&self) -> Seq<char>;

    /// The category of the error in the given matrix.
    fn to_error_category(&self, matrix: &Vec<CategoryMatrixEntry>) -> (r: ErrorCategory)
        ensures
            r == category_of(matrix@, self.code()),
    ;
}

/// Why a text is not a SIP message.
#[derive(Debug, Clone, Copy, PartialEq, Eq, Structural)]
pub enum SipParseError {
    /// The request line is not `METHOD SP URI SP SIP/2.0`.
    InvalidRequestLine,
    /// The status line is not `SIP/2.0 SP Status-Code SP Reason`.
    InvalidStatusLine,
    /// The version is not `SIP/2.0`.
    UnsupportedVersion,
    /// A URI cannot be read.
    InvalidUri,
    /// A header name is empty or lacks its colon.
    InvalidHeaderName,
    /// A header line is empty or folded without a header.
    InvalidHeaderValue,
    /// A `Via` header cannot be read.
    InvalidViaHeader,
    /// A `From` or `To` header cannot be read.
    InvalidNameAddrHeader,
    /// A `Call-ID` header is empty.
    InvalidCallId,
    /// A `CSeq` header is not a number and a method.
    InvalidCSeq,
    /// A `Max-Forwards` header is not a number.
    InvalidMaxForwards,
    /// A `Contact` header is empty.
    InvalidContact,
    /// The message ends too early.
    UnexpectedEof,
}

impl SipParseError {
    /// What the error means, in words.
    pub open spec fn message_spec(&self) -> &'static str {
        match self {
            SipParseError::InvalidRequestLine => "请求行格式错误，期望 `METHOD SP URI SP SIP/2.0`",
            SipParseError::InvalidStatusLine =>
                "状态行格式错误，期望 `SIP/2.0 SP Status-Code SP Reason`",
            SipParseError::UnsupportedVersion => "仅支持 SIP/2.0 版本号",
            SipParseError::InvalidUri => "URI 解析失败，不符合 RFC 3261 §19",
            SipParseError::InvalidHeaderName => "头部名称非法或缺失冒号",
            SipParseError::InvalidHeaderValue => "头部值违反 RFC 3261 §7.3.1 约束",
            SipParseError::InvalidViaHeader => "Via 头部无法按照 RFC 3261 §18.1 解析",
            SipParseError::InvalidNameAddrHeader => "From/To 头部不是合法的 name-addr 形式",
            SipParseError::InvalidCallId => "Call-ID 头部缺少有效 token",
            SipParseError::InvalidCSeq => "CSeq 头部格式错误，需形如 `<number> <method>`",
            SipParseError::InvalidMaxForwards => "Max-Forwards 需为 0-2^32-1 范围内整数",
            SipParseError::InvalidContact => "Contact 头部缺少 URI 或参数非法",
            SipParseError::UnexpectedEof => "头部或报文意外结束",
        }
    }

    /// What the error means, in words.
    pub fn message(&self) -> (r: &'static str)
        ensures
            r == self.message_spec(),
    {
        match self {
            SipParseError::InvalidRequestLine => "请求行格式错误，期望 `METHOD SP URI SP SIP/2.0`",
            SipParseError::InvalidStatusLine =>
                "状态行格式错误，期望 `SIP/2.0 SP Status-Code SP Reason`",
            SipParseError::UnsupportedVersion => "仅支持 SIP/2.0 版本号",
            SipParseError::InvalidUri => "URI 解析失败，不符合 RFC 3261 §19",
            SipParseError::InvalidHeaderName => "头部名称非法或缺失冒号",
            SipParseError::InvalidHeaderValue => "头部值违反 RFC 3261 §7.3.1 约束",
            SipParseError::InvalidViaHeader => "Via 头部无法按照 RFC 3261 §18.1 解析",
            SipParseError::InvalidNameAddrHeader => "From/To 头部不是合法的 name-addr 形式",
            SipParseError::InvalidCallId => "Call-ID 头部缺少有效 token",
            SipParseError::InvalidCSeq => "CSeq 头部格式错误，需形如 `<number> <method>`",
            SipParseError::InvalidMaxForwards => "Max-Forwards 需为 0-2^32-1 范围内整数",
            SipParseError::InvalidContact => "Contact 头部缺少 URI 或参数非法",
            SipParseError::UnexpectedEof => "头部或报文意外结束",
        }
    }
}

impl ToErrorCategory for SipParseError {
    open spec fn code(&self) -> Seq<char> {
        "protocol.decode"@
    }

    fn to_error_category(&self, matrix: &Vec<CategoryMatrixEntry>) -> (r: ErrorCategory) {
        category_for_code(matrix, "protocol.decode")
    }
}

/// Why a message cannot be written.
#[derive(Debug, Clone, Copy, PartialEq, Eq, Structural)]
pub enum SipFormatError {
    /// The destination refused the text.
    Io,
    /// The body is not UTF-8 text.
    NonUtf8Body,
}

impl SipFormatError {
    /// What the error means, in words.
    pub open spec fn message_spec(&self) -> &'static str {
        match self {
            SipFormatError::Io => "写入器返回错误，序列化失败",
            SipFormatError::NonUtf8Body => "body 不是合法的 UTF-8 文本",
        }
    }

    /// What the error means, in words.
    pub fn message(&self) -> (r: &'static str)
        ensures
            r == self.message_spec(),
    {
        match self {
            SipFormatError::Io => "写入器返回错误，序列化失败",
            SipFormatError::NonUtf8Body => "body 不是合法的 UTF-8 文本",
        }
    }
}

impl From<core::str::Utf8Error> for SipFormatError {
    fn from(_fault: core::str::Utf8Error) -> (r: Self) {
        SipFormatError::NonUtf8Body
    }
}

impl vstd::std_specs::convert::FromSpecImpl<core::str::Utf8Error> for SipFormatError {
    open spec fn obeys_from_spec() -> bool {
        true
    }

    open spec fn from_spec(fault: core::str::Utf8Error) -> Self {
        SipFormatError::NonUtf8Body
    }
}

/// `core::fmt::Error`, which holds nothing.
#[verifier::external_type_specification]
#[verifier::external_body]
pub struct ExFmtError(core::fmt::Error);

impl From<core::fmt::Error> for SipFormatError {
    fn from(_refusal: core::fmt::Error) -> (r: Self) {
        SipFormatError::Io
    }
}

impl vstd::std_specs::convert::FromSpecImpl<core::fmt::Error> for SipFormatError {
    open spec fn obeys_from_spec() -> bool {
        true
    }

    open spec fn from_spec(refusal: core::fmt::Error) -> Self {
        SipFormatError::Io
    }
}

/// Why a transaction refuses an event.
#[derive(Debug, Clone, Copy, PartialEq, Eq, Structural)]
pub enum SipTransactionError {
    /// No INVITE matches the CANCEL.
    NoMatchingInvite,
    /// The transaction is over.
    TransactionTerminated,
    /// Another final response is already recorded.
    FinalResponseConflict {
        /// The recorded status.
        existing: u16,
        /// The refused status.
        attempted: u16,
    },
}

impl SipTransactionError {
    /// What the error means, in words.
    pub open spec fn text(&self) -> Seq<char> {
        match self {
            SipTransactionError::NoMatchingInvite => "找不到与 CANCEL 对应的 INVITE 事务"@,
            SipTransactionError::TransactionTerminated => "事务已终止，禁止追加事件"@,
            SipTransactionError::FinalResponseConflict { existing, attempted } => {
                "最终响应冲突：已记录 "@ + decimal(*existing as int) + "，拒绝新的 "@ + decimal(
                    *attempted as int,
                )
            },
        }
    }

    /// What the error means, in words.
    pub fn message(&self) -> (r: String)
        ensures
            r@ == self.text(),
    {
        let mut out = String::new();
        match self {
            SipTransactionError::NoMatchingInvite => {
                out.append("找不到与 CANCEL 对应的 INVITE 事务");
            },
            SipTransactionError::TransactionTerminated => {
                out.append("事务已终止，禁止追加事件");
            },
            SipTransactionError::FinalResponseConflict { existing, attempted } => {
                out.append("最终响应冲突：已记录 ");
                push_decimal(&mut out, *existing as u64);
                out.append("，拒绝新的 ");
                push_decimal(&mut out, *attempted as u64);
            },
        }
        assert(out@ =~= self.text());
        out
    }
}

impl ToErrorCategory for SipTransactionError {
    open spec fn code(&self) -> Seq<char> {
        match self {
            SipTransactionError::NoMatchingInvite => "protocol.decode"@,
            _ => "runtime.shutdown"@,
        }
    }

    fn to_error_category(&self, matrix: &Vec<CategoryMatrixEntry>) -> (r: ErrorCategory) {
        match self {
            SipTransactionError::NoMatchingInvite => category_for_code(matrix, "protocol.decode"),
            _ => category_for_code(matrix, "runtime.shutdown"),
        }
    }
}

/// The row that counts is the first with the code; without one the failure cannot be retried.
pub proof fn law_first_row_counts(rows: Seq<CategoryMatrixEntry>, code: Seq<char>, k: int)
    ensures
        0 <= k < rows.len() && rows[k].code@ == code && (forall|i: int|
            0 <= i < k ==> (#[trigger] rows[i]).code@ != code) ==> category_of(rows, code)
            == rows[k].category && entry_category(rows, code) == Some(rows[k].category),
        (forall|i: int| 0 <= i < rows.len() ==> (#[trigger] rows[i]).code@ != code) ==> category_of(
            rows,
            code,
        ) == ErrorCategory::NonRetryable,
    decreases rows.len(),
{
    if rows.len() > 0 {
        let rest = rows.drop_first();
        law_first_row_counts(rest, code, k - 1);
        assert(forall|i: int| 0 <= i < rest.len() ==> rest[i] == #[trigger] rows[i + 1]);
        assert(forall|i: int| 0 < i < rows.len() ==> #[trigger] rows[i] == rest[i - 1]);
    }
}

/// What cannot be read is listed as a protocol error, and so is a CANCEL without its INVITE; what comes
/// too late for a transaction is listed as a shutdown.
pub proof fn law_errors_have_their_codes(e: SipParseError, existing: u16, attempted: u16)
    ensures
        e.code() == "protocol.decode"@,
        SipTransactionError::NoMatchingInvite.code() == "protocol.decode"@,
        SipTransactionError::TransactionTerminated.code() == "runtime.shutdown"@,
        (SipTransactionError::FinalResponseConflict { existing, attempted }).code()
            == "runtime.shutdown"@,
{
}

/// What the errors are called in words.
pub proof fn law_errors_have_their_words(existing: u16, attempted: u16)
    ensures
        SipParseError::InvalidRequestLine.message_spec()@ == "请求行格式错误，期望 `METHOD SP URI SP SIP/2.0`"@,
        SipParseError::InvalidStatusLine.message_spec()@ == "状态行格式错误，期望 `SIP/2.0 SP Status-Code SP Reason`"@,
        SipParseError::UnsupportedVersion.message_spec()@ == "仅支持 SIP/2.0 版本号"@,
        SipParseError::InvalidUri.message_spec()@ == "URI 解析失败，不符合 RFC 3261 §19"@,
        SipParseError::InvalidHeaderName.message_spec()@ == "头部名称非法或缺失冒号"@,
        SipParseError::InvalidHeaderValue.message_spec()@ == "头部值违反 RFC 3261 §7.3.1 约束"@,
        SipParseError::InvalidViaHeader.message_spec()@ == "Via 头部无法按照 RFC 3261 §18.1 解析"@,
        SipParseError::InvalidNameAddrHeader.message_spec()@ == "From/To 头部不是合法的 name-addr 形式"@,
        SipParseError::InvalidCallId.message_spec()@ == "Call-ID 头部缺少有效 token"@,
        SipParseError::InvalidCSeq.message_spec()@ == "CSeq 头部格式错误，需形如 `<number> <method>`"@,
        SipParseError::InvalidMaxForwards.message_spec()@ == "Max-Forwards 需为 0-2^32-1 范围内整数"@,
        SipParseError::InvalidContact.message_spec()@ == "Contact 头部缺少 URI 或参数非法"@,
        SipParseError::UnexpectedEof.message_spec()@ == "头部或报文意外结束"@,
        SipFormatError::Io.message_spec()@ == "写入器返回错误，序列化失败"@,
        SipFormatError::NonUtf8Body.message_spec()@ == "body 不是合法的 UTF-8 文本"@,
        SipTransactionError::NoMatchingInvite.text() == "找不到与 CANCEL 对应的 INVITE 事务"@,
        SipTransactionError::TransactionTerminated.text() == "事务已终止，禁止追加事件"@,
        (SipTransactionError::FinalResponseConflict { existing, attempted }).text()
            == "最终响应冲突：已记录 "@ + decimal(existing as int) + "，拒绝新的 "@ + decimal(
            attempted as int,
        ),
{
}

/// A body that is not UTF-8 and a destination that refuses the text become the error that says so.
pub proof fn law_refusals_become_format_errors(fault: core::str::Utf8Error, refusal: core::fmt::Error)
    ensures
        <SipFormatError as vstd::std_specs::convert::FromSpec<core::str::Utf8Error>>::obeys_from_spec(),
        <SipFormatError as vstd::std_specs::convert::FromSpec<core::str::Utf8Error>>::from_spec(fault)
            == SipFormatError::NonUtf8Body,
        <SipFormatError as vstd::std_specs::convert::FromSpec<core::fmt::Error>>::obeys_from_spec(),
        <SipFormatError as vstd::std_specs::convert::FromSpec<core::fmt::Error>>::from_spec(refusal)
            == SipFormatError::Io,
{
}

} // verus!
