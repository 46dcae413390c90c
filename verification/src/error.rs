//! Errors of the connection, and the reason codes that go over the wire.

use crate::buf;
use crate::text;
use bytes::Bytes;
use vstd::prelude::*;
use vstd::string::*;

verus! {

/// Why a stream or a connection was ended, as RST_STREAM and GOAWAY frames say it.
#[derive(Clone, Copy, Debug, PartialEq, Eq, Structural)]
pub enum Reason {
    /// Graceful shutdown.
    NoError,
    /// A rule of the protocol was broken.
    ProtocolError,
    /// An unexpected fault on this side.
    InternalError,
    /// A flow-control rule was broken.
    FlowControlError,
    /// SETTINGS were not acknowledged in time.
    SettingsTimeout,
    /// A frame came for a stream that is half-closed or closed.
    StreamClosed,
    /// A frame had an invalid size.
    FrameSizeError,
    /// The stream was refused before any of it was processed.
    RefusedStream,
    /// The stream is no longer needed.
    Cancel,
    /// The header compression state cannot be kept.
    CompressionError,
    /// The connection behind a CONNECT request was reset.
    ConnectError,
    /// The peer causes excessive load.
    EnhanceYourCalm,
    /// The transport does not meet the security requirements.
    InadequateSecurity,
    /// The endpoint wants HTTP/1.1.
    Http11Required,
}

impl Reason {
    /// The code on the wire.
    pub open spec fn spec_code(self) -> u32 {
        match self {
            Reason::NoError => 0,
            Reason::ProtocolError => 1,
            Reason::InternalError => 2,
            Reason::FlowControlError => 3,
            Reason::SettingsTimeout => 4,
            Reason::StreamClosed => 5,
            Reason::FrameSizeError => 6,
            Reason::RefusedStream => 7,
            Reason::Cancel => 8,
            Reason::CompressionError => 9,
            Reason::ConnectError => 10,
            Reason::EnhanceYourCalm => 11,
            Reason::InadequateSecurity => 12,
            Reason::Http11Required => 13,
        }
    }

    /// The name that messages use.
    pub open spec fn spec_name(self) -> Seq<char> {
        match self {
            Reason::NoError => "NO_ERROR"@,
            Reason::ProtocolError => "PROTOCOL_ERROR"@,
            Reason::InternalError => "INTERNAL_ERROR"@,
            Reason::FlowControlError => "FLOW_CONTROL_ERROR"@,
            Reason::SettingsTimeout => "SETTINGS_TIMEOUT"@,
            Reason::StreamClosed => "STREAM_CLOSED"@,
            Reason::FrameSizeError => "FRAME_SIZE_ERROR"@,
            Reason::RefusedStream => "REFUSED_STREAM"@,
            Reason::Cancel => "CANCEL"@,
            Reason::CompressionError => "COMPRESSION_ERROR"@,
            Reason::ConnectError => "CONNECT_ERROR"@,
            Reason::EnhanceYourCalm => "ENHANCE_YOUR_CALM"@,
            Reason::InadequateSecurity => "INADEQUATE_SECURITY"@,
            Reason::Http11Required => "HTTP_1_1_REQUIRED"@,
        }
    }

    /// The code on the wire.
    pub fn code(self) -> (c: u32)
        ensures
            c == self.spec_code(),
    {
        match self {
            Reason::NoError => 0,
            Reason::ProtocolError => 1,
            Reason::InternalError => 2,
            Reason::FlowControlError => 3,
            Reason::SettingsTimeout => 4,
            Reason::StreamClosed => 5,
            Reason::FrameSizeError => 6,
            Reason::RefusedStream => 7,
            Reason::Cancel => 8,
            Reason::CompressionError => 9,
            Reason::ConnectError => 10,
            Reason::EnhanceYourCalm => 11,
            Reason::InadequateSecurity => 12,
            Reason::Http11Required => 13,
        }
    }

    /// The name that messages use.
    pub fn name(self) -> (s: &'static str)
        ensures
            s@ == self.spec_name(),
    {
        match self {
            Reason::NoError => "NO_ERROR",
            Reason::ProtocolError => "PROTOCOL_ERROR",
            Reason::InternalError => "INTERNAL_ERROR",
            Reason::FlowControlError => "FLOW_CONTROL_ERROR",
            Reason::SettingsTimeout => "SETTINGS_TIMEOUT",
            Reason::StreamClosed => "STREAM_CLOSED",
            Reason::FrameSizeError => "FRAME_SIZE_ERROR",
            Reason::RefusedStream => "REFUSED_STREAM",
            Reason::Cancel => "CANCEL",
            Reason::CompressionError => "COMPRESSION_ERROR",
            Reason::ConnectError => "CONNECT_ERROR",
            Reason::EnhanceYourCalm => "ENHANCE_YOUR_CALM",
            Reason::InadequateSecurity => "INADEQUATE_SECURITY",
            Reason::Http11Required => "HTTP_1_1_REQUIRED",
        }
    }
}

/// What can be wrong with a single frame.
#[derive(Debug)]
pub enum FrameError {
    /// The stream identifier does not fit the frame type.
    InvalidStreamId(String),
    /// The padding is longer than the frame.
    InvalidPadding(String),
    /// The frame's length does not fit its type.
    InvalidFrameSize(String),
    /// A window left its range.
    FlowControlError(String),
}

/// A [`FrameError`] with its text as a sequence of characters.
pub enum FrameErrorView {
    /// See [`FrameError::InvalidStreamId`].
    InvalidStreamId(Seq<char>),
    /// See [`FrameError::InvalidPadding`].
    InvalidPadding(Seq<char>),
    /// See [`FrameError::InvalidFrameSize`].
    InvalidFrameSize(Seq<char>),
    /// See [`FrameError::FlowControlError`].
    FlowControlError(Seq<char>),
}

impl View for FrameError {
    type V = FrameErrorView;

    open spec fn view(&self) -> FrameErrorView {
        match *self {
            FrameError::InvalidStreamId(s) => FrameErrorView::InvalidStreamId(s@),
            FrameError::InvalidPadding(s) => FrameErrorView::InvalidPadding(s@),
            FrameError::InvalidFrameSize(s) => FrameErrorView::InvalidFrameSize(s@),
            FrameError::FlowControlError(s) => FrameErrorView::FlowControlError(s@),
        }
    }
}

impl FrameErrorView {
    /// The text that comes with the error.
    pub open spec fn text(self) -> Seq<char> {
        match self {
            FrameErrorView::InvalidStreamId(s) => s,
            FrameErrorView::InvalidPadding(s) => s,
            FrameErrorView::InvalidFrameSize(s) => s,
            FrameErrorView::FlowControlError(s) => s,
        }
    }
}

impl FrameError {
    /// The text that comes with the error.
    pub fn text(&self) -> (s: &str)
        ensures
            s@ == self@.text(),
    {
        match self {
            FrameError::InvalidStreamId(s) => s.as_str(),
            FrameError::InvalidPadding(s) => s.as_str(),
            FrameError::InvalidFrameSize(s) => s.as_str(),
            FrameError::FlowControlError(s) => s.as_str(),
        }
    }
}

/// An error of the library.
#[derive(Debug)]
pub enum H2Error {
    /// One stream failed; the connection goes on.
    StreamError {
        /// The stream's identifier.
        stream_id: u32,
        /// Why it failed.
        reason: Reason,
        /// Whether the peer said so.
        remote: bool,
    },
    /// The whole connection failed.
    ConnectionError {
        /// Why it failed.
        reason: Reason,
        /// What happened, where there is more to say than the reason.
        message: Option<String>,
    },
    /// The peer is going away.
    GoAway {
        /// The last stream that the peer may have processed.
        last_stream_id: u32,
        /// Why it goes.
        reason: Reason,
        /// What the peer had to add.
        debug_data: Bytes,
    },
    /// The library was used, or the peer behaved, against the protocol.
    Protocol(String),
    /// A frame could not be understood.
    InvalidFrame(String),
    /// A frame was malformed.
    Frame(FrameError),
    /// A header block could not be decoded.
    HpackDecode(String),
    /// Header compression failed.
    Hpack(String),
    /// Reading or writing failed.
    Io(String),
}

/// An [`H2Error`] with its texts and bytes as sequences.
pub enum ErrorView {
    /// See [`H2Error::StreamError`].
    StreamError {
        /// The stream's identifier.
        stream_id: u32,
        /// Why it failed.
        reason: Reason,
        /// Whether the peer said so.
        remote: bool,
    },
    /// See [`H2Error::ConnectionError`].
    ConnectionError {
        /// Why it failed.
        reason: Reason,
        /// What happened, where there is more to say than the reason.
        message: Option<Seq<char>>,
    },
    /// See [`H2Error::GoAway`].
    GoAway {
        /// The last stream that the peer may have processed.
        last_stream_id: u32,
        /// Why it goes.
        reason: Reason,
        /// What the peer had to add.
        debug_data: Seq<u8>,
    },
    /// See [`H2Error::Protocol`].
    Protocol(Seq<char>),
    /// See [`H2Error::InvalidFrame`].
    InvalidFrame(Seq<char>),
    /// See [`H2Error::Frame`].
    Frame(FrameErrorView),
    /// See [`H2Error::HpackDecode`].
    HpackDecode(Seq<char>),
    /// See [`H2Error::Hpack`].
    Hpack(Seq<char>),
    /// See [`H2Error::Io`].
    Io(Seq<char>),
}

impl View for H2Error {
    type V = ErrorView;

    open spec fn view(&self) -> ErrorView {
        match *self {
            H2Error::StreamError { stream_id, reason, remote } => ErrorView::StreamError {
                stream_id,
                reason,
                remote,
            },
            H2Error::ConnectionError { reason, message } => ErrorView::ConnectionError {
                reason,
                message: match message {
                    Some(s) => Some(s@),
                    None => None,
                },
            },
            H2Error::GoAway { last_stream_id, reason, debug_data } => ErrorView::GoAway {
                last_stream_id,
                reason,
                debug_data: buf::content(debug_data),
            },
            H2Error::Protocol(s) => ErrorView::Protocol(s@),
            H2Error::InvalidFrame(s) => ErrorView::InvalidFrame(s@),
            H2Error::Frame(e) => ErrorView::Frame(e@),
            H2Error::HpackDecode(s) => ErrorView::HpackDecode(s@),
            H2Error::Hpack(s) => ErrorView::Hpack(s@),
            H2Error::Io(s) => ErrorView::Io(s@),
        }
    }
}

/// The outcome of an operation, with the error as its view.
pub open spec fn outcome<T>(r: Result<T, H2Error>) -> Result<T, ErrorView> {
    match r {
        Ok(t) => Ok(t),
        Err(e) => Err(e@),
    }
}

impl ErrorView {
    /// A failure of one stream, found on this side.
    pub open spec fn stream(stream_id: u32, reason: Reason) -> ErrorView {
        ErrorView::StreamError { stream_id, reason, remote: false }
    }

    /// A failure of one stream, announced by the peer.
    pub open spec fn stream_remote(stream_id: u32, reason: Reason) -> ErrorView {
        ErrorView::StreamError { stream_id, reason, remote: true }
    }

    /// A failure of the connection.
    pub open spec fn connection(reason: Reason) -> ErrorView {
        ErrorView::ConnectionError { reason, message: None }
    }

    /// A failure of the connection with an explanation.
    pub open spec fn connection_msg(reason: Reason, message: Seq<char>) -> ErrorView {
        ErrorView::ConnectionError { reason, message: Some(message) }
    }

    /// The reason code that the error carries. Only failures of a stream, of the
    /// connection, and the peer's going away carry one.
    pub open spec fn reason(self) -> Option<Reason> {
        match self {
            ErrorView::StreamError { reason, .. } => Some(reason),
            ErrorView::ConnectionError { reason, .. } => Some(reason),
            ErrorView::GoAway { reason, .. } => Some(reason),
            _ => None,
        }
    }

    /// The text shown to people.
    pub open spec fn display(self) -> Seq<char> {
        match self {
            ErrorView::StreamError { stream_id, reason, remote } => "stream "@ + text::digits(
                stream_id as nat,
            ) + (if remote {
                " reset by peer: "@
            } else {
                " error: "@
            }) + reason.spec_name(),
            ErrorView::ConnectionError { reason, message } => "connection error: "@
                + reason.spec_name() + match message {
                Some(m) => ": "@ + m,
                None => Seq::empty(),
            },
            ErrorView::GoAway { last_stream_id, reason, .. } => "peer going away after stream "@
                + text::digits(last_stream_id as nat) + ": "@ + reason.spec_name(),
            ErrorView::Protocol(s) => "protocol error: "@ + s,
            ErrorView::InvalidFrame(s) => "invalid frame: "@ + s,
            ErrorView::Frame(e) => "frame error: "@ + e.text(),
            ErrorView::HpackDecode(s) => "header decoding error: "@ + s,
            ErrorView::Hpack(s) => "header compression error: "@ + s,
            ErrorView::Io(s) => "i/o error: "@ + s,
        }
    }
}

impl H2Error {
    /// A failure of one stream, found on this side.
    pub fn stream(stream_id: u32, reason: Reason) -> (e: H2Error)
        ensures
            e@ == ErrorView::stream(stream_id, reason),
    {
        H2Error::StreamError { stream_id, reason, remote: false }
    }

    /// A failure of one stream, announced by the peer.
    pub fn stream_remote(stream_id: u32, reason: Reason) -> (e: H2Error)
        ensures
            e@ == ErrorView::stream_remote(stream_id, reason),
    {
        H2Error::StreamError { stream_id, reason, remote: true }
    }

    /// A failure of the connection.
    pub fn connection(reason: Reason) -> (e: H2Error)
        ensures
            e@ == ErrorView::connection(reason),
    {
        H2Error::ConnectionError { reason, message: None }
    }

    /// A failure of the connection with an explanation.
    pub fn connection_msg(reason: Reason, message: &str) -> (e: H2Error)
        ensures
            e@ == ErrorView::connection_msg(reason, message@),
    {
        H2Error::ConnectionError { reason, message: Some(message.to_owned()) }
    }

    /// The peer is going away: streams above `last_stream_id` are lost.
    pub fn go_away(last_stream_id: u32, reason: Reason, debug_data: Bytes) -> (e: H2Error)
        ensures
            e@ == (ErrorView::GoAway {
                last_stream_id,
                reason,
                debug_data: buf::content(debug_data),
            }),
    {
        H2Error::GoAway { last_stream_id, reason, debug_data }
    }

    /// The reason code that the error carries.
    pub fn reason(&self) -> (r: Option<Reason>)
        ensures
            r == self@.reason(),
    {
        match self {
            H2Error::StreamError { reason, .. } => Some(*reason),
            H2Error::ConnectionError { reason, .. } => Some(*reason),
            H2Error::GoAway { reason, .. } => Some(*reason),
            _ => None,
        }
    }

    /// The stream that failed, where only one did.
    pub fn stream_id(&self) -> (r: Option<u32>)
        ensures
            r == match self@ {
                ErrorView::StreamError { stream_id, .. } => Some(stream_id),
                _ => None,
            },
    {
        match self {
            H2Error::StreamError { stream_id, .. } => Some(*stream_id),
            _ => None,
        }
    }

    /// Whether one stream was reset.
    pub fn is_reset(&self) -> (r: bool)
        ensures
            r == (self@ is StreamError),
    {
        matches!(self, H2Error::StreamError { .. })
    }

    /// Whether the whole connection failed.
    pub fn is_connection(&self) -> (r: bool)
        ensures
            r == (self@ is ConnectionError),
    {
        matches!(self, H2Error::ConnectionError { .. })
    }

    /// Whether the peer is going away.
    pub fn is_go_away(&self) -> (r: bool)
        ensures
            r == (self@ is GoAway),
    {
        matches!(self, H2Error::GoAway { .. })
    }

    /// Whether reading or writing failed.
    pub fn is_io(&self) -> (r: bool)
        ensures
            r == (self@ is Io),
    {
        matches!(self, H2Error::Io(_))
    }

    /// Whether the peer ended the stream or the connection.
    pub fn is_remote(&self) -> (r: bool)
        ensures
            r == match self@ {
                ErrorView::StreamError { remote, .. } => remote,
                ErrorView::GoAway { .. } => true,
                _ => false,
            },
    {
        match self {
            H2Error::StreamError { remote, .. } => *remote,
            H2Error::GoAway { .. } => true,
            _ => false,
        }
    }

    /// Whether the library itself found something wrong, with a frame, with header
    /// compression, or with how it is used, and gave it no reason code yet.
    pub fn is_library(&self) -> (r: bool)
        ensures
            r == (self@.reason() is None && !(self@ is Io)),
    {
        match self {
            H2Error::StreamError { .. } | H2Error::ConnectionError { .. }
            | H2Error::GoAway { .. } | H2Error::Io(_) => false,
            _ => true,
        }
    }

    /// The text shown to people.
    pub fn to_string(&self) -> (s: String)
        ensures
            s@ == self@.display(),
    {
        match self {
            H2Error::StreamError { stream_id, reason, remote } => {
                let middle = if *remote {
                    " reset by peer: "
                } else {
                    " error: "
                };
                String::from_str("stream ").concat(text::decimal(*stream_id as u64).as_str()).concat(
                    middle,
                ).concat(reason.name())
            },
            H2Error::ConnectionError { reason, message } => {
                let head = String::from_str("connection error: ").concat(reason.name());
                match message {
                    Some(m) => {
                        let tail = String::from_str(": ").concat(m.as_str());
                        head.concat(tail.as_str())
                    },
                    None => {
                        assert(head@ + Seq::<char>::empty() =~= head@);
                        head
                    },
                }
            },
            H2Error::GoAway { last_stream_id, reason, .. } => {
                String::from_str("peer going away after stream ").concat(
                    text::decimal(*last_stream_id as u64).as_str(),
                ).concat(": ").concat(reason.name())
            },
            H2Error::Protocol(m) => String::from_str("protocol error: ").concat(m.as_str()),
            H2Error::InvalidFrame(m) => String::from_str("invalid frame: ").concat(m.as_str()),
            H2Error::Frame(e) => String::from_str("frame error: ").concat(e.text()),
            H2Error::HpackDecode(m) => String::from_str("header decoding error: ").concat(
                m.as_str(),
            ),
            H2Error::Hpack(m) => String::from_str("header compression error: ").concat(m.as_str()),
            H2Error::Io(m) => String::from_str("i/o error: ").concat(m.as_str()),
        }
    }
}

/// The codes that stand for reasons on the wire. Different reasons have different codes.
pub proof fn lemma_codes(a: Reason, b: Reason)
    ensures
        a.spec_code() == b.spec_code() <==> a == b,
        a.spec_code() == 0 <==> a is NoError,
        a.spec_code() == 1 <==> a is ProtocolError,
        a.spec_code() == 2 <==> a is InternalError,
        a.spec_code() == 3 <==> a is FlowControlError,
        a.spec_code() == 4 <==> a is SettingsTimeout,
        a.spec_code() == 5 <==> a is StreamClosed,
        a.spec_code() == 6 <==> a is FrameSizeError,
        a.spec_code() == 7 <==> a is RefusedStream,
        a.spec_code() == 8 <==> a is Cancel,
        a.spec_code() == 9 <==> a is CompressionError,
        a.spec_code() == 10 <==> a is ConnectError,
        a.spec_code() == 11 <==> a is EnhanceYourCalm,
        a.spec_code() == 12 <==> a is InadequateSecurity,
        a.spec_code() == 13 <==> a is Http11Required,
{
}

/// An error has a reason exactly if it is one of a stream, of the connection, or of the peer
/// that goes away, and then it is the one that it was made with.
pub proof fn lemma_reasons_are_kept(e: ErrorView, id: u32, r: Reason, message: Seq<char>)
    ensures
        e.reason() is Some <==> e is StreamError || e is ConnectionError || e is GoAway,
        e matches ErrorView::StreamError { reason, .. } ==> e.reason() == Some(reason),
        e matches ErrorView::ConnectionError { reason, .. } ==> e.reason() == Some(reason),
        e matches ErrorView::GoAway { reason, .. } ==> e.reason() == Some(reason),
        ErrorView::stream(id, r) == (ErrorView::StreamError {
            stream_id: id,
            reason: r,
            remote: false,
        }),
        ErrorView::stream_remote(id, r) == (ErrorView::StreamError {
            stream_id: id,
            reason: r,
            remote: true,
        }),
        ErrorView::connection(r) == (ErrorView::ConnectionError { reason: r, message: None }),
        ErrorView::connection_msg(r, message) == (ErrorView::ConnectionError {
            reason: r,
            message: Some(message),
        }),
{
}

} // verus!
