//! The framework's error type.
use vstd::prelude::*;

verus! {

/// The standard library's I/O error, carried through unopened.
#[verifier::external_type_specification]
#[verifier::external_body]
pub struct ExIoError(std::io::Error);

/// The error kind of `bincode` (its `Error` is a box of it).
#[verifier::external_type_specification]
#[verifier::external_body]
pub struct ExBincodeErrorKind(bincode::ErrorKind);

/// The error of `serde_json`.
#[verifier::external_type_specification]
#[verifier::external_body]
pub struct ExJsonError(serde_json::Error);

#[derive(Debug)]
pub enum ShellError {
    Io(std::io::Error),
    Serialization(String),
    ActorNotFound(String),
    SessionNotFound(String),
    Router(String),
    Timer(String),
    Codec(String),
    ConnectionLimit,
    Protocol(String),
    Config(String),
    ChannelClosed,
    Custom(String),
}

pub type ShellResult<T> = Result<T, ShellError>;

/// The text of an error other than `Io`, whose text is the I/O error's own.
pub open spec fn error_text(e: ShellError) -> Seq<char> {
    match e {
        ShellError::Io(_) => Seq::empty(),
        ShellError::Serialization(s) => "Serialization error: "@ + s@,
        ShellError::ActorNotFound(s) => "Actor not found: "@ + s@,
        ShellError::SessionNotFound(s) => "Session not found: "@ + s@,
        ShellError::Router(s) => "Router error: "@ + s@,
        ShellError::Timer(s) => "Timer error: "@ + s@,
        ShellError::Codec(s) => "Codec error: "@ + s@,
        ShellError::ConnectionLimit => "Connection limit reached"@,
        ShellError::Protocol(s) => "Protocol error: "@ + s@,
        ShellError::Config(s) => "Config error: "@ + s@,
        ShellError::ChannelClosed => "Channel closed"@,
        ShellError::Custom(s) => s@,
    }
}

/// `<std::io::Error as ToString>::to_string`: the I/O error's display text.
/// Nothing is stated of the text, which is the standard library's.
#[verifier::external_body]
fn io_error_text(e: &std::io::Error) -> String {
    e.to_string()
}

/// `<bincode::Error as ToString>::to_string`: the error's display text.
/// Nothing is stated of the text, which is `bincode`'s.
#[verifier::external_body]
fn bincode_error_text(e: &bincode::Error) -> String {
    e.to_string()
}

/// `<serde_json::Error as ToString>::to_string`: the error's display text.
/// Nothing is stated of the text, which is `serde_json`'s.
#[verifier::external_body]
fn json_error_text(e: &serde_json::Error) -> String {
    e.to_string()
}

/// `prefix` followed by `rest`.
fn join(prefix: &str, rest: &str) -> (s: String)
    ensures
        s@ == prefix@ + rest@,
{
    let mut s = prefix.to_owned();
    s.append(rest);
    s
}

impl ShellError {
    /// The error's message: a prefix naming the kind of error, then the
    /// detail it carries.
    pub fn to_string(&self) -> (s: String)
        ensures
            !(self is Io) ==> s@ == error_text(*self),
            self is Io ==> s@.take("IO error: "@.len() as int) == "IO error: "@,
    {
        match self {
            ShellError::Io(e) => {
                let detail = io_error_text(e);
                let s = join("IO error: ", detail.as_str());
                assert(s@.take("IO error: "@.len() as int) == "IO error: "@);
                s
            },
            ShellError::Serialization(d) => join("Serialization error: ", d.as_str()),
            ShellError::ActorNotFound(d) => join("Actor not found: ", d.as_str()),
            ShellError::SessionNotFound(d) => join("Session not found: ", d.as_str()),
            ShellError::Router(d) => join("Router error: ", d.as_str()),
            ShellError::Timer(d) => join("Timer error: ", d.as_str()),
            ShellError::Codec(d) => join("Codec error: ", d.as_str()),
            ShellError::ConnectionLimit => "Connection limit reached".to_owned(),
            ShellError::Protocol(d) => join("Protocol error: ", d.as_str()),
            ShellError::Config(d) => join("Config error: ", d.as_str()),
            ShellError::ChannelClosed => "Channel closed".to_owned(),
            ShellError::Custom(d) => d.clone(),
        }
    }
}

impl From<std::io::Error> for ShellError {
    fn from(value: std::io::Error) -> Self {
        ShellError::Io(value)
    }
}

impl vstd::std_specs::convert::FromSpecImpl<std::io::Error> for ShellError {
    open spec fn obeys_from_spec() -> bool {
        true
    }

    open spec fn from_spec(v: std::io::Error) -> Self {
        ShellError::Io(v)
    }
}

impl From<bincode::Error> for ShellError {
    /// A `Serialization` error carrying `bincode`'s text of the error.
    fn from(value: bincode::Error) -> (e: Self)
        ensures
            e is Serialization,
    {
        ShellError::Serialization(bincode_error_text(&value))
    }
}

/// The text the conversion stores is `bincode`'s display text, which
/// nothing here states, so the conversion's exact result is not specified;
/// its own `ensures` states that it is a `Serialization` error.
impl vstd::std_specs::convert::FromSpecImpl<bincode::Error> for ShellError {
    open spec fn obeys_from_spec() -> bool {
        false
    }

    open spec fn from_spec(v: bincode::Error) -> Self {
        arbitrary()
    }
}

impl From<serde_json::Error> for ShellError {
    /// A `Serialization` error carrying `serde_json`'s text of the error.
    fn from(value: serde_json::Error) -> (e: Self)
        ensures
            e is Serialization,
    {
        ShellError::Serialization(json_error_text(&value))
    }
}

/// As for `bincode::Error`: the stored text is `serde_json`'s own; the
/// conversion's `ensures` states that it is a `Serialization` error.
impl vstd::std_specs::convert::FromSpecImpl<serde_json::Error> for ShellError {
    open spec fn obeys_from_spec() -> bool {
        false
    }

    open spec fn from_spec(v: serde_json::Error) -> Self {
        arbitrary()
    }
}

} // verus!
