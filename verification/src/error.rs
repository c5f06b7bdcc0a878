//! The error taxonomy shared by every component of the framework.
//!
//! Three kinds are distinguished: a user error (a business-rule violation,
//! surfaced to the end user), an aggregate conflict (an optimistic-concurrency
//! failure, recoverable by reload-and-retry), and a technical error (an
//! infrastructure or encoding failure, logged rather than shown to users).

use vstd::prelude::*;

verus! {

/// The mathematical value of a `UserErrorPayload`.
#[verifier::ext_equal]
pub ghost struct UserErrorPayloadModel {
    pub code: Option<Seq<char>>,
    pub message: Option<Seq<char>>,
    pub params: Option<Seq<(Seq<char>, Seq<char>)>>,
}

/// Payload for an `AggregateError::UserError`. The information within should
/// be used to inform the user of the business-rule violation.
#[derive(Debug, Clone, PartialEq, Eq)]
pub struct UserErrorPayload {
    /// An optional code to indicate a user-defined error.
    pub code: Option<String>,
    /// An optional message describing the error, meant to be returned to the user.
    pub message: Option<String>,
    /// Optional named parameters, as key-value pairs, adding context to the
    /// error. A mapping of named parameters: each key appears at most once
    /// (see `params_keys_unique`).
    pub params: Option<Vec<(String, String)>>,
}

impl View for UserErrorPayload {
    type V = UserErrorPayloadModel;

    open spec fn view(&self) -> UserErrorPayloadModel {
        UserErrorPayloadModel {
            code: match self.code {
                Some(c) => Some(c@),
                None => None,
            },
            message: match self.message {
                Some(m) => Some(m@),
                None => None,
            },
            params: match self.params {
                Some(pairs) => Some(pairs@.map_values(|p: (String, String)| (p.0@, p.1@))),
                None => None,
            },
        }
    }
}

/// The base error for the framework.
#[derive(Debug, Clone, PartialEq, Eq)]
pub enum AggregateError {
    /// The error returned when a user violates a business rule. The payload
    /// should be used to inform the user of their error.
    ///
    /// Never retried by the framework.
    UserError(UserErrorPayload),
    /// A command has been rejected due to a conflict with another command on
    /// the same aggregate instance, detected by optimistic locking.
    ///
    /// Always recoverable by the caller via reload-and-retry.
    AggregateConflict,
    /// A technical error was encountered that prevented the command from being
    /// applied to the aggregate. The accompanying message should be logged for
    /// investigation rather than returned to the user.
    TechnicalError(String),
}

/// An error raised by the persistence layer (repositories and codecs). Lower
/// layers surface only conflicts or technical failures; user errors can arise
/// only from an aggregate's own command handling.
#[derive(Debug, Clone, PartialEq, Eq)]
pub enum PersistenceError {
    /// An optimistic-concurrency failure: the expected sequence or view
    /// version no longer matches what is stored.
    OptimisticLock,
    /// An infrastructure or encoding failure, with a diagnostic message.
    Technical(String),
}

impl PersistenceError {
    /// How a persistence failure surfaces to command handling: a lock
    /// failure is an aggregate conflict, anything else a technical error.
    pub fn into_aggregate_error(self) -> (r: AggregateError)
        ensures
            match self {
                PersistenceError::OptimisticLock => r is AggregateConflict,
                PersistenceError::Technical(m) => r matches AggregateError::TechnicalError(t)
                    && t == m,
            },
    {
        match self {
            PersistenceError::OptimisticLock => AggregateError::AggregateConflict,
            PersistenceError::Technical(m) => AggregateError::TechnicalError(m),
        }
    }
}

impl UserErrorPayloadModel {
    /// The model of a payload carrying just a message, as the convenience
    /// constructors build it.
    pub open spec fn message_only(message: Seq<char>) -> UserErrorPayloadModel {
        UserErrorPayloadModel { code: None, message: Some(message), params: None }
    }
}

impl UserErrorPayload {
    /// The parameters are a mapping of named parameters: each key appears at
    /// most once.
    pub open spec fn params_keys_unique(self) -> bool {
        match self.params {
            Some(pairs) => forall|a: int, b: int|
                #![trigger pairs@[a], pairs@[b]]
                0 <= a < b < pairs@.len() ==> pairs@[a].0@ != pairs@[b].0@,
            None => true,
        }
    }

    /// The message to surface to the user.
    pub open spec fn description_spec(self) -> Seq<char> {
        match self.message {
            Some(m) => m@,
            None => "unknown error"@,
        }
    }

    /// The human-readable message, or a fixed fallback where none was given.
    pub fn description(&self) -> (r: String)
        ensures
            r@ == self.description_spec(),
    {
        match &self.message {
            None => "unknown error".to_owned(),
            Some(message) => message.clone(),
        }
    }
}

impl AggregateError {
    /// The diagnostic text of the error.
    pub open spec fn description_spec(self) -> Seq<char> {
        match self {
            AggregateError::UserError(payload) => payload.description_spec(),
            AggregateError::AggregateConflict => "aggregate conflict"@,
            AggregateError::TechnicalError(m) => m@,
        }
    }

    /// The human-readable description of the error.
    pub fn description(&self) -> (r: String)
        ensures
            r@ == self.description_spec(),
    {
        match self {
            AggregateError::TechnicalError(message) => message.clone(),
            AggregateError::UserError(payload) => payload.description(),
            AggregateError::AggregateConflict => "aggregate conflict".to_owned(),
        }
    }

    /// A convenience function to construct a simple `UserError` with a user message.
    pub fn new_user_error(msg: &str) -> (r: Self)
        ensures
            r matches AggregateError::UserError(p)
                && p.code is None
                && (p.message matches Some(m) && m@ == msg@)
                && p.params is None
                && p.params_keys_unique(),
    {
        AggregateError::UserError(UserErrorPayload {
            code: None,
            message: Some(msg.to_owned()),
            params: None,
        })
    }

    /// A convenience function to construct a simple `UserError` with a user
    /// message and error code.
    pub fn new_user_error_with_code(msg: &str, code: &str) -> (r: Self)
        ensures
            r matches AggregateError::UserError(p)
                && (p.code matches Some(c) && c@ == code@)
                && (p.message matches Some(m) && m@ == msg@)
                && p.params is None
                && p.params_keys_unique(),
    {
        AggregateError::UserError(UserErrorPayload {
            code: Some(code.to_owned()),
            message: Some(msg.to_owned()),
            params: None,
        })
    }

    /// A convenience function to construct a `TechnicalError` with a
    /// diagnostic message.
    pub fn new_technical_error(msg: &str) -> (r: Self)
        ensures
            r matches AggregateError::TechnicalError(m) && m@ == msg@,
    {
        AggregateError::TechnicalError(msg.to_owned())
    }
}

#[verifier::external_type_specification]
#[verifier::external_body]
pub struct ExSerdeJsonError(serde_json::Error);

/// The cause of a JSON codec failure, mirroring the categories that
/// `serde_json` distinguishes.
#[derive(Debug, Clone, Copy, PartialEq, Eq)]
pub enum JsonErrorCategory {
    /// A failure to read or write bytes on an I/O stream.
    Io,
    /// Input that was not syntactically valid JSON.
    Syntax,
    /// Input data that was semantically incorrect.
    Data,
    /// The end of the input data was reached prematurely.
    Eof,
}

/// Relies on `serde_json::Error::classify`, which categorizes the error as an
/// I/O, syntax, data, or end-of-input failure; the four variants are carried
/// over one for one.
#[verifier::external_body]
fn json_error_category(err: &serde_json::Error) -> JsonErrorCategory {
    match err.classify() {
        serde_json::error::Category::Io => JsonErrorCategory::Io,
        serde_json::error::Category::Syntax => JsonErrorCategory::Syntax,
        serde_json::error::Category::Data => JsonErrorCategory::Data,
        serde_json::error::Category::Eof => JsonErrorCategory::Eof,
    }
}

/// Relies on `ToString::to_string` through `serde_json::Error`'s `Display`
/// implementation, for the diagnostic text of the error.
#[verifier::external_body]
fn json_error_message(err: &serde_json::Error) -> String {
    err.to_string()
}

impl AggregateError {
    /// The technical error that a JSON codec failure surfaces as: a fixed
    /// message for a syntax failure, the codec's own diagnostic otherwise.
    pub fn from_json_category(category: JsonErrorCategory, message: String) -> (r: Self)
        ensures
            r matches AggregateError::TechnicalError(m),
            category is Syntax ==> (r matches AggregateError::TechnicalError(m)
                && m@ == "invalid json"@),
            !(category is Syntax) ==> (r matches AggregateError::TechnicalError(m)
                && m@ == message@),
    {
        match category {
            JsonErrorCategory::Syntax => Self::new_technical_error("invalid json"),
            JsonErrorCategory::Io | JsonErrorCategory::Data | JsonErrorCategory::Eof => {
                AggregateError::TechnicalError(message)
            },
        }
    }
}

impl From<serde_json::Error> for AggregateError {
    /// A JSON codec failure is never a user error or a conflict: it surfaces
    /// as a `TechnicalError` chosen by `from_json_category`.
    fn from(err: serde_json::Error) -> (r: Self)
        ensures
            r matches AggregateError::TechnicalError(m),
    {
        let message = json_error_message(&err);
        AggregateError::from_json_category(json_error_category(&err), message)
    }
}

impl vstd::std_specs::convert::FromSpecImpl<serde_json::Error> for AggregateError {
    // The mapping depends on the error's category, which has no specification,
    // so nothing is claimed here; `from` states its own postcondition.
    open spec fn obeys_from_spec() -> bool {
        false
    }

    open spec fn from_spec(err: serde_json::Error) -> Self {
        AggregateError::AggregateConflict
    }
}

} // verus!
