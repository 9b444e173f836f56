//! The errors a store or a synchronisation pass can raise.

use vstd::prelude::*;
use vstd::string::StringExecFns;

use crate::fmt_num::dec_of;

verus! {

/// Errors raised while interacting with a store.
///
/// `Io` covers read, write and rename failures around the store; `Parse` and
/// `Serialize` cover malformed or unrepresentable document text; `MissingKey`
/// a section or key that is absent when required; `TypeMismatch` a value that
/// is present with the wrong shape; `ValueParse` a value of the right shape
/// whose payload is invalid or out of range.
#[derive(Debug)]
pub enum ConferError {
    Io { path: Option<String>, message: String },
    Parse { message: String },
    Serialize { message: String },
    MissingKey { section: String, key: String },
    TypeMismatch { section: String, key: String, expected: &'static str, found: &'static str },
    ValueParse { section: String, key: String, message: String },
}

/// The mathematical model of an error: the same variants over character
/// sequences.
pub enum ErrModel {
    Io { path: Option<Seq<char>>, message: Seq<char> },
    Parse { message: Seq<char> },
    Serialize { message: Seq<char> },
    MissingKey { section: Seq<char>, key: Seq<char> },
    TypeMismatch { section: Seq<char>, key: Seq<char>, expected: Seq<char>, found: Seq<char> },
    ValueParse { section: Seq<char>, key: Seq<char>, message: Seq<char> },
}

impl ConferError {
    pub open spec fn model(&self) -> ErrModel {
        match self {
            ConferError::Io { path, message } => ErrModel::Io {
                path: match path {
                    Some(p) => Some(p@),
                    None => None,
                },
                message: message@,
            },
            ConferError::Parse { message } => ErrModel::Parse { message: message@ },
            ConferError::Serialize { message } => ErrModel::Serialize { message: message@ },
            ConferError::MissingKey { section, key } => ErrModel::MissingKey {
                section: section@,
                key: key@,
            },
            ConferError::TypeMismatch { section, key, expected, found } => ErrModel::TypeMismatch {
                section: section@,
                key: key@,
                expected: expected@,
                found: found@,
            },
            ConferError::ValueParse { section, key, message } => ErrModel::ValueParse {
                section: section@,
                key: key@,
                message: message@,
            },
        }
    }

    /// Builds a `MissingKey` error for `section.key`.
    pub fn missing_key(section: &str, key: &str) -> (r: ConferError)
        ensures
            r.model() == (ErrModel::MissingKey { section: section@, key: key@ }),
    {
        ConferError::MissingKey { section: section.to_owned(), key: key.to_owned() }
    }

    /// Builds a `TypeMismatch` error for `section.key`, naming the expected
    /// and the found kind.
    pub fn type_mismatch(section: &str, key: &str, expected: &'static str, found: &'static str) -> (r:
        ConferError)
        ensures
            r.model() == (ErrModel::TypeMismatch {
                section: section@,
                key: key@,
                expected: expected@,
                found: found@,
            }),
    {
        ConferError::TypeMismatch {
            section: section.to_owned(),
            key: key.to_owned(),
            expected,
            found,
        }
    }

    /// Builds a `ValueParse` error for `section.key` with the given message.
    pub fn value_parse(section: &str, key: &str, message: &str) -> (r: ConferError)
        ensures
            r.model() == (ErrModel::ValueParse {
                section: section@,
                key: key@,
                message: message@,
            }),
    {
        ConferError::value_parse_owned(section, key, message.to_owned())
    }

    /// Variant of `value_parse` that takes the message already owned.
    pub fn value_parse_owned(section: &str, key: &str, message: String) -> (r: ConferError)
        ensures
            r.model() == (ErrModel::ValueParse {
                section: section@,
                key: key@,
                message: message@,
            }),
    {
        ConferError::ValueParse { section: section.to_owned(), key: key.to_owned(), message }
    }

    /// Builds an `Io` error with optional path context.
    pub fn io_error(path: Option<String>, message: String) -> (r: ConferError)
        ensures
            r.model() == (ErrModel::Io {
                path: match path {
                    Some(p) => Some(p@),
                    None => None,
                },
                message: message@,
            }),
    {
        ConferError::Io { path, message }
    }
}

/// The rendered message of an error model.
pub open spec fn message_model(e: ErrModel) -> Seq<char> {
    match e {
        ErrModel::Io { path, message } => match path {
            Some(p) => "I/O error (path: "@ + p + "): "@ + message,
            None => "I/O error: "@ + message,
        },
        ErrModel::Parse { message } => "failed to parse TOML: "@ + message,
        ErrModel::Serialize { message } => "failed to serialize TOML: "@ + message,
        ErrModel::MissingKey { section, key } => "missing key "@ + section + "."@ + key,
        ErrModel::TypeMismatch { section, key, expected, found } => "expected "@ + expected
            + " at "@ + section + "."@ + key + " but found "@ + found,
        ErrModel::ValueParse { section, key, message } => "invalid value at "@ + section + "."@
            + key + ": "@ + message,
    }
}

impl ConferError {
    /// Renders the error as one readable line.
    pub fn message(&self) -> (r: String)
        ensures
            r@ == message_model(self.model()),
    {
        match self {
            ConferError::Io { path, message } => match path {
                Some(p) => {
                    let mut s = String::from_str("I/O error (path: ");
                    s.append(p.as_str());
                    s.append("): ");
                    s.append(message.as_str());
                    proof {
                        assert(s@ =~= message_model(self.model()));
                    }
                    s
                },
                None => {
                    let mut s = String::from_str("I/O error: ");
                    s.append(message.as_str());
                    proof {
                        assert(s@ =~= message_model(self.model()));
                    }
                    s
                },
            },
            ConferError::Parse { message } => {
                let mut s = String::from_str("failed to parse TOML: ");
                s.append(message.as_str());
                proof {
                    assert(s@ =~= message_model(self.model()));
                }
                s
            },
            ConferError::Serialize { message } => {
                let mut s = String::from_str("failed to serialize TOML: ");
                s.append(message.as_str());
                proof {
                    assert(s@ =~= message_model(self.model()));
                }
                s
            },
            ConferError::MissingKey { section, key } => {
                let mut s = String::from_str("missing key ");
                s.append(section.as_str());
                s.append(".");
                s.append(key.as_str());
                proof {
                    assert(s@ =~= message_model(self.model()));
                }
                s
            },
            ConferError::TypeMismatch { section, key, expected, found } => {
                let mut s = String::from_str("expected ");
                s.append(expected);
                s.append(" at ");
                s.append(section.as_str());
                s.append(".");
                s.append(key.as_str());
                s.append(" but found ");
                s.append(found);
                proof {
                    assert(s@ =~= message_model(self.model()));
                }
                s
            },
            ConferError::ValueParse { section, key, message } => {
                let mut s = String::from_str("invalid value at ");
                s.append(section.as_str());
                s.append(".");
                s.append(key.as_str());
                s.append(": ");
                s.append(message.as_str());
                proof {
                    assert(s@ =~= message_model(self.model()));
                }
                s
            },
        }
    }
}

/// The message of a `ValueParse` error about an array, annotated with the
/// failing element's index.
pub open spec fn indexed_message(message: Seq<char>, index: nat) -> Seq<char> {
    message + " (at index "@ + dec_of(index) + ")"@
}

/// Adds the failing element's index to an array element error: a `ValueParse`
/// message is annotated, a `TypeMismatch` is kept as it is, as is any other
/// error.
pub fn annotate_with_index(error: ConferError, index: usize) -> (r: ConferError)
    ensures
        (match error.model() {
            ErrModel::ValueParse { section, key, message } => r.model() == (ErrModel::ValueParse {
                section,
                key,
                message: indexed_message(message, index as nat),
            }),
            _ => r.model() == error.model(),
        }),
{
    match error {
        ConferError::ValueParse { section, key, message } => {
            let ghost orig: Seq<char> = message@;
            let mut m = message;
            m.append(" (at index ");
            let d = crate::fmt_num::u64_to_decimal(index as u64);
            m.append(d.as_str());
            m.append(")");
            proof {
                assert(m@ =~= indexed_message(orig, index as nat));
            }
            ConferError::ValueParse { section, key, message: m }
        },
        other => other,
    }
}

} // verus!
