use vstd::prelude::*;
use vstd::std_specs::convert::FromSpecImpl;
use vstd::string::{to_string_from_display_ensures, StringExecFns};
use crate::decimal::{decimal_digits, decimal_string};

verus! {

/// `std::io::Error`, carried through as it came from the system. Nothing is
/// claimed of what it holds.
#[verifier::external_type_specification]
#[verifier::external_body]
pub struct ExIoError(std::io::Error);

/// `serde_json::Error`, carried through as it came from the parser. Nothing
/// is claimed of what it holds.
#[verifier::external_type_specification]
#[verifier::external_body]
pub struct ExJsonError(serde_json::Error);

/// What can stop a run. Every failure is fatal: nothing is retried or skipped.
#[derive(Debug)]
pub enum ProcessingError {
    /// A filesystem operation failed.
    Io(std::io::Error),
    /// A catalog does not have the expected shape.
    Json(serde_json::Error),
    /// An input file is larger than the ceiling it was held against.
    FileTooLarge { size: u64, max_size: u64 },
}

impl From<std::io::Error> for ProcessingError {
    fn from(e: std::io::Error) -> (r: ProcessingError) {
        ProcessingError::Io(e)
    }
}

impl FromSpecImpl<std::io::Error> for ProcessingError {
    open spec fn obeys_from_spec() -> bool {
        true
    }

    open spec fn from_spec(e: std::io::Error) -> ProcessingError {
        ProcessingError::Io(e)
    }
}

impl From<serde_json::Error> for ProcessingError {
    fn from(e: serde_json::Error) -> (r: ProcessingError) {
        ProcessingError::Json(e)
    }
}

impl FromSpecImpl<serde_json::Error> for ProcessingError {
    open spec fn obeys_from_spec() -> bool {
        true
    }

    open spec fn from_spec(e: serde_json::Error) -> ProcessingError {
        ProcessingError::Json(e)
    }
}

/// What a message about a failed filesystem operation begins with.
pub open spec fn io_prefix() -> Seq<char> {
    seq!['I', 'O', ' ', 'e', 'r', 'r', 'o', 'r', ':', ' ']
}

/// What a message about a malformed catalog begins with.
pub open spec fn json_prefix() -> Seq<char> {
    seq![
        'J', 'S', 'O', 'N', ' ', 'p', 'a', 'r', 's', 'i', 'n', 'g', ' ', 'e', 'r', 'r', 'o', 'r',
        ':', ' ',
    ]
}

/// The message about a file of `size` bytes under a ceiling of `max_size`.
pub open spec fn too_large_text(size: u64, max_size: u64) -> Seq<char> {
    seq!['F', 'i', 'l', 'e', ' ', 't', 'o', 'o', ' ', 'l', 'a', 'r', 'g', 'e', ':', ' ']
        + decimal_digits(size as nat) + seq![' ', 'b', 'y', 't', 'e', 's', ' ', '(', 'm', 'a', 'x', ':', ' ']
        + decimal_digits(max_size as nat) + seq![')']
}

impl ProcessingError {
    /// The message for whoever ran the pipeline: the kind of failure, then
    /// its detail. For a failure that came from outside, the detail is the
    /// text that the outside error displays.
    pub fn message(&self) -> (text: String)
        ensures
            match *self {
                ProcessingError::Io(e) => exists|detail: String|
                    to_string_from_display_ensures::<std::io::Error>(&e, detail) && text@
                        == io_prefix() + detail@,
                ProcessingError::Json(e) => exists|detail: String|
                    to_string_from_display_ensures::<serde_json::Error>(&e, detail) && text@
                        == json_prefix() + detail@,
                ProcessingError::FileTooLarge { size, max_size } => text@ == too_large_text(
                    size,
                    max_size,
                ),
            },
    {
        proof {
            reveal_strlit("IO error: ");
            reveal_strlit("JSON parsing error: ");
            reveal_strlit("File too large: ");
            reveal_strlit(" bytes (max: ");
            reveal_strlit(")");
        }
        match self {
            ProcessingError::Io(e) => {
                let mut text = String::from_str("IO error: ");
                assert(text@ =~= io_prefix());
                let detail = e.to_string();
                text.append(detail.as_str());
                text
            },
            ProcessingError::Json(e) => {
                let mut text = String::from_str("JSON parsing error: ");
                assert(text@ =~= json_prefix());
                let detail = e.to_string();
                text.append(detail.as_str());
                text
            },
            ProcessingError::FileTooLarge { size, max_size } => {
                let mut text = String::from_str("File too large: ");
                text.append(decimal_string(*size).as_str());
                text.append(" bytes (max: ");
                text.append(decimal_string(*max_size).as_str());
                text.append(")");
                assert(text@ =~= too_large_text(*size, *max_size));
                text
            },
        }
    }
}

} // verus!
