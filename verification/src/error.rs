//! The error types of the crate: field access failures and the overall
//! metric parse error.

use vstd::prelude::*;

verus! {

/// Failure to read a field of a document by key.
#[derive(Debug, Clone)]
pub enum KeyAccessError {
    /// No field with this key exists.
    KeyNotFound {
        /// The key that was looked up.
        key: String,
    },
    /// The field exists but holds a value of another kind.
    UnexpectedKeyType {
        /// The key that was looked up.
        key: String,
    },
    /// The field could not be read for another reason.
    AccessError {
        /// The key that was looked up.
        key: String,
        /// What went wrong.
        error: String,
    },
}

/// The error type for parsing diagnostic metrics.
#[derive(Debug, Clone)]
pub enum MetricParseError {
    /// An input/output failure while reading metric data.
    Io {
        /// A description of the failure.
        message: String,
    },
    /// A malformed length-prefixed binary document.
    BsonDeserialzation {
        /// A description of the failure.
        message: String,
    },
    /// A failed field access on a document.
    FieldAccess(KeyAccessError),
    /// A document whose `type` field holds an unknown value.
    UnknownDocumentKind(i32),
    /// The reference document holds a different number of metrics than the
    /// chunk header announced.
    MetricCountMismatch,
    /// No timestamp series was found for a metric.
    MetricTimestampNotFound {
        /// The name of the metric without timestamps.
        name: String,
    },
    /// An unsigned count did not fit the platform's size type.
    IntConversion {
        /// A description of the failure.
        message: String,
    },
}

} // verus!
