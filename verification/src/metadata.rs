//! The metadata carried by a reference document: which host and process
//! produced the metrics, and the server version.

use vstd::prelude::*;

use crate::bson::{spec_common_base, spec_get_doc, spec_get_str, Document, KeyErr};
use crate::error::KeyAccessError;

verus! {

/// The metadata associated with a chunk of diagnostic metrics.
#[derive(Debug, Clone)]
pub struct Metadata {
    /// The host name of the node that generated the metrics.
    pub host: String,
    /// The process that generated the metrics.
    pub process: String,
    /// The server version running on the node.
    pub version: String,
}

/// The metadata fields of a reference document: the `host`, `process` and
/// `version` strings under `[common.]serverStatus`.
pub open spec fn spec_metadata(d: Document) -> Result<(Seq<char>, Seq<char>, Seq<char>), KeyErr> {
    let base = spec_common_base(d);
    match spec_get_doc(base, "serverStatus"@) {
        Ok(ss) => match spec_get_str(ss, "host"@) {
            Ok(h) => match spec_get_str(ss, "process"@) {
                Ok(p) => match spec_get_str(ss, "version"@) {
                    Ok(v) => Ok((h, p, v)),
                    Err(e) => Err(e),
                },
                Err(e) => Err(e),
            },
            Err(e) => Err(e),
        },
        Err(e) => Err(e),
    }
}

impl Metadata {
    /// Reads the metadata out of a reference document; an error names the
    /// first key that is absent or of the wrong kind.
    pub fn from_reference_document(doc: &Document) -> (r: Result<Metadata, KeyAccessError>)
        ensures
            match r {
                Ok(m) => spec_metadata(*doc) == Ok::<(Seq<char>, Seq<char>, Seq<char>), KeyErr>(
                    (m.host@, m.process@, m.version@),
                ),
                Err(KeyAccessError::KeyNotFound { key: k }) => spec_metadata(*doc) == Err::<
                    (Seq<char>, Seq<char>, Seq<char>),
                    KeyErr,
                >(KeyErr::NotFound(k@)),
                Err(KeyAccessError::UnexpectedKeyType { key: k }) => spec_metadata(*doc) == Err::<
                    (Seq<char>, Seq<char>, Seq<char>),
                    KeyErr,
                >(KeyErr::WrongType(k@)),
                Err(_) => false,
            },
    {
        let base = match doc.get_document("common") {
            Ok(c) => c,
            Err(_) => doc,
        };
        let server_status = match base.get_document("serverStatus") {
            Ok(d) => d,
            Err(e) => {
                return Err(e);
            },
        };
        let host = match server_status.get_str("host") {
            Ok(s) => s.clone(),
            Err(e) => {
                return Err(e);
            },
        };
        let process = match server_status.get_str("process") {
            Ok(s) => s.clone(),
            Err(e) => {
                return Err(e);
            },
        };
        let version = match server_status.get_str("version") {
            Ok(s) => s.clone(),
            Err(e) => {
                return Err(e);
            },
        };
        Ok(Metadata { host, process, version })
    }
}

} // verus!
