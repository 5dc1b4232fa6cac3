//! Protocol versions and the JSON-RPC error codes the engine emits.

use vstd::prelude::*;

verus! {

/// Version string the engine currently advertises.
pub const PROTOCOL_VERSION: &'static str = "2025-03-26";

/// Invalid JSON was received by the server.
pub const PARSE_ERROR: i64 = -32700;

/// The JSON sent is not a valid request object.
pub const INVALID_REQUEST: i64 = -32600;

/// The method does not exist or is not available.
pub const METHOD_NOT_FOUND: i64 = -32601;

/// Invalid method parameters.
pub const INVALID_PARAMS: i64 = -32602;

/// Internal JSON-RPC error.
pub const INTERNAL_ERROR: i64 = -32603;

/// The protocol revisions this engine knows how to speak.
#[derive(Debug, Clone, Copy, PartialEq, Eq, PartialOrd, Ord, Hash, Structural)]
pub enum ProtocolVersion {
    V20241105,
    V20250326,
}

impl ProtocolVersion {
    /// The wire spelling of a version.
    pub open spec fn spec_str(self) -> Seq<char> {
        match self {
            ProtocolVersion::V20241105 => "2024-11-05"@,
            ProtocolVersion::V20250326 => "2025-03-26"@,
        }
    }

    /// Which versions a wire string names.
    pub open spec fn spec_parse(s: Seq<char>) -> Option<ProtocolVersion> {
        if s == "2024-11-05"@ {
            Some(ProtocolVersion::V20241105)
        } else if s == "2025-03-26"@ {
            Some(ProtocolVersion::V20250326)
        } else {
            None
        }
    }

    /// Format the version as its wire string.
    pub fn as_str(&self) -> (r: &'static str)
        ensures
            r@ == self.spec_str(),
    {
        match self {
            ProtocolVersion::V20241105 => "2024-11-05",
            ProtocolVersion::V20250326 => "2025-03-26",
        }
    }

    /// Format the version as an owned wire string.
    pub fn to_version_string(&self) -> (r: String)
        ensures
            r@ == self.spec_str(),
    {
        String::from_str(self.as_str())
    }

    /// Parse a wire string into a version; `None` for an unknown version.
    pub fn parse(s: &str) -> (r: Option<ProtocolVersion>)
        ensures
            r == Self::spec_parse(s@),
    {
        let owned = String::from_str(s);
        if owned == String::from_str("2024-11-05") {
            Some(ProtocolVersion::V20241105)
        } else if owned == String::from_str("2025-03-26") {
            Some(ProtocolVersion::V20250326)
        } else {
            None
        }
    }
}

/// The error a failed version parse reports.
#[derive(Debug, Clone, Copy, PartialEq, Eq, Structural)]
pub struct ProtocolVersionParseError;

impl core::str::FromStr for ProtocolVersion {
    type Err = ProtocolVersionParseError;

    fn from_str(s: &str) -> Result<ProtocolVersion, ProtocolVersionParseError> {
        match ProtocolVersion::parse(s) {
            Some(v) => Ok(v),
            None => Err(ProtocolVersionParseError),
        }
    }
}

} // verus!
