//! What is known of a request once it has been decided.

use crate::clock::Timestamp;
use vstd::prelude::*;

verus! {

/// What a rule that matched asks for.
#[derive(Clone, Copy, PartialEq, Eq, Structural, Debug)]
pub enum BDecision {
    Skip,
    Monitor,
    AlterRequest,
    InitiatorInactive,
    Blocking,
}

/// The rule that matched, with what the aggregation looks at.
pub enum Initiator {
    GlobalFilter,
    Acl,
    Phase01Fail,
    Phase02,
    Limit,
    ContentFilter { ruleid: String, risk_level: u8 },
    BodyTooDeep,
    BodyMissing,
    BodyMalformed,
    Sqli,
    Xss,
    Restricted,
    TooManyEntries,
    EntryTooLarge,
}

/// The part of the request that a rule matched on.
pub enum Location {
    Body,
    Attributes,
    Uri,
    Headers,
    BodyArgument(String),
    RefererArgument(String),
    UriArgument(String),
    /// Any part that is not aggregated.
    Other,
}

/// One match: the rule, the parts it matched on, and what it asks for.
pub struct BlockReason {
    pub initiator: Initiator,
    pub location: Vec<Location>,
    pub decision: BDecision,
}

/// All matches of a request.
pub struct Decision {
    pub reasons: Vec<BlockReason>,
}

/// The tags of a request, each once.
pub struct Tags {
    pub tags: Vec<String>,
}

impl Tags {
    /// No tag is given twice.
    pub open spec fn distinct(self) -> bool {
        forall|i: int, j: int|
            0 <= i < j < self.tags@.len() ==> (#[trigger] self.tags@[i])@ != (
            #[trigger] self.tags@[j])@
    }
}

/// Whether no two headers have the same name.
pub open spec fn distinct_names(headers: Seq<(String, String)>) -> bool {
    forall|i: int, j: int|
        0 <= i < j < headers.len() ==> (#[trigger] headers[i]).0@ != (#[trigger] headers[j]).0@
}

/// The request itself.
pub struct RequestInfo {
    /// When it came in.
    pub timestamp: Timestamp,
    /// The name of the proxy.
    pub container_name: Option<String>,
    pub acl_profile_id: String,
    pub content_filter_profile_id: String,
    /// The security policy, and its entry for the path of the request.
    pub secpolicy_id: String,
    pub secpolicy_entry_id: String,
    pub method: String,
    pub ip: String,
    pub session: String,
    pub uri: String,
    pub country: Option<String>,
    pub asn: Option<u32>,
    /// The headers by name, each name once.
    pub headers: Vec<(String, String)>,
    /// How many cookies there are.
    pub cookies: usize,
    /// How many arguments there are.
    pub args: usize,
}

impl RequestInfo {
    /// No two headers have the same name.
    pub open spec fn distinct_headers(self) -> bool {
        distinct_names(self.headers@)
    }
}

} // verus!
