//! The error taxonomy of the engine.
//!
//! These are the only error kinds the core surfaces past its own boundary.
//! Every one of them is recoverable for the node itself except
//! `InternalError`, which signals divergence in the node's own bookkeeping.

use vstd::prelude::*;
use vstd::string::StringExecFns;

verus! {

/// Errors that might occur in a PBFT node.
#[derive(Debug, PartialEq, Eq)]
pub enum PbftError {
    /// A message could not be serialized or deserialized
    /// (description, underlying cause).
    SerializationError(String, String),

    /// A call to the consensus service failed (description, underlying cause).
    ServiceError(String, String),

    /// A cryptographic signature could not be produced or verified.
    SigningError(String),

    /// The node detected a faulty primary and started a view change.
    FaultyPrimary(String),

    /// An invalid message was received.
    InvalidMessage(String),

    /// Internal PBFT error (description).
    InternalError(String),

    /// The message should only come from the primary, but was sent by a
    /// secondary node; this covers situations where a typical error would
    /// trigger a view change (e.g. an invalid NewView message), but if the
    /// message isn't actually from the primary a view change shouldn't be
    /// triggered.
    NotFromPrimary,
}

impl PbftError {
    /// The name of this error's kind.
    pub open spec fn spec_description(self) -> Seq<char> {
        match self {
            PbftError::SerializationError(_, _) => "SerializationError"@,
            PbftError::ServiceError(_, _) => "ServiceError"@,
            PbftError::SigningError(_) => "SigningError"@,
            PbftError::FaultyPrimary(_) => "FaultyPrimary"@,
            PbftError::InvalidMessage(_) => "InvalidMessage"@,
            PbftError::InternalError(_) => "InternalError"@,
            PbftError::NotFromPrimary => "NotFromPrimary"@,
        }
    }

    /// The name of this error's kind.
    pub fn description(&self) -> (r: &'static str)
        ensures
            r@ == self.spec_description(),
    {
        match self {
            PbftError::SerializationError(_, _) => "SerializationError",
            PbftError::ServiceError(_, _) => "ServiceError",
            PbftError::SigningError(_) => "SigningError",
            PbftError::FaultyPrimary(_) => "FaultyPrimary",
            PbftError::InvalidMessage(_) => "InvalidMessage",
            PbftError::InternalError(_) => "InternalError",
            PbftError::NotFromPrimary => "NotFromPrimary",
        }
    }

    /// The rendered form of this error, as an operator reads it: the kind
    /// name, a separator, then the payload.
    pub open spec fn spec_display_message(self) -> Seq<char> {
        self.spec_description() + ": "@ + match self {
            PbftError::SerializationError(d, c) => d@ + " due to: "@ + c@,
            PbftError::ServiceError(d, c) => d@ + " due to: "@ + c@,
            PbftError::SigningError(d) => d@,
            PbftError::FaultyPrimary(d) => "Node has detected a faulty primary and started a view change: "@
                + d@,
            PbftError::InvalidMessage(d) => d@,
            PbftError::InternalError(d) => d@,
            PbftError::NotFromPrimary => "Message should be from primary, but was sent by secondary"@,
        }
    }

    /// Renders this error for an operator.
    pub fn display_message(&self) -> (r: String)
        ensures
            r@ == self.spec_display_message(),
    {
        let mut out = String::from_str(self.description());
        out.append(": ");
        match self {
            PbftError::SerializationError(d, c) => {
                out.append(d.as_str());
                out.append(" due to: ");
                out.append(c.as_str());
            },
            PbftError::ServiceError(d, c) => {
                out.append(d.as_str());
                out.append(" due to: ");
                out.append(c.as_str());
            },
            PbftError::SigningError(d) => {
                out.append(d.as_str());
            },
            PbftError::FaultyPrimary(d) => {
                out.append(
                    "Node has detected a faulty primary and started a view change: ",
                );
                out.append(d.as_str());
            },
            PbftError::InvalidMessage(d) => {
                out.append(d.as_str());
            },
            PbftError::InternalError(d) => {
                out.append(d.as_str());
            },
            PbftError::NotFromPrimary => {
                out.append("Message should be from primary, but was sent by secondary");
            },
        }
        proof {
            assert(out@ =~= self.spec_display_message());
        }
        out
    }
}

} // verus!
