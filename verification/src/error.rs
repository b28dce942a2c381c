use vstd::prelude::*;

verus! {

/// Why a set of nodes could not be connected.
#[derive(Debug)]
pub enum LndConnectError {
    /// A node configuration has an empty alias.
    EmptyAlias,
    /// Two node configurations share this alias.
    DuplicateAlias(String),
    /// Connecting to the node with this alias failed with this message.
    NodeConnect { alias: String, message: String },
}

/// The text that describes an error, as a sequence of characters.
pub open spec fn connect_error_text(err: LndConnectError) -> Seq<char> {
    match err {
        LndConnectError::EmptyAlias => "node alias cannot be empty"@,
        LndConnectError::DuplicateAlias(alias) => "duplicate node alias: "@ + alias@,
        LndConnectError::NodeConnect { alias, message } =>
            "failed to connect to node '"@ + alias@ + "': "@ + message@,
    }
}

impl LndConnectError {
    /// The human-readable description of this error.
    pub fn to_string(&self) -> (text: String)
        ensures
            text@ == connect_error_text(*self),
    {
        match self {
            LndConnectError::EmptyAlias => String::from_str("node alias cannot be empty"),
            LndConnectError::DuplicateAlias(alias) => {
                let mut text = String::from_str("duplicate node alias: ");
                text.append(alias.as_str());
                text
            },
            LndConnectError::NodeConnect { alias, message } => {
                let mut text = String::from_str("failed to connect to node '");
                text.append(alias.as_str());
                text.append("': ");
                text.append(message.as_str());
                text
            },
        }
    }
}

} // verus!
