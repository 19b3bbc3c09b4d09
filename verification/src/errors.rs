use vstd::prelude::*;

verus! {

/// What can go wrong while looking up or saving connections.
#[derive(Debug, Clone, Copy, PartialEq, Eq, Structural)]
pub enum ConnectionError {
    ConnectionDoesNotExist,
    ConnectionExists,
    NoConnections,
    NoDefaultConnection,
    WriteConnection,
}

/// The text shown to the user for each error.
pub open spec fn error_text(e: ConnectionError) -> Seq<char> {
    match e {
        ConnectionError::ConnectionDoesNotExist => "There is no connection by that name"@,
        ConnectionError::ConnectionExists => "A connection with this name already exists"@,
        ConnectionError::NoDefaultConnection =>
            "There are no connections saved that are flagged as default"@,
        ConnectionError::NoConnections => "There are no saved connections"@,
        ConnectionError::WriteConnection => "Could not write connections file"@,
    }
}

impl ConnectionError {
    /// The message that describes this error.
    pub fn message(&self) -> (msg: String)
        ensures
            msg@ == error_text(*self),
    {
        match self {
            ConnectionError::ConnectionDoesNotExist => "There is no connection by that name".to_owned(),
            ConnectionError::ConnectionExists => "A connection with this name already exists".to_owned(),
            ConnectionError::NoDefaultConnection => {
                "There are no connections saved that are flagged as default".to_owned()
            },
            ConnectionError::NoConnections => "There are no saved connections".to_owned(),
            ConnectionError::WriteConnection => "Could not write connections file".to_owned(),
        }
    }
}

} // verus!
