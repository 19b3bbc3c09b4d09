use vstd::prelude::*;

verus! {

/// The commands of the tool.
pub enum Commands {
    /// Create a new connection
    CreateConnection(CreateConnectionArgs),
    /// Returns the document count in the metadata for the collection
    EstimateDocumentCount { db: String, coll: String },
    /// Get an example document
    Example { db: String, coll: String },
    /// Get an example document after filtering
    ExampleFiltered { db: String, coll: String, filter: String },
    /// Get detailed information on each collection
    ListCollectionDetails { db: String },
    /// List the collections in a database
    ListCollections { db: String },
    /// List connections
    ListConnections,
    /// List the databases
    ListDatabases,
}

/// The parameters of a new connection.
pub struct CreateConnectionArgs {
    /// Connection name
    pub name: String,
    /// Hostname
    pub host: String,
    /// Port
    pub port: i32,
    /// Protocol (`mongodb` unless given)
    pub protocol: String,
    /// Set as default connection
    pub default: bool,
}

/// Whether a command talks to a database server, and so needs a connection.
pub open spec fn needs_server(c: &Commands) -> bool {
    match c {
        Commands::CreateConnection(_) => false,
        Commands::ListConnections => false,
        _ => true,
    }
}

impl Commands {
    /// Whether running this command needs a connection to a server.
    pub fn requires_connection(&self) -> (b: bool)
        ensures
            b == needs_server(self),
    {
        match self {
            Commands::ListDatabases => true,
            Commands::Example { .. } => true,
            Commands::ExampleFiltered { .. } => true,
            Commands::ListCollections { .. } => true,
            Commands::EstimateDocumentCount { .. } => true,
            Commands::ListCollectionDetails { .. } => true,
            _ => false,
        }
    }
}

} // verus!
