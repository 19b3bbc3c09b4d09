use mgfy::cli::{Commands, CreateConnectionArgs};
use mgfy::connections::{create_connection, get_by_name, get_default_connection, Connection, ConnectionStore};
use mgfy::errors::ConnectionError;

fn args(name: &str, port: i32, default: bool) -> CreateConnectionArgs {
    CreateConnectionArgs {
        name: name.to_string(),
        host: "localhost".to_string(),
        port,
        protocol: "mongodb".to_string(),
        default,
    }
}

fn conn(name: &str, default: bool) -> Connection {
    Connection::from_opts(args(name, 27017, default))
}

#[test]
fn first_connection_becomes_default() {
    let mut store = ConnectionStore::new();
    assert_eq!(create_connection(&mut store, args("local", 27017, false)), Ok(true));
    let found = get_default_connection(&store).unwrap();
    assert_eq!(found.name, "local");
    assert!(found.default);
}

#[test]
fn new_default_takes_the_flag() {
    let mut store = ConnectionStore::new();
    create_connection(&mut store, args("a", 1, false)).unwrap();
    assert_eq!(create_connection(&mut store, args("b", 2, false)), Ok(false));
    assert_eq!(get_default_connection(&store).unwrap().name, "a");
    assert_eq!(create_connection(&mut store, args("c", 3, true)), Ok(false));
    assert_eq!(get_default_connection(&store).unwrap().name, "c");
    let defaults = store.connections().iter().filter(|c| c.default).count();
    assert_eq!(defaults, 1);
    assert_eq!(store.len(), 3);
}

#[test]
fn taken_name_is_refused() {
    let mut store = ConnectionStore::new();
    create_connection(&mut store, args("a", 1, false)).unwrap();
    assert_eq!(
        create_connection(&mut store, args("a", 2, true)),
        Err(ConnectionError::ConnectionExists)
    );
    assert_eq!(store.len(), 1);
    assert_eq!(get_by_name(&store, "a").unwrap().port, 1);
}

#[test]
fn created_connection_is_found_by_name() {
    let mut store = ConnectionStore::new();
    create_connection(&mut store, args("a", 1, false)).unwrap();
    create_connection(&mut store, args("b", 2, false)).unwrap();
    let b = get_by_name(&store, "b").unwrap();
    assert_eq!(b.port, 2);
    assert_eq!(b.host, "localhost");
    assert!(!b.default);
    assert_eq!(
        get_by_name(&store, "z").unwrap_err(),
        ConnectionError::ConnectionDoesNotExist
    );
}

#[test]
fn no_default_is_reported() {
    let mut store = ConnectionStore::new();
    store.insert(conn("a", false));
    assert_eq!(
        get_default_connection(&store).unwrap_err(),
        ConnectionError::NoDefaultConnection
    );
}

#[test]
fn insert_replaces_same_name() {
    let mut store = ConnectionStore::new();
    store.insert(conn("a", false));
    store.insert(conn("b", false));
    store.insert(conn("a", true));
    assert_eq!(store.len(), 2);
    assert!(get_by_name(&store, "a").unwrap().default);
    assert!(store.contains_key("b"));
    assert!(!store.contains_key("c"));
}

#[test]
fn from_name_picks_named_or_default() {
    let mut store = ConnectionStore::new();
    create_connection(&mut store, args("a", 1, false)).unwrap();
    create_connection(&mut store, args("b", 2, false)).unwrap();
    assert_eq!(Connection::from_name(Some(&store), Some("b")).unwrap().port, 2);
    assert_eq!(Connection::from_name(Some(&store), None).unwrap().name, "a");
    assert_eq!(
        Connection::from_name(Some(&store), Some("x")).unwrap_err(),
        ConnectionError::ConnectionDoesNotExist
    );
    assert_eq!(
        Connection::from_name(None, Some("a")).unwrap_err(),
        ConnectionError::NoConnections
    );
}

#[test]
fn uri_joins_protocol_host_and_port() {
    let c = Connection::from_opts(args("x", 27017, false));
    assert_eq!(c.to_uri(), "mongodb://localhost:27017");
    let d = Connection::from_opts(CreateConnectionArgs {
        name: "y".to_string(),
        host: "db.example.com".to_string(),
        port: -1,
        protocol: "mongodb+srv".to_string(),
        default: true,
    });
    assert_eq!(d.to_uri(), "mongodb+srv://db.example.com:-1");
}

#[test]
fn from_opts_copies_every_field() {
    let c = Connection::from_opts(args("n", 5, true));
    assert_eq!(c.name, "n");
    assert_eq!(c.host, "localhost");
    assert_eq!(c.port, 5);
    assert_eq!(c.protocol, "mongodb");
    assert!(c.default);
}

#[test]
fn commands_that_need_a_server() {
    let db = || "db".to_string();
    assert!(Commands::ListDatabases.requires_connection());
    assert!(Commands::ListCollections { db: db() }.requires_connection());
    assert!(Commands::ListCollectionDetails { db: db() }.requires_connection());
    assert!(Commands::EstimateDocumentCount { db: db(), coll: db() }.requires_connection());
    assert!(Commands::Example { db: db(), coll: db() }.requires_connection());
    assert!(Commands::ExampleFiltered { db: db(), coll: db(), filter: db() }.requires_connection());
    assert!(!Commands::ListConnections.requires_connection());
    assert!(!Commands::CreateConnection(args("a", 1, false)).requires_connection());
}

#[test]
fn error_messages() {
    assert_eq!(
        ConnectionError::ConnectionDoesNotExist.message(),
        "There is no connection by that name"
    );
    assert_eq!(
        ConnectionError::ConnectionExists.message(),
        "A connection with this name already exists"
    );
    assert_eq!(
        ConnectionError::NoDefaultConnection.message(),
        "There are no connections saved that are flagged as default"
    );
    assert_eq!(ConnectionError::NoConnections.message(), "There are no saved connections");
    assert_eq!(ConnectionError::WriteConnection.message(), "Could not write connections file");
}
