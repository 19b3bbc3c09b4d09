use vstd::prelude::*;
use crate::cli::CreateConnectionArgs;
use crate::errors::ConnectionError;
use crate::numfmt::{is_signed_digits, lemma_signed_decimal_reads_back, signed_decimal, signed_decimal_string, signed_digits_value};

verus! {

/// A saved set of parameters for reaching a MongoDB server.
#[derive(Debug)]
pub struct Connection {
    /// A unique name, by which later commands pick this connection.
    pub name: String,
    /// Hostname used in the connection string.
    pub host: String,
    /// Port used in the connection string.
    pub port: i32,
    /// First part of the connection string (such as `mongodb`).
    pub protocol: String,
    /// Whether this is the connection used when none is named.
    pub default: bool,
}

/// A connection as plain values.
pub struct ConnectionView {
    pub name: Seq<char>,
    pub host: Seq<char>,
    pub port: i32,
    pub protocol: Seq<char>,
    pub default: bool,
}

impl View for Connection {
    type V = ConnectionView;

    open spec fn view(&self) -> ConnectionView {
        ConnectionView {
            name: self.name@,
            host: self.host@,
            port: self.port,
            protocol: self.protocol@,
            default: self.default,
        }
    }
}

impl Clone for Connection {
    fn clone(&self) -> (res: Self)
        ensures
            res@ == self@,
    {
        Connection {
            name: self.name.clone(),
            host: self.host.clone(),
            port: self.port,
            protocol: self.protocol.clone(),
            default: self.default,
        }
    }
}

/// The connection that the parameters of `create-connection` describe.
pub open spec fn connection_from_args(opts: CreateConnectionArgs) -> ConnectionView {
    ConnectionView {
        name: opts.name@,
        host: opts.host@,
        port: opts.port,
        protocol: opts.protocol@,
        default: opts.default,
    }
}

/// The connection string of a connection: `protocol://host:port`.
pub open spec fn uri_of(c: ConnectionView) -> Seq<char> {
    c.protocol + "://"@ + c.host + ":"@ + signed_decimal(c.port as int)
}

/// No two connections share a name.
pub open spec fn names_unique(s: Seq<ConnectionView>) -> bool {
    forall|i: int, j: int| 0 <= i < s.len() && 0 <= j < s.len() && i != j ==> s[i].name != s[j].name
}

/// Some connection has this name.
pub open spec fn has_name(s: Seq<ConnectionView>, name: Seq<char>) -> bool {
    exists|i: int| 0 <= i < s.len() && s[i].name == name
}

/// The position of the connection with this name (meaningful where `has_name`).
pub open spec fn name_index(s: Seq<ConnectionView>, name: Seq<char>) -> int {
    choose|i: int| 0 <= i < s.len() && s[i].name == name
}

/// Some connection is flagged as default.
pub open spec fn has_default(s: Seq<ConnectionView>) -> bool {
    exists|i: int| 0 <= i < s.len() && s[i].default
}

/// Position `i` holds the first connection flagged as default.
pub open spec fn is_first_default(s: Seq<ConnectionView>, i: int) -> bool {
    &&& 0 <= i < s.len()
    &&& s[i].default
    &&& forall|j: int| 0 <= j < i ==> !s[j].default
}

/// Position `i` holds the only connection flagged as default.
pub open spec fn is_only_default(s: Seq<ConnectionView>, i: int) -> bool {
    &&& 0 <= i < s.len()
    &&& s[i].default
    &&& forall|j: int| 0 <= j < s.len() && j != i ==> !s[j].default
}

/// At most one connection is flagged as default.
pub open spec fn at_most_one_default(s: Seq<ConnectionView>) -> bool {
    forall|i: int, j: int| 0 <= i < s.len() && 0 <= j < s.len() && s[i].default && s[j].default ==> i == j
}

/// The connection `c` with its default flag cleared.
pub open spec fn not_default(c: ConnectionView) -> ConnectionView {
    ConnectionView { default: false, ..c }
}

/// Every connection with its default flag cleared.
pub open spec fn cleared(s: Seq<ConnectionView>) -> Seq<ConnectionView> {
    s.map_values(|c: ConnectionView| not_default(c))
}

/// `s` after saving `c` under its name: it replaces the connection of that name, or comes last.
pub open spec fn inserted(s: Seq<ConnectionView>, c: ConnectionView) -> Seq<ConnectionView> {
    if has_name(s, c.name) {
        s.update(name_index(s, c.name), c)
    } else {
        s.push(c)
    }
}

/// The connection that `create-connection` saves: the one given, made the default when
/// there is no other connection.
pub open spec fn saved_connection(s: Seq<ConnectionView>, c: ConnectionView) -> ConnectionView {
    ConnectionView { default: c.default || s.len() == 0, ..c }
}

/// The connections after `create-connection` saved `c`, whose name is new: when `c` is the
/// default, no other connection stays one.
pub open spec fn created(s: Seq<ConnectionView>, c: ConnectionView) -> Seq<ConnectionView> {
    let saved = saved_connection(s, c);
    if saved.default {
        cleared(s).push(saved)
    } else {
        s.push(saved)
    }
}

/// What looking a connection up by name answers: the connection of that name, or
/// `ConnectionDoesNotExist` when there is none.
pub open spec fn by_name_outcome(
    s: Seq<ConnectionView>,
    name: Seq<char>,
    r: Result<ConnectionView, ConnectionError>,
) -> bool {
    match r {
        Ok(c) => c.name == name && s.contains(c),
        Err(e) => e == ConnectionError::ConnectionDoesNotExist && !has_name(s, name),
    }
}

/// What looking the default connection up answers: the first connection flagged as
/// default, or `NoDefaultConnection` when there is none.
pub open spec fn default_outcome(s: Seq<ConnectionView>, r: Result<ConnectionView, ConnectionError>) -> bool {
    match r {
        Ok(c) => exists|i: int| is_first_default(s, i) && s[i] == c,
        Err(e) => e == ConnectionError::NoDefaultConnection && !has_default(s),
    }
}

/// A connection result taken by its view.
pub open spec fn viewed(r: Result<Connection, ConnectionError>) -> Result<ConnectionView, ConnectionError> {
    match r {
        Ok(c) => Ok(c@),
        Err(e) => Err(e),
    }
}

/// A borrowed connection result taken by its view.
pub open spec fn viewed_ref(r: Result<&Connection, ConnectionError>) -> Result<ConnectionView, ConnectionError> {
    match r {
        Ok(c) => Ok(c@),
        Err(e) => Err(e),
    }
}

/// The saved connections, each under its own name.
pub struct ConnectionStore {
    entries: Vec<Connection>,
}

impl View for ConnectionStore {
    type V = Seq<ConnectionView>;

    closed spec fn view(&self) -> Seq<ConnectionView> {
        self.entries@.map_values(|c: Connection| c@)
    }
}

impl ConnectionStore {
    #[verifier::type_invariant]
    closed spec fn well_formed(self) -> bool {
        names_unique(self@)
    }

    /// A store with no connection.
    pub fn new() -> (s: Self)
        ensures
            s@ == Seq::<ConnectionView>::empty(),
    {
        let s = ConnectionStore { entries: Vec::new() };
        assert(s@ =~= Seq::<ConnectionView>::empty());
        s
    }

    /// The number of connections.
    pub fn len(&self) -> (n: usize)
        ensures
            n == self@.len(),
    {
        self.entries.len()
    }

    /// Whether there is no connection.
    pub fn is_empty(&self) -> (b: bool)
        ensures
            b == (self@.len() == 0),
    {
        self.entries.len() == 0
    }

    /// The connections, in order.
    pub fn connections(&self) -> (v: &Vec<Connection>)
        ensures
            v@.map_values(|c: Connection| c@) == self@,
            names_unique(self@),
    {
        proof {
            use_type_invariant(self);
        }
        &self.entries
    }

    /// The position of the connection with this name, if there is one.
    fn find(&self, name: &str) -> (r: Option<usize>)
        ensures
            r is Some <==> has_name(self@, name@),
            r matches Some(i) ==> i < self@.len() && self@[i as int].name == name@,
    {
        let wanted = name.to_owned();
        let mut i: usize = 0;
        while i < self.entries.len()
            invariant
                i <= self.entries@.len(),
                wanted@ == name@,
                self@.len() == self.entries@.len(),
                forall|j: int| 0 <= j < i ==> self@[j].name != name@,
            decreases self.entries@.len() - i,
        {
            if self.entries[i].name == wanted {
                assert(self@[i as int] == self.entries@[i as int]@);
                assert(self@[i as int].name == name@);
                return Some(i);
            }
            i = i + 1;
        }
        None
    }

    /// Whether a connection has this name.
    pub fn contains_key(&self, name: &str) -> (b: bool)
        ensures
            b == has_name(self@, name@),
    {
        self.find(name).is_some()
    }

    /// Saves a connection under its name, in place of the one that had that name.
    pub fn insert(&mut self, conn: Connection)
        ensures
            final(self)@ == inserted(old(self)@, conn@),
            names_unique(final(self)@),
    {
        proof {
            use_type_invariant(&*self);
        }
        let found = self.find(conn.name.as_str());
        let mut entries: Vec<Connection> = Vec::new();
        std::mem::swap(&mut entries, &mut self.entries);
        let ghost before = entries@.map_values(|c: Connection| c@);
        assert(before == old(self)@);
        match found {
            Some(i) => {
                proof {
                    let k = name_index(before, conn@.name);
                    assert(before[k].name == conn@.name);
                }
                entries.set(i, conn);
            },
            None => {
                entries.push(conn);
            },
        }
        assert(entries@.map_values(|c: Connection| c@) =~= inserted(before, conn@));
        self.entries = entries;
    }

    /// Clears the default flag of every connection.
    fn clear_defaults(&mut self)
        ensures
            final(self)@ == cleared(old(self)@),
    {
        proof {
            use_type_invariant(&*self);
        }
        let mut entries: Vec<Connection> = Vec::new();
        std::mem::swap(&mut entries, &mut self.entries);
        let ghost before = entries@.map_values(|c: Connection| c@);
        let mut result: Vec<Connection> = Vec::new();
        let mut i: usize = 0;
        while i < entries.len()
            invariant
                i <= entries@.len(),
                before == entries@.map_values(|c: Connection| c@),
                result@.len() == i,
                forall|j: int| 0 <= j < i ==> #[trigger] result@[j]@ == not_default(before[j]),
            decreases entries@.len() - i,
        {
            let mut c = entries[i].clone();
            c.default = false;
            result.push(c);
            i = i + 1;
        }
        assert(result@.map_values(|c: Connection| c@) =~= cleared(before));
        self.entries = result;
    }
}

/// Looks a connection up by its name.
pub fn get_by_name<'a>(conns: &'a ConnectionStore, name: &str) -> (r: Result<&'a Connection, ConnectionError>)
    ensures
        names_unique(conns@),
        by_name_outcome(conns@, name@, viewed_ref(r)),
{
    proof {
        use_type_invariant(conns);
    }
    match conns.find(name) {
        Some(i) => {
            let c = &conns.connections()[i];
            assert(conns@[i as int] == c@);
            Ok(c)
        },
        None => Err(ConnectionError::ConnectionDoesNotExist),
    }
}

/// Looks up the first connection flagged as default.
pub fn get_default_connection(conns: &ConnectionStore) -> (r: Result<&Connection, ConnectionError>)
    ensures
        default_outcome(conns@, viewed_ref(r)),
{
    let all = conns.connections();
    let mut i: usize = 0;
    while i < all.len()
        invariant
            i <= all@.len(),
            all@.map_values(|c: Connection| c@) == conns@,
            forall|j: int| 0 <= j < i ==> !conns@[j].default,
        decreases all@.len() - i,
    {
        if all[i].default {
            assert(is_first_default(conns@, i as int));
            return Ok(&all[i]);
        }
        i = i + 1;
    }
    Err(ConnectionError::NoDefaultConnection)
}

impl Connection {
    /// The connection to use: the one named, or else the default one, among the saved
    /// connections (`None` when none were ever saved).
    pub fn from_name(conns: Option<&ConnectionStore>, name_opt: Option<&str>) -> (r: Result<Self, ConnectionError>)
        ensures
            conns is None ==> r == Err::<Connection, ConnectionError>(ConnectionError::NoConnections),
            conns matches Some(s) ==> names_unique(s@) && match name_opt {
                Some(name) => by_name_outcome(s@, name@, viewed(r)),
                None => default_outcome(s@, viewed(r)),
            },
    {
        proof {
            if let Some(s) = conns {
                use_type_invariant(s);
            }
        }
        match conns {
            Some(s) => {
                let found = match name_opt {
                    Some(name) => get_by_name(s, name),
                    None => get_default_connection(s),
                };
                match found {
                    Ok(c) => Ok(c.clone()),
                    Err(e) => Err(e),
                }
            },
            None => Err(ConnectionError::NoConnections),
        }
    }

    /// The connection that the parameters of `create-connection` describe.
    pub fn from_opts(opts: CreateConnectionArgs) -> (c: Self)
        ensures
            c@ == connection_from_args(opts),
    {
        Connection {
            name: opts.name,
            host: opts.host,
            port: opts.port,
            protocol: opts.protocol,
            default: opts.default,
        }
    }

    /// The connection string: `protocol://host:port`.
    pub fn to_uri(&self) -> (uri: String)
        ensures
            uri@ == uri_of(self@),
    {
        let mut uri = self.protocol.clone();
        uri.append("://");
        uri.append(self.host.as_str());
        uri.append(":");
        let port = signed_decimal_string(self.port as i64);
        uri.append(port.as_str());
        proof {
            reveal_strlit("://");
            reveal_strlit(":");
        }
        assert(uri@ =~= uri_of(self@));
        uri
    }
}

/// Saves a new connection. A name that is taken is refused with `ConnectionExists`, and
/// the store is left as it was. The first connection saved becomes the default; a new
/// default connection takes that flag from every other. Returns whether the connection
/// was made the default because it is the only one.
pub fn create_connection(conns: &mut ConnectionStore, opts: CreateConnectionArgs) -> (r: Result<bool, ConnectionError>)
    ensures
        has_name(old(conns)@, connection_from_args(opts).name) ==> {
            &&& r == Err::<bool, ConnectionError>(ConnectionError::ConnectionExists)
            &&& final(conns)@ == old(conns)@
        },
        !has_name(old(conns)@, connection_from_args(opts).name) ==> {
            &&& r == Ok::<bool, ConnectionError>(old(conns)@.len() == 0)
            &&& final(conns)@ == created(old(conns)@, connection_from_args(opts))
        },
        names_unique(final(conns)@),
{
    proof {
        use_type_invariant(&*conns);
    }
    let ghost before = conns@;
    let ghost given = connection_from_args(opts);
    let mut new_conn = Connection::from_opts(opts);
    if conns.contains_key(new_conn.name.as_str()) {
        return Err(ConnectionError::ConnectionExists);
    }
    let only = conns.is_empty();
    if only {
        new_conn.default = true;
    }
    assert(new_conn@ == saved_connection(before, given));
    if new_conn.default {
        conns.clear_defaults();
        assert(!has_name(conns@, new_conn@.name));
    }
    conns.insert(new_conn);
    Ok(only)
}

/// After a connection with a new name is saved, names stay unique, looking the new name up
/// answers the connection saved, and every other connection is still there, the same but
/// for its default flag.
pub proof fn lemma_saved_connection_is_found(s: Seq<ConnectionView>, c: ConnectionView)
    requires
        names_unique(s),
        !has_name(s, c.name),
    ensures
        names_unique(created(s, c)),
        by_name_outcome(created(s, c), c.name, Ok(saved_connection(s, c))),
        forall|i: int|
            0 <= i < s.len() ==> {
                let kept = #[trigger] created(s, c)[i];
                &&& kept.name == s[i].name
                &&& kept.host == s[i].host
                &&& kept.port == s[i].port
                &&& kept.protocol == s[i].protocol
            },
        forall|n: Seq<char>| n != c.name ==> has_name(created(s, c), n) == has_name(s, n),
{
    let t = created(s, c);
    assert(t[s.len() as int] == saved_connection(s, c));
    assert forall|n: Seq<char>| n != c.name implies has_name(t, n) == has_name(s, n) by {
        if has_name(s, n) {
            let i = choose|i: int| 0 <= i < s.len() && s[i].name == n;
            assert(t[i].name == n);
        }
        if has_name(t, n) {
            let i = choose|i: int| 0 <= i < t.len() && t[i].name == n;
            assert(s[i].name == n);
        }
    }
}

/// Saving a connection keeps at most one default connection, and keeps one at all where
/// there was one or where the store was empty: a store that only `create-connection`
/// filled always has exactly one default connection.
pub proof fn lemma_create_keeps_one_default(s: Seq<ConnectionView>, c: ConnectionView)
    requires
        !has_name(s, c.name),
    ensures
        at_most_one_default(s) ==> at_most_one_default(created(s, c)),
        s.len() == 0 || has_default(s) ==> has_default(created(s, c)),
{
    let t = created(s, c);
    assert(t[s.len() as int] == saved_connection(s, c));
    if s.len() != 0 && has_default(s) {
        let i = choose|i: int| 0 <= i < s.len() && s[i].default;
        if !saved_connection(s, c).default {
            assert(t[i].default);
        }
    }
}

/// A connection saved as default, or as the first one, is the one used when no name is given.
pub proof fn lemma_new_default_is_used(s: Seq<ConnectionView>, c: ConnectionView)
    requires
        !has_name(s, c.name),
        c.default || s.len() == 0,
    ensures
        default_outcome(created(s, c), Ok(saved_connection(s, c))),
        exists|i: int| is_only_default(created(s, c), i),
{
    let t = created(s, c);
    assert(is_first_default(t, s.len() as int));
    assert(is_only_default(t, s.len() as int));
}

/// The connection string is the protocol, `://`, the host, `:` and the port written in
/// decimal: the text after that last `:`, read back as an integer, is the port, whatever
/// its value.
pub proof fn lemma_uri_reads_back(c: ConnectionView)
    ensures
        exists|t: Seq<char>|
            is_signed_digits(t) && signed_digits_value(t) == c.port && uri_of(c) == c.protocol
                + "://"@ + c.host + ":"@ + t,
{
    lemma_signed_decimal_reads_back(c.port as int);
    let t = signed_decimal(c.port as int);
    assert(is_signed_digits(t) && signed_digits_value(t) == c.port && uri_of(c) == c.protocol
        + "://"@ + c.host + ":"@ + t);
}

/// After `create-connection` saves a connection under a new name, the store has a
/// connection of that name, and every connection of that name has the host, port and
/// protocol given; its default flag is the one given, or set when the store was empty.
/// The store grows by exactly one connection.
pub proof fn lemma_created_keeps_given_fields(s: Seq<ConnectionView>, c: ConnectionView)
    requires
        !has_name(s, c.name),
    ensures
        has_name(created(s, c), c.name),
        created(s, c).len() == s.len() + 1,
        forall|i: int|
            0 <= i < created(s, c).len() && (#[trigger] created(s, c)[i]).name == c.name ==> {
                &&& created(s, c)[i].host == c.host
                &&& created(s, c)[i].port == c.port
                &&& created(s, c)[i].protocol == c.protocol
                &&& created(s, c)[i].default == (c.default || s.len() == 0)
            },
{
    let t = created(s, c);
    assert(t[s.len() as int].name == c.name);
    assert forall|i: int| 0 <= i < t.len() && (#[trigger] t[i]).name == c.name implies {
        &&& t[i].host == c.host
        &&& t[i].port == c.port
        &&& t[i].protocol == c.protocol
        &&& t[i].default == (c.default || s.len() == 0)
    } by {
        if i < s.len() {
            assert(s[i].name == t[i].name);
        }
    }
}

/// Saving a connection keeps it exactly as given, default flag included: afterwards the
/// store holds it, it is the only connection of its name, and every connection of another
/// name is still there unchanged. The store grows by one exactly when the name is new.
pub proof fn lemma_insert_keeps_connection(s: Seq<ConnectionView>, c: ConnectionView)
    requires
        names_unique(s),
    ensures
        inserted(s, c).contains(c),
        forall|i: int|
            0 <= i < inserted(s, c).len() && (#[trigger] inserted(s, c)[i]).name == c.name ==> inserted(
                s,
                c,
            )[i] == c,
        forall|i: int|
            0 <= i < s.len() && (#[trigger] s[i]).name != c.name ==> inserted(s, c).contains(s[i]),
        inserted(s, c).len() == (if has_name(s, c.name) {
            s.len()
        } else {
            s.len() + 1
        }),
{
    let t = inserted(s, c);
    if has_name(s, c.name) {
        let k = name_index(s, c.name);
        assert(t[k] == c);
        assert forall|i: int| 0 <= i < t.len() && (#[trigger] t[i]).name == c.name implies t[i] == c by {
            if i != k {
                assert(s[i].name == t[i].name);
            }
        }
        assert forall|i: int| 0 <= i < s.len() && (#[trigger] s[i]).name != c.name implies t.contains(s[i]) by {
            assert(t[i] == s[i]);
        }
    } else {
        assert(t[s.len() as int] == c);
        assert forall|i: int| 0 <= i < t.len() && (#[trigger] t[i]).name == c.name implies t[i] == c by {
            if i < s.len() {
                assert(s[i].name == t[i].name);
            }
        }
        assert forall|i: int| 0 <= i < s.len() && (#[trigger] s[i]).name != c.name implies t.contains(s[i]) by {
            assert(t[i] == s[i]);
        }
    }
}

} // verus!
