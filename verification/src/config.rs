//! Configured servers, in the order in which they were written.

use indexmap::IndexMap;
use vstd::prelude::*;

use crate::model;
use crate::text;

verus! {

#[verifier::ext_equal]
pub ghost struct ServerConfigView {
    pub username: Seq<char>,
    pub nickname: Seq<char>,
    pub password: Seq<char>,
    pub server: Seq<char>,
    pub use_tls: bool,
    pub port: u16,
    pub channels: Seq<Seq<char>>,
    pub queries: Seq<Seq<char>>,
}

/// Settings of one connection.
#[derive(Debug, PartialEq, Eq)]
pub struct ServerConfig {
    pub username: String,
    pub nickname: String,
    pub password: String,
    pub server: String,
    pub use_tls: bool,
    pub port: u16,
    /// Channels to join, in order.
    pub channels: Vec<String>,
    /// Nicknames of the private conversations to show at startup, in order.
    pub queries: Vec<String>,
}

impl View for ServerConfig {
    type V = ServerConfigView;

    open spec fn view(&self) -> ServerConfigView {
        ServerConfigView {
            username: self.username@,
            nickname: self.nickname@,
            password: self.password@,
            server: self.server@,
            use_tls: self.use_tls,
            port: self.port,
            channels: self.channels.deep_view(),
            queries: self.queries.deep_view(),
        }
    }
}

impl DeepView for ServerConfig {
    type V = ServerConfigView;

    open spec fn deep_view(&self) -> ServerConfigView {
        self@
    }
}

impl Clone for ServerConfig {
    fn clone(&self) -> (copy: Self)
        ensures
            copy@ == self@,
    {
        ServerConfig {
            username: self.username.clone(),
            nickname: self.nickname.clone(),
            password: self.password.clone(),
            server: self.server.clone(),
            use_tls: self.use_tls,
            port: self.port,
            channels: text::copied_all(&self.channels),
            queries: text::copied_all(&self.queries),
        }
    }
}

impl ServerConfig {
    /// The first channel in the configured list, if any.
    pub fn first_channel(&self) -> (channel: Option<&str>)
        ensures
            channel.deep_view() == (if self@.channels.len() > 0 {
                Some(self@.channels[0])
            } else {
                None
            }),
    {
        if self.channels.len() > 0 {
            Some(self.channels[0].as_str())
        } else {
            None
        }
    }
}

#[verifier::external_type_specification]
#[verifier::external_body]
#[verifier::reject_recursive_types(K)]
#[verifier::reject_recursive_types(V)]
#[verifier::reject_recursive_types(S)]
pub struct ExIndexMap<K, V, S>(IndexMap<K, V, S>);

/// The configured servers with their keys, in the order of the map.
pub uninterp spec fn configured(servers: IndexMap<String, ServerConfig>) -> Seq<
    (Seq<char>, ServerConfigView),
>;

/// Trusted: `IndexMap::get_index` gives the key and value at a position of the
/// map's order, and nothing at or past its length.
#[verifier::external_body]
pub(crate) fn entry_at(servers: &IndexMap<String, ServerConfig>, index: usize) -> (entry: Option<
    (&String, &ServerConfig),
>)
    ensures
        entry.deep_view() == (if index < configured(*servers).len() {
            Some(configured(*servers)[index as int])
        } else {
            None
        }),
{
    servers.get_index(index)
}

/// Trusted: `IndexMap::len` counts the entries.
#[verifier::external_body]
pub(crate) fn entry_count(servers: &IndexMap<String, ServerConfig>) -> (count: usize)
    ensures
        count == configured(*servers).len(),
{
    servers.len()
}

#[derive(Debug, PartialEq, Eq)]
pub enum ConfigError {
    /// Two server keys differ in letter case alone.
    DuplicateServer(String),
    /// A configured private conversation that is not with one nickname.
    InvalidQuery { server: String, nickname: String },
}

pub ghost enum ConfigErrorView {
    DuplicateServer(Seq<char>),
    InvalidQuery { server: Seq<char>, nickname: Seq<char> },
}

impl View for ConfigError {
    type V = ConfigErrorView;

    open spec fn view(&self) -> ConfigErrorView {
        match self {
            ConfigError::DuplicateServer(name) => ConfigErrorView::DuplicateServer(name@),
            ConfigError::InvalidQuery { server, nickname } => ConfigErrorView::InvalidQuery {
                server: server@,
                nickname: nickname@,
            },
        }
    }
}

/// The configuration: named servers.
///
/// The map keeps the order in which the servers were written, so the first
/// server is the one written first.
#[derive(Debug)]
pub struct Config {
    pub servers: IndexMap<String, ServerConfig>,
}

impl View for Config {
    type V = Seq<(Seq<char>, ServerConfigView)>;

    open spec fn view(&self) -> Seq<(Seq<char>, ServerConfigView)> {
        configured(self.servers)
    }
}

/// A key that an earlier server has too, but for ASCII case.
pub open spec fn repeats_key(servers: Seq<(Seq<char>, ServerConfigView)>, index: int) -> bool {
    exists|earlier: int|
        0 <= earlier < index && text::same_name((#[trigger] servers[earlier]).0, servers[index].0)
}

/// The first entry that is not a nickname.
pub open spec fn first_invalid_query(queries: Seq<Seq<char>>) -> Option<Seq<char>>
    decreases queries.len(),
{
    if queries.len() == 0 {
        None
    } else if !model::query_nickname(queries[0]) {
        Some(queries[0])
    } else {
        first_invalid_query(queries.drop_first())
    }
}

/// What is wrong with the server at `index`, if anything.
pub open spec fn server_error(
    servers: Seq<(Seq<char>, ServerConfigView)>,
    index: int,
) -> Option<ConfigErrorView> {
    let (name, server) = servers[index];
    if repeats_key(servers, index) {
        Some(ConfigErrorView::DuplicateServer(name))
    } else {
        match first_invalid_query(server.queries) {
            Some(nickname) => Some(ConfigErrorView::InvalidQuery { server: name, nickname }),
            None => None,
        }
    }
}

/// What is wrong with the first faulty server among the first `count`, if any is.
pub open spec fn first_error(
    servers: Seq<(Seq<char>, ServerConfigView)>,
    count: int,
) -> Option<ConfigErrorView>
    decreases count,
{
    if count <= 0 {
        None
    } else {
        match first_error(servers, count - 1) {
            Some(error) => Some(error),
            None => server_error(servers, count - 1),
        }
    }
}

proof fn lemma_first_error_stays(
    servers: Seq<(Seq<char>, ServerConfigView)>,
    count: int,
    more: int,
)
    requires
        count <= more,
        first_error(servers, count) is Some,
    ensures
        first_error(servers, more) == first_error(servers, count),
    decreases more - count,
{
    if count < more {
        lemma_first_error_stays(servers, count, more - 1);
    }
}

impl Config {
    /// The first server in the order of writing, with its name.
    pub fn first_server(&self) -> (first: Option<(&str, &ServerConfig)>)
        ensures
            first.deep_view() == (if self@.len() > 0 {
                Some(self@[0])
            } else {
                None
            }),
    {
        match entry_at(&self.servers, 0) {
            Some((name, server)) => Some((name.as_str(), server)),
            None => None,
        }
    }

    fn key_repeats(&self, index: usize, name: &str) -> (answer: bool)
        requires
            index < self@.len(),
            name@ == self@[index as int].0,
        ensures
            answer == repeats_key(self@, index as int),
    {
        let mut earlier: usize = 0;
        while earlier < index
            invariant
                earlier <= index < self@.len(),
                name@ == self@[index as int].0,
                forall|i: int|
                    0 <= i < earlier ==> !text::same_name((#[trigger] self@[i]).0, name@),
            decreases index - earlier,
        {
            match entry_at(&self.servers, earlier) {
                Some((other, _)) => {
                    assert(self@[earlier as int].0 == other@);
                    if text::names_match(other.as_str(), name) {
                        return true;
                    }
                },
                None => {},
            }
            earlier = earlier + 1;
        }
        false
    }

    /// Check what the settings promise beyond their types: keys that differ in
    /// more than letter case, and private conversations with single nicknames.
    pub fn validate(&self) -> (result: Result<(), ConfigError>)
        ensures
            match result {
                Ok(()) => first_error(self@, self@.len() as int) is None,
                Err(error) => first_error(self@, self@.len() as int) == Some(error@),
            },
    {
        let count: usize = entry_count(&self.servers);
        let mut index: usize = 0;
        while index < count
            invariant
                index <= count == self@.len(),
                first_error(self@, index as int) is None,
            decreases self@.len() - index,
        {
            let (name, server) = match entry_at(&self.servers, index) {
                Some(entry) => entry,
                None => return Ok(()),
            };
            assert(self@[index as int] == (name@, server@));
            if self.key_repeats(index, name.as_str()) {
                proof {
                    lemma_first_error_stays(self@, index + 1, self@.len() as int);
                }
                return Err(ConfigError::DuplicateServer(name.clone()));
            }
            let mut query: usize = 0;
            assert(server@.queries.skip(0) =~= server@.queries);
            while query < server.queries.len()
                invariant
                    query <= server.queries.len(),
                    index < count == self@.len(),
                    self@[index as int] == (name@, server@),
                    !repeats_key(self@, index as int),
                    first_error(self@, index as int) is None,
                    first_invalid_query(server@.queries) == first_invalid_query(
                        server@.queries.skip(query as int),
                    ),
                decreases server.queries.len() - query,
            {
                let ghost rest = server@.queries.skip(query as int);
                assert(rest[0] == server.queries@[query as int]@);
                if !model::valid_query_nickname(server.queries[query].as_str()) {
                    proof {
                        lemma_first_error_stays(self@, index + 1, self@.len() as int);
                    }
                    return Err(
                        ConfigError::InvalidQuery {
                            server: name.clone(),
                            nickname: server.queries[query].clone(),
                        },
                    );
                }
                assert(rest.drop_first() =~= server@.queries.skip(query as int + 1));
                query = query + 1;
            }
            index = index + 1;
        }
        Ok(())
    }
}

/// In a valid configuration no two keys are the same but for ASCII case.
pub proof fn law_valid_settings_keep_servers_apart(
    servers: Seq<(Seq<char>, ServerConfigView)>,
    i: int,
    j: int,
)
    requires
        first_error(servers, servers.len() as int) is None,
        0 <= i < j < servers.len(),
    ensures
        !text::same_name(servers[i].0, servers[j].0),
{
    lemma_no_error(servers, servers.len() as int, j);
    assert(!repeats_key(servers, j));
}

proof fn lemma_no_error(servers: Seq<(Seq<char>, ServerConfigView)>, count: int, index: int)
    requires
        first_error(servers, count) is None,
        0 <= index < count,
    ensures
        server_error(servers, index) is None,
    decreases count,
{
    if index < count - 1 {
        lemma_no_error(servers, count - 1, index);
    }
}

/// In a valid configuration every configured private conversation is with one
/// nickname.
pub proof fn law_valid_settings_name_single_peers(
    servers: Seq<(Seq<char>, ServerConfigView)>,
    index: int,
    query: int,
)
    requires
        first_error(servers, servers.len() as int) is None,
        0 <= index < servers.len(),
        0 <= query < servers[index].1.queries.len(),
    ensures
        model::query_nickname(servers[index].1.queries[query]),
{
    lemma_no_error(servers, servers.len() as int, index);
    lemma_all_valid(servers[index].1.queries, query);
}

proof fn lemma_all_valid(queries: Seq<Seq<char>>, query: int)
    requires
        first_invalid_query(queries) is None,
        0 <= query < queries.len(),
    ensures
        model::query_nickname(queries[query]),
    decreases queries.len(),
{
    if query > 0 {
        lemma_all_valid(queries.drop_first(), query - 1);
    }
}

/// Settings are refused exactly if a key is there twice but for ASCII case, or a
/// configured peer cannot have a private conversation; the error is about the first
/// server with such a fault, and about its key before its peers.
pub proof fn law_faulty_settings_are_refused(
    servers: Seq<(Seq<char>, ServerConfigView)>,
    i: int,
    k: int,
)
    requires
        0 <= i < servers.len(),
        forall|j: int|
            0 <= j < i ==> #[trigger] server_error(servers, j) is None,
    ensures
        repeats_key(servers, i) ==> first_error(servers, servers.len() as int) == Some(
            ConfigErrorView::DuplicateServer(servers[i].0),
        ),
        !repeats_key(servers, i) && 0 <= k < servers[i].1.queries.len() && !model::query_nickname(
            servers[i].1.queries[k],
        ) && (forall|q: int|
            0 <= q < k ==> model::query_nickname(#[trigger] servers[i].1.queries[q]))
            ==> first_error(servers, servers.len() as int) == Some(
            ConfigErrorView::InvalidQuery {
                server: servers[i].0,
                nickname: servers[i].1.queries[k],
            },
        ),
        (forall|j: int| 0 <= j < servers.len() ==> #[trigger] server_error(servers, j) is None)
            ==> first_error(servers, servers.len() as int) is None,
{
    lemma_none_before(servers, i);
    if repeats_key(servers, i) {
        lemma_first_error_stays(servers, i + 1, servers.len() as int);
    }
    let queries = servers[i].1.queries;
    if !repeats_key(servers, i) && 0 <= k < queries.len() && !model::query_nickname(queries[k]) && (
    forall|q: int| 0 <= q < k ==> model::query_nickname(#[trigger] queries[q])) {
        lemma_first_invalid(queries, k);
        lemma_first_error_stays(servers, i + 1, servers.len() as int);
    }
    if forall|j: int| 0 <= j < servers.len() ==> #[trigger] server_error(servers, j) is None {
        lemma_none_before(servers, servers.len() as int);
    }
}

proof fn lemma_none_before(servers: Seq<(Seq<char>, ServerConfigView)>, count: int)
    requires
        forall|j: int| 0 <= j < count ==> #[trigger] server_error(servers, j) is None,
    ensures
        first_error(servers, count) is None,
    decreases count,
{
    if count > 0 {
        lemma_none_before(servers, count - 1);
    }
}

proof fn lemma_first_invalid(queries: Seq<Seq<char>>, k: int)
    requires
        0 <= k < queries.len(),
        !model::query_nickname(queries[k]),
        forall|q: int| 0 <= q < k ==> model::query_nickname(#[trigger] queries[q]),
    ensures
        first_invalid_query(queries) == Some(queries[k]),
    decreases k,
{
    if k > 0 {
        assert(model::query_nickname(queries[0]));
        let rest = queries.drop_first();
        assert forall|q: int| 0 <= q < k - 1 implies model::query_nickname(#[trigger] rest[q]) by {
            assert(rest[q] == queries[q + 1]);
        }
        lemma_first_invalid(rest, k - 1);
    }
}

/// A key is repeated exactly if an earlier server has it too but for ASCII case.
pub proof fn law_keys_are_compared_without_case(
    servers: Seq<(Seq<char>, ServerConfigView)>,
    i: int,
    j: int,
)
    requires
        0 <= i < j < servers.len(),
    ensures
        text::same_name(servers[i].0, servers[j].0) ==> repeats_key(servers, j),
        (forall|e: int|
            0 <= e < j ==> !text::same_name((#[trigger] servers[e]).0, servers[j].0))
            ==> !repeats_key(servers, j),
{
}

} // verus!
