//! The manager: it owns every provider connection and the tool registry,
//! builds both from the providers' startups, and decides where each tool call
//! goes. Starting processes and exchanging messages with them is left to the
//! caller, which hands in what came back; the connection type `C` is the
//! caller's own.
use vstd::prelude::*;
use crate::catalog::{descriptions_of, names_of, tool_descriptions, tool_entries, tool_names, ToolDescription};
use crate::registry::{lemma_registered, registered, ToolRegistry};

verus! {

/// Why starting providers or calling a tool failed.
#[derive(Debug)]
pub enum ManagerError {
    /// The provider's process could not be started, or its handshake failed.
    ProviderStartup { provider: String, message: String },
    /// The provider's session was closed or unreachable.
    Transport { provider: String, message: String },
    /// The provider answered with something malformed.
    Protocol { provider: String, message: String },
    /// No provider registered a tool under this name.
    ToolNotFound { tool: String },
    /// The tool's provider holds no connection.
    ProviderMissing { provider: String, tool: String },
    /// The provider ran the tool and reported a failure.
    ToolInvocation { tool: String, message: String },
}

/// A provider that was started: its name, its live connection and its answer
/// to `tools/list`.
pub struct ProviderSession<C> {
    pub name: String,
    pub connection: C,
    pub tools_response: serde_json::Value,
}

/// A call that is ready to be sent: the tool's provider and its connection, the
/// provider's own id of the tool, and the arguments.
pub struct ToolCall<'a, C> {
    pub provider: String,
    pub connection: &'a C,
    pub tool_id: String,
    pub arguments: serde_json::Value,
}

/// The connection held for `provider`: the one added last under that name.
pub open spec fn connection_of<C>(providers: Seq<(Seq<char>, C)>, provider: Seq<char>) -> Option<C>
    decreases providers.len(),
{
    if providers.len() == 0 {
        None
    } else if providers.last().0 == provider {
        Some(providers.last().1)
    } else {
        connection_of(providers.drop_last(), provider)
    }
}

/// The tool names that a started provider advertises.
pub open spec fn advertised<C>(session: ProviderSession<C>) -> Seq<Seq<char>> {
    names_of(tool_entries(session.tools_response))
}

/// The registry after the sessions register their tools, in order.
pub open spec fn tools_after<C>(sessions: Seq<ProviderSession<C>>) -> Map<
    Seq<char>,
    (Seq<char>, Seq<char>),
>
    decreases sessions.len(),
{
    if sessions.len() == 0 {
        Map::empty()
    } else {
        registered(
            tools_after(sessions.drop_last()),
            sessions.last().name@,
            advertised(sessions.last()),
        )
    }
}

/// The (name, connection) pairs of the sessions, in order.
pub open spec fn providers_of<C>(sessions: Seq<ProviderSession<C>>) -> Seq<(Seq<char>, C)> {
    sessions.map_values(|s: ProviderSession<C>| (s.name@, s.connection))
}

/// The sessions of startups that all succeeded.
pub open spec fn started<C>(startups: Seq<Result<ProviderSession<C>, ManagerError>>) -> Seq<
    ProviderSession<C>,
> {
    startups.map_values(|r: Result<ProviderSession<C>, ManagerError>| r->Ok_0)
}

/// When providers advertise the same tool name, the registry built from them
/// holds that name once, for the last provider that advertised it, under the
/// same id.
pub proof fn lemma_last_registration_wins<C>(sessions: Seq<ProviderSession<C>>, key: Seq<char>, j: int)
    requires
        0 <= j < sessions.len(),
        advertised(sessions[j]).contains(key),
        forall|l: int| j < l < sessions.len() ==> !(#[trigger] advertised(sessions[l])).contains(key),
    ensures
        tools_after(sessions).contains_key(key),
        tools_after(sessions)[key] == (sessions[j].name@, key),
    decreases sessions.len(),
{
    let rest = sessions.drop_last();
    lemma_registered(tools_after(rest), sessions.last().name@, advertised(sessions.last()), key);
    if j < sessions.len() - 1 {
        assert(!advertised(sessions[sessions.len() - 1]).contains(key));
        assert(rest[j] == sessions[j]);
        assert forall|l: int| j < l < rest.len() implies !(#[trigger] advertised(rest[l])).contains(key) by {
            assert(rest[l] == sessions[l]);
        }
        lemma_last_registration_wins(rest, key, j);
    }
}

/// A name that no provider advertises is not in the registry built from them.
pub proof fn lemma_unadvertised_absent<C>(sessions: Seq<ProviderSession<C>>, key: Seq<char>)
    requires
        forall|l: int| 0 <= l < sessions.len() ==> !(#[trigger] advertised(sessions[l])).contains(key),
    ensures
        !tools_after(sessions).contains_key(key),
    decreases sessions.len(),
{
    if sessions.len() > 0 {
        let rest = sessions.drop_last();
        assert(!advertised(sessions[sessions.len() - 1]).contains(key));
        lemma_registered(tools_after(rest), sessions.last().name@, advertised(sessions.last()), key);
        assert forall|l: int| 0 <= l < rest.len() implies !(#[trigger] advertised(rest[l])).contains(key) by {
            assert(rest[l] == sessions[l]);
        }
        lemma_unadvertised_absent(rest, key);
    }
}

/// When no two providers advertise the same name, each advertised name is
/// registered for exactly the provider that advertised it, under the same id.
pub proof fn lemma_distinct_names_resolve<C>(sessions: Seq<ProviderSession<C>>, i: int, key: Seq<char>)
    requires
        0 <= i < sessions.len(),
        advertised(sessions[i]).contains(key),
        forall|a: int, b: int, k: Seq<char>|
            0 <= a < b < sessions.len() ==> !(#[trigger] advertised(sessions[a]).contains(k)
                && #[trigger] advertised(sessions[b]).contains(k)),
    ensures
        tools_after(sessions).contains_key(key),
        tools_after(sessions)[key] == (sessions[i].name@, key),
{
    assert forall|l: int| i < l < sessions.len() implies !(#[trigger] advertised(sessions[l])).contains(key) by {
        assert(!(advertised(sessions[i]).contains(key) && advertised(sessions[l]).contains(key)));
    }
    lemma_last_registration_wins(sessions, key, i);
}

/// Routes tool calls to the providers that host them.
pub struct MCPClientManager<C> {
    clients: Vec<(String, C)>,
    tool_mapping: ToolRegistry,
}

impl<C> MCPClientManager<C> {
    /// The providers held, with their connections, in the order they were added.
    pub closed spec fn providers(&self) -> Seq<(Seq<char>, C)> {
        self.clients@.map_values(|p: (String, C)| (p.0@, p.1))
    }

    /// The registry: tool key to (provider, tool id).
    pub closed spec fn tools(&self) -> Map<Seq<char>, (Seq<char>, Seq<char>)> {
        self.tool_mapping@
    }

    /// Every registered tool's provider holds a connection.
    pub open spec fn wf(&self) -> bool {
        forall|k: Seq<char>|
            #![trigger self.tools()[k]]
            self.tools().contains_key(k) ==> connection_of(self.providers(), self.tools()[k].0) is Some
    }

    /// A manager that holds no provider yet.
    pub fn empty() -> (r: Self)
        ensures
            r.providers() == Seq::<(Seq<char>, C)>::empty(),
            r.tools() == Map::<Seq<char>, (Seq<char>, Seq<char>)>::empty(),
            r.wf(),
    {
        let r = MCPClientManager { clients: Vec::new(), tool_mapping: ToolRegistry::new() };
        assert(r.providers() =~= Seq::<(Seq<char>, C)>::empty());
        r
    }

    /// Registers the tools that `session` advertises under its name, then keeps
    /// its connection.
    pub fn add_provider(&mut self, session: ProviderSession<C>)
        ensures
            final(self).providers() == old(self).providers().push(
                (session.name@, session.connection),
            ),
            final(self).tools() == registered(old(self).tools(), session.name@, advertised(session)),
            old(self).wf() ==> final(self).wf(),
    {
        let ghost before = *self;
        let ids = tool_names(&session.tools_response);
        self.tool_mapping.register(&session.name, &ids);
        self.clients.push((session.name, session.connection));
        assert(self.providers() =~= before.providers().push((session.name@, session.connection)));
        assert(self.providers().drop_last() == before.providers());
        assert forall|k: Seq<char>|
            #![trigger self.tools()[k]]
            before.wf() && self.tools().contains_key(k) implies connection_of(
                self.providers(),
                self.tools()[k].0,
            ) is Some by {
            lemma_registered(before.tools(), session.name@, advertised(session), k);
            if self.tools()[k].0 != session.name@ {
                assert(before.tools().contains_key(k));
                assert(connection_of(before.providers(), before.tools()[k].0) is Some);
            }
        }
    }

    /// Builds the manager from the outcome of each provider's startup, taken
    /// in order. A single failed startup fails the whole: its error is
    /// returned, the first one, and every connection handed in is released.
    pub fn new(startups: Vec<Result<ProviderSession<C>, ManagerError>>) -> (r: Result<Self, ManagerError>)
        ensures
            match r {
                Ok(m) => {
                    &&& forall|i: int| 0 <= i < startups@.len() ==> (#[trigger] startups@[i]) is Ok
                    &&& m.providers() == providers_of(started(startups@))
                    &&& m.tools() == tools_after(started(startups@))
                    &&& m.wf()
                },
                Err(e) => exists|i: int|
                    0 <= i < startups@.len() && startups@[i] == Err::<ProviderSession<C>, ManagerError>(e)
                        && forall|j: int| 0 <= j < i ==> (#[trigger] startups@[j]) is Ok,
            },
    {
        let ghost all = startups@;
        let mut rest = startups;
        let mut manager = Self::empty();
        let ghost mut done: int = 0;
        assert(started(all.take(0)) =~= Seq::<ProviderSession<C>>::empty());
        assert(providers_of(Seq::<ProviderSession<C>>::empty()) =~= Seq::<(Seq<char>, C)>::empty());
        while rest.len() > 0
            invariant
                0 <= done <= all.len(),
                all == startups@,
                rest@ == all.subrange(done, all.len() as int),
                forall|j: int| 0 <= j < done ==> (#[trigger] all[j]) is Ok,
                manager.providers() == providers_of(started(all.take(done))),
                manager.tools() == tools_after(started(all.take(done))),
                manager.wf(),
            decreases rest@.len(),
        {
            let next = rest.remove(0);
            assert(next == all[done]);
            match next {
                Err(e) => {
                    assert(all[done] == Err::<ProviderSession<C>, ManagerError>(e));
                    return Err(e);
                },
                Ok(session) => {
                    let ghost prev = started(all.take(done));
                    manager.add_provider(session);
                    proof {
                        let now = started(all.take(done + 1));
                        assert(now =~= prev.push(session));
                        assert(now.drop_last() == prev);
                        assert(providers_of(now) =~= providers_of(prev).push(
                            (session.name@, session.connection),
                        ));
                        done = done + 1;
                    }
                },
            }
        }
        assert(all.take(done) == all);
        Ok(manager)
    }

    /// The connection held for `provider`.
    fn connection(&self, provider: &String) -> (r: Option<&C>)
        ensures
            match r {
                Some(c) => connection_of(self.providers(), provider@) == Some(*c),
                None => connection_of(self.providers(), provider@) is None,
            },
    {
        let mut i: usize = self.clients.len();
        assert(self.providers().take(i as int) == self.providers());
        while i > 0
            invariant
                i <= self.clients@.len(),
                connection_of(self.providers(), provider@) == connection_of(
                    self.providers().take(i as int),
                    provider@,
                ),
            decreases i,
        {
            assert(self.providers().take(i as int).drop_last() == self.providers().take(
                i as int - 1,
            ));
            if self.clients[i - 1].0 == *provider {
                assert(self.providers().take(i as int).last() == self.providers()[i - 1]);
                return Some(&self.clients[i - 1].1);
            }
            i = i - 1;
        }
        None
    }

    /// The provider and provider-local id of the tool registered as `tool_name`.
    pub fn resolve(&self, tool_name: &str) -> (r: Option<(String, String)>)
        ensures
            match r {
                Some((provider, tool_id)) => self.tools().contains_key(tool_name@)
                    && self.tools()[tool_name@] == (provider@, tool_id@),
                None => !self.tools().contains_key(tool_name@),
            },
    {
        self.tool_mapping.resolve(tool_name)
    }

    /// Prepares the call of `tool_name` with `arguments`: the tool's provider
    /// and its connection, the provider's id of the tool and the arguments, untouched.
    /// An unregistered name hands out no connection.
    pub fn call_tool(&self, tool_name: &str, arguments: serde_json::Value) -> (r: Result<
        ToolCall<'_, C>,
        ManagerError,
    >)
        ensures
            !self.tools().contains_key(tool_name@) ==> (r matches Err(
                ManagerError::ToolNotFound { tool },
            ) && tool@ == tool_name@),
            self.tools().contains_key(tool_name@) ==> match connection_of(
                self.providers(),
                self.tools()[tool_name@].0,
            ) {
                Some(c) => r matches Ok(call) && call.provider@ == self.tools()[tool_name@].0
                    && *call.connection == c && call.tool_id@
                    == self.tools()[tool_name@].1 && call.arguments == arguments,
                None => r matches Err(ManagerError::ProviderMissing { provider, tool })
                    && provider@ == self.tools()[tool_name@].0 && tool@ == tool_name@,
            },
            self.wf() ==> !(r matches Err(ManagerError::ProviderMissing { .. })),
    {
        match self.resolve(tool_name) {
            None => Err(ManagerError::ToolNotFound { tool: tool_name.to_owned() }),
            Some((provider, tool_id)) => match self.connection(&provider) {
                None => Err(ManagerError::ProviderMissing { provider, tool: tool_name.to_owned() }),
                Some(connection) => Ok(ToolCall { provider, connection, tool_id, arguments }),
            },
        }
    }

    /// The connection whose catalog is listed: that of the first provider
    /// added; none when the manager holds no provider.
    pub fn catalog_provider(&self) -> (r: Option<&C>)
        ensures
            match r {
                Some(c) => self.providers().len() > 0 && *c == self.providers()[0].1,
                None => self.providers().len() == 0,
            },
    {
        if self.clients.len() == 0 {
            None
        } else {
            Some(&self.clients[0].1)
        }
    }

    /// The tools to present, from the `tools/list` answer of the catalog
    /// provider; none when there is no such provider.
    pub fn get_available_tools(catalog: Option<&serde_json::Value>) -> (r: Vec<ToolDescription>)
        ensures
            match catalog {
                Some(response) => r@.map_values(|d: ToolDescription| d@) == descriptions_of(
                    tool_entries(*response),
                ),
                None => r@.len() == 0,
            },
    {
        match catalog {
            Some(response) => tool_descriptions(response),
            None => Vec::new(),
        }
    }
}

} // verus!
