//! Plugins for agents: hooks, and other kinds of agents.
use vstd::prelude::*;
use vstd::string::*;

use crate::ordered;
use crate::ordered::OrderedMap;
use crate::plugin::hooks;
use crate::plugin::hooks::{MergedHooks, NamedHook};
use crate::text;

verus! {

/// What can go wrong with plugins for agents.
#[derive(Debug, PartialEq)]
pub enum AgentPluginError {
    DuplicateAgentPlugin(String),
    AgentPluginNotFound(String),
    BuildFailed(String),
}

impl AgentPluginError {
    /// The text of the error.
    pub open spec fn text(self) -> Seq<char> {
        match self {
            AgentPluginError::DuplicateAgentPlugin(id) => "agent plugin already registered: "@
                + id@,
            AgentPluginError::AgentPluginNotFound(id) => "agent plugin not found: "@ + id@,
            AgentPluginError::BuildFailed(e) => "agent factory build failed: "@ + e@,
        }
    }

    /// The text of the error.
    pub fn message(&self) -> (r: String)
        ensures
            r@ == self.text(),
    {
        match self {
            AgentPluginError::DuplicateAgentPlugin(
                id,
            ) => "agent plugin already registered: ".to_owned().concat(id.as_str()),
            AgentPluginError::AgentPluginNotFound(
                id,
            ) => "agent plugin not found: ".to_owned().concat(id.as_str()),
            AgentPluginError::BuildFailed(e) => "agent factory build failed: ".to_owned().concat(
                e.as_str(),
            ),
        }
    }
}

/// A plugin for agents: it may bring hooks, and it may bring a maker of agents.
pub trait AgentPlugin {
    type Hooks;

    type Factory;

    /// The name of the plugin, always the same.
    fn id(&self) -> (r: &str);

    /// The hooks that it brings.
    fn hooks(&self) -> (r: Option<Self::Hooks>);

    /// The maker of agents that it brings.
    fn agent_factory(&self) -> (r: Option<Self::Factory>);
}

/// The plugins for agents of a process, by name.
#[derive(Debug)]
pub struct AgentPluginRegistry<A> {
    pub plugins: OrderedMap<A>,
}

impl<A: AgentPlugin> Default for AgentPluginRegistry<A> {
    fn default() -> (r: Self)
        ensures
            r.wf(),
            r.plugins@ == Map::<Seq<char>, A>::empty(),
    {
        AgentPluginRegistry::new()
    }
}

impl<A: AgentPlugin> AgentPluginRegistry<A> {
    /// The plugins are in the order of their names.
    pub open spec fn wf(self) -> bool {
        self.plugins.wf()
    }

    /// No plugins.
    pub fn new() -> (r: Self)
        ensures
            r.wf(),
            r.plugins@ == Map::<Seq<char>, A>::empty(),
    {
        AgentPluginRegistry { plugins: OrderedMap::new() }
    }

    /// Registers a plugin; a name that is taken is refused.
    pub fn register(&mut self, plugin: A) -> (r: Result<(), AgentPluginError>)
        requires
            old(self).wf(),
            call_requires(A::id, (&plugin,)),
        ensures
            final(self).wf(),
            exists|id: &str| #[trigger]
                call_ensures(A::id, (&plugin,), id) && match r {
                    Ok(_) => !old(self).plugins@.contains_key(id@) && final(self).plugins@
                        == old(self).plugins@.insert(id@, plugin),
                    Err(e) => old(self).plugins@.contains_key(id@) && *final(self) == *old(self)
                        && (e matches AgentPluginError::DuplicateAgentPlugin(d) && d@ == id@),
                },
    {
        let id = plugin.id();
        let key = id.to_owned();
        assert(call_ensures(A::id, (&plugin,), id));
        if self.plugins.contains(id) {
            return Err(AgentPluginError::DuplicateAgentPlugin(key));
        }
        let added = self.plugins.insert_new(key, plugin);
        assert(added is Ok);
        Ok(())
    }

    /// Takes a plugin out.
    pub fn unregister(&mut self, id: &str) -> (r: Option<A>)
        requires
            old(self).wf(),
        ensures
            final(self).wf(),
            final(self).plugins@ == old(self).plugins@.remove(id@),
            match r {
                Some(p) => old(self).plugins@.contains_key(id@) && p == old(self).plugins@[id@],
                None => !old(self).plugins@.contains_key(id@),
            },
    {
        self.plugins.remove(id)
    }

    /// The plugin of a name.
    pub fn get(&self, id: &str) -> (r: Option<&A>)
        requires
            self.wf(),
        ensures
            match r {
                Some(p) => self.plugins@.contains_key(id@) && *p == self.plugins@[id@],
                None => !self.plugins@.contains_key(id@),
            },
    {
        self.plugins.get(id)
    }

    /// The names of the plugins, in their order.
    pub fn list(&self) -> (r: Vec<String>)
        ensures
            text::texts(r@) == ordered::keys_of(self.plugins.entries@),
    {
        self.plugins.keys()
    }

    /// The maker of agents that the plugin of a name brings, if it brings one.
    pub fn agent_factory(&self, id: &str) -> (r: Option<A::Factory>)
        requires
            self.wf(),
            self.plugins@.contains_key(id@) ==> call_requires(
                A::agent_factory,
                (&self.plugins@[id@],),
            ),
        ensures
            if self.plugins@.contains_key(id@) {
                call_ensures(A::agent_factory, (&self.plugins@[id@],), r)
            } else {
                r is None
            },
    {
        match self.plugins.get(id) {
            Some(plugin) => plugin.agent_factory(),
            None => None,
        }
    }

    /// The hooks of all plugins together; `None` if no plugin brings any.
    pub fn merged_hooks(&self) -> (r: Option<MergedHooks<A::Hooks>>)
        requires
            forall|i: int|
                0 <= i < self.plugins.entries@.len() ==> {
                    &&& call_requires(A::hooks, (&(#[trigger] self.plugins.entries@[i]).value,))
                    &&& call_requires(A::id, (&self.plugins.entries@[i].value,))
                },
        ensures
            exists|found: Seq<NamedHook<A::Hooks>>|
                {
                    &&& #[trigger] gathered(self.plugins.entries@, found, self.plugins.entries@.len() as int)
                    &&& match r {
                        Some(m) => found.len() > 0 && m.hooks@ == hooks::by_name(found),
                        None => found.len() == 0,
                    }
                },
    {
        let mut found: Vec<NamedHook<A::Hooks>> = Vec::new();
        let mut i: usize = 0;
        while i < self.plugins.entries.len()
            invariant
                i <= self.plugins.entries@.len(),
                forall|k: int|
                    0 <= k < self.plugins.entries@.len() ==> {
                        &&& call_requires(
                            A::hooks,
                            (&(#[trigger] self.plugins.entries@[k]).value,),
                        )
                        &&& call_requires(A::id, (&self.plugins.entries@[k].value,))
                    },
                gathered(self.plugins.entries@, found@, i as int),
            decreases self.plugins.entries@.len() - i,
        {
            let plugin = &self.plugins.entries[i].value;
            let ghost before = found@;
            match plugin.hooks() {
                Some(hook) => {
                    let id = plugin.id().to_owned();
                    found.push(NamedHook { id, hook });
                    assert(found@.drop_last() =~= before);
                },
                None => {},
            }
            i += 1;
        }
        if found.len() == 0 {
            return None;
        }
        Some(MergedHooks::new(found))
    }
}

/// Whether `found` are the hooks that the first `n` plugins brought, each with the name of its
/// plugin.
pub open spec fn gathered<A: AgentPlugin>(
    entries: Seq<ordered::Entry<A>>,
    found: Seq<NamedHook<A::Hooks>>,
    n: int,
) -> bool
    decreases n,
{
    if n <= 0 {
        found.len() == 0
    } else {
        let plugin = entries[n - 1].value;
        ||| call_ensures(A::hooks, (&plugin,), None) && gathered(entries, found, n - 1)
        ||| {
            &&& found.len() > 0
            &&& call_ensures(A::hooks, (&plugin,), Some(found.last().hook))
            &&& exists|id: &str| #[trigger]
                call_ensures(A::id, (&plugin,), id) && found.last().id@ == id@
            &&& gathered(entries, found.drop_last(), n - 1)
        }
    }
}

/// Whether the hook `k` of `found` is that of the plugin at `at[k]`, with its name, for each `k`; the
/// plugins are taken in their order, and one that is passed over brings no hooks.
pub open spec fn taken_from<A: AgentPlugin>(
    entries: Seq<ordered::Entry<A>>,
    found: Seq<NamedHook<A::Hooks>>,
    at: Seq<int>,
) -> bool {
    &&& at.len() == found.len()
    &&& forall|i: int, j: int| 0 <= i < j < at.len() ==> #[trigger] at[i] < #[trigger] at[j]
    &&& forall|k: int|
        0 <= k < at.len() ==> {
            &&& 0 <= #[trigger] at[k] < entries.len()
            &&& call_ensures(A::hooks, (&entries[at[k]].value,), Some(found[k].hook))
            &&& exists|id: &str| #[trigger]
                call_ensures(A::id, (&entries[at[k]].value,), id) && found[k].id@ == id@
        }
    &&& forall|i: int|
        0 <= i < entries.len() && !at.contains(i) ==> call_ensures(
            A::hooks,
            (&(#[trigger] entries[i]).value,),
            None,
        )
}

/// Every plugin that brings hooks takes part with them, under its name, and no other does.
pub proof fn law_every_hook_is_gathered<A: AgentPlugin>(
    entries: Seq<ordered::Entry<A>>,
    found: Seq<NamedHook<A::Hooks>>,
) -> (at: Seq<int>)
    requires
        gathered(entries, found, entries.len() as int),
    ensures
        taken_from(entries, found, at),
    decreases entries.len(),
{
    let n = entries.len() as int;
    if n == 0 {
        Seq::empty()
    } else {
        let init = entries.drop_last();
        let plugin = entries[n - 1].value;
        if call_ensures(A::hooks, (&plugin,), None) && gathered(entries, found, n - 1) {
            lemma_gathered_prefix(entries, init, found, n - 1);
            let at = law_every_hook_is_gathered(init, found);
            lemma_taken_none(entries, found, at);
            at
        } else {
            let less = found.drop_last();
            lemma_gathered_prefix(entries, init, less, n - 1);
            let before = law_every_hook_is_gathered(init, less);
            assert(entries.last() == entries[n - 1]);
            let id = choose|id: &str| #[trigger]
                call_ensures(A::id, (&plugin,), id) && found.last().id@ == id@;
            assert(call_ensures(A::id, (&entries.last().value,), id));
            lemma_taken_one(entries, found, before);
            before.push(n - 1)
        }
    }
}

proof fn lemma_taken_none<A: AgentPlugin>(
    entries: Seq<ordered::Entry<A>>,
    found: Seq<NamedHook<A::Hooks>>,
    at: Seq<int>,
)
    requires
        entries.len() > 0,
        taken_from(entries.drop_last(), found, at),
        call_ensures(A::hooks, (&entries.last().value,), None),
    ensures
        taken_from(entries, found, at),
{
    let init = entries.drop_last();
    assert forall|k: int| 0 <= k < at.len() implies {
        &&& 0 <= #[trigger] at[k] < entries.len()
        &&& call_ensures(A::hooks, (&entries[at[k]].value,), Some(found[k].hook))
        &&& exists|id: &str| #[trigger]
            call_ensures(A::id, (&entries[at[k]].value,), id) && found[k].id@ == id@
    } by {
        assert(init[at[k]] == entries[at[k]]);
    }
    assert forall|i: int| 0 <= i < entries.len() && !at.contains(i) implies call_ensures(
        A::hooks,
        (&(#[trigger] entries[i]).value,),
        None,
    ) by {
        if i < init.len() {
            assert(init[i] == entries[i]);
        }
    }
}

proof fn lemma_taken_one<A: AgentPlugin>(
    entries: Seq<ordered::Entry<A>>,
    found: Seq<NamedHook<A::Hooks>>,
    before: Seq<int>,
)
    requires
        entries.len() > 0,
        found.len() > 0,
        taken_from(entries.drop_last(), found.drop_last(), before),
        call_ensures(A::hooks, (&entries.last().value,), Some(found.last().hook)),
        exists|id: &str| #[trigger]
            call_ensures(A::id, (&entries.last().value,), id) && found.last().id@ == id@,
    ensures
        taken_from(entries, found, before.push(entries.len() - 1)),
{
    let init = entries.drop_last();
    let less = found.drop_last();
    let at = before.push(entries.len() - 1);
    assert forall|i: int, j: int| 0 <= i < j < at.len() implies #[trigger] at[i]
        < #[trigger] at[j] by {
        assert(at[i] == before[i]);
        if j < before.len() {
            assert(at[j] == before[j]);
        }
    }
    assert forall|k: int| 0 <= k < at.len() implies {
        &&& 0 <= #[trigger] at[k] < entries.len()
        &&& call_ensures(A::hooks, (&entries[at[k]].value,), Some(found[k].hook))
        &&& exists|id: &str| #[trigger]
            call_ensures(A::id, (&entries[at[k]].value,), id) && found[k].id@ == id@
    } by {
        if k < before.len() {
            assert(at[k] == before[k]);
            assert(less[k] == found[k]);
            assert(init[before[k]] == entries[before[k]]);
        } else {
            assert(found[k] == found.last());
        }
    }
    assert forall|i: int| 0 <= i < entries.len() && !at.contains(i) implies call_ensures(
        A::hooks,
        (&(#[trigger] entries[i]).value,),
        None,
    ) by {
        assert(at[before.len() as int] == entries.len() - 1);
        assert(i < init.len());
        if before.contains(i) {
            let k = choose|k: int| 0 <= k < before.len() && before[k] == i;
            assert(at[k] == i);
        }
        assert(init[i] == entries[i]);
    }
}

proof fn lemma_gathered_prefix<A: AgentPlugin>(
    entries: Seq<ordered::Entry<A>>,
    init: Seq<ordered::Entry<A>>,
    found: Seq<NamedHook<A::Hooks>>,
    n: int,
)
    requires
        gathered(entries, found, n),
        n <= init.len() <= entries.len(),
        forall|i: int| 0 <= i < init.len() ==> #[trigger] init[i] == entries[i],
    ensures
        gathered(init, found, n),
    decreases n,
{
    if n > 0 {
        assert(init[n - 1] == entries[n - 1]);
        let plugin = entries[n - 1].value;
        if call_ensures(A::hooks, (&plugin,), None) && gathered(entries, found, n - 1) {
            lemma_gathered_prefix(entries, init, found, n - 1);
        } else {
            lemma_gathered_prefix(entries, init, found.drop_last(), n - 1);
        }
    }
}

/// A plugin is registered under its own name, once; a name that is taken is refused and nothing
/// changes. No other plugin is touched.
pub proof fn law_plugins_are_registered_once<A: AgentPlugin>()
    ensures
        forall|plugins: &mut AgentPluginRegistry<A>, plugin: A, r: Result<(), AgentPluginError>|
            plugins.wf() && call_requires(A::id, (&plugin,)) && #[trigger] call_ensures(
                AgentPluginRegistry::<A>::register,
                (plugins, plugin),
                r,
            ) ==> {
                &&& r is Err ==> final(plugins).plugins@ == plugins.plugins@
                &&& r is Ok ==> exists|id: &str| #[trigger]
                    call_ensures(A::id, (&plugin,), id) && !plugins.plugins@.contains_key(id@)
                        && final(plugins).plugins@.contains_key(id@) && final(plugins).plugins@[id@]
                        == plugin && final(plugins).plugins@.remove(id@) == plugins.plugins@
            },
        forall|plugins: &mut AgentPluginRegistry<A>, id: &str, r: Option<A>|
            plugins.wf() && #[trigger] call_ensures(
                AgentPluginRegistry::<A>::unregister,
                (plugins, id),
                r,
            ) ==> {
                &&& r is Some <==> plugins.plugins@.contains_key(id@)
                &&& !final(plugins).plugins@.contains_key(id@)
                &&& r matches Some(p) ==> final(plugins).plugins@.insert(id@, p) == plugins.plugins@
            },
{
    assert forall|a: Map<Seq<char>, A>, k: Seq<char>, v: A|
        !a.contains_key(k) implies (#[trigger] a.insert(k, v)).remove(k) == a by {
        assert(a.insert(k, v).remove(k) =~= a);
    }
    assert forall|plugins: &mut AgentPluginRegistry<A>, id: &str, r: Option<A>|
        plugins.wf() && #[trigger] call_ensures(
            AgentPluginRegistry::<A>::unregister,
            (plugins, id),
            r,
        ) && r is Some implies final(plugins).plugins@.insert(id@, r->0) == plugins.plugins@ by {
        assert(final(plugins).plugins@.insert(id@, r->0) =~= plugins.plugins@);
    }
}

} // verus!
