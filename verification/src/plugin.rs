//! Plugins: tools that come from elsewhere, and the register of them.
use vstd::prelude::*;
use vstd::string::*;

use crate::ordered;
use crate::ordered::OrderedMap;
use crate::tools::deferred::DeferredToolSpec;

pub mod agent;
pub mod hooks;
pub mod tool;

verus! {

/// A source of tools. Building a tool takes time and can fail; it is not done here.
pub trait Plugin {
    /// The name of the plugin, always the same.
    fn id(&self) -> (r: &str);

    /// What is known of its tools; none of them is built for that.
    fn tools(&self) -> (r: Vec<DeferredToolSpec>);
}

/// What can go wrong with plugins. The error of a plugin is held as its text.
#[derive(Debug, PartialEq)]
pub enum PluginError {
    DuplicatePlugin(String),
    PluginNotFound(String),
    ToolNotDeclared(String),
    Instantiation { plugin: String, tool: String, source: String },
}

impl PluginError {
    /// The text of the error.
    pub open spec fn text(self) -> Seq<char> {
        match self {
            PluginError::DuplicatePlugin(id) => "plugin already registered: "@ + id@,
            PluginError::PluginNotFound(id) => "plugin not found: "@ + id@,
            PluginError::ToolNotDeclared(name) => "tool `"@ + name@ + "` not declared by plugin"@,
            PluginError::Instantiation { plugin, tool, source } => "plugin `"@ + plugin@
                + "` failed to instantiate tool `"@ + tool@ + "`: "@ + source@,
        }
    }

    /// The text of the error.
    pub fn message(&self) -> (r: String)
        ensures
            r@ == self.text(),
    {
        match self {
            PluginError::DuplicatePlugin(id) => "plugin already registered: ".to_owned().concat(
                id.as_str(),
            ),
            PluginError::PluginNotFound(id) => "plugin not found: ".to_owned().concat(id.as_str()),
            PluginError::ToolNotDeclared(name) => "tool `".to_owned().concat(name.as_str()).concat(
                "` not declared by plugin",
            ),
            PluginError::Instantiation { plugin, tool, source } => "plugin `".to_owned().concat(
                plugin.as_str(),
            ).concat("` failed to instantiate tool `").concat(tool.as_str()).concat(
                "`: ",
            ).concat(source.as_str()),
        }
    }
}

/// The plugins of a process, by name.
#[derive(Debug)]
pub struct PluginRegistry<P> {
    pub plugins: OrderedMap<P>,
}

/// A tool that a plugin declares; `plugin` is the place of the plugin in the order of names.
#[derive(Debug)]
pub struct DeclaredTool {
    pub plugin: usize,
    pub spec: DeferredToolSpec,
}

/// The tools of `specs`, all of the plugin at `plugin`.
pub open spec fn declared_by(plugin: usize, specs: Seq<DeferredToolSpec>) -> Seq<DeclaredTool> {
    specs.map_values(|s: DeferredToolSpec| DeclaredTool { plugin, spec: s })
}

/// The tools of all plugins, one plugin after the other.
pub open spec fn all_declared(lists: Seq<Seq<DeferredToolSpec>>) -> Seq<DeclaredTool>
    decreases lists.len(),
{
    if lists.len() == 0 {
        Seq::empty()
    } else {
        all_declared(lists.drop_last()) + declared_by((lists.len() - 1) as usize, lists.last())
    }
}

impl<P: Plugin> Default for PluginRegistry<P> {
    fn default() -> (r: Self)
        ensures
            r.wf(),
            r.plugins@ == Map::<Seq<char>, P>::empty(),
    {
        PluginRegistry::new()
    }
}

impl<P: Plugin> PluginRegistry<P> {
    /// The plugins are in the order of their names.
    pub open spec fn wf(self) -> bool {
        self.plugins.wf()
    }

    /// No plugins.
    pub fn new() -> (r: Self)
        ensures
            r.wf(),
            r.plugins@ == Map::<Seq<char>, P>::empty(),
    {
        PluginRegistry { plugins: OrderedMap::new() }
    }

    /// Registers a plugin; a name that is taken is refused.
    pub fn register(&mut self, plugin: P) -> (r: Result<(), PluginError>)
        requires
            old(self).wf(),
            call_requires(P::id, (&plugin,)),
        ensures
            final(self).wf(),
            exists|id: &str| #[trigger]
                call_ensures(P::id, (&plugin,), id) && match r {
                    Ok(_) => !old(self).plugins@.contains_key(id@) && final(self).plugins@
                        == old(self).plugins@.insert(id@, plugin),
                    Err(e) => old(self).plugins@.contains_key(id@) && *final(self) == *old(self)
                        && (e matches PluginError::DuplicatePlugin(d) && d@ == id@),
                },
    {
        let id = plugin.id();
        let key = id.to_owned();
        assert(call_ensures(P::id, (&plugin,), id));
        let ghost name = id@;
        if self.plugins.contains(id) {
            return Err(PluginError::DuplicatePlugin(key));
        }
        let added = self.plugins.insert_new(key, plugin);
        assert(added is Ok);
        Ok(())
    }

    /// Takes a plugin out. Tools that were made from it keep working.
    pub fn unregister(&mut self, id: &str) -> (r: Option<P>)
        requires
            old(self).wf(),
        ensures
            final(self).wf(),
            final(self).plugins@ == old(self).plugins@.remove(id@),
            match r {
                Some(p) => old(self).plugins@.contains_key(id@) && p == old(self).plugins@[id@],
                None => !old(self).plugins@.contains_key(id@),
            },
    {
        self.plugins.remove(id)
    }

    /// The plugin of a name.
    pub fn get(&self, id: &str) -> (r: Option<&P>)
        requires
            self.wf(),
        ensures
            match r {
                Some(p) => self.plugins@.contains_key(id@) && *p == self.plugins@[id@],
                None => !self.plugins@.contains_key(id@),
            },
    {
        self.plugins.get(id)
    }

    /// The names of the plugins, in their order.
    pub fn list(&self) -> (r: Vec<String>)
        ensures
            crate::text::texts(r@) == ordered::keys_of(self.plugins.entries@),
    {
        self.plugins.keys()
    }

    /// The tools of all plugins: by the names of the plugins, and for each as it declares them. No
    /// tool is built.
    pub fn tools(&self) -> (r: Vec<DeclaredTool>)
        requires
            forall|i: int|
                0 <= i < self.plugins.entries@.len() ==> call_requires(
                    P::tools,
                    (&(#[trigger] self.plugins.entries@[i]).value,),
                ),
        ensures
            exists|lists: Seq<Vec<DeferredToolSpec>>|
                {
                    &&& lists.len() == self.plugins.entries@.len()
                    &&& forall|i: int|
                        0 <= i < lists.len() ==> call_ensures(
                            P::tools,
                            (&self.plugins.entries@[i].value,),
                            #[trigger] lists[i],
                        )
                    &&& r@ == #[trigger] all_declared(lists_view(lists))
                },
    {
        let mut out: Vec<DeclaredTool> = Vec::new();
        let ghost mut lists: Seq<Vec<DeferredToolSpec>> = Seq::empty();
        let mut i: usize = 0;
        assert(lists_view(lists) =~= Seq::empty());
        while i < self.plugins.entries.len()
            invariant
                i <= self.plugins.entries@.len(),
                lists.len() == i,
                forall|k: int|
                    0 <= k < self.plugins.entries@.len() ==> call_requires(
                        P::tools,
                        (&(#[trigger] self.plugins.entries@[k]).value,),
                    ),
                forall|k: int|
                    0 <= k < lists.len() ==> call_ensures(
                        P::tools,
                        (&self.plugins.entries@[k].value,),
                        #[trigger] lists[k],
                    ),
                out@ == all_declared(lists_view(lists)),
            decreases self.plugins.entries@.len() - i,
        {
            let specs = self.plugins.entries[i].value.tools();
            let ghost all = specs@;
            let ghost before = out@;
            let ghost new_lists = lists.push(specs);
            proof {
                assert(lists_view(new_lists).drop_last() =~= lists_view(lists));
                assert(lists_view(new_lists).last() == all);
            }
            let mut n: Ghost<int> = Ghost(0);
            for spec in it: specs
                invariant
                    all == it.seq(),
                    n@ == it.index(),
                    0 <= n@ <= all.len(),
                    out@ == before + declared_by(i, all.take(n@)),
            {
                let ghost o0 = out@;
                out.push(DeclaredTool { plugin: i, spec });
                proof {
                    assert(declared_by(i, all.take(n@ + 1)) =~= declared_by(i, all.take(n@)).push(
                        DeclaredTool { plugin: i, spec: all[n@] },
                    ));
                    n@ = n@ + 1;
                    assert(out@ =~= before + declared_by(i, all.take(n@)));
                }
            }
            proof {
                assert(all.take(all.len() as int) =~= all);
                lists = new_lists;
            }
            i += 1;
        }
        out
    }
}

/// The contents of lists.
pub open spec fn lists_view(lists: Seq<Vec<DeferredToolSpec>>) -> Seq<Seq<DeferredToolSpec>> {
    lists.map_values(|l: Vec<DeferredToolSpec>| l@)
}

/// A plugin that is registered is found under its name and can be taken out again, which leaves
/// the register as it was; other plugins are not touched.
pub proof fn law_registering_can_be_undone<P>(
    before: Map<Seq<char>, P>,
    id: Seq<char>,
    plugin: P,
    other: Seq<char>,
)
    requires
        !before.contains_key(id),
        other != id,
    ensures
        before.insert(id, plugin).contains_key(id),
        before.insert(id, plugin)[id] == plugin,
        before.insert(id, plugin).remove(id) == before,
        before.insert(id, plugin).contains_key(other) == before.contains_key(other),
        before.contains_key(other) ==> before.insert(id, plugin)[other] == before[other],
{
    assert(before.insert(id, plugin).remove(id) =~= before);
}

/// The tools of a plugin are declared as it lists them, and those of one plugin come behind those of
/// the plugins before it. No tool is left out, and none is added.
pub proof fn law_every_tool_is_declared(lists: Seq<Seq<DeferredToolSpec>>, plugin: usize)
    requires
        lists.len() <= usize::MAX,
    ensures
        plugin < lists.len() ==> all_declared(lists).filter(
            |d: DeclaredTool| d.plugin == plugin,
        ).map_values(|d: DeclaredTool| d.spec) == lists[plugin as int],
        plugin >= lists.len() ==> all_declared(lists).filter(
            |d: DeclaredTool| d.plugin == plugin,
        ).len() == 0,
        forall|i: int, j: int|
            0 <= i < j < all_declared(lists).len() ==> (#[trigger] all_declared(lists)[i]).plugin
                <= (#[trigger] all_declared(lists)[j]).plugin,
        forall|i: int|
            0 <= i < all_declared(lists).len() ==> (#[trigger] all_declared(lists)[i]).plugin
                < lists.len(),
    decreases lists.len(),
{
    reveal(Seq::filter);
    let of = |d: DeclaredTool| d.plugin == plugin;
    let spec_of = |d: DeclaredTool| d.spec;
    if lists.len() > 0 {
        let init = lists.drop_last();
        law_every_tool_is_declared(init, plugin);
        let at = (lists.len() - 1) as usize;
        let last = declared_by(at, lists.last());
        Seq::filter_distributes_over_add(all_declared(init), last, of);
        if at == plugin {
            lemma_all_kept(last, of);
            assert(all_declared(init).filter(of) =~= Seq::empty());
            assert(all_declared(lists).filter(of) =~= last);
            assert(last.map_values(spec_of) =~= lists.last());
        } else {
            lemma_none_kept(last, of);
            assert(all_declared(lists).filter(of) =~= all_declared(init).filter(of));
        }
    }
}

proof fn lemma_all_kept(s: Seq<DeclaredTool>, keep: spec_fn(DeclaredTool) -> bool)
    requires
        forall|i: int| 0 <= i < s.len() ==> keep(#[trigger] s[i]),
    ensures
        s.filter(keep) == s,
    decreases s.len(),
{
    reveal(Seq::filter);
    if s.len() > 0 {
        assert(keep(s[s.len() - 1]));
        lemma_all_kept(s.drop_last(), keep);
        assert(s.drop_last().push(s.last()) =~= s);
    }
}

proof fn lemma_none_kept(s: Seq<DeclaredTool>, keep: spec_fn(DeclaredTool) -> bool)
    requires
        forall|i: int| 0 <= i < s.len() ==> !keep(#[trigger] s[i]),
    ensures
        s.filter(keep).len() == 0,
    decreases s.len(),
{
    reveal(Seq::filter);
    if s.len() > 0 {
        assert(!keep(s[s.len() - 1]));
        lemma_none_kept(s.drop_last(), keep);
    }
}

/// A plugin is registered under its own name, once; a name that is taken is refused and nothing
/// changes. No other plugin is touched.
pub proof fn law_plugins_are_registered_once<P: Plugin>()
    ensures
        forall|plugins: &mut PluginRegistry<P>, plugin: P, r: Result<(), PluginError>|
            plugins.wf() && call_requires(P::id, (&plugin,)) && #[trigger] call_ensures(
                PluginRegistry::<P>::register,
                (plugins, plugin),
                r,
            ) ==> {
                &&& r is Err ==> final(plugins).plugins@ == plugins.plugins@
                &&& r is Ok ==> exists|id: &str| #[trigger]
                    call_ensures(P::id, (&plugin,), id) && !plugins.plugins@.contains_key(id@)
                        && final(plugins).plugins@.contains_key(id@) && final(plugins).plugins@[id@]
                        == plugin && final(plugins).plugins@.remove(id@) == plugins.plugins@
            },
        forall|plugins: &mut PluginRegistry<P>, id: &str, r: Option<P>|
            plugins.wf() && #[trigger] call_ensures(
                PluginRegistry::<P>::unregister,
                (plugins, id),
                r,
            ) ==> {
                &&& r is Some <==> plugins.plugins@.contains_key(id@)
                &&& !final(plugins).plugins@.contains_key(id@)
                &&& r matches Some(p) ==> final(plugins).plugins@.insert(id@, p) == plugins.plugins@
            },
{
    assert forall|a: Map<Seq<char>, P>, k: Seq<char>, v: P|
        !a.contains_key(k) implies (#[trigger] a.insert(k, v)).remove(k) == a by {
        assert(a.insert(k, v).remove(k) =~= a);
    }
    assert forall|plugins: &mut PluginRegistry<P>, id: &str, r: Option<P>|
        plugins.wf() && #[trigger] call_ensures(PluginRegistry::<P>::unregister, (plugins, id), r)
            && r is Some implies final(plugins).plugins@.insert(id@, r->0) == plugins.plugins@ by {
        assert(final(plugins).plugins@.insert(id@, r->0) =~= plugins.plugins@);
    }
}

} // verus!
