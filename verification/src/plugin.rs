//! The plugin host: registration, lifecycle and capability queries, and
//! slot registries through which plugins contribute to shared UI regions.

use vstd::prelude::*;
use std::collections::HashMap;
use crate::text::{push_str, str_eq};

verus! {

/// Where a plugin is in its lifecycle.
#[derive(Debug, Clone, Copy, PartialEq, Eq, Structural)]
pub enum PluginState {
    /// Registered, not initialized.
    Registered,
    Initialized,
    Running,
    Stopped,
    /// Failed.
    Error,
}

impl Default for PluginState {
    fn default() -> (s: PluginState)
        ensures
            s == PluginState::Registered,
    {
        PluginState::Registered
    }
}

/// The name of a state, as its debug rendering.
pub open spec fn state_name(s: PluginState) -> Seq<char> {
    match s {
        PluginState::Registered => "Registered"@,
        PluginState::Initialized => "Initialized"@,
        PluginState::Running => "Running"@,
        PluginState::Stopped => "Stopped"@,
        PluginState::Error => "Error"@,
    }
}

fn state_str(s: PluginState) -> (r: &'static str)
    ensures
        r@ == state_name(s),
{
    match s {
        PluginState::Registered => "Registered",
        PluginState::Initialized => "Initialized",
        PluginState::Running => "Running",
        PluginState::Stopped => "Stopped",
        PluginState::Error => "Error",
    }
}

/// Something a plugin can provide.
#[derive(Debug, Clone, PartialEq, Eq, Hash)]
pub enum Capability {
    Commands,
    Widgets,
    Themes,
    Events,
    FileSystem,
    /// A capability named by a string.
    Custom(String),
}

/// A capability as plain values: its variant and, for a custom one, its
/// name.
pub open spec fn capability_view(c: Capability) -> (nat, Seq<char>) {
    match c {
        Capability::Commands => (0, Seq::empty()),
        Capability::Widgets => (1, Seq::empty()),
        Capability::Themes => (2, Seq::empty()),
        Capability::Events => (3, Seq::empty()),
        Capability::FileSystem => (4, Seq::empty()),
        Capability::Custom(s) => (5, s@),
    }
}

fn same_capability(a: &Capability, b: &Capability) -> (r: bool)
    ensures
        r == (capability_view(*a) == capability_view(*b)),
{
    match (a, b) {
        (Capability::Commands, Capability::Commands) => true,
        (Capability::Widgets, Capability::Widgets) => true,
        (Capability::Themes, Capability::Themes) => true,
        (Capability::Events, Capability::Events) => true,
        (Capability::FileSystem, Capability::FileSystem) => true,
        (Capability::Custom(x), Capability::Custom(y)) => str_eq(x.as_str(), y.as_str()),
        _ => false,
    }
}

/// What a plugin says of itself.
#[derive(Debug, Clone)]
pub struct PluginInfo {
    pub name: String,
    pub version: String,
    pub author: String,
    pub capabilities: Vec<Capability>,
    pub metadata: HashMap<String, String>,
}

/// A registered plugin: its info, state and commands.
#[derive(Debug)]
pub struct Plugin {
    pub info: PluginInfo,
    pub state: PluginState,
    pub commands: Vec<String>,
}

/// Whether the plugin declares a capability.
pub open spec fn provides(p: Plugin, cap: Capability) -> bool {
    exists|i: int|
        0 <= i < p.info.capabilities@.len() && capability_view(#[trigger] p.info.capabilities@[i]) == capability_view(cap)
}

/// The position of the plugin named `name`, or -1.
pub open spec fn plugin_index(ps: Seq<Plugin>, name: Seq<char>) -> int
    decreases ps.len(),
{
    if ps.len() == 0 {
        -1
    } else if ps.last().info.name@ == name {
        ps.len() - 1
    } else {
        plugin_index(ps.drop_last(), name)
    }
}

proof fn lemma_plugin_index(ps: Seq<Plugin>, name: Seq<char>)
    ensures
        -1 <= plugin_index(ps, name) < ps.len(),
        plugin_index(ps, name) >= 0 ==> ps[plugin_index(ps, name)].info.name@ == name,
        plugin_index(ps, name) < 0 ==> forall|i: int| 0 <= i < ps.len() ==> ps[i].info.name@ != name,
        forall|i: int| plugin_index(ps, name) < i < ps.len() ==> ps[i].info.name@ != name,
    decreases ps.len(),
{
    if ps.len() > 0 {
        lemma_plugin_index(ps.drop_last(), name);
        assert forall|i: int| 0 <= i < ps.len() - 1 implies ps.drop_last()[i] == ps[i] by {}
    }
}

/// `Plugin '<name>' is not registered`.
pub open spec fn not_registered(name: Seq<char>) -> Seq<char> {
    "Plugin '"@ + name + "' is not registered"@
}

/// `Plugin '<name>' is already registered`.
pub open spec fn already_registered(name: Seq<char>) -> Seq<char> {
    "Plugin '"@ + name + "' is already registered"@
}

/// `cannot <action> plugin '<name>' from state <state>`.
pub open spec fn illegal_transition(action: Seq<char>, name: Seq<char>, s: PluginState) -> Seq<char> {
    "cannot "@ + action + " plugin '"@ + name + "' from state "@ + state_name(s)
}

/// The lifecycle hooks: initialize from `Registered`, `Initialized` or
/// `Stopped`; start from `Initialized` or `Stopped`; stop from `Running`.
pub enum LifecycleHook {
    Initialize,
    Start,
    Stop,
}

/// The states a hook may leave from.
pub open spec fn hook_allowed(h: LifecycleHook, s: PluginState) -> bool {
    match h {
        LifecycleHook::Initialize => s == PluginState::Registered || s == PluginState::Initialized || s
            == PluginState::Stopped,
        LifecycleHook::Start => s == PluginState::Initialized || s == PluginState::Stopped,
        LifecycleHook::Stop => s == PluginState::Running,
    }
}

/// The state a hook leads to.
pub open spec fn hook_target(h: LifecycleHook) -> PluginState {
    match h {
        LifecycleHook::Initialize => PluginState::Initialized,
        LifecycleHook::Start => PluginState::Running,
        LifecycleHook::Stop => PluginState::Stopped,
    }
}

/// The word for a hook in errors.
pub open spec fn hook_name(h: LifecycleHook) -> Seq<char> {
    match h {
        LifecycleHook::Initialize => "initialize"@,
        LifecycleHook::Start => "start"@,
        LifecycleHook::Stop => "stop"@,
    }
}

/// The plugins with the plugin at `k` in state `s`.
pub open spec fn with_state(ps: Seq<Plugin>, k: int, s: PluginState) -> Seq<Plugin> {
    ps.update(k, Plugin { state: s, ..ps[k] })
}

/// Keeps the plugins, each under its own name.
pub struct PluginHost {
    plugins: Vec<Plugin>,
}

impl PluginHost {
    /// The plugins in registration order.
    pub closed spec fn plugins_view(&self) -> Seq<Plugin> {
        self.plugins@
    }

    /// No two plugins share a name.
    pub closed spec fn wf(&self) -> bool {
        forall|i: int, j: int|
            0 <= i < j < self.plugins@.len() ==> self.plugins@[i].info.name@ != self.plugins@[j].info.name@
    }

    /// No plugin.
    pub fn new() -> (h: PluginHost)
        ensures
            h.wf(),
            h.plugins_view().len() == 0,
    {
        PluginHost { plugins: Vec::new() }
    }

    fn find(&self, name: &str) -> (r: Option<usize>)
        ensures
            match r {
                Some(k) => k as int == plugin_index(self.plugins@, name@) && k < self.plugins@.len(),
                None => plugin_index(self.plugins@, name@) == -1,
            },
    {
        proof {
            lemma_plugin_index(self.plugins@, name@);
        }
        let mut i: usize = self.plugins.len();
        while i > 0
            invariant
                i <= self.plugins@.len(),
                forall|j: int| i <= j < self.plugins@.len() ==> self.plugins@[j].info.name@ != name@,
                -1 <= plugin_index(self.plugins@, name@) < self.plugins@.len(),
                plugin_index(self.plugins@, name@) >= 0 ==> self.plugins@[plugin_index(self.plugins@, name@)].info.name@
                    == name@,
                forall|j: int| plugin_index(self.plugins@, name@) < j < self.plugins@.len() ==> self.plugins@[j].info.name@ != name@,
            decreases i,
        {
            i -= 1;
            if str_eq(self.plugins[i].info.name.as_str(), name) {
                return Some(i);
            }
        }
        None
    }

    fn quoted_error(head: &str, name: &str, tail: &str) -> (s: String)
        ensures
            s@ == head@ + name@ + tail@,
    {
        let mut s = String::new();
        push_str(&mut s, head);
        push_str(&mut s, name);
        push_str(&mut s, tail);
        s
    }

    /// Registers a plugin in the `Registered` state with no command; a
    /// plugin of the same name is an error.
    pub fn register(&mut self, info: PluginInfo) -> (r: Result<(), String>)
        requires
            old(self).wf(),
        ensures
            final(self).wf(),
            plugin_index(old(self).plugins_view(), info.name@) >= 0 ==> (r matches Err(e) && e@ == already_registered(
                info.name@,
            ) && final(self).plugins_view() == old(self).plugins_view()),
            plugin_index(old(self).plugins_view(), info.name@) < 0 ==> (r is Ok && final(self).plugins_view()
                == old(self).plugins_view().push(
                Plugin { info, state: PluginState::Registered, commands: final(self).plugins_view().last().commands },
            ) && final(self).plugins_view().last().commands@.len() == 0),
    {
        match self.find(info.name.as_str()) {
            Some(_) => {
                proof {
                    reveal_strlit("Plugin '");
                    reveal_strlit("' is already registered");
                }
                Err(Self::quoted_error("Plugin '", info.name.as_str(), "' is already registered"))
            },
            None => {
                proof {
                    lemma_plugin_index(self.plugins@, info.name@);
                }
                self.plugins.push(Plugin { info, state: PluginState::Registered, commands: Vec::new() });
                Ok(())
            },
        }
    }

    /// Removes the plugin named `name`; an unknown name is an error.
    pub fn unregister(&mut self, name: &str) -> (r: Result<(), String>)
        requires
            old(self).wf(),
        ensures
            final(self).wf(),
            plugin_index(old(self).plugins_view(), name@) < 0 ==> (r matches Err(e) && e@ == not_registered(name@)
                && final(self).plugins_view() == old(self).plugins_view()),
            plugin_index(old(self).plugins_view(), name@) >= 0 ==> (r is Ok && final(self).plugins_view()
                == old(self).plugins_view().remove(plugin_index(old(self).plugins_view(), name@))),
    {
        match self.find(name) {
            Some(k) => {
                self.plugins.remove(k);
                proof {
                    assert forall|i: int, j: int| 0 <= i < j < self.plugins@.len() implies self.plugins@[i].info.name@
                        != self.plugins@[j].info.name@ by {
                        let oi = if i < k { i } else { i + 1 };
                        let oj = if j < k { j } else { j + 1 };
                        assert(self.plugins@[i] == old(self).plugins@[oi]);
                        assert(self.plugins@[j] == old(self).plugins@[oj]);
                    }
                }
                Ok(())
            },
            None => Err(Self::quoted_error("Plugin '", name, "' is not registered")),
        }
    }

    fn put_state(&mut self, k: usize, state: PluginState)
        requires
            old(self).wf(),
            k < old(self).plugins_view().len(),
        ensures
            final(self).wf(),
            final(self).plugins_view() == with_state(old(self).plugins_view(), k as int, state),
    {
        let mut p = self.plugins.remove(k);
        p.state = state;
        self.plugins.insert(k, p);
        proof {
            assert(self.plugins@ =~= with_state(old(self).plugins@, k as int, state));
            assert forall|i: int, j: int| 0 <= i < j < self.plugins@.len() implies self.plugins@[i].info.name@
                != self.plugins@[j].info.name@ by {
                assert(self.plugins@[i].info == old(self).plugins@[i].info);
                assert(self.plugins@[j].info == old(self).plugins@[j].info);
            }
        }
    }

    /// Sets a plugin's state, whatever it was; an unknown name is an error.
    pub fn set_state(&mut self, name: &str, state: PluginState) -> (r: Result<(), String>)
        requires
            old(self).wf(),
        ensures
            final(self).wf(),
            ({
                let k = plugin_index(old(self).plugins_view(), name@);
                if k < 0 {
                    r matches Err(e) && e@ == not_registered(name@) && final(self).plugins_view() == old(self).plugins_view()
                } else {
                    r is Ok && final(self).plugins_view() == with_state(old(self).plugins_view(), k, state)
                }
            }),
    {
        match self.find(name) {
            Some(k) => {
                self.put_state(k, state);
                Ok(())
            },
            None => Err(Self::quoted_error("Plugin '", name, "' is not registered")),
        }
    }

    fn transition(&mut self, name: &str, hook: LifecycleHook) -> (r: Result<(), String>)
        requires
            old(self).wf(),
        ensures
            final(self).wf(),
            ({
                let k = plugin_index(old(self).plugins_view(), name@);
                if k < 0 {
                    r matches Err(e) && e@ == not_registered(name@) && final(self).plugins_view() == old(self).plugins_view()
                } else if !hook_allowed(hook, old(self).plugins_view()[k].state) {
                    r matches Err(e) && e@ == illegal_transition(
                        hook_name(hook),
                        name@,
                        old(self).plugins_view()[k].state,
                    ) && final(self).plugins_view() == old(self).plugins_view()
                } else {
                    r is Ok && final(self).plugins_view() == with_state(old(self).plugins_view(), k, hook_target(hook))
                }
            }),
    {
        match self.find(name) {
            Some(k) => {
                let current = self.plugins[k].state;
                let (allowed, target, action): (bool, PluginState, &str) = match hook {
                    LifecycleHook::Initialize => (
                        current == PluginState::Registered || current == PluginState::Initialized
                            || current == PluginState::Stopped,
                        PluginState::Initialized,
                        "initialize",
                    ),
                    LifecycleHook::Start => (
                        current == PluginState::Initialized || current == PluginState::Stopped,
                        PluginState::Running,
                        "start",
                    ),
                    LifecycleHook::Stop => (current == PluginState::Running, PluginState::Stopped, "stop"),
                };
                if !allowed {
                    proof {
                        reveal_strlit("cannot ");
                        reveal_strlit(" plugin '");
                        reveal_strlit("' from state ");
                    }
                    let mut e = String::new();
                    push_str(&mut e, "cannot ");
                    push_str(&mut e, action);
                    push_str(&mut e, " plugin '");
                    push_str(&mut e, name);
                    push_str(&mut e, "' from state ");
                    push_str(&mut e, state_str(current));
                    return Err(e);
                }
                self.put_state(k, target);
                Ok(())
            },
            None => Err(Self::quoted_error("Plugin '", name, "' is not registered")),
        }
    }

    /// Initializes a `Registered` plugin, or initializes again an
    /// `Initialized` or `Stopped` one; from `Running` or `Error` it is an
    /// error and nothing changes.
    pub fn initialize(&mut self, name: &str) -> (r: Result<(), String>)
        requires
            old(self).wf(),
        ensures
            final(self).wf(),
            ({
                let k = plugin_index(old(self).plugins_view(), name@);
                if k < 0 {
                    r matches Err(e) && e@ == not_registered(name@) && final(self).plugins_view() == old(self).plugins_view()
                } else if !hook_allowed(LifecycleHook::Initialize, old(self).plugins_view()[k].state) {
                    r matches Err(e) && e@ == illegal_transition(
                        "initialize"@,
                        name@,
                        old(self).plugins_view()[k].state,
                    ) && final(self).plugins_view() == old(self).plugins_view()
                } else {
                    r is Ok && final(self).plugins_view() == with_state(
                        old(self).plugins_view(),
                        k,
                        PluginState::Initialized,
                    )
                }
            }),
    {
        self.transition(name, LifecycleHook::Initialize)
    }

    /// Starts an `Initialized` or `Stopped` plugin; from any other state it
    /// is an error and nothing changes.
    pub fn start(&mut self, name: &str) -> (r: Result<(), String>)
        requires
            old(self).wf(),
        ensures
            final(self).wf(),
            ({
                let k = plugin_index(old(self).plugins_view(), name@);
                if k < 0 {
                    r matches Err(e) && e@ == not_registered(name@) && final(self).plugins_view() == old(self).plugins_view()
                } else if !hook_allowed(LifecycleHook::Start, old(self).plugins_view()[k].state) {
                    r matches Err(e) && e@ == illegal_transition("start"@, name@, old(self).plugins_view()[k].state)
                        && final(self).plugins_view() == old(self).plugins_view()
                } else {
                    r is Ok && final(self).plugins_view() == with_state(old(self).plugins_view(), k, PluginState::Running)
                }
            }),
    {
        self.transition(name, LifecycleHook::Start)
    }

    /// Stops a `Running` plugin; from any other state it is an error and
    /// nothing changes.
    pub fn stop(&mut self, name: &str) -> (r: Result<(), String>)
        requires
            old(self).wf(),
        ensures
            final(self).wf(),
            ({
                let k = plugin_index(old(self).plugins_view(), name@);
                if k < 0 {
                    r matches Err(e) && e@ == not_registered(name@) && final(self).plugins_view() == old(self).plugins_view()
                } else if !hook_allowed(LifecycleHook::Stop, old(self).plugins_view()[k].state) {
                    r matches Err(e) && e@ == illegal_transition("stop"@, name@, old(self).plugins_view()[k].state)
                        && final(self).plugins_view() == old(self).plugins_view()
                } else {
                    r is Ok && final(self).plugins_view() == with_state(old(self).plugins_view(), k, PluginState::Stopped)
                }
            }),
    {
        self.transition(name, LifecycleHook::Stop)
    }

    /// Marks a plugin as failed, from any state.
    pub fn mark_error(&mut self, name: &str) -> (r: Result<(), String>)
        requires
            old(self).wf(),
        ensures
            final(self).wf(),
            ({
                let k = plugin_index(old(self).plugins_view(), name@);
                if k < 0 {
                    r matches Err(e) && e@ == not_registered(name@) && final(self).plugins_view() == old(self).plugins_view()
                } else {
                    r is Ok && final(self).plugins_view() == with_state(old(self).plugins_view(), k, PluginState::Error)
                }
            }),
    {
        self.set_state(name, PluginState::Error)
    }

    /// The state of the plugin named `name`.
    pub fn state(&self, name: &str) -> (r: Option<PluginState>)
        ensures
            ({
                let k = plugin_index(self.plugins_view(), name@);
                r == if k < 0 {
                    None
                } else {
                    Some(self.plugins_view()[k].state)
                }
            }),
    {
        match self.find(name) {
            Some(k) => Some(self.plugins[k].state),
            None => None,
        }
    }

    /// The plugin named `name`.
    pub fn get(&self, name: &str) -> (r: Option<&Plugin>)
        ensures
            r is Some <==> plugin_index(self.plugins_view(), name@) >= 0,
            r matches Some(p) ==> *p == self.plugins_view()[plugin_index(self.plugins_view(), name@)],
    {
        match self.find(name) {
            Some(k) => Some(&self.plugins[k]),
            None => None,
        }
    }

    pub fn len(&self) -> (n: usize)
        ensures
            n == self.plugins_view().len(),
    {
        self.plugins.len()
    }

    pub fn is_empty(&self) -> (b: bool)
        ensures
            b == (self.plugins_view().len() == 0),
    {
        self.plugins.len() == 0
    }

    fn declares(p: &Plugin, cap: &Capability) -> (b: bool)
        ensures
            b == provides(*p, *cap),
    {
        let mut i: usize = 0;
        while i < p.info.capabilities.len()
            invariant
                i <= p.info.capabilities@.len(),
                forall|j: int| 0 <= j < i ==> capability_view(#[trigger] p.info.capabilities@[j]) != capability_view(*cap),
            decreases p.info.capabilities@.len() - i,
        {
            if same_capability(&p.info.capabilities[i], cap) {
                return true;
            }
            i += 1;
        }
        false
    }

    /// The plugins that declare `cap`, in registration order.
    pub fn with_capability(&self, cap: &Capability) -> (r: Vec<&Plugin>)
        ensures
            r@.map_values(|p: &Plugin| *p) == plugins_where(self.plugins_view(), |p: Plugin| provides(p, *cap)),
    {
        let mut r: Vec<&Plugin> = Vec::new();
        let mut i: usize = 0;
        while i < self.plugins.len()
            invariant
                i <= self.plugins@.len(),
                r@.map_values(|p: &Plugin| *p) == plugins_where(self.plugins@.subrange(0, i as int), |p: Plugin| provides(p, *cap)),
            decreases self.plugins@.len() - i,
        {
            proof {
                assert(self.plugins@.subrange(0, i + 1).drop_last() =~= self.plugins@.subrange(0, i as int));
            }
            let ghost before = r@;
            if Self::declares(&self.plugins[i], cap) {
                r.push(&self.plugins[i]);
                assert(r@.map_values(|p: &Plugin| *p) =~= before.map_values(|p: &Plugin| *p).push(self.plugins@[i as int]));
            }
            i += 1;
        }
        assert(self.plugins@.subrange(0, i as int) =~= self.plugins@);
        r
    }

    /// The plugins' names, in registration order.
    pub fn names(&self) -> (r: Vec<&str>)
        ensures
            r@.len() == self.plugins_view().len(),
            forall|i: int| 0 <= i < r@.len() ==> r@[i]@ == #[trigger] self.plugins_view()[i].info.name@,
    {
        let mut r: Vec<&str> = Vec::new();
        let mut i: usize = 0;
        while i < self.plugins.len()
            invariant
                i <= self.plugins@.len(),
                r@.len() == i,
                forall|j: int| 0 <= j < i ==> r@[j]@ == #[trigger] self.plugins@[j].info.name@,
            decreases self.plugins@.len() - i,
        {
            r.push(self.plugins[i].info.name.as_str());
            i += 1;
        }
        r
    }

    /// Adds a command to a plugin; an unknown name is an error.
    pub fn add_command(&mut self, plugin_name: &str, command: String) -> (r: Result<(), String>)
        requires
            old(self).wf(),
        ensures
            final(self).wf(),
            ({
                let k = plugin_index(old(self).plugins_view(), plugin_name@);
                if k < 0 {
                    r matches Err(e) && e@ == not_registered(plugin_name@) && final(self).plugins_view() == old(self).plugins_view()
                } else {
                    &&& r is Ok
                    &&& final(self).plugins_view().len() == old(self).plugins_view().len()
                    &&& forall|i: int|
                        0 <= i < old(self).plugins_view().len() && i != k ==> #[trigger] final(self).plugins_view()[i]
                            == old(self).plugins_view()[i]
                    &&& final(self).plugins_view()[k].info == old(self).plugins_view()[k].info
                    &&& final(self).plugins_view()[k].state == old(self).plugins_view()[k].state
                    &&& final(self).plugins_view()[k].commands@ == old(self).plugins_view()[k].commands@.push(command)
                }
            }),
    {
        match self.find(plugin_name) {
            Some(k) => {
                let mut p = self.plugins.remove(k);
                p.commands.push(command);
                self.plugins.insert(k, p);
                proof {
                    assert forall|i: int, j: int| 0 <= i < j < self.plugins@.len() implies self.plugins@[i].info.name@
                        != self.plugins@[j].info.name@ by {
                        assert(self.plugins@[i].info == old(self).plugins@[i].info);
                        assert(self.plugins@[j].info == old(self).plugins@[j].info);
                    }
                }
                Ok(())
            },
            None => Err(Self::quoted_error("Plugin '", plugin_name, "' is not registered")),
        }
    }

    /// Every plugin's commands, plugins in registration order.
    pub fn all_commands(&self) -> (r: Vec<&str>)
        ensures
            r@.map_values(|s: &str| s@) == all_commands_of(self.plugins_view(), self.plugins_view().len()),
    {
        let mut r: Vec<&str> = Vec::new();
        let mut i: usize = 0;
        assert(r@.map_values(|s: &str| s@) =~= all_commands_of(self.plugins@, 0));
        while i < self.plugins.len()
            invariant
                i <= self.plugins@.len(),
                r@.map_values(|s: &str| s@) == all_commands_of(self.plugins@, i as nat),
            decreases self.plugins@.len() - i,
        {
            let cmds = &self.plugins[i].commands;
            let ghost start = r@.map_values(|s: &str| s@);
            let mut j: usize = 0;
            while j < cmds.len()
                invariant
                    i < self.plugins@.len(),
                    j <= cmds@.len(),
                    *cmds == self.plugins@[i as int].commands,
                    r@.map_values(|s: &str| s@) == start + cmds@.subrange(0, j as int).map_values(|s: String| s@),
                decreases cmds@.len() - j,
            {
                let ghost before = r@;
                let c = cmds[j].as_str();
                r.push(c);
                assert(r@ == before.push(c));
                assert(c@ == cmds@[j as int]@);
                assert(r@.map_values(|s: &str| s@) =~= before.map_values(|s: &str| s@).push(c@));
                assert(cmds@.subrange(0, j + 1).map_values(|s: String| s@) =~= cmds@.subrange(0, j as int).map_values(
                    |s: String| s@,
                ).push(cmds@[j as int]@));
                assert(r@.map_values(|s: &str| s@) =~= start + cmds@.subrange(0, j + 1).map_values(|s: String| s@));
                j += 1;
            }
            assert(cmds@.subrange(0, j as int) =~= cmds@);
            i += 1;
        }
        r
    }

    /// The running plugins, in registration order.
    pub fn running(&self) -> (r: Vec<&Plugin>)
        ensures
            r@.map_values(|p: &Plugin| *p) == plugins_where(self.plugins_view(), |p: Plugin| p.state == PluginState::Running),
    {
        let mut r: Vec<&Plugin> = Vec::new();
        let mut i: usize = 0;
        while i < self.plugins.len()
            invariant
                i <= self.plugins@.len(),
                r@.map_values(|p: &Plugin| *p) == plugins_where(
                    self.plugins@.subrange(0, i as int),
                    |p: Plugin| p.state == PluginState::Running,
                ),
            decreases self.plugins@.len() - i,
        {
            proof {
                assert(self.plugins@.subrange(0, i + 1).drop_last() =~= self.plugins@.subrange(0, i as int));
            }
            let ghost before = r@;
            if self.plugins[i].state == PluginState::Running {
                r.push(&self.plugins[i]);
                assert(r@.map_values(|p: &Plugin| *p) =~= before.map_values(|p: &Plugin| *p).push(self.plugins@[i as int]));
            }
            i += 1;
        }
        assert(self.plugins@.subrange(0, i as int) =~= self.plugins@);
        r
    }
}

impl Default for PluginHost {
    fn default() -> (h: PluginHost)
        ensures
            h.wf(),
            h.plugins_view().len() == 0,
    {
        PluginHost::new()
    }
}

/// The plugins that satisfy `f`, in order.
pub open spec fn plugins_where(ps: Seq<Plugin>, f: spec_fn(Plugin) -> bool) -> Seq<Plugin>
    decreases ps.len(),
{
    if ps.len() == 0 {
        Seq::empty()
    } else {
        let r = plugins_where(ps.drop_last(), f);
        if f(ps.last()) {
            r.push(ps.last())
        } else {
            r
        }
    }
}

/// The commands of the first `k` plugins, in order.
pub open spec fn all_commands_of(ps: Seq<Plugin>, k: nat) -> Seq<Seq<char>>
    decreases k,
{
    if k == 0 {
        Seq::empty()
    } else {
        all_commands_of(ps, (k - 1) as nat) + ps[k - 1].commands@.map_values(|s: String| s@)
    }
}

// ---------------------------------------------------------------------------
// Slots
// ---------------------------------------------------------------------------

/// How a slot resolves several contributions.
#[derive(Debug, Clone, Copy, PartialEq, Eq, Structural)]
pub enum SlotMode {
    /// Every contribution, highest priority first, ties in registration
    /// order.
    Append,
    /// The highest-priority contribution (the first registered on a tie).
    SingleWinner,
    /// A registration replaces every earlier contribution.
    Replace,
}

impl Default for SlotMode {
    fn default() -> (m: SlotMode)
        ensures
            m == SlotMode::Append,
    {
        SlotMode::Append
    }
}

/// A contribution to a slot.
#[derive(Debug, Clone, PartialEq, Eq)]
pub struct SlotEntry<T> {
    /// The plugin that made it.
    pub plugin_id: String,
    pub priority: i32,
    pub value: T,
}

/// `x` goes after the entries of at least its priority.
pub open spec fn insert_desc(s: Seq<(i32, int)>, x: (i32, int)) -> Seq<(i32, int)>
    decreases s.len(),
{
    if s.len() == 0 {
        seq![x]
    } else if s.last().0 >= x.0 {
        s.push(x)
    } else {
        insert_desc(s.drop_last(), x).push(s.last())
    }
}

/// The (priority, position) pairs stably sorted by decreasing priority.
pub open spec fn sort_desc(s: Seq<(i32, int)>) -> Seq<(i32, int)>
    decreases s.len(),
{
    if s.len() == 0 {
        Seq::empty()
    } else {
        insert_desc(sort_desc(s.drop_last()), s.last())
    }
}

/// The entries' priorities with their positions.
pub open spec fn keyed<T>(es: Seq<SlotEntry<T>>) -> Seq<(i32, int)> {
    Seq::new(es.len(), |i: int| (es[i].priority, i))
}

/// The position of the winner: the highest priority, the first on a tie.
pub open spec fn winner<T>(es: Seq<SlotEntry<T>>) -> int
    decreases es.len(),
{
    if es.len() <= 1 {
        0
    } else {
        let w = winner(es.drop_last());
        if es.last().priority > es[w].priority {
            es.len() - 1
        } else {
            w
        }
    }
}

/// The positions whose values a slot resolves to.
pub open spec fn resolved_positions<T>(mode: SlotMode, es: Seq<SlotEntry<T>>) -> Seq<int> {
    match mode {
        SlotMode::Append => sort_desc(keyed(es)).map_values(|p: (i32, int)| p.1),
        SlotMode::SingleWinner => if es.len() == 0 {
            Seq::empty()
        } else {
            seq![winner(es)]
        },
        SlotMode::Replace => if es.len() == 0 {
            Seq::empty()
        } else {
            seq![es.len() - 1]
        },
    }
}

/// Sorted by decreasing priority, positions increasing among equals.
pub open spec fn desc_stable(s: Seq<(i32, int)>) -> bool {
    forall|i: int, j: int|
        0 <= i < j < s.len() ==> s[i].0 > s[j].0 || (s[i].0 == s[j].0 && s[i].1 < s[j].1)
}

/// The position of the entry with `token`, or -1.
pub open spec fn token_index(ts: Seq<u64>, token: u64) -> int
    decreases ts.len(),
{
    if ts.len() == 0 {
        -1
    } else {
        let r = token_index(ts.drop_last(), token);
        if r >= 0 {
            r
        } else if ts.last() == token {
            ts.len() - 1
        } else {
            -1
        }
    }
}

proof fn lemma_token_index(ts: Seq<u64>, token: u64)
    ensures
        -1 <= token_index(ts, token) < ts.len(),
        token_index(ts, token) >= 0 ==> ts[token_index(ts, token)] == token,
        forall|j: int| 0 <= j < token_index(ts, token) ==> ts[j] != token,
        token_index(ts, token) < 0 ==> forall|j: int| 0 <= j < ts.len() ==> ts[j] != token,
    decreases ts.len(),
{
    if ts.len() > 0 {
        lemma_token_index(ts.drop_last(), token);
        assert forall|j: int| 0 <= j < ts.len() - 1 implies ts.drop_last()[j] == ts[j] by {}
    }
}

/// The entries not made by `id`, in order.
pub open spec fn without_plugin<T>(es: Seq<SlotEntry<T>>, id: Seq<char>) -> Seq<SlotEntry<T>>
    decreases es.len(),
{
    if es.len() == 0 {
        Seq::empty()
    } else {
        let r = without_plugin(es.drop_last(), id);
        if es.last().plugin_id@ == id {
            r
        } else {
            r.push(es.last())
        }
    }
}

proof fn lemma_without_plugin_len<T>(es: Seq<SlotEntry<T>>, id: Seq<char>)
    ensures
        without_plugin(es, id).len() <= es.len(),
    decreases es.len(),
{
    if es.len() > 0 {
        lemma_without_plugin_len(es.drop_last(), id);
    }
}

/// A named composition point that plugins contribute to. Each
/// contribution has a token; changes set a dirty flag.
#[derive(Debug, Clone)]
pub struct SlotRegistry<T> {
    mode: SlotMode,
    entries: Vec<SlotEntry<T>>,
    next_token: u64,
    tokens: Vec<u64>,
    dirty: bool,
}

impl<T: Clone> SlotRegistry<T> {
    pub closed spec fn mode_view(&self) -> SlotMode {
        self.mode
    }

    /// The contributions, in registration order.
    pub closed spec fn entries_view(&self) -> Seq<SlotEntry<T>> {
        self.entries@
    }

    /// The token of each contribution.
    pub closed spec fn tokens_view(&self) -> Seq<u64> {
        self.tokens@
    }

    /// The token the next registration gets.
    pub closed spec fn next_token_view(&self) -> u64 {
        self.next_token
    }

    pub closed spec fn is_dirty(&self) -> bool {
        self.dirty
    }

    /// A token per contribution.
    pub closed spec fn wf(&self) -> bool {
        self.entries@.len() == self.tokens@.len()
    }

    /// An empty, clean slot; tokens start at 1.
    pub fn new(mode: SlotMode) -> (s: SlotRegistry<T>)
        ensures
            s.wf(),
            s.mode_view() == mode,
            s.entries_view().len() == 0,
            s.next_token_view() == 1,
            !s.is_dirty(),
    {
        SlotRegistry { mode, entries: Vec::new(), next_token: 1, tokens: Vec::new(), dirty: false }
    }

    /// Adds a contribution and returns its token; under `Replace` the
    /// earlier contributions go first.
    pub fn register(&mut self, plugin_id: &str, priority: i32, value: T) -> (token: u64)
        requires
            old(self).wf(),
            old(self).next_token_view() < u64::MAX,
        ensures
            final(self).wf(),
            token == old(self).next_token_view(),
            final(self).next_token_view() == token + 1,
            final(self).mode_view() == old(self).mode_view(),
            final(self).is_dirty(),
            ({
                let kept_e = if old(self).mode_view() == SlotMode::Replace {
                    Seq::empty()
                } else {
                    old(self).entries_view()
                };
                let kept_t = if old(self).mode_view() == SlotMode::Replace {
                    Seq::empty()
                } else {
                    old(self).tokens_view()
                };
                &&& final(self).entries_view().len() == kept_e.len() + 1
                &&& final(self).entries_view().drop_last() == kept_e
                &&& final(self).entries_view().last().plugin_id@ == plugin_id@
                &&& final(self).entries_view().last().priority == priority
                &&& final(self).entries_view().last().value == value
                &&& final(self).tokens_view() == kept_t.push(token)
            }),
    {
        if self.mode == SlotMode::Replace {
            self.entries.clear();
            self.tokens.clear();
        }
        let token = self.next_token;
        self.next_token = self.next_token + 1;
        let ghost before = self.entries@;
        self.entries.push(SlotEntry { plugin_id: plugin_id.to_string(), priority, value });
        self.tokens.push(token);
        self.dirty = true;
        assert(self.entries@.drop_last() =~= before);
        token
    }

    /// Removes the contribution with `token`; whether there was one.
    pub fn remove(&mut self, token: u64) -> (removed: bool)
        requires
            old(self).wf(),
        ensures
            final(self).wf(),
            final(self).mode_view() == old(self).mode_view(),
            final(self).next_token_view() == old(self).next_token_view(),
            ({
                let k = token_index(old(self).tokens_view(), token);
                if k < 0 {
                    !removed && final(self).entries_view() == old(self).entries_view() && final(self).tokens_view()
                        == old(self).tokens_view() && final(self).is_dirty() == old(self).is_dirty()
                } else {
                    removed && final(self).entries_view() == old(self).entries_view().remove(k) && final(self).tokens_view() == old(self).tokens_view().remove(k) && final(self).is_dirty()
                }
            }),
    {
        proof {
            lemma_token_index(self.tokens@, token);
        }
        let mut i: usize = 0;
        while i < self.tokens.len()
            invariant
                i <= self.tokens@.len(),
                forall|j: int| 0 <= j < i ==> self.tokens@[j] != token,
                self.entries@ == old(self).entries@,
                self.tokens@ == old(self).tokens@,
                self.entries@.len() == self.tokens@.len(),
                self.next_token == old(self).next_token,
                self.dirty == old(self).dirty,
                self.mode == old(self).mode,
            decreases self.tokens@.len() - i,
        {
            if self.tokens[i] == token {
                proof {
                    lemma_token_index(self.tokens@, token);
                }
                self.tokens.remove(i);
                self.entries.remove(i);
                self.dirty = true;
                return true;
            }
            i += 1;
        }
        false
    }

    /// Removes every contribution of a plugin; returns how many.
    pub fn remove_plugin(&mut self, plugin_id: &str) -> (removed: usize)
        requires
            old(self).wf(),
        ensures
            final(self).wf(),
            final(self).mode_view() == old(self).mode_view(),
            final(self).next_token_view() == old(self).next_token_view(),
            final(self).entries_view() == without_plugin(old(self).entries_view(), plugin_id@),
            removed == old(self).entries_view().len() - final(self).entries_view().len(),
            final(self).is_dirty() == (old(self).is_dirty() || removed > 0),
    {
        let before = self.entries.len();
        let mut rest: Vec<SlotEntry<T>> = Vec::new();
        let mut rest_tokens: Vec<u64> = Vec::new();
        std::mem::swap(&mut rest, &mut self.entries);
        std::mem::swap(&mut rest_tokens, &mut self.tokens);
        let ghost all = rest@;
        let mut k: usize = 0;
        assert(all.subrange(0, 0) =~= Seq::<SlotEntry<T>>::empty());
        assert(rest@ =~= all.subrange(0, all.len() as int));
        while rest.len() > 0
            invariant
                k <= all.len(),
                before == all.len(),
                rest@ == all.subrange(k as int, all.len() as int),
                rest_tokens@.len() == rest@.len(),
                self.entries@ == without_plugin(all.subrange(0, k as int), plugin_id@),
                self.entries@.len() == self.tokens@.len(),
                self.mode == old(self).mode,
                self.next_token == old(self).next_token,
                self.dirty == old(self).dirty,
            decreases rest@.len(),
        {
            let ghost rest_before = rest@;
            let e = rest.remove(0);
            let t = rest_tokens.remove(0);
            assert(e == all[k as int]);
            assert(all.subrange(0, k + 1).drop_last() =~= all.subrange(0, k as int));
            if !str_eq(e.plugin_id.as_str(), plugin_id) {
                self.entries.push(e);
                self.tokens.push(t);
            }
            assert(rest@ =~= all.subrange(k + 1, all.len() as int));
            k += 1;
        }
        assert(all.subrange(0, k as int) =~= all);
        proof {
            lemma_without_plugin_len(all, plugin_id@);
        }
        let removed = before - self.entries.len();
        if removed > 0 {
            self.dirty = true;
        }
        removed
    }

    fn winner_position(&self) -> (w: usize)
        requires
            self.entries@.len() > 0,
        ensures
            w == winner(self.entries@),
            w < self.entries@.len(),
    {
        proof {
            lemma_winner(self.entries@);
        }
        let mut w: usize = 0;
        let mut i: usize = 1;
        while i < self.entries.len()
            invariant
                1 <= i <= self.entries@.len(),
                w == winner(self.entries@.subrange(0, i as int)),
                w < i,
            decreases self.entries@.len() - i,
        {
            proof {
                assert(self.entries@.subrange(0, i + 1).drop_last() =~= self.entries@.subrange(0, i as int));
                lemma_winner(self.entries@.subrange(0, i as int));
            }
            if self.entries[i].priority > self.entries[w].priority {
                w = i;
            }
            i += 1;
        }
        assert(self.entries@.subrange(0, i as int) =~= self.entries@);
        w
    }

    fn append_order(&self) -> (order: Vec<(i32, usize)>)
        ensures
            order@.map_values(|p: (i32, usize)| (p.0, p.1 as int)) == sort_desc(keyed(self.entries@)),
    {
        let ghost all = keyed(self.entries@);
        let mut sorted: Vec<(i32, usize)> = Vec::new();
        let mut k: usize = 0;
        assert(all.subrange(0, 0) =~= Seq::<(i32, int)>::empty());
        assert(sorted@.map_values(|p: (i32, usize)| (p.0, p.1 as int)) =~= Seq::<(i32, int)>::empty());
        while k < self.entries.len()
            invariant
                k <= self.entries@.len(),
                all == keyed(self.entries@),
                sorted@.map_values(|p: (i32, usize)| (p.0, p.1 as int)) == sort_desc(all.subrange(0, k as int)),
            decreases self.entries@.len() - k,
        {
            let x = (self.entries[k].priority, k);
            let ghost xv = (x.0, x.1 as int);
            assert(all[k as int] == xv);
            assert(all.subrange(0, k + 1).drop_last() =~= all.subrange(0, k as int));
            let ghost before = sorted@.map_values(|p: (i32, usize)| (p.0, p.1 as int));
            let mut p: usize = sorted.len();
            assert(before.subrange(0, p as int) =~= before);
            assert(insert_desc(before, xv) =~= insert_desc(before.subrange(0, p as int), xv) + before.subrange(
                p as int,
                before.len() as int,
            ));
            while p > 0 && sorted[p - 1].0 < x.0
                invariant
                    xv == (x.0, x.1 as int),
                    p <= sorted@.len(),
                    sorted@.map_values(|p: (i32, usize)| (p.0, p.1 as int)) == before,
                    insert_desc(before, xv) == insert_desc(before.subrange(0, p as int), xv) + before.subrange(
                        p as int,
                        before.len() as int,
                    ),
                decreases p,
            {
                proof {
                    let s = before.subrange(0, p as int);
                    assert(s.drop_last() =~= before.subrange(0, p - 1));
                    assert(before[p - 1] == (sorted@[p - 1].0, sorted@[p - 1].1 as int));
                    assert(s.last() == before[p - 1]);
                    assert(s.last().0 < xv.0);
                    assert(insert_desc(s, xv) == insert_desc(s.drop_last(), xv).push(s.last()));
                    assert(before.subrange(p - 1, before.len() as int) =~= seq![s.last()] + before.subrange(
                        p as int,
                        before.len() as int,
                    ));
                    assert(insert_desc(before.subrange(0, p - 1), xv).push(s.last()) + before.subrange(
                        p as int,
                        before.len() as int,
                    ) =~= insert_desc(before.subrange(0, p - 1), xv) + before.subrange(p - 1, before.len() as int));
                }
                p -= 1;
            }
            proof {
                let s = before.subrange(0, p as int);
                if p > 0 {
                    assert(before[p - 1] == (sorted@[p - 1].0, sorted@[p - 1].1 as int));
                }
                assert(insert_desc(s, xv) =~= s.push(xv));
            }
            let ghost sorted_before = sorted@;
            sorted.insert(p, x);
            assert(sorted@.map_values(|p: (i32, usize)| (p.0, p.1 as int)) =~= before.subrange(0, p as int).push(xv)
                + before.subrange(p as int, before.len() as int)) by {
                assert(sorted@ =~= sorted_before.insert(p as int, x));
            }
            k += 1;
        }
        assert(all.subrange(0, k as int) =~= all);
        sorted
    }

    /// The values the slot resolves to: under `Append` every value, highest
    /// priority first and ties in registration order; under
    /// `SingleWinner` the highest-priority value, the first on a tie; under
    /// `Replace` the last value. Values are cloned.
    pub fn resolve(&self) -> (r: Vec<T>)
        ensures
            r@.len() == resolved_positions(self.mode_view(), self.entries_view()).len(),
            forall|i: int|
                0 <= i < r@.len() ==> cloned::<T>(
                    self.entries_view()[resolved_positions(self.mode_view(), self.entries_view())[i]].value,
                    #[trigger] r@[i],
                ),
    {
        let mut r: Vec<T> = Vec::new();
        match self.mode {
            SlotMode::Append => {
                let order = self.append_order();
                proof {
                    lemma_sort_desc(self.entries@);
                    assert forall|q: int| 0 <= q < order@.len() implies 0 <= #[trigger] order@[q].1 < self.entries@.len() by {
                        assert(order@.map_values(|p: (i32, usize)| (p.0, p.1 as int))[q] == (order@[q].0, order@[q].1 as int));
                    }
                }
                let ghost pos = resolved_positions(self.mode, self.entries@);
                let mut i: usize = 0;
                while i < order.len()
                    invariant
                        self.mode == SlotMode::Append,
                        i <= order@.len(),
                        pos == resolved_positions(self.mode, self.entries@),
                        order@.map_values(|p: (i32, usize)| (p.0, p.1 as int)) == sort_desc(keyed(self.entries@)),
                        forall|q: int| 0 <= q < order@.len() ==> 0 <= #[trigger] order@[q].1 < self.entries@.len(),
                        r@.len() == i,
                        forall|q: int| 0 <= q < i ==> cloned::<T>(self.entries@[pos[q]].value, #[trigger] r@[q]),
                    decreases order@.len() - i,
                {
                    let idx = order[i].1;
                    assert(order@.map_values(|p: (i32, usize)| (p.0, p.1 as int))[i as int] == (order@[i as int].0, idx as int));
                    assert(pos[i as int] == idx as int);
                    let v = self.entries[idx].value.clone();
                    r.push(v);
                    i += 1;
                }
            },
            SlotMode::SingleWinner => {
                if self.entries.len() > 0 {
                    let w = self.winner_position();
                    r.push(self.entries[w].value.clone());
                }
            },
            SlotMode::Replace => {
                if self.entries.len() > 0 {
                    let last = self.entries.len() - 1;
                    r.push(self.entries[last].value.clone());
                }
            },
        }
        r
    }

    pub fn len(&self) -> (n: usize)
        ensures
            n == self.entries_view().len(),
    {
        self.entries.len()
    }

    pub fn is_empty(&self) -> (b: bool)
        ensures
            b == (self.entries_view().len() == 0),
    {
        self.entries.len() == 0
    }

    /// Returns the dirty flag and clears it.
    pub fn take_dirty(&mut self) -> (was: bool)
        ensures
            was == old(self).is_dirty(),
            !final(self).is_dirty(),
            final(self).entries_view() == old(self).entries_view(),
            final(self).tokens_view() == old(self).tokens_view(),
            final(self).next_token_view() == old(self).next_token_view(),
            final(self).mode_view() == old(self).mode_view(),
            final(self).wf() == old(self).wf(),
    {
        let was = self.dirty;
        self.dirty = false;
        was
    }
}

impl<T: Clone> Default for SlotRegistry<T> {
    fn default() -> (s: SlotRegistry<T>)
        ensures
            s.wf(),
            s.mode_view() == SlotMode::Append,
            s.entries_view().len() == 0,
    {
        SlotRegistry::new(SlotMode::Append)
    }
}

proof fn lemma_winner<T>(es: Seq<SlotEntry<T>>)
    requires
        es.len() > 0,
    ensures
        0 <= winner(es) < es.len(),
        forall|i: int| 0 <= i < es.len() ==> es[winner(es)].priority >= #[trigger] es[i].priority,
        forall|i: int| 0 <= i < winner(es) ==> #[trigger] es[i].priority < es[winner(es)].priority,
    decreases es.len(),
{
    if es.len() > 1 {
        lemma_winner(es.drop_last());
        assert forall|i: int| 0 <= i < es.len() - 1 implies es.drop_last()[i] == es[i] by {}
    }
}

proof fn lemma_insert_desc(s: Seq<(i32, int)>, x: (i32, int))
    requires
        desc_stable(s),
        forall|i: int| 0 <= i < s.len() ==> #[trigger] s[i].1 < x.1,
    ensures
        desc_stable(insert_desc(s, x)),
        insert_desc(s, x).to_multiset() == s.to_multiset().insert(x),
        insert_desc(s, x).len() == s.len() + 1,
    decreases s.len(),
{
    if s.len() == 0 {
        vstd::seq_lib::to_multiset_build(s, x);
        assert(insert_desc(s, x) =~= s.push(x));
    } else if s.last().0 >= x.0 {
        vstd::seq_lib::to_multiset_build(s, x);
    } else {
        let dl = s.drop_last();
        let l = s.last();
        assert forall|i: int| 0 <= i < dl.len() implies #[trigger] dl[i].1 < x.1 by {
            assert(dl[i] == s[i]);
        }
        lemma_insert_desc(dl, x);
        let r = insert_desc(dl, x);
        assert forall|i: int| 0 <= i < r.len() implies #[trigger] r[i].0 > l.0 || (r[i].0 == l.0 && r[i].1 < l.1) by {
            vstd::seq_lib::to_multiset_contains(r, r[i]);
            assert(r.contains(r[i]));
            vstd::seq_lib::to_multiset_contains(dl, r[i]);
            if r[i] != x {
                let k = choose|k: int| 0 <= k < dl.len() && dl[k] == r[i];
                assert(s[k] == dl[k]);
                assert(s[s.len() - 1] == l);
            }
        }
        vstd::seq_lib::to_multiset_build(r, l);
        vstd::seq_lib::to_multiset_build(dl, l);
        assert(dl.push(l) =~= s);
        assert(r.push(l).to_multiset() =~= s.to_multiset().insert(x));
    }
}

proof fn lemma_sort_desc_indices(s: Seq<(i32, int)>, n: int)
    requires
        forall|i: int| 0 <= i < s.len() ==> #[trigger] s[i].1 == i,
        n == s.len(),
    ensures
        forall|i: int| 0 <= i < sort_desc(s).len() ==> 0 <= #[trigger] sort_desc(s)[i].1 < n,
        desc_stable(sort_desc(s)),
        sort_desc(s).to_multiset() == s.to_multiset(),
        sort_desc(s).len() == s.len(),
    decreases s.len(),
{
    if s.len() == 0 {
        assert(sort_desc(s) =~= s);
    } else {
        let dl = s.drop_last();
        assert forall|i: int| 0 <= i < dl.len() implies #[trigger] dl[i].1 == i by {
            assert(dl[i] == s[i]);
        }
        lemma_sort_desc_indices(dl, n - 1);
        let sd = sort_desc(dl);
        assert(s.last().1 == n - 1);
        assert forall|i: int| 0 <= i < sd.len() implies #[trigger] sd[i].1 < s.last().1 by {}
        lemma_insert_desc(sd, s.last());
        vstd::seq_lib::to_multiset_build(dl, s.last());
        assert(dl.push(s.last()) =~= s);
        let r = sort_desc(s);
        assert forall|i: int| 0 <= i < r.len() implies 0 <= #[trigger] r[i].1 < n by {
            vstd::seq_lib::to_multiset_contains(r, r[i]);
            assert(r.contains(r[i]));
            vstd::seq_lib::to_multiset_contains(s, r[i]);
            let k = choose|k: int| 0 <= k < s.len() && s[k] == r[i];
        }
    }
}

proof fn lemma_sort_desc<T>(es: Seq<SlotEntry<T>>)
    ensures
        forall|i: int|
            0 <= i < sort_desc(keyed(es)).len() ==> 0 <= #[trigger] sort_desc(keyed(es))[i].1 < es.len(),
        desc_stable(sort_desc(keyed(es))),
        sort_desc(keyed(es)).to_multiset() == keyed(es).to_multiset(),
{
    lemma_sort_desc_indices(keyed(es), es.len() as int);
}

/// Contribution `a` comes before `b`: a higher priority, or the same
/// priority and registered earlier.
pub open spec fn ordered_pair<T>(es: Seq<SlotEntry<T>>, a: int, b: int) -> bool {
    es[a].priority > es[b].priority || (es[a].priority == es[b].priority && a < b)
}

/// Under `Append` a slot resolves to every contribution once, highest
/// priority first, contributions of equal priority in registration order.
pub proof fn lemma_append_resolves_sorted<T>(es: Seq<SlotEntry<T>>)
    ensures
        resolved_positions(SlotMode::Append, es).len() == es.len(),
        forall|i: int, j: int|
            #![trigger resolved_positions(SlotMode::Append, es)[i], resolved_positions(SlotMode::Append, es)[j]]
            0 <= i < j < es.len() ==> ordered_pair(es, resolved_positions(SlotMode::Append, es)[i], resolved_positions(SlotMode::Append, es)[j]),
        forall|k: int|
            0 <= k < es.len() ==> #[trigger] resolved_positions(SlotMode::Append, es).contains(k),
{
    let s = sort_desc(keyed(es));
    lemma_sort_desc(es);
    let ks = keyed(es);
    assert(ks.len() == es.len());
    assert(s.len() == es.len()) by {
        lemma_sort_desc_indices(ks, es.len() as int);
    }
    let pos = resolved_positions(SlotMode::Append, es);
    assert forall|i: int, j: int| 0 <= i < j < es.len() implies ordered_pair(es, #[trigger] pos[i], #[trigger] pos[j]) by {
        assert(pos[i] == s[i].1);
        assert(pos[j] == s[j].1);
        vstd::seq_lib::to_multiset_contains(s, s[i]);
        assert(s.contains(s[i]));
        vstd::seq_lib::to_multiset_contains(ks, s[i]);
        vstd::seq_lib::to_multiset_contains(s, s[j]);
        assert(s.contains(s[j]));
        vstd::seq_lib::to_multiset_contains(ks, s[j]);
        let ki = choose|k: int| 0 <= k < ks.len() && ks[k] == s[i];
        let kj = choose|k: int| 0 <= k < ks.len() && ks[k] == s[j];
    }
    assert forall|k: int| 0 <= k < es.len() implies #[trigger] pos.contains(k) by {
        assert(ks[k] == (es[k].priority, k));
        vstd::seq_lib::to_multiset_contains(ks, ks[k]);
        assert(ks.contains(ks[k]));
        vstd::seq_lib::to_multiset_contains(s, ks[k]);
        let q = choose|q: int| 0 <= q < s.len() && s[q] == ks[k];
        assert(pos[q] == k);
    }
}

/// Under `SingleWinner` a slot resolves to one contribution of the highest
/// priority, the first registered among those; nothing for an empty slot.
pub proof fn lemma_single_winner<T>(es: Seq<SlotEntry<T>>)
    requires
        es.len() > 0,
    ensures
        resolved_positions(SlotMode::SingleWinner, es).len() == 1,
        ({
            let w = resolved_positions(SlotMode::SingleWinner, es)[0];
            &&& 0 <= w < es.len()
            &&& forall|i: int| 0 <= i < es.len() ==> es[w].priority >= #[trigger] es[i].priority
            &&& forall|i: int| 0 <= i < w ==> #[trigger] es[i].priority < es[w].priority
        }),
{
    lemma_winner(es);
}

} // verus!
