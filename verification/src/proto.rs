//! The vocabulary that two ends of a bridge agree on: what a host declares in
//! its greeting, how events and filters are declared, and which plugin holds
//! which name.

use vstd::prelude::*;

use crate::rpc::{ProtoError, ProtoErrorView};
use crate::text::{same, texts};

verus! {

// ── the greeting ────────────────────────────────────────────────────

/// What a host can do, as it says in its greeting.
#[derive(Debug)]
pub struct PeerCaps {
    pub services: Vec<String>,
    pub wf_kinds: Vec<String>,
    pub scopes: Vec<String>,
}

/// The names that are not among `known`, in order.
pub open spec fn missing(names: Seq<Seq<char>>, known: Seq<Seq<char>>) -> Seq<Seq<char>> {
    names.filter(|n: Seq<char>| !known.contains(n))
}

impl PeerCaps {
    /// The services that a plugin needs and the host does not have.
    pub fn missing_services(&self, injects: &Vec<String>) -> (r: Vec<String>)
        ensures
            texts(r@) == missing(texts(injects@), texts(self.services@)),
    {
        let mut out: Vec<String> = Vec::new();
        let ghost names = texts(injects@);
        let ghost absent = |n: Seq<char>| !texts(self.services@).contains(n);
        let mut i: usize = 0;
        proof {
            reveal(Seq::filter);
            assert(texts(out@) =~= names.take(0).filter(absent));
        }
        while i < injects.len()
            invariant
                i <= injects@.len(),
                names == texts(injects@),
                absent == |n: Seq<char>| !texts(self.services@).contains(n),
                texts(out@) == names.take(i as int).filter(absent),
            decreases injects@.len() - i,
        {
            let ghost before = texts(out@);
            let known = among(&self.services, injects[i].as_str());
            proof {
                reveal(Seq::filter);
                assert(names.take(i + 1).drop_last() =~= names.take(i as int));
                assert(names.take(i + 1).last() == injects@[i as int]@);
            }
            if !known {
                out.push(injects[i].clone());
                assert(texts(out@) =~= before.push(injects@[i as int]@));
            }
            i = i + 1;
        }
        assert(names.take(i as int) =~= names);
        out
    }
}

/// Whether `name` is among `names`.
pub fn among(names: &Vec<String>, name: &str) -> (r: bool)
    ensures
        r == texts(names@).contains(name@),
{
    let mut i: usize = 0;
    while i < names.len()
        invariant
            i <= names@.len(),
            forall|k: int| 0 <= k < i ==> texts(names@)[k] != name@,
        decreases names@.len() - i,
    {
        if same(names[i].as_str(), name) {
            assert(texts(names@)[i as int] == name@);
            return true;
        }
        i = i + 1;
    }
    false
}

/// The greeting of a host.
#[derive(Debug)]
pub struct HelloCaps {
    pub protocol: u32,
    pub base: String,
    pub base_semver: String,
    pub stack: Vec<String>,
    pub caps: PeerCaps,
}

/// What a bridge expects of its host: this version of the protocol and, where
/// it is given, this base.
#[derive(Debug)]
pub struct ExpectedHost {
    pub protocol: u32,
    pub base: Option<String>,
}

impl ExpectedHost {
    /// Any base that speaks this version.
    pub fn protocol(protocol: u32) -> (r: ExpectedHost)
        ensures
            r.protocol == protocol,
            r.base is None,
    {
        ExpectedHost { protocol, base: None }
    }
}

// ── declarations ────────────────────────────────────────────────────

/// How an event is handed to its listeners.
#[derive(Debug, Clone, Copy, PartialEq, Eq, Structural)]
pub enum EvtMode {
    Emit,
    Parallel,
    Serial,
}

/// The name of a mode on the wire.
pub open spec fn mode_name(m: EvtMode) -> Seq<char> {
    match m {
        EvtMode::Emit => "emit"@,
        EvtMode::Parallel => "parallel"@,
        EvtMode::Serial => "serial"@,
    }
}

impl EvtMode {
    /// The name of the mode on the wire.
    pub fn name(self) -> (r: &'static str)
        ensures
            r@ == mode_name(self),
    {
        match self {
            EvtMode::Emit => "emit",
            EvtMode::Parallel => "parallel",
            EvtMode::Serial => "serial",
        }
    }

    /// The mode of this name; any other name is refused.
    pub fn from_name(name: &str) -> (r: Option<Self>)
        ensures
            match r {
                Some(m) => name@ == mode_name(m),
                None => forall|m: EvtMode| name@ != #[trigger] mode_name(m),
            },
    {
        if same(name, "emit") {
            Some(EvtMode::Emit)
        } else if same(name, "parallel") {
            Some(EvtMode::Parallel)
        } else if same(name, "serial") {
            Some(EvtMode::Serial)
        } else {
            None
        }
    }
}

/// One event that a plugin listens to.
#[derive(Debug)]
pub struct EvtDeclaration {
    pub name: String,
    pub mode: EvtMode,
}

/// How a filter stands to what it filters: it decides, it goes around, or it
/// accompanies a stream.
#[derive(Debug, Clone, Copy, PartialEq, Eq, Structural)]
pub enum WfKind {
    Decide,
    Around,
    Stream,
}

/// The name of a kind on the wire.
pub open spec fn kind_name(k: WfKind) -> Seq<char> {
    match k {
        WfKind::Decide => "decide"@,
        WfKind::Around => "around"@,
        WfKind::Stream => "stream"@,
    }
}

impl WfKind {
    /// The name of the kind on the wire.
    pub fn name(self) -> (r: &'static str)
        ensures
            r@ == kind_name(self),
    {
        match self {
            WfKind::Decide => "decide",
            WfKind::Around => "around",
            WfKind::Stream => "stream",
        }
    }

    /// The kind of this name; any other name is refused.
    pub fn from_name(name: &str) -> (r: Option<Self>)
        ensures
            match r {
                Some(k) => name@ == kind_name(k),
                None => forall|k: WfKind| name@ != #[trigger] kind_name(k),
            },
    {
        if same(name, "decide") {
            Some(WfKind::Decide)
        } else if same(name, "around") {
            Some(WfKind::Around)
        } else if same(name, "stream") {
            Some(WfKind::Stream)
        } else {
            None
        }
    }
}

/// One filter that a plugin registers.
#[derive(Debug)]
pub struct WfDeclaration {
    pub name: String,
    pub kind: WfKind,
}

/// Each mode and each kind has a name of its own.
pub proof fn law_wire_names_are_distinct(m: EvtMode, n: EvtMode, j: WfKind, k: WfKind)
    ensures
        mode_name(m) == mode_name(n) ==> m == n,
        kind_name(j) == kind_name(k) ==> j == k,
{
    reveal_strlit("emit");
    reveal_strlit("parallel");
    reveal_strlit("serial");
    reveal_strlit("decide");
    reveal_strlit("around");
    reveal_strlit("stream");
    if mode_name(m) == mode_name(n) {
        assert(mode_name(m).len() == mode_name(n).len());
    }
    if kind_name(j) == kind_name(k) {
        assert(kind_name(j)[0] == kind_name(k)[0]);
    }
}

// ── loaded plugins ──────────────────────────────────────────────────

/// The loaded plugins: each name stands for one entry.
#[derive(Debug)]
pub struct PluginLedger {
    entries: Vec<(String, String)>,
}

/// The map that a list of pairs stands for, a later pair before an earlier.
pub open spec fn pairs_map(s: Seq<(String, String)>) -> Map<Seq<char>, Seq<char>>
    decreases s.len(),
{
    if s.len() == 0 {
        Map::empty()
    } else {
        pairs_map(s.drop_last()).insert(s.last().0@, s.last().1@)
    }
}

/// No two pairs have the same key.
pub open spec fn distinct_keys(s: Seq<(String, String)>) -> bool {
    forall|i: int, j: int| 0 <= i < j < s.len() ==> (#[trigger] s[i]).0@ != (#[trigger] s[j]).0@
}

proof fn lemma_pairs_map(s: Seq<(String, String)>)
    requires
        distinct_keys(s),
    ensures
        pairs_map(s).dom().finite(),
        pairs_map(s).len() == s.len(),
        forall|i: int| 0 <= i < s.len() ==> pairs_map(s).contains_key((#[trigger] s[i]).0@)
            && pairs_map(s)[s[i].0@] == s[i].1@,
        forall|k: Seq<char>| #[trigger]
            pairs_map(s).contains_key(k) ==> exists|i: int|
                0 <= i < s.len() && (#[trigger] s[i]).0@ == k,
    decreases s.len(),
{
    if s.len() > 0 {
        let front = s.drop_last();
        assert forall|i: int, j: int| 0 <= i < j < front.len() implies (#[trigger] front[i]).0@ != (
        #[trigger] front[j]).0@ by {
            assert(s[i].0@ != s[j].0@);
        }
        lemma_pairs_map(front);
        assert(!pairs_map(front).contains_key(s.last().0@)) by {
            if pairs_map(front).contains_key(s.last().0@) {
                let i = choose|i: int| 0 <= i < front.len() && (#[trigger] front[i]).0@ == s.last().0@;
                assert(s[i].0@ != s[s.len() - 1].0@);
            }
        }
        assert forall|i: int| 0 <= i < s.len() implies pairs_map(s).contains_key(
            (#[trigger] s[i]).0@,
        ) && pairs_map(s)[s[i].0@] == s[i].1@ by {
            if i < front.len() {
                assert(front[i] == s[i]);
                assert(s[i].0@ != s[s.len() - 1].0@);
            }
        }
        assert forall|k: Seq<char>| #[trigger] pairs_map(s).contains_key(k) implies exists|i: int|
            0 <= i < s.len() && (#[trigger] s[i]).0@ == k by {
            if k != s.last().0@ {
                let i = choose|i: int| 0 <= i < front.len() && (#[trigger] front[i]).0@ == k;
                assert(s[i].0@ == k);
            } else {
                assert(s[s.len() - 1].0@ == k);
            }
        }
    }
}

/// The map of a list without one of its pairs.
proof fn lemma_pairs_map_remove(s: Seq<(String, String)>, i: int)
    requires
        distinct_keys(s),
        0 <= i < s.len(),
    ensures
        distinct_keys(s.remove(i)),
        pairs_map(s.remove(i)) == pairs_map(s).remove(s[i].0@),
{
    let t = s.remove(i);
    assert forall|a: int, b: int| 0 <= a < b < t.len() implies (#[trigger] t[a]).0@ != (
    #[trigger] t[b]).0@ by {
        let x = if a < i {
            a
        } else {
            a + 1
        };
        let y = if b < i {
            b
        } else {
            b + 1
        };
        assert(s[x].0@ != s[y].0@);
    }
    lemma_pairs_map(s);
    lemma_pairs_map(t);
    let m = pairs_map(s).remove(s[i].0@);
    assert forall|k: Seq<char>| #[trigger] pairs_map(t).contains_key(k) <==> m.contains_key(k) by {
        if pairs_map(t).contains_key(k) {
            let a = choose|a: int| 0 <= a < t.len() && (#[trigger] t[a]).0@ == k;
            let x = if a < i {
                a
            } else {
                a + 1
            };
            assert(s[x].0@ == k);
            if x < i {
                assert(s[x].0@ != s[i].0@);
            } else {
                assert(s[i].0@ != s[x].0@);
            }
        }
        if m.contains_key(k) {
            let x = choose|x: int| 0 <= x < s.len() && (#[trigger] s[x]).0@ == k;
            let a = if x < i {
                x
            } else {
                x - 1
            };
            assert(t[a].0@ == k);
        }
    }
    assert forall|k: Seq<char>| #[trigger] pairs_map(t).contains_key(k) implies pairs_map(t)[k]
        == m[k] by {
        let a = choose|a: int| 0 <= a < t.len() && (#[trigger] t[a]).0@ == k;
        let x = if a < i {
            a
        } else {
            a + 1
        };
        assert(s[x] == t[a]);
    }
    assert(pairs_map(t) =~= m);
}

impl View for PluginLedger {
    type V = Map<Seq<char>, Seq<char>>;

    closed spec fn view(&self) -> Map<Seq<char>, Seq<char>> {
        pairs_map(self.entries@)
    }
}

impl Default for PluginLedger {
    fn default() -> (r: Self)
        ensures
            r@ == Map::<Seq<char>, Seq<char>>::empty(),
    {
        PluginLedger { entries: Vec::new() }
    }
}

/// What loading a plugin makes of the plugins there are: a name that stands for
/// another entry is refused, and the entry that has it is named.
pub open spec fn loading(
    plugins: Map<Seq<char>, Seq<char>>,
    plugin_id: Seq<char>,
    entry: Seq<char>,
) -> Result<Map<Seq<char>, Seq<char>>, ProtoErrorView> {
    if plugins.contains_key(plugin_id) && plugins[plugin_id] != entry {
        Err(
            ProtoErrorView::DuplicatePlugin {
                plugin_id,
                existing_entry: plugins[plugin_id],
                attempted_entry: entry,
            },
        )
    } else {
        Ok(plugins.insert(plugin_id, entry))
    }
}

impl PluginLedger {
    #[verifier::type_invariant]
    spec fn one_entry_for_each_name(&self) -> bool {
        distinct_keys(self.entries@)
    }

    /// The place of the plugin of this name, or the number of plugins where
    /// there is none.
    fn find(&self, plugin_id: &str) -> (r: usize)
        ensures
            r <= self.entries@.len(),
            r < self.entries@.len() ==> self.entries@[r as int].0@ == plugin_id@,
            r == self.entries@.len() ==> !self@.contains_key(plugin_id@),
            r < self.entries@.len() ==> self@.contains_key(plugin_id@) && self@[plugin_id@]
                == self.entries@[r as int].1@,
    {
        proof {
            use_type_invariant(self);
            lemma_pairs_map(self.entries@);
        }
        let mut i: usize = 0;
        while i < self.entries.len()
            invariant
                i <= self.entries@.len(),
                forall|k: int| 0 <= k < i ==> (#[trigger] self.entries@[k]).0@ != plugin_id@,
                forall|i: int|
                    0 <= i < self.entries@.len() ==> self@.contains_key(
                        (#[trigger] self.entries@[i]).0@,
                    ) && self@[self.entries@[i].0@] == self.entries@[i].1@,
            decreases self.entries@.len() - i,
        {
            if same(self.entries[i].0.as_str(), plugin_id) {
                return i;
            }
            i = i + 1;
        }
        i
    }

    /// Loads a plugin. To load what is loaded changes nothing; a name that
    /// stands for another entry is refused.
    pub fn load(&mut self, plugin_id: &str, entry: &str) -> (r: Result<(), ProtoError>)
        ensures
            match loading(old(self)@, plugin_id@, entry@) {
                Ok(loaded) => r is Ok && final(self)@ == loaded,
                Err(refusal) => r matches Err(e) && e@ == refusal && final(self)@ == old(self)@,
            },
    {
        proof {
            use_type_invariant(&*self);
            lemma_pairs_map(self.entries@);
        }
        let i: usize = self.find(plugin_id);
        if i < self.entries.len() {
            if same(self.entries[i].1.as_str(), entry) {
                assert(self@ =~= self@.insert(plugin_id@, entry@));
                return Ok(());
            }
            return Err(
                ProtoError::DuplicatePlugin {
                    plugin_id: plugin_id.to_owned(),
                    existing_entry: self.entries[i].1.clone(),
                    attempted_entry: entry.to_owned(),
                },
            );
        }
        let mut entries: Vec<(String, String)> = Vec::new();
        std::mem::swap(&mut self.entries, &mut entries);
        let ghost before = entries@;
        entries.push((plugin_id.to_owned(), entry.to_owned()));
        proof {
            assert(entries@.drop_last() =~= before);
            assert forall|a: int, b: int| 0 <= a < b < entries@.len() implies (
            #[trigger] entries@[a]).0@ != (#[trigger] entries@[b]).0@ by {
                if b < before.len() {
                    assert(before[a].0@ != before[b].0@);
                } else {
                    assert(pairs_map(before).contains_key(before[a].0@));
                }
            }
        }
        self.entries = entries;
        Ok(())
    }

    /// Unloads a plugin; says whether it was loaded.
    pub fn unload(&mut self, plugin_id: &str) -> (r: bool)
        ensures
            r == old(self)@.contains_key(plugin_id@),
            final(self)@ == old(self)@.remove(plugin_id@),
    {
        proof {
            use_type_invariant(&*self);
        }
        let i: usize = self.find(plugin_id);
        if i == self.entries.len() {
            assert(self@.remove(plugin_id@) =~= self@);
            return false;
        }
        let mut entries: Vec<(String, String)> = Vec::new();
        std::mem::swap(&mut self.entries, &mut entries);
        proof {
            lemma_pairs_map_remove(entries@, i as int);
        }
        let _ = entries.remove(i);
        self.entries = entries;
        true
    }

    /// The entry that a name stands for.
    pub fn entry(&self, plugin_id: &str) -> (r: Option<&str>)
        ensures
            match r {
                Some(e) => self@.contains_key(plugin_id@) && self@[plugin_id@] == e@,
                None => !self@.contains_key(plugin_id@),
            },
    {
        let i: usize = self.find(plugin_id);
        if i < self.entries.len() {
            Some(self.entries[i].1.as_str())
        } else {
            None
        }
    }

    /// How many plugins are loaded.
    pub fn len(&self) -> (r: usize)
        ensures
            self@.dom().finite(),
            r == self@.len(),
    {
        proof {
            use_type_invariant(self);
            lemma_pairs_map(self.entries@);
        }
        self.entries.len()
    }

    pub fn is_empty(&self) -> (r: bool)
        ensures
            r == (self@ == Map::<Seq<char>, Seq<char>>::empty()),
    {
        proof {
            use_type_invariant(self);
            lemma_pairs_map(self.entries@);
            if self.entries@.len() > 0 {
                assert(self@.contains_key(self.entries@[0].0@));
            } else {
                assert(self@ =~= Map::empty());
            }
        }
        self.entries.len() == 0
    }
}

/// A name is held by one entry at a time. Once a plugin is loaded, loading it
/// again changes nothing, and any other entry is refused under its name until
/// it is unloaded; then the name is free for any.
pub proof fn law_names_are_held_once(
    plugins: Map<Seq<char>, Seq<char>>,
    plugin_id: Seq<char>,
    entry: Seq<char>,
    other: Seq<char>,
)
    requires
        loading(plugins, plugin_id, entry) is Ok,
    ensures
        ({
            let loaded = loading(plugins, plugin_id, entry)->Ok_0;
            &&& loading(loaded, plugin_id, entry) == Ok::<
                Map<Seq<char>, Seq<char>>,
                ProtoErrorView,
            >(loaded)
            &&& other != entry ==> loading(loaded, plugin_id, other) == Err::<
                Map<Seq<char>, Seq<char>>,
                ProtoErrorView,
            >(
                ProtoErrorView::DuplicatePlugin {
                    plugin_id,
                    existing_entry: entry,
                    attempted_entry: other,
                },
            )
            &&& loading(loaded.remove(plugin_id), plugin_id, other) is Ok
            &&& !plugins.contains_key(plugin_id) ==> loaded.remove(plugin_id) == plugins
        }),
{
    let loaded = plugins.insert(plugin_id, entry);
    assert(loaded.insert(plugin_id, entry) =~= loaded);
    if !plugins.contains_key(plugin_id) {
        assert(loaded.remove(plugin_id) =~= plugins);
    }
}

/// A service is missing just where it is needed and not there; the missing
/// ones come in the order they are asked for.
pub proof fn law_missing_services(
    a: Seq<Seq<char>>,
    b: Seq<Seq<char>>,
    known: Seq<Seq<char>>,
    name: Seq<char>,
)
    ensures
        missing(a, known).contains(name) <==> a.contains(name) && !known.contains(name),
        missing(a + b, known) == missing(a, known) + missing(b, known),
        known.contains(name) ==> missing(seq![name], known) == Seq::<Seq<char>>::empty(),
        !known.contains(name) ==> missing(seq![name], known) == seq![name],
{
    let absent = |n: Seq<char>| !known.contains(n);
    let r = missing(a, known);
    if r.contains(name) {
        a.lemma_filter_contains_rev(absent, name);
        let i = choose|i: int| 0 <= i < r.len() && r[i] == name;
        broadcast use vstd::seq_lib::group_filter_ensures;

        assert(absent(a.filter(absent)[i]));
    }
    if a.contains(name) && !known.contains(name) {
        broadcast use vstd::seq_lib::group_filter_ensures;

        let i = choose|i: int| 0 <= i < a.len() && a[i] == name;
        assert(absent(a[i]));
        assert(a.filter(absent).contains(a[i]));
    }
    Seq::filter_distributes_over_add(a, b, absent);
    reveal(Seq::filter);
    assert(seq![name].drop_last() =~= Seq::empty());
    assert(seq![name].drop_last().filter(absent) =~= Seq::empty());
    assert(Seq::<Seq<char>>::empty().push(name) =~= seq![name]);
}

/// Loading a plugin leaves the names of all others as they were.
pub proof fn law_other_plugins_stay(
    plugins: Map<Seq<char>, Seq<char>>,
    plugin_id: Seq<char>,
    entry: Seq<char>,
    other: Seq<char>,
)
    requires
        other != plugin_id,
        loading(plugins, plugin_id, entry) is Ok,
    ensures
        loading(plugins, plugin_id, entry)->Ok_0.contains_key(other) == plugins.contains_key(other),
        loading(plugins, plugin_id, entry)->Ok_0[other] == plugins[other],
        loading(plugins, plugin_id, entry)->Ok_0.contains_key(plugin_id),
        loading(plugins, plugin_id, entry)->Ok_0[plugin_id] == entry,
{
}

/// How modes and kinds are named on the wire.
pub proof fn law_wire_names(m: EvtMode, k: WfKind)
    ensures
        m is Emit <==> mode_name(m) == "emit"@,
        m is Parallel <==> mode_name(m) == "parallel"@,
        m is Serial <==> mode_name(m) == "serial"@,
        k is Decide <==> kind_name(k) == "decide"@,
        k is Around <==> kind_name(k) == "around"@,
        k is Stream <==> kind_name(k) == "stream"@,
{
    law_wire_names_are_distinct(m, EvtMode::Emit, k, WfKind::Decide);
    law_wire_names_are_distinct(m, EvtMode::Parallel, k, WfKind::Around);
    law_wire_names_are_distinct(m, EvtMode::Serial, k, WfKind::Stream);
}

} // verus!
