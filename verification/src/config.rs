//! Runtime configuration, read from the `config { .. }` block of a program.
use vstd::prelude::*;
use crate::ast::{
    channel_view, config_value_view, dict_view, entries_view, entry_view, item_view, items_view,
    lemma_items_view_take, ChannelDef, ChannelDefV, ConfigBlock, ConfigEntry, ConfigEntryV,
    ConfigValue, ConfigValueV, Item, ItemV, Program, unit_secs,
};
use crate::dispatch::{channel_defs_view, channels_in, collect_channel_defs};
use crate::channels::ConnectorConfig;
use crate::strmap::{find_key, keyed, map_of, set_key, unique_keys};
use crate::text::text_eq;

verus! {

#[derive(Debug, Clone)]
pub struct StorageConfig {
    pub backend: String,
    pub url: String,
}

/// A vector store: an external service, or one the runtime starts itself.
#[derive(Debug, Clone)]
pub enum VectorConfig {
    External { backend: String, url: String },
    Auto { backend: String },
}

/// A graph store: an external service, or one the runtime starts itself.
#[derive(Debug, Clone)]
pub enum GraphConfig {
    External { backend: String, url: String },
    Auto { backend: String },
}

#[derive(Debug, Clone)]
pub struct EmbeddingConfig {
    pub provider: String,
    pub model: String,
}

#[derive(Debug, Clone)]
pub struct ExtractorConfig {
    pub provider: String,
    pub model: String,
}

#[derive(Debug, Clone)]
pub struct ChannelRuntimeConfig {
    pub source: String,
    pub config: ConnectorConfig,
    pub poll_interval_secs: u64,
}

/// Runtime configuration. Each list of named entries is a map from names to
/// entries; the configurations that this module builds hold each name once.
#[derive(Debug, Clone)]
pub struct RuntimeConfig {
    pub storage: Option<StorageConfig>,
    pub vectors: Vec<(String, VectorConfig)>,
    pub graphs: Vec<(String, GraphConfig)>,
    pub embedding: Option<EmbeddingConfig>,
    pub extractor: Option<ExtractorConfig>,
    pub channels: Vec<(String, ChannelRuntimeConfig)>,
    pub host: String,
    pub port: u16,
}

// ───────────────────────────── models ─────────────────────────────

/// A store as a backend name and, for an external one, its address.
pub enum StoreV {
    External { backend: Seq<char>, url: Seq<char> },
    Auto { backend: Seq<char> },
}

pub struct ChannelRuntimeV {
    pub source: Seq<char>,
    pub config: Map<Seq<char>, Seq<char>>,
    pub poll_interval_secs: u64,
}

pub struct RuntimeConfigV {
    /// Backend and address.
    pub storage: Option<(Seq<char>, Seq<char>)>,
    pub vectors: Map<Seq<char>, StoreV>,
    pub graphs: Map<Seq<char>, StoreV>,
    /// Provider and model.
    pub embedding: Option<(Seq<char>, Seq<char>)>,
    /// Provider and model.
    pub extractor: Option<(Seq<char>, Seq<char>)>,
    pub channels: Map<Seq<char>, ChannelRuntimeV>,
    pub host: Seq<char>,
    pub port: u16,
}

impl View for VectorConfig {
    type V = StoreV;

    open spec fn view(&self) -> StoreV {
        match self {
            VectorConfig::External { backend, url } => StoreV::External {
                backend: backend@,
                url: url@,
            },
            VectorConfig::Auto { backend } => StoreV::Auto { backend: backend@ },
        }
    }
}

impl View for GraphConfig {
    type V = StoreV;

    open spec fn view(&self) -> StoreV {
        match self {
            GraphConfig::External { backend, url } => StoreV::External {
                backend: backend@,
                url: url@,
            },
            GraphConfig::Auto { backend } => StoreV::Auto { backend: backend@ },
        }
    }
}

impl View for ChannelRuntimeConfig {
    type V = ChannelRuntimeV;

    open spec fn view(&self) -> ChannelRuntimeV {
        ChannelRuntimeV {
            source: self.source@,
            config: self.config@,
            poll_interval_secs: self.poll_interval_secs,
        }
    }
}

impl View for RuntimeConfig {
    type V = RuntimeConfigV;

    open spec fn view(&self) -> RuntimeConfigV {
        RuntimeConfigV {
            storage: match self.storage {
                Some(s) => Some((s.backend@, s.url@)),
                None => None,
            },
            vectors: map_of(self.vectors@),
            graphs: map_of(self.graphs@),
            embedding: match self.embedding {
                Some(e) => Some((e.provider@, e.model@)),
                None => None,
            },
            extractor: match self.extractor {
                Some(e) => Some((e.provider@, e.model@)),
                None => None,
            },
            channels: map_of(self.channels@),
            host: self.host@,
            port: self.port,
        }
    }
}

// ───────────────────────────── reading the config block ─────────────────────────────

pub open spec fn default_config() -> RuntimeConfigV {
    RuntimeConfigV {
        storage: None,
        vectors: Map::empty(),
        graphs: Map::empty(),
        embedding: None,
        extractor: None,
        channels: Map::empty(),
        host: "localhost"@,
        port: 8080,
    }
}

/// A store named by a config value: `auto("backend")`, `backend("url")`, or
/// the keyword `auto` (the default backend).
pub open spec fn store_entry(v: ConfigValueV, default_backend: Seq<char>) -> Option<StoreV> {
    match v {
        ConfigValueV::FnCall { name, arg } => if name == "auto"@ {
            Some(StoreV::Auto { backend: arg })
        } else {
            Some(StoreV::External { backend: name, url: arg })
        },
        ConfigValueV::Auto => Some(StoreV::Auto { backend: default_backend }),
        _ => None,
    }
}

/// The stores of a `{ name: value, .. }` dictionary, added to `m` in order.
pub open spec fn stores_from_dict(
    m: Map<Seq<char>, StoreV>,
    d: Seq<(Seq<char>, ConfigValueV)>,
    default_backend: Seq<char>,
) -> Map<Seq<char>, StoreV>
    decreases d.len(),
{
    if d.len() == 0 {
        m
    } else {
        let m1 = stores_from_dict(m, d.drop_last(), default_backend);
        match store_entry(d.last().1, default_backend) {
            Some(s) => m1.insert(d.last().0, s),
            None => m1,
        }
    }
}

/// The stores of a `vector:` or `graph:` entry added to `m`: each of a
/// dictionary's, or a single one under the name `default`.
pub open spec fn stores_from(
    m: Map<Seq<char>, StoreV>,
    v: ConfigValueV,
    default_backend: Seq<char>,
) -> Map<Seq<char>, StoreV> {
    match v {
        ConfigValueV::Dict(d) => stores_from_dict(m, d, default_backend),
        _ => match store_entry(v, default_backend) {
            Some(s) => m.insert("default"@, s),
            None => m,
        },
    }
}

pub open spec fn fn_call(v: ConfigValueV) -> Option<(Seq<char>, Seq<char>)> {
    match v {
        ConfigValueV::FnCall { name, arg } => Some((name, arg)),
        _ => None,
    }
}

/// One entry of the config block applied to `c`.
pub open spec fn apply_entry(c: RuntimeConfigV, e: ConfigEntryV) -> RuntimeConfigV {
    if e.key == "storage"@ {
        match fn_call(e.value) {
            Some(p) => RuntimeConfigV { storage: Some(p), ..c },
            None => c,
        }
    } else if e.key == "vector"@ {
        RuntimeConfigV { vectors: stores_from(c.vectors, e.value, "qdrant"@), ..c }
    } else if e.key == "graph"@ {
        RuntimeConfigV { graphs: stores_from(c.graphs, e.value, "neo4j"@), ..c }
    } else if e.key == "embedding"@ {
        match fn_call(e.value) {
            Some(p) => RuntimeConfigV { embedding: Some(p), ..c },
            None => c,
        }
    } else if e.key == "extractor"@ {
        match fn_call(e.value) {
            Some(p) => RuntimeConfigV { extractor: Some(p), ..c },
            None => c,
        }
    } else {
        c
    }
}

/// The configuration that a config block's entries describe, in order.
pub open spec fn config_from(es: Seq<ConfigEntryV>) -> RuntimeConfigV
    decreases es.len(),
{
    if es.len() == 0 {
        default_config()
    } else {
        apply_entry(config_from(es.drop_last()), es.last())
    }
}

fn parse_vector_entry(value: &ConfigValue) -> (r: Option<VectorConfig>)
    ensures
        match store_entry(config_value_view(*value), "qdrant"@) {
            Some(s) => r matches Some(x) && x@ == s,
            None => r is None,
        },
{
    match value {
        ConfigValue::FnCall { name, arg } => if text_eq(name.as_str(), "auto") {
            Some(VectorConfig::Auto { backend: arg.clone() })
        } else {
            Some(VectorConfig::External { backend: name.clone(), url: arg.clone() })
        },
        ConfigValue::Auto => Some(VectorConfig::Auto { backend: String::from_str("qdrant") }),
        _ => None,
    }
}

fn parse_graph_entry(value: &ConfigValue) -> (r: Option<GraphConfig>)
    ensures
        match store_entry(config_value_view(*value), "neo4j"@) {
            Some(s) => r matches Some(x) && x@ == s,
            None => r is None,
        },
{
    match value {
        ConfigValue::FnCall { name, arg } => if text_eq(name.as_str(), "auto") {
            Some(GraphConfig::Auto { backend: arg.clone() })
        } else {
            Some(GraphConfig::External { backend: name.clone(), url: arg.clone() })
        },
        ConfigValue::Auto => Some(GraphConfig::Auto { backend: String::from_str("neo4j") }),
        _ => None,
    }
}

fn add_vectors(out: &mut Vec<(String, VectorConfig)>, value: &ConfigValue)
    ensures
        map_of(final(out)@) == stores_from(map_of(old(out)@), config_value_view(*value), "qdrant"@),
        unique_keys(old(out)@) ==> unique_keys(final(out)@),
{
    match value {
        ConfigValue::Dict(entries) => {
            let ghost m0 = map_of(out@);
            let ghost d = dict_view(entries@);
            let mut i: usize = 0;
            proof {
                crate::ast::lemma_dict_view_index(entries@);
            }
            assert(d.take(0) =~= Seq::empty());
            while i < entries.len()
                invariant
                    i <= entries.len(),
                    d == dict_view(entries@),
                    d.len() == entries@.len(),
                    forall|k: int| 0 <= k < entries@.len() ==> d[k] == (
                        (#[trigger] entries@[k]).0@,
                        config_value_view(entries@[k].1),
                    ),
                    map_of(out@) == stores_from_dict(m0, d.take(i as int), "qdrant"@),
                    unique_keys(old(out)@) ==> unique_keys(out@),
                decreases entries.len() - i,
            {
                match parse_vector_entry(&entries[i].1) {
                    Some(vc) => set_key(out, entries[i].0.clone(), vc),
                    None => {},
                }
                assert(d.take(i + 1).drop_last() =~= d.take(i as int));
                i = i + 1;
            }
            assert(d.take(i as int) =~= d);
        },
        _ => match parse_vector_entry(value) {
            Some(vc) => set_key(out, String::from_str("default"), vc),
            None => {},
        },
    }
}

fn add_graphs(out: &mut Vec<(String, GraphConfig)>, value: &ConfigValue)
    ensures
        map_of(final(out)@) == stores_from(map_of(old(out)@), config_value_view(*value), "neo4j"@),
        unique_keys(old(out)@) ==> unique_keys(final(out)@),
{
    match value {
        ConfigValue::Dict(entries) => {
            let ghost m0 = map_of(out@);
            let ghost d = dict_view(entries@);
            let mut i: usize = 0;
            proof {
                crate::ast::lemma_dict_view_index(entries@);
            }
            assert(d.take(0) =~= Seq::empty());
            while i < entries.len()
                invariant
                    i <= entries.len(),
                    d == dict_view(entries@),
                    d.len() == entries@.len(),
                    forall|k: int| 0 <= k < entries@.len() ==> d[k] == (
                        (#[trigger] entries@[k]).0@,
                        config_value_view(entries@[k].1),
                    ),
                    map_of(out@) == stores_from_dict(m0, d.take(i as int), "neo4j"@),
                    unique_keys(old(out)@) ==> unique_keys(out@),
                decreases entries.len() - i,
            {
                match parse_graph_entry(&entries[i].1) {
                    Some(gc) => set_key(out, entries[i].0.clone(), gc),
                    None => {},
                }
                assert(d.take(i + 1).drop_last() =~= d.take(i as int));
                i = i + 1;
            }
            assert(d.take(i as int) =~= d);
        },
        _ => match parse_graph_entry(value) {
            Some(gc) => set_key(out, String::from_str("default"), gc),
            None => {},
        },
    }
}

impl Default for RuntimeConfig {
    /// The configuration with nothing set: no stores, no providers, no
    /// channels, `localhost:8080`.
    fn default() -> (r: RuntimeConfig)
        ensures
            r@ == default_config(),
            r.well_keyed(),
    {
        let r = RuntimeConfig {
            storage: None,
            vectors: Vec::new(),
            graphs: Vec::new(),
            embedding: None,
            extractor: None,
            channels: Vec::new(),
            host: String::from_str("localhost"),
            port: 8080,
        };
        assert(map_of(r.vectors@) =~= Map::empty());
        assert(map_of(r.graphs@) =~= Map::empty());
        assert(map_of(r.channels@) =~= Map::empty());
        r
    }
}

impl RuntimeConfig {
    /// Each list of named entries holds a name at most once.
    pub open spec fn well_keyed(&self) -> bool {
        &&& unique_keys(self.vectors@)
        &&& unique_keys(self.graphs@)
        &&& unique_keys(self.channels@)
    }

    /// The configuration that a config block describes (see [`config_from`]):
    /// `storage`, `embedding` and `extractor` take a `name("arg")` value,
    /// `vector` and `graph` a store or a dictionary of named stores; other
    /// keys, and values of another form, are ignored.
    pub fn from_config_block(block: &ConfigBlock) -> (r: RuntimeConfig)
        ensures
            r@ == config_from(entries_view(block.entries@)),
            r.well_keyed(),
    {
        let mut cfg = RuntimeConfig::default();
        let ghost es = entries_view(block.entries@);
        let mut i: usize = 0;
        while i < block.entries.len()
            invariant
                i <= block.entries.len(),
                es == entries_view(block.entries@),
                cfg@ == config_from(es.take(i as int)),
                cfg.well_keyed(),
            decreases block.entries.len() - i,
        {
            let entry = &block.entries[i];
            assert(es[i as int] == entry_view(*entry));
            assert(es.take(i + 1).drop_last() =~= es.take(i as int));
            let key = entry.key.as_str();
            if text_eq(key, "storage") {
                if let ConfigValue::FnCall { name, arg } = &entry.value {
                    cfg.storage = Some(StorageConfig { backend: name.clone(), url: arg.clone() });
                }
            } else if text_eq(key, "vector") {
                add_vectors(&mut cfg.vectors, &entry.value);
            } else if text_eq(key, "graph") {
                add_graphs(&mut cfg.graphs, &entry.value);
            } else if text_eq(key, "embedding") {
                if let ConfigValue::FnCall { name, arg } = &entry.value {
                    cfg.embedding = Some(
                        EmbeddingConfig { provider: name.clone(), model: arg.clone() },
                    );
                }
            } else if text_eq(key, "extractor") {
                if let ConfigValue::FnCall { name, arg } = &entry.value {
                    cfg.extractor = Some(
                        ExtractorConfig { provider: name.clone(), model: arg.clone() },
                    );
                }
            }
            i = i + 1;
            assert(cfg@ =~= config_from(es.take(i as int)));
        }
        assert(es.take(i as int) =~= es);
        cfg
    }
}

// ───────────────────────────── channels ─────────────────────────────

/// The text that a channel's config value stands for: the value of variable
/// `x` of `env` for `env("x")` (empty when there is none), `name(arg)` for
/// another call, and empty for anything else.
pub open spec fn param_text(v: ConfigValueV, env: Map<Seq<char>, Seq<char>>) -> Seq<char> {
    match v {
        ConfigValueV::FnCall { name, arg } => if name == "env"@ {
            if env.contains_key(arg) {
                env[arg]
            } else {
                Seq::empty()
            }
        } else {
            name + "("@ + arg + ")"@
        },
        _ => Seq::empty(),
    }
}

/// The connector parameters of a channel's config entries, in order.
pub open spec fn channel_params(es: Seq<ConfigEntryV>, env: Map<Seq<char>, Seq<char>>) -> Map<
    Seq<char>,
    Seq<char>,
>
    decreases es.len(),
{
    if es.len() == 0 {
        Map::empty()
    } else {
        channel_params(es.drop_last(), env).insert(es.last().key, param_text(es.last().value, env))
    }
}

/// Seconds between two polls of a channel: its interval, or five minutes.
pub open spec fn poll_secs(d: Option<crate::ast::Duration>) -> int {
    match d {
        Some(x) => x.value * unit_secs(x.unit),
        None => 300,
    }
}

fn param_value(v: &ConfigValue, env: &Vec<(String, String)>) -> (r: String)
    ensures
        r@ == param_text(config_value_view(*v), map_of(env@)),
{
    match v {
        ConfigValue::FnCall { name, arg } => {
            if text_eq(name.as_str(), "env") {
                match find_key(env, arg.as_str()) {
                    Some(i) => env[i].1.clone(),
                    None => String::new(),
                }
            } else {
                let mut s = name.clone();
                s.append("(");
                s.append(arg.as_str());
                s.append(")");
                assert(s@ =~= name@ + "("@ + arg@ + ")"@);
                s
            }
        },
        _ => String::new(),
    }
}

impl RuntimeConfig {
    /// Adds the channel that `def` declares, under its name. `env` holds the
    /// environment variables that `env("..")` values read, by name.
    pub fn add_channel_from_def(&mut self, def: &ChannelDef, env: &Vec<(String, String)>)
        requires
            poll_secs(def.poll_interval) <= u64::MAX,
        ensures
            final(self)@ == (RuntimeConfigV {
                channels: old(self)@.channels.insert(
                    def.name@,
                    ChannelRuntimeV {
                        source: def.source@,
                        config: channel_params(entries_view(def.config@), map_of(env@)),
                        poll_interval_secs: poll_secs(def.poll_interval) as u64,
                    },
                ),
                ..old(self)@
            }),
            old(self).well_keyed() ==> final(self).well_keyed(),
    {
        let ghost es = entries_view(def.config@);
        let ghost em = map_of(env@);
        let mut cc = ConnectorConfig::new();
        let mut i: usize = 0;
        while i < def.config.len()
            invariant
                i <= def.config.len(),
                es == entries_view(def.config@),
                em == map_of(env@),
                cc@ == channel_params(es.take(i as int), em),
            decreases def.config.len() - i,
        {
            let entry = &def.config[i];
            assert(es[i as int] == entry_view(*entry));
            assert(es.take(i + 1).drop_last() =~= es.take(i as int));
            let v = param_value(&entry.value, env);
            cc.set(entry.key.as_str(), v.as_str());
            i = i + 1;
        }
        assert(es.take(i as int) =~= es);
        let secs = match &def.poll_interval {
            Some(d) => d.to_secs(),
            None => 300,
        };
        let ch = ChannelRuntimeConfig { source: def.source.clone(), config: cc, poll_interval_secs: secs };
        set_key(&mut self.channels, def.name.clone(), ch);
    }
}

// ───────────────────────────── a whole program ─────────────────────────────

/// The entries of the first config block among `items` (namespaces not searched).
pub open spec fn first_config(items: Seq<ItemV>) -> Option<Seq<ConfigEntryV>>
    decreases items.len(),
{
    if items.len() == 0 {
        None
    } else {
        match first_config(items.drop_last()) {
            Some(es) => Some(es),
            None => match items.last() {
                ItemV::Config(es) => Some(es),
                _ => None,
            },
        }
    }
}

/// The runtime entry of a channel definition.
pub open spec fn channel_runtime(d: ChannelDefV, env: Map<Seq<char>, Seq<char>>) -> ChannelRuntimeV {
    ChannelRuntimeV {
        source: d.source,
        config: channel_params(d.config, env),
        poll_interval_secs: poll_secs(d.poll_interval) as u64,
    }
}

/// `c` with the channels of `chs` added in order, each under its name.
pub open spec fn with_channels(
    c: RuntimeConfigV,
    chs: Seq<ChannelDefV>,
    env: Map<Seq<char>, Seq<char>>,
) -> RuntimeConfigV
    decreases chs.len(),
{
    if chs.len() == 0 {
        c
    } else {
        let prev = with_channels(c, chs.drop_last(), env);
        RuntimeConfigV {
            channels: prev.channels.insert(chs.last().name, channel_runtime(chs.last(), env)),
            ..prev
        }
    }
}

/// The configuration a program runs with: that of its first config block (or
/// the defaults), on port `port` when one is given, with one channel for each
/// channel definition, namespaces included.
pub open spec fn program_config(
    items: Seq<ItemV>,
    port: Option<u16>,
    env: Map<Seq<char>, Seq<char>>,
) -> RuntimeConfigV {
    let base = match first_config(items) {
        Some(es) => config_from(es),
        None => default_config(),
    };
    let with_port = match port {
        Some(p) => RuntimeConfigV { port: p, ..base },
        None => base,
    };
    with_channels(with_port, channels_in(items), env)
}

proof fn lemma_first_config_step(s: Seq<Item>, i: int)
    requires
        0 <= i < s.len(),
    ensures
        first_config(items_view(s.take(i + 1))) == match first_config(items_view(s.take(i))) {
            Some(es) => Some(es),
            None => match item_view(s[i]) {
                ItemV::Config(es) => Some(es),
                _ => None,
            },
        },
{
    lemma_items_view_take(s, i);
    let y = items_view(s.take(i));
    assert(y.push(item_view(s[i])).drop_last() =~= y);
}

/// The configuration that `program` runs with (see [`program_config`]).
/// `env` holds the environment variables that `env("..")` values read.
pub fn runtime_config_for(program: &Program, port: Option<u16>, env: &Vec<(String, String)>) -> (r:
    RuntimeConfig)
    requires
        forall|k: int|
            0 <= k < channels_in(program@).len() ==> poll_secs(
                (#[trigger] channels_in(program@)[k]).poll_interval,
            ) <= u64::MAX,
    ensures
        r@ == program_config(program@, port, map_of(env@)),
{
    let ghost s = program.items@;
    let mut config = RuntimeConfig::default();
    let mut found = false;
    let mut i: usize = 0;
    assert(items_view(s.take(0)) =~= Seq::<ItemV>::empty());
    while i < program.items.len()
        invariant
            i <= program.items.len(),
            s == program.items@,
            found == first_config(items_view(s.take(i as int))) is Some,
            config@ == match first_config(items_view(s.take(i as int))) {
                Some(es) => config_from(es),
                None => default_config(),
            },
        decreases program.items.len() - i,
    {
        proof {
            lemma_first_config_step(s, i as int);
        }
        if !found {
            if let Item::Config(cfg) = &program.items[i] {
                config = RuntimeConfig::from_config_block(cfg);
                found = true;
            }
        }
        i = i + 1;
    }
    assert(s.take(i as int) =~= s);
    if let Some(p) = port {
        config.port = p;
    }
    let ghost base = config@;
    let defs = collect_channel_defs(program.items.as_slice());
    let ghost chs = channel_defs_view(defs@);
    assert(chs == channels_in(program@));
    let mut k: usize = 0;
    assert(chs.take(0) =~= Seq::<ChannelDefV>::empty());
    while k < defs.len()
        invariant
            k <= defs.len(),
            chs == channel_defs_view(defs@),
            chs == channels_in(program@),
            forall|j: int|
                0 <= j < chs.len() ==> poll_secs((#[trigger] chs[j]).poll_interval) <= u64::MAX,
            config@ == with_channels(base, chs.take(k as int), map_of(env@)),
        decreases defs.len() - k,
    {
        assert(chs[k as int] == channel_view(defs[k as int]));
        assert(chs.take(k + 1).drop_last() =~= chs.take(k as int));
        config.add_channel_from_def(&defs[k], env);
        k = k + 1;
        assert(config@ =~= with_channels(base, chs.take(k as int), map_of(env@)));
    }
    assert(chs.take(k as int) =~= chs);
    config
}

} // verus!
