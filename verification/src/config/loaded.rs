//! Merging layers into the effective configuration, and listing it key by key with the
//! source of each value.

use vstd::prelude::*;

use super::diagnostic::ConfigDiagnostic;
use super::layers::{
    applied, apply_layer, effective_diagnostics, layer_keys, overridden_by, provenance_after, SourceView, provenance_of, provenance_view, source_view, validate_effective, ConfigLayer,
    ConfigSource, Provenance, ProvenanceView,
};
use super::schema::{are_expected, built_in, is_expected, Config, ConfigOverlay, ConfigPaths};
use super::environment::{appended, enum_vars, environment_errors, environment_gives, environment_layers, EnvironmentView};
use super::diagnostic::DiagnosticSeverity;
use super::values::{config_entries, config_values, lists_entries};
use crate::order::{text_lt, text_order, Precedence};

verus! {

/// A configuration after every layer, with the source of each key.
#[derive(Debug)]
pub struct LoadedConfig {
    /// Effective configuration.
    pub config: Config,
    /// Source of each key.
    pub provenance: Vec<(String, Provenance)>,
    /// Warnings met while loading.
    pub diagnostics: Vec<ConfigDiagnostic>,
}

/// The overlays of some layers, in order.
pub open spec fn overlays_of(layers: Seq<ConfigLayer>) -> Seq<ConfigOverlay> {
    layers.map_values(|l: ConfigLayer| l.overlay)
}

/// `steps` are the configurations from `start` to `end`, each overlay applied to one to give
/// the next (see `applied`).
pub open spec fn steps_apply(start: Config, overlays: Seq<ConfigOverlay>, end: Config, steps: Seq<Config>) -> bool {
    &&& steps.len() == overlays.len() + 1
    &&& steps[0] == start
    &&& steps.last() == end
    &&& forall|i: int| #![trigger overlays[i]] 0 <= i < overlays.len() ==> applied(steps[i], overlays[i], steps[i + 1])
}

/// `end` is `start` with the overlays applied one after the other.
pub open spec fn layered(start: Config, overlays: Seq<ConfigOverlay>, end: Config) -> bool {
    exists|steps: Seq<Config>| #[trigger] steps_apply(start, overlays, end, steps)
}

/// Whether a listing of entries has a key.
pub open spec fn keyed(es: Seq<(Seq<char>, Option<Seq<char>>)>, k: Seq<char>) -> bool {
    exists|i: int| 0 <= i < es.len() && (#[trigger] es[i]).0 == k
}

/// The provenance of `k` after `keys` were set in order by `source`, from `previous`.
pub open spec fn set_by(previous: Option<ProvenanceView>, keys: Seq<Seq<char>>, source: SourceView, k: Seq<char>) -> Option<
    ProvenanceView,
>
    decreases keys.len(),
{
    if keys.len() == 0 {
        previous
    } else {
        let p = set_by(previous, keys.drop_last(), source, k);
        if keys.last() == k {
            Some(overridden_by(p, source))
        } else {
            p
        }
    }
}

/// The provenance of `k` after the layers, in order, from `base`: each layer's source takes
/// every key the layer sets, and the source it replaces joins the overridden ones.
pub open spec fn provenance_through(base: Option<ProvenanceView>, layers: Seq<ConfigLayer>, k: Seq<char>) -> Option<
    ProvenanceView,
>
    decreases layers.len(),
{
    if layers.len() == 0 {
        base
    } else {
        set_by(
            provenance_through(base, layers.drop_last(), k),
            layer_keys(layers.last().overlay),
            source_view(layers.last().source),
            k,
        )
    }
}

/// The built-in provenance of `k` in the configuration `start`: built-in where it lists `k`.
pub open spec fn builtin_provenance(start: Config, k: Seq<char>) -> Option<ProvenanceView> {
    if keyed(config_entries(start), k) {
        Some(builtin_view())
    } else {
        None
    }
}

/// `c` and `provenance` are the built-in configuration with the layers applied in order, and
/// the source of every key through them.
pub open spec fn merged_from(paths: ConfigPaths, layers: Seq<ConfigLayer>, c: Config, provenance: Seq<(String, Provenance)>) -> bool {
    exists|start: Config|
        #[trigger] built_in(start, paths) && layered(start, overlays_of(layers), c) && forall|k: Seq<char>|
            #[trigger] provenance_of(provenance, k) == provenance_through(builtin_provenance(start, k), layers, k)
}

proof fn lemma_set_by(before: Seq<(String, Provenance)>, keys: Seq<Seq<char>>, source: SourceView, k: Seq<char>)
    ensures
        provenance_after(before, keys, source, k) == set_by(provenance_of(before, k), keys, source, k),
    decreases keys.len(),
{
    if keys.len() > 0 {
        lemma_set_by(before, keys.drop_last(), source, k);
    }
}

proof fn lemma_provenance_of_push(map: Seq<(String, Provenance)>, e: (String, Provenance), k: Seq<char>)
    ensures
        provenance_of(map.push(e), k) == match provenance_of(map, k) {
            Some(p) => Some(p),
            None => if e.0@ == k { Some(provenance_view(e.1)) } else { None },
        },
    decreases map.len(),
{
    if map.len() > 0 {
        assert(map.push(e)[0] == map[0]);
        assert(map.push(e).drop_first() =~= map.drop_first().push(e));
        lemma_provenance_of_push(map.drop_first(), e, k);
    } else {
        assert(map.push(e)[0] == e);
        assert(map.push(e).drop_first() =~= map);
    }
}

/// `c` is the built-in configuration with the overlays applied in order.
pub open spec fn merged(paths: ConfigPaths, overlays: Seq<ConfigOverlay>, c: Config) -> bool {
    exists|start: Config| #[trigger] built_in(start, paths) && layered(start, overlays, c)
}

/// One key of the effective configuration.
#[derive(Debug)]
pub struct EffectiveEntry {
    /// Key.
    pub key: String,
    /// Value, written as in a TOML file.
    pub value: String,
    /// Where the value came from.
    pub provenance: Provenance,
}

/// Every key of the effective configuration, in key order.
#[derive(Debug)]
pub struct EffectiveConfig {
    /// Entries.
    pub entries: Vec<EffectiveEntry>,
}

/// Merges layers over the built-in configuration of the platform paths.
#[derive(Debug, Clone)]
pub struct ConfigLoader {
    /// Platform paths.
    pub paths: ConfigPaths,
}

/// The provenance of a key that no layer set.
pub open spec fn builtin_view() -> ProvenanceView {
    ((0, None, Seq::empty()), Seq::empty())
}

/// Some entry has key `k`.
pub open spec fn key_present(entries: Seq<EffectiveEntry>, k: Seq<char>) -> bool {
    exists|t: int| 0 <= t < entries.len() && (#[trigger] entries[t]).key@ == k
}

/// The entry's key and value are among the listed values.
pub open spec fn value_listed(values: Seq<(String, String)>, e: EffectiveEntry) -> bool {
    exists|i: int| 0 <= i < values.len() && (#[trigger] values[i]).0@ == e.key@ && values[i].1@ == e.value@
}

/// The entry's key is listed, with its value where the listing gives one.
pub open spec fn entry_listed(ce: Seq<(Seq<char>, Option<Seq<char>>)>, e: EffectiveEntry) -> bool {
    exists|i: int| 0 <= i < ce.len() && (#[trigger] ce[i]).0 == e.key@ && (ce[i].1 matches Some(v) ==> e.value@ == v)
}

/// The entry carries the provenance recorded for its key, or the built-in one.
pub open spec fn provenance_recorded(map: Seq<(String, Provenance)>, e: EffectiveEntry) -> bool {
    provenance_view(e.provenance) == match provenance_of(map, e.key@) {
        Some(p) => p,
        None => builtin_view(),
    }
}

/// Key `a` sorts before key `b`, or they are equal and `a` came first.
pub open spec fn key_before(keys: Seq<String>, a: usize, b: usize) -> bool {
    text_lt(keys[a as int]@, keys[b as int]@) || (keys[a as int]@ == keys[b as int]@ && a < b)
}

/// The positions of a list of keys in key order, ties in position order.
pub fn key_order(keys: &Vec<String>) -> (out: Vec<usize>)
    ensures
        out@.len() == keys@.len(),
        forall|t: int| 0 <= t < out@.len() ==> #[trigger] out@[t] < keys@.len(),
        forall|q: usize| q < keys@.len() ==> #[trigger] out@.contains(q),
        forall|a: int, b: int| 0 <= a < b < out@.len() ==> key_before(keys@, #[trigger] out@[a], #[trigger] out@[b]),
{
    let n = keys.len();
    let mut out: Vec<usize> = Vec::new();
    let mut i: usize = 0;
    while i < n
        invariant
            n == keys@.len(),
            0 <= i <= n,
            out@.len() == i,
            forall|t: int| 0 <= t < out@.len() ==> #[trigger] out@[t] < i,
            forall|q: usize| q < i ==> #[trigger] out@.contains(q),
            forall|a: int, b: int| 0 <= a < b < out@.len() ==> key_before(keys@, #[trigger] out@[a], #[trigger] out@[b]),
        decreases n - i,
    {
        let mut pos: usize = 0;
        while pos < out.len() && !matches!(text_order(keys[i].as_str(), keys[out[pos]].as_str()), Precedence::Before)
            invariant
                n == keys@.len(),
                i < n,
                0 <= pos <= out@.len(),
                forall|t: int| 0 <= t < out@.len() ==> #[trigger] out@[t] < i,
                forall|t: int| 0 <= t < pos ==> !text_lt(keys@[i as int]@, keys@[#[trigger] out@[t] as int]@),
            decreases out@.len() - pos,
        {
            pos = pos + 1;
        }
        let ghost old_out = out@;
        proof {
            assert forall|t: int| pos <= t < old_out.len() implies text_lt(keys@[i as int]@, keys@[#[trigger] old_out[t] as int]@) by {
                if t > pos {
                    assert(key_before(keys@, old_out[pos as int], old_out[t]));
                    let a = keys@[i as int]@;
                    let b = keys@[old_out[pos as int] as int]@;
                    let c = keys@[old_out[t] as int]@;
                    if text_lt(b, c) {
                        crate::order::lemma_text_lt_transitive(a, b, c);
                    }
                }
            }
            old_out.insert_ensures(pos as int, i);
        }
        out.insert(pos, i);
        proof {
            assert forall|t: int| 0 <= t < out@.len() implies #[trigger] out@[t] < i + 1 by {
                if t < pos {
                    assert(out@[t] == old_out[t]);
                } else if t > pos {
                    assert(out@[t] == old_out[t - 1]);
                }
            }
            assert forall|q: usize| q < i + 1 implies #[trigger] out@.contains(q) by {
                if q < i {
                    assert(old_out.contains(q));
                    let t = choose|t: int| 0 <= t < old_out.len() && old_out[t] == q;
                    if t < pos {
                        assert(out@[t] == q);
                    } else {
                        assert(out@[t + 1] == q);
                    }
                } else {
                    assert(out@[pos as int] == q);
                }
            }
            assert forall|a: int, b: int| 0 <= a < b < out@.len() implies key_before(keys@, #[trigger] out@[a], #[trigger] out@[b]) by {
                if b < pos {
                    assert(out@[a] == old_out[a] && out@[b] == old_out[b]);
                } else if b == pos {
                    assert(out@[a] == old_out[a]);
                    let x = keys@[old_out[a] as int]@;
                    let y = keys@[i as int]@;
                    crate::order::lemma_text_lt_total(x, y);
                } else if a < pos {
                    assert(out@[a] == old_out[a] && out@[b] == old_out[b - 1]);
                } else if a == pos {
                    assert(out@[b] == old_out[b - 1]);
                } else {
                    assert(out@[a] == old_out[a - 1] && out@[b] == old_out[b - 1]);
                }
            }
        }
        i = i + 1;
    }
    out
}

fn lookup_provenance(map: &Vec<(String, Provenance)>, key: &str) -> (r: Option<Provenance>)
    ensures
        match r {
            Some(p) => provenance_of(map@, key@) == Some(provenance_view(p)),
            None => provenance_of(map@, key@) is None,
        },
{
    let mut i: usize = 0;
    assert(map@.skip(0) =~= map@);
    while i < map.len()
        invariant
            0 <= i <= map@.len(),
            provenance_of(map@, key@) == provenance_of(map@.skip(i as int), key@),
        decreases map@.len() - i,
    {
        proof {
            assert(map@.skip(i as int).drop_first() =~= map@.skip(i + 1));
        }
        if matches!(text_order(map[i].0.as_str(), key), Precedence::Same) {
            return Some(map[i].1.clone());
        }
        i = i + 1;
    }
    proof {
        assert(map@.skip(i as int).len() == 0);
    }
    None
}

impl LoadedConfig {
    /// Every key of the configuration with its value and source (the built-in source for a
    /// key no layer set), in key order.
    /// The entries of listed values in key order, each with its recorded provenance or the
    /// built-in one.
    #[verifier::spinoff_prover]
    #[verifier::rlimit(80)]
    fn entries_of(&self, values: &Vec<(String, String)>) -> (entries: Vec<EffectiveEntry>)
        ensures
            entries@.len() == values@.len(),
            forall|t: int| 0 <= t < entries@.len() ==> #[trigger] value_listed(values@, entries@[t]) && provenance_recorded(
                self.provenance@,
                entries@[t],
            ),
            forall|a: int, b: int| 0 <= a < b < entries@.len() ==> !text_lt(
                (#[trigger] entries@[b]).key@,
                (#[trigger] entries@[a]).key@,
            ),
            forall|i: int| 0 <= i < values@.len() ==> #[trigger] key_present(entries@, values@[i].0@),
    {
        let mut keys: Vec<String> = Vec::new();
        let mut k: usize = 0;
        while k < values.len()
            invariant
                0 <= k <= values@.len(),
                keys@.len() == k,
                forall|j: int| 0 <= j < k ==> (#[trigger] keys@[j])@ == values@[j].0@,
            decreases values@.len() - k,
        {
            keys.push(values[k].0.clone());
            k = k + 1;
        }
        let order = key_order(&keys);
        let mut entries: Vec<EffectiveEntry> = Vec::new();
        let mut t: usize = 0;
        while t < order.len()
            invariant
                0 <= t <= order@.len(),
                order@.len() == keys@.len(),
                keys@.len() == values@.len(),
                forall|j: int| 0 <= j < keys@.len() ==> (#[trigger] keys@[j])@ == values@[j].0@,
                forall|s: int| 0 <= s < order@.len() ==> #[trigger] order@[s] < keys@.len(),
                entries@.len() == t,
                forall|s: int| 0 <= s < t ==> (#[trigger] entries@[s]).key@ == values@[order@[s] as int].0@
                    && entries@[s].value@ == values@[order@[s] as int].1@
                    && provenance_view(entries@[s].provenance) == match provenance_of(self.provenance@, entries@[s].key@) {
                        Some(p) => p,
                        None => builtin_view(),
                    },
            decreases order@.len() - t,
        {
            let p = order[t];
            let key = values[p].0.clone();
            let provenance = match lookup_provenance(&self.provenance, key.as_str()) {
                Some(found) => found,
                None => Provenance { source: ConfigSource::Builtin, overridden: Vec::new() },
            };
            proof {
                assert(Seq::<ConfigSource>::empty().map_values(|s: ConfigSource| source_view(s)) =~= Seq::<(int, Option<std::path::PathBuf>, Seq<char>)>::empty());
            }
            entries.push(EffectiveEntry { key, value: values[p].1.clone(), provenance });
            t = t + 1;
        }
        proof {
            assert forall|i: int| 0 <= i < values@.len() implies #[trigger] key_present(entries@, values@[i].0@) by {
                assert(order@.contains(i as usize));
                let t = choose|t: int| 0 <= t < order@.len() && order@[t] == i as usize;
                assert(entries@[t].key@ == values@[order@[t] as int].0@);
            }
            assert forall|t: int| 0 <= t < entries@.len() implies #[trigger] value_listed(values@, entries@[t]) && provenance_recorded(
                self.provenance@,
                entries@[t],
            ) by {
                let i = order@[t] as int;
                assert(values@[i].0@ == entries@[t].key@);
            }
            assert forall|a: int, b: int| 0 <= a < b < entries@.len() implies !text_lt(
                (#[trigger] entries@[b]).key@,
                (#[trigger] entries@[a]).key@,
            ) by {
                assert(key_before(keys@, order@[a], order@[b]));
                let x = keys@[order@[a] as int]@;
                let y = keys@[order@[b] as int]@;
                if text_lt(x, y) {
                    crate::order::lemma_text_lt_asymmetric(x, y);
                } else {
                    crate::order::lemma_text_lt_irreflexive(x);
                }
            }
        }
        entries
    }

    /// Every key of the configuration with its value and source (the built-in source for a
    /// key no layer set), in key order.
    pub fn effective(&self) -> (e: EffectiveConfig)
        ensures
            e.entries@.len() == config_entries(self.config).len(),
            forall|t: int| 0 <= t < e.entries@.len() ==> #[trigger] entry_listed(config_entries(self.config), e.entries@[t])
                && provenance_recorded(self.provenance@, e.entries@[t]),
            forall|a: int, b: int| 0 <= a < b < e.entries@.len() ==> !text_lt(
                (#[trigger] e.entries@[b]).key@,
                (#[trigger] e.entries@[a]).key@,
            ),
            forall|i: int| 0 <= i < config_entries(self.config).len() ==> #[trigger] key_present(e.entries@, config_entries(self.config)[i].0),
    {
        let values = config_values(&self.config);
        let entries = self.entries_of(&values);
        proof {
            let ce = config_entries(self.config);
            assert forall|t: int| 0 <= t < entries@.len() implies #[trigger] entry_listed(ce, entries@[t])
                && provenance_recorded(self.provenance@, entries@[t]) by {
                assert(value_listed(values@, entries@[t]));
                let i = choose|i: int| 0 <= i < values@.len() && (#[trigger] values@[i]).0@ == entries@[t].key@ && values@[i].1@ == entries@[t].value@;
                assert(values@[i].0@ == ce[i].0);
            }
            assert forall|i: int| 0 <= i < ce.len() implies #[trigger] key_present(entries@, ce[i].0) by {
                assert(values@[i].0@ == ce[i].0);
                assert(key_present(entries@, values@[i].0@));
            }
        }
        EffectiveConfig { entries }
    }

    /// The effective entry of one key, if the configuration has it.
    pub fn explain(&self, key: &str) -> (r: Option<EffectiveEntry>)
        ensures
            r matches Some(e) ==> e.key@ == key@ && entry_listed(config_entries(self.config), e) && provenance_recorded(
                self.provenance@,
                e,
            ),
            r is None ==> forall|i: int| #![trigger config_entries(self.config)[i]] 0 <= i < config_entries(self.config).len() ==> config_entries(self.config)[i].0 != key@,
    {
        let effective = self.effective();
        let mut entries = effective.entries;
        let ghost all = entries@;
        let mut i: usize = 0;
        while i < entries.len()
            invariant
                entries@ == all,
                0 <= i <= all.len(),
                all.len() == config_entries(self.config).len(),
                forall|s: int| 0 <= s < i ==> (#[trigger] all[s]).key@ != key@,
                forall|t: int| 0 <= t < all.len() ==> #[trigger] entry_listed(config_entries(self.config), all[t])
                    && provenance_recorded(self.provenance@, all[t]),
            decreases all.len() - i,
        {
            if matches!(text_order(entries[i].key.as_str(), key), Precedence::Same) {
                proof {
                    entries@.remove_ensures(i as int);
                }
                let entry = entries.remove(i);
                return Some(entry);
            }
            i = i + 1;
        }
        proof {
            assert forall|i: int| #![trigger config_entries(self.config)[i]] 0 <= i < config_entries(self.config).len() implies config_entries(self.config)[i].0 != key@ by {
                assert(key_present(all, config_entries(self.config)[i].0));
            }
        }
        None
    }
}

impl ConfigLoader {
    /// A loader for the platform paths.
    pub fn new(paths: ConfigPaths) -> (l: Self)
        ensures
            l.paths == paths,
    {
        ConfigLoader { paths }
    }

    /// Starts from the built-in configuration, where every key has the built-in source,
    /// applies the layers in order (see `apply_layer`) and checks the result (see
    /// `validate_effective`).
    pub fn merge(&self, layers: Vec<ConfigLayer>) -> (r: Result<LoadedConfig, Vec<ConfigDiagnostic>>)
        ensures
            r matches Ok(l) ==> merged_from(self.paths, layers@, l.config, l.provenance@) && effective_diagnostics(
                l.config,
            ).len() == 0 && l.diagnostics@.len() == 0,
            r matches Err(ds) ==> exists|c: Config|
                #![trigger merged(self.paths, overlays_of(layers@), c)]
                merged(self.paths, overlays_of(layers@), c) && effective_diagnostics(c).len() > 0 && are_expected(
                    ds@,
                    effective_diagnostics(c),
                ),
    {
        let mut config = Config::defaults(&self.paths);
        let ghost start = config;
        let ghost all = layers@;
        let values = config_values(&config);
        let mut provenance: Vec<(String, Provenance)> = Vec::new();
        let mut i: usize = 0;
        while i < values.len()
            invariant
                0 <= i <= values@.len(),
                lists_entries(values@, config_entries(start)),
                forall|k: Seq<char>| #[trigger]
                    provenance_of(provenance@, k) == if exists|j: int| 0 <= j < i && (#[trigger] values@[j]).0@ == k {
                        Some(builtin_view())
                    } else {
                        None
                    },
            decreases values@.len() - i,
        {
            let entry = (values[i].0.clone(), Provenance { source: ConfigSource::Builtin, overridden: Vec::new() });
            proof {
                assert(provenance_view(entry.1) == builtin_view()) by {
                    assert(entry.1.overridden@.map_values(|s: ConfigSource| source_view(s)) =~= Seq::<SourceView>::empty());
                }
                assert forall|k: Seq<char>| #[trigger] provenance_of(provenance@.push(entry), k) == if exists|j: int|
                    0 <= j < i + 1 && (#[trigger] values@[j]).0@ == k {
                    Some(builtin_view())
                } else {
                    None
                } by {
                    lemma_provenance_of_push(provenance@, entry, k);
                    if values@[i as int].0@ == k {
                        assert(0 <= i < i + 1 && values@[i as int].0@ == k);
                    }
                }
            }
            provenance.push(entry);
            i = i + 1;
        }
        proof {
            assert forall|k: Seq<char>| #[trigger] provenance_of(provenance@, k) == builtin_provenance(start, k) by {
                let ce = config_entries(start);
                if keyed(ce, k) {
                    let j = choose|j: int| 0 <= j < ce.len() && (#[trigger] ce[j]).0 == k;
                    assert(values@[j].0@ == k);
                }
                if exists|j: int| 0 <= j < values@.len() && (#[trigger] values@[j]).0@ == k {
                    let j = choose|j: int| 0 <= j < values@.len() && (#[trigger] values@[j]).0@ == k;
                    assert(ce[j].0 == k);
                }
            }
        }
        let mut layers = layers;
        let count = layers.len();
        let mut done: usize = 0;
        let ghost mut steps: Seq<Config> = seq![config];
        proof {
            assert(all.skip(0) =~= all);
        }
        while layers.len() > 0
            invariant
                built_in(start, self.paths),
                0 <= done <= all.len(),
                layers@ == all.skip(done as int),
                layers@.len() == all.len() - done,
                all.len() == count,
                steps.len() == done + 1,
                steps[0] == start,
                steps[done as int] == config,
                forall|i: int| #![trigger all[i]] 0 <= i < done ==> applied(steps[i], all[i].overlay, steps[i + 1]),
                forall|k: Seq<char>| #[trigger]
                    provenance_of(provenance@, k) == provenance_through(builtin_provenance(start, k), all.take(done as int), k),
            decreases layers@.len(),
        {
            assert(done < all.len());
            let layer = layers.remove(0);
            proof {
                assert(layer == all[done as int]);
            }
            let ghost map_before = provenance@;
            apply_layer(&mut config, &mut provenance, layer);
            proof {
                assert forall|k: Seq<char>| #[trigger] provenance_of(provenance@, k) == provenance_through(
                    builtin_provenance(start, k),
                    all.take(done + 1),
                    k,
                ) by {
                    lemma_set_by(map_before, layer_keys(all[done as int].overlay), source_view(all[done as int].source), k);
                    assert(all.take(done + 1).drop_last() =~= all.take(done as int));
                }
                steps = steps.push(config);
                assert(all.skip(done + 1) =~= layers@);
            }
            done = done + 1;
        }
        proof {
            let overlays = overlays_of(all);
            assert forall|i: int| #![trigger overlays[i]] 0 <= i < overlays.len() implies applied(
                steps[i],
                overlays[i],
                steps[i + 1],
            ) by {
                assert(overlays[i] == all[i].overlay);
            }
            assert(steps_apply(start, overlays, config, steps));
            assert(built_in(start, self.paths) && layered(start, overlays, config));
            assert(merged(self.paths, overlays, config));
            assert(forall|k: Seq<char>| #[trigger] provenance_of(provenance@, k) == provenance_through(builtin_provenance(start, k), all, k));
            assert(merged_from(self.paths, all, config, provenance@));
        }
        match validate_effective(&config) {
            Ok(()) => Ok(LoadedConfig { config, provenance, diagnostics: Vec::new() }),
            Err(ds) => Err(ds),
        }
    }

    /// Finishes loading once the configuration files were read: their layers (user file,
    /// then explicit file) and the diagnostics met reading them. The environment's layers
    /// follow them and the command line comes last. Where any diagnostic so far is an error,
    /// all of them are the error; otherwise the layers are merged (see `merge`) and the
    /// diagnostics kept as warnings of the result.
    pub fn load_layers(
        &self,
        file_layers: Vec<ConfigLayer>,
        file_diagnostics: Vec<ConfigDiagnostic>,
        environment: &EnvironmentView,
        cli: ConfigOverlay,
    ) -> (r: Result<LoadedConfig, Vec<ConfigDiagnostic>>)
        ensures
            ({
                let errors = environment_errors(enum_vars(*environment));
                let has_error = any_error(file_diagnostics@) || errors.len() > 0;
                &&& has_error ==> (r matches Err(ds) && appended(file_diagnostics@, errors, ds@))
                &&& !has_error ==> (r matches Ok(l) ==> l.diagnostics@ == file_diagnostics@ && exists|ls: Seq<ConfigLayer>|
                    #[trigger] loading_layers(file_layers@, *environment, cli, ls) && merged_from(
                        self.paths,
                        ls,
                        l.config,
                        l.provenance@,
                    ) && effective_diagnostics(l.config).len() == 0)
                &&& !has_error ==> (r matches Err(ds) ==> exists|ls: Seq<ConfigLayer>, c: Config|
                    #[trigger] loading_layers(file_layers@, *environment, cli, ls) && #[trigger] merged(
                        self.paths,
                        overlays_of(ls),
                        c,
                    ) && effective_diagnostics(c).len() > 0 && are_expected(ds@, effective_diagnostics(c)))
            }),
    {
        let mut diagnostics = file_diagnostics;
        let env_layers = environment_layers(environment, &mut diagnostics);
        let mut layers = file_layers;
        let ghost files = layers@;
        let ghost envs = env_layers@;
        let mut env_layers = env_layers;
        layers.append(&mut env_layers);
        let cli_layer = ConfigLayer { source: ConfigSource::Cli("command line".to_owned()), overlay: cli };
        layers.push(cli_layer);
        let ghost all = layers@;
        proof {
            assert(all.take(files.len() as int) =~= files);
            assert(all.subrange(files.len() as int, all.len() - 1) =~= envs);
            assert(loading_layers(files, *environment, cli, all));
        }
        let mut i: usize = 0;
        let mut error = false;
        while i < diagnostics.len()
            invariant
                0 <= i <= diagnostics@.len(),
                error == exists|j: int| 0 <= j < i && (#[trigger] diagnostics@[j]).severity == DiagnosticSeverity::Error,
            decreases diagnostics@.len() - i,
        {
            match diagnostics[i].severity {
                DiagnosticSeverity::Error => {
                    error = true;
                },
                DiagnosticSeverity::Warning => {},
            }
            i = i + 1;
        }
        proof {
            let errors = environment_errors(enum_vars(*environment));
            let fd = file_diagnostics@;
            if any_error(fd) {
                let j = choose|j: int| 0 <= j < fd.len() && (#[trigger] fd[j]).severity == DiagnosticSeverity::Error;
                assert(diagnostics@.take(fd.len() as int)[j] == fd[j]);
                assert(diagnostics@[j].severity == DiagnosticSeverity::Error);
            }
            if errors.len() > 0 {
                assert(is_expected(diagnostics@[fd.len() + 0int], errors[0]));
                assert(diagnostics@[fd.len() + 0int].severity == DiagnosticSeverity::Error);
            }
            if error {
                let j = choose|j: int| 0 <= j < diagnostics@.len() && (#[trigger] diagnostics@[j]).severity
                    == DiagnosticSeverity::Error;
                if j < fd.len() {
                    assert(diagnostics@.take(fd.len() as int)[j] == fd[j]);
                } else {
                    assert(is_expected(diagnostics@[fd.len() + (j - fd.len())], errors[j - fd.len()]));
                }
            } else {
                if errors.len() == 0 {
                    assert(diagnostics@ =~= fd) by {
                        assert(diagnostics@.take(fd.len() as int) == fd);
                    }
                }
            }
        }
        if error {
            return Err(diagnostics);
        }
        match self.merge(layers) {
            Ok(mut loaded) => {
                loaded.diagnostics = diagnostics;
                Ok(loaded)
            },
            Err(ds) => Err(ds),
        }
    }
}

/// Some diagnostic is an error.
pub open spec fn any_error(ds: Seq<ConfigDiagnostic>) -> bool {
    exists|j: int| 0 <= j < ds.len() && (#[trigger] ds[j]).severity == DiagnosticSeverity::Error
}

/// `ls` are the layers of a load: the file layers, the environment's (see
/// `environment_gives`), then the command line's.
pub open spec fn loading_layers(files: Seq<ConfigLayer>, environment: EnvironmentView, cli: ConfigOverlay, ls: Seq<ConfigLayer>) -> bool {
    &&& ls.len() >= files.len() + 1
    &&& ls.take(files.len() as int) == files
    &&& environment_gives(environment, ls.subrange(files.len() as int, ls.len() - 1))
    &&& source_view(ls.last().source) == (4int, None::<std::path::PathBuf>, "command line"@)
    &&& ls.last().overlay == cli
}

} // verus!
