//! Checking and migrating a configuration file: what a check reports, which schema
//! versions an upgrade writes, and the check of a file on its own.

use vstd::prelude::*;

use super::diagnostic::ConfigDiagnostic;
use super::layers::{effective_diagnostics, ConfigLayer, ConfigSource};
use super::layers::provenance_of;
use super::loaded::{builtin_provenance, layered, merged, overlays_of, provenance_through, ConfigLoader};
use super::schema::{
    are_expected, built_in, is_expected, overlay_of, raw_diagnostics, Config, ConfigOverlay, ConfigPaths, Expected, RawConfig,
    CURRENT_SCHEMA_VERSION,
};
use crate::text::{decimal, push_decimal};

verus! {

/// What checking or migrating a configuration file found or did.
#[derive(Debug, Clone, PartialEq, Eq)]
pub enum MigrationOutcome {
    /// The file already has the current schema.
    AlreadyCurrent,
    /// A check found that the file would be migrated.
    WouldMigrate {
        /// Schema of the file.
        from: u32,
        /// Schema it would be migrated to.
        to: u32,
    },
    /// The file was replaced, its original bytes kept in a backup.
    Migrated {
        /// Schema the file had.
        from: u32,
        /// Schema it has now.
        to: u32,
        /// Backup of the original bytes.
        backup: std::path::PathBuf,
    },
}

/// The schema versions an upgrade from `from` writes, in order; every version below the
/// current one has a step.
pub open spec fn upgrade_path(from: u32) -> Seq<u32> {
    if from < CURRENT_SCHEMA_VERSION {
        seq![1u32]
    } else {
        seq![]
    }
}

/// The schema versions that upgrading a document of schema `from` writes to its
/// `schema_version`, one after the other (see `upgrade_path`).
pub fn upgrade_steps(from: u32) -> (r: Result<Vec<u32>, Vec<ConfigDiagnostic>>)
    ensures
        r matches Ok(steps) && steps@ == upgrade_path(from),
{
    let mut version = from;
    let mut steps: Vec<u32> = Vec::new();
    while version < CURRENT_SCHEMA_VERSION
        invariant
            from < CURRENT_SCHEMA_VERSION ==> (version == from && steps@.len() == 0) || (version == 1 && steps@ == seq![1u32]),
            from >= CURRENT_SCHEMA_VERSION ==> version == from && steps@.len() == 0,
        decreases CURRENT_SCHEMA_VERSION - version,
    {
        if version == 0 {
            steps.push(1);
            version = 1;
        } else {
            let mut message = "no migration from schema ".to_owned();
            push_decimal(&mut message, version as u128);
            return Err(vec![ConfigDiagnostic::error("E_CONFIG_MIGRATION", message.as_str())]);
        }
    }
    Ok(steps)
}

/// The diagnostics of a file checked on its own: those without a source get the file's.
pub open spec fn sourced(es: Seq<Expected>, source: Seq<char>) -> Seq<Expected> {
    es.map_values(
        |e: Expected|
            (
                e.0,
                e.1,
                e.2,
                match e.3 {
                    Some(s) => Some(s),
                    None => Some(source),
                },
                e.4,
            ),
    )
}

/// Checks a configuration file as a complete configuration of its own: its settings are
/// valid (see `RawConfig::validate_at`), and the built-in configuration with them applied
/// passes the checks across settings (see `effective_diagnostics`), whose errors then name
/// the file as their source. `paths` are the platform paths as seen from the file's
/// directory, and `path` the file.
pub fn validate_standalone(raw: RawConfig, source: &str, paths: ConfigPaths, path: std::path::PathBuf) -> (r: Result<
    (),
    Vec<ConfigDiagnostic>,
>)
    ensures
        raw_diagnostics(raw, source@).len() > 0 ==> (r matches Err(ds) && are_expected(ds@, raw_diagnostics(raw, source@))),
        raw_diagnostics(raw, source@).len() == 0 ==> (r is Ok ==> exists|o: ConfigOverlay, c: Config|
            overlay_of(raw, o) && #[trigger] merged(paths, seq![o], c) && effective_diagnostics(c).len() == 0),
        raw_diagnostics(raw, source@).len() == 0 ==> (r matches Err(ds) ==> exists|o: ConfigOverlay, c: Config|
            overlay_of(raw, o) && #[trigger] merged(paths, seq![o], c) && effective_diagnostics(c).len() > 0
                && are_expected(ds@, sourced(effective_diagnostics(c), source@))),
{
    let overlay = match raw.validate_at(source) {
        Ok(o) => o,
        Err(ds) => return Err(ds),
    };
    let ghost o = overlay;
    let layer = ConfigLayer { source: ConfigSource::ExplicitFile(path), overlay };
    let ghost layers = seq![layer];
    let loader = ConfigLoader::new(paths);
    let mut layers_vec: Vec<ConfigLayer> = Vec::new();
    layers_vec.push(layer);
    proof {
        assert(layers_vec@ =~= layers);
        assert(overlays_of(layers) =~= seq![o]);
    }
    match loader.merge(layers_vec) {
        Ok(l) => {
            proof {
                let start = choose|start: Config| #[trigger]
                    built_in(start, loader.paths) && layered(start, overlays_of(layers), l.config) && forall|k: Seq<char>|
                        #[trigger] provenance_of(l.provenance@, k) == provenance_through(builtin_provenance(start, k), layers, k);
                assert(merged(paths, seq![o], l.config));
            }
            Ok(())
        },
        Err(ds) => {
            let ghost c = choose|c: Config| #[trigger]
                merged(loader.paths, overlays_of(layers), c) && effective_diagnostics(c).len() > 0 && are_expected(
                    ds@,
                    effective_diagnostics(c),
                );
            let ghost es = effective_diagnostics(c);
            let mut ds = ds;
            let mut out: Vec<ConfigDiagnostic> = Vec::new();
            let ghost all = ds@;
            let count = ds.len();
            let mut i: usize = 0;
            while ds.len() > 0
                invariant
                    are_expected(all, es),
                    all.len() == count,
                    0 <= i <= all.len(),
                    ds@ == all.skip(i as int),
                    out@.len() == i,
                    forall|k: int| 0 <= k < i ==> is_expected(#[trigger] out@[k], sourced(es, source@)[k]),
                decreases ds@.len(),
            {
                let d = ds.remove(0);
                proof {
                    assert(d == all[i as int]);
                    assert(all.skip(i + 1) =~= ds@);
                }
                let d = if d.source.is_none() {
                    d.with_source(source)
                } else {
                    d
                };
                out.push(d);
                i = i + 1;
            }
            proof {
                assert(all.skip(i as int).len() == 0);
                assert(are_expected(out@, sourced(es, source@)));
                assert(overlay_of(raw, o) && merged(paths, seq![o], c));
            }
            Err(out)
        },
    }
}

/// The outcome of checking a parsed file: its unknown keys first, then its check on its own
/// (see `validate_standalone`), then whether its schema is behind the current one.
pub fn check_parsed(
    diagnostics: Vec<ConfigDiagnostic>,
    raw: RawConfig,
    version: u32,
    source: &str,
    paths: ConfigPaths,
    path: std::path::PathBuf,
) -> (r: Result<MigrationOutcome, Vec<ConfigDiagnostic>>)
    ensures
        diagnostics@.len() > 0 ==> (r matches Err(ds) && ds@ == diagnostics@),
        diagnostics@.len() == 0 && raw_diagnostics(raw, source@).len() > 0 ==> (r matches Err(ds) && are_expected(
            ds@,
            raw_diagnostics(raw, source@),
        )),
        r matches Ok(outcome) ==> outcome == if version < CURRENT_SCHEMA_VERSION {
            MigrationOutcome::WouldMigrate { from: version, to: CURRENT_SCHEMA_VERSION }
        } else {
            MigrationOutcome::AlreadyCurrent
        },
        diagnostics@.len() == 0 && raw_diagnostics(raw, source@).len() == 0 ==> (r is Ok ==> exists|o: ConfigOverlay, c: Config|
            overlay_of(raw, o) && #[trigger] merged(paths, seq![o], c) && effective_diagnostics(c).len() == 0),
        diagnostics@.len() == 0 && raw_diagnostics(raw, source@).len() == 0 ==> (r matches Err(ds) ==> exists|
            o: ConfigOverlay,
            c: Config,
        |
            overlay_of(raw, o) && #[trigger] merged(paths, seq![o], c) && effective_diagnostics(c).len() > 0
                && are_expected(ds@, sourced(effective_diagnostics(c), source@))),
{
    if diagnostics.len() > 0 {
        return Err(diagnostics);
    }
    match validate_standalone(raw, source, paths, path) {
        Ok(()) => {},
        Err(ds) => return Err(ds),
    }
    if version < CURRENT_SCHEMA_VERSION {
        Ok(MigrationOutcome::WouldMigrate { from: version, to: CURRENT_SCHEMA_VERSION })
    } else {
        Ok(MigrationOutcome::AlreadyCurrent)
    }
}

} // verus!
