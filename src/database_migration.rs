//! Schema migrations of the configuration store.

use vstd::prelude::*;

verus! {

/// One schema step.
#[derive(PartialEq, Eq, Structural, Clone, Copy, Debug)]
pub enum Migration {
    /// Version 2 to 3: `php_processors.server_software_spoof`.
    AddServerSoftwareSpoof,
    /// Version 3 to 4: `sites.tls_automatic_enabled`.
    AddTlsAutomaticEnabled,
}

/// The steps to run from `schema_version` and the version reached: none
/// (and 0) for an uninitialized store, both steps from 2, the last from 3,
/// none otherwise.
pub open spec fn migration_plan_spec(schema_version: i32) -> (Seq<Migration>, i32) {
    if schema_version < 1 {
        (Seq::empty(), 0)
    } else if schema_version == 2 {
        (seq![Migration::AddServerSoftwareSpoof, Migration::AddTlsAutomaticEnabled], 4)
    } else if schema_version == 3 {
        (seq![Migration::AddTlsAutomaticEnabled], 4)
    } else {
        (Seq::empty(), schema_version)
    }
}

pub fn migration_plan(schema_version: i32) -> (r: (Vec<Migration>, i32))
    ensures
        (r.0@, r.1) == migration_plan_spec(schema_version),
{
    let mut steps: Vec<Migration> = Vec::new();
    if schema_version < 1 {
        return (steps, 0);
    }
    let mut version = schema_version;
    if version == 2 {
        steps.push(Migration::AddServerSoftwareSpoof);
        version = 3;
    }
    if version == 3 {
        steps.push(Migration::AddTlsAutomaticEnabled);
        version = 4;
    }
    proof {
        assert(steps@ =~= migration_plan_spec(schema_version).0);
    }
    (steps, version)
}

/// The statement a step runs, and the version it leaves.
pub fn migration_statement(m: Migration) -> (r: (String, i32))
    ensures
        m == Migration::AddServerSoftwareSpoof ==> r.0@
            == "ALTER TABLE php_processors ADD COLUMN server_software_spoof TEXT NOT NULL DEFAULT '';"@
            && r.1 == 3,
        m == Migration::AddTlsAutomaticEnabled ==> r.0@
            == "ALTER TABLE sites ADD COLUMN tls_automatic_enabled BOOLEAN NOT NULL DEFAULT 0;"@
            && r.1 == 4,
{
    match m {
        Migration::AddServerSoftwareSpoof => (
            String::from_str(
                "ALTER TABLE php_processors ADD COLUMN server_software_spoof TEXT NOT NULL DEFAULT '';",
            ),
            3,
        ),
        Migration::AddTlsAutomaticEnabled => (
            String::from_str(
                "ALTER TABLE sites ADD COLUMN tls_automatic_enabled BOOLEAN NOT NULL DEFAULT 0;",
            ),
            4,
        ),
    }
}

} // verus!
