//! Per-replica vault configuration: which absolute root each vault has on
//! this replica.
//!
//! The configuration is built once at startup from plain values and passed
//! explicitly to the functions that need it; the engine keeps no global
//! state.

use vstd::prelude::*;

verus! {

use crate::errors::SyncError;

/// One vault's configuration on one replica.
#[derive(Debug, Clone)]
pub struct VaultConfig {
    /// The vault's absolute root path on this replica.
    pub full_path: String,
    /// The vault's identifier, identical on every replica.
    pub vault_id: i32,
    /// How often this replica synchronizes the vault, in seconds.
    pub sync_frequency: u64,
    /// Name of the vault's root directory, identical on every replica.
    pub vault_root: String,
}

impl VaultConfig {
    /// A field-for-field copy.
    pub fn duplicate(&self) -> (r: VaultConfig)
        ensures
            r == *self,
    {
        VaultConfig {
            full_path: self.full_path.clone(),
            vault_id: self.vault_id,
            sync_frequency: self.sync_frequency,
            vault_root: self.vault_root.clone(),
        }
    }
}

/// The first position in `configs` that holds the vault with this id.
pub open spec fn first_cfg_with_id(configs: Seq<VaultConfig>, vault_id: int) -> Option<int>
    decreases configs.len(),
{
    if configs.len() == 0 {
        None
    } else if configs[0].vault_id as int == vault_id {
        Some(0)
    } else {
        match first_cfg_with_id(configs.drop_first(), vault_id) {
            Some(i) => Some(i + 1),
            None => None,
        }
    }
}

/// Whether a configuration for this vault is present.
pub open spec fn cfg_has(configs: Seq<VaultConfig>, vault_id: int) -> bool {
    first_cfg_with_id(configs, vault_id) is Some
}

/// The configured root of this vault, or the empty path when the vault is
/// not configured.
pub open spec fn cfg_root(configs: Seq<VaultConfig>, vault_id: int) -> Seq<char> {
    match first_cfg_with_id(configs, vault_id) {
        Some(i) => configs[i].full_path@,
        None => Seq::empty(),
    }
}

/// What the first-position search guarantees.
pub proof fn lemma_first_cfg_with_id_props(configs: Seq<VaultConfig>, vault_id: int)
    ensures
        match first_cfg_with_id(configs, vault_id) {
            Some(i) => 0 <= i < configs.len() && configs[i].vault_id as int == vault_id && (forall|
                j: int,
            |
                0 <= j < i ==> (#[trigger] configs[j]).vault_id as int != vault_id),
            None => forall|j: int|
                0 <= j < configs.len() ==> (#[trigger] configs[j]).vault_id as int != vault_id,
        },
    decreases configs.len(),
{
    if configs.len() > 0 && configs[0].vault_id as int != vault_id {
        let rest = configs.drop_first();
        lemma_first_cfg_with_id_props(rest, vault_id);
        match first_cfg_with_id(rest, vault_id) {
            Some(i) => {
                assert forall|j: int| 0 <= j < i + 1 implies (#[trigger] configs[j]).vault_id
                    as int != vault_id by {
                    if j > 0 {
                        assert(rest[j - 1] == configs[j]);
                    }
                }
            },
            None => {
                assert forall|j: int| 0 <= j < configs.len() implies (
                #[trigger] configs[j]).vault_id as int != vault_id by {
                    if j > 0 {
                        assert(rest[j - 1] == configs[j]);
                    }
                }
            },
        }
    }
}

/// The vault configurations of one replica, looked up by vault id.
#[derive(Debug, Clone)]
pub struct VaultConfigMap {
    /// The entries, one per vault.
    pub configs: Vec<VaultConfig>,
}

impl VaultConfigMap {
    /// The map's invariant: no two entries for one vault.
    pub open spec fn wf(self) -> bool {
        forall|i: int, j: int|
            0 <= i < j < self.configs@.len() ==> (#[trigger] self.configs@[i]).vault_id != (
            #[trigger] self.configs@[j]).vault_id
    }

    /// The configuration of one vault, when present.
    pub fn get(&self, vault_id: i32) -> (r: Option<&VaultConfig>)
        ensures
            r is Some <==> cfg_has(self.configs@, vault_id as int),
            r matches Some(c) ==> first_cfg_with_id(self.configs@, vault_id as int) matches Some(i)
                && *c == self.configs@[i],
    {
        proof {
            assert(self.configs@.skip(0) =~= self.configs@);
        }
        let mut k: usize = 0;
        while k < self.configs.len()
            invariant
                k <= self.configs@.len(),
                first_cfg_with_id(self.configs@, vault_id as int) == (match first_cfg_with_id(
                    self.configs@.skip(k as int),
                    vault_id as int,
                ) {
                    Some(i) => Some(i + k),
                    None => None::<int>,
                }),
            decreases self.configs@.len() - k,
        {
            proof {
                assert(self.configs@.skip(k as int).drop_first() =~= self.configs@.skip(
                    k + 1 as int,
                ));
            }
            if self.configs[k].vault_id == vault_id {
                return Some(&self.configs[k]);
            }
            k = k + 1;
        }
        None
    }
}

/// Builds the vault-id-keyed configuration table of one replica.
///
/// Rejects a list that names the same vault twice, since lookups would then
/// silently shadow one of the roots.
pub fn get_vault_config_hashmap(configs: Vec<VaultConfig>) -> (r: Result<VaultConfigMap, SyncError>)
    ensures
        r is Ok <==> (forall|i: int, j: int|
            0 <= i < j < configs@.len() ==> (#[trigger] configs@[i]).vault_id != (
            #[trigger] configs@[j]).vault_id),
        r matches Ok(m) ==> m.configs@ == configs@ && m.wf(),
        r matches Err(e) ==> e == SyncError::StoreError,
{
    let mut i: usize = 0;
    while i < configs.len()
        invariant
            i <= configs@.len(),
            forall|a: int, b: int|
                0 <= a < b < configs@.len() && a < i ==> (#[trigger] configs@[a]).vault_id != (
                #[trigger] configs@[b]).vault_id,
        decreases configs@.len() - i,
    {
        let mut j: usize = i + 1;
        while j < configs.len()
            invariant
                i < j <= configs@.len() || (i >= configs@.len() && j >= configs@.len()),
                i < configs@.len(),
                forall|b: int|
                    i < b < j ==> (#[trigger] configs@[b]).vault_id != configs@[i as int].vault_id,
            decreases configs@.len() - j,
        {
            if configs[j].vault_id == configs[i].vault_id {
                return Err(SyncError::StoreError);
            }
            j = j + 1;
        }
        i = i + 1;
    }
    Ok(VaultConfigMap { configs })
}

} // verus!
