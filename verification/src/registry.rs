//! A saved copy of the registry entries of a COM server, to put back later.
use vstd::prelude::*;

use crate::name_map::NameMap;

verus! {

/// A registry value: its type code and raw data.
#[derive(Debug, Clone)]
pub struct RegistryValue {
    pub value_type: u32,
    pub data: Vec<u8>,
}

/// A registry key with its values by name, and its subkeys with their names
/// (each name once).
#[derive(Debug)]
pub struct RegistryKey {
    pub values: NameMap<RegistryValue>,
    pub subkeys: Vec<(String, RegistryKey)>,
}

/// What a backup holds: the server's class key, the executable it pointed
/// at, and when the backup was made.
#[derive(Debug)]
pub struct RegistryBackup {
    pub clsid_key: Option<RegistryKey>,
    pub original_exe_path: Option<String>,
    pub backup_timestamp: String,
}

impl RegistryKey {
    /// A key with no values and no subkeys.
    pub fn new() -> (r: Self)
        ensures
            r.values.entries@.len() == 0,
            r.subkeys@.len() == 0,
    {
        RegistryKey { values: NameMap::new(), subkeys: Vec::new() }
    }
}

} // verus!
