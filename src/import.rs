use vstd::prelude::*;

use crate::item::VaultItem;

verus! {

/// Arguments of a CSV import.
#[derive(Debug, Clone)]
pub struct ImportCsvArgs {
    pub file_path: String,
}

/// The tally of a CSV import.
#[derive(Debug, Clone)]
pub struct ImportResult {
    pub success_count: usize,
    pub error_count: usize,
    pub errors: Vec<String>,
}

/// An item read from an import, with the secret it carries, if any.
#[derive(Debug, Clone)]
pub struct ImportedItem {
    pub vault_item: VaultItem,
    pub password_data: Option<String>,
}

/// Reads items from outside sources.
#[derive(Debug, Clone, Copy)]
pub struct Importer;

impl ImportResult {
    pub fn new() -> (r: ImportResult)
        ensures
            r.success_count == 0,
            r.error_count == 0,
            r.errors@.len() == 0,
    {
        ImportResult { success_count: 0, error_count: 0, errors: Vec::new() }
    }

    /// Counts one record that was read.
    pub fn record_success(&mut self)
        requires
            old(self).success_count < usize::MAX,
        ensures
            final(self).success_count == old(self).success_count + 1,
            final(self).error_count == old(self).error_count,
            final(self).errors@ == old(self).errors@,
    {
        self.success_count = self.success_count + 1;
    }

    /// Counts one record that failed, keeping its message.
    pub fn record_error(&mut self, message: String)
        requires
            old(self).error_count < usize::MAX,
        ensures
            final(self).success_count == old(self).success_count,
            final(self).error_count == old(self).error_count + 1,
            final(self).errors@ == old(self).errors@.push(message),
    {
        self.error_count = self.error_count + 1;
        self.errors.push(message);
    }

    /// Items are only added to the vault when no record failed.
    pub fn is_clean(&self) -> (r: bool)
        ensures
            r == (self.error_count == 0),
    {
        self.error_count == 0
    }
}

} // verus!
