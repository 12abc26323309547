//! One entry of the personal contact book.

use vstd::prelude::*;

verus! {

/// A contact as it is stored.
#[derive(Debug)]
pub struct RolodexEntry {
    pub user_id: String,
    pub display_name: String,
    /// Free-form personal notes.
    pub notes: String,
    /// Unix time in seconds.
    pub added_at: u64,
}

impl Clone for RolodexEntry {
    fn clone(&self) -> (r: Self)
        ensures
            r == *self,
    {
        RolodexEntry {
            user_id: self.user_id.clone(),
            display_name: self.display_name.clone(),
            notes: self.notes.clone(),
            added_at: self.added_at,
        }
    }
}

/// A contact as the contact book shows it.
#[derive(Debug)]
pub struct RolodexEntryObject {
    pub user_id: String,
    pub display_name: String,
    pub notes: String,
    pub added_at: u64,
}

impl RolodexEntryObject {
    pub fn new(user_id: &str, display_name: &str, notes: &str, added_at: u64) -> (r: Self)
        ensures
            r.user_id@ == user_id@,
            r.display_name@ == display_name@,
            r.notes@ == notes@,
            r.added_at == added_at,
    {
        RolodexEntryObject {
            user_id: user_id.to_owned(),
            display_name: display_name.to_owned(),
            notes: notes.to_owned(),
            added_at,
        }
    }

    /// The stored form of the contact.
    pub fn to_entry(&self) -> (r: RolodexEntry)
        ensures
            r == (RolodexEntry {
                user_id: self.user_id,
                display_name: self.display_name,
                notes: self.notes,
                added_at: self.added_at,
            }),
    {
        RolodexEntry {
            user_id: self.user_id.clone(),
            display_name: self.display_name.clone(),
            notes: self.notes.clone(),
            added_at: self.added_at,
        }
    }
}

} // verus!
