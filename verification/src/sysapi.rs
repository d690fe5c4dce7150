//! Calls into the host: page size and account-name resolution. Both are
//! machine-dependent, so nothing is assumed of their values.

use vstd::prelude::*;

verus! {

/// Relies on `procfs::page_size`: the memory page size in bytes, as
/// `sysconf(_SC_PAGESIZE)` reports it. Machine-dependent.
#[verifier::external_body]
pub fn os_page_size() -> (r: u64) {
    procfs::page_size()
}

/// Relies on `users::get_user_by_uid` and `users::User::name`: the account
/// name recorded for the uid, if the user database has one.
/// Machine-dependent.
#[verifier::external_body]
pub fn lookup_username(uid: u32) -> (r: Option<String>) {
    users::get_user_by_uid(uid).map(|u| u.name().to_string_lossy().into_owned())
}

} // verus!
