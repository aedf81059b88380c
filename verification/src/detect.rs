//! The change detector: fingerprints one fetched page and runs the
//! read-compare-write step of the state store for its URL.
use vstd::prelude::*;
use crate::fingerprint::{fingerprint, sha256_of};
use crate::store::{name_of, record_name, store_after, store_changed, StateStore};

verus! {

/// Checks one URL given the bytes its fetch returned: computes the
/// fingerprint, compares it against the record stored for the URL, stores
/// it, and reports whether the page changed. A URL with no prior record
/// always counts as changed.
pub fn check_page(store: &mut StateStore, url: &str, body: &Vec<u8>) -> (changed: bool)
    requires
        url@.len() <= usize::MAX / 8,
    ensures
        changed == store_changed(old(store)@, name_of(url@), sha256_of(body@)),
        final(store)@ == store_after(old(store)@, name_of(url@), sha256_of(body@)),
{
    let name = record_name(url);
    let fp = fingerprint(body);
    store.compare_and_store(&name, &fp)
}

} // verus!
