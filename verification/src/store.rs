//! The state store: one record per watched URL, holding the fingerprint
//! last stored for it.
//!
//! A record is kept under a name derived from the URL by an injective,
//! filename-friendly encoding, so records of distinct URLs never collide.
//! The store itself lives in memory; the caller persists each record (one
//! file per record name) and loads it back before the next comparison.
use vstd::prelude::*;
use vstd::hash_map::StringHashMap;
use base64::Engine;

verus! {

/// The encoding that turns a URL into the variable part of its record
/// name: standard base64 over the URL's characters, a fixed function of
/// the URL alone.
pub uninterp spec fn base64_of(url: Seq<char>) -> Seq<char>;

/// Relies on base64::engine::general_purpose::STANDARD.encode over the
/// URL's UTF-8 bytes: the result is a fixed function of the input, and
/// the encoding is injective, since STANDARD decoding inverts it
/// (RFC 4648). The length bound keeps the encoder's output-size
/// computation from overflowing.
#[verifier::external_body]
fn base64_encode(url: &str) -> (r: String)
    requires
        url@.len() <= usize::MAX / 8,
    ensures
        r@ == base64_of(url@),
        forall|other: Seq<char>| base64_of(other) == r@ ==> other == url@,
{
    base64::engine::general_purpose::STANDARD.encode(url.as_bytes())
}

/// The record name under which a URL's fingerprint is stored: a fixed
/// prefix, then the encoded URL.
pub open spec fn name_of(url: Seq<char>) -> Seq<char> {
    "web_watcher_"@ + base64_of(url)
}

proof fn lemma_concat_cancel_left(a: Seq<char>, b: Seq<char>, c: Seq<char>)
    requires
        a + b == a + c,
    ensures
        b == c,
{
    assert((a + b).len() == a.len() + b.len());
    assert((a + c).len() == a.len() + c.len());
    assert forall|i: int| 0 <= i < b.len() implies b[i] == c[i] by {
        assert(0 <= i < c.len());
        assert((a + b)[a.len() + i] == b[i]);
        assert((a + c)[a.len() + i] == c[i]);
    }
    assert(b =~= c);
}

/// Derives the record name for a URL. Distinct URLs always get distinct
/// record names: the encoding is injective, so records never collide.
pub fn record_name(url: &str) -> (r: String)
    requires
        url@.len() <= usize::MAX / 8,
    ensures
        r@ == name_of(url@),
        forall|other: Seq<char>| name_of(other) == r@ ==> other == url@,
{
    let encoded = base64_encode(url);
    let mut r = String::from_str("web_watcher_");
    r.append(encoded.as_str());
    proof {
        assert forall|other: Seq<char>| name_of(other) == r@ implies other == url@ by {
            lemma_concat_cancel_left("web_watcher_"@, base64_of(other), base64_of(url@));
        }
    }
    r
}

/// Whether `compare_and_store` reports a change: it does unless a record
/// already exists under `name` and holds exactly `fp`. In particular the
/// first observation of a URL is always a change.
pub open spec fn store_changed(m: Map<Seq<char>, Seq<u8>>, name: Seq<char>, fp: Seq<u8>) -> bool {
    !(m.contains_key(name) && m[name] == fp)
}

/// The store's contents after `compare_and_store`: the record under
/// `name` holds the new fingerprint (a record that already held it is
/// left as it was).
pub open spec fn store_after(
    m: Map<Seq<char>, Seq<u8>>,
    name: Seq<char>,
    fp: Seq<u8>,
) -> Map<Seq<char>, Seq<u8>> {
    m.insert(name, fp)
}

/// Byte-for-byte equality of two byte strings.
fn bytes_eq(a: &Vec<u8>, b: &Vec<u8>) -> (r: bool)
    ensures
        r == (a@ == b@),
{
    if a.len() != b.len() {
        return false;
    }
    let mut i: usize = 0;
    while i < a.len()
        invariant
            i <= a@.len(),
            a@.len() == b@.len(),
            forall|j: int| 0 <= j < i ==> a@[j] == b@[j],
        decreases a@.len() - i,
    {
        if a[i] != b[i] {
            return false;
        }
        i += 1;
    }
    proof {
        assert(a@ =~= b@);
    }
    true
}

/// A copy of a byte string.
fn copy_bytes(v: &Vec<u8>) -> (r: Vec<u8>)
    ensures
        r@ == v@,
{
    let mut r: Vec<u8> = Vec::new();
    let mut i: usize = 0;
    while i < v.len()
        invariant
            i <= v@.len(),
            r@ == v@.take(i as int),
        decreases v@.len() - i,
    {
        r.push(v[i]);
        proof {
            assert(r@ =~= v@.take(i + 1 as int));
        }
        i += 1;
    }
    proof {
        assert(v@.take(v@.len() as int) =~= v@);
    }
    r
}

/// Maps record names to the fingerprint last stored under them.
pub struct StateStore {
    records: StringHashMap<Vec<u8>>,
}

impl View for StateStore {
    type V = Map<Seq<char>, Seq<u8>>;

    closed spec fn view(&self) -> Map<Seq<char>, Seq<u8>> {
        self.records@.map_values(|v: Vec<u8>| v@)
    }
}

proof fn lemma_view_insert(m: Map<Seq<char>, Vec<u8>>, k: Seq<char>, v: Vec<u8>)
    ensures
        m.insert(k, v).map_values(|x: Vec<u8>| x@) == m.map_values(|x: Vec<u8>| x@).insert(k, v@),
{
    assert(m.insert(k, v).map_values(|x: Vec<u8>| x@) =~= m.map_values(|x: Vec<u8>| x@).insert(
        k,
        v@,
    ));
}

impl StateStore {
    /// Creates a store with no records.
    pub fn new() -> (r: Self)
        ensures
            r@ == Map::<Seq<char>, Seq<u8>>::empty(),
    {
        let r = StateStore { records: StringHashMap::new() };
        proof {
            assert(r@ =~= Map::<Seq<char>, Seq<u8>>::empty());
        }
        r
    }

    /// True if a record exists under this name.
    pub fn contains(&self, name: &str) -> (r: bool)
        ensures
            r == self@.contains_key(name@),
    {
        self.records.contains_key(name)
    }

    /// The fingerprint stored under this name, if any.
    pub fn get_record(&self, name: &str) -> (r: Option<&Vec<u8>>)
        ensures
            match r {
                Some(fp) => self@.contains_key(name@) && fp@ == self@[name@],
                None => !self@.contains_key(name@),
            },
    {
        self.records.get(name)
    }

    /// Puts a record read back from persistent storage into the store.
    pub fn load_record(&mut self, name: String, fp: Vec<u8>)
        ensures
            final(self)@ == old(self)@.insert(name@, fp@),
    {
        let ghost m0 = self.records@;
        let ghost namev = name@;
        let ghost fpc = fp;
        self.records.insert(name, fp);
        proof {
            lemma_view_insert(m0, namev, fpc);
        }
    }

    /// Read-compare-write on one record: compares the stored fingerprint
    /// (if any) against `fp`, stores `fp` where they differ or no record
    /// existed, and reports whether a change was seen. A record that
    /// already holds `fp` is left untouched and no change is reported.
    pub fn compare_and_store(&mut self, name: &String, fp: &Vec<u8>) -> (changed: bool)
        ensures
            changed == store_changed(old(self)@, name@, fp@),
            final(self)@ == store_after(old(self)@, name@, fp@),
    {
        let changed: bool = match self.records.get(name.as_str()) {
            Some(stored) => !bytes_eq(stored, fp),
            None => true,
        };
        if changed {
            let ghost m0 = self.records@;
            let fp_copy = copy_bytes(fp);
            let ghost fpc = fp_copy;
            self.records.insert(name.clone(), fp_copy);
            proof {
                lemma_view_insert(m0, name@, fpc);
            }
        } else {
            proof {
                assert(old(self)@ =~= store_after(old(self)@, name@, fp@));
            }
        }
        changed
    }
}

/// With no record under `name`, `compare_and_store` always reports a
/// change — the first observation of a URL is never silent — and
/// afterwards the record exists and holds exactly `fp`.
pub proof fn lemma_first_observation(m: Map<Seq<char>, Seq<u8>>, name: Seq<char>, fp: Seq<u8>)
    requires
        !m.contains_key(name),
    ensures
        store_changed(m, name, fp),
        store_after(m, name, fp).contains_key(name),
        store_after(m, name, fp)[name] == fp,
{
}

/// Storing the same fingerprint twice for a URL with no prior record
/// reports a change the first time and none the second, and the second
/// call leaves the store exactly as the first left it.
pub proof fn lemma_stability(m: Map<Seq<char>, Seq<u8>>, name: Seq<char>, fp: Seq<u8>)
    requires
        !m.contains_key(name),
    ensures
        store_changed(m, name, fp),
        !store_changed(store_after(m, name, fp), name, fp),
        store_after(store_after(m, name, fp), name, fp) == store_after(m, name, fp),
{
    assert(store_after(store_after(m, name, fp), name, fp) =~= store_after(m, name, fp));
}

/// Storing `f1` and then a different `f2` for a URL with no prior record
/// reports a change both times, and afterwards the record holds exactly
/// `f2`, the old value fully overwritten.
pub proof fn lemma_change(m: Map<Seq<char>, Seq<u8>>, name: Seq<char>, f1: Seq<u8>, f2: Seq<u8>)
    requires
        !m.contains_key(name),
        f1 != f2,
    ensures
        store_changed(m, name, f1),
        store_changed(store_after(m, name, f1), name, f2),
        store_after(store_after(m, name, f1), name, f2)[name] == f2,
        store_after(store_after(m, name, f1), name, f2) == store_after(m, name, f2),
{
    assert(store_after(store_after(m, name, f1), name, f2) =~= store_after(m, name, f2));
}

/// An operation on one record neither touches a record under a different
/// name nor depends on it. Together with the injectivity stated by
/// `record_name`, records of distinct URLs never collide or interfere.
pub proof fn lemma_independence(
    m: Map<Seq<char>, Seq<u8>>,
    name: Seq<char>,
    other: Seq<char>,
    fp: Seq<u8>,
)
    requires
        name != other,
    ensures
        store_after(m, name, fp).contains_key(other) == m.contains_key(other),
        m.contains_key(other) ==> store_after(m, name, fp)[other] == m[other],
        store_changed(m, name, fp) == store_changed(m.remove(other), name, fp),
{
}

} // verus!
