//! The business-agnostic key-value cache port and its in-memory
//! implementation.

use vstd::prelude::*;

verus! {

/// Errors of the cache layer.
#[derive(Clone, Debug, PartialEq)]
pub enum CacheError {
    Serialize(String),
    Deserialize(String),
    Storage(String),
    Unknown(String),
}

/// Raw-byte key-value store port.
pub trait Cache {
    fn set_raw(&mut self, key: &str, value: Vec<u8>) -> Result<(), CacheError>;

    fn get_raw(&self, key: &str) -> Result<Option<Vec<u8>>, CacheError>;

    fn del(&mut self, key: &str) -> Result<(), CacheError>;
}

/// One cached entry.
pub struct CacheEntry {
    pub key: String,
    pub value: Vec<u8>,
}

/// The cached bytes for `key`, if any.
pub open spec fn find_cached(es: Seq<CacheEntry>, key: Seq<char>) -> Option<Seq<u8>>
    decreases es.len(),
{
    if es.len() == 0 {
        None
    } else if es.last().key@ == key {
        Some(es.last().value@)
    } else {
        find_cached(es.drop_last(), key)
    }
}

/// Keys are unique.
pub open spec fn cache_wf(es: Seq<CacheEntry>) -> bool {
    forall|i: int, j: int| 0 <= i < j < es.len() ==> es[i].key@ != es[j].key@
}

proof fn lemma_find_cached_at(es: Seq<CacheEntry>, key: Seq<char>, i: int)
    requires
        cache_wf(es),
        0 <= i < es.len(),
        es[i].key@ == key,
    ensures
        find_cached(es, key) == Some(es[i].value@),
    decreases es.len(),
{
    if i == es.len() - 1 {
    } else {
        assert(es.drop_last()[i] == es[i]);
        lemma_find_cached_at(es.drop_last(), key, i);
    }
}

proof fn lemma_find_cached_absent(es: Seq<CacheEntry>, key: Seq<char>)
    requires
        forall|i: int| 0 <= i < es.len() ==> (#[trigger] es[i]).key@ != key,
    ensures
        find_cached(es, key) is None,
    decreases es.len(),
{
    if es.len() > 0 {
        lemma_find_cached_absent(es.drop_last(), key);
    }
}

proof fn lemma_find_cached_update(es: Seq<CacheEntry>, i: int, e: CacheEntry, key: Seq<char>)
    requires
        cache_wf(es),
        0 <= i < es.len(),
        e.key@ == es[i].key@,
    ensures
        find_cached(es.update(i, e), es[i].key@) == Some(e.value@),
        key != es[i].key@ ==> find_cached(es.update(i, e), key) == find_cached(es, key),
        cache_wf(es.update(i, e)),
    decreases es.len(),
{
    let es2 = es.update(i, e);
    assert(forall|k: int| 0 <= k < es.len() && k != i ==> es2[k] == es[k]);
    lemma_find_cached_at(es2, es[i].key@, i);
    if key != es[i].key@ {
        if i == es.len() - 1 {
            assert(es2.drop_last() =~= es.drop_last());
        } else {
            if es.last().key@ == key {
                assert(es2.last() == es.last());
            } else {
                assert(es2.drop_last() =~= es.drop_last().update(i, e));
                lemma_find_cached_update(es.drop_last(), i, e, key);
            }
        }
    }
}

proof fn lemma_find_cached_remove(es: Seq<CacheEntry>, i: int, key: Seq<char>)
    requires
        cache_wf(es),
        0 <= i < es.len(),
    ensures
        find_cached(es.remove(i), es[i].key@) is None,
        key != es[i].key@ ==> find_cached(es.remove(i), key) == find_cached(es, key),
        cache_wf(es.remove(i)),
    decreases es.len(),
{
    let es2 = es.remove(i);
    assert(forall|k: int| 0 <= k < i ==> es2[k] == es[k]);
    assert(forall|k: int| i <= k < es2.len() ==> es2[k] == es[k + 1]);
    assert(forall|k: int| 0 <= k < es2.len() ==> (#[trigger] es2[k]).key@ != es[i].key@);
    lemma_find_cached_absent(es2, es[i].key@);
    if key != es[i].key@ {
        if i == es.len() - 1 {
            assert(es2 =~= es.drop_last());
        } else {
            assert(es2.last() == es.last());
            if es.last().key@ == key {
            } else {
                assert(es2.drop_last() =~= es.drop_last().remove(i));
                lemma_find_cached_remove(es.drop_last(), i, key);
            }
        }
    }
}

/// In-memory cache: a flat map with unique keys.
pub struct MemCache {
    pub entries: Vec<CacheEntry>,
}

impl MemCache {
    /// An empty cache.
    pub fn new() -> (r: MemCache)
        ensures
            r.entries@.len() == 0,
            cache_wf(r.entries@),
    {
        MemCache { entries: Vec::new() }
    }

    /// Index of `key`, if cached.
    fn find_index(&self, key: &str) -> (r: Option<usize>)
        requires
            cache_wf(self.entries@),
        ensures
            match r {
                Some(i) => {
                    &&& i < self.entries@.len()
                    &&& self.entries@[i as int].key@ == key@
                    &&& find_cached(self.entries@, key@) == Some(self.entries@[i as int].value@)
                },
                None => {
                    &&& find_cached(self.entries@, key@) is None
                    &&& forall|j: int|
                        0 <= j < self.entries@.len() ==> (#[trigger] self.entries@[j]).key@
                            != key@
                },
            },
    {
        let n = self.entries.len();
        let mut i: usize = 0;
        while i < n
            invariant
                n == self.entries@.len(),
                i <= n,
                cache_wf(self.entries@),
                forall|j: int| 0 <= j < i ==> (#[trigger] self.entries@[j]).key@ != key@,
            decreases n - i,
        {
            if crate::strutil::str_eq(self.entries[i].key.as_str(), key) {
                proof {
                    lemma_find_cached_at(self.entries@, key@, i as int);
                }
                return Some(i);
            }
            i += 1;
        }
        proof {
            lemma_find_cached_absent(self.entries@, key@);
        }
        None
    }

    /// Store `value` under `key`, replacing any previous entry.
    pub fn set_raw(&mut self, key: &str, value: Vec<u8>) -> (r: Result<(), CacheError>)
        requires
            cache_wf(old(self).entries@),
        ensures
            r is Ok,
            cache_wf(final(self).entries@),
            find_cached(final(self).entries@, key@) == Some(value@),
            forall|k: Seq<char>|
                k != key@ ==> #[trigger] find_cached(final(self).entries@, k) == find_cached(
                    old(self).entries@,
                    k,
                ),
    {
        let ghost es0 = self.entries@;
        let entry = CacheEntry { key: key.to_owned(), value };
        match self.find_index(key) {
            Some(i) => {
                proof {
                    lemma_find_cached_update(es0, i as int, entry, key@);
                    assert forall|k: Seq<char>| k != key@ implies find_cached(
                        es0.update(i as int, entry),
                        k,
                    ) == find_cached(es0, k) by {
                        lemma_find_cached_update(es0, i as int, entry, k);
                    }
                }
                self.entries.set(i, entry);
            },
            None => {
                proof {
                    assert(es0.push(entry).last() == entry);
                    assert(es0.push(entry).drop_last() =~= es0);
                    assert forall|k: Seq<char>| k != key@ implies find_cached(
                        es0.push(entry),
                        k,
                    ) == find_cached(es0, k) by {
                        assert(es0.push(entry).drop_last() =~= es0);
                    }
                }
                self.entries.push(entry);
            },
        }
        Ok(())
    }

    /// The bytes cached under `key`, if any.
    pub fn get_raw(&self, key: &str) -> (r: Result<Option<Vec<u8>>, CacheError>)
        requires
            cache_wf(self.entries@),
        ensures
            (r matches Ok(found) && (match found {
                Some(v) => find_cached(self.entries@, key@) == Some(v@),
                None => find_cached(self.entries@, key@) is None,
            })),
    {
        match self.find_index(key) {
            Some(i) => {
                let e = &self.entries[i];
                let cloned = e.value.clone();
                proof {
                    assert(cloned@ =~= e.value@);
                }
                Ok(Some(cloned))
            },
            None => Ok(None),
        }
    }

    /// Remove `key`, silently succeeding when it is absent.
    pub fn del(&mut self, key: &str) -> (r: Result<(), CacheError>)
        requires
            cache_wf(old(self).entries@),
        ensures
            r is Ok,
            cache_wf(final(self).entries@),
            find_cached(final(self).entries@, key@) is None,
            forall|k: Seq<char>|
                k != key@ ==> #[trigger] find_cached(final(self).entries@, k) == find_cached(
                    old(self).entries@,
                    k,
                ),
    {
        let ghost es0 = self.entries@;
        match self.find_index(key) {
            Some(i) => {
                let _ = self.entries.remove(i);
                proof {
                    lemma_find_cached_remove(es0, i as int, key@);
                    assert forall|k: Seq<char>| k != key@ implies find_cached(
                        es0.remove(i as int),
                        k,
                    ) == find_cached(es0, k) by {
                        lemma_find_cached_remove(es0, i as int, k);
                    }
                }
            },
            None => {},
        }
        Ok(())
    }
}

} // verus!
