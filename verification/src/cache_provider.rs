//! The tile cache: a mapping from a request fingerprint to the encoded
//! tile bytes.  This store is the verified reference: both operations
//! are total, `set` installs exactly one binding and `get_bytes`
//! returns exactly the stored bytes.  A remote backing store (or the
//! no-op store used when no cache is configured) lives outside the
//! crate and is expected to honour the same contract on a best-effort
//! basis: there a failure reads as a miss.

use vstd::prelude::*;

verus! {

/// What a key maps to in a cache: the bytes of its first matching
/// entry, if any.
pub open spec fn spec_cache_lookup(entries: Seq<(String, Vec<u8>)>, key: Seq<char>) -> Option<
    Seq<u8>,
>
    decreases entries.len(),
{
    if entries.len() == 0 {
        None
    } else if entries[0].0@ == key {
        Some(entries[0].1@)
    } else {
        spec_cache_lookup(entries.drop_first(), key)
    }
}

proof fn lemma_lookup_after_set(
    entries: Seq<(String, Vec<u8>)>,
    i: int,
    pair: (String, Vec<u8>),
    probe: Seq<char>,
)
    requires
        0 <= i <= entries.len(),
        forall|j: int| 0 <= j < i ==> entries[j].0@ != pair.0@,
        i < entries.len() ==> entries[i].0@ == pair.0@,
    ensures
        ({
            let updated = if i < entries.len() {
                entries.update(i, pair)
            } else {
                entries.push(pair)
            };
            spec_cache_lookup(updated, probe) == if probe == pair.0@ {
                Some(pair.1@)
            } else {
                spec_cache_lookup(entries, probe)
            }
        }),
    decreases entries.len(),
{
    let updated = if i < entries.len() {
        entries.update(i, pair)
    } else {
        entries.push(pair)
    };
    if entries.len() == 0 {
        assert(updated =~= seq![pair]);
        assert(updated.len() == 1);
        assert(updated[0] == pair);
        assert(updated.drop_first() =~= Seq::<(String, Vec<u8>)>::empty());
        if probe == pair.0@ {
            assert(spec_cache_lookup(updated, probe) == Some(pair.1@));
        } else {
            assert(spec_cache_lookup(updated, probe) == spec_cache_lookup(
                updated.drop_first(),
                probe,
            ));
            assert(spec_cache_lookup(updated.drop_first(), probe) is None);
            assert(spec_cache_lookup(entries, probe) is None);
        }
    } else if i == 0 {
        assert(i < entries.len());
        assert(updated[0] == pair);
        assert(updated.drop_first() =~= entries.drop_first());
        if probe == pair.0@ {
            assert(spec_cache_lookup(updated, probe) == Some(pair.1@));
        } else {
            assert(spec_cache_lookup(updated, probe) == spec_cache_lookup(
                entries.drop_first(),
                probe,
            ));
            assert(spec_cache_lookup(entries, probe) == spec_cache_lookup(
                entries.drop_first(),
                probe,
            ));
        }
    } else {
        let rest = entries.drop_first();
        let updated2 = if i - 1 < rest.len() {
            rest.update(i - 1, pair)
        } else {
            rest.push(pair)
        };
        assert(updated.len() > 0);
        assert(updated[0] == entries[0]);
        assert(entries[0].0@ != pair.0@);
        if i < entries.len() {
            assert(updated.drop_first() =~= rest.update(i - 1, pair));
        } else {
            assert(updated.drop_first() =~= rest.push(pair));
        }
        assert(updated.drop_first() == updated2);
        assert forall|j: int| 0 <= j < i - 1 implies rest[j].0@ != pair.0@ by {
            assert(rest[j] == entries[j + 1]);
        }
        assert(i - 1 < rest.len() ==> rest[i - 1] == entries[i]);
        lemma_lookup_after_set(rest, i - 1, pair, probe);
        assert(spec_cache_lookup(updated2, probe) == (if probe == pair.0@ {
            Some(pair.1@)
        } else {
            spec_cache_lookup(rest, probe)
        }));
        if probe == entries[0].0@ {
            assert(spec_cache_lookup(updated, probe) == Some(entries[0].1@));
            assert(spec_cache_lookup(entries, probe) == Some(entries[0].1@));
            assert(probe != pair.0@);
        } else {
            assert(spec_cache_lookup(updated, probe) == spec_cache_lookup(updated2, probe));
            assert(spec_cache_lookup(entries, probe) == spec_cache_lookup(rest, probe));
        }
    }
    assert(spec_cache_lookup(updated, probe) == (if probe == pair.0@ {
        Some(pair.1@)
    } else {
        spec_cache_lookup(entries, probe)
    }));
}

/// An in-memory tile cache.  Entries pair a fingerprint with the tile
/// bytes stored under it; a key occurs in at most one live binding
/// (`set` replaces in place).
pub struct TileCache {
    pub entries: Vec<(String, Vec<u8>)>,
}

impl TileCache {
    /// An empty cache: every lookup misses.
    pub fn new() -> (cache: TileCache)
        ensures
            forall|k: Seq<char>| spec_cache_lookup(cache.entries@, k) is None,
    {
        TileCache { entries: Vec::new() }
    }

    /// Looks a fingerprint up: the stored bytes, or `None` when the
    /// key was never stored.
    pub fn get_bytes(&self, key: &str) -> (result: Option<Vec<u8>>)
        ensures
            match result {
                Some(bytes) => spec_cache_lookup(self.entries@, key@) == Some(bytes@),
                None => spec_cache_lookup(self.entries@, key@) is None,
            },
    {
        let ghost es = self.entries@;
        proof {
            assert(es.skip(0) =~= es);
        }
        let n = self.entries.len();
        let mut i: usize = 0;
        while i < n
            invariant
                0 <= i <= n == es.len(),
                es == self.entries@,
                spec_cache_lookup(es, key@) == spec_cache_lookup(es.skip(i as int), key@),
            decreases n - i,
        {
            proof {
                assert(es.skip(i as int)[0] == es[i as int]);
                assert(es.skip(i as int).drop_first() =~= es.skip(i + 1));
            }
            if crate::mapbox_vector_tile::string_eq_str(&self.entries[i].0, key) {
                let stored = &self.entries[i].1;
                let mut out: Vec<u8> = Vec::new();
                let m = stored.len();
                let mut j: usize = 0;
                while j < m
                    invariant
                        0 <= j <= m == stored@.len(),
                        out@ == stored@.take(j as int),
                    decreases m - j,
                {
                    out.push(stored[j]);
                    proof {
                        assert(out@ =~= stored@.take(j + 1));
                    }
                    j = j + 1;
                }
                proof {
                    assert(out@ =~= stored@);
                }
                return Some(out);
            }
            i = i + 1;
        }
        proof {
            assert(es.skip(n as int) =~= Seq::<(String, Vec<u8>)>::empty());
        }
        None
    }

    /// Stores bytes under a fingerprint, replacing any earlier binding
    /// of the same key: afterwards that key looks up to exactly these
    /// bytes and every other key looks up as before.
    pub fn set(&mut self, key: &str, value: Vec<u8>)
        ensures
            forall|probe: Seq<char>|
                spec_cache_lookup(final(self).entries@, probe) == if probe == key@ {
                    Some(value@)
                } else {
                    spec_cache_lookup(old(self).entries@, probe)
                },
    {
        let ghost es = self.entries@;
        let ghost value_view = value@;
        let owned_key = crate::mapbox_vector_tile::key_to_string(key);
        let n = self.entries.len();
        let mut index = n;
        let mut i: usize = 0;
        while i < n && index == n
            invariant
                0 <= i <= n == es.len(),
                es == self.entries@,
                index == n || (index < n && es[index as int].0@ == key@ && forall|j: int|
                    0 <= j < index ==> es[j].0@ != key@),
                index == n ==> forall|j: int| 0 <= j < i ==> es[j].0@ != key@,
            decreases n - i,
        {
            if crate::mapbox_vector_tile::string_eq_str(&self.entries[i].0, key) {
                index = i;
            }
            i = i + 1;
        }
        let ghost pair_g = (owned_key, value);
        if index < n {
            let _replaced = self.entries.remove(index);
            self.entries.insert(index, (owned_key, value));
            proof {
                assert(self.entries@ =~= es.update(index as int, pair_g));
                assert forall|probe: Seq<char>|
                    spec_cache_lookup(self.entries@, probe) == (if probe == key@ {
                        Some(value_view)
                    } else {
                        spec_cache_lookup(es, probe)
                    }) by {
                    lemma_lookup_after_set(es, index as int, pair_g, probe);
                }
            }
        } else {
            self.entries.push((owned_key, value));
            proof {
                assert(self.entries@ =~= es.push(pair_g));
                assert forall|probe: Seq<char>|
                    spec_cache_lookup(self.entries@, probe) == (if probe == key@ {
                        Some(value_view)
                    } else {
                        spec_cache_lookup(es, probe)
                    }) by {
                    lemma_lookup_after_set(es, n as int, pair_g, probe);
                }
            }
        }
    }
}

/// The cache round-trip law: after `set(k, v)`, `get(k)` yields `v`,
/// and a key that was never stored still misses.  Stated over the
/// lookup function that `set` and `get_bytes` are specified with.
pub proof fn lemma_cache_roundtrip(
    before: Seq<(String, Vec<u8>)>,
    after: Seq<(String, Vec<u8>)>,
    key: Seq<char>,
    value: Seq<u8>,
    unseen: Seq<char>,
)
    requires
        forall|probe: Seq<char>|
            spec_cache_lookup(after, probe) == if probe == key {
                Some(value)
            } else {
                spec_cache_lookup(before, probe)
            },
    ensures
        spec_cache_lookup(after, key) == Some(value),
        unseen != key && spec_cache_lookup(before, unseen) is None ==> spec_cache_lookup(
            after,
            unseen,
        ) is None,
{
}

} // verus!
