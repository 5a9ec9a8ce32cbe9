//! The cursor store: a durable mapping from watched-file path to the byte
//! offset already consumed.
//!
//! `Cache` is the interface the ingestion pipeline depends on; its
//! contracts speak of the abstract map a cache holds.  `MemCache` is the
//! verified in-memory implementation used by tests; `SkyTableCache`
//! describes the connection to the external key-value store whose adapter
//! lives outside the library.

use vstd::prelude::*;

use crate::errors::RepositoryError;
use vstd::string::StringExecFns;

verus! {

/// A store of per-path cursors.  `get` on an unseen path fails with
/// `NotFound`; `set` establishes a cursor only when the path is unseen;
/// `update` overwrites an existing cursor and is a no-op when the same
/// value is reapplied; `del` removes a cursor and reports how many entries
/// went.  Any operation may fail with `StoreUnavailable` leaving the store
/// unchanged.
pub trait Cache: Sized {
    /// The cursors the cache holds.  An implementation outside the
    /// library leaves this at its default; nothing is proved about such
    /// an implementation.
    open spec fn cached(&self) -> Map<Seq<char>, u64> {
        Map::empty()
    }

    /// The cursor stored for `key`.
    fn get(&self, key: &str) -> (r: Result<u64, RepositoryError>)
        ensures
            match r {
                Ok(v) => self.cached().contains_key(key@) && self.cached()[key@] == v,
                Err(RepositoryError::NotFound) => !self.cached().contains_key(key@),
                Err(RepositoryError::StoreUnavailable) => true,
                Err(_) => false,
            },
    ;

    /// Establishes a cursor for an unseen `key`; returns `false`, changing
    /// nothing, when the key already has one.
    fn set(&mut self, key: &str, value: u64) -> (r: Result<bool, RepositoryError>)
        ensures
            match r {
                Ok(true) => !old(self).cached().contains_key(key@)
                    && final(self).cached() == old(self).cached().insert(key@, value),
                Ok(false) => old(self).cached().contains_key(key@)
                    && final(self).cached() == old(self).cached(),
                Err(RepositoryError::StoreUnavailable) =>
                    final(self).cached() == old(self).cached(),
                Err(_) => false,
            },
    ;

    /// Overwrites the cursor of a seen `key`; fails with `NotFound`,
    /// changing nothing, when the key has none.
    fn update(&mut self, key: &str, value: u64) -> (r: Result<(), RepositoryError>)
        ensures
            match r {
                Ok(()) => old(self).cached().contains_key(key@)
                    && final(self).cached() == old(self).cached().insert(key@, value),
                Err(RepositoryError::NotFound) => !old(self).cached().contains_key(key@)
                    && final(self).cached() == old(self).cached(),
                Err(RepositoryError::StoreUnavailable) =>
                    final(self).cached() == old(self).cached(),
                Err(_) => false,
            },
    ;

    /// Removes the cursor of `key`, reporting how many entries went; not
    /// an error when none existed.
    fn del(&mut self, key: &str) -> (r: Result<u64, RepositoryError>)
        ensures
            match r {
                Ok(n) => final(self).cached() == old(self).cached().remove(key@)
                    && n == (if old(self).cached().contains_key(key@) { 1u64 } else { 0u64 }),
                Err(RepositoryError::StoreUnavailable) =>
                    final(self).cached() == old(self).cached(),
                Err(_) => false,
            },
    ;
}

/// The map an association list holds, earlier pairs shadowing later ones.
pub open spec fn assoc_map(s: Seq<(String, u64)>) -> Map<Seq<char>, u64>
    decreases s.len(),
{
    if s.len() == 0 {
        Map::empty()
    } else {
        assoc_map(s.skip(1)).insert(s[0].0@, s[0].1)
    }
}

/// The list with every pair under `k` dropped.
pub open spec fn drop_key(s: Seq<(String, u64)>, k: Seq<char>) -> Seq<(String, u64)>
    decreases s.len(),
{
    if s.len() == 0 {
        s
    } else if s[0].0@ == k {
        drop_key(s.skip(1), k)
    } else {
        seq![s[0]] + drop_key(s.skip(1), k)
    }
}

proof fn lemma_assoc_contains(s: Seq<(String, u64)>, k: Seq<char>)
    ensures
        assoc_map(s).contains_key(k) <==> exists|i: int| 0 <= i < s.len() && s[i].0@ == k,
    decreases s.len(),
{
    if s.len() > 0 {
        lemma_assoc_contains(s.skip(1), k);
        if s[0].0@ == k {
        } else {
            if assoc_map(s).contains_key(k) {
                let i = choose|i: int| 0 <= i < s.skip(1).len() && s.skip(1)[i].0@ == k;
                assert(s[i + 1].0@ == k);
            }
            if exists|i: int| 0 <= i < s.len() && s[i].0@ == k {
                let i = choose|i: int| 0 <= i < s.len() && s[i].0@ == k;
                assert(s.skip(1)[i - 1].0@ == k);
            }
        }
    }
}

proof fn lemma_assoc_value(s: Seq<(String, u64)>, i: int)
    requires
        0 <= i < s.len(),
        forall|q: int| 0 <= q < i ==> s[q].0@ != s[i].0@,
    ensures
        assoc_map(s).contains_key(s[i].0@),
        assoc_map(s)[s[i].0@] == s[i].1,
    decreases s.len(),
{
    if i > 0 {
        assert(forall|q: int| 0 <= q < i - 1 ==> s.skip(1)[q].0@ == s[q + 1].0@);
        assert(s.skip(1)[i - 1] == s[i]);
        lemma_assoc_value(s.skip(1), i - 1);
    }
}

proof fn lemma_assoc_update(s: Seq<(String, u64)>, t: Seq<(String, u64)>, i: int)
    requires
        0 <= i < s.len(),
        t.len() == s.len(),
        forall|j: int| 0 <= j < s.len() && j != i ==> s[j] == t[j],
        t[i].0@ == s[i].0@,
        forall|q: int| 0 <= q < i ==> s[q].0@ != s[i].0@,
    ensures
        assoc_map(t) == assoc_map(s).insert(s[i].0@, t[i].1),
    decreases s.len(),
{
    if i == 0 {
        assert(t.skip(1) =~= s.skip(1));
        assert(assoc_map(t) == assoc_map(s.skip(1)).insert(t[0].0@, t[0].1));
        assert(assoc_map(s.skip(1)).insert(t[0].0@, t[0].1) =~= assoc_map(s).insert(
            s[0].0@,
            t[0].1,
        ));
    } else {
        assert(forall|j: int|
            0 <= j < s.skip(1).len() && j != i - 1 ==> s.skip(1)[j] == t.skip(1)[j]);
        assert(s.skip(1)[i - 1] == s[i]);
        assert(t.skip(1)[i - 1] == t[i]);
        assert(forall|q: int| 0 <= q < i - 1 ==> s.skip(1)[q].0@ == s[q + 1].0@);
        lemma_assoc_update(s.skip(1), t.skip(1), i - 1);
        assert(s[0] == t[0]);
        assert(s[0].0@ != s[i].0@);
        assert(assoc_map(t) == assoc_map(s.skip(1)).insert(s[i].0@, t[i].1).insert(
            s[0].0@,
            s[0].1,
        ));
        assert(assoc_map(s.skip(1)).insert(s[i].0@, t[i].1).insert(s[0].0@, s[0].1)
            =~= assoc_map(s.skip(1)).insert(s[0].0@, s[0].1).insert(s[i].0@, t[i].1));
    }
}

proof fn lemma_assoc_push(s: Seq<(String, u64)>, p: (String, u64))
    requires
        forall|i: int| 0 <= i < s.len() ==> s[i].0@ != p.0@,
    ensures
        assoc_map(s.push(p)) == assoc_map(s).insert(p.0@, p.1),
    decreases s.len(),
{
    if s.len() == 0 {
        assert(s.push(p).skip(1) =~= Seq::<(String, u64)>::empty());
        assert(s.push(p)[0] == p);
        assert(assoc_map(s.push(p)) == assoc_map(s.push(p).skip(1)).insert(p.0@, p.1));
        assert(assoc_map(s.push(p)) =~= assoc_map(s).insert(p.0@, p.1));
    } else {
        assert(s.push(p).skip(1) =~= s.skip(1).push(p));
        assert(forall|i: int| 0 <= i < s.skip(1).len() ==> s.skip(1)[i].0@ == s[i + 1].0@);
        lemma_assoc_push(s.skip(1), p);
        assert(s.push(p)[0] == s[0]);
        assert(assoc_map(s.push(p)) == assoc_map(s.skip(1)).insert(p.0@, p.1).insert(
            s[0].0@,
            s[0].1,
        ));
        assert(assoc_map(s.skip(1)).insert(p.0@, p.1).insert(s[0].0@, s[0].1) =~= assoc_map(
            s.skip(1),
        ).insert(s[0].0@, s[0].1).insert(p.0@, p.1));
    }
}

proof fn lemma_assoc_drop_key(s: Seq<(String, u64)>, k: Seq<char>)
    ensures
        assoc_map(drop_key(s, k)) == assoc_map(s).remove(k),
    decreases s.len(),
{
    if s.len() == 0 {
        assert(assoc_map(drop_key(s, k)) =~= assoc_map(s).remove(k));
    } else {
        lemma_assoc_drop_key(s.skip(1), k);
        if s[0].0@ == k {
            assert(assoc_map(s.skip(1)).remove(k) =~= assoc_map(s).remove(k));
        } else {
            let rest = drop_key(s.skip(1), k);
            assert(drop_key(s, k) == seq![s[0]] + rest);
            assert((seq![s[0]] + rest).skip(1) =~= rest);
            assert((seq![s[0]] + rest)[0] == s[0]);
            assert(assoc_map(drop_key(s, k)) == assoc_map(rest).insert(s[0].0@, s[0].1));
            assert(assoc_map(s.skip(1)).remove(k).insert(s[0].0@, s[0].1) =~= assoc_map(
                s.skip(1),
            ).insert(s[0].0@, s[0].1).remove(k));
        }
    }
}

/// The verified in-memory cursor store.
pub struct MemCache {
    entries: Vec<(String, u64)>,
}

impl MemCache {
    /// An empty cursor store.
    pub fn new() -> (r: MemCache)
        ensures
            r.cached() == Map::<Seq<char>, u64>::empty(),
    {
        MemCache { entries: Vec::new() }
    }

    /// The position of the first pair holding `key`, if any.
    fn position_of(&self, key: &str) -> (r: Option<usize>)
        ensures
            match r {
                Some(i) => i < self.entries@.len() && self.entries@[i as int].0@ == key@
                    && forall|j: int| 0 <= j < i ==> self.entries@[j].0@ != key@,
                None => forall|i: int| 0 <= i < self.entries@.len() ==> self.entries@[i].0@ != key@,
            },
    {
        let key_owned = String::from_str(key);
        let mut i: usize = 0;
        while i < self.entries.len()
            invariant
                0 <= i <= self.entries@.len(),
                key_owned@ == key@,
                forall|j: int| 0 <= j < i ==> self.entries@[j].0@ != key@,
            decreases self.entries@.len() - i,
        {
            if self.entries[i].0 == key_owned {
                return Some(i);
            }
            i = i + 1;
        }
        None
    }
}

impl Cache for MemCache {
    closed spec fn cached(&self) -> Map<Seq<char>, u64> {
        assoc_map(self.entries@)
    }

    fn get(&self, key: &str) -> (r: Result<u64, RepositoryError>)
        ensures
            r matches Err(e) ==> e == RepositoryError::NotFound,
    {
        proof {
            lemma_assoc_contains(self.entries@, key@);
        }
        match self.position_of(key) {
            Some(i) => {
                proof {
                    lemma_assoc_value(self.entries@, i as int);
                }
                Ok(self.entries[i].1)
            },
            None => Err(RepositoryError::NotFound),
        }
    }

    fn set(&mut self, key: &str, value: u64) -> (r: Result<bool, RepositoryError>)
        ensures
            r is Ok,
    {
        proof {
            lemma_assoc_contains(self.entries@, key@);
        }
        match self.position_of(key) {
            Some(i) => {
                proof {
                    lemma_assoc_value(self.entries@, i as int);
                }
                Ok(false)
            },
            None => {
                let ghost s0 = self.entries@;
                let pair = (String::from_str(key), value);
                self.entries.push(pair);
                proof {
                    lemma_assoc_push(s0, pair);
                }
                Ok(true)
            },
        }
    }

    fn update(&mut self, key: &str, value: u64) -> (r: Result<(), RepositoryError>)
        ensures
            r matches Err(e) ==> e == RepositoryError::NotFound,
    {
        proof {
            lemma_assoc_contains(self.entries@, key@);
        }
        match self.position_of(key) {
            Some(i) => {
                let ghost s0 = self.entries@;
                proof {
                    lemma_assoc_value(s0, i as int);
                }
                let pair = (String::from_str(key), value);
                self.entries.set(i, pair);
                proof {
                    lemma_assoc_update(s0, self.entries@, i as int);
                }
                Ok(())
            },
            None => Err(RepositoryError::NotFound),
        }
    }

    fn del(&mut self, key: &str) -> (r: Result<u64, RepositoryError>)
        ensures
            r is Ok,
    {
        proof {
            lemma_assoc_contains(self.entries@, key@);
        }
        let found = match self.position_of(key) {
            Some(i) => {
                proof {
                    lemma_assoc_value(self.entries@, i as int);
                }
                true
            },
            None => false,
        };
        let ghost s0 = self.entries@;
        let key_owned = String::from_str(key);
        let mut kept: Vec<(String, u64)> = Vec::new();
        assert(s0.skip(0) =~= s0);
        let mut i: usize = 0;
        while i < self.entries.len()
            invariant
                0 <= i <= self.entries@.len(),
                s0 == self.entries@,
                key_owned@ == key@,
                drop_key(s0, key@) == kept@ + drop_key(s0.skip(i as int), key@),
            decreases self.entries@.len() - i,
        {
            let p = &self.entries[i];
            proof {
                assert(s0.skip(i as int)[0] == s0[i as int]);
                assert(s0.skip(i as int).skip(1) =~= s0.skip(i as int + 1));
            }
            if !(p.0 == key_owned) {
                let kp = (p.0.clone(), p.1);
                proof {
                    assert(kp == s0[i as int]);
                    assert(kept@ + (seq![s0[i as int]] + drop_key(s0.skip(i as int + 1), key@))
                        =~= kept@.push(kp) + drop_key(s0.skip(i as int + 1), key@));
                }
                kept.push(kp);
            }
            i = i + 1;
        }
        proof {
            assert(s0.skip(s0.len() as int) =~= Seq::<(String, u64)>::empty());
            assert(kept@ + Seq::<(String, u64)>::empty() =~= kept@);
            lemma_assoc_drop_key(s0, key@);
        }
        self.entries = kept;
        if found {
            Ok(1)
        } else {
            proof {
                assert(assoc_map(s0).remove(key@) =~= assoc_map(s0));
            }
            Ok(0)
        }
    }
}

/// The address of the external key-value store that backs the cursor
/// store in production; the connection itself is made outside the
/// library.
#[derive(Debug, Clone)]
pub struct SkyTableCache {
    host: String,
    port: u16,
}

impl SkyTableCache {
    /// The host the descriptor names.
    pub closed spec fn spec_host(&self) -> Seq<char> {
        self.host@
    }

    /// The port the descriptor names.
    pub closed spec fn spec_port(&self) -> u16 {
        self.port
    }

    /// Describes the store listening at `host:port`.
    pub fn new(host: &str, port: u16) -> (r: SkyTableCache)
        ensures
            r.spec_host() == host@,
            r.spec_port() == port,
    {
        SkyTableCache { host: String::from_str(host), port }
    }

    /// The host the store listens on.
    pub fn host(&self) -> (r: &String)
        ensures
            r@ == self.spec_host(),
    {
        &self.host
    }

    /// The port the store listens on.
    pub fn port(&self) -> (r: u16)
        ensures
            r == self.spec_port(),
    {
        self.port
    }
}

} // verus!
