//! Local shard storage: shards kept by identifier, with a size quota,
//! access counts and removal of old, never-read shards.

use vstd::prelude::*;
use crate::table::{entry_keys, string_views, Table};

verus! {

/// A stored shard with its bookkeeping.
#[derive(Debug)]
pub struct StoredChunk {
    pub chunk_id: String,
    pub data: Vec<u8>,
    pub node_id: String,
    pub size_bytes: u64,
    pub created_at: u64,
    pub access_count: u64,
}

fn copy_bytes(src: &Vec<u8>) -> (r: Vec<u8>)
    ensures
        r@ == src@,
{
    let mut r: Vec<u8> = Vec::new();
    let mut i: usize = 0;
    while i < src.len()
        invariant
            i <= src@.len(),
            r@ == src@.take(i as int),
        decreases src.len() - i,
    {
        r.push(src[i]);
        i = i + 1;
        assert(r@ =~= src@.take(i as int));
    }
    assert(src@.take(src@.len() as int) =~= src@);
    r
}

impl Clone for StoredChunk {
    fn clone(&self) -> (r: Self)
        ensures
            r.chunk_id@ == self.chunk_id@,
            r.data@ == self.data@,
            r.node_id@ == self.node_id@,
            r.size_bytes == self.size_bytes,
            r.created_at == self.created_at,
            r.access_count == self.access_count,
    {
        StoredChunk {
            chunk_id: self.chunk_id.clone(),
            data: copy_bytes(&self.data),
            node_id: self.node_id.clone(),
            size_bytes: self.size_bytes,
            created_at: self.created_at,
            access_count: self.access_count,
        }
    }
}

/// Sum of the recorded sizes of the stored shards.
pub open spec fn total_size(entries: Seq<(String, StoredChunk)>) -> nat
    decreases entries.len(),
{
    if entries.len() == 0 { 0 } else { total_size(entries.drop_last()) + entries.last().1.size_bytes as nat }
}

/// Whether garbage collection at time `now` removes the shard: older than
/// `max_age_secs` and never read.
pub open spec fn is_expired(c: StoredChunk, now: u64, max_age_secs: u64) -> bool {
    now - c.created_at > max_age_secs && c.access_count == 0
}

/// The identifiers of the shards that garbage collection removes, in
/// storage order.
pub open spec fn expired_keys(entries: Seq<(String, StoredChunk)>, now: u64, max_age_secs: u64) -> Seq<Seq<char>>
    decreases entries.len(),
{
    if entries.len() == 0 {
        Seq::empty()
    } else {
        let rest = expired_keys(entries.drop_last(), now, max_age_secs);
        if is_expired(entries.last().1, now, max_age_secs) { rest.push(entries.last().0@) } else { rest }
    }
}

/// The bytes kept under `id`, if any.
pub open spec fn chunk_bytes(m: Map<Seq<char>, StoredChunk>, id: Seq<char>) -> Option<Seq<u8>> {
    if m.contains_key(id) { Some(m[id].data@) } else { None }
}

/// The recorded size of the shard kept under `id`, or zero.
pub open spec fn stored_size(m: Map<Seq<char>, StoredChunk>, id: Seq<char>) -> nat {
    if m.contains_key(id) { m[id].size_bytes as nat } else { 0 }
}

/// The identifiers after keeping a shard under `id`: unchanged when `id`
/// was there, else `id` appended.
pub open spec fn keys_after_store(keys: Seq<Seq<char>>, id: Seq<char>) -> Seq<Seq<char>> {
    if keys.contains(id) { keys } else { keys.push(id) }
}

/// The bytes of an optional shard.
pub open spec fn opt_bytes(v: Option<Vec<u8>>) -> Option<Seq<u8>> {
    match v {
        Some(d) => Some(d@),
        None => None,
    }
}

/// Shards kept locally, within a quota of `max_size_mb` megabytes.
pub struct LocalStorage {
    chunks: Table<StoredChunk>,
    max_size_mb: u64,
}

impl LocalStorage {
    /// The stored shards, by identifier.
    pub closed spec fn chunk_map(&self) -> Map<Seq<char>, StoredChunk> {
        self.chunks.map()
    }

    /// The stored shards, in storage order.
    pub closed spec fn entries(&self) -> Seq<(String, StoredChunk)> {
        self.chunks.entries()
    }

    /// The quota in megabytes.
    pub closed spec fn quota_mb(&self) -> u64 {
        self.max_size_mb
    }

    /// The identifiers are distinct.
    pub closed spec fn wf(&self) -> bool {
        self.chunks.wf()
    }

    /// Empty storage with a quota of `max_size_mb` megabytes.
    pub fn new(max_size_mb: u64) -> (r: Self)
        ensures
            r.wf(),
            r.quota_mb() == max_size_mb,
            r.entries().len() == 0,
            r.chunk_map() == Map::<Seq<char>, StoredChunk>::empty(),
    {
        LocalStorage { chunks: Table::new(), max_size_mb }
    }

    /// Store a shard created at time `now`: refused ("Storage quota
    /// exceeded") when the stored total plus its size would pass the quota;
    /// otherwise kept under `chunk_id` with no reads, replacing any shard
    /// there.
    pub fn store_at(&mut self, chunk_id: &str, data: Vec<u8>, node_id: &str, now: u64)
        -> (r: core::result::Result<(), String>)
        requires
            old(self).wf(),
            old(self).quota_mb() * 1048576 <= u64::MAX,
            total_size(old(self).entries()) + data@.len() <= u64::MAX,
        ensures
            final(self).wf(),
            final(self).quota_mb() == old(self).quota_mb(),
            r is Err <==> total_size(old(self).entries()) + data@.len() > old(self).quota_mb() * 1048576,
            r matches Err(e) ==> e@ == "Storage quota exceeded"@ && final(self).chunk_map() == old(self).chunk_map(),
            r is Err ==> final(self).entries() == old(self).entries(),
            r is Ok ==> total_size(final(self).entries()) + stored_size(old(self).chunk_map(), chunk_id@)
                == total_size(old(self).entries()) + data@.len(),
            r is Ok ==> entry_keys(final(self).entries()) == keys_after_store(entry_keys(old(self).entries()), chunk_id@),
            r is Ok ==> chunk_bytes(final(self).chunk_map(), chunk_id@) == Some(data@),
            r is Ok ==> final(self).chunk_map().dom() == old(self).chunk_map().dom().insert(chunk_id@),
            r is Ok ==> forall|k: Seq<char>| k != chunk_id@ && #[trigger] old(self).chunk_map().contains_key(k) ==>
                final(self).chunk_map()[k] == old(self).chunk_map()[k],
            r is Ok ==> ({
                let c = final(self).chunk_map()[chunk_id@];
                &&& c.chunk_id@ == chunk_id@
                &&& c.data@ == data@
                &&& c.node_id@ == node_id@
                &&& c.size_bytes == data@.len()
                &&& c.created_at == now
                &&& c.access_count == 0
            }),
    {
        let size = data.len() as u64;
        let max_bytes = self.max_size_mb * 1024 * 1024;
        let current_size = self.get_total_size();
        if current_size + size > max_bytes {
            proof { reveal_strlit("Storage quota exceeded"); }
            return Err("Storage quota exceeded".to_string());
        }
        let chunk = StoredChunk {
            chunk_id: chunk_id.to_string(),
            data,
            node_id: node_id.to_string(),
            size_bytes: size,
            created_at: now,
            access_count: 0,
        };
        let key = chunk_id.to_string();
        let ghost pair = (key, chunk);
        let ghost before = self.chunks.entries();
        let ghost pos = self.chunks.keys().index_of(key@);
        self.chunks.insert(key, chunk);
        proof {
            if entry_keys(before).contains(chunk_id@) {
                lemma_total_size_replace(before, pos, pair);
            } else {
                assert(before.push(pair).drop_last() =~= before);
            }
        }
        Ok(())
    }

    /// Store a shard stamped with the current time, as `store_at` does; a
    /// clock before 1970 is reported with its message and nothing is
    /// stored.
    pub fn store(&mut self, chunk_id: &str, data: Vec<u8>, node_id: &str) -> (r: core::result::Result<(), String>)
        requires
            old(self).wf(),
            old(self).quota_mb() * 1048576 <= u64::MAX,
            total_size(old(self).entries()) + data@.len() <= u64::MAX,
        ensures
            final(self).wf(),
            final(self).quota_mb() == old(self).quota_mb(),
            total_size(old(self).entries()) + data@.len() > old(self).quota_mb() * 1048576 ==> r is Err,
            r is Err ==> final(self).chunk_map() == old(self).chunk_map(),
            r is Err ==> final(self).entries() == old(self).entries(),
            r is Ok ==> total_size(final(self).entries()) + stored_size(old(self).chunk_map(), chunk_id@)
                == total_size(old(self).entries()) + data@.len(),
            r is Ok ==> entry_keys(final(self).entries()) == keys_after_store(entry_keys(old(self).entries()), chunk_id@),
            r is Ok ==> final(self).chunk_map().dom() == old(self).chunk_map().dom().insert(chunk_id@),
            r is Ok ==> forall|k: Seq<char>| k != chunk_id@ && #[trigger] old(self).chunk_map().contains_key(k) ==>
                final(self).chunk_map()[k] == old(self).chunk_map()[k],
            r is Ok ==> ({
                let c = final(self).chunk_map()[chunk_id@];
                &&& c.chunk_id@ == chunk_id@
                &&& c.data@ == data@
                &&& c.node_id@ == node_id@
                &&& c.size_bytes == data@.len()
                &&& c.access_count == 0
            }),
    {
        let now = match crate::time::unix_now_secs() {
            Ok(t) => t,
            Err(e) => return Err(e),
        };
        self.store_at(chunk_id, data, node_id, now)
    }

    /// The bytes of a shard, counting the read.
    pub fn retrieve(&mut self, chunk_id: &str) -> (r: Option<Vec<u8>>)
        requires
            old(self).wf(),
            old(self).chunk_map().contains_key(chunk_id@) ==> old(self).chunk_map()[chunk_id@].access_count < u64::MAX,
        ensures
            final(self).wf(),
            final(self).quota_mb() == old(self).quota_mb(),
            final(self).chunk_map().dom() == old(self).chunk_map().dom(),
            final(self).entries().len() == old(self).entries().len(),
            total_size(final(self).entries()) == total_size(old(self).entries()),
            entry_keys(final(self).entries()) == entry_keys(old(self).entries()),
            opt_bytes(r) == chunk_bytes(old(self).chunk_map(), chunk_id@),
            chunk_bytes(final(self).chunk_map(), chunk_id@) == chunk_bytes(old(self).chunk_map(), chunk_id@),
            r is Some <==> old(self).chunk_map().contains_key(chunk_id@),
            r is None ==> final(self).chunk_map() == old(self).chunk_map(),
            r matches Some(d) ==> ({
                let before = old(self).chunk_map()[chunk_id@];
                let after = final(self).chunk_map()[chunk_id@];
                &&& d@ == before.data@
                &&& after.chunk_id@ == before.chunk_id@
                &&& after.data@ == before.data@
                &&& after.node_id@ == before.node_id@
                &&& after.size_bytes == before.size_bytes
                &&& after.created_at == before.created_at
                &&& after.access_count == before.access_count + 1
            }),
            forall|k: Seq<char>| k != chunk_id@ && #[trigger] old(self).chunk_map().contains_key(k) ==>
                final(self).chunk_map()[k] == old(self).chunk_map()[k],
    {
        let key = chunk_id.to_string();
        let found = match self.chunks.get(&key) {
            Some(c) => c.clone(),
            None => return None,
        };
        let out = copy_bytes(&found.data);
        let mut updated = found;
        updated.access_count = updated.access_count + 1;
        let ghost before = self.chunks.entries();
        let ghost pos = self.chunks.keys().index_of(key@);
        proof {
            assert(self.chunks.keys().contains(key@));
        }
        self.chunks.insert(key, updated);
        proof {
            lemma_total_size_update(before, pos, self.chunks.entries()[pos]);
        }
        Some(out)
    }

    /// Take out a shard, handing back its bytes.
    pub fn delete(&mut self, chunk_id: &str) -> (r: Option<Vec<u8>>)
        requires
            old(self).wf(),
        ensures
            final(self).wf(),
            final(self).quota_mb() == old(self).quota_mb(),
            final(self).chunk_map() == old(self).chunk_map().remove(chunk_id@),
            opt_bytes(r) == chunk_bytes(old(self).chunk_map(), chunk_id@),
            r is Some <==> old(self).chunk_map().contains_key(chunk_id@),
            r matches Some(d) ==> d@ == old(self).chunk_map()[chunk_id@].data@,
            r is None ==> final(self).entries() == old(self).entries(),
            r is Some ==> final(self).entries()
                == old(self).entries().remove(entry_keys(old(self).entries()).index_of(chunk_id@)),
            total_size(final(self).entries()) + stored_size(old(self).chunk_map(), chunk_id@)
                == total_size(old(self).entries()),
    {
        let key = chunk_id.to_string();
        let ghost before = self.chunks.entries();
        let ghost pos = self.chunks.keys().index_of(key@);
        match self.chunks.remove(&key) {
            Some(c) => {
                proof { lemma_total_size_remove(before, pos); }
                Some(c.data)
            },
            None => None,
        }
    }

    /// The sum of the recorded sizes of the stored shards.
    pub fn get_total_size(&self) -> (r: u64)
        requires
            total_size(self.entries()) <= u64::MAX,
        ensures
            r == total_size(self.entries()),
    {
        let mut total: u64 = 0;
        let mut i: usize = 0;
        while i < self.chunks.len()
            invariant
                i <= self.entries().len(),
                total_size(self.entries()) <= u64::MAX,
                total == total_size(self.entries().take(i as int)),
            decreases self.entries().len() - i,
        {
            let e = self.chunks.entry(i);
            proof {
                assert(self.entries().take(i + 1).drop_last() =~= self.entries().take(i as int));
                lemma_total_size_prefix(self.entries(), i + 1);
            }
            total = total + e.1.size_bytes;
            i = i + 1;
        }
        assert(self.entries().take(self.entries().len() as int) =~= self.entries());
        total
    }

    /// The identifiers of the stored shards, in storage order.
    pub fn list_chunks(&self) -> (r: Vec<String>)
        ensures
            string_views(r@) == entry_keys(self.entries()),
    {
        let mut r: Vec<String> = Vec::new();
        let mut i: usize = 0;
        while i < self.chunks.len()
            invariant
                i <= self.entries().len(),
                string_views(r@) == entry_keys(self.entries()).take(i as int),
            decreases self.entries().len() - i,
        {
            let e = self.chunks.entry(i);
            let k = e.0.clone();
            let ghost prev = r@;
            r.push(k);
            proof {
                assert(string_views(r@) =~= string_views(prev).push(e.0@));
                assert(entry_keys(self.entries())[i as int] == e.0@);
                assert(entry_keys(self.entries()).take(i + 1) =~= entry_keys(self.entries()).take(i as int).push(e.0@));
            }
            i = i + 1;
        }
        assert(entry_keys(self.entries()).take(self.entries().len() as int) =~= entry_keys(self.entries()));
        r
    }

    /// Remove, at time `now`, the shards older than `max_age_secs` that
    /// were never read; the number removed.
    pub fn gc_at(&mut self, now: u64, max_age_secs: u64) -> (r: usize)
        requires
            old(self).wf(),
            forall|i: int| 0 <= i < old(self).entries().len() ==> (#[trigger] old(self).entries()[i]).1.created_at <= now,
        ensures
            final(self).wf(),
            final(self).quota_mb() == old(self).quota_mb(),
            r == expired_keys(old(self).entries(), now, max_age_secs).len(),
            final(self).chunk_map() == old(self).chunk_map().remove_keys(
                Set::new(|k: Seq<char>| expired_keys(old(self).entries(), now, max_age_secs).contains(k))),
    {
        let ghost entries = self.entries();
        let mut victims: Vec<String> = Vec::new();
        let mut i: usize = 0;
        while i < self.chunks.len()
            invariant
                entries == self.entries(),
                i <= entries.len(),
                forall|j: int| 0 <= j < entries.len() ==> (#[trigger] entries[j]).1.created_at <= now,
                string_views(victims@) == expired_keys(entries.take(i as int), now, max_age_secs),
            decreases entries.len() - i,
        {
            let e = self.chunks.entry(i);
            proof {
                assert(entries.take(i + 1).drop_last() =~= entries.take(i as int));
                assert(entries[i as int] == *e);
            }
            let age = now - e.1.created_at;
            if age > max_age_secs && e.1.access_count == 0 {
                let k = e.0.clone();
                let ghost prev = victims@;
                victims.push(k);
                assert(string_views(victims@) =~= string_views(prev).push(e.0@));
            }
            i = i + 1;
        }
        assert(entries.take(entries.len() as int) =~= entries);
        let ghost gone = string_views(victims@);
        let ghost start = self.chunk_map();
        let mut j: usize = 0;
        while j < victims.len()
            invariant
                self.wf(),
                self.max_size_mb == old(self).max_size_mb,
                j <= victims@.len(),
                gone == string_views(victims@),
                self.chunk_map() == start.remove_keys(Set::new(|k: Seq<char>| gone.take(j as int).contains(k))),
            decreases victims.len() - j,
        {
            let _ = self.chunks.remove(&victims[j]);
            proof {
                assert forall|k: Seq<char>| gone.take(j + 1).contains(k) <==> (gone.take(j as int).contains(k) || k == gone[j as int]) by {
                    if gone.take(j + 1).contains(k) {
                        let t = choose|t: int| 0 <= t < j + 1 && #[trigger] gone.take(j + 1)[t] == k;
                        if t < j { assert(gone.take(j as int)[t] == k); }
                    }
                    if gone.take(j as int).contains(k) {
                        let t = choose|t: int| 0 <= t < j && #[trigger] gone.take(j as int)[t] == k;
                        assert(gone.take(j + 1)[t] == k);
                    }
                    if k == gone[j as int] {
                        assert(gone.take(j + 1)[j as int] == k);
                    }
                }
                assert(self.chunk_map() =~= start.remove_keys(Set::new(|k: Seq<char>| gone.take(j + 1).contains(k))));
            }
            j = j + 1;
        }
        assert(gone.take(gone.len() as int) =~= gone);
        victims.len()
    }

    /// Whether no shard is stamped later than `now`.
    fn none_later_than(&self, now: u64) -> (r: bool)
        ensures
            r <==> forall|i: int| 0 <= i < self.entries().len() ==> (#[trigger] self.entries()[i]).1.created_at <= now,
    {
        let mut i: usize = 0;
        while i < self.chunks.len()
            invariant
                i <= self.entries().len(),
                forall|j: int| 0 <= j < i ==> (#[trigger] self.entries()[j]).1.created_at <= now,
            decreases self.entries().len() - i,
        {
            if self.chunks.entry(i).1.created_at > now {
                return false;
            }
            i = i + 1;
        }
        true
    }

    /// Garbage collection at the current time, as `gc_at` does. When the
    /// clock cannot be read, or a shard is stamped later than the clock
    /// reads, nothing is removed and 0 is returned.
    pub fn gc(&mut self, max_age_secs: u64) -> (r: usize)
        requires
            old(self).wf(),
        ensures
            final(self).wf(),
            final(self).quota_mb() == old(self).quota_mb(),
            (exists|now: u64| {
                &&& r == expired_keys(old(self).entries(), now, max_age_secs).len()
                &&& final(self).chunk_map() == old(self).chunk_map().remove_keys(
                        Set::new(|k: Seq<char>| expired_keys(old(self).entries(), now, max_age_secs).contains(k)))
            }) || (r == 0 && final(self).chunk_map() == old(self).chunk_map()),
    {
        let now = match crate::time::unix_now_secs() {
            Ok(t) => t,
            Err(_) => return 0,
        };
        if !self.none_later_than(now) {
            return 0;
        }
        self.gc_at(now, max_age_secs)
    }
}

/// What a read gives back of a write: after a shard is kept under `id`,
/// reading `id` gives its bytes; after it is deleted, nothing; other
/// identifiers read as before.
pub proof fn law_read_after_write(m: Map<Seq<char>, StoredChunk>, id: Seq<char>, c: StoredChunk, other: Seq<char>)
    requires
        other != id,
    ensures
        chunk_bytes(m.insert(id, c), id) == Some(c.data@),
        chunk_bytes(m.remove(id), id) is None,
        chunk_bytes(m.insert(id, c), other) == chunk_bytes(m, other),
        chunk_bytes(m.remove(id), other) == chunk_bytes(m, other),
{
}

proof fn lemma_total_size_prefix(e: Seq<(String, StoredChunk)>, n: int)
    requires
        0 <= n <= e.len(),
    ensures
        total_size(e.take(n)) <= total_size(e),
    decreases e.len(),
{
    if n < e.len() {
        assert(e.drop_last().take(n) =~= e.take(n));
        lemma_total_size_prefix(e.drop_last(), n);
    } else {
        assert(e.take(n) =~= e);
    }
}

proof fn lemma_total_size_replace(e: Seq<(String, StoredChunk)>, i: int, x: (String, StoredChunk))
    requires
        0 <= i < e.len(),
    ensures
        total_size(e.update(i, x)) + e[i].1.size_bytes == total_size(e) + x.1.size_bytes,
    decreases e.len(),
{
    if i < e.len() - 1 {
        assert(e.update(i, x).drop_last() =~= e.drop_last().update(i, x));
        lemma_total_size_replace(e.drop_last(), i, x);
    } else {
        assert(e.update(i, x).drop_last() =~= e.drop_last());
    }
}

proof fn lemma_total_size_remove(e: Seq<(String, StoredChunk)>, i: int)
    requires
        0 <= i < e.len(),
    ensures
        total_size(e.remove(i)) + e[i].1.size_bytes == total_size(e),
    decreases e.len(),
{
    if i == e.len() - 1 {
        assert(e.remove(i) =~= e.drop_last());
    } else {
        assert(e.remove(i).drop_last() =~= e.drop_last().remove(i));
        lemma_total_size_remove(e.drop_last(), i);
    }
}

proof fn lemma_total_size_update(e: Seq<(String, StoredChunk)>, i: int, x: (String, StoredChunk))
    requires
        0 <= i < e.len(),
        x.1.size_bytes == e[i].1.size_bytes,
    ensures
        total_size(e.update(i, x)) == total_size(e),
    decreases e.len(),
{
    if i < e.len() - 1 {
        assert(e.update(i, x).drop_last() =~= e.drop_last().update(i, x));
        lemma_total_size_update(e.drop_last(), i, x);
    } else {
        assert(e.update(i, x).drop_last() =~= e.drop_last());
    }
}

} // verus!
