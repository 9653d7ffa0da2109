//! Polygone-Drive: erasure-coded storage of files.
//!
//! A file's bytes are cut into chunks, erasure-coded into shards, and each
//! shard is kept under an identifier derived from the file's; the file's
//! metadata and key are kept under the file's identifier.

pub mod erasure;
pub mod index;
pub mod storage;

use vstd::prelude::*;
use crate::fmt::{decimal, format_number, hex16, lower_hex, lower_hex_fixed};
use crate::table::{entry_keys, Table};
use self::erasure::{encoded_shards, shard_views};
use vstd::seq_lib::lemma_flatten_concat;
use std::hash::{Hash as _, Hasher as _};

verus! {

/// What `DefaultHasher::new()` yields for a byte slice hashed with
/// `Hash::hash`. std documents that this value may differ between
/// platforms and compiler releases; within one build it depends on the
/// bytes alone, and nothing here compares hashes across builds.
pub uninterp spec fn std_default_hash(data: Seq<u8>) -> u64;

/// Calls `Hash::hash` on the bytes with a fresh `DefaultHasher` and
/// returns `finish()`. Claimed: the value `std_default_hash` names; that
/// hasher is built with fixed keys, so equal bytes hash equally.
#[verifier::external_body]
fn default_hash(data: &[u8]) -> (r: u64)
    ensures
        r == std_default_hash(data@),
{
    let mut hasher = std::collections::hash_map::DefaultHasher::new();
    data.hash(&mut hasher);
    hasher.finish()
}

/// Calls `SystemTime::now().duration_since(UNIX_EPOCH)` and returns the
/// nanoseconds, or the clock's error message. Nothing is claimed of it.
#[verifier::external_body]
fn unix_now_nanos() -> (r: core::result::Result<u128, String>)
{
    match std::time::SystemTime::now().duration_since(std::time::UNIX_EPOCH) {
        Ok(d) => Ok(d.as_nanos()),
        Err(e) => Err(e.to_string()),
    }
}

/// Erasure coding configuration.
#[derive(Debug, Clone, Copy)]
pub struct ErasureConfig {
    pub data_shards: u8,
    pub parity_shards: u8,
    pub min_shards: u8,
}

impl ErasureConfig {
    /// 4 data shards, 2 parity shards, at least 4 shards to rebuild.
    pub fn default() -> (r: Self)
        ensures
            r.data_shards == 4,
            r.parity_shards == 2,
            r.min_shards == 4,
    {
        ErasureConfig { data_shards: 4, parity_shards: 2, min_shards: 4 }
    }
}

/// Information about one stored shard.
#[derive(Debug)]
pub struct ChunkInfo {
    pub chunk_id: String,
    pub node_id: String,
    pub size_bytes: u64,
    pub hash: String,
}

impl Clone for ChunkInfo {
    fn clone(&self) -> (r: Self)
        ensures
            r == *self,
    {
        ChunkInfo {
            chunk_id: self.chunk_id.clone(),
            node_id: self.node_id.clone(),
            size_bytes: self.size_bytes,
            hash: self.hash.clone(),
        }
    }
}

/// File metadata.
#[derive(Debug)]
pub struct FileMetadata {
    pub id: String,
    pub name: String,
    pub size_bytes: u64,
    pub created_at: u64,
    pub modified_at: u64,
    pub owner: String,
    pub chunks: Vec<ChunkInfo>,
    pub encryption_key_id: String,
    pub erasure_config: ErasureConfig,
}

/// The contents of file metadata.
pub struct MetadataView {
    pub id: Seq<char>,
    pub name: Seq<char>,
    pub size_bytes: u64,
    pub created_at: u64,
    pub modified_at: u64,
    pub owner: Seq<char>,
    pub chunks: Seq<ChunkInfo>,
    pub encryption_key_id: Seq<char>,
    pub erasure_config: ErasureConfig,
}

impl View for FileMetadata {
    type V = MetadataView;

    open spec fn view(&self) -> MetadataView {
        MetadataView {
            id: self.id@,
            name: self.name@,
            size_bytes: self.size_bytes,
            created_at: self.created_at,
            modified_at: self.modified_at,
            owner: self.owner@,
            chunks: self.chunks@,
            encryption_key_id: self.encryption_key_id@,
            erasure_config: self.erasure_config,
        }
    }
}

fn clone_chunk_infos(v: &Vec<ChunkInfo>) -> (r: Vec<ChunkInfo>)
    ensures
        r@ == v@,
{
    let mut r: Vec<ChunkInfo> = Vec::new();
    let mut i: usize = 0;
    while i < v.len()
        invariant
            i <= v@.len(),
            r@ == v@.take(i as int),
        decreases v.len() - i,
    {
        r.push(v[i].clone());
        i = i + 1;
        assert(r@ =~= v@.take(i as int));
    }
    assert(v@.take(v@.len() as int) =~= v@);
    r
}

impl Clone for FileMetadata {
    fn clone(&self) -> (r: Self)
        ensures
            r@ == self@,
    {
        FileMetadata {
            id: self.id.clone(),
            name: self.name.clone(),
            size_bytes: self.size_bytes,
            created_at: self.created_at,
            modified_at: self.modified_at,
            owner: self.owner.clone(),
            chunks: clone_chunk_infos(&self.chunks),
            encryption_key_id: self.encryption_key_id.clone(),
            erasure_config: self.erasure_config,
        }
    }
}

/// A stored file: its metadata and its key.
#[derive(Debug)]
pub struct FileHandle {
    pub metadata: FileMetadata,
    pub encryption_key: Vec<u8>,
}

/// Directory entry.
#[derive(Debug, Clone)]
pub struct DirectoryEntry {
    pub name: String,
    pub is_directory: bool,
    pub size_bytes: u64,
    pub modified_at: u64,
}

/// Drive configuration.
#[derive(Debug, Clone, Copy)]
pub struct DriveConfig {
    pub default_erasure: ErasureConfig,
    pub max_file_size_mb: u64,
    pub chunk_size_kb: u64,
    pub enable_compression: bool,
    pub enable_deduplication: bool,
}

impl DriveConfig {
    /// Default erasure coding, 100 MB files, 256 KB chunks, compression and
    /// deduplication on.
    pub fn default() -> (r: Self)
        ensures
            r.default_erasure.data_shards == 4,
            r.default_erasure.parity_shards == 2,
            r.default_erasure.min_shards == 4,
            r.max_file_size_mb == 100,
            r.chunk_size_kb == 256,
            r.enable_compression,
            r.enable_deduplication,
    {
        DriveConfig {
            default_erasure: ErasureConfig::default(),
            max_file_size_mb: 100,
            chunk_size_kb: 256,
            enable_compression: true,
            enable_deduplication: true,
        }
    }
}

/// The data cut into consecutive chunks of `size` bytes (the last one
/// possibly shorter).
pub open spec fn chunks_of(data: Seq<u8>, size: nat) -> Seq<Seq<u8>>
    decreases data.len(),
{
    if data.len() == 0 || size == 0 {
        Seq::empty()
    } else if data.len() <= size {
        seq![data]
    } else {
        seq![data.take(size as int)] + chunks_of(data.skip(size as int), size)
    }
}

/// The identifier of shard `i` of file `file_id`.
pub open spec fn chunk_id_of(file_id: Seq<char>, i: nat) -> Seq<char> {
    file_id + "-chunk-"@ + decimal(i)
}

/// Distinct shard indices give distinct shard identifiers.
pub proof fn lemma_chunk_id_injective(file_id: Seq<char>, a: nat, b: nat)
    ensures
        chunk_id_of(file_id, a) == chunk_id_of(file_id, b) ==> a == b,
{
    reveal_strlit("-chunk-");
    if chunk_id_of(file_id, a) == chunk_id_of(file_id, b) {
        let n = file_id.len() + 7;
        assert(decimal(a) =~= chunk_id_of(file_id, a).skip(n as int));
        assert(decimal(b) =~= chunk_id_of(file_id, b).skip(n as int));
        crate::fmt::lemma_decimal_injective(a, b);
    }
}

/// Whether `key` is the identifier of one of the first `n` shards of file
/// `file_id`.
pub open spec fn is_chunk_key(file_id: Seq<char>, key: Seq<char>, n: nat) -> bool {
    exists|i: nat| i < n && #[trigger] chunk_id_of(file_id, i) == key
}

proof fn lemma_not_chunk_key_step(file_id: Seq<char>, key: Seq<char>, n: nat)
    requires
        n > 0,
        !is_chunk_key(file_id, key, n),
    ensures
        !is_chunk_key(file_id, key, (n - 1) as nat),
        chunk_id_of(file_id, (n - 1) as nat) != key,
{
    if chunk_id_of(file_id, (n - 1) as nat) == key {
        assert(is_chunk_key(file_id, key, n));
    }
    if is_chunk_key(file_id, key, (n - 1) as nat) {
        let j = choose|j: nat| j < n - 1 && chunk_id_of(file_id, j) == key;
        assert(is_chunk_key(file_id, key, n));
    }
}

/// Whether `stored` holds shard `i` of file `file_id` as `shards[i]`, for
/// each index.
pub open spec fn holds_shards(stored: Map<Seq<char>, Vec<u8>>, file_id: Seq<char>, shards: Seq<Seq<u8>>) -> bool {
    forall|i: int| 0 <= i < shards.len() ==>
        #[trigger] stored.contains_key(chunk_id_of(file_id, i as nat))
        && stored[chunk_id_of(file_id, i as nat)]@ == shards[i]
}

/// The text of a hash: 16 lowercase hexadecimal digits.
pub open spec fn hash_text(data: Seq<u8>) -> Seq<char> {
    lower_hex_fixed(std_default_hash(data) as nat, 16)
}

/// The shards that storing `data` produces under `config`.
pub open spec fn file_shards(data: Seq<u8>, config: DriveConfig) -> Seq<Seq<u8>> {
    encoded_shards(chunks_of(data, (config.chunk_size_kb * 1024) as nat),
        config.default_erasure.data_shards as int, config.default_erasure.parity_shards as int)
}

/// The shards that retrieval finds for a file: those of its chunk records
/// whose identifiers are stored, in record order.
pub open spec fn found_shards(infos: Seq<ChunkInfo>, stored: Map<Seq<char>, Vec<u8>>) -> Seq<Seq<u8>>
    decreases infos.len(),
{
    if infos.len() == 0 {
        Seq::empty()
    } else {
        let rest = found_shards(infos.drop_last(), stored);
        let id = infos.last().chunk_id@;
        if stored.contains_key(id) { rest.push(stored[id]@) } else { rest }
    }
}

/// What retrieval yields for a file's metadata.
pub open spec fn retrieved(md: MetadataView, stored: Map<Seq<char>, Vec<u8>>) -> core::result::Result<Seq<u8>, Seq<char>> {
    let shards = found_shards(md.chunks, stored);
    if shards.len() < md.erasure_config.data_shards {
        Err("Not enough shards to recover data"@)
    } else {
        Ok(shards.take(md.erasure_config.data_shards as int).flatten())
    }
}

/// The metadata and shards of a file just stored from `data`.
pub open spec fn stored_as(md: MetadataView, name: Seq<char>, owner: Seq<char>, data: Seq<u8>, key: Seq<u8>,
    config: DriveConfig) -> bool
{
    let shards = file_shards(data, config);
    &&& md.name == name
    &&& md.owner == owner
    &&& md.size_bytes == data.len()
    &&& md.modified_at == md.created_at
    &&& md.encryption_key_id == "key-"@ + hash_text(key)
    &&& md.erasure_config == config.default_erasure
    &&& md.chunks.len() == shards.len()
    &&& forall|i: int| 0 <= i < shards.len() ==> {
            &&& (#[trigger] md.chunks[i]).chunk_id@ == chunk_id_of(md.id, i as nat)
            &&& md.chunks[i].node_id@ == "local"@
            &&& md.chunks[i].size_bytes == shards[i].len()
            &&& md.chunks[i].hash@ == hash_text(shards[i])
        }
}

/// The contents of each metadata record, in order.
pub open spec fn metadata_views(v: Seq<FileMetadata>) -> Seq<MetadataView> {
    Seq::new(v.len(), |i: int| v[i]@)
}

/// The metadata of the stored files whose owner is `owner`, in order.
pub open spec fn owned_by(entries: Seq<(String, FileHandle)>, owner: Seq<char>) -> Seq<MetadataView>
    decreases entries.len(),
{
    if entries.len() == 0 {
        Seq::empty()
    } else {
        let rest = owned_by(entries.drop_last(), owner);
        let md = entries.last().1.metadata;
        if md.owner@ == owner { rest.push(md@) } else { rest }
    }
}

proof fn lemma_chunks_flatten(data: Seq<u8>, size: nat)
    requires
        size > 0,
    ensures
        chunks_of(data, size).flatten() == data,
    decreases data.len(),
{
    if data.len() == 0 {
    } else if data.len() <= size {
        seq![data].lemma_flatten_one_element();
    } else {
        lemma_chunks_flatten(data.skip(size as int), size);
        lemma_flatten_concat(seq![data.take(size as int)], chunks_of(data.skip(size as int), size));
        seq![data.take(size as int)].lemma_flatten_one_element();
        assert(data.take(size as int) + data.skip(size as int) =~= data);
    }
}

proof fn lemma_chunk_count(data: Seq<u8>, size: nat, m: nat)
    requires
        size > 0,
        0 < data.len() <= m * size,
    ensures
        0 < chunks_of(data, size).len() <= m,
    decreases data.len(),
{
    if data.len() <= size {
        assert(m >= 1) by (nonlinear_arith)
            requires
                0 < data.len() <= m * size,
                size > 0,
        ;
    } else {
        assert(m >= 1 && data.len() - size <= (m - 1) * size) by (nonlinear_arith)
            requires
                size < data.len() <= m * size,
        ;
        lemma_chunk_count(data.skip(size as int), size, (m - 1) as nat);
    }
}

proof fn lemma_found_all(infos: Seq<ChunkInfo>, stored: Map<Seq<char>, Vec<u8>>, file_id: Seq<char>, shards: Seq<Seq<u8>>)
    requires
        infos.len() <= shards.len(),
        forall|i: int| 0 <= i < infos.len() ==> (#[trigger] infos[i]).chunk_id@ == chunk_id_of(file_id, i as nat),
        holds_shards(stored, file_id, shards),
    ensures
        found_shards(infos, stored) == shards.take(infos.len() as int),
    decreases infos.len(),
{
    if infos.len() == 0 {
        assert(shards.take(0) =~= Seq::<Seq<u8>>::empty());
    } else {
        let k = infos.len() - 1;
        assert forall|i: int| 0 <= i < infos.drop_last().len() implies
            (#[trigger] infos.drop_last()[i]).chunk_id@ == chunk_id_of(file_id, i as nat) by {
            assert(infos.drop_last()[i] == infos[i]);
        }
        lemma_found_all(infos.drop_last(), stored, file_id, shards);
        assert(infos[k].chunk_id@ == chunk_id_of(file_id, k as nat));
        assert(stored.contains_key(chunk_id_of(file_id, k as nat)));
        assert(shards.take(infos.len() as int) =~= shards.take(k).push(shards[k]));
    }
}

/// Retrieving a file that was just stored gives back its data, followed by
/// zero padding, when the data fits in the data shards (at most
/// `data_shards` chunks).
pub proof fn law_retrieve_after_store(md: MetadataView, stored: Map<Seq<char>, Vec<u8>>, name: Seq<char>,
    owner: Seq<char>, data: Seq<u8>, key: Seq<u8>, config: DriveConfig)
    requires
        config.chunk_size_kb > 0,
        stored_as(md, name, owner, data, key, config),
        holds_shards(stored, md.id, file_shards(data, config)),
        0 < data.len() <= config.default_erasure.data_shards * (config.chunk_size_kb * 1024),
    ensures
        retrieved(md, stored) matches Ok(v) && v.len() >= data.len() && v.take(data.len() as int) == data,
{
    let size = (config.chunk_size_kb * 1024) as nat;
    let ds = config.default_erasure.data_shards;
    let ps = config.default_erasure.parity_shards;
    let ch = chunks_of(data, size);
    lemma_chunk_count(data, size, ds as nat);
    let shards = file_shards(data, config);
    assert forall|i: int| 0 <= i < md.chunks.len() implies
        (#[trigger] md.chunks[i]).chunk_id@ == chunk_id_of(md.id, i as nat) by {
        assert(0 <= i < shards.len());
    }
    lemma_found_all(md.chunks, stored, md.id, shards);
    assert(shards.take(shards.len() as int) =~= shards);
    erasure::law_encode_shard_count(ch, ds, ps);
    erasure::law_decode_inverts_encode(ch, ds, ps);
    let padded = erasure::padded_chunks(ch, ds as int);
    let zeros = Seq::new((ds - ch.len()) as nat, |k: int| Seq::new(ch[0].len(), |i: int| 0u8));
    assert(padded == ch + zeros);
    lemma_flatten_concat(ch, zeros);
    lemma_chunks_flatten(data, size);
    assert((data + zeros.flatten()).take(data.len() as int) =~= data);
}

/// A deleted file is gone: `delete_file` leaves the files without its
/// identifier, and `retrieve_file` answers "File not found" for an
/// identifier that is not there.
pub proof fn law_deleted_file_is_gone(files: Map<Seq<char>, FileHandle>, id: Seq<char>, other: Seq<char>)
    requires
        other != id,
    ensures
        !files.remove(id).contains_key(id),
        files.remove(id).contains_key(other) == files.contains_key(other),
{
}

/// The drive's store of files and shards.
pub struct DriveManager {
    config: DriveConfig,
    files: Table<FileHandle>,
    local_chunks: Table<Vec<u8>>,
}

/// Sum of the lengths of stored shards.
pub open spec fn total_len(entries: Seq<(String, Vec<u8>)>) -> nat
    decreases entries.len(),
{
    if entries.len() == 0 { 0 } else { total_len(entries.drop_last()) + entries.last().1@.len() }
}

/// Sum of the lengths of the shards.
pub open spec fn shards_total(shards: Seq<Seq<u8>>) -> nat
    decreases shards.len(),
{
    if shards.len() == 0 { 0 } else { shards_total(shards.drop_last()) + shards.last().len() }
}

/// Whether none of the first `n` shards of file `file_id` is stored.
pub open spec fn no_shards_of(stored: Map<Seq<char>, Vec<u8>>, file_id: Seq<char>, n: nat) -> bool {
    forall|i: nat| i < n ==> !#[trigger] stored.contains_key(chunk_id_of(file_id, i))
}

/// The shard identifiers of a file's chunk records, in order.
pub open spec fn record_ids(infos: Seq<ChunkInfo>) -> Seq<Seq<char>> {
    Seq::new(infos.len(), |i: int| infos[i].chunk_id@)
}

/// Every shard identifier outside `ids` is stored in `after` exactly when
/// it is stored in `before`, with the same bytes.
pub open spec fn unchanged_except(before: Map<Seq<char>, Vec<u8>>, after: Map<Seq<char>, Vec<u8>>, ids: Seq<Seq<char>>) -> bool {
    forall|k: Seq<char>| !ids.contains(k) ==>
        (#[trigger] after.contains_key(k) == before.contains_key(k)
        && (before.contains_key(k) ==> after[k] == before[k]))
}

/// The bytes that removing the shards `ids`, one after another, takes out
/// of `stored` (an identifier met twice counts once).
pub open spec fn removed_total(stored: Map<Seq<char>, Vec<u8>>, ids: Seq<Seq<char>>) -> nat
    decreases ids.len(),
{
    if ids.len() == 0 {
        0
    } else {
        (if stored.contains_key(ids[0]) { stored[ids[0]]@.len() } else { 0 })
            + removed_total(stored.remove(ids[0]), ids.drop_first())
    }
}

/// Sum of the recorded sizes of chunk records.
pub open spec fn recorded_total(infos: Seq<ChunkInfo>) -> nat
    decreases infos.len(),
{
    if infos.len() == 0 { 0 } else { recorded_total(infos.drop_last()) + infos.last().size_bytes as nat }
}

proof fn lemma_shards_total_first(s: Seq<Seq<u8>>)
    requires
        s.len() > 0,
    ensures
        shards_total(s) == s[0].len() + shards_total(s.drop_first()),
    decreases s.len(),
{
    if s.len() > 1 {
        lemma_shards_total_first(s.drop_last());
        assert(s.drop_last().drop_first() =~= s.drop_first().drop_last());
    } else {
        assert(s.drop_first() =~= Seq::<Seq<u8>>::empty());
        assert(s.drop_last() =~= Seq::<Seq<u8>>::empty());
    }
}

proof fn lemma_recorded_total_matches(infos: Seq<ChunkInfo>, shards: Seq<Seq<u8>>)
    requires
        infos.len() == shards.len(),
        forall|i: int| 0 <= i < shards.len() ==> (#[trigger] infos[i]).size_bytes == shards[i].len(),
    ensures
        recorded_total(infos) == shards_total(shards),
    decreases infos.len(),
{
    if infos.len() > 0 {
        let k = infos.len() - 1;
        assert(infos[k].size_bytes == shards[k].len());
        lemma_recorded_total_matches(infos.drop_last(), shards.drop_last());
    }
}

proof fn lemma_removed_total_of_held(m: Map<Seq<char>, Vec<u8>>, ids: Seq<Seq<char>>, shards: Seq<Seq<u8>>)
    requires
        ids.len() == shards.len(),
        ids.no_duplicates(),
        forall|i: int| 0 <= i < ids.len() ==> #[trigger] m.contains_key(ids[i]) && m[ids[i]]@ == shards[i],
    ensures
        removed_total(m, ids) == shards_total(shards),
    decreases ids.len(),
{
    if ids.len() > 0 {
        let m2 = m.remove(ids[0]);
        let rest = ids.drop_first();
        assert(m.contains_key(ids[0]));
        assert(rest.no_duplicates()) by {
            assert forall|a: int, b: int| 0 <= a < rest.len() && 0 <= b < rest.len() && a != b implies rest[a] != rest[b] by {
                assert(rest[a] == ids[a + 1]);
                assert(rest[b] == ids[b + 1]);
            }
        }
        assert forall|i: int| 0 <= i < rest.len() implies #[trigger] m2.contains_key(rest[i])
            && m2[rest[i]]@ == shards.drop_first()[i] by {
            assert(rest[i] == ids[i + 1]);
            assert(ids[i + 1] != ids[0]);
            assert(m.contains_key(ids[i + 1]));
        }
        lemma_removed_total_of_held(m2, rest, shards.drop_first());
        lemma_shards_total_first(shards);
    } else {
        assert(shards.len() == 0);
    }
}

/// Deleting a file takes out of the storage total exactly what storing it
/// put in: when `store_file` put the file's shards in under fresh
/// identifiers (raising the total from `before` to `middle` by the shards'
/// total length) and `delete_file` then removed them (`after` plus what it
/// removed is `middle`), the total is back at `before`, and the drop equals
/// the sum of the sizes recorded in the file's chunk records.
pub proof fn law_delete_undoes_store_total(stored: Map<Seq<char>, Vec<u8>>, md: MetadataView, shards: Seq<Seq<u8>>,
    before: nat, middle: nat, after: nat)
    requires
        md.chunks.len() == shards.len(),
        forall|i: int| 0 <= i < shards.len() ==> {
            &&& (#[trigger] md.chunks[i]).chunk_id@ == chunk_id_of(md.id, i as nat)
            &&& md.chunks[i].size_bytes == shards[i].len()
        },
        holds_shards(stored, md.id, shards),
        middle == before + shards_total(shards),
        after + removed_total(stored, record_ids(md.chunks)) == middle,
    ensures
        after == before,
        middle - after == recorded_total(md.chunks),
{
    let ids = record_ids(md.chunks);
    assert(ids.no_duplicates()) by {
        assert forall|a: int, b: int| 0 <= a < ids.len() && 0 <= b < ids.len() && a != b implies ids[a] != ids[b] by {
            lemma_chunk_id_injective(md.id, a as nat, b as nat);
        }
    }
    assert forall|i: int| 0 <= i < ids.len() implies #[trigger] stored.contains_key(ids[i]) && stored[ids[i]]@ == shards[i] by {
        assert(ids[i] == md.chunks[i].chunk_id@);
        assert(stored.contains_key(chunk_id_of(md.id, i as nat)));
    }
    lemma_removed_total_of_held(stored, ids, shards);
    lemma_recorded_total_matches(md.chunks, shards);
}

proof fn lemma_total_len_push(e: Seq<(String, Vec<u8>)>, x: (String, Vec<u8>))
    ensures
        total_len(e.push(x)) == total_len(e) + x.1@.len(),
{
    assert(e.push(x).drop_last() =~= e);
}

proof fn lemma_total_len_remove(e: Seq<(String, Vec<u8>)>, i: int)
    requires
        0 <= i < e.len(),
    ensures
        total_len(e.remove(i)) + e[i].1@.len() == total_len(e),
    decreases e.len(),
{
    if i == e.len() - 1 {
        assert(e.remove(i) =~= e.drop_last());
    } else {
        assert(e.remove(i).drop_last() =~= e.drop_last().remove(i));
        lemma_total_len_remove(e.drop_last(), i);
    }
}

fn copy_bytes(src: &[u8]) -> (r: Vec<u8>)
    ensures
        r@ == src@,
{
    let mut r: Vec<u8> = Vec::new();
    let mut i: usize = 0;
    while i < src.len()
        invariant
            i <= src@.len(),
            r@ == src@.take(i as int),
        decreases src.len() - i,
    {
        r.push(src[i]);
        i = i + 1;
        assert(r@ =~= src@.take(i as int));
    }
    assert(src@.take(src@.len() as int) =~= src@);
    r
}

/// A fresh file identifier: "file-" and the current Unix time in
/// nanoseconds in lowercase hexadecimal.
fn generate_file_id() -> (r: core::result::Result<String, String>)
    ensures
        r matches Ok(id) ==> exists|n: nat| id@ == "file-"@ + lower_hex(n),
{
    let nanos = match unix_now_nanos() {
        Ok(n) => n,
        Err(e) => return Err(e),
    };
    let id = file_id_from_nanos(nanos);
    Ok(id)
}

/// The file identifier for a time in nanoseconds: "file-" and the time in
/// lowercase hexadecimal.
fn file_id_from_nanos(nanos: u128) -> (r: String)
    ensures
        r@ == "file-"@ + lower_hex(nanos as nat),
{
    let mut digits: Vec<char> = Vec::new();
    let mut n = nanos;
    while n >= 16
        invariant
            lower_hex(nanos as nat) == lower_hex(n as nat) + digits@.reverse(),
        decreases n,
    {
        let d = (n % 16) as u8;
        let c = if d < 10 { (d + 48) as char } else { (d - 10 + 97) as char };
        proof {
            assert(lower_hex(n as nat) == lower_hex((n / 16) as nat).push(crate::fmt::lower_hex_digit((n % 16) as nat)));
            assert(digits@.push(c).reverse() =~= seq![c] + digits@.reverse());
        }
        digits.push(c);
        n = n / 16;
    }
    let d = n as u8;
    let c = if d < 10 { (d + 48) as char } else { (d - 10 + 97) as char };
    proof {
        assert(digits@.push(c).reverse() =~= seq![c] + digits@.reverse());
    }
    digits.push(c);
    let mut r = "file-".to_string();
    proof { reveal_strlit("file-"); }
    let mut j: usize = digits.len();
    while j > 0
        invariant
            j <= digits@.len(),
            r@ == "file-"@ + digits@.reverse().take(digits@.len() - j),
        decreases j,
    {
        j = j - 1;
        r.push(digits[j]);
        assert(r@ =~= "file-"@ + digits@.reverse().take(digits@.len() - j));
    }
    assert(digits@.reverse().take(digits@.len() as int) =~= digits@.reverse());
    r
}

/// The current Unix time in seconds, or the clock's error message.
fn current_timestamp() -> core::result::Result<u64, String> {
    crate::time::unix_now_secs()
}

/// The data cut into chunks of `chunk_size` bytes.
fn split_into_chunks(data: &[u8], chunk_size: usize) -> (r: Vec<Vec<u8>>)
    requires
        chunk_size > 0,
    ensures
        shard_views(r@) == chunks_of(data@, chunk_size as nat),
{
    let mut r: Vec<Vec<u8>> = Vec::new();
    let mut start: usize = 0;
    assert(data@.skip(0) =~= data@);
    assert(shard_views(r@) + chunks_of(data@, chunk_size as nat) =~= chunks_of(data@, chunk_size as nat));
    while start < data.len()
        invariant
            chunk_size > 0,
            start <= data@.len(),
            shard_views(r@) + chunks_of(data@.skip(start as int), chunk_size as nat) == chunks_of(data@, chunk_size as nat),
        decreases data.len() - start,
    {
        let rest = data.len() - start;
        let end = if rest <= chunk_size { data.len() } else { start + chunk_size };
        let mut c: Vec<u8> = Vec::new();
        let mut k: usize = start;
        while k < end
            invariant
                start <= k <= end,
                end <= data@.len(),
                c@ == data@.subrange(start as int, k as int),
            decreases end - k,
        {
            c.push(data[k]);
            k = k + 1;
            assert(c@ =~= data@.subrange(start as int, k as int));
        }
        proof {
            let s = data@.skip(start as int);
            assert(chunks_of(s, chunk_size as nat) == seq![c@] + chunks_of(data@.skip(end as int), chunk_size as nat)) by {
                if rest <= chunk_size {
                    assert(c@ =~= s);
                    assert(data@.skip(end as int) =~= Seq::<u8>::empty());
                    assert(seq![c@] + Seq::<Seq<u8>>::empty() =~= seq![c@]);
                } else {
                    assert(c@ =~= s.take(chunk_size as int));
                    assert(s.skip(chunk_size as int) =~= data@.skip(end as int));
                }
            }
            erasure::lemma_shard_views_push(r@, c);
            assert(shard_views(r@.push(c)) + chunks_of(data@.skip(end as int), chunk_size as nat)
                =~= shard_views(r@) + (seq![c@] + chunks_of(data@.skip(end as int), chunk_size as nat)));
        }
        r.push(c);
        start = end;
    }
    proof {
        assert(data@.skip(start as int) =~= Seq::<u8>::empty());
        assert(shard_views(r@) + Seq::<Seq<u8>>::empty() =~= shard_views(r@));
    }
    r
}

/// The identifier of a key: "key-" and the 16-digit hash text.
fn compute_key_id(key: &[u8]) -> (r: String)
    ensures
        r@ == "key-"@ + hash_text(key@),
{
    let mut r = "key-".to_string();
    proof { reveal_strlit("key-"); }
    let h = compute_hash(key);
    r.push_str(h.as_str());
    r
}

/// The 16-digit lowercase hexadecimal hash text of the bytes.
fn compute_hash(data: &[u8]) -> (r: String)
    ensures
        r@ == hash_text(data@),
{
    hex16(default_hash(data))
}

/// Compression step (the bytes pass through unchanged).
fn compress_data(data: &[u8]) -> (r: core::result::Result<Vec<u8>, String>)
    ensures
        r matches Ok(v) && v@ == data@,
{
    Ok(copy_bytes(data))
}

/// Decompression step (the bytes pass through unchanged).
fn decompress_data(data: &[u8]) -> (r: core::result::Result<Vec<u8>, String>)
    ensures
        r matches Ok(v) && v@ == data@,
{
    Ok(copy_bytes(data))
}

/// Shard encryption step (the bytes pass through unchanged).
fn encrypt_chunk(chunk: &[u8], _key: &[u8]) -> (r: Vec<u8>)
    ensures
        r@ == chunk@,
{
    copy_bytes(chunk)
}

/// Shard decryption step (the bytes pass through unchanged).
fn decrypt_chunk(chunk: &[u8], _key: &[u8]) -> (r: Vec<u8>)
    ensures
        r@ == chunk@,
{
    copy_bytes(chunk)
}

impl DriveManager {
    /// The configuration.
    pub closed spec fn config_of(&self) -> DriveConfig {
        self.config
    }

    /// The stored files, by identifier.
    pub closed spec fn file_map(&self) -> Map<Seq<char>, FileHandle> {
        self.files.map()
    }

    /// The stored shards, by identifier.
    pub closed spec fn chunk_map(&self) -> Map<Seq<char>, Vec<u8>> {
        self.local_chunks.map()
    }

    /// The stored files, in the order they were stored.
    pub closed spec fn file_entries(&self) -> Seq<(String, FileHandle)> {
        self.files.entries()
    }

    /// The stored shards, in the order they were stored.
    pub closed spec fn chunk_entries(&self) -> Seq<(String, Vec<u8>)> {
        self.local_chunks.entries()
    }

    /// The tables' keys are distinct.
    pub closed spec fn wf(&self) -> bool {
        self.files.wf() && self.local_chunks.wf()
    }

    /// An empty drive with this configuration.
    pub fn new(config: DriveConfig) -> (r: Self)
        ensures
            r.wf(),
            r.config_of() == config,
            r.file_map() == Map::<Seq<char>, FileHandle>::empty(),
            r.chunk_map() == Map::<Seq<char>, Vec<u8>>::empty(),
            r.file_entries().len() == 0,
            r.chunk_entries().len() == 0,
    {
        DriveManager { config, files: Table::new(), local_chunks: Table::new() }
    }

    /// An empty drive with the default configuration.
    pub fn default_config() -> (r: Self)
        ensures
            r.wf(),
            r.config_of().chunk_size_kb == 256,
            r.config_of().max_file_size_mb == 100,
            r.config_of().enable_compression,
            r.config_of().enable_deduplication,
            r.config_of().default_erasure.data_shards == 4,
            r.config_of().default_erasure.parity_shards == 2,
            r.config_of().default_erasure.min_shards == 4,
            r.file_entries().len() == 0,
            r.chunk_entries().len() == 0,
            r.file_map() == Map::<Seq<char>, FileHandle>::empty(),
            r.chunk_map() == Map::<Seq<char>, Vec<u8>>::empty(),
    {
        Self::new(DriveConfig::default())
    }

    /// Keep each shard under the file's identifier followed by "-chunk-"
    /// and its index, and describe it.
    fn put_shards(&mut self, file_id: &String, encrypted: &Vec<Vec<u8>>) -> (infos: Vec<ChunkInfo>)
        requires
            old(self).wf(),
        ensures
            final(self).wf(),
            final(self).config == old(self).config,
            final(self).files == old(self).files,
            infos@.len() == encrypted@.len(),
            forall|k: int| 0 <= k < encrypted@.len() ==> {
                &&& (#[trigger] infos@[k]).chunk_id@ == chunk_id_of(file_id@, k as nat)
                &&& infos@[k].node_id@ == "local"@
                &&& infos@[k].size_bytes == encrypted@[k]@.len()
                &&& infos@[k].hash@ == hash_text(encrypted@[k]@)
            },
            forall|k: int| 0 <= k < encrypted@.len() ==>
                #[trigger] final(self).chunk_map().contains_key(chunk_id_of(file_id@, k as nat))
                && final(self).chunk_map()[chunk_id_of(file_id@, k as nat)]@ == encrypted@[k]@,
            forall|key: Seq<char>| !#[trigger] is_chunk_key(file_id@, key, encrypted@.len()) ==>
                (final(self).chunk_map().contains_key(key) == old(self).chunk_map().contains_key(key)
                && (old(self).chunk_map().contains_key(key) ==> final(self).chunk_map()[key] == old(self).chunk_map()[key])),
            no_shards_of(old(self).chunk_map(), file_id@, encrypted@.len()) ==> total_len(final(self).chunk_entries())
                == total_len(old(self).chunk_entries()) + shards_total(shard_views(encrypted@)),
    {
        let mut chunk_infos: Vec<ChunkInfo> = Vec::new();
        let ghost old_entries = self.local_chunks.entries();
        let ghost old_chunks = self.local_chunks.map();
        let mut i: usize = 0;
        while i < encrypted.len()
            invariant
                self.files == old(self).files,
                self.config == old(self).config,
                self.wf(),
                i <= encrypted@.len(),
                old_chunks == old(self).local_chunks.map(),
                chunk_infos@.len() == i,
                forall|k: int| 0 <= k < i ==> {
                    &&& (#[trigger] chunk_infos@[k]).chunk_id@ == chunk_id_of(file_id@, k as nat)
                    &&& chunk_infos@[k].node_id@ == "local"@
                    &&& chunk_infos@[k].size_bytes == encrypted@[k]@.len()
                    &&& chunk_infos@[k].hash@ == hash_text(encrypted@[k]@)
                },
                forall|k: int| 0 <= k < i ==>
                    #[trigger] self.local_chunks.map().contains_key(chunk_id_of(file_id@, k as nat))
                    && self.local_chunks.map()[chunk_id_of(file_id@, k as nat)]@ == encrypted@[k]@,
                forall|key: Seq<char>| !#[trigger] is_chunk_key(file_id@, key, i as nat) ==>
                    (self.local_chunks.map().contains_key(key) == old_chunks.contains_key(key)
                    && (old_chunks.contains_key(key) ==> self.local_chunks.map()[key] == old_chunks[key])),
                old_entries == old(self).local_chunks.entries(),
                no_shards_of(old_chunks, file_id@, encrypted@.len()) ==> total_len(self.local_chunks.entries())
                    == total_len(old_entries) + shards_total(shard_views(encrypted@).take(i as int)),
            decreases encrypted.len() - i,
        {
            proof { reveal_strlit("-chunk-"); reveal_strlit("local"); reveal_strlit(""); }
            let mut chunk_id = file_id.clone();
            chunk_id.push_str("-chunk-");
            let num = format_number("", i as u64, "");
            chunk_id.push_str(num.as_str());
            assert(chunk_id@ =~= chunk_id_of(file_id@, i as nat));
            let shard = copy_bytes(encrypted[i].as_slice());
            let size = shard.len() as u64;
            let hash = compute_hash(shard.as_slice());
            let ghost before = self.local_chunks.map();
            let ghost before_entries = self.local_chunks.entries();
            proof {
                if is_chunk_key(file_id@, chunk_id@, i as nat) {
                    let j = choose|j: nat| j < i && #[trigger] chunk_id_of(file_id@, j) == chunk_id@;
                    lemma_chunk_id_injective(file_id@, j, i as nat);
                }
                assert(shard_views(encrypted@).take(i + 1).drop_last() =~= shard_views(encrypted@).take(i as int));
            }
            let key = chunk_id.clone();
            let ghost pair = (key, shard);
            self.local_chunks.insert(key, shard);
            proof {
                if no_shards_of(old_chunks, file_id@, encrypted@.len()) {
                    assert(!old_chunks.contains_key(chunk_id_of(file_id@, i as nat)));
                    assert(!before.contains_key(chunk_id@));
                    lemma_total_len_push(before_entries, pair);
                }
            }
            proof {
                assert forall|k: int| 0 <= k < i + 1 implies
                    #[trigger] self.local_chunks.map().contains_key(chunk_id_of(file_id@, k as nat))
                    && self.local_chunks.map()[chunk_id_of(file_id@, k as nat)]@ == encrypted@[k]@ by {
                    if k < i {
                        lemma_chunk_id_injective(file_id@, k as nat, i as nat);
                        assert(before.contains_key(chunk_id_of(file_id@, k as nat)));
                    }
                }
            }
            chunk_infos.push(ChunkInfo { chunk_id, node_id: "local".to_string(), size_bytes: size, hash });
            i = i + 1;
            proof {
                assert forall|key: Seq<char>| !#[trigger] is_chunk_key(file_id@, key, i as nat) implies
                    (self.local_chunks.map().contains_key(key) == old_chunks.contains_key(key)
                    && (old_chunks.contains_key(key) ==> self.local_chunks.map()[key] == old_chunks[key])) by {
                    lemma_not_chunk_key_step(file_id@, key, i as nat);
                    assert(before.contains_key(key) == old_chunks.contains_key(key));
                }
            }
        }
        assert(shard_views(encrypted@).take(encrypted@.len() as int) =~= shard_views(encrypted@));
        chunk_infos
    }

    /// Store a file: cut into chunks, erasure-coded, each shard kept under
    /// the file's identifier followed by "-chunk-" and its index, and the
    /// metadata and key kept under the file's identifier, which is "file-"
    /// and the current time in nanoseconds in hexadecimal.
    ///
    /// Empty data is refused ("No data to encode"); a clock before 1970 is
    /// reported with its message and nothing changes.
    pub fn store_file(&mut self, name: &str, owner: &str, data: Vec<u8>, encryption_key: Vec<u8>)
        -> (r: core::result::Result<FileMetadata, String>)
        requires
            old(self).wf(),
            old(self).config_of().chunk_size_kb > 0,
            old(self).config_of().chunk_size_kb * 1024 <= usize::MAX,
        ensures
            final(self).wf(),
            final(self).config_of() == old(self).config_of(),
            data@.len() == 0 ==> r is Err,
            r is Err ==> final(self).file_map() == old(self).file_map()
                && final(self).chunk_map() == old(self).chunk_map(),
            r matches Ok(md) ==> data@.len() > 0,
            r matches Ok(md) ==> exists|n: nat| md.id@ == "file-"@ + lower_hex(n),
            r is Err ==> final(self).file_entries() == old(self).file_entries()
                && final(self).chunk_entries() == old(self).chunk_entries(),
            r matches Ok(md) ==> (!old(self).file_map().contains_key(md.id@) ==>
                final(self).file_entries().len() == old(self).file_entries().len() + 1
                && final(self).file_entries().drop_last() == old(self).file_entries()
                && final(self).file_entries().last().0@ == md.id@
                && final(self).file_entries().last().1.metadata@ == md@),
            r matches Ok(md) ==> (old(self).file_map().contains_key(md.id@) ==>
                entry_keys(final(self).file_entries()) == entry_keys(old(self).file_entries())),
            r matches Ok(md) ==> (no_shards_of(old(self).chunk_map(), md.id@, file_shards(data@, old(self).config_of()).len()) ==>
                total_len(final(self).chunk_entries())
                    == total_len(old(self).chunk_entries()) + shards_total(file_shards(data@, old(self).config_of()))),
            r matches Ok(md) ==> stored_as(md@, name@, owner@, data@, encryption_key@, old(self).config_of()),
            r matches Ok(md) ==> final(self).file_map().dom() == old(self).file_map().dom().insert(md.id@),
            r matches Ok(md) ==> final(self).file_map()[md.id@].metadata@ == md@,
            r matches Ok(md) ==> final(self).file_map()[md.id@].encryption_key@ == encryption_key@,
            r matches Ok(md) ==> forall|k: Seq<char>| k != md.id@ && #[trigger] old(self).file_map().contains_key(k) ==>
                final(self).file_map()[k] == old(self).file_map()[k],
            r matches Ok(md) ==> holds_shards(final(self).chunk_map(), md.id@, file_shards(data@, old(self).config_of())),
            r matches Ok(md) ==> forall|k: Seq<char>|
                !#[trigger] is_chunk_key(md.id@, k, file_shards(data@, old(self).config_of()).len()) ==>
                (final(self).chunk_map().contains_key(k) == old(self).chunk_map().contains_key(k)
                && (old(self).chunk_map().contains_key(k) ==> final(self).chunk_map()[k] == old(self).chunk_map()[k])),
    {
        let file_id = match generate_file_id() {
            Ok(id) => id,
            Err(e) => return Err(e),
        };
        let now = match current_timestamp() {
            Ok(t) => t,
            Err(e) => return Err(e),
        };
        self.store_file_at(file_id, now, name, owner, data, encryption_key)
    }

    /// Store a file under identifier `file_id`, stamped `now`, as
    /// `store_file` does once it has read the clock: refused ("No data to
    /// encode") exactly when the data is empty, and then nothing changes.
    pub fn store_file_at(&mut self, file_id: String, now: u64, name: &str, owner: &str, data: Vec<u8>,
        encryption_key: Vec<u8>) -> (r: core::result::Result<FileMetadata, String>)
        requires
            old(self).wf(),
            old(self).config_of().chunk_size_kb > 0,
            old(self).config_of().chunk_size_kb * 1024 <= usize::MAX,
        ensures
            final(self).wf(),
            final(self).config_of() == old(self).config_of(),
            r is Ok <==> data@.len() > 0,
            r matches Err(e) ==> e@ == "No data to encode"@,
            r is Err ==> final(self).file_map() == old(self).file_map()
                && final(self).chunk_map() == old(self).chunk_map(),
            r matches Ok(md) ==> md.id@ == file_id@ && md.created_at == now && md.modified_at == now,
            r is Err ==> final(self).file_entries() == old(self).file_entries()
                && final(self).chunk_entries() == old(self).chunk_entries(),
            r matches Ok(md) ==> (!old(self).file_map().contains_key(file_id@) ==>
                final(self).file_entries().len() == old(self).file_entries().len() + 1
                && final(self).file_entries().drop_last() == old(self).file_entries()
                && final(self).file_entries().last().0@ == file_id@
                && final(self).file_entries().last().1.metadata@ == md@),
            r is Ok && old(self).file_map().contains_key(file_id@) ==>
                entry_keys(final(self).file_entries()) == entry_keys(old(self).file_entries()),
            r is Ok && no_shards_of(old(self).chunk_map(), file_id@, file_shards(data@, old(self).config_of()).len()) ==>
                total_len(final(self).chunk_entries())
                    == total_len(old(self).chunk_entries()) + shards_total(file_shards(data@, old(self).config_of())),
            r matches Ok(md) ==> stored_as(md@, name@, owner@, data@, encryption_key@, old(self).config_of()),
            r matches Ok(md) ==> final(self).file_map().dom() == old(self).file_map().dom().insert(md.id@),
            r matches Ok(md) ==> final(self).file_map()[md.id@].metadata@ == md@,
            r matches Ok(md) ==> final(self).file_map()[md.id@].encryption_key@ == encryption_key@,
            r matches Ok(md) ==> forall|k: Seq<char>| k != md.id@ && #[trigger] old(self).file_map().contains_key(k) ==>
                final(self).file_map()[k] == old(self).file_map()[k],
            r matches Ok(md) ==> holds_shards(final(self).chunk_map(), md.id@, file_shards(data@, old(self).config_of())),
            r matches Ok(md) ==> forall|k: Seq<char>|
                !#[trigger] is_chunk_key(md.id@, k, file_shards(data@, old(self).config_of()).len()) ==>
                (final(self).chunk_map().contains_key(k) == old(self).chunk_map().contains_key(k)
                && (old(self).chunk_map().contains_key(k) ==> final(self).chunk_map()[k] == old(self).chunk_map()[k])),
    {
        let ghost input = data@;

        let data = if self.config.enable_compression {
            match compress_data(data.as_slice()) {
                Ok(d) => d,
                Err(e) => return Err(e),
            }
        } else {
            data
        };
        let chunk_size = (self.config.chunk_size_kb * 1024) as usize;
        let chunks = split_into_chunks(data.as_slice(), chunk_size);
        let config = self.config.default_erasure;
        let encoded = match erasure::encode(chunks.as_slice(), config.data_shards, config.parity_shards) {
            Ok(e) => e,
            Err(e) => {
                proof {
                    assert(shard_views(chunks@).len() == chunks@.len());
                    if data@.len() > 0 {
                        assert(chunks_of(data@, chunk_size as nat).len() > 0);
                    }
                }
                return Err(e);
            },
        };
        let ghost shards = shard_views(encoded@);
        assert(shards == file_shards(data@, self.config));
        let mut encrypted: Vec<Vec<u8>> = Vec::new();
        let mut i: usize = 0;
        while i < encoded.len()
            invariant
                i <= encoded@.len(),
                shards == shard_views(encoded@),
                shard_views(encrypted@) == shards.take(i as int),
            decreases encoded.len() - i,
        {
            let e = encrypt_chunk(encoded[i].as_slice(), encryption_key.as_slice());
            proof { erasure::lemma_shard_views_push(encrypted@, e); }
            encrypted.push(e);
            i = i + 1;
            assert(shard_views(encrypted@) =~= shards.take(i as int));
        }
        assert(shards.take(shards.len() as int) =~= shards);
        assert(shard_views(encrypted@) =~= shards);
        let chunk_infos = self.put_shards(&file_id, &encrypted);
        proof {
            assert(chunks@.len() > 0);
            assert(data@.len() > 0);
            assert(file_shards(input, self.config) == shard_views(encrypted@));
            assert forall|k: int| 0 <= k < shards.len() implies
                #[trigger] self.chunk_map().contains_key(chunk_id_of(file_id@, k as nat))
                && self.chunk_map()[chunk_id_of(file_id@, k as nat)]@ == shards[k] by {
                assert(self.chunk_map().contains_key(chunk_id_of(file_id@, k as nat)));
                assert(shards[k] == encrypted@[k]@);
            }
            assert(holds_shards(self.chunk_map(), file_id@, shards));
        }
        let ghost fid = file_id@;
        let metadata = FileMetadata {
            id: file_id,
            name: name.to_string(),
            size_bytes: data.len() as u64,
            created_at: now,
            modified_at: now,
            owner: owner.to_string(),
            chunks: chunk_infos,
            encryption_key_id: compute_key_id(encryption_key.as_slice()),
            erasure_config: config,
        };
        let handle = FileHandle { metadata: metadata.clone(), encryption_key };
        let key = metadata.id.clone();
        let ghost chunks_after = self.chunk_map();
        let ghost pair = (key, handle);
        self.files.insert(key, handle);
        proof {
            assert(self.chunk_map() == chunks_after);
            assert(metadata.id@ == fid);
            assert(file_shards(input, self.config) == shards);
        }
        Ok(metadata)
    }

    /// Retrieve a file: its shards that are still stored, in record order,
    /// decrypted; the first `data_shards` of them joined. An unknown file
    /// is refused ("File not found"), and so are too few shards.
    pub fn retrieve_file(&self, file_id: &str) -> (r: core::result::Result<Vec<u8>, String>)
        requires
            self.wf(),
        ensures
            !self.file_map().contains_key(file_id@) ==> (r matches Err(e) && e@ == "File not found"@),
            self.file_map().contains_key(file_id@) ==> match retrieved(self.file_map()[file_id@].metadata@, self.chunk_map()) {
                Ok(d) => r matches Ok(v) && v@ == d,
                Err(m) => r matches Err(e) && e@ == m,
            },
    {
        let key = file_id.to_string();
        let handle = match self.files.get(&key) {
            Some(h) => h,
            None => {
                proof { reveal_strlit("File not found"); }
                return Err("File not found".to_string());
            },
        };
        let ghost stored = self.local_chunks.map();
        let mut chunks: Vec<Vec<u8>> = Vec::new();
        let mut i: usize = 0;
        while i < handle.metadata.chunks.len()
            invariant
                self.wf(),
                stored == self.local_chunks.map(),
                i <= handle.metadata.chunks@.len(),
                shard_views(chunks@) == found_shards(handle.metadata.chunks@.take(i as int), stored),
            decreases handle.metadata.chunks.len() - i,
        {
            let info = &handle.metadata.chunks[i];
            proof {
                assert(handle.metadata.chunks@.take(i + 1).drop_last() =~= handle.metadata.chunks@.take(i as int));
            }
            match self.local_chunks.get(&info.chunk_id) {
                Some(shard) => {
                    let d = decrypt_chunk(shard.as_slice(), handle.encryption_key.as_slice());
                    proof { erasure::lemma_shard_views_push(chunks@, d); }
                    chunks.push(d);
                },
                None => {},
            }
            i = i + 1;
        }
        assert(handle.metadata.chunks@.take(handle.metadata.chunks@.len() as int) =~= handle.metadata.chunks@);
        let decoded = match erasure::decode(chunks.as_slice(), handle.metadata.erasure_config.data_shards) {
            Ok(d) => d,
            Err(e) => return Err(e),
        };
        let ghost parts = shard_views(decoded@);
        let mut flat_data: Vec<u8> = Vec::new();
        let mut j: usize = 0;
        while j < decoded.len()
            invariant
                j <= decoded@.len(),
                parts == shard_views(decoded@),
                flat_data@ == parts.take(j as int).flatten(),
            decreases decoded.len() - j,
        {
            let part = &decoded[j];
            let mut k: usize = 0;
            let ghost start = flat_data@;
            while k < part.len()
                invariant
                    k <= part@.len(),
                    flat_data@ == start + part@.take(k as int),
                decreases part.len() - k,
            {
                flat_data.push(part[k]);
                k = k + 1;
                assert(flat_data@ =~= start + part@.take(k as int));
            }
            proof {
                assert(part@.take(part@.len() as int) =~= part@);
                assert(parts.take(j + 1) =~= parts.take(j as int).push(part@));
                parts.take(j as int).lemma_flatten_push(part@);
            }
            j = j + 1;
        }
        assert(parts.take(parts.len() as int) =~= parts);
        let data = if self.config.enable_compression {
            match decompress_data(flat_data.as_slice()) {
                Ok(d) => d,
                Err(e) => return Err(e),
            }
        } else {
            flat_data
        };
        Ok(data)
    }

    /// Delete a file and its shards; an unknown file is refused ("File not
    /// found").
    pub fn delete_file(&mut self, file_id: &str) -> (r: core::result::Result<(), String>)
        requires
            old(self).wf(),
        ensures
            final(self).wf(),
            final(self).config_of() == old(self).config_of(),
            r is Ok <==> old(self).file_map().contains_key(file_id@),
            r matches Err(e) ==> e@ == "File not found"@ && final(self).file_map() == old(self).file_map(),
            final(self).file_map() == old(self).file_map().remove(file_id@),
            r is Ok ==> forall|i: int| 0 <= i < old(self).file_map()[file_id@].metadata.chunks@.len() ==>
                !final(self).chunk_map().contains_key(#[trigger] old(self).file_map()[file_id@].metadata.chunks@[i].chunk_id@),
            r is Err ==> final(self).file_entries() == old(self).file_entries()
                && final(self).chunk_entries() == old(self).chunk_entries(),
            r is Ok ==> final(self).file_entries()
                == old(self).file_entries().remove(entry_keys(old(self).file_entries()).index_of(file_id@)),
            r is Ok ==> total_len(final(self).chunk_entries())
                + removed_total(old(self).chunk_map(), record_ids(old(self).file_map()[file_id@].metadata.chunks@))
                == total_len(old(self).chunk_entries()),
            r is Err ==> final(self).chunk_map() == old(self).chunk_map(),
            r is Ok ==> unchanged_except(old(self).chunk_map(), final(self).chunk_map(),
                record_ids(old(self).file_map()[file_id@].metadata.chunks@)),
    {
        let key = file_id.to_string();
        match self.files.remove(&key) {
            Some(handle) => {
                let ghost ids = record_ids(handle.metadata.chunks@);
                let ghost start_map = self.local_chunks.map();
                let ghost start_total = total_len(self.local_chunks.entries());
                assert(ids.skip(0) =~= ids);
                let mut i: usize = 0;
                while i < handle.metadata.chunks.len()
                    invariant
                        ids == record_ids(handle.metadata.chunks@),
                        start_map == old(self).local_chunks.map(),
                        start_total == total_len(old(self).local_chunks.entries()),
                        self.files.entries() == old(self).files.entries().remove(entry_keys(old(self).files.entries()).index_of(file_id@)),
                        total_len(self.local_chunks.entries()) + removed_total(start_map, ids)
                            == start_total + removed_total(self.local_chunks.map(), ids.skip(i as int)),
                        self.local_chunks.wf(),
                        self.files.wf(),
                        self.config == old(self).config,
                        self.files.map() == old(self).files.map().remove(file_id@),
                        handle.metadata == old(self).files.map()[file_id@].metadata,
                        i <= handle.metadata.chunks@.len(),
                        forall|k: int| 0 <= k < i ==> !self.local_chunks.map().contains_key(#[trigger] handle.metadata.chunks@[k].chunk_id@),
                        forall|k: Seq<char>| !ids.take(i as int).contains(k) ==>
                            (#[trigger] self.local_chunks.map().contains_key(k) == start_map.contains_key(k)
                            && (start_map.contains_key(k) ==> self.local_chunks.map()[k] == start_map[k])),
                    decreases handle.metadata.chunks.len() - i,
                {
                    let ghost prev_map = self.local_chunks.map();
                    let ghost prev_entries = self.local_chunks.entries();
                    let ghost id = handle.metadata.chunks@[i as int].chunk_id@;
                    let removed = self.local_chunks.remove(&handle.metadata.chunks[i].chunk_id);
                    proof {
                        assert forall|k: Seq<char>| !ids.take(i + 1).contains(k) implies
                            (#[trigger] self.local_chunks.map().contains_key(k) == start_map.contains_key(k)
                            && (start_map.contains_key(k) ==> self.local_chunks.map()[k] == start_map[k])) by {
                            if ids.take(i as int).contains(k) {
                                let t = choose|t: int| 0 <= t < i && #[trigger] ids.take(i as int)[t] == k;
                                assert(ids.take(i + 1)[t] == k);
                            }
                            assert(ids.take(i + 1)[i as int] == id);
                        }
                        let rest = ids.skip(i as int);
                        assert(rest[0] == id);
                        assert(rest.drop_first() =~= ids.skip(i + 1));
                        if removed is Some {
                            let idx = entry_keys(prev_entries).index_of(id);
                            lemma_total_len_remove(prev_entries, idx);
                        } else {
                            assert(prev_map.remove(id) =~= prev_map);
                        }
                    }
                    i = i + 1;
                }
                assert(ids.skip(i as int) =~= Seq::<Seq<char>>::empty());
                assert(ids.take(i as int) =~= ids);
                assert(ids == record_ids(old(self).file_map()[file_id@].metadata.chunks@));
                assert forall|k: Seq<char>|
                    !record_ids(old(self).file_map()[file_id@].metadata.chunks@).contains(k) implies
                    (#[trigger] self.chunk_map().contains_key(k) == old(self).chunk_map().contains_key(k)
                    && (old(self).chunk_map().contains_key(k) ==> self.chunk_map()[k] == old(self).chunk_map()[k])) by {
                    assert(!ids.take(i as int).contains(k));
                }
                assert(unchanged_except(old(self).chunk_map(), self.chunk_map(), ids));
                Ok(())
            },
            None => {
                proof { reveal_strlit("File not found"); }
                Err("File not found".to_string())
            },
        }
    }

    /// The metadata of the files of `owner`, in the order they were
    /// stored.
    pub fn list_files(&self, owner: &str) -> (r: Vec<FileMetadata>)
        ensures
            metadata_views(r@) == owned_by(self.file_entries(), owner@),
    {
        let owner_s = owner.to_string();
        let mut r: Vec<FileMetadata> = Vec::new();
        let mut i: usize = 0;
        while i < self.files.len()
            invariant
                i <= self.file_entries().len(),
                owner_s@ == owner@,
                metadata_views(r@) == owned_by(self.file_entries().take(i as int), owner@),
            decreases self.file_entries().len() - i,
        {
            let e = self.files.entry(i);
            proof {
                assert(self.file_entries().take(i + 1).drop_last() =~= self.file_entries().take(i as int));
            }
            if e.1.metadata.owner == owner_s {
                let md = e.1.metadata.clone();
                let ghost prev = r@;
                r.push(md);
                assert(metadata_views(r@) =~= metadata_views(prev).push(e.1.metadata@));
            }
            i = i + 1;
        }
        assert(self.file_entries().take(self.file_entries().len() as int) =~= self.file_entries());
        r
    }

    /// The metadata of a file, if stored.
    pub fn get_metadata(&self, file_id: &str) -> (r: Option<FileMetadata>)
        requires
            self.wf(),
        ensures
            r is Some <==> self.file_map().contains_key(file_id@),
            r matches Some(md) ==> md@ == self.file_map()[file_id@].metadata@,
    {
        let key = file_id.to_string();
        match self.files.get(&key) {
            Some(h) => Some(h.metadata.clone()),
            None => None,
        }
    }

    /// Total bytes of the stored shards (the total must fit in 64 bits).
    pub fn get_storage_used(&self) -> (r: u64)
        requires
            total_len(self.chunk_entries()) <= u64::MAX,
        ensures
            r == total_len(self.chunk_entries()),
    {
        let mut total: u64 = 0;
        let mut i: usize = 0;
        while i < self.local_chunks.len()
            invariant
                i <= self.chunk_entries().len(),
                total_len(self.chunk_entries()) <= u64::MAX,
                total == total_len(self.chunk_entries().take(i as int)),
            decreases self.chunk_entries().len() - i,
        {
            let e = self.local_chunks.entry(i);
            proof {
                assert(self.chunk_entries().take(i + 1).drop_last() =~= self.chunk_entries().take(i as int));
                lemma_total_len_prefix(self.chunk_entries(), i + 1);
            }
            total = total + e.1.len() as u64;
            i = i + 1;
        }
        assert(self.chunk_entries().take(self.chunk_entries().len() as int) =~= self.chunk_entries());
        total
    }
}

proof fn lemma_total_len_prefix(e: Seq<(String, Vec<u8>)>, n: int)
    requires
        0 <= n <= e.len(),
    ensures
        total_len(e.take(n)) <= total_len(e),
    decreases e.len(),
{
    if n < e.len() {
        assert(e.drop_last().take(n) =~= e.take(n));
        lemma_total_len_prefix(e.drop_last(), n);
    } else {
        assert(e.take(n) =~= e);
    }
}

} // verus!
