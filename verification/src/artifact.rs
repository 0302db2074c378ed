//! Artifacts addressed by their content, and a cache of task outputs.
use crate::error::{AdapterError, AdapterErrorView};
use crate::ids::{ArtifactId, CacheKey, TaskId};
use crate::json::{self, encode, error_text};
use crate::ordered::OrderedMap;
use crate::task::{TaskSpec, TaskSpecView};
use crate::text::{self, hex_digest, join2, same_text};
use crate::views;
use serde_json::Value;
use sha2::{Digest, Sha256};
use vstd::prelude::*;
use vstd::string::*;

verus! {

/// The SHA-256 digest of some bytes.
pub uninterp spec fn sha256_digest(bytes: Seq<u8>) -> Seq<u8>;

/// `Sha256::digest`: the digest of the bytes, which is 32 bytes long.
#[verifier::external_body]
fn sha256(bytes: &[u8]) -> (digest: Vec<u8>)
    ensures
        digest@ == sha256_digest(bytes@),
        digest@.len() == 32,
{
    Sha256::digest(bytes).to_vec()
}

/// Metadata attached to an immutable artifact.
#[derive(Debug, PartialEq, Eq)]
pub struct ArtifactMetadata {
    pub media_type: String,
    pub metadata: OrderedMap<String, String>,
}

/// What a `ArtifactMetadata` holds.
#[verifier::ext_equal]
pub struct ArtifactMetadataView {
    pub media_type: Seq<char>,
    pub metadata: Map<Seq<char>, Seq<char>>,
}

impl View for ArtifactMetadata {
    type V = ArtifactMetadataView;

    open spec fn view(&self) -> ArtifactMetadataView {
        ArtifactMetadataView {
            media_type: self.media_type@,
            metadata: views::map_views(self.metadata@),
        }
    }
}

impl Clone for ArtifactMetadata {
    fn clone(&self) -> (copy: Self)
        ensures
            copy@ == self@,
    {
        let copy = ArtifactMetadata {
            media_type: self.media_type.clone(),
            metadata: self.metadata.clone(),
        };
        proof {
            views::lemma_cloned_map(self.metadata@, copy.metadata@);
        }
        copy
    }
}


impl Default for ArtifactMetadata {
    fn default() -> (metadata: Self)
        ensures
            metadata@ == (ArtifactMetadataView { media_type: Seq::empty(), metadata: Map::empty() }),
    {
        let metadata: OrderedMap<String, String> = OrderedMap::new();
        assert(views::map_views(metadata@) =~= Map::<Seq<char>, Seq<char>>::empty());
        let media_type = String::new();
        assert(media_type@ =~= Seq::<char>::empty());
        ArtifactMetadata { media_type, metadata }
    }
}

/// A content-addressed reference suitable for workflow inputs and outputs.
#[derive(Debug, PartialEq, Eq)]
pub struct ArtifactRef {
    pub id: ArtifactId,
    pub sha256: String,
    pub size_bytes: u64,
    pub metadata: ArtifactMetadata,
}

/// What a `ArtifactRef` holds.
#[verifier::ext_equal]
pub struct ArtifactRefView {
    pub id: Seq<char>,
    pub sha256: Seq<char>,
    pub size_bytes: u64,
    pub metadata: ArtifactMetadataView,
}

impl View for ArtifactRef {
    type V = ArtifactRefView;

    open spec fn view(&self) -> ArtifactRefView {
        ArtifactRefView {
            id: self.id@,
            sha256: self.sha256@,
            size_bytes: self.size_bytes,
            metadata: self.metadata@,
        }
    }
}

impl Clone for ArtifactRef {
    fn clone(&self) -> (copy: Self)
        ensures
            copy@ == self@,
    {
        let copy = ArtifactRef {
            id: self.id.clone(),
            sha256: self.sha256.clone(),
            size_bytes: self.size_bytes,
            metadata: self.metadata.clone(),
        };
        copy
    }
}


impl ArtifactRefView {
    /// The reference to an artifact with the given digest.
    pub open spec fn of(
        digest: Seq<u8>,
        size_bytes: u64,
        metadata: ArtifactMetadataView,
    ) -> ArtifactRefView {
        ArtifactRefView {
            id: "sha256-"@ + text::hex(digest),
            sha256: text::hex(digest),
            size_bytes,
            metadata,
        }
    }
}

impl ArtifactRef {
    /// The reference to an artifact with the given digest.
    pub fn for_digest(digest: &[u8], size_bytes: u64, metadata: ArtifactMetadata) -> (made: Result<
        Self,
        AdapterError,
    >)
        ensures
            made matches Ok(reference) && reference@ == ArtifactRefView::of(
                digest@,
                size_bytes,
                metadata@,
            ),
    {
        let sha256 = hex_digest(digest);
        proof {
            reveal_strlit("sha256-");
            assert(!text::white_space("sha256-"@[0]));
            text::lemma_not_blank("sha256-"@, sha256@);
        }
        match ArtifactId::new(join2("sha256-", sha256.as_str())) {
            Ok(id) => Ok(ArtifactRef { id, sha256, size_bytes, metadata }),
            Err(error) => Err(AdapterError::new("memory-artifact", error.message())),
        }
    }
}

/// A deterministic cache key for a task invocation.
#[derive(Debug, PartialEq, Eq, Hash)]
pub struct TaskCacheKey {
    pub key: CacheKey,
    pub task: TaskId,
    pub task_version: String,
}

/// What a `TaskCacheKey` holds.
#[verifier::ext_equal]
pub struct TaskCacheKeyView {
    pub key: Seq<char>,
    pub task: Seq<char>,
    pub task_version: Seq<char>,
}

impl View for TaskCacheKey {
    type V = TaskCacheKeyView;

    open spec fn view(&self) -> TaskCacheKeyView {
        TaskCacheKeyView {
            key: self.key@,
            task: self.task@,
            task_version: self.task_version@,
        }
    }
}

impl Clone for TaskCacheKey {
    fn clone(&self) -> (copy: Self)
        ensures
            copy@ == self@,
    {
        let copy = TaskCacheKey {
            key: self.key.clone(),
            task: self.task.clone(),
            task_version: self.task_version.clone(),
        };
        copy
    }
}


impl TaskCacheKeyView {
    /// The key of a task's invocation on an input with the given digest.
    pub open spec fn of(task: TaskSpecView, digest: Seq<u8>) -> TaskCacheKeyView {
        TaskCacheKeyView {
            key: task.id + "@"@ + task.version + ":"@ + text::hex(digest),
            task: task.id,
            task_version: task.version,
        }
    }
}

impl TaskCacheKey {
    /// The key of a task's invocation on an input with the given digest.
    pub fn for_digest(task: &TaskSpec, digest: &[u8]) -> (made: Result<Self, AdapterError>)
        ensures
            made matches Ok(key) && key@ == TaskCacheKeyView::of(task@, digest@),
    {
        let mut key = task.id.as_str().to_owned();
        key.append("@");
        key.append(task.version.as_str());
        key.append(":");
        key.append(hex_digest(digest).as_str());
        proof {
            text::lemma_not_blank(task.id@, "@"@);
            text::lemma_not_blank(task.id@ + "@"@, task.version@);
            text::lemma_not_blank(task.id@ + "@"@ + task.version@, ":"@);
            text::lemma_not_blank(task.id@ + "@"@ + task.version@ + ":"@, text::hex(digest@));
        }
        match CacheKey::new(key) {
            Ok(key) => Ok(
                TaskCacheKey { key, task: task.id.clone(), task_version: task.version.clone() },
            ),
            Err(error) => Err(AdapterError::new("cache-key", error.message())),
        }
    }

    /// Derives a key from the task identity and its JSON input: its identity, its
    /// version, and the digest of the bytes of the input. There is none where the
    /// input cannot be written out.
    pub fn for_input(task: &TaskSpec, input: &Value) -> (made: Result<Self, AdapterError>)
        ensures
            match (made, json::json_encoding(*input)) {
                (Ok(key), Ok(bytes)) => {
                    &&& key@ == TaskCacheKeyView::of(task@, sha256_digest(bytes))
                    &&& sha256_digest(bytes).len() == 32
                },
                (Err(error), Err(reason)) => error@ == (AdapterErrorView {
                    adapter: "cache-key"@,
                    message: json::json_error_text(reason),
                }),
                _ => false,
            },
    {
        match encode(input) {
            Ok(bytes) => TaskCacheKey::for_digest(task, sha256(bytes.as_slice()).as_slice()),
            Err(error) => Err(AdapterError::new("cache-key", error_text(&error))),
        }
    }
}

/// An artifact together with its bytes.
pub struct StoredArtifact {
    pub reference: ArtifactRef,
    pub bytes: Vec<u8>,
}

/// What a `StoredArtifact` holds.
#[verifier::ext_equal]
pub struct StoredArtifactView {
    pub reference: ArtifactRefView,
    pub bytes: Seq<u8>,
}

impl View for StoredArtifact {
    type V = StoredArtifactView;

    open spec fn view(&self) -> StoredArtifactView {
        StoredArtifactView { reference: self.reference@, bytes: self.bytes@ }
    }
}

/// Deterministic process-local artifact storage used by tests and local runs.
pub struct InMemoryArtifactStore {
    artifacts: OrderedMap<ArtifactId, StoredArtifact>,
}

impl View for InMemoryArtifactStore {
    type V = Map<Seq<char>, StoredArtifactView>;

    closed spec fn view(&self) -> Map<Seq<char>, StoredArtifactView> {
        views::map_views(self.artifacts@)
    }
}

/// The bytes that a store gives out for a reference: those kept under its id, if
/// they have its digest.
pub open spec fn bytes_for(
    store: Map<Seq<char>, StoredArtifactView>,
    artifact: ArtifactRefView,
) -> Option<Seq<u8>> {
    if store.contains_key(artifact.id) && store[artifact.id].reference.sha256 == artifact.sha256 {
        Some(store[artifact.id].bytes)
    } else {
        None
    }
}

impl InMemoryArtifactStore {
    /// An empty store.
    pub fn new() -> (store: Self)
        ensures
            store@ == Map::<Seq<char>, StoredArtifactView>::empty(),
    {
        let store = InMemoryArtifactStore { artifacts: OrderedMap::new() };
        assert(store@ =~= Map::<Seq<char>, StoredArtifactView>::empty());
        store
    }

    /// Keeps bytes under the given digest, in place of what was there.
    pub fn put_digested(
        &mut self,
        digest: &[u8],
        bytes: Vec<u8>,
        metadata: ArtifactMetadata,
    ) -> (stored: Result<ArtifactRef, AdapterError>)
        ensures
            ({
                let reference = ArtifactRefView::of(digest@, bytes@.len() as u64, metadata@);
                &&& stored matches Ok(artifact) && artifact@ == reference
                &&& final(self)@ == old(self)@.insert(
                    reference.id,
                    StoredArtifactView { reference, bytes: bytes@ },
                )
            }),
    {
        match ArtifactRef::for_digest(digest, bytes.len() as u64, metadata) {
            Ok(reference) => {
                let kept = StoredArtifact { reference: reference.clone(), bytes };
                proof {
                    views::lemma_map_views_insert(self.artifacts@, reference@.id, kept);
                }
                self.artifacts.insert(reference.id.clone(), kept);
                Ok(reference)
            },
            Err(error) => Err(error),
        }
    }

    /// Keeps bytes under their SHA-256 digest, which has 32 bytes and is written with
    /// 64 digits.
    pub fn put(&mut self, bytes: Vec<u8>, metadata: ArtifactMetadata) -> (stored: Result<
        ArtifactRef,
        AdapterError,
    >)
        ensures
            ({
                let reference = ArtifactRefView::of(
                    sha256_digest(bytes@),
                    bytes@.len() as u64,
                    metadata@,
                );
                &&& sha256_digest(bytes@).len() == 32
                &&& reference.sha256.len() == 64
                &&& stored matches Ok(artifact) && artifact@ == reference
                &&& final(self)@ == old(self)@.insert(
                    reference.id,
                    StoredArtifactView { reference, bytes: bytes@ },
                )
            }),
    {
        let digest = sha256(bytes.as_slice());
        self.put_digested(digest.as_slice(), bytes, metadata)
    }

    /// The bytes of an artifact, if the store has them.
    pub fn get(&self, artifact: &ArtifactRef) -> (found: Result<Option<Vec<u8>>, AdapterError>)
        ensures
            found matches Ok(bytes) && views::some_view(bytes) == bytes_for(self@, artifact@),
    {
        match self.artifacts.get(&artifact.id) {
            Some(stored) => {
                if same_text(stored.reference.sha256.as_str(), artifact.sha256.as_str()) {
                    let bytes = stored.bytes.clone();
                    assert(bytes@ =~= stored.bytes@);
                    Ok(Some(bytes))
                } else {
                    Ok(None)
                }
            },
            None => Ok(None),
        }
    }
}

impl Default for InMemoryArtifactStore {
    fn default() -> (store: Self)
        ensures
            store@ == Map::<Seq<char>, StoredArtifactView>::empty(),
    {
        InMemoryArtifactStore::new()
    }
}

/// Process-local cache implementation for deterministic task outputs.
pub struct InMemoryTaskCache {
    values: OrderedMap<CacheKey, Value>,
}

impl View for InMemoryTaskCache {
    type V = Map<Seq<char>, Value>;

    closed spec fn view(&self) -> Map<Seq<char>, Value> {
        self.values@
    }
}

impl InMemoryTaskCache {
    /// An empty cache.
    pub fn new() -> (cache: Self)
        ensures
            cache@ == Map::<Seq<char>, Value>::empty(),
    {
        InMemoryTaskCache { values: OrderedMap::new() }
    }

    /// The output that was kept for a key.
    pub fn get(&self, key: &TaskCacheKey) -> (found: Result<Option<Value>, AdapterError>)
        ensures
            found matches Ok(output) && output == (if self@.contains_key(key@.key) {
                Some(self@[key@.key])
            } else {
                None
            }),
    {
        match self.values.get(&key.key) {
            Some(value) => Ok(Some(value.clone())),
            None => Ok(None),
        }
    }

    /// Keeps an output for a key, in place of what was there.
    pub fn put(&mut self, key: TaskCacheKey, output: Value) -> (stored: Result<(), AdapterError>)
        ensures
            stored is Ok,
            final(self)@ == old(self)@.insert(key@.key, output),
    {
        self.values.insert(key.key, output);
        Ok(())
    }
}

impl Default for InMemoryTaskCache {
    fn default() -> (cache: Self)
        ensures
            cache@ == Map::<Seq<char>, Value>::empty(),
    {
        InMemoryTaskCache::new()
    }
}

} // verus!
