//! The node: one content store and one file registry, with the state
//! machine that gates the mutating verbs. Reading files, writing objects and
//! persisting the registry are the caller's part, between these steps.
use vstd::prelude::*;
use crate::address::{ContentAddress, ContentAddressError};
use crate::chunk::{chunk_of, chunk_pieces, ChunkConfig, Chunk};
use crate::config::{LogLevel, NodeState};
use crate::registry::{registered, short_id_of, uuid_string, uuid_text, FileId, FileMetadata, FileRecord, FileRegistry};
use crate::store::{ContentStore, ContentStoreConfig, ContentStoreError};
use crate::text::{join, join_path};

verus! {

#[verifier::external_type_specification]
#[verifier::external_body]
pub struct ExJsonError(serde_json::Error);

/// Errors of node operations.
#[derive(Debug)]
pub enum NodeError {
    Storage(ContentStoreError),
    Io(std::io::Error),
    ContentAddress(ContentAddressError),
    Serialization(serde_json::Error),
    ContentNotFound,
    NotRunning,
    General(String),
}

/// A node.
pub struct Node {
    pub id: u128,
    pub state: NodeState,
    pub address: String,
    pub port: u16,
    pub storage_dir: String,
    pub log_level: LogLevel,
    pub daemon_mode: bool,
    pub content_store: ContentStore,
    pub file_registry: FileRegistry,
}

impl Node {
    /// The node's storage directory, `<nebula_dir>/node<uuid>`.
    pub fn storage_path(nebula_dir: &str, id: u128) -> (r: String)
        ensures
            r@ == join_path(nebula_dir@, "node"@ + uuid_text(id)),
    {
        let mut name = "node".to_owned();
        let text = uuid_string(id);
        name.append(text.as_str());
        join(nebula_dir, name.as_str())
    }

    /// The content store's configuration under a storage directory: its
    /// `content` subdirectory, default chunking, verification on read.
    pub fn content_config(storage_dir: &str) -> (r: ContentStoreConfig)
        ensures
            r.storage_path@ == join_path(storage_dir@, "content"@),
            r.chunk_config == ChunkConfig::default_spec(),
            r.verify_on_read,
    {
        ContentStoreConfig {
            storage_path: join(storage_dir, "content"),
            chunk_config: ChunkConfig::default(),
            verify_on_read: true,
        }
    }

    /// A stopped node over `storage_dir`, with the registry loaded from it.
    pub fn new(
        address: String,
        port: u16,
        log_level: LogLevel,
        daemon_mode: bool,
        id: u128,
        storage_dir: String,
        file_registry: FileRegistry,
    ) -> (r: Node)
        requires
            file_registry.wf(),
        ensures
            r.wf(),
            r.id == id,
            r.state == NodeState::Stopped,
            r.address@ == address@,
            r.port == port,
            r.storage_dir@ == storage_dir@,
            r.log_level == log_level,
            r.daemon_mode == daemon_mode,
            r.content_store.spec_config().storage_path@ == join_path(storage_dir@, "content"@),
            r.file_registry.files() == file_registry.files(),
    {
        let content_store = ContentStore::new(Self::content_config(storage_dir.as_str()));
        Node {
            id,
            state: NodeState::Stopped,
            address,
            port,
            storage_dir,
            log_level,
            daemon_mode,
            content_store,
            file_registry,
        }
    }

    /// The registry is well formed and the store chunks with a valid
    /// configuration.
    pub open spec fn wf(&self) -> bool {
        &&& self.file_registry.wf()
        &&& self.content_store.spec_config().chunk_config.wf()
    }

    /// Stopped, through Starting, to Running.
    pub fn start(&mut self) -> (r: Result<(), NodeError>)
        ensures
            r is Ok,
            final(self).state == NodeState::Running,
            final(self).id == old(self).id,
            final(self).file_registry.files() == old(self).file_registry.files(),
            final(self).file_registry.wf() == old(self).file_registry.wf(),
            final(self).content_store.spec_config() == old(self).content_store.spec_config(),
    {
        self.state = NodeState::Starting;
        self.state = NodeState::Running;
        Ok(())
    }

    /// Running, through Stopping, to Stopped.
    pub fn stop(&mut self) -> (r: Result<(), NodeError>)
        ensures
            r is Ok,
            final(self).state == NodeState::Stopped,
            final(self).id == old(self).id,
            final(self).file_registry.files() == old(self).file_registry.files(),
            final(self).file_registry.wf() == old(self).file_registry.wf(),
            final(self).content_store.spec_config() == old(self).content_store.spec_config(),
    {
        self.state = NodeState::Stopping;
        self.state = NodeState::Stopped;
        Ok(())
    }

    pub fn is_running(&self) -> (r: bool)
        ensures
            r == (self.state == NodeState::Running),
    {
        match self.state {
            NodeState::Running => true,
            _ => false,
        }
    }

    pub fn get_status(&self) -> (r: &NodeState)
        ensures
            *r == self.state,
    {
        &self.state
    }

    /// The chunks that storing `data` writes; refused unless running.
    pub fn chunks_to_store(&self, data: &[u8]) -> (r: Result<Vec<Chunk>, NodeError>)
        requires
            self.wf(),
        ensures
            self.state != NodeState::Running ==> r matches Err(NodeError::NotRunning),
            self.state == NodeState::Running ==> (r matches Ok(cs) && cs@.len() == chunk_pieces(
                self.content_store.spec_config().chunk_config,
                data@,
            ).len() && forall|i: int|
                0 <= i < cs@.len() ==> #[trigger] cs@[i]@ == chunk_of(
                    chunk_pieces(self.content_store.spec_config().chunk_config, data@)[i],
                )),
    {
        if !self.is_running() {
            return Err(NodeError::NotRunning);
        }
        Ok(self.content_store.put_data(data))
    }

    /// Register a file whose chunks are stored; refused unless running. The
    /// caller then persists the registry.
    pub fn register_stored(&mut self, original_name: String, addresses: Vec<ContentAddress>, total_size: u64) -> (r: Result<FileMetadata, NodeError>)
        requires
            old(self).wf(),
        ensures
            final(self).wf(),
            final(self).state == old(self).state,
            old(self).state != NodeState::Running ==> (r matches Err(NodeError::NotRunning)
                && final(self).file_registry.files() == old(self).file_registry.files()),
            old(self).state == NodeState::Running ==> (r matches Ok(m) && m.original_name@ == original_name@
                && m.chunk_addresses@ == addresses@ && m.total_size == total_size && m.wf()
                && final(self).file_registry.files() == registered(old(self).file_registry.files(), m@)),
    {
        if !self.is_running() {
            return Err(NodeError::NotRunning);
        }
        Ok(self.file_registry.register_file(original_name, addresses, total_size))
    }

    /// The metadata of the file with `file_id`; refused unless running.
    pub fn file_by_id(&self, file_id: &FileId) -> (r: Result<&FileMetadata, NodeError>)
        requires
            self.wf(),
        ensures
            self.state != NodeState::Running ==> r matches Err(NodeError::NotRunning),
            self.state == NodeState::Running ==> match FileRegistry::index_of(self.file_registry.files(), *file_id) {
                Some(i) => r matches Ok(m) && m@ == self.file_registry.files()[i],
                None => r matches Err(NodeError::General(msg)) && msg@ == "File not found: "@ + uuid_text(*file_id),
            },
    {
        if !self.is_running() {
            return Err(NodeError::NotRunning);
        }
        match self.file_registry.get_file(file_id) {
            Some(m) => Ok(m),
            None => {
                let mut msg = "File not found: ".to_owned();
                let text = uuid_string(*file_id);
                msg.append(text.as_str());
                Err(NodeError::General(msg))
            },
        }
    }

    /// The first file whose short id is `short_id`; refused unless running.
    pub fn file_by_short_id(&self, short_id: &str) -> (r: Result<&FileMetadata, NodeError>)
        ensures
            self.state != NodeState::Running ==> r matches Err(NodeError::NotRunning),
            self.state == NodeState::Running ==> match r {
                Ok(m) => exists|i: int|
                    0 <= i < self.file_registry.files().len() && self.file_registry.files()[i] == m@
                        && short_id_of(m.id) == short_id@ && forall|j: int|
                        0 <= j < i ==> short_id_of(#[trigger] self.file_registry.files()[j].id) != short_id@,
                Err(e) => e matches NodeError::General(msg) && msg@ == "File not found with short ID: "@ + short_id@
                    && forall|j: int|
                    0 <= j < self.file_registry.files().len() ==> short_id_of(
                        #[trigger] self.file_registry.files()[j].id,
                    ) != short_id@,
            },
    {
        if !self.is_running() {
            return Err(NodeError::NotRunning);
        }
        match self.file_registry.get_file_by_short_id(short_id) {
            Some(m) => Ok(m),
            None => {
                let mut msg = "File not found with short ID: ".to_owned();
                msg.append(short_id);
                Err(NodeError::General(msg))
            },
        }
    }

    /// Whether a mutating or retrieving verb may proceed: only while running.
    pub fn check_running(&self) -> (r: Result<(), NodeError>)
        ensures
            r is Ok <==> self.state == NodeState::Running,
            r matches Err(e) ==> e is NotRunning,
    {
        if self.is_running() {
            Ok(())
        } else {
            Err(NodeError::NotRunning)
        }
    }
}

} // verus!
