//! The configuration: a value that is built once at startup and handed to
//! whoever needs it.

use vstd::prelude::*;

verus! {

/// Where records are kept when the configuration names a file.
pub struct LocalFileConfig {
    pub path: String,
}

/// Where records are kept when the configuration names a Qdrant collection.
pub struct QdrantConfig {
    pub url: String,
    pub collection_name: String,
    pub api_key: Option<String>,
}

/// The storage section: the kind of storage, and the settings of each kind.
pub struct StorageConfig {
    pub storage_type: String,
    pub local_file: LocalFileConfig,
    pub qdrant: QdrantConfig,
}

/// The stream section: the endpoint, and how it is read and sampled.
pub struct StreamConfig {
    pub url: String,
    pub num_images: usize,
    pub interval_millis: u64,
    pub chunk_size: usize,
}

/// The model section.
pub struct ModelConfig {
    pub name: String,
    pub embedding_size: usize,
}

/// The whole configuration.
pub struct Config {
    pub storage: StorageConfig,
    pub stream: StreamConfig,
    pub model: ModelConfig,
}

/// The storage that records go to.
pub enum StorageType {
    /// A JSON file at this path.
    LocalFile(String),
    /// A collection of a Qdrant server.
    Qdrant { url: String, collection_name: String, api_key: Option<String> },
}

/// A storage choice with its strings taken by their views.
pub enum StorageTypeView {
    LocalFile(Seq<char>),
    Qdrant { url: Seq<char>, collection_name: Seq<char>, api_key: Option<Seq<char>> },
}

impl View for StorageType {
    type V = StorageTypeView;

    open spec fn view(&self) -> StorageTypeView {
        match *self {
            StorageType::LocalFile(path) => StorageTypeView::LocalFile(path@),
            StorageType::Qdrant { url, collection_name, api_key } => StorageTypeView::Qdrant {
                url: url@,
                collection_name: collection_name@,
                api_key: match api_key {
                    Some(key) => Some(key@),
                    None => None,
                },
            },
        }
    }
}

/// Whether `name` is a kind of storage that the configuration knows.
pub open spec fn is_storage_kind(name: Seq<char>) -> bool {
    name == "local_file"@ || name == "qdrant"@
}

/// The storage that a configuration chooses: the file or the collection it
/// names, and the file `embeddings.json` where it names a kind that is not
/// known.
pub open spec fn storage_choice(config: Config) -> StorageTypeView {
    if config.storage.storage_type@ == "local_file"@ {
        StorageTypeView::LocalFile(config.storage.local_file.path@)
    } else if config.storage.storage_type@ == "qdrant"@ {
        StorageTypeView::Qdrant {
            url: config.storage.qdrant.url@,
            collection_name: config.storage.qdrant.collection_name@,
            api_key: match config.storage.qdrant.api_key {
                Some(key) => Some(key@),
                None => None,
            },
        }
    } else {
        StorageTypeView::LocalFile("embeddings.json"@)
    }
}

/// Whether the configuration names a kind of storage that is known.
pub fn storage_kind_known(config: &Config) -> (known: bool)
    ensures
        known == is_storage_kind(config.storage.storage_type@),
{
    config.storage.storage_type == "local_file".to_owned() || config.storage.storage_type
        == "qdrant".to_owned()
}

/// The storage that the configuration chooses.
pub fn get_storage_config(config: &Config) -> (storage: StorageType)
    ensures
        storage@ == storage_choice(*config),
{
    if config.storage.storage_type == "local_file".to_owned() {
        StorageType::LocalFile(config.storage.local_file.path.clone())
    } else if config.storage.storage_type == "qdrant".to_owned() {
        StorageType::Qdrant {
            url: config.storage.qdrant.url.clone(),
            collection_name: config.storage.qdrant.collection_name.clone(),
            api_key: match &config.storage.qdrant.api_key {
                Some(key) => Some(key.clone()),
                None => None,
            },
        }
    } else {
        StorageType::LocalFile("embeddings.json".to_owned())
    }
}

/// The address of the stream endpoint.
pub fn get_stream_url(config: &Config) -> (url: &str)
    ensures
        url@ == config.stream.url@,
{
    config.stream.url.as_str()
}

/// How many samples are to be collected.
pub fn get_num_images(config: &Config) -> (count: usize)
    ensures
        count == config.stream.num_images,
{
    config.stream.num_images
}

/// The pause between two samples, in milliseconds.
pub fn get_interval_millis(config: &Config) -> (millis: u64)
    ensures
        millis == config.stream.interval_millis,
{
    config.stream.interval_millis
}

/// How many bytes one network read asks for.
pub fn get_chunk_size(config: &Config) -> (size: usize)
    ensures
        size == config.stream.chunk_size,
{
    config.stream.chunk_size
}

/// The name of the embedding model.
pub fn get_model_name(config: &Config) -> (name: &str)
    ensures
        name@ == config.model.name@,
{
    config.model.name.as_str()
}

/// The length of the embedding vectors that the model produces.
pub fn get_embedding_size(config: &Config) -> (size: usize)
    ensures
        size == config.model.embedding_size,
{
    config.model.embedding_size
}

} // verus!
