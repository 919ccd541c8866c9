use vstd::prelude::*;

verus! {

/// The semantic-index section of the host's configuration.
pub struct SemanticIndexSettings {
    /// Master switch for the index.
    pub enabled: bool,
    /// GPU embedding options; absent when embeddings stay remote.
    pub gpu_embeddings: Option<GpuEmbeddingsSettings>,
}

/// The recognized GPU embedding options, as plain configuration values.
pub struct GpuEmbeddingsSettings {
    /// Route embeddings through the GPU provider.
    pub enabled: bool,
    /// Local path to the model directory; when absent the provider downloads
    /// into its cache directory.
    pub model_path: Option<String>,
    /// `"auto"`, `"cuda"`, `"metal"` or `"cpu"`.
    pub device: String,
    /// Micro-batch size.
    pub batch_size: usize,
    /// `"none"` or `"int8"`.
    pub quantization: String,
    /// Base URL of the vector store.
    pub qdrant_url: String,
}

impl Default for SemanticIndexSettings {
    /// Enabled, with no GPU embedding options.
    fn default() -> (r: Self)
        ensures
            r.enabled == true,
            r.gpu_embeddings is None,
    {
        SemanticIndexSettings { enabled: true, gpu_embeddings: None }
    }
}

impl Default for GpuEmbeddingsSettings {
    /// Disabled, automatic device, micro-batches of thirty-two, int8
    /// weights, and the local default store endpoint.
    fn default() -> (r: Self)
        ensures
            r.enabled == false,
            r.model_path is None,
            r.device@ == "auto"@,
            r.batch_size == 32,
            r.quantization@ == "int8"@,
            r.qdrant_url@ == "http://localhost:6334"@,
    {
        GpuEmbeddingsSettings {
            enabled: false,
            model_path: None,
            device: "auto".to_owned(),
            batch_size: 32,
            quantization: "int8".to_owned(),
            qdrant_url: "http://localhost:6334".to_owned(),
        }
    }
}

} // verus!
