use vstd::prelude::*;
use vstd::string::*;

use crate::strutil::push_char;

verus! {

/// Dimension of the reference model's vectors.
pub const EMBEDDING_DIM: usize = 1536;

/// Longest token sequence one forward pass accepts.
pub const MAX_SEQUENCE_LENGTH: usize = 8192;

/// Which device the encoder should run on.
#[derive(Debug, Clone, PartialEq, Eq, Structural)]
pub enum GpuDevice {
    Auto,
    Cuda(usize),
    Metal,
    Cpu,
}

/// How the model weights are stored on disk.
#[derive(Debug, Clone, PartialEq, Eq, Structural)]
pub enum QuantizationType {
    Unquantized,
    Int8,
}

/// Configuration of the GPU embedding provider.
pub struct GpuEmbeddingSettings {
    /// Local directory holding the tokenizer, config and weights; when
    /// absent, the provider downloads into its cache directory.
    pub model_path: Option<String>,
    pub device: GpuDevice,
    pub batch_size: usize,
    pub quantization: QuantizationType,
}

impl Default for GpuEmbeddingSettings {
    /// No model path, automatic device choice, micro-batches of thirty-two,
    /// int8 weights.
    fn default() -> (r: Self)
        ensures
            r.model_path is None,
            r.device == GpuDevice::Auto,
            r.batch_size == 32,
            r.quantization == QuantizationType::Int8,
    {
        GpuEmbeddingSettings {
            model_path: None,
            device: GpuDevice::Auto,
            batch_size: 32,
            quantization: QuantizationType::Int8,
        }
    }
}

/// A concrete device, after the automatic choice is resolved.
#[derive(Debug, Clone, PartialEq, Eq, Structural)]
pub enum SelectedDevice {
    Cuda(usize),
    Metal,
    Cpu,
}

/// The device a preference resolves to, given what the machine offers.
pub open spec fn spec_select_device(
    pref: GpuDevice,
    cuda_available: bool,
    metal_available: bool,
) -> SelectedDevice {
    match pref {
        GpuDevice::Auto => if cuda_available {
            SelectedDevice::Cuda(0)
        } else if metal_available {
            SelectedDevice::Metal
        } else {
            SelectedDevice::Cpu
        },
        GpuDevice::Cuda(k) => SelectedDevice::Cuda(k),
        GpuDevice::Metal => SelectedDevice::Metal,
        GpuDevice::Cpu => SelectedDevice::Cpu,
    }
}

/// Resolve the configured device: `Auto` takes the first CUDA device if one
/// is available, else Metal if available, else the CPU; an explicit choice
/// is taken as it stands (and fails later, when the device is opened, if the
/// machine lacks it).
pub fn select_device(pref: &GpuDevice, cuda_available: bool, metal_available: bool) -> (r:
    SelectedDevice)
    ensures
        r == spec_select_device(*pref, cuda_available, metal_available),
{
    match pref {
        GpuDevice::Auto => {
            if cuda_available {
                SelectedDevice::Cuda(0)
            } else if metal_available {
                SelectedDevice::Metal
            } else {
                SelectedDevice::Cpu
            }
        },
        GpuDevice::Cuda(k) => SelectedDevice::Cuda(*k),
        GpuDevice::Metal => SelectedDevice::Metal,
        GpuDevice::Cpu => SelectedDevice::Cpu,
    }
}

/// The weights file each quantization reads.
pub fn weights_file_name(q: &QuantizationType) -> (r: String)
    ensures
        *q == QuantizationType::Int8 ==> r@ == "model.q8_0.gguf"@,
        *q == QuantizationType::Unquantized ==> r@ == "model.safetensors"@,
{
    match q {
        QuantizationType::Int8 => "model.q8_0.gguf".to_owned(),
        QuantizationType::Unquantized => "model.safetensors".to_owned(),
    }
}

/// A model id with every `/` replaced by `--`, reading from position `i`:
/// the directory name the model is cached under.
pub open spec fn spec_model_dir_from(s: Seq<char>, i: int) -> Seq<char>
    decreases s.len() - i,
    when 0 <= i <= s.len()
{
    if i >= s.len() {
        Seq::empty()
    } else {
        (if s[i] == '/' {
            seq!['-', '-']
        } else {
            seq![s[i]]
        }) + spec_model_dir_from(s, i + 1)
    }
}

/// The directory name a model id is cached under: the id with every `/`
/// replaced by `--`.
pub fn model_dir_name(model_id: &str) -> (r: String)
    ensures
        r@ == spec_model_dir_from(model_id@, 0),
{
    let n = model_id.unicode_len();
    let mut out = String::new();
    let mut i: usize = 0;
    while i < n
        invariant
            i <= n,
            n == model_id@.len(),
            spec_model_dir_from(model_id@, 0) == out@ + spec_model_dir_from(model_id@, i as int),
        decreases n - i,
    {
        let ghost prev = out@;
        let c = model_id.get_char(i);
        if c == '/' {
            push_char(&mut out, '-');
            push_char(&mut out, '-');
            proof {
                assert(out@ =~= prev + seq!['-', '-']);
            }
        } else {
            push_char(&mut out, c);
            proof {
                assert(out@ =~= prev + seq![model_id@[i as int]]);
            }
        }
        proof {
            assert(prev + spec_model_dir_from(model_id@, i as int) =~= out@ + spec_model_dir_from(
                model_id@,
                i + 1,
            ));
        }
        i = i + 1;
    }
    proof {
        assert(out@ + spec_model_dir_from(model_id@, i as int) =~= out@);
    }
    out
}

/// The micro-batches one `embed` call submits: groups of `bs` texts, in
/// input order, only the last group smaller.
pub open spec fn spec_batches(ts: Seq<Seq<char>>, bs: int) -> Seq<Seq<Seq<char>>>
    decreases ts.len(),
    when 1 <= bs
{
    if ts.len() == 0 {
        Seq::empty()
    } else if ts.len() <= bs {
        seq![ts]
    } else {
        seq![ts.take(bs)] + spec_batches(ts.skip(bs), bs)
    }
}

/// Partition texts into micro-batches of at most `batch_size`, preserving
/// input order.
pub fn split_into_batches(texts: Vec<String>, batch_size: usize) -> (r: Vec<Vec<String>>)
    requires
        1 <= batch_size,
    ensures
        r.deep_view() == spec_batches(texts.deep_view(), batch_size as int),
{
    let ghost orig = texts.deep_view();
    let mut rest = texts;
    let mut batches: Vec<Vec<String>> = Vec::new();
    while rest.len() > batch_size
        invariant
            1 <= batch_size,
            spec_batches(orig, batch_size as int) == batches.deep_view() + spec_batches(
                rest.deep_view(),
                batch_size as int,
            ),
        decreases rest@.len(),
    {
        let ghost before = rest.deep_view();
        let ghost prev = batches.deep_view();
        let tail = rest.split_off(batch_size);
        proof {
            assert(rest.deep_view() =~= before.take(batch_size as int));
            assert(tail.deep_view() =~= before.skip(batch_size as int));
        }
        batches.push(rest);
        rest = tail;
        proof {
            assert(batches.deep_view() =~= prev.push(before.take(batch_size as int)));
            assert(prev + spec_batches(before, batch_size as int) =~= batches.deep_view()
                + spec_batches(rest.deep_view(), batch_size as int));
        }
    }
    if rest.len() > 0 {
        let ghost prev = batches.deep_view();
        let ghost last = rest.deep_view();
        batches.push(rest);
        proof {
            assert(spec_batches(last, batch_size as int) =~= seq![last]);
            assert(batches.deep_view() =~= prev.push(last));
            assert(prev + spec_batches(last, batch_size as int) =~= batches.deep_view());
        }
    } else {
        proof {
            assert(spec_batches(rest.deep_view(), batch_size as int) =~= Seq::empty());
            assert(batches.deep_view() + Seq::<Seq<Seq<char>>>::empty() =~= batches.deep_view());
        }
    }
    batches
}

/// The length of a batch's longest token row.
pub open spec fn spec_max_row_len(rows: Seq<Seq<u32>>) -> int
    decreases rows.len(),
{
    if rows.len() == 0 {
        0
    } else {
        let rest = spec_max_row_len(rows.drop_last());
        if rows.last().len() > rest {
            rows.last().len() as int
        } else {
            rest
        }
    }
}

/// The padded width of one batch: its longest row, capped at the model's
/// maximum sequence length.
pub open spec fn spec_batch_cols(rows: Seq<Seq<u32>>, cap: int) -> int {
    if spec_max_row_len(rows) <= cap {
        spec_max_row_len(rows)
    } else {
        cap
    }
}

/// One token row, truncated or right-padded with zeroes to `cols`.
pub open spec fn spec_padded_row(row: Seq<u32>, cols: int) -> Seq<u32> {
    Seq::new(cols as nat, |j: int| if j < row.len() { row[j] } else { 0u32 })
}

/// One attention-mask row: ones over the row's real tokens, zeroes over the
/// padding.
pub open spec fn spec_mask_row(row: Seq<u32>, cols: int) -> Seq<u32> {
    Seq::new(cols as nat, |j: int| if j < row.len() { 1u32 } else { 0u32 })
}

/// The padded token rows from `i` on, laid out row-major.
pub open spec fn spec_flat_ids_from(rows: Seq<Seq<u32>>, cols: int, i: int) -> Seq<u32>
    decreases rows.len() - i,
    when 0 <= i <= rows.len()
{
    if i >= rows.len() {
        Seq::empty()
    } else {
        spec_padded_row(rows[i], cols) + spec_flat_ids_from(rows, cols, i + 1)
    }
}

/// The attention-mask rows from `i` on, laid out row-major.
pub open spec fn spec_flat_mask_from(rows: Seq<Seq<u32>>, cols: int, i: int) -> Seq<u32>
    decreases rows.len() - i,
    when 0 <= i <= rows.len()
{
    if i >= rows.len() {
        Seq::empty()
    } else {
        spec_mask_row(rows[i], cols) + spec_flat_mask_from(rows, cols, i + 1)
    }
}

/// One tokenized micro-batch, ready for a forward pass: the token ids padded
/// row-major to a rectangle, and the matching attention mask.
pub struct PaddedBatch {
    pub ids: Vec<u32>,
    pub mask: Vec<u32>,
    pub rows: usize,
    pub cols: usize,
}

/// Copy one row, truncated or zero-padded to `cols`, appending `1`/`0` mask
/// cells alongside.
fn push_padded_row(ids: &mut Vec<u32>, mask: &mut Vec<u32>, row: &Vec<u32>, cols: usize)
    ensures
        final(ids)@ == old(ids)@ + spec_padded_row(row@, cols as int),
        final(mask)@ == old(mask)@ + spec_mask_row(row@, cols as int),
{
    let ghost ids0 = ids@;
    let ghost mask0 = mask@;
    let mut j: usize = 0;
    while j < cols
        invariant
            j <= cols,
            ids@ == ids0 + spec_padded_row(row@, cols as int).take(j as int),
            mask@ == mask0 + spec_mask_row(row@, cols as int).take(j as int),
        decreases cols - j,
    {
        let ghost pi = ids@;
        let ghost pm = mask@;
        if j < row.len() {
            ids.push(row[j]);
            mask.push(1u32);
        } else {
            ids.push(0u32);
            mask.push(0u32);
        }
        proof {
            assert(spec_padded_row(row@, cols as int).take(j + 1)
                =~= spec_padded_row(row@, cols as int).take(j as int).push(
                spec_padded_row(row@, cols as int)[j as int],
            ));
            assert(spec_mask_row(row@, cols as int).take(j + 1) =~= spec_mask_row(
                row@,
                cols as int,
            ).take(j as int).push(spec_mask_row(row@, cols as int)[j as int]));
            assert(ids@ =~= ids0 + spec_padded_row(row@, cols as int).take(j + 1));
            assert(mask@ =~= mask0 + spec_mask_row(row@, cols as int).take(j + 1));
        }
        j = j + 1;
    }
    proof {
        assert(spec_padded_row(row@, cols as int).take(cols as int) =~= spec_padded_row(
            row@,
            cols as int,
        ));
        assert(spec_mask_row(row@, cols as int).take(cols as int) =~= spec_mask_row(
            row@,
            cols as int,
        ));
    }
}

/// Pad one micro-batch of token rows into a rectangle: the width is the
/// longest row capped at the model's maximum sequence length, shorter rows
/// are right-padded with zeroes, longer ones truncated; the mask holds ones
/// over real tokens and zeroes over padding.
pub fn pad_batch(token_ids: &Vec<Vec<u32>>) -> (r: PaddedBatch)
    requires
        token_ids@.len() * 8192 <= usize::MAX,
    ensures
        r.rows == token_ids.deep_view().len(),
        r.cols == spec_batch_cols(token_ids.deep_view(), 8192),
        r.ids@ == spec_flat_ids_from(token_ids.deep_view(), r.cols as int, 0),
        r.mask@ == spec_flat_mask_from(token_ids.deep_view(), r.cols as int, 0),
{
    let ghost rows_v = token_ids.deep_view();
    let mut max_len: usize = 0;
    let mut i: usize = 0;
    while i < token_ids.len()
        invariant
            i <= token_ids@.len(),
            rows_v == token_ids.deep_view(),
            max_len as int == spec_max_row_len(rows_v.take(i as int)),
        decreases token_ids@.len() - i,
    {
        proof {
            assert(rows_v.take(i + 1).drop_last() =~= rows_v.take(i as int));
            assert(rows_v.take(i + 1).last() == rows_v[i as int]);
        }
        let row_len = token_ids[i].len();
        if row_len > max_len {
            max_len = row_len;
        }
        i = i + 1;
    }
    proof {
        assert(rows_v.take(rows_v.len() as int) =~= rows_v);
    }
    let cols = if max_len <= MAX_SEQUENCE_LENGTH {
        max_len
    } else {
        MAX_SEQUENCE_LENGTH
    };
    let mut ids: Vec<u32> = Vec::new();
    let mut mask: Vec<u32> = Vec::new();
    let mut k: usize = 0;
    proof {
        assert(ids@ =~= spec_flat_ids_from(rows_v, cols as int, 0).take(0));
    }
    while k < token_ids.len()
        invariant
            k <= token_ids@.len(),
            rows_v == token_ids.deep_view(),
            spec_flat_ids_from(rows_v, cols as int, 0) == ids@ + spec_flat_ids_from(
                rows_v,
                cols as int,
                k as int,
            ),
            spec_flat_mask_from(rows_v, cols as int, 0) == mask@ + spec_flat_mask_from(
                rows_v,
                cols as int,
                k as int,
            ),
        decreases token_ids@.len() - k,
    {
        let ghost pi = ids@;
        let ghost pm = mask@;
        push_padded_row(&mut ids, &mut mask, &token_ids[k], cols);
        proof {
            assert(pi + spec_flat_ids_from(rows_v, cols as int, k as int) =~= ids@
                + spec_flat_ids_from(rows_v, cols as int, k + 1));
            assert(pm + spec_flat_mask_from(rows_v, cols as int, k as int) =~= mask@
                + spec_flat_mask_from(rows_v, cols as int, k + 1));
        }
        k = k + 1;
    }
    proof {
        assert(ids@ + spec_flat_ids_from(rows_v, cols as int, k as int) =~= ids@);
        assert(mask@ + spec_flat_mask_from(rows_v, cols as int, k as int) =~= mask@);
    }
    PaddedBatch { ids, mask, rows: token_ids.len(), cols }
}

/// The flattened batch has exactly `rows * cols` cells.
pub proof fn lemma_flat_len(rows: Seq<Seq<u32>>, cols: int, i: int)
    requires
        0 <= i <= rows.len(),
        0 <= cols,
    ensures
        spec_flat_ids_from(rows, cols, i).len() == (rows.len() - i) * cols,
        spec_flat_mask_from(rows, cols, i).len() == (rows.len() - i) * cols,
    decreases rows.len() - i,
{
    if i < rows.len() {
        lemma_flat_len(rows, cols, i + 1);
        assert((rows.len() - i) * cols == cols + (rows.len() - (i + 1)) * cols) by (nonlinear_arith);
    }
}

// The tokenizer handle is opaque to the verifier.
#[verifier::external_type_specification]
#[verifier::external_body]
pub struct ExTokenizer(tokenizers::Tokenizer);

/// Why an embedding call failed before the forward pass.
#[derive(Debug)]
pub enum EmbedError {
    /// The tokenizer rejected the batch; the message is its own.
    Tokenization(String),
    /// So many texts that the padded rectangle could not be addressed.
    BatchTooLarge,
}

/// The token rows the tokenizer yields for `texts`, one row per text in
/// input order, or `None` when it rejects the batch: a function of the
/// tokenizer value and the texts alone.
pub uninterp spec fn spec_tokens_of(
    tokenizer: tokenizers::Tokenizer,
    texts: Seq<Seq<char>>,
) -> Option<Seq<Seq<u32>>>;

/// Relies on Tokenizer::encode_batch: one encoding per input text, in input
/// order; each encoding's token ids are handed back as plain numbers. What
/// the ids are depends on the tokenizer value and the texts alone.
#[verifier::external_body]
fn encode_batch_ids(tokenizer: &tokenizers::Tokenizer, texts: &Vec<String>) -> (r: Result<
    Vec<Vec<u32>>,
    String,
>)
    ensures
        match r {
            Ok(ids) => Some(ids.deep_view()) == spec_tokens_of(*tokenizer, texts.deep_view())
                && ids@.len() == texts@.len(),
            Err(_) => spec_tokens_of(*tokenizer, texts.deep_view()) is None,
        },
{
    match tokenizer.encode_batch(texts.clone(), true) {
        Ok(encodings) => Ok(encodings.iter().map(|e| e.get_ids().to_vec()).collect()),
        Err(e) => Err(e.to_string()),
    }
}

/// Tokenize one micro-batch and pad it into a rectangle, ready for a forward
/// pass: one row per text, in input order, the rectangle's cells exactly the
/// tokenizer's rows padded or truncated to the width of the longest row,
/// capped at the model's maximum sequence length. Fails exactly when the
/// batch is too large to address or the tokenizer rejects it.
pub fn prepare_batch(tokenizer: &tokenizers::Tokenizer, texts: &Vec<String>) -> (r: Result<
    PaddedBatch,
    EmbedError,
>)
    ensures
        ({
            let toks = spec_tokens_of(*tokenizer, texts.deep_view());
            match r {
                Ok(b) => {
                    &&& texts@.len() <= usize::MAX / 8192
                    &&& toks is Some
                    &&& b.rows == texts@.len()
                    &&& b.cols == spec_batch_cols(toks.unwrap(), 8192)
                    &&& b.cols <= 8192
                    &&& b.ids@ == spec_flat_ids_from(toks.unwrap(), b.cols as int, 0)
                    &&& b.mask@ == spec_flat_mask_from(toks.unwrap(), b.cols as int, 0)
                    &&& b.ids@.len() == b.rows * b.cols
                    &&& b.mask@.len() == b.rows * b.cols
                },
                Err(e) => match e {
                    EmbedError::BatchTooLarge => texts@.len() > usize::MAX / 8192,
                    EmbedError::Tokenization(_) => texts@.len() <= usize::MAX / 8192
                        && toks is None,
                },
            }
        }),
{
    if texts.len() > usize::MAX / 8192 {
        return Err(EmbedError::BatchTooLarge);
    }
    proof {
        assert(texts@.len() * 8192 <= (usize::MAX / 8192) * 8192 <= usize::MAX)
            by (nonlinear_arith)
            requires
                texts@.len() <= usize::MAX / 8192,
        ;
    }
    match encode_batch_ids(tokenizer, texts) {
        Err(m) => Err(EmbedError::Tokenization(m)),
        Ok(ids) => {
            let b = pad_batch(&ids);
            proof {
                lemma_flat_len(ids.deep_view(), b.cols as int, 0);
            }
            Ok(b)
        },
    }
}

} // verus!
