use semantic_index::embedding::{
    model_dir_name, pad_batch, prepare_batch, select_device, split_into_batches,
    weights_file_name, GpuDevice, GpuEmbeddingSettings, QuantizationType, SelectedDevice,
};
use tokenizers::Tokenizer;

#[test]
fn auto_device_prefers_cuda_then_metal_then_cpu() {
    assert_eq!(
        select_device(&GpuDevice::Auto, true, true),
        SelectedDevice::Cuda(0)
    );
    assert_eq!(
        select_device(&GpuDevice::Auto, false, true),
        SelectedDevice::Metal
    );
    assert_eq!(
        select_device(&GpuDevice::Auto, false, false),
        SelectedDevice::Cpu
    );
    assert_eq!(
        select_device(&GpuDevice::Cuda(2), false, false),
        SelectedDevice::Cuda(2)
    );
    assert_eq!(
        select_device(&GpuDevice::Metal, true, false),
        SelectedDevice::Metal
    );
    assert_eq!(
        select_device(&GpuDevice::Cpu, true, true),
        SelectedDevice::Cpu
    );
}

#[test]
fn default_settings_match_the_documented_defaults() {
    let s = GpuEmbeddingSettings::default();
    assert!(s.model_path.is_none());
    assert_eq!(s.device, GpuDevice::Auto);
    assert_eq!(s.batch_size, 32);
    assert_eq!(s.quantization, QuantizationType::Int8);
}

#[test]
fn weights_file_follows_quantization() {
    assert_eq!(weights_file_name(&QuantizationType::Int8), "model.q8_0.gguf");
    assert_eq!(
        weights_file_name(&QuantizationType::Unquantized),
        "model.safetensors"
    );
}

#[test]
fn model_dir_replaces_slashes() {
    assert_eq!(
        model_dir_name("Alibaba-NLP/gte-Qwen2-1.5B-instruct"),
        "Alibaba-NLP--gte-Qwen2-1.5B-instruct"
    );
    assert_eq!(model_dir_name("a/b/c"), "a--b--c");
    assert_eq!(model_dir_name("no-slash"), "no-slash");
    assert_eq!(model_dir_name(""), "");
}

#[test]
fn batches_preserve_order_and_size() {
    let texts: Vec<String> = (0..7).map(|n| format!("t{}", n)).collect();
    let batches = split_into_batches(texts.clone(), 3);
    assert_eq!(batches.len(), 3);
    assert_eq!(batches[0].len(), 3);
    assert_eq!(batches[1].len(), 3);
    assert_eq!(batches[2].len(), 1);
    let flat: Vec<String> = batches.into_iter().flatten().collect();
    assert_eq!(flat, texts);

    let one = split_into_batches(vec!["a".to_string()], 32);
    assert_eq!(one.len(), 1);
    assert_eq!(one[0], vec!["a".to_string()]);

    let none = split_into_batches(Vec::new(), 32);
    assert!(none.is_empty());
}

#[test]
fn padding_right_pads_with_zeroes_and_masks_real_tokens() {
    let rows = vec![vec![5u32, 6, 7], vec![9u32]];
    let b = pad_batch(&rows);
    assert_eq!(b.rows, 2);
    assert_eq!(b.cols, 3);
    assert_eq!(b.ids, vec![5, 6, 7, 9, 0, 0]);
    assert_eq!(b.mask, vec![1, 1, 1, 1, 0, 0]);
}

#[test]
fn padding_of_empty_batch_is_empty() {
    let rows: Vec<Vec<u32>> = Vec::new();
    let b = pad_batch(&rows);
    assert_eq!(b.rows, 0);
    assert_eq!(b.cols, 0);
    assert!(b.ids.is_empty());
    assert!(b.mask.is_empty());
}

fn tiny_tokenizer() -> Tokenizer {
    let definition = "{\"model\": {\"type\": \"WordLevel\", \"vocab\": {\"[UNK]\": 0, \"hello\": 1, \"world\": 2, \"code\": 3}, \"unk_token\": \"[UNK]\"}, \"pre_tokenizer\": {\"type\": \"Whitespace\"}}";
    definition.parse::<Tokenizer>().unwrap()
}

#[test]
fn prepare_batch_tokenizes_pads_and_masks() {
    let tokenizer = tiny_tokenizer();
    let texts = vec!["hello world code".to_string(), "hello".to_string()];
    let b = prepare_batch(&tokenizer, &texts).unwrap();
    assert_eq!(b.rows, 2);
    assert_eq!(b.cols, 3);
    assert_eq!(b.ids, vec![1, 2, 3, 1, 0, 0]);
    assert_eq!(b.mask, vec![1, 1, 1, 1, 0, 0]);
}

#[test]
fn prepare_batch_of_empty_input_has_no_rows() {
    let tokenizer = tiny_tokenizer();
    let texts: Vec<String> = Vec::new();
    let b = prepare_batch(&tokenizer, &texts).unwrap();
    assert_eq!(b.rows, 0);
    assert_eq!(b.ids.len(), 0);
}
