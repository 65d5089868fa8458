use hipfire_quantize::formats::GgufFormat;
use hipfire_quantize::gguf::{
    architecture, config_json_from_gguf, gguf_level, gguf_recipe, q1_size, read_integer, read_real,
    ConfigValue, GgufSettings, GgufTensor, MetaEntry, MetaValue, Real,
};
use hipfire_quantize::kmap::QuantLevel;
use hipfire_quantize::recipe::Recipe;

fn settings(format: GgufFormat) -> GgufSettings {
    GgufSettings { format, is_moe: false, n_layers: 32, kmap: false, kmap_mode: 1 }
}

fn tensor(name: &str, shape: &[usize]) -> GgufTensor {
    GgufTensor { name: name.to_string(), shape: shape.to_vec(), is_q1: false }
}

fn entry(key: &str, value: MetaValue) -> MetaEntry {
    MetaEntry { key: key.to_string(), value }
}

fn recipe(format: GgufFormat, name: &str, shape: &[usize]) -> Recipe {
    gguf_recipe(settings(format), &tensor(name, shape), shape.iter().product())
}

const WEIGHT: &str = "blk.4.ffn_up.weight";

#[test]
fn matrices_follow_the_format() {
    let want = [
        (GgufFormat::Hfq4, Recipe::Hfq4G256),
        (GgufFormat::Hfq6, Recipe::Hfq6G256),
        (GgufFormat::Mq4, Recipe::Mq4),
        (GgufFormat::Mq6, Recipe::Mq6),
        (GgufFormat::Mq3, Recipe::Mq3),
        (GgufFormat::Mq2, Recipe::Mq2),
        (GgufFormat::Mq2Lloyd, Recipe::Mq2Lloyd),
        (GgufFormat::Mq3Lloyd, Recipe::Mq3Lloyd),
        (GgufFormat::Hfp4, Recipe::Hfp4),
        (GgufFormat::Mfp4, Recipe::Mfp4),
        (GgufFormat::Hfq1, Recipe::Hfq1),
    ];
    for (format, r) in want {
        assert_eq!(recipe(format, WEIGHT, &[512, 3]), r);
        assert_eq!(recipe(format, WEIGHT, &[100, 512]), Recipe::Hfq4G128);
        assert_eq!(recipe(format, "token_embd.weight", &[512, 3]), Recipe::Q8F16);
        assert_eq!(recipe(format, "blk.0.attn_norm.weight", &[512, 3]), Recipe::F16);
        assert_eq!(recipe(format, WEIGHT, &[512]), Recipe::F16);
    }
}

#[test]
fn one_bit_data_is_copied() {
    let mut t = tensor("token_embd.weight", &[128, 2]);
    t.is_q1 = true;
    assert_eq!(gguf_recipe(settings(GgufFormat::Hfq1), &t, 256), Recipe::Hfq1Copy);
    assert_eq!(gguf_recipe(settings(GgufFormat::Mq4), &t, 256), Recipe::Q8F16);
    t.shape = vec![100, 2];
    assert_eq!(gguf_recipe(settings(GgufFormat::Hfq1), &t, 200), Recipe::Q8F16);
    t.name = WEIGHT.to_string();
    assert_eq!(gguf_recipe(settings(GgufFormat::Hfq1), &t, 200), Recipe::Hfq4G128);
    assert_eq!(q1_size(256), 36);
}

#[test]
fn promotion_uses_the_written_name() {
    let mut s = settings(GgufFormat::Mq4);
    s.kmap = true;
    s.kmap_mode = 0;
    s.is_moe = true;
    assert_eq!(gguf_level(s, "output.weight"), QuantLevel::Q8);
    assert_eq!(gguf_level(s, "blk.0.attn_q.weight"), QuantLevel::Promote6);
    let t = tensor("blk.0.attn_q.weight", &[512, 4]);
    assert_eq!(gguf_recipe(s, &t, 2048), Recipe::Mq6);
    s.format = GgufFormat::Hfq4;
    assert_eq!(gguf_recipe(s, &t, 2048), Recipe::Hfq6G256);
    s.format = GgufFormat::Hfp4;
    assert_eq!(gguf_recipe(s, &t, 2048), Recipe::Hfp4);
    let out = tensor("output.weight", &[512, 4]);
    assert_eq!(gguf_recipe(s, &out, 2048), Recipe::Q8F16);
}

#[test]
fn metadata_numbers_are_read() {
    let meta = [
        entry("a", MetaValue::U8(3)),
        entry("b", MetaValue::I8(-1)),
        entry("c", MetaValue::I64(i64::MIN)),
        entry("d", MetaValue::Single(0x3f80_0000)),
        entry("e", MetaValue::Double(7)),
        entry("f", MetaValue::Text("x".to_string())),
        entry("a", MetaValue::U8(9)),
    ];
    assert_eq!(read_integer(&meta, "a"), Some(3));
    assert_eq!(read_integer(&meta, "b"), Some(u64::MAX));
    assert_eq!(read_integer(&meta, "c"), Some(1u64 << 63));
    assert_eq!(read_integer(&meta, "d"), None);
    assert_eq!(read_integer(&meta, "z"), None);
    assert_eq!(read_real(&meta, "d"), Some(Real::Single(0x3f80_0000)));
    assert_eq!(read_real(&meta, "e"), Some(Real::Double(7)));
    assert_eq!(read_real(&meta, "a"), None);
}

#[test]
fn configurations_are_built_with_defaults() {
    let meta = [
        entry("llama.embedding_length", MetaValue::U32(4096)),
        entry("llama.block_count", MetaValue::U32(32)),
        entry("llama.attention.head_count", MetaValue::U32(32)),
        entry("llama.rope.freq_base", MetaValue::Single(1)),
    ];
    let tensors = [tensor(WEIGHT, &[1]), tensor("token_embd.weight", &[4096, 128256])];
    let c = config_json_from_gguf(&meta, &tensors, "llama");
    assert_eq!(c.model_type, "llama");
    assert_eq!(c.hidden_size, Some(4096));
    assert_eq!(c.num_key_value_heads, Some(32));
    assert_eq!(c.head_dim, Some(128));
    assert_eq!(c.vocab_size, Some(128256));
    assert_eq!((c.bos_token_id, c.eos_token_id), (1, 2));
    let keys: Vec<&str> = c.entries().iter().map(|e| e.key).collect();
    assert_eq!(
        keys,
        vec![
            "model_type",
            "hidden_size",
            "num_hidden_layers",
            "num_attention_heads",
            "num_key_value_heads",
            "vocab_size",
            "rope_theta",
            "head_dim",
            "bos_token_id",
            "eos_token_id"
        ]
    );
    assert!(matches!(c.entries()[6].value, ConfigValue::Real(Real::Single(1))));
}

#[test]
fn configurations_prefer_what_is_given() {
    let meta = [
        entry("qwen3.embedding_length", MetaValue::U32(1000)),
        entry("qwen3.attention.head_count", MetaValue::U32(0)),
        entry("qwen3.attention.head_count_kv", MetaValue::U32(4)),
        entry("qwen3.vocab_size", MetaValue::U64(7)),
        entry("tokenizer.ggml.eos_token_id", MetaValue::U32(99)),
        entry("llama.block_count", MetaValue::U32(32)),
    ];
    let c = config_json_from_gguf(&meta, &[tensor("token_embd.weight", &[1, 5])], "qwen3");
    assert_eq!(c.num_key_value_heads, Some(4));
    assert_eq!(c.vocab_size, Some(7));
    assert_eq!(c.head_dim, Some(1000));
    assert_eq!(c.num_hidden_layers, None);
    assert_eq!(c.eos_token_id, 99);
    let c = config_json_from_gguf(&[], &[tensor("token_embd.weight", &[1])], "x");
    assert_eq!(c.vocab_size, None);
    assert_eq!(c.head_dim, None);
}

#[test]
fn architectures_are_named_in_the_metadata() {
    let named = [
        entry("x", MetaValue::Text("y".to_string())),
        entry("general.architecture", MetaValue::Text("qwen3moe".to_string())),
    ];
    assert_eq!(architecture(&named), "qwen3moe");
    assert_eq!(architecture(&[entry("general.architecture", MetaValue::U8(3))]), "llama");
    assert_eq!(architecture(&[]), "llama");
}
