use hipfire_quantize::names::{
    gguf_is_embed_tensor, gguf_is_norm_tensor, gguf_output_name, gguf_to_safetensors_name,
    is_conv1d_tensor, is_gguf_input, is_q8_tensor, is_vision_tensor, parse_layer_idx,
    safetensors_to_imatrix_key, should_quantize,
};
use hipfire_quantize::text::{
    chars_of, contains, ends_with, find, rfind, same, starts_with, strip_prefix, strip_suffix,
};

#[test]
fn text_is_searched_by_characters() {
    let s = "a\u{e9}.b\u{e9}.c";
    assert_eq!(chars_of(s), s.chars().collect::<Vec<char>>());
    assert_eq!(find(s, "."), Some(2));
    assert_eq!(rfind(s, "."), Some(5));
    assert_eq!(find(s, "\u{e9}."), Some(1));
    assert_eq!(find(s, "x"), None);
    assert_eq!(rfind(s, "x"), None);
    assert_eq!(find(s, ""), Some(0));
    assert_eq!(rfind(s, ""), Some(7));
    assert_eq!(find("", "a"), None);
    assert!(contains(s, "b\u{e9}"));
    assert!(!contains(s, "be"));
    assert!(starts_with(s, "a\u{e9}"));
    assert!(!starts_with("a", "ab"));
    assert!(ends_with(s, ".c"));
    assert!(!ends_with(s, "b.c"));
    assert!(same(s, &s.to_string()));
    assert!(!same("a", "ab"));
    assert_eq!(strip_prefix(s, "a\u{e9}"), Some(".b\u{e9}.c"));
    assert_eq!(strip_prefix(s, "b"), None);
    assert_eq!(strip_suffix(s, ".c"), Some("a\u{e9}.b\u{e9}"));
    assert_eq!(strip_suffix(s, "d"), None);
}

#[test]
fn layer_index_needs_digits_and_a_dot() {
    assert_eq!(parse_layer_idx("layers.4"), None);
    assert_eq!(parse_layer_idx("layers.x.y"), None);
    assert_eq!(parse_layer_idx("layers.x.blk.3.y"), Some(3));
    assert_eq!(parse_layer_idx("layers.+3.y"), Some(3));
}

#[test]
fn tensors_are_classed_by_name() {
    assert!(is_vision_tensor("model.visual.blocks.0.weight"));
    assert!(!is_vision_tensor("model.layers.0.visual.weight"));
    assert!(should_quantize("model.layers.0.mlp.up_proj.weight"));
    assert!(!should_quantize("model.layers.0.input_layernorm.weight"));
    assert!(!should_quantize("model.layers.0.attn.bias_weight"));
    assert!(!should_quantize("visual.merger.weight"));
    assert!(!should_quantize("model.layers.0.scale"));
    assert!(is_q8_tensor("model.layers.0.mlp.gate.weight"));
    assert!(is_q8_tensor("lm_head.weight"));
    assert!(!is_q8_tensor("model.layers.0.mlp.up_proj.weight"));
    assert!(is_conv1d_tensor("model.layers.0.linear_attn.conv1d.weight"));
    assert!(!is_conv1d_tensor("model.layers.0.linear_attn.conv1d.bias"));
    assert!(is_gguf_input(true, Some("gguf")));
    assert!(!is_gguf_input(false, Some("gguf")));
    assert!(!is_gguf_input(true, Some("GGUF")));
    assert!(!is_gguf_input(true, None));
    assert!(gguf_is_norm_tensor("blk.3.attn_norm.weight"));
    assert!(gguf_is_norm_tensor("output_norm.weight"));
    assert!(!gguf_is_norm_tensor("blk.3.attn_q.weight"));
    assert!(gguf_is_embed_tensor("token_embd.weight"));
    assert!(!gguf_is_embed_tensor("token_embd.weights"));
}

#[test]
fn gguf_names_are_mapped() {
    let want = [
        ("token_embd.weight", "model.embed_tokens.weight"),
        ("output.weight", "lm_head.weight"),
        ("output_norm.weight", "model.norm.weight"),
        ("blk.0.attn_norm.weight", "model.layers.0.input_layernorm.weight"),
        ("blk.1.ffn_norm.weight", "model.layers.1.post_attention_layernorm.weight"),
        ("blk.2.attn_q.weight", "model.layers.2.self_attn.q_proj.weight"),
        ("blk.2.attn_k.weight", "model.layers.2.self_attn.k_proj.weight"),
        ("blk.2.attn_v.weight", "model.layers.2.self_attn.v_proj.weight"),
        ("blk.2.attn_output.weight", "model.layers.2.self_attn.o_proj.weight"),
        ("blk.2.attn_q_norm.weight", "model.layers.2.self_attn.q_norm.weight"),
        ("blk.2.attn_k_norm.weight", "model.layers.2.self_attn.k_norm.weight"),
        ("blk.11.ffn_gate.weight", "model.layers.11.mlp.gate_proj.weight"),
        ("blk.11.ffn_up.weight", "model.layers.11.mlp.up_proj.weight"),
        ("blk.11.ffn_down.weight", "model.layers.11.mlp.down_proj.weight"),
    ];
    for (from, to) in want {
        assert_eq!(gguf_to_safetensors_name(from), Some(to.to_string()));
        assert_eq!(gguf_output_name(from), to);
    }
    let kept = [
        "blk.0.attn_q.bias",
        "blk.0.attn_q.bias.weight",
        "blk.0.attn_qkv.weight",
        "blk.3.ffn_gate_exps.weight",
        "blk.3.ffn_gate_inp.weight",
        "blk.3.no_such_slot.weight",
        "blk.3..weight",
        "blk.3.weight",
        "blk.7",
        "blk.attn_q.weight",
        "rope_freqs.weight",
    ];
    for other in kept {
        assert_eq!(gguf_to_safetensors_name(other), None);
        assert_eq!(gguf_output_name(other), other);
    }
}

#[test]
fn imatrix_keys_name_layer_and_kind() {
    assert_eq!(
        safetensors_to_imatrix_key("model.language_model.layers.0.mlp.experts.gate_up_proj"),
        Some(("blk.0.ffn_gate_exps.weight".to_string(), 0))
    );
    assert_eq!(
        safetensors_to_imatrix_key("model.layers.x.layers.7.mlp.experts.down_proj"),
        Some(("blk.7.ffn_down_exps.weight".to_string(), 7))
    );
    assert_eq!(safetensors_to_imatrix_key("layers.7.mlp.experts.down_proj"), None);
    assert_eq!(safetensors_to_imatrix_key("model.layers.7a.mlp.experts.down_proj"), None);
    assert_eq!(safetensors_to_imatrix_key("model.layers.7.mlp.down_proj"), None);
}
