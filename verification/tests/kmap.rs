//! Layer indices and K-map levels.
use hipfire_quantize::kmap::{is_positional_promote, kmap_resolve, kmap_resolve_mode, QuantLevel};
use hipfire_quantize::names::{gguf_to_safetensors_name, parse_layer_idx};

#[test]
fn parse_layer_idx_safetensors_dense() {
    assert_eq!(parse_layer_idx("model.layers.0.self_attn.q_proj.weight"), Some(0));
    assert_eq!(parse_layer_idx("model.layers.63.mlp.gate_proj.weight"), Some(63));
}

#[test]
fn parse_layer_idx_safetensors_moe() {
    assert_eq!(
        parse_layer_idx("model.language_model.layers.5.mlp.experts.0.gate_up_proj.weight"),
        Some(5)
    );
}

#[test]
fn parse_layer_idx_gguf() {
    assert_eq!(parse_layer_idx("blk.0.attn_q.weight"), Some(0));
    assert_eq!(parse_layer_idx("blk.31.ffn_gate.weight"), Some(31));
}

#[test]
fn parse_layer_idx_no_match() {
    assert_eq!(parse_layer_idx("token_embd.weight"), None);
    assert_eq!(parse_layer_idx("output.weight"), None);
}

#[test]
fn kmap_norms_are_f16() {
    assert_eq!(kmap_resolve("model.layers.0.input_layernorm.weight", 64, false), QuantLevel::F16);
    assert_eq!(kmap_resolve("model.layers.30.post_attention_layernorm.weight", 64, false), QuantLevel::F16);
}

#[test]
fn kmap_embeds_are_q8() {
    assert_eq!(kmap_resolve("model.embed_tokens.weight", 64, false), QuantLevel::Q8);
    assert_eq!(kmap_resolve("lm_head.weight", 64, false), QuantLevel::Q8);
    assert_eq!(kmap_resolve("output.weight", 64, false), QuantLevel::Q8);
}

#[test]
fn kmap_moe_router_q8() {
    assert_eq!(
        kmap_resolve("model.language_model.layers.5.mlp.gate.weight", 64, true),
        QuantLevel::Q8
    );
    assert_eq!(
        kmap_resolve("model.language_model.layers.5.mlp.shared_expert_gate.weight", 64, true),
        QuantLevel::Q8
    );
}

#[test]
fn kmap_moe_router_not_promoted_on_dense() {
    // On a dense model, mlp.gate.weight is not a router — falls to edge/base
    assert_ne!(
        kmap_resolve("model.layers.30.mlp.gate.weight", 64, false),
        QuantLevel::Q8
    );
}

#[test]
fn kmap_moe_expert_ffn_promote6() {
    assert_eq!(
        kmap_resolve("model.language_model.layers.30.mlp.experts.5.gate_up_proj.weight", 64, true),
        QuantLevel::Promote6
    );
    assert_eq!(
        kmap_resolve("model.language_model.layers.30.mlp.experts.5.down_proj.weight", 64, true),
        QuantLevel::Promote6
    );
}

#[test]
fn kmap_edge_layers_dense_ffn_only() {
    // Dense: FFN in edge layers — promoted
    assert_eq!(kmap_resolve("model.layers.0.mlp.gate_proj.weight", 64, false), QuantLevel::Promote6);
    assert_eq!(kmap_resolve("model.layers.1.mlp.down_proj.weight", 64, false), QuantLevel::Promote6);
    assert_eq!(kmap_resolve("model.layers.62.mlp.up_proj.weight", 64, false), QuantLevel::Promote6);
    assert_eq!(kmap_resolve("model.layers.63.mlp.down_proj.weight", 64, false), QuantLevel::Promote6);
    // Dense: attn in edge layers — NOT promoted
    assert_eq!(kmap_resolve("model.layers.0.self_attn.q_proj.weight", 64, false), QuantLevel::Base);
    assert_eq!(kmap_resolve("model.layers.63.self_attn.v_proj.weight", 64, false), QuantLevel::Base);
    assert_eq!(kmap_resolve("model.layers.0.linear_attn.in_proj_qkv.weight", 64, false), QuantLevel::Base);
}

#[test]
fn kmap_edge_layers_moe_attn_and_ffn() {
    // MoE: both attn and FFN in edge layers — promoted
    assert_eq!(kmap_resolve("model.language_model.layers.0.self_attn.q_proj.weight", 64, true), QuantLevel::Promote6);
    assert_eq!(kmap_resolve("model.language_model.layers.0.mlp.gate_proj.weight", 64, true), QuantLevel::Promote6);
    assert_eq!(kmap_resolve("model.language_model.layers.0.linear_attn.in_proj_qkv.weight", 64, true), QuantLevel::Promote6);
    assert_eq!(kmap_resolve("model.language_model.layers.63.self_attn.v_proj.weight", 64, true), QuantLevel::Promote6);
}

#[test]
fn kmap_middle_layers_base() {
    assert_eq!(kmap_resolve("model.layers.2.self_attn.q_proj.weight", 64, false), QuantLevel::Base);
    assert_eq!(kmap_resolve("model.layers.30.mlp.gate_proj.weight", 64, false), QuantLevel::Base);
    assert_eq!(kmap_resolve("model.layers.61.mlp.down_proj.weight", 64, false), QuantLevel::Base);
}

#[test]
fn kmap_edge_layers_small_model_24_layers() {
    // 24 layers: edge = 0,1 and 22,23
    assert_eq!(kmap_resolve("model.layers.0.mlp.gate_proj.weight", 24, false), QuantLevel::Promote6);
    assert_eq!(kmap_resolve("model.layers.1.mlp.gate_proj.weight", 24, false), QuantLevel::Promote6);
    assert_eq!(kmap_resolve("model.layers.2.mlp.gate_proj.weight", 24, false), QuantLevel::Base);
    assert_eq!(kmap_resolve("model.layers.22.mlp.gate_proj.weight", 24, false), QuantLevel::Promote6);
    assert_eq!(kmap_resolve("model.layers.23.mlp.gate_proj.weight", 24, false), QuantLevel::Promote6);
}

#[test]
fn kmap_n_layers_zero_disables_edge() {
    assert_eq!(kmap_resolve("model.layers.0.mlp.gate_proj.weight", 0, false), QuantLevel::Base);
}

#[test]
fn kmap_edge_layers_tiny_model_3_layers() {
    // 3 layers: first-2 = {0,1}, last-2 = {1,2}. All layers promoted.
    assert_eq!(kmap_resolve("model.layers.0.mlp.gate_proj.weight", 3, false), QuantLevel::Promote6);
    assert_eq!(kmap_resolve("model.layers.1.mlp.gate_proj.weight", 3, false), QuantLevel::Promote6);
    assert_eq!(kmap_resolve("model.layers.2.mlp.gate_proj.weight", 3, false), QuantLevel::Promote6);
}

#[test]
fn kmap_expert_not_promoted_on_dense() {
    // "mlp.experts." in name but is_moe=false — should NOT trigger rule 4
    assert_eq!(
        kmap_resolve("model.layers.30.mlp.experts.5.gate_up_proj.weight", 64, false),
        QuantLevel::Base
    );
}

#[test]
fn kmap_gguf_names() {
    // GGUF edge-layer FFN (dense) — promoted
    assert_eq!(kmap_resolve("blk.0.ffn_gate.weight", 64, false), QuantLevel::Promote6);
    assert_eq!(kmap_resolve("blk.63.ffn_gate.weight", 64, false), QuantLevel::Promote6);
    // GGUF edge-layer attn (dense) — NOT promoted
    assert_eq!(kmap_resolve("blk.0.attn_q.weight", 64, false), QuantLevel::Base);
    // GGUF edge-layer attn (MoE) — promoted
    assert_eq!(kmap_resolve("blk.0.attn_q.weight", 64, true), QuantLevel::Promote6);
    // GGUF middle-layer — base
    assert_eq!(kmap_resolve("blk.30.ffn_gate.weight", 64, false), QuantLevel::Base);
}

// ── Alternating mode tests ───────────────────────────────────────────

#[test]
fn positional_promote_edges() {
    assert!(is_positional_promote(0, 40, 3));
    assert!(is_positional_promote(1, 40, 3));
    assert!(is_positional_promote(38, 40, 3));
    assert!(is_positional_promote(39, 40, 3));
}

#[test]
fn positional_promote_stride3() {
    // Middle layers: every 3rd starting from idx 2
    assert!(is_positional_promote(2, 40, 3));  // edge
    assert!(!is_positional_promote(3, 40, 3));
    assert!(!is_positional_promote(4, 40, 3));
    assert!(is_positional_promote(5, 40, 3));
    assert!(!is_positional_promote(6, 40, 3));
    assert!(!is_positional_promote(7, 40, 3));
    assert!(is_positional_promote(8, 40, 3));
}

#[test]
fn kmap_alternating_moe_experts() {
    // MoE experts: promoted in positional layers, base in others
    assert_eq!(
        kmap_resolve_mode("model.language_model.layers.0.mlp.experts.5.gate_up_proj.weight", 40, true, 1),
        QuantLevel::Promote6 // edge layer
    );
    assert_eq!(
        kmap_resolve_mode("model.language_model.layers.5.mlp.experts.5.gate_up_proj.weight", 40, true, 1),
        QuantLevel::Promote6 // stride hit (5-2=3, 3%3==0)
    );
    assert_eq!(
        kmap_resolve_mode("model.language_model.layers.3.mlp.experts.5.gate_up_proj.weight", 40, true, 1),
        QuantLevel::Base // not on stride
    );
}

#[test]
fn kmap_alternating_ffn_down() {
    // ffn_down promoted in positional layers, base in others
    assert_eq!(
        kmap_resolve_mode("model.layers.0.mlp.down_proj.weight", 40, false, 1),
        QuantLevel::Promote6 // edge
    );
    assert_eq!(
        kmap_resolve_mode("model.layers.5.mlp.down_proj.weight", 40, false, 1),
        QuantLevel::Promote6 // stride
    );
    assert_eq!(
        kmap_resolve_mode("model.layers.3.mlp.down_proj.weight", 40, false, 1),
        QuantLevel::Base // not on stride
    );
    // gate_proj NOT promoted in middle layers
    assert_eq!(
        kmap_resolve_mode("model.layers.5.mlp.gate_proj.weight", 40, false, 1),
        QuantLevel::Base
    );
}

#[test]
fn kmap_alternating_n_layers_zero() {
    // With n_layers=0, alternating mode should return Base for everything
    assert_eq!(
        kmap_resolve_mode("model.layers.0.mlp.down_proj.weight", 0, false, 1),
        QuantLevel::Base
    );
}

#[test]
fn kmap_alternating_gguf_names() {
    // GGUF ffn_down in edge layer
    assert_eq!(
        kmap_resolve_mode("blk.0.ffn_down.weight", 40, false, 1),
        QuantLevel::Promote6
    );
    // GGUF ffn_down in middle non-stride layer
    assert_eq!(
        kmap_resolve_mode("blk.3.ffn_down.weight", 40, false, 1),
        QuantLevel::Base
    );
    // GGUF ffn_gate stays base in middle
    assert_eq!(
        kmap_resolve_mode("blk.5.ffn_gate.weight", 40, false, 1),
        QuantLevel::Base
    );
}

#[test]
fn kmap_typed_promotes_down_and_v() {
    assert_eq!(
        kmap_resolve_mode("model.layers.15.mlp.down_proj.weight", 40, false, 2),
        QuantLevel::Promote6
    );
    assert_eq!(
        kmap_resolve_mode("model.layers.15.self_attn.v_proj.weight", 40, false, 2),
        QuantLevel::Promote6
    );
    // gate_proj stays base
    assert_eq!(
        kmap_resolve_mode("model.layers.15.mlp.gate_proj.weight", 40, false, 2),
        QuantLevel::Base
    );
}
#[test]
fn both_spellings_get_the_same_level() {
    let slots = [
        "attn_norm",
        "ffn_norm",
        "attn_q",
        "attn_k",
        "attn_v",
        "attn_q_norm",
        "attn_k_norm",
        "ffn_gate",
        "ffn_up",
        "ffn_down",
    ];
    for slot in slots {
        for layer in [0, 5, 7, 17, 31] {
            let gguf = format!("blk.{}.{}.weight", layer, slot);
            let other = gguf_to_safetensors_name(&gguf).unwrap();
            for mode in 0..4 {
                for moe in [false, true] {
                    for n_layers in [0, 32] {
                        assert_eq!(
                            kmap_resolve_mode(&gguf, n_layers, moe, mode),
                            kmap_resolve_mode(&other, n_layers, moe, mode)
                        );
                    }
                }
            }
        }
    }
    let output = "blk.17.attn_output.weight";
    assert_eq!(kmap_resolve(output, 32, false), QuantLevel::Q8);
    let renamed = gguf_to_safetensors_name(output).unwrap();
    assert_eq!(kmap_resolve(&renamed, 32, false), QuantLevel::Base);
}
