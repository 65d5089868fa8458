use hipfire_quantize::formats::Format;
use hipfire_quantize::hfq::QuantType;
use hipfire_quantize::kmap::{count_levels, QuantLevel};
use hipfire_quantize::plan::{
    expert_bytes, expert_name, expert_recipe, one_expert_recipe, plan_tensor, split_stack_name,
    stack_layer, tensor_level, wants_importance, weight_recipe, ExpertFacts, Plan, Settings, Tally,
    TensorFacts,
};
use hipfire_quantize::recipe::{numel, row_length, shape_u32, Recipe};

fn settings(format: Format) -> Settings {
    Settings {
        format,
        is_moe: false,
        is_v4f: false,
        n_layers: 32,
        kmap: false,
        kmap_mode: 1,
        q8_conv1d: true,
        q8_router_option: false,
        non_expert_f16: false,
        include_vision: false,
    }
}

fn base(format: Format, name: &str, k: usize) -> Recipe {
    weight_recipe(settings(format), name, 2, k)
}

fn facts<'a>(name: &'a str, dtype: &'a str, shape: &'a [usize]) -> TensorFacts<'a> {
    TensorFacts { name, dtype, shape, n: numel(shape).unwrap(), has_scale: false }
}

const FFN: &str = "model.layers.5.mlp.up_proj.weight";
const ATTN: &str = "model.layers.5.self_attn.q_proj.weight";
const EMBED: &str = "model.embed_tokens.weight";

#[test]
fn base_recipes_follow_the_format() {
    let want = [
        (Format::Q8, FFN, Recipe::Q8F16, Recipe::Q8F16),
        (Format::Mixed, FFN, Recipe::Q4K, Recipe::Q4K),
        (Format::Mixed, ATTN, Recipe::Q8F16, Recipe::Q8F16),
        (Format::Fast, FFN, Recipe::Q4AsQ8, Recipe::Q4AsQ8),
        (Format::Fast, ATTN, Recipe::Q8F16, Recipe::Q8F16),
        (Format::Q8Hfq, FFN, Recipe::Q8Hfq, Recipe::Q8Hfq),
        (Format::Q8Hfq, EMBED, Recipe::Q8F16, Recipe::Q8F16),
        (Format::Q4K, EMBED, Recipe::Q4K, Recipe::Q4K),
        (Format::Q4KQ8Embed, EMBED, Recipe::Q8F16, Recipe::Q8F16),
        (Format::Q4KQ8Embed, FFN, Recipe::Q4K, Recipe::Q4K),
        (Format::Mq8, FFN, Recipe::Mq8, Recipe::Q8F16),
        (Format::Mq4, FFN, Recipe::Mq4, Recipe::Hfq4G128),
        (Format::Mq4, EMBED, Recipe::Q8F16, Recipe::Q8F16),
        (Format::Hfq4, FFN, Recipe::Hfq4G256, Recipe::Hfq4G128),
        (Format::Hfq4, EMBED, Recipe::Hfq4G256, Recipe::Hfq4G128),
        (Format::Hfq3G256, FFN, Recipe::Hfq3G256, Recipe::Hfq3G128),
        (Format::Hfq3, FFN, Recipe::Hfq3G128, Recipe::Hfq3G128),
        (Format::Hfq3, EMBED, Recipe::Q8F16, Recipe::Q8F16),
        (Format::Hfq2G256, FFN, Recipe::Hfq2G256, Recipe::Hfq4G128),
        (Format::Hfq2, FFN, Recipe::Hfq2G128, Recipe::Hfq2G128),
        (Format::HfqMixed, FFN, Recipe::Hfq4G256, Recipe::Hfq4G128),
        (Format::HfqMixed, ATTN, Recipe::Q8F16, Recipe::Q8F16),
        (Format::Mq6, FFN, Recipe::Mq6, Recipe::Hfq6G256),
        (Format::Mq3, FFN, Recipe::Mq3, Recipe::Hfq3G128),
        (Format::Mq2, FFN, Recipe::Mq2, Recipe::Hfq2G128),
        (Format::Mq2Lloyd, FFN, Recipe::Mq2Lloyd, Recipe::Hfq2G128),
        (Format::Mq3Lloyd, FFN, Recipe::Mq3Lloyd, Recipe::Hfq3G128),
        (Format::Hfq6, FFN, Recipe::Hfq6G256, Recipe::Hfq6G256),
        (Format::Hfp4, FFN, Recipe::Hfp4, Recipe::Hfp4),
        (Format::Mfp4, FFN, Recipe::Mfp4, Recipe::Hfq4G128),
        (Format::Tiered, FFN, Recipe::Mq4, Recipe::Hfq4G128),
        (Format::Q4, FFN, Recipe::Q4F16, Recipe::Q4F16),
    ];
    for (format, name, aligned, ragged) in want {
        assert_eq!(base(format, name, 512), aligned, "{:?} {}", format, name);
        assert_eq!(base(format, name, 96), ragged, "{:?} {}", format, name);
    }
    assert_eq!(base(Format::Hfp4, FFN, 33), Recipe::Hfq4G128);
    assert_eq!(weight_recipe(settings(Format::Hfp4), FFN, 3, 512), Recipe::Hfq4G128);
}

#[test]
fn routers_and_convolutions_are_protected() {
    let mut s = settings(Format::Mq4);
    let router = "model.layers.1.mlp.gate.weight";
    assert_eq!(weight_recipe(s, router, 2, 512), Recipe::Mq4);
    s.q8_router_option = true;
    assert_eq!(weight_recipe(s, router, 2, 512), Recipe::Q8F16);
    s.q8_router_option = false;
    s.is_v4f = true;
    assert_eq!(weight_recipe(s, router, 2, 512), Recipe::Q8F16);
    let conv = "model.layers.1.linear_attn.conv1d.weight";
    let mut s = settings(Format::Mq4);
    assert_eq!(weight_recipe(s, conv, 3, 512), Recipe::Q8F16);
    s.q8_conv1d = false;
    assert_eq!(weight_recipe(s, conv, 3, 512), Recipe::Mq4);
}

#[test]
fn sensitive_tensors_stay_half_precision() {
    let mut s = settings(Format::Mq2LloydNative);
    s.non_expert_f16 = true;
    let name = "layers.3.attn.compressor.wkv.weight";
    assert_eq!(weight_recipe(s, name, 2, 512), Recipe::F16);
    assert_eq!(weight_recipe(s, FFN, 2, 512), Recipe::Mq4);
    s.format = Format::Mq2LloydKmap;
    assert_eq!(weight_recipe(s, name, 2, 512), Recipe::Mq4);
}

#[test]
fn promotion_gives_six_bits() {
    let mut s = settings(Format::Mq4);
    s.kmap = true;
    s.kmap_mode = 0;
    s.is_moe = true;
    let edge = "model.layers.0.self_attn.q_proj.weight";
    assert_eq!(tensor_level(s, edge), QuantLevel::Promote6);
    for (format, want) in [
        (Format::Mq4, Recipe::Mq6),
        (Format::Mq2Lloyd, Recipe::Mq6),
        (Format::Mq6, Recipe::Mq6),
        (Format::Hfq4, Recipe::Hfq6G256),
        (Format::Hfq2, Recipe::Hfq6G256),
        (Format::Hfq6, Recipe::Hfq6G256),
        (Format::Mfp4, Recipe::Q8F16),
        (Format::Q4K, Recipe::Q8F16),
    ] {
        s.format = format;
        assert_eq!(weight_recipe(s, edge, 2, 512), want, "{:?}", format);
        assert_eq!(weight_recipe(s, edge, 2, 100), Recipe::Q8F16);
    }
    s.format = Format::Mq4;
    assert_eq!(weight_recipe(s, EMBED, 2, 512), Recipe::Q8F16);
    s.kmap = false;
    assert_eq!(tensor_level(s, edge), QuantLevel::Base);
}

#[test]
fn levels_are_counted() {
    let c = count_levels(&[
        QuantLevel::F16,
        QuantLevel::Base,
        QuantLevel::Q8,
        QuantLevel::Base,
        QuantLevel::Promote6,
        QuantLevel::Base,
    ]);
    assert_eq!((c.f16_kept, c.q8, c.promoted, c.base), (1, 1, 1, 3));
}

fn expert(promoted: bool, gate_up: bool, tier: Option<bool>) -> ExpertFacts {
    ExpertFacts { promoted, aligned: true, gate_up, tier }
}

#[test]
fn experts_follow_format_and_promotion() {
    let plain = expert(false, true, None);
    let promoted = expert(true, true, None);
    let want = [
        (Format::Mq4, Recipe::Mq4, Recipe::Mq6),
        (Format::Mq6, Recipe::Mq6, Recipe::Mq6),
        (Format::Mq4Mq6Experts, Recipe::Mq6, Recipe::Mq6),
        (Format::Mq2LloydProbe, Recipe::Mq2LloydProbe, Recipe::Mq2LloydProbe),
        (Format::Mq2LloydNative, Recipe::Mq2Lloyd, Recipe::Mq2Lloyd),
        (Format::Mq2LloydKmap, Recipe::Mq2Lloyd, Recipe::Mq6),
        (Format::Mq2LloydImatrix, Recipe::Mq2Lloyd, Recipe::Mq6),
        (Format::Mq2Gptq, Recipe::Mq2Lloyd, Recipe::Mq6),
        (Format::Mq3LloydKmap, Recipe::Mq3Lloyd, Recipe::Mq6),
        (Format::Asymmetric, Recipe::Mq2Lloyd, Recipe::Mq6),
        (Format::AsymmetricGptq, Recipe::Mq2Lloyd, Recipe::Mq6),
        (Format::Tiered, Recipe::Mq4, Recipe::Mq6),
        (Format::Hfq4, Recipe::Hfq4G256, Recipe::Hfq6G256),
        (Format::Hfq6, Recipe::Hfq6G256, Recipe::Hfq6G256),
        (Format::Q8, Recipe::Mq4, Recipe::Mq4),
    ];
    for (format, base, raised) in want {
        assert_eq!(expert_recipe(format, plain), base, "{:?}", format);
        assert_eq!(expert_recipe(format, promoted), raised, "{:?}", format);
        let ragged = ExpertFacts { aligned: false, ..plain };
        assert_eq!(expert_recipe(format, ragged), Recipe::Hfq4G128);
    }
    assert_eq!(expert_recipe(Format::Asymmetric, expert(false, false, None)), Recipe::Mq3Lloyd);
    assert_eq!(expert_recipe(Format::Tiered, expert(false, true, Some(true))), Recipe::Mq3Lloyd);
    assert_eq!(expert_recipe(Format::Tiered, expert(false, true, Some(false))), Recipe::Mq2Lloyd);
}

#[test]
fn codebooks_are_weighted_expert_by_expert() {
    assert!(wants_importance(Format::Mq2LloydImatrix, Recipe::Mq2Lloyd, true));
    assert!(!wants_importance(Format::Mq2LloydImatrix, Recipe::Mq6, true));
    assert!(!wants_importance(Format::Mq2LloydKmap, Recipe::Mq2Lloyd, true));
    assert!(!wants_importance(Format::Asymmetric, Recipe::Mq2Lloyd, false));
    let one = one_expert_recipe;
    assert_eq!(one(Format::Asymmetric, Recipe::Mq2Lloyd, true), Recipe::Mq2LloydWeighted);
    assert_eq!(one(Format::AsymmetricGptq, Recipe::Mq2Lloyd, true), Recipe::Mq2LloydGptq);
    assert_eq!(one(Format::Mq2Gptq, Recipe::Mq2Lloyd, true), Recipe::Mq2LloydGptq);
    assert_eq!(one(Format::Mq2Gptq, Recipe::Mq2Lloyd, false), Recipe::Mq2Lloyd);
    assert_eq!(one(Format::Mq2Gptq, Recipe::Mq6, true), Recipe::Mq6);
}

#[test]
fn expert_names_and_layers() {
    let stack = "model.language_model.layers.12.mlp.experts.gate_up_proj";
    let (parent, base) = split_stack_name(stack);
    assert_eq!(parent, "model.language_model.layers.12.mlp.experts.");
    assert_eq!(base, "gate_up_proj");
    assert_eq!(
        expert_name(&parent, 107, base),
        "model.language_model.layers.12.mlp.experts.107.gate_up_proj.weight"
    );
    assert_eq!(stack_layer(&parent), Some(12));
    assert_eq!(stack_layer("a.layers.3.layers.x.y"), None);
    assert_eq!(stack_layer("a.layers.7"), Some(7));
    assert_eq!(stack_layer("layers.7.x"), None);
    assert_eq!(split_stack_name("x.down_proj").1, "down_proj");
}

#[test]
fn tensors_are_left_out_or_kept() {
    let s = settings(Format::Mq4);
    let plan = |t: TensorFacts| plan_tensor(s, &t, "");
    assert_eq!(plan(facts("model.visual.patch.weight", "BF16", &[64, 64])), Plan::LeaveOut);
    assert_eq!(plan(facts("mtp.fc.weight", "BF16", &[64, 64])), Plan::LeaveOut);
    assert_eq!(plan(facts("table.tid2eid", "I64", &[8])), Plan::SkipInteger);
    assert_eq!(plan(facts("model.norm.weight", "BF16", &[4096])), Plan::Keep);
    assert_eq!(plan(facts("a.weight", "BF16", &[31])), Plan::Keep);
    assert_eq!(plan(facts("a.weight", "BF16", &[32])), Plan::Weight(Recipe::Hfq4G128));
    assert_eq!(plan(facts(FFN, "BF16", &[8, 512])), Plan::Weight(Recipe::Mq4));
}

#[test]
fn vision_tensors_follow_their_own_option() {
    let mut s = settings(Format::Mq4);
    s.include_vision = true;
    let name = "visual.blocks.0.attn.qkv.weight";
    let t = facts(name, "BF16", &[8, 512]);
    assert_eq!(plan_tensor(s, &t, "hfq4"), Plan::Vision(Recipe::Hfq4G256));
    assert_eq!(plan_tensor(s, &t, "bf16"), Plan::Vision(Recipe::Bf16Copy));
    assert_eq!(plan_tensor(s, &t, ""), Plan::Keep);
    let ragged = facts(name, "F32", &[8, 100]);
    assert_eq!(plan_tensor(s, &ragged, "hfq4"), Plan::Vision(Recipe::Hfq4G128));
    assert_eq!(plan_tensor(s, &ragged, "bf16"), Plan::Vision(Recipe::F16));
}

#[test]
fn expert_tensors_are_found() {
    let mut s = settings(Format::Mq2LloydNative);
    s.is_v4f = true;
    let name = "layers.0.ffn.experts.3.w1.weight";
    let mut t = facts(name, "I8", &[16, 128]);
    t.has_scale = true;
    assert_eq!(plan_tensor(s, &t, ""), Plan::Expert(Recipe::Mq2Lloyd));
    t.has_scale = false;
    assert_eq!(plan_tensor(s, &t, ""), Plan::Weight(Recipe::Hfq4G128));
    s.format = Format::Mq2Gptq;
    let t = facts(name, "BF16", &[16, 256]);
    assert_eq!(plan_tensor(s, &t, ""), Plan::Expert(Recipe::Mq2LloydGptq));
    assert_eq!(plan_tensor(s, &facts("l.tid2eid", "I64", &[4]), ""), Plan::RouteTable);
    let mut s = settings(Format::Mq4);
    s.is_moe = true;
    let stack = facts("model.layers.0.mlp.experts.down_proj", "BF16", &[4, 8, 256]);
    assert_eq!(plan_tensor(s, &stack, ""), Plan::Stack);
    s.is_moe = false;
    assert_eq!(plan_tensor(s, &stack, ""), Plan::Keep);
}

#[test]
fn recipes_know_how_they_are_stored() {
    assert_eq!(Recipe::Mq2LloydProbe.quant_type(), QuantType::HFQ4G256);
    assert_eq!(Recipe::Mq2LloydGptq.quant_type(), QuantType::MQ2G256Lloyd);
    assert_eq!(Recipe::Q4AsQ8.quant_type(), QuantType::Q8F16);
    assert_eq!(Recipe::RouteTable.group_size(), 1);
    assert_eq!(Recipe::F16.group_size(), 0);
    assert_eq!(Recipe::Hfp4.group_size(), 32);
    assert_eq!(Recipe::Q4F16.group_size(), 64);
    assert_eq!(Recipe::Hfq1Copy.group_size(), 128);
    assert_eq!(Recipe::Q4K.group_size(), 256);
    assert_eq!(Recipe::Mq4.label(), "MQ4G256");
    assert_eq!(numel(&[3, 4, 5]), Some(60));
    assert_eq!(numel(&[]), Some(1));
    assert_eq!(numel(&[usize::MAX, 2]), None);
    assert_eq!(row_length(&[3, 4], 12), 4);
    assert_eq!(row_length(&[3, 4, 5], 60), 60);
    assert_eq!(shape_u32(&[3, 0x1_0000_0005]), vec![3, 5]);
}

#[test]
fn experts_of_a_stack_stay_within_its_data() {
    assert_eq!(expert_bytes(&[4, 8, 256], 2, 4 * 8 * 256 * 2), Some(4096));
    assert_eq!(expert_bytes(&[4, 8, 256], 2, 4 * 8 * 256 * 2 - 1), None);
    assert_eq!(expert_bytes(&[0, 8, 256], 2, 0), Some(4096));
    assert_eq!(expert_bytes(&[1, usize::MAX, 2], 2, usize::MAX), None);
    assert_eq!(expert_bytes(&[1, usize::MAX, 1], 2, usize::MAX), None);
}

#[test]
fn parameters_are_tallied_by_plan() {
    let mut t = Tally::start();
    t.count(Plan::LeaveOut, 10, 0);
    assert_eq!((t.met, t.left_out, t.quantized), (0, 10, 0));
    t.count(Plan::SkipInteger, 5, 0);
    assert_eq!((t.met, t.left_out, t.quantized), (5, 15, 0));
    t.count(Plan::Keep, 7, 7);
    assert_eq!((t.met, t.left_out, t.quantized), (12, 15, 0));
    t.count(Plan::Weight(Recipe::Mq4), 100, 100);
    t.count(Plan::Expert(Recipe::Mq2Lloyd), 100, 200);
    t.count(Plan::Stack, 3, 3);
    t.count(Plan::RouteTable, 1, 1);
    t.count(Plan::Vision(Recipe::F16), 2, 2);
    assert_eq!((t.met, t.left_out, t.quantized), (218, 15, 306));
}
