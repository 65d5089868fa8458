//! The K-map: which precision each tensor of a model gets.
use vstd::prelude::*;

use crate::names::parse_layer_idx;
#[allow(unused_imports)]
use crate::names::{is_norm_or_bias, layer_idx};
use crate::text::{contains, ends_with};
#[allow(unused_imports)]
use crate::text::{ends, has};

verus! {

/// Per-tensor precision level.
#[derive(Clone, Copy, Debug, PartialEq, Eq, Structural)]
pub enum QuantLevel {
    /// Store as F16 (norms, biases, 1D tensors).
    F16,
    /// Store as Q8_F16 (embeddings, output head, MoE routers).
    Q8,
    /// Promote to the 6-bit variant of the base format.
    Promote6,
    /// Use the base format as it is.
    Base,
}

/// Stride of the promoted middle layers in alternating mode.
pub const ALTERNATING_STRIDE: usize = 3;

/// One of the first two or the last two of `n_layers` layers.
pub open spec fn is_edge(idx: int, n_layers: int) -> bool {
    idx < 2 || idx >= n_layers - 2
}

/// An edge layer, or a middle layer that lies a multiple of `stride` behind the
/// third.
pub open spec fn positional(idx: int, n_layers: int, stride: int) -> bool {
    &&& n_layers > 0
    &&& stride > 0
    &&& is_edge(idx, n_layers) || (idx - 2) % stride == 0
}

/// A down projection of a feed-forward block.
pub open spec fn is_down(name: Seq<char>) -> bool {
    has(name, "down_proj"@) || has(name, "ffn_down"@)
}

/// A value projection of an attention block.
pub open spec fn is_value(name: Seq<char>) -> bool {
    has(name, "v_proj"@) || has(name, "attn_v"@)
}

/// A tensor of a feed-forward block.
pub open spec fn is_ffn(name: Seq<char>) -> bool {
    has(name, "mlp."@) || has(name, "ffn"@)
}

/// An embedding, the output head, or the output projection.
pub open spec fn is_embedding(name: Seq<char>) -> bool {
    ||| has(name, "embed_tokens"@)
    ||| has(name, "token_embd"@)
    ||| has(name, "lm_head"@)
    ||| ends(name, "output.weight"@)
}

/// A router of a mixture-of-experts layer.
pub open spec fn is_router(name: Seq<char>) -> bool {
    ends(name, "mlp.gate.weight"@) || has(name, "shared_expert_gate"@)
}

/// A routed expert's feed-forward weight is promoted: always, but for the
/// alternating mode, where the layer decides if the name tells it.
pub open spec fn expert_promoted(name: Seq<char>, n_layers: usize, mode: u8) -> bool {
    mode == 1 ==> (layer_idx(name) matches Some(idx) ==> positional(
        idx as int,
        n_layers as int,
        ALTERNATING_STRIDE as int,
    ))
}

/// The layer of the tensor is known and is an edge layer.
pub open spec fn in_edge_layer(name: Seq<char>, n_layers: usize) -> bool {
    &&& n_layers > 0
    &&& layer_idx(name) is Some
    &&& is_edge(layer_idx(name)->0 as int, n_layers as int)
}

/// A tensor that is no norm, embedding, router or routed expert is promoted.
///
/// In typed mode: down and value projections everywhere, and the edge layers.
/// Otherwise the edge layers, of a dense model their feed-forward blocks only;
/// in alternating mode also the down projections of the positional layers.
pub open spec fn weight_promoted(name: Seq<char>, n_layers: usize, is_moe: bool, mode: u8) -> bool {
    if mode == 2 {
        is_down(name) || is_value(name) || in_edge_layer(name, n_layers)
    } else {
        ||| in_edge_layer(name, n_layers) && (is_moe || is_ffn(name))
        ||| mode == 1 && is_down(name) && layer_idx(name) is Some && positional(
            layer_idx(name)->0 as int,
            n_layers as int,
            ALTERNATING_STRIDE as int,
        )
    }
}

/// The level of a tensor. Mode 0 promotes all candidates, mode 1 alternates
/// over the layers, mode 2 goes by the tensor's type; any other mode is as 0.
pub open spec fn level(name: Seq<char>, n_layers: usize, is_moe: bool, mode: u8) -> QuantLevel {
    if is_norm_or_bias(name) {
        QuantLevel::F16
    } else if is_embedding(name) || (is_moe && is_router(name)) {
        QuantLevel::Q8
    } else if is_moe && has(name, "mlp.experts."@) {
        if expert_promoted(name, n_layers, mode) {
            QuantLevel::Promote6
        } else {
            QuantLevel::Base
        }
    } else if weight_promoted(name, n_layers, is_moe, mode) {
        QuantLevel::Promote6
    } else {
        QuantLevel::Base
    }
}

fn is_edge_layer(idx: usize, n_layers: usize) -> (r: bool)
    ensures
        r == is_edge(idx as int, n_layers as int),
{
    idx < 2 || idx >= n_layers.saturating_sub(2)
}

/// llama.cpp-style alternating promotion: edge layers always, middle layers
/// every `stride` layers.
pub fn is_positional_promote(idx: usize, n_layers: usize, stride: usize) -> (r: bool)
    ensures
        r == positional(idx as int, n_layers as int, stride as int),
        n_layers == 0 || stride == 0 ==> !r,
        n_layers > 0 && stride > 0 ==> r == (idx < 2 || idx + 2 >= n_layers || (idx - 2)
            % stride as int == 0),
{
    if n_layers == 0 || stride == 0 {
        return false;
    }
    if is_edge_layer(idx, n_layers) {
        return true;
    }
    (idx - 2) % stride == 0
}

/// The level of a tensor in full mode.
pub fn kmap_resolve(name: &str, n_layers: usize, is_moe: bool) -> (r: QuantLevel)
    ensures
        r == level(name@, n_layers, is_moe, 0),
{
    kmap_resolve_mode(name, n_layers, is_moe, 0)
}

/// Resolves the quantization level for a tensor based on its name, the model's
/// layer count, whether the model is a mixture of experts, and the K-map mode
/// (0 = full, 1 = alternating, 2 = typed).
pub fn kmap_resolve_mode(name: &str, n_layers: usize, is_moe: bool, kmap_mode: u8) -> (r:
    QuantLevel)
    ensures
        r == level(name@, n_layers, is_moe, kmap_mode),
{
    if contains(name, "norm") || contains(name, "bias") {
        return QuantLevel::F16;
    }
    if contains(name, "embed_tokens") || contains(name, "token_embd") || contains(name, "lm_head")
        || ends_with(name, "output.weight") {
        return QuantLevel::Q8;
    }
    if is_moe && (ends_with(name, "mlp.gate.weight") || contains(name, "shared_expert_gate")) {
        return QuantLevel::Q8;
    }
    let layer = parse_layer_idx(name);
    if is_moe && contains(name, "mlp.experts.") {
        if kmap_mode == 1 {
            if let Some(idx) = layer {
                if is_positional_promote(idx, n_layers, ALTERNATING_STRIDE) {
                    return QuantLevel::Promote6;
                }
                return QuantLevel::Base;
            }
        }
        return QuantLevel::Promote6;
    }
    let edge = match layer {
        Some(idx) => n_layers > 0 && is_edge_layer(idx, n_layers),
        None => false,
    };
    let down = contains(name, "down_proj") || contains(name, "ffn_down");
    if kmap_mode == 2 {
        let value = contains(name, "v_proj") || contains(name, "attn_v");
        if down || value || edge {
            return QuantLevel::Promote6;
        }
        return QuantLevel::Base;
    }
    if kmap_mode == 1 {
        if let Some(idx) = layer {
            if down && is_positional_promote(idx, n_layers, ALTERNATING_STRIDE) {
                return QuantLevel::Promote6;
            }
        }
    }
    if edge && (is_moe || contains(name, "mlp.") || contains(name, "ffn")) {
        return QuantLevel::Promote6;
    }
    QuantLevel::Base
}

/// A norm or a bias stays F16 in every model and every mode.
pub proof fn law_norms_stay_f16(name: Seq<char>, n_layers: usize, is_moe: bool, mode: u8)
    requires
        is_norm_or_bias(name),
    ensures
        level(name, n_layers, is_moe, mode) == QuantLevel::F16,
{
}

/// A dense model is promoted in its feed-forward blocks only: outside typed
/// mode, a tensor that belongs to none is never promoted.
pub proof fn law_dense_attention_stays_base(name: Seq<char>, n_layers: usize, mode: u8)
    requires
        mode != 2,
        !is_ffn(name),
        !is_down(name),
    ensures
        level(name, n_layers, false, mode) != QuantLevel::Promote6,
{
}

/// Without a layer count no layer is an edge: in full and alternating mode
/// nothing of a dense model is promoted.
pub proof fn law_no_layer_count_promotes_nothing(name: Seq<char>, mode: u8)
    requires
        mode != 2,
    ensures
        level(name, 0, false, mode) != QuantLevel::Promote6,
{
}

/// A mixture-of-experts model has every weight of its edge layers promoted, in
/// every mode, but for the norms, biases, embeddings and routers.
pub proof fn law_moe_edge_layers_are_promoted(name: Seq<char>, n_layers: usize, mode: u8)
    requires
        in_edge_layer(name, n_layers),
        !is_norm_or_bias(name),
        !is_embedding(name),
        !is_router(name),
    ensures
        level(name, n_layers, true, mode) == QuantLevel::Promote6,
{
}

/// With at most four layers, every layer is an edge layer.
pub proof fn law_small_models_are_all_edge(idx: usize, n_layers: usize)
    requires
        n_layers <= 4,
        idx < n_layers,
    ensures
        is_edge(idx as int, n_layers as int),
{
}

// The rules, by what a name holds.

/// Whatever else its name holds, a tensor whose name holds `norm` or `bias` is
/// F16, and no other tensor is.
pub proof fn law_f16_goes_by_name(name: Seq<char>, n_layers: usize, is_moe: bool, mode: u8)
    ensures
        level(name, n_layers, is_moe, mode) == QuantLevel::F16 <==> has(name, "norm"@) || has(
            name,
            "bias"@,
        ),
{
}

/// Embeddings and output heads are Q8 in every model, routers in a mixture of
/// experts, and nothing else is.
pub proof fn law_q8_goes_by_name(name: Seq<char>, n_layers: usize, is_moe: bool, mode: u8)
    requires
        !(has(name, "norm"@) || has(name, "bias"@)),
    ensures
        level(name, n_layers, is_moe, mode) == QuantLevel::Q8 <==> has(name, "embed_tokens"@)
            || has(name, "token_embd"@) || has(name, "lm_head"@) || ends(name, "output.weight"@) || (
        is_moe && (ends(name, "mlp.gate.weight"@) || has(name, "shared_expert_gate"@))),
{
}

/// Every feed-forward weight in one of the first two or last two layers of a
/// dense model is promoted, in full and in alternating mode alike.
pub proof fn law_dense_edge_ffn_is_promoted(name: Seq<char>, idx: usize, n_layers: usize, mode: u8)
    requires
        mode != 2,
        layer_idx(name) == Some(idx),
        n_layers > 0,
        idx < 2 || idx + 2 >= n_layers,
        has(name, "mlp."@) || has(name, "ffn"@),
        !(has(name, "norm"@) || has(name, "bias"@)),
        !(has(name, "embed_tokens"@) || has(name, "token_embd"@) || has(name, "lm_head"@) || ends(
            name,
            "output.weight"@,
        )),
    ensures
        level(name, n_layers, false, mode) == QuantLevel::Promote6,
{
}

/// Every weight in one of the first two or last two layers of a mixture of experts
/// is promoted, in every mode.
pub proof fn law_moe_edge_is_promoted(name: Seq<char>, idx: usize, n_layers: usize, mode: u8)
    requires
        layer_idx(name) == Some(idx),
        n_layers > 0,
        idx < 2 || idx + 2 >= n_layers,
        !(has(name, "norm"@) || has(name, "bias"@)),
        !(has(name, "embed_tokens"@) || has(name, "token_embd"@) || has(name, "lm_head"@) || ends(
            name,
            "output.weight"@,
        )),
        !(ends(name, "mlp.gate.weight"@) || has(name, "shared_expert_gate"@)),
    ensures
        level(name, n_layers, true, mode) == QuantLevel::Promote6,
{
}

/// In alternating mode the down projections of every third layer behind the second
/// are promoted too.
pub proof fn law_alternating_down_is_promoted(
    name: Seq<char>,
    idx: usize,
    n_layers: usize,
    is_moe: bool,
)
    requires
        layer_idx(name) == Some(idx),
        n_layers > 0,
        idx >= 2,
        (idx - 2) % 3 == 0,
        has(name, "down_proj"@) || has(name, "ffn_down"@),
        !(has(name, "norm"@) || has(name, "bias"@)),
        !(has(name, "embed_tokens"@) || has(name, "token_embd"@) || has(name, "lm_head"@) || ends(
            name,
            "output.weight"@,
        )),
        is_moe ==> !(ends(name, "mlp.gate.weight"@) || has(name, "shared_expert_gate"@)),
    ensures
        level(name, n_layers, is_moe, 1) == QuantLevel::Promote6,
{
}

/// In typed mode the down and value projections of every layer are promoted, and
/// all weights of the first two and last two layers.
pub proof fn law_typed_mode_promotes(name: Seq<char>, n_layers: usize, is_moe: bool)
    requires
        !(has(name, "norm"@) || has(name, "bias"@)),
        !(has(name, "embed_tokens"@) || has(name, "token_embd"@) || has(name, "lm_head"@) || ends(
            name,
            "output.weight"@,
        )),
        is_moe ==> !(ends(name, "mlp.gate.weight"@) || has(name, "shared_expert_gate"@)),
        !(is_moe && has(name, "mlp.experts."@)),
    ensures
        level(name, n_layers, is_moe, 2) == QuantLevel::Promote6 <==> has(name, "down_proj"@)
            || has(name, "ffn_down"@) || has(name, "v_proj"@) || has(name, "attn_v"@) || (
        layer_idx(name) is Some && n_layers > 0 && (layer_idx(name)->0 < 2 || layer_idx(name)->0 + 2
            >= n_layers)),
{
}

/// Routed experts are promoted in every layer, but for alternating mode: there
/// only those in the first two and last two layers and in every third layer
/// behind the second, and those whose name tells no layer.
pub proof fn law_experts_are_promoted(name: Seq<char>, n_layers: usize, mode: u8)
    requires
        has(name, "mlp.experts."@),
        !(has(name, "norm"@) || has(name, "bias"@)),
        !(has(name, "embed_tokens"@) || has(name, "token_embd"@) || has(name, "lm_head"@) || ends(
            name,
            "output.weight"@,
        )),
        !(ends(name, "mlp.gate.weight"@) || has(name, "shared_expert_gate"@)),
    ensures
        mode != 1 ==> level(name, n_layers, true, mode) == QuantLevel::Promote6,
        layer_idx(name) is None ==> level(name, n_layers, true, mode) == QuantLevel::Promote6,
        layer_idx(name) is Some ==> (level(name, n_layers, true, 1) == QuantLevel::Promote6 <==> (
        n_layers > 0 && (layer_idx(name)->0 < 2 || layer_idx(name)->0 + 2 >= n_layers || (
        layer_idx(name)->0 - 2) % 3 == 0))),
{
}

/// Outside typed mode a weight that is no routed expert is promoted for one of two
/// reasons only: it lies in one of the first two or last two layers, in a dense
/// model in its feed-forward block, or it is a down projection of a promoted layer
/// in alternating mode. All other weights keep the base format.
pub proof fn law_other_weights_stay_base(name: Seq<char>, n_layers: usize, is_moe: bool, mode: u8)
    requires
        mode != 2,
        !(has(name, "norm"@) || has(name, "bias"@)),
        !(has(name, "embed_tokens"@) || has(name, "token_embd"@) || has(name, "lm_head"@) || ends(
            name,
            "output.weight"@,
        )),
        is_moe ==> !(ends(name, "mlp.gate.weight"@) || has(name, "shared_expert_gate"@)),
        is_moe ==> !(has(name, "mlp.experts."@)),
        layer_idx(name) is None || n_layers == 0 || ({
            let idx = layer_idx(name)->0;
            let edge = idx < 2 || idx + 2 >= n_layers;
            let down = has(name, "down_proj"@) || has(name, "ffn_down"@);
            &&& edge ==> !is_moe && !(has(name, "mlp."@) || has(name, "ffn"@)) && !(mode == 1
                && down)
            &&& !edge ==> !(mode == 1 && down && (idx - 2) % 3 == 0)
        }),
    ensures
        level(name, n_layers, is_moe, mode) == QuantLevel::Base,
{
}

/// How many tensors have a level.
pub open spec fn how_many(levels: Seq<QuantLevel>, l: QuantLevel) -> nat
    decreases levels.len(),
{
    if levels.len() == 0 {
        0
    } else {
        how_many(levels.drop_last(), l) + (if levels.last() == l {
            1nat
        } else {
            0
        })
    }
}

/// How many tensors have each level.
#[derive(Clone, Copy, Debug, PartialEq, Eq, Structural)]
pub struct LevelCounts {
    pub f16_kept: usize,
    pub q8: usize,
    pub promoted: usize,
    pub base: usize,
}

/// Counts the tensors of each level.
pub fn count_levels(levels: &[QuantLevel]) -> (r: LevelCounts)
    ensures
        r.f16_kept == how_many(levels@, QuantLevel::F16),
        r.q8 == how_many(levels@, QuantLevel::Q8),
        r.promoted == how_many(levels@, QuantLevel::Promote6),
        r.base == how_many(levels@, QuantLevel::Base),
        r.f16_kept + r.q8 + r.promoted + r.base == levels@.len(),
{
    let n: usize = levels.len();
    let mut r = LevelCounts { f16_kept: 0, q8: 0, promoted: 0, base: 0 };
    let mut i: usize = 0;
    while i < n
        invariant
            i <= n,
            n == levels@.len(),
            r.f16_kept == how_many(levels@.take(i as int), QuantLevel::F16),
            r.q8 == how_many(levels@.take(i as int), QuantLevel::Q8),
            r.promoted == how_many(levels@.take(i as int), QuantLevel::Promote6),
            r.base == how_many(levels@.take(i as int), QuantLevel::Base),
            r.f16_kept + r.q8 + r.promoted + r.base == i,
        decreases n - i,
    {
        assert(levels@.take(i + 1).drop_last() =~= levels@.take(i as int));
        match levels[i] {
            QuantLevel::F16 => {
                r.f16_kept = r.f16_kept + 1;
            },
            QuantLevel::Q8 => {
                r.q8 = r.q8 + 1;
            },
            QuantLevel::Promote6 => {
                r.promoted = r.promoted + 1;
            },
            QuantLevel::Base => {
                r.base = r.base + 1;
            },
        }
        i = i + 1;
    }
    assert(levels@.take(n as int) =~= levels@);
    r
}

/// The count of a level is the number of times that it occurs, wherever.
pub proof fn law_counts_are_occurrences(levels: Seq<QuantLevel>, l: QuantLevel)
    ensures
        how_many(levels, l) == levels.to_multiset().count(l),
    decreases levels.len(),
{
    levels.to_multiset_ensures();
    if levels.len() > 0 {
        let rest = levels.drop_last();
        law_counts_are_occurrences(rest, l);
        rest.to_multiset_ensures();
        assert(rest.push(levels.last()) =~= levels);
    } else {
        assert(levels.to_multiset().len() == 0);
    }
}

} // verus!
