//! What tensor names say: the layer a tensor belongs to, its class, and the
//! names it goes by in GGUF, safetensors and imatrix files.
use vstd::prelude::*;
use vstd::string::*;

use crate::decimal::{format_usize, parse_usize};
#[allow(unused_imports)]
use crate::decimal::{decimal, is_digit, law_decimal_round_trip, lemma_decimal_value, read_usize};
use crate::text::{contains, ends_with, find, rfind, same, starts_with, strip_prefix, strip_suffix};
#[allow(unused_imports)]
use crate::text::{
    begins, ends, first_at, has, is_leftmost, is_rightmost, last_at, law_occurrences_are_parts, lemma_first_at,
    lemma_first_is_leftmost, lemma_last_at, occurs_at,
};

verus! {

/// The number between the leftmost `marker` in `name` and the next dot.
pub open spec fn index_behind(name: Seq<char>, marker: Seq<char>) -> Option<usize> {
    match first_at(name, marker) {
        Some(p) => {
            let after = name.skip(p + marker.len());
            match first_at(after, "."@) {
                Some(d) => read_usize(after.take(d)),
                None => None,
            }
        },
        None => None,
    }
}

/// The layer that a tensor name speaks of: `layers.{N}.` as safetensors files
/// write it, otherwise `blk.{N}.` as GGUF files do.
pub open spec fn layer_idx(name: Seq<char>) -> Option<usize> {
    match index_behind(name, "layers."@) {
        Some(i) => Some(i),
        None => index_behind(name, "blk."@),
    }
}

fn parse_index_behind(name: &str, marker: &str) -> (r: Option<usize>)
    ensures
        r == index_behind(name@, marker@),
{
    match find(name, marker) {
        Some(pos) => {
            let n = name.unicode_len();
            let m = marker.unicode_len();
            let after = name.substring_char(pos + m, n);
            assert(after@ =~= name@.skip(pos + marker@.len()));
            match find(after, ".") {
                Some(dot) => {
                    let digits = after.substring_char(0, dot);
                    assert(digits@ =~= after@.take(dot as int));
                    parse_usize(digits)
                },
                None => None,
            }
        },
        None => None,
    }
}

/// Extracts the layer index from a tensor name.
///
/// Handles both the safetensors pattern (`layers.{N}.`) and the GGUF pattern
/// (`blk.{N}.`), each behind any prefix.
pub fn parse_layer_idx(name: &str) -> (r: Option<usize>)
    ensures
        r == layer_idx(name@),
{
    match parse_index_behind(name, "layers.") {
        Some(i) => Some(i),
        None => parse_index_behind(name, "blk."),
    }
}

/// A weight of the vision encoder.
pub open spec fn is_vision_name(name: Seq<char>) -> bool {
    begins(name, "model.visual."@) || begins(name, "visual."@)
}

/// A norm or a bias.
pub open spec fn is_norm_or_bias(name: Seq<char>) -> bool {
    has(name, "norm"@) || has(name, "bias"@)
}

/// Whether the tensor belongs to the vision encoder.
pub fn is_vision_tensor(name: &str) -> (r: bool)
    ensures
        r == is_vision_name(name@),
{
    starts_with(name, "model.visual.") || starts_with(name, "visual.")
}

/// Whether a tensor is a weight matrix to quantize; norms, biases and the
/// vision encoder are kept as they are.
pub fn should_quantize(name: &str) -> (r: bool)
    ensures
        r == (!is_vision_name(name@) && !is_norm_or_bias(name@) && has(name@, "weight"@)),
{
    if is_vision_tensor(name) {
        return false;
    }
    if contains(name, "norm") || contains(name, "bias") {
        return false;
    }
    contains(name, "weight")
}

/// A tensor that mixed formats keep at eight bits: attention, embeddings, the
/// output head, and the two gates of a mixture-of-experts layer.
pub open spec fn wants_q8(name: Seq<char>) -> bool {
    ||| has(name, "self_attn"@)
    ||| has(name, "attn_q"@)
    ||| has(name, "attn_k"@)
    ||| has(name, "attn_v"@)
    ||| has(name, "attn_output"@)
    ||| has(name, "q_proj"@)
    ||| has(name, "k_proj"@)
    ||| has(name, "v_proj"@)
    ||| has(name, "o_proj"@)
    ||| has(name, "embed"@)
    ||| has(name, "lm_head"@)
    ||| has(name, "linear_attn"@)
    ||| ends(name, "mlp.gate.weight"@)
    ||| ends(name, "mlp.shared_expert_gate.weight"@)
}

/// For mixed formats: should this tensor be Q8 (fast) or Q4 (compressed)?
pub fn is_q8_tensor(name: &str) -> (r: bool)
    ensures
        r == wants_q8(name@),
{
    contains(name, "self_attn") || contains(name, "attn_q") || contains(name, "attn_k")
        || contains(name, "attn_v") || contains(name, "attn_output") || contains(name, "q_proj")
        || contains(name, "k_proj") || contains(name, "v_proj") || contains(name, "o_proj")
        || contains(name, "embed") || contains(name, "lm_head") || contains(name, "linear_attn")
        || ends_with(name, "mlp.gate.weight") || ends_with(name, "mlp.shared_expert_gate.weight")
}

/// Whether the tensor is a DeltaNet convolution weight
/// (`{prefix}.linear_attn.conv1d.weight`).
pub fn is_conv1d_tensor(name: &str) -> (r: bool)
    ensures
        r == ends(name@, "conv1d.weight"@),
{
    ends_with(name, "conv1d.weight")
}

/// Whether a path names a GGUF file: it is a regular file and its extension is
/// `gguf`.
pub fn is_gguf_input(is_file: bool, extension: Option<&str>) -> (r: bool)
    ensures
        r == (is_file && extension is Some && extension->0@ == "gguf"@),
{
    match extension {
        Some(e) => is_file && same(e, "gguf"),
        None => false,
    }
}

/// Whether a GGUF tensor is a norm scaling vector, which stays F16.
pub fn gguf_is_norm_tensor(name: &str) -> (r: bool)
    ensures
        r == (has(name@, "_norm"@) || has(name@, "norm.weight"@)),
{
    contains(name, "_norm") || contains(name, "norm.weight")
}

/// Whether a GGUF tensor is the token embedding, which is stored as Q8.
pub fn gguf_is_embed_tensor(name: &str) -> (r: bool)
    ensures
        r == (name@ == "token_embd.weight"@),
{
    same(name, "token_embd.weight")
}

/// The safetensors spelling of a per-layer GGUF slot, where one is known.
pub open spec fn slot_name(slot: Seq<char>) -> Option<Seq<char>> {
    if slot == "attn_norm"@ {
        Some("input_layernorm"@)
    } else if slot == "ffn_norm"@ {
        Some("post_attention_layernorm"@)
    } else if slot == "attn_q"@ {
        Some("self_attn.q_proj"@)
    } else if slot == "attn_k"@ {
        Some("self_attn.k_proj"@)
    } else if slot == "attn_v"@ {
        Some("self_attn.v_proj"@)
    } else if slot == "attn_output"@ {
        Some("self_attn.o_proj"@)
    } else if slot == "attn_q_norm"@ {
        Some("self_attn.q_norm"@)
    } else if slot == "attn_k_norm"@ {
        Some("self_attn.k_norm"@)
    } else if slot == "ffn_gate"@ {
        Some("mlp.gate_proj"@)
    } else if slot == "ffn_up"@ {
        Some("mlp.up_proj"@)
    } else if slot == "ffn_down"@ {
        Some("mlp.down_proj"@)
    } else {
        None
    }
}

/// `model.layers.{layer}.{slot}.weight`.
pub open spec fn layer_weight_name(layer: Seq<char>, slot: Seq<char>) -> Seq<char> {
    "model.layers."@ + layer + "."@ + slot + ".weight"@
}

/// The safetensors name of a GGUF tensor, where there is one.
pub open spec fn safetensors_name(name: Seq<char>) -> Option<Seq<char>> {
    if name == "token_embd.weight"@ {
        Some("model.embed_tokens.weight"@)
    } else if name == "output.weight"@ {
        Some("lm_head.weight"@)
    } else if name == "output_norm.weight"@ {
        Some("model.norm.weight"@)
    } else if begins(name, "blk."@) {
        let rest = name.skip("blk."@.len() as int);
        match first_at(rest, "."@) {
            Some(dot) => {
                let slot_full = rest.skip(dot + 1);
                if ends(slot_full, ".weight"@) {
                    let slot = slot_full.take(slot_full.len() - ".weight"@.len());
                    match slot_name(slot) {
                        Some(known) => Some(layer_weight_name(rest.take(dot), known)),
                        None => None,
                    }
                } else {
                    None
                }
            },
            None => None,
        }
    } else {
        None
    }
}

fn rename_slot(slot: &str) -> (r: Option<&'static str>)
    ensures
        match r {
            Some(s) => slot_name(slot@) == Some(s@),
            None => slot_name(slot@) is None,
        },
{
    if same(slot, "attn_norm") {
        Some("input_layernorm")
    } else if same(slot, "ffn_norm") {
        Some("post_attention_layernorm")
    } else if same(slot, "attn_q") {
        Some("self_attn.q_proj")
    } else if same(slot, "attn_k") {
        Some("self_attn.k_proj")
    } else if same(slot, "attn_v") {
        Some("self_attn.v_proj")
    } else if same(slot, "attn_output") {
        Some("self_attn.o_proj")
    } else if same(slot, "attn_q_norm") {
        Some("self_attn.q_norm")
    } else if same(slot, "attn_k_norm") {
        Some("self_attn.k_norm")
    } else if same(slot, "ffn_gate") {
        Some("mlp.gate_proj")
    } else if same(slot, "ffn_up") {
        Some("mlp.up_proj")
    } else if same(slot, "ffn_down") {
        Some("mlp.down_proj")
    } else {
        None
    }
}

/// Maps a llama.cpp GGUF tensor name to the HuggingFace safetensors name.
///
/// A `blk.{layer}.{slot}.weight` has one where the slot is among the eleven that
/// have a known spelling. `None` is returned for every other `blk.` name, and for
/// all names outside the layers but `token_embd.weight`, `output.weight` and
/// `output_norm.weight`: those tensors keep their GGUF name.
pub fn gguf_to_safetensors_name(gguf_name: &str) -> (r: Option<String>)
    ensures
        match r {
            Some(s) => safetensors_name(gguf_name@) == Some(s@),
            None => safetensors_name(gguf_name@) is None,
        },
{
    if same(gguf_name, "token_embd.weight") {
        return Some("model.embed_tokens.weight".to_owned());
    }
    if same(gguf_name, "output.weight") {
        return Some("lm_head.weight".to_owned());
    }
    if same(gguf_name, "output_norm.weight") {
        return Some("model.norm.weight".to_owned());
    }
    match strip_prefix(gguf_name, "blk.") {
        Some(rest) => {
            match find(rest, ".") {
                Some(dot) => {
                    proof {
                        reveal_strlit(".");
                    }
                    let n = rest.unicode_len();
                    let layer = rest.substring_char(0, dot);
                    assert(layer@ =~= rest@.take(dot as int));
                    let slot_full = rest.substring_char(dot + 1, n);
                    assert(slot_full@ =~= rest@.skip(dot + 1));
                    match strip_suffix(slot_full, ".weight") {
                        Some(slot) => match rename_slot(slot) {
                            Some(known) => {
                                let mut out = "model.layers.".to_owned();
                                out.append(layer);
                                out.append(".");
                                out.append(known);
                                out.append(".weight");
                                Some(out)
                            },
                            None => None,
                        },
                        None => None,
                    }
                },
                None => None,
            }
        },
        None => None,
    }
}

/// The safetensors name of a GGUF tensor; one without keeps its GGUF name.
pub open spec fn output_name(name: Seq<char>) -> Seq<char> {
    match safetensors_name(name) {
        Some(s) => s,
        None => name,
    }
}

/// The name under which a GGUF tensor is written.
pub fn gguf_output_name(gguf_name: &str) -> (r: String)
    ensures
        r@ == output_name(gguf_name@),
{
    match gguf_to_safetensors_name(gguf_name) {
        Some(s) => s,
        None => gguf_name.to_owned(),
    }
}

/// The imatrix name of a routed-expert tensor and its layer.
pub open spec fn imatrix_key(parent: Seq<char>) -> Option<(Seq<char>, usize)> {
    let gate = ".mlp.experts.gate_up_proj"@;
    let down = ".mlp.experts.down_proj"@;
    if ends(parent, gate) {
        imatrix_key_of(parent.take(parent.len() - gate.len()), "ffn_gate_exps"@)
    } else if ends(parent, down) {
        imatrix_key_of(parent.take(parent.len() - down.len()), "ffn_down_exps"@)
    } else {
        None
    }
}

/// The imatrix name for the layer at the end of `prefix`.
pub open spec fn imatrix_key_of(prefix: Seq<char>, kind: Seq<char>) -> Option<(Seq<char>, usize)> {
    match last_at(prefix, ".layers."@) {
        Some(p) => match read_usize(prefix.skip(p + ".layers."@.len())) {
            Some(n) => Some((imatrix_name(n, kind), n)),
            None => None,
        },
        None => None,
    }
}

/// `blk.{n}.{kind}.weight`.
pub open spec fn imatrix_name(n: usize, kind: Seq<char>) -> Seq<char> {
    "blk."@ + decimal(n as nat) + "."@ + kind + ".weight"@
}

fn format_imatrix_name(n: usize, kind: &str) -> (r: String)
    ensures
        r@ == imatrix_name(n, kind@),
{
    let mut out = "blk.".to_owned();
    let digits = format_usize(n);
    out.append(digits.as_str());
    out.append(".");
    out.append(kind);
    out.append(".weight");
    out
}

/// Maps a safetensors parent tensor name to the llama.cpp imatrix tensor base
/// name and the layer index. Returns `None` for anything but the routed-expert
/// tensors:
///
/// - `model.language_model.layers.0.mlp.experts.gate_up_proj` gives
///   `blk.0.ffn_gate_exps.weight` and 0;
/// - `model.language_model.layers.7.mlp.experts.down_proj` gives
///   `blk.7.ffn_down_exps.weight` and 7.
pub fn safetensors_to_imatrix_key(parent: &str) -> (r: Option<(String, usize)>)
    ensures
        match r {
            Some((key, n)) => imatrix_key(parent@) == Some((key@, n)),
            None => imatrix_key(parent@) is None,
        },
{
    let (prefix, kind) = match strip_suffix(parent, ".mlp.experts.gate_up_proj") {
        Some(p) => (p, "ffn_gate_exps"),
        None => match strip_suffix(parent, ".mlp.experts.down_proj") {
            Some(p) => (p, "ffn_down_exps"),
            None => {
                return None;
            },
        },
    };
    match rfind(prefix, ".layers.") {
        Some(pos) => {
            let n = prefix.unicode_len();
            let m = ".layers.".unicode_len();
            let digits = prefix.substring_char(pos + m, n);
            assert(digits@ =~= prefix@.skip(pos + ".layers."@.len()));
            match parse_usize(digits) {
                Some(idx) => Some((format_imatrix_name(idx, kind), idx)),
                None => None,
            }
        },
        None => None,
    }
}

/// No character of `s` is a dot.
pub open spec fn no_dot(s: Seq<char>) -> bool {
    forall|i: int| 0 <= i < s.len() ==> #[trigger] s[i] != '.'
}

/// `blk.{layer}.{slot}.weight`.
pub open spec fn gguf_layer_name(layer: Seq<char>, slot: Seq<char>) -> Seq<char> {
    "blk."@ + layer + "."@ + slot + ".weight"@
}

/// The first dot is the one behind a head that holds none.
pub proof fn lemma_dot_ends_prefix(head: Seq<char>, tail: Seq<char>)
    requires
        no_dot(head),
    ensures
        first_at(head + "."@ + tail, "."@) == Some(head.len() as int),
{
    reveal_strlit(".");
    let s = head + "."@ + tail;
    assert(s[head.len() as int] == '.');
    assert(occurs_at(s, "."@, head.len() as int));
    assert forall|j: int| #[trigger] occurs_at(s, "."@, j) implies head.len() <= j by {
        assert(s[j + 0] == "."@[0]);
        if j < head.len() {
            assert(s[j] == head[j]);
        }
    }
    lemma_first_at(s, "."@, head.len() as int);
}

/// A decimal number holds no dot.
pub proof fn lemma_decimal_has_no_dot(n: nat)
    ensures
        no_dot(decimal(n)),
{
    let digits = decimal(n);
    lemma_decimal_value(n);
    assert forall|i: int| 0 <= i < digits.len() implies #[trigger] digits[i] != '.' by {
        assert(is_digit(digits[i]));
    }
}

proof fn lemma_layer_name_is_split(layer: Seq<char>, slot: Seq<char>)
    requires
        no_dot(layer),
    ensures
        safetensors_name(gguf_layer_name(layer, slot)) == match slot_name(slot) {
            Some(known) => Some(layer_weight_name(layer, known)),
            None => None,
        },
{
    reveal_strlit("blk.");
    reveal_strlit(".");
    reveal_strlit(".weight");
    reveal_strlit("token_embd.weight");
    reveal_strlit("output.weight");
    reveal_strlit("output_norm.weight");
    let name = gguf_layer_name(layer, slot);
    assert(name[0] == 'b');
    assert(begins(name, "blk."@)) by {
        assert forall|k: int| 0 <= k < "blk."@.len() implies name[0 + k] == #[trigger] "blk."@[k] by {}
    }
    let rest = name.skip("blk."@.len() as int);
    let tail = slot + ".weight"@;
    assert(rest =~= layer + "."@ + tail);
    lemma_dot_ends_prefix(layer, tail);
    let slot_full = rest.skip(layer.len() as int + 1);
    assert(slot_full =~= tail);
    assert(ends(slot_full, ".weight"@)) by {
        assert forall|k: int| 0 <= k < ".weight"@.len() implies slot_full[slot_full.len()
            - ".weight"@.len() + k] == #[trigger] ".weight"@[k] by {}
    }
    assert(slot_full.take(slot_full.len() - ".weight"@.len()) =~= slot);
    assert(rest.take(layer.len() as int) =~= layer);
}

/// A per-layer GGUF weight whose slot has a known spelling has a safetensors name:
/// `blk.{layer}.{slot}.weight` becomes `model.layers.{layer}.{slot}.weight` with
/// that spelling, whatever the layer, as long as it holds no dot.
pub proof fn law_layer_weights_are_renamed(layer: Seq<char>, slot: Seq<char>)
    requires
        no_dot(layer),
        slot_name(slot) is Some,
    ensures
        safetensors_name(gguf_layer_name(layer, slot)) == Some(
            layer_weight_name(layer, slot_name(slot)->0),
        ),
{
    lemma_layer_name_is_split(layer, slot);
}

/// A per-layer GGUF weight whose slot has no known spelling keeps its GGUF name.
pub proof fn law_unknown_slots_are_kept(layer: Seq<char>, slot: Seq<char>)
    requires
        no_dot(layer),
        slot_name(slot) is None,
    ensures
        safetensors_name(gguf_layer_name(layer, slot)) is None,
        output_name(gguf_layer_name(layer, slot)) == gguf_layer_name(layer, slot),
{
    lemma_layer_name_is_split(layer, slot);
}

/// Every `blk.` name that is not `blk.{layer}.{slot}.weight` with a known slot
/// keeps its GGUF name.
pub proof fn law_other_layer_names_are_kept(name: Seq<char>)
    requires
        begins(name, "blk."@),
        forall|layer: Seq<char>, slot: Seq<char>|
            no_dot(layer) && slot_name(slot) is Some ==> name != #[trigger] gguf_layer_name(
                layer,
                slot,
            ),
    ensures
        safetensors_name(name) is None,
        output_name(name) == name,
{
    reveal_strlit("blk.");
    reveal_strlit(".");
    reveal_strlit(".weight");
    reveal_strlit("token_embd.weight");
    reveal_strlit("output.weight");
    reveal_strlit("output_norm.weight");
    assert(name[0] == "blk."@[0]);
    let rest = name.skip("blk."@.len() as int);
    if let Some(dot) = first_at(rest, "."@) {
        let slot_full = rest.skip(dot + 1);
        if ends(slot_full, ".weight"@) {
            let layer = rest.take(dot);
            let slot = slot_full.take(slot_full.len() - ".weight"@.len());
            lemma_first_is_leftmost(rest, "."@);
            assert(no_dot(layer)) by {
                assert forall|i: int| 0 <= i < layer.len() implies #[trigger] layer[i] != '.' by {
                    if layer[i] == '.' {
                        assert(occurs_at(rest, "."@, i));
                    }
                }
            }
            assert(rest[dot + 0] == "."@[0]);
            assert forall|k: int| 0 <= k < name.len() implies name[k] == #[trigger] gguf_layer_name(
                layer,
                slot,
            )[k] by {
                if k < 4 {
                    assert(name[0 + k] == "blk."@[k]);
                } else if k >= name.len() - 7 {
                    let j = k - (name.len() - 7);
                    assert(slot_full[slot_full.len() - 7 + j] == ".weight"@[j]);
                }
            }
            assert(name =~= gguf_layer_name(layer, slot));
        }
    }
}

/// The safetensors name of a layer weight tells the layer's index, whatever the
/// slot holds.
pub proof fn law_layer_weight_name_tells_layer(n: usize, slot: Seq<char>)
    ensures
        layer_idx(layer_weight_name(decimal(n as nat), slot)) == Some(n),
{
    reveal_strlit("model.layers.");
    reveal_strlit("layers.");
    reveal_strlit(".");
    let digits = decimal(n as nat);
    let name = layer_weight_name(digits, slot);
    let tail = slot + ".weight"@;
    lemma_decimal_has_no_dot(n as nat);
    assert(occurs_at(name, "layers."@, 6)) by {
        assert forall|k: int| 0 <= k < "layers."@.len() implies name[6 + k]
            == #[trigger] "layers."@[k] by {
            assert(name[6 + k] == "model.layers."@[6 + k]);
        }
    }
    assert forall|j: int| #[trigger] occurs_at(name, "layers."@, j) implies 6 <= j by {
        assert(name[j + 0] == "layers."@[0]);
        assert(name[j + 1] == "layers."@[1]);
        if j < 6 {
            assert(name[j] == "model.layers."@[j]);
            assert(name[j + 1] == "model.layers."@[j + 1]);
        }
    }
    lemma_first_at(name, "layers."@, 6);
    let after = name.skip(6 + "layers."@.len() as int);
    assert(after =~= digits + "."@ + tail);
    lemma_dot_ends_prefix(digits, tail);
    assert(after.take(digits.len() as int) =~= digits);
    law_decimal_round_trip(n);
}

/// Renaming a GGUF layer weight keeps its layer: the name that comes out tells
/// the index that stood behind `blk.`.
pub proof fn law_renaming_keeps_layer(n: usize, slot: Seq<char>)
    requires
        slot_name(slot) is Some,
    ensures
        safetensors_name(gguf_layer_name(decimal(n as nat), slot)) is Some,
        layer_idx(safetensors_name(gguf_layer_name(decimal(n as nat), slot))->0) == Some(n),
{
    let digits = decimal(n as nat);
    lemma_decimal_has_no_dot(n as nat);
    law_layer_weights_are_renamed(digits, slot);
    law_layer_weight_name_tells_layer(n, slot_name(slot)->0);
}

#[verifier::rlimit(40)]
proof fn lemma_layer_at_end(front: Seq<char>, n: usize)
    ensures
        last_at(front + ".layers."@ + decimal(n as nat), ".layers."@) == Some(front.len() as int),
{
    reveal_strlit(".layers.");
    let digits = decimal(n as nat);
    lemma_decimal_value(n as nat);
    let s = front + ".layers."@ + digits;
    assert(occurs_at(s, ".layers."@, front.len() as int)) by {
        assert forall|k: int| 0 <= k < ".layers."@.len() implies s[front.len() + k]
            == #[trigger] ".layers."@[k] by {}
    }
    assert forall|j: int| #[trigger] occurs_at(s, ".layers."@, j) implies j <= front.len() by {
        assert(s[j + 0] == ".layers."@[0]);
        assert(s[j + 1] == ".layers."@[1]);
        if j > front.len() {
            if j < front.len() + 8 {
                assert(s[j] == ".layers."@[j - front.len()]);
                if j < front.len() + 7 {
                    assert(s[j + 1] == ".layers."@[j + 1 - front.len()]);
                } else {
                    assert(s[j + 1] == digits[0]);
                    assert(is_digit(digits[0]));
                }
            } else {
                assert(s[j] == digits[j - front.len() - 8]);
                assert(is_digit(digits[j - front.len() - 8]));
            }
        }
    }
    lemma_last_at(s, ".layers."@, front.len() as int);
}

/// `{front}.layers.{n}.mlp.experts.gate_up_proj` has the imatrix name
/// `blk.{n}.ffn_gate_exps.weight`, and `{front}.layers.{n}.mlp.experts.down_proj`
/// has `blk.{n}.ffn_down_exps.weight`; both give the layer `n`.
pub proof fn law_expert_imatrix_keys(front: Seq<char>, n: usize)
    ensures
        imatrix_key(
            front + ".layers."@ + decimal(n as nat) + ".mlp.experts.gate_up_proj"@,
        ) == Some((imatrix_name(n, "ffn_gate_exps"@), n)),
        imatrix_key(front + ".layers."@ + decimal(n as nat) + ".mlp.experts.down_proj"@) == Some(
            (imatrix_name(n, "ffn_down_exps"@), n),
        ),
{
    reveal_strlit(".layers.");
    reveal_strlit(".mlp.experts.gate_up_proj");
    reveal_strlit(".mlp.experts.down_proj");
    let gate = ".mlp.experts.gate_up_proj"@;
    let down = ".mlp.experts.down_proj"@;
    let prefix = front + ".layers."@ + decimal(n as nat);
    lemma_layer_at_end(front, n);
    law_decimal_round_trip(n);
    assert(prefix.skip(front.len() as int + ".layers."@.len()) =~= decimal(n as nat));
    let g = prefix + gate;
    assert(ends(g, gate)) by {
        assert forall|k: int| 0 <= k < gate.len() implies g[g.len() - gate.len() + k]
            == #[trigger] gate[k] by {}
    }
    assert(g.take(g.len() - gate.len()) =~= prefix);
    let d = prefix + down;
    assert(ends(d, down)) by {
        assert forall|k: int| 0 <= k < down.len() implies d[d.len() - down.len() + k]
            == #[trigger] down[k] by {}
    }
    assert(d.take(d.len() - down.len()) =~= prefix);
    assert(!ends(d, gate)) by {
        if ends(d, gate) {
            // The character before `_proj` is `p` in one suffix and `n` in the other.
            let k = gate.len() - 6;
            assert(d[d.len() - gate.len() + k] == gate[k]);
            assert(d[d.len() - 6] == down[down.len() - 6]);
        }
    }
}

// What names tell.

/// The layer of a name is the number that stands, up to a dot, behind the first
/// `layers.` in it.
pub proof fn law_layer_stands_behind_layers(front: Seq<char>, text: Seq<char>, tail: Seq<char>)
    requires
        forall|i: int| 0 <= i < text.len() ==> #[trigger] text[i] != '.',
        forall|j: int, e: int|
            0 <= j < front.len() && e == j + 7 ==> #[trigger] (front + "layers."@ + text + "."@
                + tail).subrange(j, e) != "layers."@,
        read_usize(text) is Some,
    ensures
        layer_idx(front + "layers."@ + text + "."@ + tail) == read_usize(text),
{
    reveal_strlit("layers.");
    reveal_strlit(".");
    let name = front + "layers."@ + text + "."@ + tail;
    assert(name.subrange(front.len() as int, front.len() as int + 7) =~= "layers."@);
    law_occurrences_are_parts(name, "layers."@, front.len() as int);
    assert forall|j: int| #[trigger] occurs_at(name, "layers."@, j) implies front.len() <= j by {
        law_occurrences_are_parts(name, "layers."@, j);
        if j < front.len() {
            let e = j + 7;
            assert(name.subrange(j, e) == "layers."@);
        }
    }
    lemma_first_at(name, "layers."@, front.len() as int);
    let after = name.skip(front.len() as int + "layers."@.len() as int);
    assert(after =~= text + "."@ + tail);
    lemma_dot_ends_prefix(text, tail);
    assert(after.take(text.len() as int) =~= text);
}

/// A name without `layers.` has the layer that stands behind its first `blk.`, and
/// a name with neither has none.
pub proof fn law_layer_stands_behind_blk(name: Seq<char>, p: int, d: int)
    requires
        !(has(name, "layers."@)),
    ensures
        !(has(name, "blk."@)) ==> layer_idx(name) is None,
        is_leftmost(name, "blk."@, p) && is_leftmost(name.skip(p + 4), "."@, d) ==> layer_idx(name)
            == read_usize(name.subrange(p + 4, p + 4 + d)),
{
    reveal_strlit("blk.");
    reveal_strlit(".");
    if is_leftmost(name, "blk."@, p) && is_leftmost(name.skip(p + 4), "."@, d) {
        lemma_first_at(name, "blk."@, p);
        lemma_first_at(name.skip(p + 4), "."@, d);
        assert(name.skip(p + 4).take(d) =~= name.subrange(p + 4, p + 4 + d));
    }
}

/// The tensors of the vision encoder begin with `model.visual.` or `visual.`; no
/// other name does.
pub proof fn law_vision_names(name: Seq<char>)
    ensures
        is_vision_name(name) <==> begins(name, "model.visual."@) || begins(name, "visual."@),
        is_norm_or_bias(name) <==> has(name, "norm"@) || has(name, "bias"@),
{
}

/// The tensors that mixed formats hold at Q8: attention, embeddings, the output
/// head, and routers.
pub proof fn law_q8_names(name: Seq<char>)
    ensures
        wants_q8(name) <==> has(name, "self_attn"@) || has(name, "attn_q"@) || has(name, "attn_k"@)
            || has(name, "attn_v"@) || has(name, "attn_output"@) || has(name, "q_proj"@) || has(
            name,
            "k_proj"@,
        ) || has(name, "v_proj"@) || has(name, "o_proj"@) || has(name, "embed"@) || has(
            name,
            "lm_head"@,
        ) || has(name, "linear_attn"@) || ends(name, "mlp.gate.weight"@) || ends(
            name,
            "mlp.shared_expert_gate.weight"@,
        ),
{
}

/// The eleven slots with a spelling of their own, and what it is.
pub proof fn law_slots_have_spellings(slot: Seq<char>)
    ensures
        match slot_name(slot) {
            Some(k) => (slot == "attn_norm"@ && k == "input_layernorm"@)
                || (slot == "ffn_norm"@ && k == "post_attention_layernorm"@)
                || (slot == "attn_q"@ && k == "self_attn.q_proj"@)
                || (slot == "attn_k"@ && k == "self_attn.k_proj"@)
                || (slot == "attn_v"@ && k == "self_attn.v_proj"@)
                || (slot == "attn_output"@ && k == "self_attn.o_proj"@)
                || (slot == "attn_q_norm"@ && k == "self_attn.q_norm"@)
                || (slot == "attn_k_norm"@ && k == "self_attn.k_norm"@)
                || (slot == "ffn_gate"@ && k == "mlp.gate_proj"@)
                || (slot == "ffn_up"@ && k == "mlp.up_proj"@)
                || (slot == "ffn_down"@ && k == "mlp.down_proj"@),
            None => slot != "attn_norm"@ && slot != "ffn_norm"@ && slot != "attn_q"@
                && slot != "attn_k"@ && slot != "attn_v"@ && slot != "attn_output"@
                && slot != "attn_q_norm"@ && slot != "attn_k_norm"@ && slot != "ffn_gate"@
                && slot != "ffn_up"@ && slot != "ffn_down"@,
        },
{
}

/// Outside the layers three tensors have a safetensors name: the token embedding,
/// the output head and the last norm.
pub proof fn law_names_outside_layers(name: Seq<char>)
    ensures
        safetensors_name("token_embd.weight"@) == Some("model.embed_tokens.weight"@),
        safetensors_name("output.weight"@) == Some("lm_head.weight"@),
        safetensors_name("output_norm.weight"@) == Some("model.norm.weight"@),
        !begins(name, "blk."@) && name != "token_embd.weight"@ && name != "output.weight"@ && name
            != "output_norm.weight"@ ==> safetensors_name(name) is None && output_name(name) == name,
{
    reveal_strlit("token_embd.weight");
    reveal_strlit("output.weight");
    reveal_strlit("output_norm.weight");
    assert("token_embd.weight"@[0] == 't' && "output.weight"@[0] == 'o');
    assert("output_norm.weight"@[0] == 'o');
    assert("output.weight"@.len() != "output_norm.weight"@.len());
}

/// A stack of experts has its importance under `blk.{n}.{kind}.weight`. A name that
/// is no stack, or that tells no layer, has none.
pub proof fn law_imatrix_names(parent: Seq<char>, n: usize, kind: Seq<char>)
    ensures
        imatrix_name(n, kind) == "blk."@ + decimal(n as nat) + "."@ + kind + ".weight"@,
        !ends(parent, ".mlp.experts.gate_up_proj"@) && !ends(parent, ".mlp.experts.down_proj"@)
            ==> imatrix_key(parent) is None,
        !(has(parent, ".layers."@)) ==> imatrix_key(parent) is None,
{
    if !(has(parent, ".layers."@)) {
        lemma_absent_before(parent, ".mlp.experts.gate_up_proj"@.len() as int);
        lemma_absent_before(parent, ".mlp.experts.down_proj"@.len() as int);
    }
}

proof fn lemma_absent_before(parent: Seq<char>, n: int)
    requires
        !(has(parent, ".layers."@)),
        n >= 0,
    ensures
        n <= parent.len() ==> !(has(parent.take(parent.len() - n), ".layers."@)),
{
    if n <= parent.len() {
        let front = parent.take(parent.len() - n);
        if has(front, ".layers."@) {
            let i = choose|i: int| #[trigger] occurs_at(front, ".layers."@, i);
            assert(occurs_at(parent, ".layers."@, i)) by {
                assert forall|k: int| 0 <= k < ".layers."@.len() implies parent[i + k]
                    == #[trigger] ".layers."@[k] by {
                    assert(front[i + k] == ".layers."@[k]);
                }
            }
        }
    }
}

/// A name whose first `layers.` has no number up to a dot behind it, and that holds no
/// `blk.`, tells no layer.
pub proof fn law_no_number_is_no_layer(name: Seq<char>, p: int, d: int)
    requires
        is_leftmost(name, "layers."@, p),
        !(has(name, "blk."@)),
    ensures
        !(has(name.skip(p + 7), "."@)) ==> layer_idx(name) is None,
        is_leftmost(name.skip(p + 7), "."@, d) ==> layer_idx(name) == read_usize(
            name.subrange(p + 7, p + 7 + d),
        ),
{
    reveal_strlit("layers.");
    reveal_strlit(".");
    lemma_first_at(name, "layers."@, p);
    if is_leftmost(name.skip(p + 7), "."@, d) {
        lemma_first_at(name.skip(p + 7), "."@, d);
        assert(name.skip(p + 7).take(d) =~= name.subrange(p + 7, p + 7 + d));
    }
}

/// The importance of a stack goes by the number behind the last `.layers.` before the
/// experts: whatever text reads as a number names that layer, and any other text
/// none.
pub proof fn law_imatrix_keys_go_by_last_layer(front: Seq<char>, text: Seq<char>, down: bool)
    requires
        is_rightmost(front + ".layers."@ + text, ".layers."@, front.len() as int),
    ensures
        ({
            let kind = if down {
                "ffn_down_exps"@
            } else {
                "ffn_gate_exps"@
            };
            let suffix = if down {
                ".mlp.experts.down_proj"@
            } else {
                ".mlp.experts.gate_up_proj"@
            };
            let key = imatrix_key(front + ".layers."@ + text + suffix);
            match read_usize(text) {
                Some(n) => key == Some(
                    ("blk."@ + decimal(n as nat) + "."@ + kind + ".weight"@, n),
                ),
                None => key is None,
            }
        }),
{
    reveal_strlit(".mlp.experts.gate_up_proj");
    reveal_strlit(".mlp.experts.down_proj");
    let gate = ".mlp.experts.gate_up_proj"@;
    let end = ".mlp.experts.down_proj"@;
    let suffix = if down {
        end
    } else {
        gate
    };
    let prefix = front + ".layers."@ + text;
    let name = prefix + suffix;
    lemma_last_at(prefix, ".layers."@, front.len() as int);
    assert(prefix.skip(front.len() as int + ".layers."@.len()) =~= text);
    assert(name.take(name.len() - suffix.len()) =~= prefix);
    assert(ends(name, suffix)) by {
        assert forall|k: int| 0 <= k < suffix.len() implies name[name.len() - suffix.len() + k]
            == #[trigger] suffix[k] by {}
    }
    if down {
        assert(!ends(name, gate)) by {
            if ends(name, gate) {
                let k = gate.len() - 6;
                assert(name[name.len() - gate.len() + k] == gate[k]);
                assert(name[name.len() - 6] == end[end.len() - 6]);
            }
        }
    }
}

/// The two spellings of a layer weight, written out.
pub proof fn law_layer_weights_are_spelled(layer: Seq<char>, slot: Seq<char>)
    ensures
        gguf_layer_name(layer, slot) == "blk."@ + layer + "."@ + slot + ".weight"@,
        layer_weight_name(layer, slot) == "model.layers."@ + layer + "."@ + slot + ".weight"@,
{
}

} // verus!
