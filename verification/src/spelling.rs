//! The two spellings of a layer weight, GGUF and safetensors, and the K-map:
//! a tensor's precision does not depend on which of them names it.
use vstd::prelude::*;

#[allow(unused_imports)]
use crate::decimal::{all_digits, decimal, is_digit, law_decimal_round_trip, lemma_decimal_value};
#[allow(unused_imports)]
use crate::kmap::{is_down, is_embedding, is_ffn, is_router, is_value, level, QuantLevel};
#[allow(unused_imports)]
use crate::names::{
    gguf_layer_name, is_norm_or_bias, law_layer_weight_name_tells_layer,
    law_layer_weights_are_renamed, layer_idx, layer_weight_name, lemma_decimal_has_no_dot,
    lemma_dot_ends_prefix, safetensors_name, slot_name,
};
#[allow(unused_imports)]
use crate::text::{has, lemma_first_at, occurs_at};

verus! {

/// Nowhere in `s` does `b` follow `a`.
spec fn pairless(s: Seq<char>, a: char, b: char) -> bool {
    forall|i: int| 0 <= i < s.len() - 1 ==> !(#[trigger] s[i] == a && s[i + 1] == b)
}

/// What every part of the name of a plain weight lacks: a pair of characters of
/// each text that names a norm, a bias, an embedding, the output head or an
/// expert.
spec fn plain(s: Seq<char>) -> bool {
    &&& pairless(s, 'n', 'o')
    &&& pairless(s, 'b', 'i')
    &&& pairless(s, 'm', 'b')
    &&& pairless(s, 'l', 'm')
    &&& pairless(s, 'u', 't')
    &&& pairless(s, 's', 'h')
    &&& pairless(s, 'x', 'p')
}

/// How the text behind the layer's index spells a weight of the given type.
spec fn spelled(tail: Seq<char>, down: bool, value: bool, ffn: bool) -> bool {
    &&& plain(tail)
    &&& pairless(tail, 'e', '.') || pairless(tail, 'm', 'l')
    &&& if down {
        is_down(tail)
    } else {
        pairless(tail, 'd', 'o')
    }
    &&& if value {
        is_value(tail)
    } else {
        pairless(tail, 'v', '_') && pairless(tail, '_', 'v')
    }
    &&& if ffn {
        is_ffn(tail)
    } else {
        pairless(tail, 'm', 'l') && pairless(tail, 'f', 'f')
    }
}

/// A text with `a` and `b` at `k` and `k + 1` occurs in no name whose parts
/// around the layer's index have no such pair.
proof fn lemma_absent(
    front: Seq<char>,
    digits: Seq<char>,
    tail: Seq<char>,
    pat: Seq<char>,
    k: int,
    a: char,
    b: char,
)
    requires
        digits.len() > 0,
        all_digits(digits),
        0 <= k < pat.len() - 1,
        pat[k] == a,
        pat[k + 1] == b,
        !is_digit(a),
        !is_digit(b),
        pairless(front, a, b),
        pairless(tail, a, b),
    ensures
        !(has(front + digits + tail, pat)),
{
    let s = front + digits + tail;
    assert forall|i: int| !(#[trigger] occurs_at(s, pat, i)) by {
        if occurs_at(s, pat, i) {
            let p = i + k;
            assert(s[i + k] == pat[k]);
            assert(s[i + (k + 1)] == pat[k + 1]);
            if p + 1 < front.len() {
                assert(s[p] == front[p]);
                assert(s[p + 1] == front[p + 1]);
            } else if p + 1 < front.len() + digits.len() {
                assert(s[p + 1] == digits[p + 1 - front.len()]);
                assert(is_digit(digits[p + 1 - front.len()]));
            } else if p < front.len() + digits.len() {
                assert(s[p] == digits[p - front.len()]);
                assert(is_digit(digits[p - front.len()]));
            } else {
                let q = p - front.len() - digits.len();
                assert(s[p] == tail[q]);
                assert(s[p + 1] == tail[q + 1]);
            }
        }
    }
}

/// What occurs in the tail of a name occurs in the name.
proof fn lemma_in_tail(front: Seq<char>, tail: Seq<char>, pat: Seq<char>)
    requires
        has(tail, pat),
    ensures
        has(front + tail, pat),
{
    let i = choose|i: int| #[trigger] occurs_at(tail, pat, i);
    let s = front + tail;
    assert(occurs_at(s, pat, front.len() + i)) by {
        assert forall|k: int| 0 <= k < pat.len() implies s[front.len() + i + k]
            == #[trigger] pat[k] by {
            assert(s[front.len() + i + k] == tail[i + k]);
        }
    }
}

/// What occurs in the middle of a name occurs in the name.
proof fn lemma_in_middle(front: Seq<char>, middle: Seq<char>, tail: Seq<char>, pat: Seq<char>)
    requires
        has(middle, pat),
    ensures
        has(front + middle + tail, pat),
{
    let i = choose|i: int| #[trigger] occurs_at(middle, pat, i);
    assert(occurs_at(middle + tail, pat, i)) by {
        assert forall|k: int| 0 <= k < pat.len() implies (middle + tail)[i + k]
            == #[trigger] pat[k] by {
            assert(middle[i + k] == pat[k]);
        }
    }
    lemma_in_tail(front, middle + tail, pat);
    assert(front + middle + tail =~= front + (middle + tail));
}

/// A name made of plain parts is no norm, bias, embedding or output head, and
/// belongs to no expert.
proof fn lemma_plain(front: Seq<char>, digits: Seq<char>, tail: Seq<char>)
    requires
        digits.len() > 0,
        all_digits(digits),
        plain(front),
        plain(tail),
    ensures
        !is_norm_or_bias(front + digits + tail),
        !is_embedding(front + digits + tail),
        !(has(front + digits + tail, "shared_expert_gate"@)),
        !(has(front + digits + tail, "mlp.experts."@)),
{
    reveal_strlit("norm");
    reveal_strlit("bias");
    reveal_strlit("embed_tokens");
    reveal_strlit("token_embd");
    reveal_strlit("lm_head");
    reveal_strlit("output.weight");
    reveal_strlit("shared_expert_gate");
    reveal_strlit("mlp.experts.");
    lemma_absent(front, digits, tail, "norm"@, 0, 'n', 'o');
    lemma_absent(front, digits, tail, "bias"@, 0, 'b', 'i');
    lemma_absent(front, digits, tail, "embed_tokens"@, 1, 'm', 'b');
    lemma_absent(front, digits, tail, "token_embd"@, 7, 'm', 'b');
    lemma_absent(front, digits, tail, "lm_head"@, 0, 'l', 'm');
    lemma_absent(front, digits, tail, "output.weight"@, 1, 'u', 't');
    lemma_absent(front, digits, tail, "shared_expert_gate"@, 0, 's', 'h');
    lemma_absent(front, digits, tail, "mlp.experts."@, 5, 'x', 'p');
}

/// What the K-map reads off a name of known spelling.
proof fn lemma_spelled(
    front: Seq<char>,
    digits: Seq<char>,
    tail: Seq<char>,
    down: bool,
    value: bool,
    ffn: bool,
)
    requires
        digits.len() > 0,
        all_digits(digits),
        spelled(front, false, false, false),
        pairless(front, 'e', '.'),
        spelled(tail, down, value, ffn),
    ensures
        !is_norm_or_bias(front + digits + tail),
        !is_embedding(front + digits + tail),
        !is_router(front + digits + tail),
        !(has(front + digits + tail, "mlp.experts."@)),
        is_down(front + digits + tail) == down,
        is_value(front + digits + tail) == value,
        is_ffn(front + digits + tail) == ffn,
{
    reveal_strlit("mlp.gate.weight");
    reveal_strlit("down_proj");
    reveal_strlit("ffn_down");
    reveal_strlit("v_proj");
    reveal_strlit("attn_v");
    reveal_strlit("mlp.");
    reveal_strlit("ffn");
    lemma_plain(front, digits, tail);
    if pairless(tail, 'e', '.') {
        lemma_absent(front, digits, tail, "mlp.gate.weight"@, 7, 'e', '.');
    } else {
        lemma_absent(front, digits, tail, "mlp.gate.weight"@, 0, 'm', 'l');
    }
    if down {
        if has(tail, "down_proj"@) {
            lemma_in_tail(front + digits, tail, "down_proj"@);
        } else {
            lemma_in_tail(front + digits, tail, "ffn_down"@);
        }
    } else {
        lemma_absent(front, digits, tail, "down_proj"@, 0, 'd', 'o');
        lemma_absent(front, digits, tail, "ffn_down"@, 4, 'd', 'o');
    }
    if value {
        if has(tail, "v_proj"@) {
            lemma_in_tail(front + digits, tail, "v_proj"@);
        } else {
            lemma_in_tail(front + digits, tail, "attn_v"@);
        }
    } else {
        lemma_absent(front, digits, tail, "v_proj"@, 0, 'v', '_');
        lemma_absent(front, digits, tail, "attn_v"@, 4, '_', 'v');
    }
    if ffn {
        if has(tail, "mlp."@) {
            lemma_in_tail(front + digits, tail, "mlp."@);
        } else {
            lemma_in_tail(front + digits, tail, "ffn"@);
        }
    } else {
        lemma_absent(front, digits, tail, "mlp."@, 0, 'm', 'l');
        lemma_absent(front, digits, tail, "ffn"@, 0, 'f', 'f');
    }
}

/// The front of either spelling names no type of weight.
proof fn lemma_fronts()
    ensures
        spelled("blk."@, false, false, false),
        pairless("blk."@, 'e', '.'),
        spelled("model.layers."@, false, false, false),
        pairless("model.layers."@, 'e', '.'),
{
    reveal_strlit("blk.");
    reveal_strlit("model.layers.");
}

/// A GGUF name tells the index behind `blk.`, as long as no `layers.` stands in it.
proof fn lemma_gguf_name_tells_layer(n: usize, slot: Seq<char>)
    requires
        pairless("."@ + slot + ".weight"@, 'a', 'y'),
    ensures
        layer_idx(gguf_layer_name(decimal(n as nat), slot)) == Some(n),
{
    reveal_strlit("blk.");
    reveal_strlit("layers.");
    let digits = decimal(n as nat);
    let name = gguf_layer_name(digits, slot);
    let tail = slot + ".weight"@;
    lemma_decimal_value(n as nat);
    lemma_decimal_has_no_dot(n as nat);
    assert("."@ + slot + ".weight"@ =~= "."@ + tail);
    lemma_absent("blk."@, digits, "."@ + tail, "layers."@, 1, 'a', 'y');
    assert(name =~= "blk."@ + digits + ("."@ + tail));
    assert(occurs_at(name, "blk."@, 0)) by {
        assert forall|k: int| 0 <= k < "blk."@.len() implies name[0 + k] == #[trigger] "blk."@[k] by {}
    }
    lemma_first_at(name, "blk."@, 0);
    let after = name.skip(0 + "blk."@.len() as int);
    assert(after =~= digits + "."@ + tail);
    lemma_dot_ends_prefix(digits, tail);
    assert(after.take(digits.len() as int) =~= digits);
    law_decimal_round_trip(n);
}

/// Two spellings of one type of weight get the same level.
proof fn lemma_weights_agree(
    n: usize,
    slot: Seq<char>,
    known: Seq<char>,
    down: bool,
    value: bool,
    ffn: bool,
    n_layers: usize,
    is_moe: bool,
    mode: u8,
)
    requires
        spelled("."@ + slot + ".weight"@, down, value, ffn),
        pairless("."@ + slot + ".weight"@, 'a', 'y'),
        spelled("."@ + known + ".weight"@, down, value, ffn),
    ensures
        level(gguf_layer_name(decimal(n as nat), slot), n_layers, is_moe, mode) == level(
            layer_weight_name(decimal(n as nat), known),
            n_layers,
            is_moe,
            mode,
        ),
{
    let digits = decimal(n as nat);
    let gguf = gguf_layer_name(digits, slot);
    let hf = layer_weight_name(digits, known);
    lemma_decimal_value(n as nat);
    lemma_fronts();
    assert(gguf =~= "blk."@ + digits + ("."@ + slot + ".weight"@));
    assert(hf =~= "model.layers."@ + digits + ("."@ + known + ".weight"@));
    lemma_spelled("blk."@, digits, "."@ + slot + ".weight"@, down, value, ffn);
    lemma_spelled("model.layers."@, digits, "."@ + known + ".weight"@, down, value, ffn);
    lemma_gguf_name_tells_layer(n, slot);
    law_layer_weight_name_tells_layer(n, known);
}

/// A norm is one under either spelling.
proof fn lemma_norms_agree(
    layer: Seq<char>,
    slot: Seq<char>,
    known: Seq<char>,
    n_layers: usize,
    is_moe: bool,
    mode: u8,
)
    requires
        has(slot, "norm"@),
        has(known, "norm"@),
    ensures
        level(gguf_layer_name(layer, slot), n_layers, is_moe, mode) == QuantLevel::F16,
        level(layer_weight_name(layer, known), n_layers, is_moe, mode) == QuantLevel::F16,
{
    lemma_in_middle("blk."@ + layer + "."@, slot, ".weight"@, "norm"@);
    lemma_in_middle("model.layers."@ + layer + "."@, known, ".weight"@, "norm"@);
}

proof fn lemma_attn_q()
    ensures
        spelled("."@ + "attn_q"@ + ".weight"@, false, false, false),
        pairless("."@ + "attn_q"@ + ".weight"@, 'a', 'y'),
        spelled("."@ + "self_attn.q_proj"@ + ".weight"@, false, false, false),
{
    reveal_strlit(".");
    reveal_strlit(".weight");
    reveal_strlit("attn_q");
    reveal_strlit("self_attn.q_proj");
}

proof fn lemma_attn_k()
    ensures
        spelled("."@ + "attn_k"@ + ".weight"@, false, false, false),
        pairless("."@ + "attn_k"@ + ".weight"@, 'a', 'y'),
        spelled("."@ + "self_attn.k_proj"@ + ".weight"@, false, false, false),
{
    reveal_strlit(".");
    reveal_strlit(".weight");
    reveal_strlit("attn_k");
    reveal_strlit("self_attn.k_proj");
}

proof fn lemma_attn_v()
    ensures
        spelled("."@ + "attn_v"@ + ".weight"@, false, true, false),
        pairless("."@ + "attn_v"@ + ".weight"@, 'a', 'y'),
        spelled("."@ + "self_attn.v_proj"@ + ".weight"@, false, true, false),
{
    reveal_strlit(".");
    reveal_strlit(".weight");
    reveal_strlit("attn_v");
    reveal_strlit("self_attn.v_proj");
    reveal_strlit("v_proj");
    let gguf = "."@ + "attn_v"@ + ".weight"@;
    assert(occurs_at(gguf, "attn_v"@, 1));
    let hf = "."@ + "self_attn.v_proj"@ + ".weight"@;
    assert(occurs_at(hf, "v_proj"@, 11));
}

proof fn lemma_ffn_gate()
    ensures
        spelled("."@ + "ffn_gate"@ + ".weight"@, false, false, true),
        pairless("."@ + "ffn_gate"@ + ".weight"@, 'a', 'y'),
        spelled("."@ + "mlp.gate_proj"@ + ".weight"@, false, false, true),
{
    reveal_strlit(".");
    reveal_strlit(".weight");
    reveal_strlit("ffn_gate");
    reveal_strlit("mlp.gate_proj");
    reveal_strlit("ffn");
    reveal_strlit("mlp.");
    let gguf = "."@ + "ffn_gate"@ + ".weight"@;
    assert(occurs_at(gguf, "ffn"@, 1));
    let hf = "."@ + "mlp.gate_proj"@ + ".weight"@;
    assert(occurs_at(hf, "mlp."@, 1));
}

proof fn lemma_ffn_up()
    ensures
        spelled("."@ + "ffn_up"@ + ".weight"@, false, false, true),
        pairless("."@ + "ffn_up"@ + ".weight"@, 'a', 'y'),
        spelled("."@ + "mlp.up_proj"@ + ".weight"@, false, false, true),
{
    reveal_strlit(".");
    reveal_strlit(".weight");
    reveal_strlit("ffn_up");
    reveal_strlit("mlp.up_proj");
    reveal_strlit("ffn");
    reveal_strlit("mlp.");
    let gguf = "."@ + "ffn_up"@ + ".weight"@;
    assert(occurs_at(gguf, "ffn"@, 1));
    let hf = "."@ + "mlp.up_proj"@ + ".weight"@;
    assert(occurs_at(hf, "mlp."@, 1));
}

proof fn lemma_ffn_down()
    ensures
        spelled("."@ + "ffn_down"@ + ".weight"@, true, false, true),
        pairless("."@ + "ffn_down"@ + ".weight"@, 'a', 'y'),
        spelled("."@ + "mlp.down_proj"@ + ".weight"@, true, false, true),
{
    reveal_strlit(".");
    reveal_strlit(".weight");
    reveal_strlit("ffn_down");
    reveal_strlit("mlp.down_proj");
    reveal_strlit("ffn");
    reveal_strlit("mlp.");
    reveal_strlit("down_proj");
    let gguf = "."@ + "ffn_down"@ + ".weight"@;
    assert(occurs_at(gguf, "ffn"@, 1));
    assert(occurs_at(gguf, "ffn_down"@, 1));
    let hf = "."@ + "mlp.down_proj"@ + ".weight"@;
    assert(occurs_at(hf, "mlp."@, 1));
    assert(occurs_at(hf, "down_proj"@, 5));
}

proof fn lemma_norm_slots()
    ensures
        has("attn_norm"@, "norm"@),
        has("input_layernorm"@, "norm"@),
        has("ffn_norm"@, "norm"@),
        has("post_attention_layernorm"@, "norm"@),
        has("attn_q_norm"@, "norm"@),
        has("self_attn.q_norm"@, "norm"@),
        has("attn_k_norm"@, "norm"@),
        has("self_attn.k_norm"@, "norm"@),
{
    reveal_strlit("norm");
    reveal_strlit("attn_norm");
    reveal_strlit("input_layernorm");
    reveal_strlit("ffn_norm");
    reveal_strlit("post_attention_layernorm");
    reveal_strlit("attn_q_norm");
    reveal_strlit("self_attn.q_norm");
    reveal_strlit("attn_k_norm");
    reveal_strlit("self_attn.k_norm");
    assert(occurs_at("attn_norm"@, "norm"@, 5));
    assert(occurs_at("input_layernorm"@, "norm"@, 11));
    assert(occurs_at("ffn_norm"@, "norm"@, 4));
    assert(occurs_at("post_attention_layernorm"@, "norm"@, 20));
    assert(occurs_at("attn_q_norm"@, "norm"@, 7));
    assert(occurs_at("self_attn.q_norm"@, "norm"@, 12));
    assert(occurs_at("attn_k_norm"@, "norm"@, 7));
    assert(occurs_at("self_attn.k_norm"@, "norm"@, 12));
}

/// `blk.{n}.{slot}.weight` and its safetensors name get the same level, in every
/// model and every mode. `attn_output` is the one exception: under its GGUF name
/// it ends as the output head does.
pub proof fn law_spelling_keeps_level(
    n: usize,
    slot: Seq<char>,
    n_layers: usize,
    is_moe: bool,
    mode: u8,
)
    requires
        slot_name(slot) is Some,
        slot != "attn_output"@,
    ensures
        safetensors_name(gguf_layer_name(decimal(n as nat), slot)) is Some,
        level(gguf_layer_name(decimal(n as nat), slot), n_layers, is_moe, mode) == level(
            safetensors_name(gguf_layer_name(decimal(n as nat), slot))->0,
            n_layers,
            is_moe,
            mode,
        ),
{
    let digits = decimal(n as nat);
    lemma_decimal_has_no_dot(n as nat);
    law_layer_weights_are_renamed(digits, slot);
    let known = slot_name(slot)->0;
    lemma_norm_slots();
    if slot == "attn_norm"@ || slot == "ffn_norm"@ {
        lemma_norms_agree(digits, slot, known, n_layers, is_moe, mode);
    } else if slot == "attn_q"@ {
        lemma_attn_q();
        lemma_weights_agree(n, slot, known, false, false, false, n_layers, is_moe, mode);
    } else if slot == "attn_k"@ {
        lemma_attn_k();
        lemma_weights_agree(n, slot, known, false, false, false, n_layers, is_moe, mode);
    } else if slot == "attn_v"@ {
        lemma_attn_v();
        lemma_weights_agree(n, slot, known, false, true, false, n_layers, is_moe, mode);
    } else if slot == "attn_q_norm"@ || slot == "attn_k_norm"@ {
        lemma_norms_agree(digits, slot, known, n_layers, is_moe, mode);
    } else if slot == "ffn_gate"@ {
        lemma_ffn_gate();
        lemma_weights_agree(n, slot, known, false, false, true, n_layers, is_moe, mode);
    } else if slot == "ffn_up"@ {
        lemma_ffn_up();
        lemma_weights_agree(n, slot, known, false, false, true, n_layers, is_moe, mode);
    } else {
        lemma_ffn_down();
        lemma_weights_agree(n, slot, known, true, false, true, n_layers, is_moe, mode);
    }
}

} // verus!
