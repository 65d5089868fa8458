//! What becomes of each tensor of a safetensors model.
use vstd::prelude::*;
use vstd::string::*;

use crate::decimal::format_usize;
#[allow(unused_imports)]
use crate::decimal::{decimal, read_usize};
use crate::decimal::parse_usize;
use crate::formats::Format;
#[allow(unused_imports)]
use crate::formats::is_mq4_family;
use crate::kmap::{kmap_resolve_mode, QuantLevel};
#[allow(unused_imports)]
use crate::kmap::level;
use crate::names::{is_conv1d_tensor, is_q8_tensor, is_vision_tensor, should_quantize};
#[allow(unused_imports)]
use crate::names::{is_norm_or_bias, is_vision_name, wants_q8};
use crate::recipe::{row_length, Recipe};
#[allow(unused_imports)]
use crate::recipe::{group_of, row_len, stored_as};
use crate::text::{contains, ends_with, find, rfind, same, starts_with};
#[allow(unused_imports)]
use crate::text::{
    begins, ends, first_at, has, is_rightmost, last_at, lemma_first_at, lemma_last_at, occurs_at,
};

verus! {

/// The choices that hold for a whole model.
#[derive(Clone, Copy, Debug, PartialEq, Eq, Structural)]
pub struct Settings {
    pub format: Format,
    /// A mixture of experts with stacked expert tensors.
    pub is_moe: bool,
    /// A mixture of experts with separate, paired expert tensors.
    pub is_v4f: bool,
    pub n_layers: usize,
    /// Promotion is on.
    pub kmap: bool,
    pub kmap_mode: u8,
    /// Convolution weights are stored as Q8 whatever the format.
    pub q8_conv1d: bool,
    /// Routers are stored as Q8 whatever the format was asked for.
    pub q8_router_option: bool,
    /// Some sensitive tensors are kept as `f16`.
    pub non_expert_f16: bool,
    pub include_vision: bool,
}

/// The level of a tensor; the base level where promotion is off.
pub open spec fn level_in(s: Settings, name: Seq<char>) -> QuantLevel {
    if s.kmap {
        level(name, s.n_layers, s.is_moe, s.kmap_mode)
    } else {
        QuantLevel::Base
    }
}

/// The level of a tensor.
pub fn tensor_level(s: Settings, name: &str) -> (r: QuantLevel)
    ensures
        r == level_in(s, name@),
{
    if s.kmap {
        kmap_resolve_mode(name, s.n_layers, s.is_moe, s.kmap_mode)
    } else {
        QuantLevel::Base
    }
}

/// Routers are stored as Q8: always for mixtures of experts.
pub open spec fn keeps_routers(s: Settings) -> bool {
    s.is_moe || s.is_v4f || s.q8_router_option
}

// Weights.

/// One recipe for rows that groups of 256 divide, another for ragged rows.
pub open spec fn by_row(k: usize, aligned: Recipe, ragged: Recipe) -> Recipe {
    if k % 256 == 0 {
        aligned
    } else {
        ragged
    }
}

/// Tensors that stay `f16` beside two-bit experts: compressors, indexers,
/// hyper-connections and gate biases.
pub open spec fn is_sensitive(name: Seq<char>) -> bool {
    ||| has(name, "compressor"@)
    ||| has(name, "indexer"@)
    ||| has(name, "hc_"@)
    ||| has(name, "gate.bias"@)
}

/// The recipe of a weight of the base level.
pub open spec fn base_recipe(s: Settings, name: Seq<char>, dims: nat, k: usize) -> Recipe {
    let embed = has(name, "embed_tokens"@);
    match s.format {
        Format::HfqMixed => if has(name, "mlp."@) || has(name, "ffn"@) {
            by_row(k, Recipe::Hfq4G256, Recipe::Hfq4G128)
        } else {
            Recipe::Q8F16
        },
        Format::Hfq6 => if embed {
            Recipe::Q8F16
        } else {
            Recipe::Hfq6G256
        },
        Format::Hfq2 => if embed {
            Recipe::Q8F16
        } else {
            Recipe::Hfq2G128
        },
        Format::Hfq2G256 => if embed {
            Recipe::Q8F16
        } else {
            by_row(k, Recipe::Hfq2G256, Recipe::Hfq4G128)
        },
        Format::Mq8 => if embed {
            Recipe::Q8F16
        } else {
            by_row(k, Recipe::Mq8, Recipe::Q8F16)
        },
        _ => if keeps_routers(s) && wants_q8(name) {
            Recipe::Q8F16
        } else {
            plain_recipe(s, name, dims, k)
        },
    }
}

/// The recipe of a weight of the base level that is no protected router.
pub open spec fn plain_recipe(s: Settings, name: Seq<char>, dims: nat, k: usize) -> Recipe {
    let embed = has(name, "embed_tokens"@);
    if is_mq4_family(s.format) {
        if embed {
            Recipe::Q8F16
        } else if s.non_expert_f16 && s.format == Format::Mq2LloydNative && is_sensitive(name) {
            Recipe::F16
        } else {
            by_row(k, Recipe::Mq4, Recipe::Hfq4G128)
        }
    } else {
        match s.format {
            Format::Hfq4 => by_row(k, Recipe::Hfq4G256, Recipe::Hfq4G128),
            Format::Q4K => Recipe::Q4K,
            Format::Q4KQ8Embed => if has(name, "embed"@) || has(name, "lm_head"@) {
                Recipe::Q8F16
            } else {
                Recipe::Q4K
            },
            Format::Mixed => if wants_q8(name) {
                Recipe::Q8F16
            } else {
                Recipe::Q4K
            },
            Format::Fast => if wants_q8(name) {
                Recipe::Q8F16
            } else {
                Recipe::Q4AsQ8
            },
            Format::Q8 => Recipe::Q8F16,
            Format::Q8Hfq => Recipe::Q8F16,
            Format::Q4 => Recipe::Q4F16,
            _ => if embed {
                Recipe::Q8F16
            } else {
                match s.format {
                    Format::Hfp4 => if k % 32 == 0 && dims == 2 {
                        Recipe::Hfp4
                    } else {
                        Recipe::Hfq4G128
                    },
                    Format::Mfp4 => if k % 256 == 0 && dims == 2 {
                        Recipe::Mfp4
                    } else {
                        Recipe::Hfq4G128
                    },
                    Format::Mq6 => by_row(k, Recipe::Mq6, Recipe::Hfq6G256),
                    Format::Mq3Lloyd => by_row(k, Recipe::Mq3Lloyd, Recipe::Hfq3G128),
                    Format::Mq2Lloyd => by_row(k, Recipe::Mq2Lloyd, Recipe::Hfq2G128),
                    Format::Mq3 => by_row(k, Recipe::Mq3, Recipe::Hfq3G128),
                    Format::Mq2 => by_row(k, Recipe::Mq2, Recipe::Hfq2G128),
                    Format::Hfq3G256 => by_row(k, Recipe::Hfq3G256, Recipe::Hfq3G128),
                    _ => Recipe::Hfq3G128,
                }
            },
        }
    }
}

/// The recipe of a promoted weight: the six-bit sibling of the format, and Q8
/// where there is none or the rows are ragged.
pub open spec fn promoted_recipe(f: Format, k: usize) -> Recipe {
    if k % 256 != 0 {
        Recipe::Q8F16
    } else if is_mq4_family(f) {
        Recipe::Mq6
    } else {
        match f {
            Format::Mq3 | Format::Mq2 | Format::Mq2Lloyd | Format::Mq3Lloyd | Format::Mq6 => {
                Recipe::Mq6
            },
            Format::Hfq4
            | Format::Hfq3G256
            | Format::Hfq3
            | Format::Hfq2G256
            | Format::Hfq2
            | Format::Hfq6 => Recipe::Hfq6G256,
            _ => Recipe::Q8F16,
        }
    }
}

/// The recipe of a weight.
pub open spec fn weight_recipe_of(s: Settings, name: Seq<char>, dims: nat, k: usize) -> Recipe {
    let embed = has(name, "embed_tokens"@);
    if s.format == Format::Q8Hfq && dims == 2 && !embed {
        Recipe::Q8Hfq
    } else if s.q8_conv1d && ends(name, "conv1d.weight"@) {
        Recipe::Q8F16
    } else {
        match level_in(s, name) {
            QuantLevel::Q8 => Recipe::Q8F16,
            QuantLevel::F16 => Recipe::F16,
            QuantLevel::Promote6 => promoted_recipe(s.format, k),
            QuantLevel::Base => base_recipe(s, name, dims, k),
        }
    }
}

fn pick_by_row(k: usize, aligned: Recipe, ragged: Recipe) -> (r: Recipe)
    ensures
        r == by_row(k, aligned, ragged),
{
    if k % 256 == 0 {
        aligned
    } else {
        ragged
    }
}

fn plain_weight_recipe(s: Settings, name: &str, dims: usize, k: usize) -> (r: Recipe)
    ensures
        r == plain_recipe(s, name@, dims as nat, k),
{
    let embed = contains(name, "embed_tokens");
    if s.format.mq4_family() {
        if embed {
            return Recipe::Q8F16;
        }
        if s.non_expert_f16 && matches!(s.format, Format::Mq2LloydNative) && (contains(
            name,
            "compressor",
        ) || contains(name, "indexer") || contains(name, "hc_") || contains(name, "gate.bias")) {
            return Recipe::F16;
        }
        return pick_by_row(k, Recipe::Mq4, Recipe::Hfq4G128);
    }
    match s.format {
        Format::Hfq4 => pick_by_row(k, Recipe::Hfq4G256, Recipe::Hfq4G128),
        Format::Q4K => Recipe::Q4K,
        Format::Q4KQ8Embed => {
            if contains(name, "embed") || contains(name, "lm_head") {
                Recipe::Q8F16
            } else {
                Recipe::Q4K
            }
        },
        Format::Mixed => {
            if is_q8_tensor(name) {
                Recipe::Q8F16
            } else {
                Recipe::Q4K
            }
        },
        Format::Fast => {
            if is_q8_tensor(name) {
                Recipe::Q8F16
            } else {
                Recipe::Q4AsQ8
            }
        },
        Format::Q8 => Recipe::Q8F16,
        Format::Q8Hfq => Recipe::Q8F16,
        Format::Q4 => Recipe::Q4F16,
        _ => {
            if embed {
                return Recipe::Q8F16;
            }
            match s.format {
                Format::Hfp4 => {
                    if k % 32 == 0 && dims == 2 {
                        Recipe::Hfp4
                    } else {
                        Recipe::Hfq4G128
                    }
                },
                Format::Mfp4 => {
                    if k % 256 == 0 && dims == 2 {
                        Recipe::Mfp4
                    } else {
                        Recipe::Hfq4G128
                    }
                },
                Format::Mq6 => pick_by_row(k, Recipe::Mq6, Recipe::Hfq6G256),
                Format::Mq3Lloyd => pick_by_row(k, Recipe::Mq3Lloyd, Recipe::Hfq3G128),
                Format::Mq2Lloyd => pick_by_row(k, Recipe::Mq2Lloyd, Recipe::Hfq2G128),
                Format::Mq3 => pick_by_row(k, Recipe::Mq3, Recipe::Hfq3G128),
                Format::Mq2 => pick_by_row(k, Recipe::Mq2, Recipe::Hfq2G128),
                Format::Hfq3G256 => pick_by_row(k, Recipe::Hfq3G256, Recipe::Hfq3G128),
                _ => Recipe::Hfq3G128,
            }
        },
    }
}

#[verifier::rlimit(40)]
fn base_weight_recipe(s: Settings, name: &str, dims: usize, k: usize) -> (r: Recipe)
    ensures
        r == base_recipe(s, name@, dims as nat, k),
{
    let embed = contains(name, "embed_tokens");
    match s.format {
        Format::HfqMixed => {
            if contains(name, "mlp.") || contains(name, "ffn") {
                pick_by_row(k, Recipe::Hfq4G256, Recipe::Hfq4G128)
            } else {
                Recipe::Q8F16
            }
        },
        Format::Hfq6 => {
            if embed {
                Recipe::Q8F16
            } else {
                Recipe::Hfq6G256
            }
        },
        Format::Hfq2 => {
            if embed {
                Recipe::Q8F16
            } else {
                Recipe::Hfq2G128
            }
        },
        Format::Hfq2G256 => {
            if embed {
                Recipe::Q8F16
            } else {
                pick_by_row(k, Recipe::Hfq2G256, Recipe::Hfq4G128)
            }
        },
        Format::Mq8 => {
            if embed {
                Recipe::Q8F16
            } else {
                pick_by_row(k, Recipe::Mq8, Recipe::Q8F16)
            }
        },
        _ => {
            if (s.is_moe || s.is_v4f || s.q8_router_option) && is_q8_tensor(name) {
                Recipe::Q8F16
            } else {
                plain_weight_recipe(s, name, dims, k)
            }
        },
    }
}

fn promoted_weight_recipe(f: Format, k: usize) -> (r: Recipe)
    ensures
        r == promoted_recipe(f, k),
{
    if k % 256 != 0 {
        return Recipe::Q8F16;
    }
    if f.mq4_family() {
        return Recipe::Mq6;
    }
    match f {
        Format::Mq3 | Format::Mq2 | Format::Mq2Lloyd | Format::Mq3Lloyd | Format::Mq6 => {
            Recipe::Mq6
        },
        Format::Hfq4
        | Format::Hfq3G256
        | Format::Hfq3
        | Format::Hfq2G256
        | Format::Hfq2
        | Format::Hfq6 => Recipe::Hfq6G256,
        _ => Recipe::Q8F16,
    }
}

/// Chooses the recipe of a weight with `dims` dimensions and rows of `k` elements.
#[verifier::rlimit(40)]
pub fn weight_recipe(s: Settings, name: &str, dims: usize, k: usize) -> (r: Recipe)
    ensures
        r == weight_recipe_of(s, name@, dims as nat, k),
{
    if matches!(s.format, Format::Q8Hfq) && dims == 2 && !contains(name, "embed_tokens") {
        return Recipe::Q8Hfq;
    }
    if s.q8_conv1d && is_conv1d_tensor(name) {
        return Recipe::Q8F16;
    }
    match tensor_level(s, name) {
        QuantLevel::Q8 => Recipe::Q8F16,
        QuantLevel::F16 => Recipe::F16,
        QuantLevel::Promote6 => promoted_weight_recipe(s.format, k),
        QuantLevel::Base => base_weight_recipe(s, name, dims, k),
    }
}

// Experts.

/// What is known of a stack of experts.
#[derive(Clone, Copy, Debug, PartialEq, Eq, Structural)]
pub struct ExpertFacts {
    /// The stack is promoted.
    pub promoted: bool,
    /// Groups of 256 divide the rows.
    pub aligned: bool,
    /// The stack holds gate and up projections, not down projections.
    pub gate_up: bool,
    /// In a tiered format: whether the layer is among the most active ones; `None`
    /// where the layer is unknown.
    pub tier: Option<bool>,
}

/// Formats that give six bits to promoted experts.
pub open spec fn promotes_experts(f: Format) -> bool {
    match f {
        Format::Mq4
        | Format::Mq2LloydKmap
        | Format::Mq2LloydImatrix
        | Format::Mq2Gptq
        | Format::Mq3LloydKmap
        | Format::Tiered
        | Format::Asymmetric
        | Format::AsymmetricGptq => true,
        _ => false,
    }
}

/// The experts get three-bit codebooks.
pub open spec fn expert_is_mq3(f: Format, e: ExpertFacts) -> bool {
    &&& !e.promoted
    &&& match f {
        Format::Mq3LloydKmap => true,
        Format::Tiered => e.tier == Some(true),
        Format::Asymmetric | Format::AsymmetricGptq => !e.gate_up,
        _ => false,
    }
}

/// The experts get two-bit codebooks.
pub open spec fn expert_is_mq2(f: Format, e: ExpertFacts) -> bool {
    match f {
        Format::Mq2LloydNative => true,
        Format::Mq2LloydKmap | Format::Mq2LloydImatrix | Format::Mq2Gptq => !e.promoted,
        Format::Tiered => !e.promoted && e.tier == Some(false),
        Format::Asymmetric | Format::AsymmetricGptq => !e.promoted && e.gate_up,
        _ => false,
    }
}

/// The recipe of a stack of experts. Two-bit codebooks may still be fitted by
/// importance, expert by expert.
pub open spec fn expert_recipe_of(f: Format, e: ExpertFacts) -> Recipe {
    if !e.aligned {
        Recipe::Hfq4G128
    } else if expert_is_mq3(f, e) {
        Recipe::Mq3Lloyd
    } else if expert_is_mq2(f, e) {
        Recipe::Mq2Lloyd
    } else if f == Format::Mq2LloydProbe {
        Recipe::Mq2LloydProbe
    } else if f == Format::Mq6 || f == Format::Mq4Mq6Experts || (e.promoted && promotes_experts(
        f,
    )) {
        Recipe::Mq6
    } else if f == Format::Hfq6 || (e.promoted && f == Format::Hfq4) {
        Recipe::Hfq6G256
    } else if f == Format::Hfq4 {
        Recipe::Hfq4G256
    } else {
        Recipe::Mq4
    }
}

/// Chooses the recipe of a stack of experts.
pub fn expert_recipe(f: Format, e: ExpertFacts) -> (r: Recipe)
    ensures
        r == expert_recipe_of(f, e),
{
    if !e.aligned {
        return Recipe::Hfq4G128;
    }
    let hot = match e.tier {
        Some(t) => t,
        None => false,
    };
    let cold = match e.tier {
        Some(t) => !t,
        None => false,
    };
    let mq3 = !e.promoted && match f {
        Format::Mq3LloydKmap => true,
        Format::Tiered => hot,
        Format::Asymmetric | Format::AsymmetricGptq => !e.gate_up,
        _ => false,
    };
    if mq3 {
        return Recipe::Mq3Lloyd;
    }
    let mq2 = match f {
        Format::Mq2LloydNative => true,
        Format::Mq2LloydKmap | Format::Mq2LloydImatrix | Format::Mq2Gptq => !e.promoted,
        Format::Tiered => !e.promoted && cold,
        Format::Asymmetric | Format::AsymmetricGptq => !e.promoted && e.gate_up,
        _ => false,
    };
    if mq2 {
        return Recipe::Mq2Lloyd;
    }
    match f {
        Format::Mq2LloydProbe => Recipe::Mq2LloydProbe,
        Format::Mq6 | Format::Mq4Mq6Experts => Recipe::Mq6,
        Format::Mq4
        | Format::Mq2LloydKmap
        | Format::Mq2LloydImatrix
        | Format::Mq2Gptq
        | Format::Mq3LloydKmap
        | Format::Tiered
        | Format::Asymmetric
        | Format::AsymmetricGptq => {
            if e.promoted {
                Recipe::Mq6
            } else {
                Recipe::Mq4
            }
        },
        Format::Hfq6 => Recipe::Hfq6G256,
        Format::Hfq4 => {
            if e.promoted {
                Recipe::Hfq6G256
            } else {
                Recipe::Hfq4G256
            }
        },
        _ => Recipe::Mq4,
    }
}

/// Promoted experts of the formats that respect promotion are six-bit, whichever
/// projection they hold and whatever their tier.
pub proof fn law_promoted_experts_are_six_bit(f: Format, e: ExpertFacts)
    requires
        promotes_experts(f),
        e.promoted,
        e.aligned,
    ensures
        expert_recipe_of(f, e) == Recipe::Mq6,
{
}

/// Formats whose two-bit codebooks are fitted by importance.
pub open spec fn weighs_codebooks(f: Format) -> bool {
    match f {
        Format::Mq2LloydImatrix
        | Format::Asymmetric
        | Format::AsymmetricGptq
        | Format::Mq2Gptq => true,
        _ => false,
    }
}

/// Whether the importance of the experts of a stack is looked up.
pub fn wants_importance(f: Format, stack: Recipe, imatrix: bool) -> (r: bool)
    ensures
        r == (weighs_codebooks(f) && imatrix && stack == Recipe::Mq2Lloyd),
{
    matches!(
        f,
        Format::Mq2LloydImatrix | Format::Asymmetric | Format::AsymmetricGptq | Format::Mq2Gptq
    ) && imatrix && matches!(stack, Recipe::Mq2Lloyd)
}

/// The recipe of one expert of a stack, given whether it has importance weights.
pub open spec fn one_expert_recipe_of(f: Format, stack: Recipe, weighted: bool) -> Recipe {
    if stack == Recipe::Mq2Lloyd && weighted {
        if f == Format::AsymmetricGptq || f == Format::Mq2Gptq {
            Recipe::Mq2LloydGptq
        } else {
            Recipe::Mq2LloydWeighted
        }
    } else {
        stack
    }
}

/// Chooses the recipe of one expert of a stack.
pub fn one_expert_recipe(f: Format, stack: Recipe, weighted: bool) -> (r: Recipe)
    ensures
        r == one_expert_recipe_of(f, stack, weighted),
{
    if matches!(stack, Recipe::Mq2Lloyd) && weighted {
        if matches!(f, Format::AsymmetricGptq | Format::Mq2Gptq) {
            Recipe::Mq2LloydGptq
        } else {
            Recipe::Mq2LloydWeighted
        }
    } else {
        stack
    }
}

/// Every expert of a stack is stored under the same type, as the kernels need.
pub proof fn law_experts_share_type(f: Format, stack: Recipe, a: bool, b: bool)
    ensures
        stored_as(one_expert_recipe_of(f, stack, a)) == stored_as(
            one_expert_recipe_of(f, stack, b),
        ),
{
}

/// The name of expert `x` of a stack: the stack's name with the number and a
/// `.weight` behind its base.
pub open spec fn expert_name_of(parent: Seq<char>, x: nat, base: Seq<char>) -> Seq<char> {
    parent + decimal(x) + "."@ + base + ".weight"@
}

/// The name of expert `x` of a stack.
pub fn expert_name(parent: &str, x: usize, base: &str) -> (r: String)
    ensures
        r@ == expert_name_of(parent@, x as nat, base@),
{
    let mut out = parent.to_owned();
    let number = format_usize(x);
    out.append(number.as_str());
    out.append(".");
    out.append(base);
    out.append(".weight");
    out
}

/// The base of a stack's name: its last part.
pub open spec fn stack_base(name: Seq<char>) -> Seq<char> {
    if ends(name, "gate_up_proj"@) {
        "gate_up_proj"@
    } else {
        "down_proj"@
    }
}

/// Splits the name of a stack into what stands before its base and the base.
pub fn split_stack_name(name: &str) -> (r: (String, &'static str))
    requires
        ends(name@, "gate_up_proj"@) || ends(name@, "down_proj"@),
    ensures
        r.1@ == stack_base(name@),
        r.0@ + r.1@ == name@,
{
    match crate::text::strip_suffix(name, "gate_up_proj") {
        Some(p) => {
            assert(p@ + "gate_up_proj"@ =~= name@);
            (p.to_owned(), "gate_up_proj")
        },
        None => match crate::text::strip_suffix(name, "down_proj") {
            Some(p) => {
                assert(p@ + "down_proj"@ =~= name@);
                (p.to_owned(), "down_proj")
            },
            None => (name.to_owned(), "down_proj"),
        },
    }
}

/// The part of a text before its first dot; all of it where there is none.
pub open spec fn before_dot(text: Seq<char>) -> Seq<char> {
    match first_at(text, "."@) {
        Some(i) => text.take(i),
        None => text,
    }
}

/// The layer of a stack: the number behind the last `.layers.` of its name.
pub open spec fn stack_layer_of(parent: Seq<char>) -> Option<usize> {
    match last_at(parent, ".layers."@) {
        Some(i) => read_usize(before_dot(parent.skip(i + ".layers."@.len()))),
        None => None,
    }
}

/// The layer of a stack.
pub fn stack_layer(parent: &str) -> (r: Option<usize>)
    ensures
        r == stack_layer_of(parent@),
{
    let marker = ".layers.";
    match rfind(parent, marker) {
        Some(i) => {
            let rest = parent.substring_char(i + marker.unicode_len(), parent.unicode_len());
            assert(rest@ =~= parent@.skip(i + ".layers."@.len()));
            match find(rest, ".") {
                Some(d) => {
                    let number = rest.substring_char(0, d);
                    assert(number@ =~= rest@.take(d as int));
                    parse_usize(number)
                },
                None => parse_usize(rest),
            }
        },
        None => None,
    }
}

/// The bytes of one expert in a stack of experts.
pub open spec fn expert_bytes_of(shape: Seq<usize>, width: int) -> int {
    shape[1] * shape[2] * width
}

/// The bytes of one expert in a stack with `len` bytes of data and `width` bytes
/// per element; `None` where the data is too short for all experts.
pub fn expert_bytes(shape: &[usize], width: usize, len: usize) -> (r: Option<usize>)
    requires
        shape@.len() == 3,
        width > 0,
    ensures
        match r {
            Some(n) => {
                &&& n == expert_bytes_of(shape@, width as int)
                &&& forall|x: int|
                    #![trigger x * n]
                    0 <= x < shape@[0] ==> 0 <= x * n && x * n + n <= len
            },
            None => shape@[0] * expert_bytes_of(shape@, width as int) > len
                || expert_bytes_of(shape@, width as int) > usize::MAX
                || shape@[1] * shape@[2] > usize::MAX,
        },
{
    let elements: usize = match shape[1].checked_mul(shape[2]) {
        Some(n) => n,
        None => {
            return None;
        },
    };
    let n: usize = match elements.checked_mul(width) {
        Some(n) => n,
        None => {
            return None;
        },
    };
    let experts: usize = shape[0];
    match experts.checked_mul(n) {
        Some(total) => {
            if total > len {
                return None;
            }
            assert forall|x: int| #![trigger x * n] 0 <= x < experts implies 0 <= x * n && x * n + n
                <= len by {
                assert(0 <= x * n && x * n + n <= experts * n) by (nonlinear_arith)
                    requires
                        0 <= x < experts,
                        0 <= n,
                ;
            }
            Some(n)
        },
        None => None,
    }
}

// Whole tensors.

/// What becomes of a tensor.
#[derive(Clone, Copy, Debug, PartialEq, Eq, Structural)]
pub enum Plan {
    /// Left out, and not counted among the model's parameters.
    LeaveOut,
    /// Left out, but counted: an integer tensor that is no routing table.
    SkipInteger,
    /// A routing table, stored as 32-bit integers.
    RouteTable,
    /// One expert of a model that ships its experts apart.
    Expert(Recipe),
    /// A stack of experts, split into its experts.
    Stack,
    /// A weight.
    Weight(Recipe),
    /// A tensor of the vision encoder.
    Vision(Recipe),
    /// Kept as `f16`.
    Keep,
}

/// What is known of a tensor.
pub struct TensorFacts<'a> {
    pub name: &'a str,
    pub dtype: &'a str,
    pub shape: &'a [usize],
    pub n: usize,
    /// The tensor has a scale tensor.
    pub has_scale: bool,
}

/// The formats that give two-bit codebooks to experts that ship apart.
pub open spec fn splits_to_mq2(f: Format) -> bool {
    match f {
        Format::Mq2Gptq
        | Format::AsymmetricGptq
        | Format::Mq2LloydNative
        | Format::Mq2LloydImatrix
        | Format::Asymmetric => true,
        _ => false,
    }
}

/// An expert that ships apart.
pub open spec fn is_split_expert(s: Settings, t: TensorFacts) -> bool {
    &&& s.is_v4f
    &&& has(t.name@, ".ffn.experts."@)
    &&& ends(t.name@, ".weight"@)
    &&& t.shape@.len() == 2
}

/// The expert is stored as packed four-bit floats with a scale tensor.
pub open spec fn is_packed_fp4(t: TensorFacts) -> bool {
    (t.dtype@ == "I8"@ || t.dtype@ == "F8_E4M3"@) && t.has_scale
}

/// The columns of an expert that ships apart: two per byte where it is packed.
pub open spec fn expert_columns(t: TensorFacts) -> int {
    if is_packed_fp4(t) {
        2 * t.shape@[1]
    } else {
        t.shape@[1] as int
    }
}

/// A stack of experts.
pub open spec fn is_stack(s: Settings, t: TensorFacts) -> bool {
    &&& s.is_moe
    &&& has(t.name@, "mlp.experts."@)
    &&& ends(t.name@, "gate_up_proj"@) || ends(t.name@, "down_proj"@)
    &&& t.shape@.len() == 3
}

/// The name of a weight to quantize.
pub open spec fn is_weight_name(name: Seq<char>) -> bool {
    !is_vision_name(name) && !is_norm_or_bias(name) && has(name, "weight"@)
}

/// The recipe of an expert that ships apart and gets a two-bit codebook.
pub open spec fn split_expert_recipe(f: Format) -> Recipe {
    if f == Format::Mq2Gptq || f == Format::AsymmetricGptq {
        Recipe::Mq2LloydGptq
    } else {
        Recipe::Mq2Lloyd
    }
}

/// What becomes of a tensor of the vision encoder that is not left out.
pub open spec fn vision_plan_of(t: TensorFacts, vision_quant: Seq<char>) -> Plan {
    if vision_quant == "hfq4"@ && t.n >= 32 {
        Plan::Vision(by_row(row_len(t.shape@, t.n), Recipe::Hfq4G256, Recipe::Hfq4G128))
    } else if vision_quant == "bf16"@ {
        Plan::Vision(
            if t.dtype@ == "BF16"@ {
                Recipe::Bf16Copy
            } else {
                Recipe::F16
            },
        )
    } else {
        Plan::Keep
    }
}

/// What becomes of a tensor.
pub open spec fn plan_of(s: Settings, t: TensorFacts, vision_quant: Seq<char>) -> Plan {
    let k = row_len(t.shape@, t.n);
    if (is_vision_name(t.name@) && !s.include_vision) || begins(t.name@, "mtp."@) {
        Plan::LeaveOut
    } else if t.dtype@ == "I64"@ {
        if s.is_v4f && ends(t.name@, ".tid2eid"@) {
            Plan::RouteTable
        } else {
            Plan::SkipInteger
        }
    } else if is_split_expert(s, t) && expert_columns(t) % 256 == 0 && splits_to_mq2(s.format) {
        Plan::Expert(split_expert_recipe(s.format))
    } else if is_stack(s, t) {
        Plan::Stack
    } else if is_weight_name(t.name@) && t.n >= 32 {
        Plan::Weight(weight_recipe_of(s, t.name@, t.shape@.len(), k))
    } else if is_vision_name(t.name@) {
        vision_plan_of(t, vision_quant)
    } else {
        Plan::Keep
    }
}

/// Whether a tensor is an expert that ships apart and gets a two-bit codebook.
fn gets_split_codebook(s: Settings, t: &TensorFacts) -> (r: bool)
    ensures
        r == (is_split_expert(s, *t) && expert_columns(*t) % 256 == 0 && splits_to_mq2(s.format)),
{
    if !s.is_v4f || t.shape.len() != 2 {
        return false;
    }
    let expert = contains(t.name, ".ffn.experts.") && ends_with(t.name, ".weight");
    let packed = (same(t.dtype, "I8") || same(t.dtype, "F8_E4M3")) && t.has_scale;
    let stored: usize = t.shape[1];
    let aligned = if packed {
        stored % 128 == 0
    } else {
        stored % 256 == 0
    };
    assert(aligned == (expert_columns(*t) % 256 == 0));
    let chosen = matches!(
        s.format,
        Format::Mq2Gptq
        | Format::AsymmetricGptq
        | Format::Mq2LloydNative
        | Format::Mq2LloydImatrix
        | Format::Asymmetric
    );
    expert && aligned && chosen
}

/// Whether a tensor is a stack of experts.
fn is_expert_stack(s: Settings, t: &TensorFacts) -> (r: bool)
    ensures
        r == is_stack(s, *t),
{
    s.is_moe && contains(t.name, "mlp.experts.") && (ends_with(t.name, "gate_up_proj")
        || ends_with(t.name, "down_proj")) && t.shape.len() == 3
}

/// Decides what becomes of a tensor of the vision encoder that is not left out.
fn vision_plan(t: &TensorFacts, vision_quant: &str) -> (r: Plan)
    ensures
        r == vision_plan_of(*t, vision_quant@),
{
    if same(vision_quant, "hfq4") && t.n >= 32 {
        let k: usize = row_length(t.shape, t.n);
        return Plan::Vision(pick_by_row(k, Recipe::Hfq4G256, Recipe::Hfq4G128));
    }
    if same(vision_quant, "bf16") {
        return Plan::Vision(
            if same(t.dtype, "BF16") {
                Recipe::Bf16Copy
            } else {
                Recipe::F16
            },
        );
    }
    Plan::Keep
}

/// Decides what becomes of a tensor.
#[verifier::rlimit(40)]
pub fn plan_tensor(s: Settings, t: &TensorFacts, vision_quant: &str) -> (r: Plan)
    ensures
        r == plan_of(s, *t, vision_quant@),
{
    let vision = is_vision_tensor(t.name);
    if (vision && !s.include_vision) || starts_with(t.name, "mtp.") {
        return Plan::LeaveOut;
    }
    if same(t.dtype, "I64") {
        return if s.is_v4f && ends_with(t.name, ".tid2eid") {
            Plan::RouteTable
        } else {
            Plan::SkipInteger
        };
    }
    if gets_split_codebook(s, t) {
        return Plan::Expert(
            if matches!(s.format, Format::Mq2Gptq | Format::AsymmetricGptq) {
                Recipe::Mq2LloydGptq
            } else {
                Recipe::Mq2Lloyd
            },
        );
    }
    if is_expert_stack(s, t) {
        return Plan::Stack;
    }
    if should_quantize(t.name) && t.n >= 32 {
        let k: usize = row_length(t.shape, t.n);
        return Plan::Weight(weight_recipe(s, t.name, t.shape.len(), k));
    }
    if vision {
        vision_plan(t, vision_quant)
    } else {
        Plan::Keep
    }
}

/// How many parameters of a model were met, left out, and quantized.
#[derive(Clone, Copy, Debug, PartialEq, Eq, Structural)]
pub struct Tally {
    pub met: u64,
    pub left_out: u64,
    pub quantized: u64,
}

impl Tally {
    /// Nothing counted yet.
    pub fn start() -> (r: Tally)
        ensures
            r == (Tally { met: 0, left_out: 0, quantized: 0 }),
    {
        Tally { met: 0, left_out: 0, quantized: 0 }
    }

    /// The count stays within its limits with a tensor of `n` parameters more.
    pub open spec fn has_room(self, plan: Plan, n: u64, stored: u64) -> bool {
        match plan {
            Plan::LeaveOut => self.left_out + n <= u64::MAX,
            Plan::SkipInteger => self.met + n <= u64::MAX && self.left_out + n <= u64::MAX,
            Plan::Keep => self.met + n <= u64::MAX,
            _ => self.met + n <= u64::MAX && self.quantized + stored <= u64::MAX,
        }
    }

    /// The count with a tensor of `n` parameters more, of which `stored` values are
    /// stored if it is quantized.
    pub open spec fn with(self, plan: Plan, n: u64, stored: u64) -> Tally {
        let met = (self.met + n) as u64;
        match plan {
            Plan::LeaveOut => Tally { left_out: (self.left_out + n) as u64, ..self },
            Plan::SkipInteger => Tally { met, left_out: (self.left_out + n) as u64, ..self },
            Plan::Keep => Tally { met, ..self },
            _ => Tally { met, quantized: (self.quantized + stored) as u64, ..self },
        }
    }

    /// Counts a tensor of `n` parameters, of which `stored` values are stored if it
    /// is quantized: packed experts have two values per stored parameter.
    pub fn count(&mut self, plan: Plan, n: u64, stored: u64)
        requires
            old(self).has_room(plan, n, stored),
        ensures
            *final(self) == old(self).with(plan, n, stored),
    {
        match plan {
            Plan::LeaveOut => {
                self.left_out = self.left_out + n;
            },
            Plan::SkipInteger => {
                self.met = self.met + n;
                self.left_out = self.left_out + n;
            },
            Plan::Keep => {
                self.met = self.met + n;
            },
            _ => {
                self.met = self.met + n;
                self.quantized = self.quantized + stored;
            },
        }
    }
}

/// Norms and biases are never quantized: outside the vision encoder, the extra
/// prediction head, integer tables and experts they are kept as `f16`.
pub proof fn law_norms_are_kept(s: Settings, t: TensorFacts, vision_quant: Seq<char>)
    requires
        is_norm_or_bias(t.name@),
        !is_vision_name(t.name@),
        !begins(t.name@, "mtp."@),
        t.dtype@ != "I64"@,
        !is_split_expert(s, t),
        !is_stack(s, t),
    ensures
        plan_of(s, t, vision_quant) == Plan::Keep,
{
}

/// Embeddings are never stored below four bits.
pub proof fn law_embeddings_keep_four_bits(s: Settings, name: Seq<char>, dims: nat, k: usize)
    requires
        has(name, "embed_tokens"@),
    ensures
        ({
            let r = weight_recipe_of(s, name, dims, k);
            r == Recipe::Q8F16 || r == Recipe::F16 || r == Recipe::Mq6 || r == Recipe::Hfq6G256
                || r == Recipe::Hfq4G256 || r == Recipe::Hfq4G128 || r == Recipe::Q4K || r
                == Recipe::Q4AsQ8 || r == Recipe::Q4F16
        }),
{
}

/// Groups never straddle the rows of a matrix: a recipe with groups of 256 other
/// than Q4_K and HFQ6 is chosen only where 256 divides the rows.
pub proof fn law_groups_fit_rows(s: Settings, name: Seq<char>, dims: nat, k: usize)
    ensures
        ({
            let r = weight_recipe_of(s, name, dims, k);
            group_of(stored_as(r)) == 256 && r != Recipe::Q4K && r != Recipe::Hfq6G256 ==> k % 256
                == 0
        }),
{
}

// The rules, one by one.

/// What decides the level of a tensor: without promotion nothing, with it the K-map.
pub proof fn law_levels_need_promotion(s: Settings, name: Seq<char>)
    ensures
        !s.kmap ==> level_in(s, name) == QuantLevel::Base,
        s.kmap ==> level_in(s, name) == level(name, s.n_layers, s.is_moe, s.kmap_mode),
{
}

/// What goes before the level: the row format for all its matrices but embeddings,
/// and convolutions that are to be Q8.
pub proof fn law_first_rules(s: Settings, name: Seq<char>, dims: nat, k: usize)
    ensures
        s.format == Format::Q8Hfq && dims == 2 && !(has(name, "embed_tokens"@))
            ==> weight_recipe_of(s, name, dims, k) == Recipe::Q8Hfq,
        (s.format != Format::Q8Hfq || dims != 2 || has(name, "embed_tokens"@)) && s.q8_conv1d
            && ends(name, "conv1d.weight"@) ==> weight_recipe_of(s, name, dims, k) == Recipe::Q8F16,
        weight_recipe_of(s, name, dims, k) == Recipe::Q8Hfq ==> s.format == Format::Q8Hfq && dims
            == 2,
{
}

/// Behind those, the level decides: Q8 and F16 are stored as such, a promoted
/// weight gets the six-bit variant of its format, and every other weight the format.
pub proof fn law_levels_decide(s: Settings, name: Seq<char>, dims: nat, k: usize)
    requires
        !(s.format == Format::Q8Hfq && dims == 2 && !(has(name, "embed_tokens"@))),
        !(s.q8_conv1d && ends(name, "conv1d.weight"@)),
    ensures
        ({
            let r = weight_recipe_of(s, name, dims, k);
            &&& level_in(s, name) == QuantLevel::Q8 ==> r == Recipe::Q8F16
            &&& level_in(s, name) == QuantLevel::F16 ==> r == Recipe::F16
            &&& level_in(s, name) == QuantLevel::Promote6 ==> r == promoted_recipe(s.format, k)
            &&& level_in(s, name) == QuantLevel::Base ==> r == base_recipe(s, name, dims, k)
        }),
{
}

/// The six-bit variant of a format: rotated for the rotated formats, plain for the
/// plain ones, in groups of 256. Where the groups do not fill the rows, and for a
/// format without such a variant, it is Q8.
pub proof fn law_promoted_weights(f: Format, k: usize)
    ensures
        k % 256 != 0 ==> promoted_recipe(f, k) == Recipe::Q8F16,
        k % 256 == 0 ==> (promoted_recipe(f, k) == Recipe::Mq6 <==> (f == Format::Mq4 || f
            == Format::Mq4Mq6Experts || f == Format::Mq2LloydProbe || f == Format::Mq2LloydNative
            || f == Format::Mq2LloydKmap || f == Format::Mq2LloydImatrix || f
            == Format::Mq3LloydKmap || f == Format::Tiered || f == Format::Asymmetric || f
            == Format::AsymmetricGptq || f == Format::Mq2Gptq || f == Format::Mq3 || f
            == Format::Mq2 || f == Format::Mq2Lloyd || f == Format::Mq3Lloyd || f == Format::Mq6)),
        k % 256 == 0 ==> (promoted_recipe(f, k) == Recipe::Hfq6G256 <==> (f == Format::Hfq4 || f
            == Format::Hfq3G256 || f == Format::Hfq3 || f == Format::Hfq2G256 || f == Format::Hfq2
            || f == Format::Hfq6)),
        promoted_recipe(f, k) == Recipe::Mq6 || promoted_recipe(f, k) == Recipe::Hfq6G256
            || promoted_recipe(f, k) == Recipe::Q8F16,
{
}

/// The formats that do not ask for routers: mixed four-bit is four-bit in the
/// feed-forward blocks and Q8 elsewhere; six-bit, two-bit and rotated eight-bit are
/// Q8 for embeddings. Where groups of 256 do not fill the rows, four-bit and
/// two-bit fall back to four-bit in groups of 128, and eight-bit to Q8.
pub proof fn law_formats_without_routers(s: Settings, name: Seq<char>, dims: nat, k: usize)
    ensures
        ({
            let r = base_recipe(s, name, dims, k);
            let embed = has(name, "embed_tokens"@);
            let ffn = has(name, "mlp."@) || has(name, "ffn"@);
            &&& s.format == Format::HfqMixed && !ffn ==> r == Recipe::Q8F16
            &&& s.format == Format::HfqMixed && ffn && k % 256 == 0 ==> r == Recipe::Hfq4G256
            &&& s.format == Format::HfqMixed && ffn && k % 256 != 0 ==> r == Recipe::Hfq4G128
            &&& embed && (s.format == Format::Hfq6 || s.format == Format::Hfq2 || s.format
                == Format::Hfq2G256 || s.format == Format::Mq8) ==> r == Recipe::Q8F16
            &&& s.format == Format::Hfq6 && !embed ==> r == Recipe::Hfq6G256
            &&& s.format == Format::Hfq2 && !embed ==> r == Recipe::Hfq2G128
            &&& s.format == Format::Hfq2G256 && !embed && k % 256 == 0 ==> r == Recipe::Hfq2G256
            &&& s.format == Format::Hfq2G256 && !embed && k % 256 != 0 ==> r == Recipe::Hfq4G128
            &&& s.format == Format::Mq8 && !embed && k % 256 == 0 ==> r == Recipe::Mq8
            &&& s.format == Format::Mq8 && !embed && k % 256 != 0 ==> r == Recipe::Q8F16
        }),
{
}

/// Every other format holds attention, embeddings, output heads and routers at Q8
/// in a mixture of experts of either make, or where routers are asked to be Q8.
pub proof fn law_routers_are_q8(s: Settings, name: Seq<char>, dims: nat, k: usize)
    requires
        s.format != Format::HfqMixed,
        s.format != Format::Hfq6,
        s.format != Format::Hfq2,
        s.format != Format::Hfq2G256,
        s.format != Format::Mq8,
    ensures
        (s.is_moe || s.is_v4f || s.q8_router_option) && wants_q8(name) ==> base_recipe(
            s,
            name,
            dims,
            k,
        ) == Recipe::Q8F16,
        !((s.is_moe || s.is_v4f || s.q8_router_option) && wants_q8(name)) ==> base_recipe(
            s,
            name,
            dims,
            k,
        ) == plain_recipe(s, name, dims, k),
{
}

/// What the rotated four-bit formats make of a weight: Q8 for embeddings; F16 for the
/// tensors that are to be kept, where that was asked for with native two-bit
/// experts; else rotated four-bit, or four-bit in groups of 128 where groups of 256
/// do not fill the rows.
pub proof fn law_mq4_weights(s: Settings, name: Seq<char>, dims: nat, k: usize)
    requires
        is_mq4_family(s.format),
    ensures
        ({
            let r = plain_recipe(s, name, dims, k);
            let embed = has(name, "embed_tokens"@);
            let kept = s.non_expert_f16 && s.format == Format::Mq2LloydNative && (has(
                name,
                "compressor"@,
            ) || has(name, "indexer"@) || has(name, "hc_"@) || has(name, "gate.bias"@));
            &&& embed ==> r == Recipe::Q8F16
            &&& !embed && kept ==> r == Recipe::F16
            &&& !embed && !kept && k % 256 == 0 ==> r == Recipe::Mq4
            &&& !embed && !kept && k % 256 != 0 ==> r == Recipe::Hfq4G128
        }),
{
}

/// What the formats without rotation make of a weight, apart from embeddings.
pub proof fn law_plain_weights(s: Settings, name: Seq<char>, dims: nat, k: usize)
    ensures
        ({
            let r = plain_recipe(s, name, dims, k);
            &&& s.format == Format::Hfq4 && k % 256 == 0 ==> r == Recipe::Hfq4G256
            &&& s.format == Format::Hfq4 && k % 256 != 0 ==> r == Recipe::Hfq4G128
            &&& s.format == Format::Q4K ==> r == Recipe::Q4K
            &&& s.format == Format::Q4KQ8Embed ==> (r == Recipe::Q8F16 <==> has(name, "embed"@)
                || has(name, "lm_head"@))
            &&& s.format == Format::Q4KQ8Embed ==> r == Recipe::Q8F16 || r == Recipe::Q4K
            &&& s.format == Format::Mixed ==> (r == Recipe::Q8F16 <==> wants_q8(name))
            &&& s.format == Format::Mixed ==> r == Recipe::Q8F16 || r == Recipe::Q4K
            &&& s.format == Format::Fast ==> (r == Recipe::Q8F16 <==> wants_q8(name))
            &&& s.format == Format::Fast ==> r == Recipe::Q8F16 || r == Recipe::Q4AsQ8
            &&& s.format == Format::Q8 || s.format == Format::Q8Hfq ==> r == Recipe::Q8F16
            &&& s.format == Format::Q4 ==> r == Recipe::Q4F16
        }),
{
}

/// What the other formats make of a weight: Q8 for embeddings, else the format where
/// its groups fill the rows, which are 32 columns of a matrix for plain four-bit
/// floats and 256 otherwise, and a format in groups of 128 where they do not.
pub proof fn law_grouped_weights(s: Settings, name: Seq<char>, dims: nat, k: usize)
    requires
        s.format == Format::Hfp4 || s.format == Format::Mfp4 || s.format == Format::Mq6 || s.format
            == Format::Mq3Lloyd || s.format == Format::Mq2Lloyd || s.format == Format::Mq3
            || s.format == Format::Mq2 || s.format == Format::Hfq3G256 || s.format == Format::Hfq3,
    ensures
        has(name, "embed_tokens"@) ==> plain_recipe(s, name, dims, k) == Recipe::Q8F16,
        !(has(name, "embed_tokens"@)) ==> ({
            let r = plain_recipe(s, name, dims, k);
            match s.format {
                Format::Hfp4 => r == (if k % 32 == 0 && dims == 2 {
                    Recipe::Hfp4
                } else {
                    Recipe::Hfq4G128
                }),
                Format::Mfp4 => r == (if k % 256 == 0 && dims == 2 {
                    Recipe::Mfp4
                } else {
                    Recipe::Hfq4G128
                }),
                Format::Mq6 => r == (if k % 256 == 0 {
                    Recipe::Mq6
                } else {
                    Recipe::Hfq6G256
                }),
                Format::Mq3Lloyd => r == (if k % 256 == 0 {
                    Recipe::Mq3Lloyd
                } else {
                    Recipe::Hfq3G128
                }),
                Format::Mq2Lloyd => r == (if k % 256 == 0 {
                    Recipe::Mq2Lloyd
                } else {
                    Recipe::Hfq2G128
                }),
                Format::Mq3 => r == (if k % 256 == 0 {
                    Recipe::Mq3
                } else {
                    Recipe::Hfq3G128
                }),
                Format::Mq2 => r == (if k % 256 == 0 {
                    Recipe::Mq2
                } else {
                    Recipe::Hfq2G128
                }),
                Format::Hfq3G256 => r == (if k % 256 == 0 {
                    Recipe::Hfq3G256
                } else {
                    Recipe::Hfq3G128
                }),
                _ => r == Recipe::Hfq3G128,
            }
        }),
{
}

/// What becomes of the experts of a stack. Where groups of 256 do not fill the rows,
/// four-bit in groups of 128.
pub proof fn law_ragged_experts(f: Format, e: ExpertFacts)
    ensures
        !e.aligned ==> expert_recipe_of(f, e) == Recipe::Hfq4G128,
        e.aligned ==> expert_recipe_of(f, e) != Recipe::Hfq4G128,
{
}

/// Promoted experts are rotated six-bit in the formats that heed promotion, and
/// six-bit in four-bit; the others pay no heed to it.
pub proof fn law_promoted_experts(f: Format, e: ExpertFacts)
    requires
        e.aligned,
        e.promoted,
    ensures
        match f {
            Format::Hfq4 | Format::Hfq6 => expert_recipe_of(f, e) == Recipe::Hfq6G256,
            Format::Mq2LloydNative => expert_recipe_of(f, e) == Recipe::Mq2Lloyd,
            Format::Mq2LloydProbe => expert_recipe_of(f, e) == Recipe::Mq2LloydProbe,
            Format::Mq4
            | Format::Mq6
            | Format::Mq4Mq6Experts
            | Format::Mq2LloydKmap
            | Format::Mq2LloydImatrix
            | Format::Mq2Gptq
            | Format::Mq3LloydKmap
            | Format::Tiered
            | Format::Asymmetric
            | Format::AsymmetricGptq => expert_recipe_of(f, e) == Recipe::Mq6,
            _ => expert_recipe_of(f, e) == Recipe::Mq4,
        },
{
}

/// Experts that are not promoted get what their format says: codebooks of two or
/// three bits, by the layer's tier or by the kind of projection where both are mixed,
/// six bits, four bits, or rotated four-bit where the format says nothing of experts.
pub proof fn law_unpromoted_experts(f: Format, e: ExpertFacts)
    requires
        e.aligned,
        !e.promoted,
    ensures
        match f {
            Format::Hfq4 => expert_recipe_of(f, e) == Recipe::Hfq4G256,
            Format::Hfq6 => expert_recipe_of(f, e) == Recipe::Hfq6G256,
            Format::Mq6 | Format::Mq4Mq6Experts => expert_recipe_of(f, e) == Recipe::Mq6,
            Format::Mq2LloydProbe => expert_recipe_of(f, e) == Recipe::Mq2LloydProbe,
            Format::Mq2LloydNative
            | Format::Mq2LloydKmap
            | Format::Mq2LloydImatrix
            | Format::Mq2Gptq => expert_recipe_of(f, e) == Recipe::Mq2Lloyd,
            Format::Mq3LloydKmap => expert_recipe_of(f, e) == Recipe::Mq3Lloyd,
            Format::Tiered => expert_recipe_of(f, e) == (match e.tier {
                Some(hot) => if hot {
                    Recipe::Mq3Lloyd
                } else {
                    Recipe::Mq2Lloyd
                },
                None => Recipe::Mq4,
            }),
            Format::Asymmetric | Format::AsymmetricGptq => expert_recipe_of(f, e) == (
            if e.gate_up {
                Recipe::Mq2Lloyd
            } else {
                Recipe::Mq3Lloyd
            }),
            _ => expert_recipe_of(f, e) == Recipe::Mq4,
        },
{
}

/// The formats whose two-bit codebooks are fitted by importance, and what an expert
/// with importance gets: codebooks with error feedback in the two formats that have
/// it, weighted codebooks in the others. Without importance, and beside two-bit
/// codebooks, an expert gets what its stack gets.
pub proof fn law_weighted_experts(f: Format, stack: Recipe)
    ensures
        weighs_codebooks(f) <==> (f == Format::Mq2LloydImatrix || f == Format::Asymmetric || f
            == Format::AsymmetricGptq || f == Format::Mq2Gptq),
        one_expert_recipe_of(f, stack, false) == stack,
        stack != Recipe::Mq2Lloyd ==> one_expert_recipe_of(f, stack, true) == stack,
        f == Format::AsymmetricGptq || f == Format::Mq2Gptq ==> one_expert_recipe_of(
            f,
            Recipe::Mq2Lloyd,
            true,
        ) == Recipe::Mq2LloydGptq,
        f != Format::AsymmetricGptq && f != Format::Mq2Gptq ==> one_expert_recipe_of(
            f,
            Recipe::Mq2Lloyd,
            true,
        ) == Recipe::Mq2LloydWeighted,
{
}

/// The name of an expert is that of its stack with its number before the kind of
/// projection and `.weight` behind it.
pub proof fn law_expert_names(parent: Seq<char>, x: nat, base: Seq<char>)
    ensures
        expert_name_of(parent, x, base) == parent + decimal(x) + "."@ + base + ".weight"@,
        stack_base(parent + "gate_up_proj"@) == "gate_up_proj"@,
        !ends(parent, "gate_up_proj"@) ==> stack_base(parent) == "down_proj"@,
{
    let s = parent + "gate_up_proj"@;
    assert(ends(s, "gate_up_proj"@)) by {
        assert forall|k: int| 0 <= k < "gate_up_proj"@.len() implies s[s.len()
            - "gate_up_proj"@.len() + k] == #[trigger] "gate_up_proj"@[k] by {}
    }
}

/// The layer of a stack is the number that stands, up to a dot or to the end, behind
/// the last `.layers.` of its name.
pub proof fn law_stack_layer_stands_behind_layers(
    front: Seq<char>,
    text: Seq<char>,
    tail: Seq<char>,
)
    requires
        forall|i: int| 0 <= i < text.len() ==> #[trigger] text[i] != '.',
        is_rightmost(front + ".layers."@ + text + tail, ".layers."@, front.len() as int),
        tail.len() == 0 || tail[0] == '.',
    ensures
        stack_layer_of(front + ".layers."@ + text + tail) == read_usize(text),
{
    reveal_strlit(".");
    let name = front + ".layers."@ + text + tail;
    lemma_last_at(name, ".layers."@, front.len() as int);
    let rest = name.skip(front.len() as int + ".layers."@.len());
    assert(rest =~= text + tail);
    if tail.len() > 0 {
        assert(occurs_at(rest, "."@, text.len() as int)) by {
            assert(rest[text.len() as int] == tail[0]);
        }
        assert forall|j: int| #[trigger] occurs_at(rest, "."@, j) implies text.len() <= j by {
            assert(rest[j + 0] == "."@[0]);
            if j < text.len() {
                assert(rest[j] == text[j]);
            }
        }
        lemma_first_at(rest, "."@, text.len() as int);
        assert(rest.take(text.len() as int) =~= text);
    } else {
        assert(rest =~= text);
        assert forall|j: int| !(#[trigger] occurs_at(rest, "."@, j)) by {
            if occurs_at(rest, "."@, j) {
                assert(rest[j + 0] == "."@[0]);
                assert(rest[j] == text[j]);
            }
        }
    }
}

/// An expert takes its rows times its columns times the bytes of an element.
pub proof fn law_expert_size(shape: Seq<usize>, width: int)
    ensures
        expert_bytes_of(shape, width) == shape[1] * shape[2] * width,
{
}

/// What is left out: the vision encoder, unless it is asked for, and everything that
/// begins with `mtp.`.
pub proof fn law_left_out_tensors(s: Settings, t: TensorFacts, vision_quant: Seq<char>)
    ensures
        plan_of(s, t, vision_quant) == Plan::LeaveOut <==> begins(t.name@, "mtp."@) || (
        !s.include_vision && (begins(t.name@, "model.visual."@) || begins(t.name@, "visual."@))),
{
}

/// Integers are not stored, but for the routing tables of a model with separate
/// experts.
pub proof fn law_integer_tensors(s: Settings, t: TensorFacts, vision_quant: Seq<char>)
    requires
        plan_of(s, t, vision_quant) != Plan::LeaveOut,
    ensures
        t.dtype@ == "I64"@ ==> plan_of(s, t, vision_quant) == (if s.is_v4f && ends(
            t.name@,
            ".tid2eid"@,
        ) {
            Plan::RouteTable
        } else {
            Plan::SkipInteger
        }),
        t.dtype@ != "I64"@ ==> plan_of(s, t, vision_quant) != Plan::RouteTable && plan_of(
            s,
            t,
            vision_quant,
        ) != Plan::SkipInteger,
{
}

/// The separate experts of a model get two-bit codebooks in the formats for them,
/// where groups of 256 fill their rows; a row of paired nibbles is twice as long as
/// it is stored.
pub proof fn law_separate_experts(s: Settings, t: TensorFacts, vision_quant: Seq<char>)
    requires
        plan_of(s, t, vision_quant) != Plan::LeaveOut,
        t.dtype@ != "I64"@,
    ensures
        ({
            let two_bit = s.format == Format::Mq2Gptq || s.format == Format::AsymmetricGptq
                || s.format == Format::Mq2LloydNative || s.format == Format::Mq2LloydImatrix
                || s.format == Format::Asymmetric;
            let mine = s.is_v4f && has(t.name@, ".ffn.experts."@) && ends(t.name@, ".weight"@)
                && t.shape@.len() == 2;
            let paired = (t.dtype@ == "I8"@ || t.dtype@ == "F8_E4M3"@) && t.has_scale;
            let columns = if paired {
                2 * t.shape@[1]
            } else {
                t.shape@[1] as int
            };
            let plan = plan_of(s, t, vision_quant);
            &&& plan is Expert <==> mine && two_bit && columns % 256 == 0
            &&& plan is Expert ==> plan == Plan::Expert(
                if s.format == Format::Mq2Gptq || s.format == Format::AsymmetricGptq {
                    Recipe::Mq2LloydGptq
                } else {
                    Recipe::Mq2Lloyd
                },
            )
        }),
{
}

/// The stacked experts of a mixture of experts are split, whatever the format.
pub proof fn law_stacked_experts(s: Settings, t: TensorFacts, vision_quant: Seq<char>)
    requires
        plan_of(s, t, vision_quant) != Plan::LeaveOut,
        t.dtype@ != "I64"@,
        !(plan_of(s, t, vision_quant) is Expert),
    ensures
        plan_of(s, t, vision_quant) == Plan::Stack <==> s.is_moe && has(t.name@, "mlp.experts."@)
            && (ends(t.name@, "gate_up_proj"@) || ends(t.name@, "down_proj"@)) && t.shape@.len()
            == 3,
{
}

/// Every other tensor with at least 32 elements whose name holds `weight`, and neither
/// `norm` nor `bias`, is a weight, unless it belongs to the vision encoder.
pub proof fn law_weights_are_quantized(s: Settings, t: TensorFacts, vision_quant: Seq<char>)
    requires
        plan_of(s, t, vision_quant) != Plan::LeaveOut,
        t.dtype@ != "I64"@,
        !(plan_of(s, t, vision_quant) is Expert),
        plan_of(s, t, vision_quant) != Plan::Stack,
    ensures
        ({
            let vision = begins(t.name@, "model.visual."@) || begins(t.name@, "visual."@);
            let weight = !vision && !(has(t.name@, "norm"@) || has(t.name@, "bias"@)) && has(
                t.name@,
                "weight"@,
            ) && t.n >= 32;
            let plan = plan_of(s, t, vision_quant);
            &&& weight ==> plan == Plan::Weight(
                weight_recipe_of(
                    s,
                    t.name@,
                    t.shape@.len(),
                    if t.shape@.len() == 2 {
                        t.shape@[1]
                    } else {
                        t.n
                    },
                ),
            )
            &&& !weight && !vision ==> plan == Plan::Keep
        }),
{
}

/// The vision encoder, where it is asked for, is kept as F16, stored as four-bit from
/// 32 elements on where `hfq4` is asked for, or copied where it is BF16 and `bf16` is
/// asked for.
pub proof fn law_vision_tensors(s: Settings, t: TensorFacts, vision_quant: Seq<char>)
    requires
        plan_of(s, t, vision_quant) != Plan::LeaveOut,
        t.dtype@ != "I64"@,
        !(plan_of(s, t, vision_quant) is Expert),
        plan_of(s, t, vision_quant) != Plan::Stack,
        begins(t.name@, "model.visual."@) || begins(t.name@, "visual."@),
    ensures
        ({
            let plan = plan_of(s, t, vision_quant);
            let k = if t.shape@.len() == 2 {
                t.shape@[1]
            } else {
                t.n
            };
            let four = vision_quant == "hfq4"@ && t.n >= 32;
            &&& four ==> plan == Plan::Vision(
                if k % 256 == 0 {
                    Recipe::Hfq4G256
                } else {
                    Recipe::Hfq4G128
                },
            )
            &&& !four && vision_quant == "bf16"@ ==> plan == Plan::Vision(
                if t.dtype@ == "BF16"@ {
                    Recipe::Bf16Copy
                } else {
                    Recipe::F16
                },
            )
            &&& !four && vision_quant != "bf16"@ ==> plan == Plan::Keep
        }),
{
}

/// How tensors are counted: those that are left out apart, integers among the tensors
/// met as well, and those that are quantized by what is stored of them.
pub proof fn law_tally(t: Tally, plan: Plan, n: u64, stored: u64)
    requires
        t.met + n <= u64::MAX,
        t.left_out + n <= u64::MAX,
        t.quantized + stored <= u64::MAX,
    ensures
        t.has_room(plan, n, stored),
        t.with(plan, n, stored).met == (if plan == Plan::LeaveOut {
            t.met as int
        } else {
            t.met + n
        }),
        t.with(plan, n, stored).left_out == (if plan == Plan::LeaveOut || plan
            == Plan::SkipInteger {
            t.left_out + n
        } else {
            t.left_out as int
        }),
        t.with(plan, n, stored).quantized == (if plan == Plan::LeaveOut || plan == Plan::SkipInteger
            || plan == Plan::Keep {
            t.quantized as int
        } else {
            t.quantized + stored
        }),
{
}

} // verus!
