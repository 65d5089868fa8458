//! What becomes of the tensors and the metadata of a GGUF model.
use vstd::prelude::*;
use vstd::string::*;

use crate::formats::GgufFormat;
use crate::kmap::{kmap_resolve_mode, QuantLevel};
#[allow(unused_imports)]
use crate::kmap::level;
use crate::names::{gguf_is_embed_tensor, gguf_is_norm_tensor, gguf_output_name};
#[allow(unused_imports)]
use crate::names::output_name;
use crate::recipe::Recipe;
use crate::text::same;
#[allow(unused_imports)]
use crate::text::{has, occurs_at};

verus! {

// Tensors.

/// A tensor of a GGUF file. The first dimension is the length of its rows.
#[derive(Debug)]
pub struct GgufTensor {
    pub name: String,
    pub shape: Vec<usize>,
    /// The data is Q1_0.
    pub is_q1: bool,
}

/// The length of the rows: the first dimension of a matrix, otherwise all `n`
/// elements.
pub open spec fn gguf_row_len(t: GgufTensor, n: usize) -> usize {
    if t.shape@.len() == 2 {
        t.shape@[0]
    } else {
        n
    }
}

/// The choices that hold for a whole GGUF model.
#[derive(Clone, Copy, Debug, PartialEq, Eq, Structural)]
pub struct GgufSettings {
    pub format: GgufFormat,
    pub is_moe: bool,
    pub n_layers: usize,
    /// Promotion is on.
    pub kmap: bool,
    pub kmap_mode: u8,
}

/// The level of a tensor, by the name under which it is written.
pub open spec fn gguf_level_of(s: GgufSettings, name: Seq<char>) -> QuantLevel {
    if s.kmap {
        level(output_name(name), s.n_layers, s.is_moe, s.kmap_mode)
    } else {
        QuantLevel::Base
    }
}

/// The level of a tensor.
pub fn gguf_level(s: GgufSettings, name: &str) -> (r: QuantLevel)
    ensures
        r == gguf_level_of(s, name@),
{
    if s.kmap {
        let out = gguf_output_name(name);
        kmap_resolve_mode(out.as_str(), s.n_layers, s.is_moe, s.kmap_mode)
    } else {
        QuantLevel::Base
    }
}

/// The recipe of a matrix with aligned rows.
pub open spec fn aligned_recipe(f: GgufFormat, promoted: bool) -> Recipe {
    match f {
        GgufFormat::Hfp4 => Recipe::Hfp4,
        GgufFormat::Mfp4 => Recipe::Mfp4,
        GgufFormat::Hfq6 => Recipe::Hfq6G256,
        GgufFormat::Mq6 => Recipe::Mq6,
        GgufFormat::Hfq4 => if promoted {
            Recipe::Hfq6G256
        } else {
            Recipe::Hfq4G256
        },
        _ => if promoted {
            Recipe::Mq6
        } else {
            match f {
                GgufFormat::Mq4 => Recipe::Mq4,
                GgufFormat::Mq3 => Recipe::Mq3,
                GgufFormat::Mq2 => Recipe::Mq2,
                GgufFormat::Mq2Lloyd => Recipe::Mq2Lloyd,
                _ => Recipe::Mq3Lloyd,
            }
        },
    }
}

/// The recipe of a tensor with `n` elements: norms and all that is no matrix stay
/// `f16`; one-bit data is copied where one bit is wanted; embeddings and what is
/// promoted to Q8 become Q8; ragged rows become four-bit in groups of 128.
pub open spec fn gguf_recipe_of(s: GgufSettings, t: GgufTensor, n: usize) -> Recipe {
    let k = gguf_row_len(t, n);
    let norm = has(t.name@, "_norm"@) || has(t.name@, "norm.weight"@);
    let lvl = gguf_level_of(s, t.name@);
    if norm || t.shape@.len() != 2 {
        Recipe::F16
    } else if s.format == GgufFormat::Hfq1 && t.is_q1 && k % 128 == 0 {
        Recipe::Hfq1Copy
    } else if lvl == QuantLevel::Q8 || t.name@ == "token_embd.weight"@ {
        Recipe::Q8F16
    } else if s.format == GgufFormat::Hfq1 {
        if k % 128 == 0 {
            Recipe::Hfq1
        } else {
            Recipe::Hfq4G128
        }
    } else if k % 256 == 0 {
        aligned_recipe(s.format, lvl == QuantLevel::Promote6)
    } else {
        Recipe::Hfq4G128
    }
}

fn pick_aligned(f: GgufFormat, promoted: bool) -> (r: Recipe)
    ensures
        r == aligned_recipe(f, promoted),
{
    match f {
        GgufFormat::Hfp4 => Recipe::Hfp4,
        GgufFormat::Mfp4 => Recipe::Mfp4,
        GgufFormat::Hfq6 => Recipe::Hfq6G256,
        GgufFormat::Mq6 => Recipe::Mq6,
        GgufFormat::Hfq4 => {
            if promoted {
                Recipe::Hfq6G256
            } else {
                Recipe::Hfq4G256
            }
        },
        _ => {
            if promoted {
                return Recipe::Mq6;
            }
            match f {
                GgufFormat::Mq4 => Recipe::Mq4,
                GgufFormat::Mq3 => Recipe::Mq3,
                GgufFormat::Mq2 => Recipe::Mq2,
                GgufFormat::Mq2Lloyd => Recipe::Mq2Lloyd,
                _ => Recipe::Mq3Lloyd,
            }
        },
    }
}

/// Chooses the recipe of a tensor with `n` elements.
#[verifier::rlimit(40)]
pub fn gguf_recipe(s: GgufSettings, t: &GgufTensor, n: usize) -> (r: Recipe)
    ensures
        r == gguf_recipe_of(s, *t, n),
{
    let name = t.name.as_str();
    if gguf_is_norm_tensor(name) || t.shape.len() != 2 {
        return Recipe::F16;
    }
    let k: usize = t.shape[0];
    let one_bit = matches!(s.format, GgufFormat::Hfq1);
    if one_bit && t.is_q1 && k % 128 == 0 {
        return Recipe::Hfq1Copy;
    }
    let lvl = gguf_level(s, name);
    if matches!(lvl, QuantLevel::Q8) || gguf_is_embed_tensor(name) {
        return Recipe::Q8F16;
    }
    if one_bit {
        return if k % 128 == 0 {
            Recipe::Hfq1
        } else {
            Recipe::Hfq4G128
        };
    }
    if k % 256 == 0 {
        pick_aligned(s.format, matches!(lvl, QuantLevel::Promote6))
    } else {
        Recipe::Hfq4G128
    }
}

/// What decides the level of a GGUF tensor: without promotion nothing, with it the
/// K-map, by the name under which the tensor is written.
pub proof fn law_gguf_levels(s: GgufSettings, name: Seq<char>)
    ensures
        !s.kmap ==> gguf_level_of(s, name) == QuantLevel::Base,
        s.kmap ==> gguf_level_of(s, name) == level(
            output_name(name),
            s.n_layers,
            s.is_moe,
            s.kmap_mode,
        ),
{
}

/// Norms and everything that is no matrix are kept as F16.
pub proof fn law_gguf_norms_are_kept(s: GgufSettings, t: GgufTensor, n: usize)
    requires
        has(t.name@, "_norm"@) || has(t.name@, "norm.weight"@) || t.shape@.len() != 2,
    ensures
        gguf_recipe_of(s, t, n) == Recipe::F16,
{
}

/// One-bit matrices are copied where one-bit is asked for and groups of 128 fill
/// their rows. The first dimension of a GGUF shape is the length of a row.
pub proof fn law_gguf_one_bit_is_copied(s: GgufSettings, t: GgufTensor, n: usize)
    requires
        !(has(t.name@, "_norm"@) || has(t.name@, "norm.weight"@)),
        t.shape@.len() == 2,
        s.format == GgufFormat::Hfq1,
        t.is_q1,
    ensures
        t.shape@[0] % 128 == 0 <==> gguf_recipe_of(s, t, n) == Recipe::Hfq1Copy,
{
}

/// A matrix that the K-map holds at Q8 is Q8, and so is the token embedding.
pub proof fn law_gguf_q8_tensors(s: GgufSettings, t: GgufTensor, n: usize)
    requires
        !(has(t.name@, "_norm"@) || has(t.name@, "norm.weight"@)),
        t.shape@.len() == 2,
        !(s.format == GgufFormat::Hfq1 && t.is_q1 && t.shape@[0] % 128 == 0),
    ensures
        gguf_recipe_of(s, t, n) == Recipe::Q8F16 <==> t.name@ == "token_embd.weight"@
            || gguf_level_of(s, t.name@) == QuantLevel::Q8,
{
}

/// Every other matrix gets the format that was asked for where its groups fill the
/// rows: 128 for one-bit, 256 for the others. A promoted one gets the six-bit
/// variant, unless the format is floating-point or six-bit itself. A matrix with
/// other rows gets four-bit in groups of 128.
pub proof fn law_gguf_matrices_follow_format(s: GgufSettings, t: GgufTensor, n: usize)
    requires
        !(has(t.name@, "_norm"@) || has(t.name@, "norm.weight"@)),
        t.shape@.len() == 2,
        !(s.format == GgufFormat::Hfq1 && t.is_q1),
        t.name@ != "token_embd.weight"@,
        gguf_level_of(s, t.name@) != QuantLevel::Q8,
    ensures
        ({
            let up = gguf_level_of(s, t.name@) == QuantLevel::Promote6;
            let r = gguf_recipe_of(s, t, n);
            &&& s.format == GgufFormat::Hfq1 ==> r == (if t.shape@[0] % 128 == 0 {
                Recipe::Hfq1
            } else {
                Recipe::Hfq4G128
            })
            &&& s.format != GgufFormat::Hfq1 && t.shape@[0] % 256 != 0 ==> r == Recipe::Hfq4G128
            &&& t.shape@[0] % 256 == 0 ==> match s.format {
                GgufFormat::Hfq1 => true,
                GgufFormat::Hfp4 => r == Recipe::Hfp4,
                GgufFormat::Mfp4 => r == Recipe::Mfp4,
                GgufFormat::Hfq6 => r == Recipe::Hfq6G256,
                GgufFormat::Mq6 => r == Recipe::Mq6,
                GgufFormat::Hfq4 => r == Recipe::Hfq6G256 <==> up,
                _ => r == Recipe::Mq6 <==> up,
            }
            &&& t.shape@[0] % 256 == 0 && !up ==> match s.format {
                GgufFormat::Hfq4 => r == Recipe::Hfq4G256,
                GgufFormat::Mq4 => r == Recipe::Mq4,
                GgufFormat::Mq3 => r == Recipe::Mq3,
                GgufFormat::Mq2 => r == Recipe::Mq2,
                GgufFormat::Mq2Lloyd => r == Recipe::Mq2Lloyd,
                GgufFormat::Mq3Lloyd => r == Recipe::Mq3Lloyd,
                _ => true,
            }
        }),
{
}

/// The number of bytes of `n` one-bit weights.
pub fn q1_size(n: usize) -> (r: usize)
    ensures
        r == n / 128 * 18,
{
    n / 128 * 18
}

/// The embedding table is Q8, unless one-bit data is copied.
pub proof fn law_gguf_embedding_is_q8(s: GgufSettings, t: GgufTensor, n: usize)
    requires
        t.name@ == "token_embd.weight"@,
        t.shape@.len() == 2,
        !(s.format == GgufFormat::Hfq1 && t.is_q1 && t.shape@[0] % 128 == 0),
    ensures
        gguf_recipe_of(s, t, n) == Recipe::Q8F16,
{
    reveal_strlit("token_embd.weight");
    reveal_strlit("_norm");
    reveal_strlit("norm.weight");
    let name = "token_embd.weight"@;
    assert forall|i: int| !(#[trigger] occurs_at(name, "_norm"@, i)) by {
        if occurs_at(name, "_norm"@, i) {
            assert(name[i + 0] == "_norm"@[0]);
            assert(name[i + 1] == "_norm"@[1]);
        }
    }
    assert forall|i: int| !(#[trigger] occurs_at(name, "norm.weight"@, i)) by {
        if occurs_at(name, "norm.weight"@, i) {
            assert(name[i + 0] == "norm.weight"@[0]);
            assert(name[i + 1] == "norm.weight"@[1]);
        }
    }
}

/// Without promotion, every matrix with aligned rows that is neither a norm nor
/// the embedding gets the format that was asked for.
pub proof fn law_gguf_base_follows_format(s: GgufSettings, t: GgufTensor, n: usize)
    requires
        !s.kmap,
        s.format != GgufFormat::Hfq1,
        t.shape@.len() == 2,
        t.shape@[0] % 256 == 0,
        !(has(t.name@, "_norm"@) || has(t.name@, "norm.weight"@)),
        t.name@ != "token_embd.weight"@,
    ensures
        gguf_recipe_of(s, t, n) == aligned_recipe(s.format, false),
{
}

// Metadata.

/// A metadata value. Floats are held by their bits.
#[derive(Debug)]
pub enum MetaValue {
    U8(u8),
    I8(i8),
    U16(u16),
    I16(i16),
    U32(u32),
    I32(i32),
    Single(u32),
    Bool(bool),
    Text(String),
    List(Vec<MetaValue>),
    U64(u64),
    I64(i64),
    Double(u64),
}

/// A metadata entry.
#[derive(Debug)]
pub struct MetaEntry {
    pub key: String,
    pub value: MetaValue,
}

/// The position of the first entry with this key.
pub open spec fn entry_at(meta: Seq<MetaEntry>, key: Seq<char>) -> Option<int>
    decreases meta.len(),
{
    if meta.len() == 0 {
        None
    } else {
        match entry_at(meta.drop_last(), key) {
            Some(i) => Some(i),
            None => if meta.last().key@ == key {
                Some(meta.len() - 1)
            } else {
                None
            },
        }
    }
}

/// An integer as 64 bits without sign; a negative one in two's complement.
pub open spec fn unsigned64(x: int) -> u64 {
    if x < 0 {
        (x + 0x1_0000_0000_0000_0000) as u64
    } else {
        x as u64
    }
}

/// The integer that a value holds, if it is one.
pub open spec fn integer_in(v: MetaValue) -> Option<u64> {
    match v {
        MetaValue::U8(x) => Some(x as u64),
        MetaValue::I8(x) => Some(unsigned64(x as int)),
        MetaValue::U16(x) => Some(x as u64),
        MetaValue::I16(x) => Some(unsigned64(x as int)),
        MetaValue::U32(x) => Some(x as u64),
        MetaValue::I32(x) => Some(unsigned64(x as int)),
        MetaValue::U64(x) => Some(x),
        MetaValue::I64(x) => Some(unsigned64(x as int)),
        _ => None,
    }
}

/// A float by its bits.
#[derive(Clone, Copy, Debug, PartialEq, Eq, Structural)]
pub enum Real {
    Single(u32),
    Double(u64),
}

/// The float that a value holds, if it is one.
pub open spec fn real_in(v: MetaValue) -> Option<Real> {
    match v {
        MetaValue::Single(x) => Some(Real::Single(x)),
        MetaValue::Double(x) => Some(Real::Double(x)),
        _ => None,
    }
}

/// The integer under a key.
pub open spec fn meta_integer(meta: Seq<MetaEntry>, key: Seq<char>) -> Option<u64> {
    match entry_at(meta, key) {
        Some(i) => integer_in(meta[i].value),
        None => None,
    }
}

/// The float under a key.
pub open spec fn meta_real(meta: Seq<MetaEntry>, key: Seq<char>) -> Option<Real> {
    match entry_at(meta, key) {
        Some(i) => real_in(meta[i].value),
        None => None,
    }
}

proof fn lemma_entry_stays(meta: Seq<MetaEntry>, key: Seq<char>, n: int)
    requires
        0 <= n <= meta.len(),
        entry_at(meta.take(n), key) is Some,
    ensures
        entry_at(meta, key) == entry_at(meta.take(n), key),
    decreases meta.len(),
{
    if n == meta.len() {
        assert(meta.take(n) =~= meta);
    } else {
        assert(meta.drop_last().take(n) =~= meta.take(n));
        lemma_entry_stays(meta.drop_last(), key, n);
    }
}

fn find_entry(meta: &[MetaEntry], key: &str) -> (r: Option<usize>)
    ensures
        match r {
            Some(i) => entry_at(meta@, key@) == Some(i as int) && i < meta@.len(),
            None => entry_at(meta@, key@) is None,
        },
{
    let n: usize = meta.len();
    let mut i: usize = 0;
    while i < n
        invariant
            i <= n,
            n == meta@.len(),
            entry_at(meta@.take(i as int), key@) is None,
        decreases n - i,
    {
        proof {
            assert(meta@.take(i + 1).drop_last() =~= meta@.take(i as int));
        }
        if same(meta[i].key.as_str(), key) {
            proof {
                assert(entry_at(meta@.take(i + 1), key@) == Some(i as int));
                lemma_entry_stays(meta@, key@, i + 1);
            }
            return Some(i);
        }
        i = i + 1;
    }
    assert(meta@.take(n as int) =~= meta@);
    None
}

fn signed_to_u64(x: i64) -> (r: u64)
    ensures
        r == unsigned64(x as int),
{
    if x < 0 {
        (x as i128 + 0x1_0000_0000_0000_0000i128) as u64
    } else {
        x as u64
    }
}

/// The integer under a key.
pub fn read_integer(meta: &[MetaEntry], key: &str) -> (r: Option<u64>)
    ensures
        r == meta_integer(meta@, key@),
{
    match find_entry(meta, key) {
        Some(i) => match &meta[i].value {
            MetaValue::U8(x) => Some(*x as u64),
            MetaValue::I8(x) => Some(signed_to_u64(*x as i64)),
            MetaValue::U16(x) => Some(*x as u64),
            MetaValue::I16(x) => Some(signed_to_u64(*x as i64)),
            MetaValue::U32(x) => Some(*x as u64),
            MetaValue::I32(x) => Some(signed_to_u64(*x as i64)),
            MetaValue::U64(x) => Some(*x),
            MetaValue::I64(x) => Some(signed_to_u64(*x)),
            _ => None,
        },
        None => None,
    }
}

/// The float under a key.
pub fn read_real(meta: &[MetaEntry], key: &str) -> (r: Option<Real>)
    ensures
        r == meta_real(meta@, key@),
{
    match find_entry(meta, key) {
        Some(i) => match &meta[i].value {
            MetaValue::Single(x) => Some(Real::Single(*x)),
            MetaValue::Double(x) => Some(Real::Double(*x)),
            _ => None,
        },
        None => None,
    }
}

/// The text under a key, where it holds text.
pub open spec fn meta_text(meta: Seq<MetaEntry>, key: Seq<char>) -> Option<Seq<char>> {
    match entry_at(meta, key) {
        Some(i) => match meta[i].value {
            MetaValue::Text(s) => Some(s@),
            _ => None,
        },
        None => None,
    }
}

/// The architecture that the metadata names, `llama` where it names none.
pub fn architecture(meta: &[MetaEntry]) -> (r: String)
    ensures
        r@ == (match meta_text(meta@, "general.architecture"@) {
            Some(s) => s,
            None => "llama"@,
        }),
{
    match find_entry(meta, "general.architecture") {
        Some(i) => match &meta[i].value {
            MetaValue::Text(s) => s.as_str().to_owned(),
            _ => "llama".to_owned(),
        },
        None => "llama".to_owned(),
    }
}

/// The second dimension of the token embedding, which counts the vocabulary.
pub open spec fn embedding_rows(tensors: Seq<GgufTensor>) -> Option<u64>
    decreases tensors.len(),
{
    if tensors.len() == 0 {
        None
    } else {
        let t = tensors[0];
        if t.name@ == "token_embd.weight"@ {
            if t.shape@.len() > 1 {
                Some(t.shape@[1] as u64)
            } else {
                None
            }
        } else {
            embedding_rows(tensors.skip(1))
        }
    }
}

fn find_embedding_rows(tensors: &[GgufTensor]) -> (r: Option<u64>)
    ensures
        r == embedding_rows(tensors@),
{
    let n: usize = tensors.len();
    let mut i: usize = 0;
    assert(tensors@.skip(0) =~= tensors@);
    while i < n
        invariant
            i <= n,
            n == tensors@.len(),
            embedding_rows(tensors@) == embedding_rows(tensors@.skip(i as int)),
        decreases n - i,
    {
        assert(tensors@.skip(i as int)[0] == tensors@[i as int]);
        assert(tensors@.skip(i as int).skip(1) =~= tensors@.skip(i + 1));
        if same(tensors[i].name.as_str(), "token_embd.weight") {
            return if tensors[i].shape.len() > 1 {
                Some(tensors[i].shape[1] as u64)
            } else {
                None
            };
        }
        i = i + 1;
    }
    None
}

/// A key under an architecture's prefix.
pub open spec fn arch_key(arch: Seq<char>, key: Seq<char>) -> Seq<char> {
    arch + "."@ + key
}

/// The hyperparameters of a model, under the names of a `config.json`.
#[derive(Debug)]
pub struct ModelConfig {
    pub model_type: String,
    pub hidden_size: Option<u64>,
    pub num_hidden_layers: Option<u64>,
    pub num_attention_heads: Option<u64>,
    pub num_key_value_heads: Option<u64>,
    pub intermediate_size: Option<u64>,
    pub vocab_size: Option<u64>,
    pub max_position_embeddings: Option<u64>,
    pub rope_theta: Option<Real>,
    pub rms_norm_eps: Option<Real>,
    pub head_dim: Option<u64>,
    pub bos_token_id: u64,
    pub eos_token_id: u64,
}

/// The first value, or the second where there is none.
pub open spec fn first_of(a: Option<u64>, b: Option<u64>) -> Option<u64> {
    match a {
        Some(x) => Some(x),
        None => b,
    }
}

/// The size of a head where it is not given: the model's width divided among the
/// heads.
pub open spec fn head_share(dim: Option<u64>, heads: Option<u64>) -> Option<u64> {
    match (dim, heads) {
        (Some(d), Some(h)) => Some(
            if h > 0 {
                d / h
            } else {
                d
            },
        ),
        _ => None,
    }
}

fn first_some(a: Option<u64>, b: Option<u64>) -> (r: Option<u64>)
    ensures
        r == first_of(a, b),
{
    match a {
        Some(x) => Some(x),
        None => b,
    }
}

fn join_key(arch: &str, key: &str) -> (r: String)
    ensures
        r@ == arch_key(arch@, key@),
{
    let mut out = arch.to_owned();
    out.append(".");
    out.append(key);
    out
}

fn read_arch_integer(meta: &[MetaEntry], arch: &str, key: &str) -> (r: Option<u64>)
    ensures
        r == meta_integer(meta@, arch_key(arch@, key@)),
{
    let full = join_key(arch, key);
    read_integer(meta, full.as_str())
}

/// Builds the hyperparameters of a GGUF model from its metadata. The number of
/// key-value heads defaults to the number of heads, the vocabulary to the second
/// dimension of the embedding, the size of a head to its share of the width, and
/// the two token numbers to 1 and 2.
#[verifier::rlimit(40)]
pub fn config_json_from_gguf(meta: &[MetaEntry], tensors: &[GgufTensor], arch: &str) -> (c:
    ModelConfig)
    ensures
        c.model_type@ == arch@,
        c.hidden_size == meta_integer(meta@, arch_key(arch@, "embedding_length"@)),
        c.num_hidden_layers == meta_integer(meta@, arch_key(arch@, "block_count"@)),
        c.num_attention_heads == meta_integer(meta@, arch_key(arch@, "attention.head_count"@)),
        c.num_key_value_heads == first_of(
            meta_integer(meta@, arch_key(arch@, "attention.head_count_kv"@)),
            c.num_attention_heads,
        ),
        c.intermediate_size == meta_integer(meta@, arch_key(arch@, "feed_forward_length"@)),
        c.vocab_size == first_of(
            meta_integer(meta@, arch_key(arch@, "vocab_size"@)),
            embedding_rows(tensors@),
        ),
        c.max_position_embeddings == meta_integer(meta@, arch_key(arch@, "context_length"@)),
        c.rope_theta == meta_real(meta@, arch_key(arch@, "rope.freq_base"@)),
        c.rms_norm_eps == meta_real(meta@, arch_key(arch@, "attention.layer_norm_rms_epsilon"@)),
        c.head_dim == first_of(
            meta_integer(meta@, arch_key(arch@, "attention.key_length"@)),
            head_share(c.hidden_size, c.num_attention_heads),
        ),
        Some(c.bos_token_id) == first_of(
            meta_integer(meta@, "tokenizer.ggml.bos_token_id"@),
            Some(1),
        ),
        Some(c.eos_token_id) == first_of(
            meta_integer(meta@, "tokenizer.ggml.eos_token_id"@),
            Some(2),
        ),
{
    let hidden_size = read_arch_integer(meta, arch, "embedding_length");
    let num_hidden_layers = read_arch_integer(meta, arch, "block_count");
    let num_attention_heads = read_arch_integer(meta, arch, "attention.head_count");
    let num_key_value_heads = first_some(
        read_arch_integer(meta, arch, "attention.head_count_kv"),
        num_attention_heads,
    );
    let intermediate_size = read_arch_integer(meta, arch, "feed_forward_length");
    let vocab_size = first_some(
        read_arch_integer(meta, arch, "vocab_size"),
        find_embedding_rows(tensors),
    );
    let max_position_embeddings = read_arch_integer(meta, arch, "context_length");
    let rope_key = join_key(arch, "rope.freq_base");
    let rope_theta = read_real(meta, rope_key.as_str());
    let eps_key = join_key(arch, "attention.layer_norm_rms_epsilon");
    let rms_norm_eps = read_real(meta, eps_key.as_str());
    let share: Option<u64> = match (hidden_size, num_attention_heads) {
        (Some(d), Some(h)) => Some(
            if h > 0 {
                d / h
            } else {
                d
            },
        ),
        _ => None,
    };
    let head_dim = first_some(read_arch_integer(meta, arch, "attention.key_length"), share);
    let bos_token_id: u64 = match read_integer(meta, "tokenizer.ggml.bos_token_id") {
        Some(x) => x,
        None => 1,
    };
    let eos_token_id: u64 = match read_integer(meta, "tokenizer.ggml.eos_token_id") {
        Some(x) => x,
        None => 2,
    };
    ModelConfig {
        model_type: arch.to_owned(),
        hidden_size,
        num_hidden_layers,
        num_attention_heads,
        num_key_value_heads,
        intermediate_size,
        vocab_size,
        max_position_embeddings,
        rope_theta,
        rms_norm_eps,
        head_dim,
        bos_token_id,
        eos_token_id,
    }
}

/// A value of a configuration.
#[derive(Debug)]
pub enum ConfigValue {
    Text(String),
    Integer(u64),
    Real(Real),
}

/// An entry of a configuration.
#[derive(Debug)]
pub struct ConfigEntry {
    pub key: &'static str,
    pub value: ConfigValue,
}

/// A configuration entry by its contents.
pub enum EntryView {
    Text(Seq<char>, Seq<char>),
    Integer(Seq<char>, u64),
    Real(Seq<char>, Real),
}

impl View for ConfigEntry {
    type V = EntryView;

    open spec fn view(&self) -> EntryView {
        match self.value {
            ConfigValue::Text(s) => EntryView::Text(self.key@, s@),
            ConfigValue::Integer(n) => EntryView::Integer(self.key@, n),
            ConfigValue::Real(x) => EntryView::Real(self.key@, x),
        }
    }
}

/// Entries by their contents.
pub open spec fn views(entries: Seq<ConfigEntry>) -> Seq<EntryView> {
    Seq::new(entries.len(), |i: int| entries[i]@)
}

/// The entry of an integer that may be absent.
pub open spec fn integer_entry(key: Seq<char>, value: Option<u64>) -> Seq<EntryView> {
    match value {
        Some(n) => seq![EntryView::Integer(key, n)],
        None => Seq::empty(),
    }
}

/// The entry of a float that may be absent.
pub open spec fn real_entry(key: Seq<char>, value: Option<Real>) -> Seq<EntryView> {
    match value {
        Some(x) => seq![EntryView::Real(key, x)],
        None => Seq::empty(),
    }
}

/// The entries of a configuration; what is absent has none.
pub open spec fn entries_of(c: ModelConfig) -> Seq<EntryView> {
    seq![EntryView::Text("model_type"@, c.model_type@)] + integer_entry(
        "hidden_size"@,
        c.hidden_size,
    ) + integer_entry("num_hidden_layers"@, c.num_hidden_layers) + integer_entry(
        "num_attention_heads"@,
        c.num_attention_heads,
    ) + integer_entry("num_key_value_heads"@, c.num_key_value_heads) + integer_entry(
        "intermediate_size"@,
        c.intermediate_size,
    ) + integer_entry("vocab_size"@, c.vocab_size) + integer_entry(
        "max_position_embeddings"@,
        c.max_position_embeddings,
    ) + real_entry("rope_theta"@, c.rope_theta) + real_entry("rms_norm_eps"@, c.rms_norm_eps)
        + integer_entry("head_dim"@, c.head_dim) + integer_entry(
        "bos_token_id"@,
        Some(c.bos_token_id),
    ) + integer_entry("eos_token_id"@, Some(c.eos_token_id))
}

fn push_integer(out: &mut Vec<ConfigEntry>, key: &'static str, value: Option<u64>)
    ensures
        views(final(out)@) == views(old(out)@) + integer_entry(key@, value),
{
    match value {
        Some(n) => {
            out.push(ConfigEntry { key, value: ConfigValue::Integer(n) });
            assert(views(out@) =~= views(old(out)@) + integer_entry(key@, value));
        },
        None => {
            assert(views(out@) =~= views(old(out)@) + integer_entry(key@, value));
        },
    }
}

fn push_real(out: &mut Vec<ConfigEntry>, key: &'static str, value: Option<Real>)
    ensures
        views(final(out)@) == views(old(out)@) + real_entry(key@, value),
{
    match value {
        Some(x) => {
            out.push(ConfigEntry { key, value: ConfigValue::Real(x) });
            assert(views(out@) =~= views(old(out)@) + real_entry(key@, value));
        },
        None => {
            assert(views(out@) =~= views(old(out)@) + real_entry(key@, value));
        },
    }
}

impl ModelConfig {
    /// The entries of the configuration as they are written.
    pub fn entries(&self) -> (out: Vec<ConfigEntry>)
        ensures
            views(out@) == entries_of(*self),
    {
        let mut out: Vec<ConfigEntry> = Vec::new();
        out.push(
            ConfigEntry {
                key: "model_type",
                value: ConfigValue::Text(self.model_type.as_str().to_owned()),
            },
        );
        assert(views(out@) =~= seq![EntryView::Text("model_type"@, self.model_type@)]);
        push_integer(&mut out, "hidden_size", self.hidden_size);
        push_integer(&mut out, "num_hidden_layers", self.num_hidden_layers);
        push_integer(&mut out, "num_attention_heads", self.num_attention_heads);
        push_integer(&mut out, "num_key_value_heads", self.num_key_value_heads);
        push_integer(&mut out, "intermediate_size", self.intermediate_size);
        push_integer(&mut out, "vocab_size", self.vocab_size);
        push_integer(&mut out, "max_position_embeddings", self.max_position_embeddings);
        push_real(&mut out, "rope_theta", self.rope_theta);
        push_real(&mut out, "rms_norm_eps", self.rms_norm_eps);
        push_integer(&mut out, "head_dim", self.head_dim);
        push_integer(&mut out, "bos_token_id", Some(self.bos_token_id));
        push_integer(&mut out, "eos_token_id", Some(self.eos_token_id));
        out
    }
}

// What the metadata gives.

/// The first entry with a key counts; without one there is none.
pub proof fn law_first_entry_counts(meta: Seq<MetaEntry>, key: Seq<char>, i: int)
    requires
        0 <= i <= meta.len(),
        forall|j: int| 0 <= j < i ==> (#[trigger] meta[j]).key@ != key,
    ensures
        i < meta.len() && meta[i].key@ == key ==> entry_at(meta, key) == Some(i),
        i == meta.len() ==> entry_at(meta, key) is None,
    decreases meta.len(),
{
    if meta.len() > 0 {
        let rest = meta.drop_last();
        if i == meta.len() {
            assert forall|j: int| 0 <= j < rest.len() implies (#[trigger] rest[j]).key@ != key by {
                assert(rest[j] == meta[j]);
            }
            assert(meta[meta.len() - 1].key@ != key);
            law_first_entry_counts(rest, key, i - 1);
        } else {
            assert forall|j: int| 0 <= j < i implies (#[trigger] rest[j]).key@ != key by {
                assert(rest[j] == meta[j]);
            }
            law_first_entry_counts(rest, key, i);
        }
    }
}

/// What an entry gives: an integer of any width as 64 unsigned bits, a negative one
/// by its two's complement; a float of either width as it is; a text. No other
/// value gives an integer, a float or a text.
pub proof fn law_entries_give_values(meta: Seq<MetaEntry>, key: Seq<char>, i: int)
    requires
        0 <= i < meta.len(),
        meta[i].key@ == key,
        forall|j: int| 0 <= j < i ==> (#[trigger] meta[j]).key@ != key,
    ensures
        match meta[i].value {
            MetaValue::U8(x) => meta_integer(meta, key) == Some(x as u64),
            MetaValue::U16(x) => meta_integer(meta, key) == Some(x as u64),
            MetaValue::U32(x) => meta_integer(meta, key) == Some(x as u64),
            MetaValue::U64(x) => meta_integer(meta, key) == Some(x),
            MetaValue::I8(x) => meta_integer(meta, key) is Some && meta_integer(meta, key)->0
                == x as int % 0x1_0000_0000_0000_0000,
            MetaValue::I16(x) => meta_integer(meta, key) is Some && meta_integer(meta, key)->0
                == x as int % 0x1_0000_0000_0000_0000,
            MetaValue::I32(x) => meta_integer(meta, key) is Some && meta_integer(meta, key)->0
                == x as int % 0x1_0000_0000_0000_0000,
            MetaValue::I64(x) => meta_integer(meta, key) is Some && meta_integer(meta, key)->0
                == x as int % 0x1_0000_0000_0000_0000,
            _ => meta_integer(meta, key) is None,
        },
        match meta[i].value {
            MetaValue::Single(x) => meta_real(meta, key) == Some(Real::Single(x)),
            MetaValue::Double(x) => meta_real(meta, key) == Some(Real::Double(x)),
            _ => meta_real(meta, key) is None,
        },
        match meta[i].value {
            MetaValue::Text(s) => meta_text(meta, key) == Some(s@),
            _ => meta_text(meta, key) is None,
        },
{
    law_first_entry_counts(meta, key, i);
}

/// A key that no entry has gives nothing.
pub proof fn law_missing_entries_give_nothing(meta: Seq<MetaEntry>, key: Seq<char>)
    requires
        forall|j: int| 0 <= j < meta.len() ==> (#[trigger] meta[j]).key@ != key,
    ensures
        meta_integer(meta, key) is None,
        meta_real(meta, key) is None,
        meta_text(meta, key) is None,
{
    law_first_entry_counts(meta, key, meta.len() as int);
}

/// The vocabulary is the second dimension of the first token embedding, if it has
/// one.
pub proof fn law_vocabulary_is_second_dimension(tensors: Seq<GgufTensor>, i: int)
    requires
        0 <= i <= tensors.len(),
        forall|j: int| 0 <= j < i ==> (#[trigger] tensors[j]).name@ != "token_embd.weight"@,
    ensures
        i == tensors.len() ==> embedding_rows(tensors) is None,
        i < tensors.len() && tensors[i].name@ == "token_embd.weight"@ ==> if tensors[i].shape@.len()
            > 1 {
            embedding_rows(tensors) == Some(tensors[i].shape@[1] as u64)
        } else {
            embedding_rows(tensors) is None
        },
    decreases tensors.len(),
{
    if i > 0 {
        let rest = tensors.skip(1);
        assert(tensors[0].name@ != "token_embd.weight"@);
        assert forall|j: int| 0 <= j < i - 1 implies (#[trigger] rest[j]).name@
            != "token_embd.weight"@ by {
            assert(rest[j] == tensors[j + 1]);
        }
        law_vocabulary_is_second_dimension(rest, i - 1);
    }
}

/// How a setting falls back: the first value counts where it is there, else the
/// second. The share of a head is the width over the heads, or the width where
/// there is no head. A key of an architecture has its name and a dot before it.
pub proof fn law_settings_fall_back(x: u64, y: Option<u64>, h: u64, arch: Seq<char>, key: Seq<char>)
    ensures
        first_of(Some(x), y) == Some(x),
        first_of(None, y) == y,
        h > 0 ==> head_share(Some(x), Some(h)) is Some && head_share(Some(x), Some(h))->0 * h <= x
            < head_share(Some(x), Some(h))->0 * h + h,
        head_share(Some(x), Some(0)) == Some(x),
        head_share(None, y) is None,
        head_share(y, None) is None,
        arch_key(arch, key) == arch + seq!['.'] + key,
{
    reveal_strlit(".");
    assert("."@ =~= seq!['.']);
    if h > 0 {
        let q = x / h;
        assert(q * h <= x < q * h + h) by (nonlinear_arith)
            requires
                q == x / h,
                h > 0,
        ;
    }
}

/// The entries of a full configuration, in their order; one that is absent is left
/// out.
pub proof fn law_config_entries(c: ModelConfig, key: Seq<char>, n: u64, x: Real)
    ensures
        integer_entry(key, None).len() == 0,
        real_entry(key, None).len() == 0,
        integer_entry(key, Some(n)) == seq![EntryView::Integer(key, n)],
        real_entry(key, Some(x)) == seq![EntryView::Real(key, x)],
        c.hidden_size is Some && c.num_hidden_layers is Some && c.num_attention_heads is Some
            && c.num_key_value_heads is Some && c.intermediate_size is Some && c.vocab_size is Some
            && c.max_position_embeddings is Some && c.rope_theta is Some && c.rms_norm_eps is Some
            && c.head_dim is Some ==> entries_of(c) == seq![
            EntryView::Text("model_type"@, c.model_type@),
            EntryView::Integer("hidden_size"@, c.hidden_size->0),
            EntryView::Integer("num_hidden_layers"@, c.num_hidden_layers->0),
            EntryView::Integer("num_attention_heads"@, c.num_attention_heads->0),
            EntryView::Integer("num_key_value_heads"@, c.num_key_value_heads->0),
            EntryView::Integer("intermediate_size"@, c.intermediate_size->0),
            EntryView::Integer("vocab_size"@, c.vocab_size->0),
            EntryView::Integer("max_position_embeddings"@, c.max_position_embeddings->0),
            EntryView::Real("rope_theta"@, c.rope_theta->0),
            EntryView::Real("rms_norm_eps"@, c.rms_norm_eps->0),
            EntryView::Integer("head_dim"@, c.head_dim->0),
            EntryView::Integer("bos_token_id"@, c.bos_token_id),
            EntryView::Integer("eos_token_id"@, c.eos_token_id),
        ],
{
}

/// An entry shows its key and its value.
pub proof fn law_entries_show_values(entries: Seq<ConfigEntry>, i: int)
    requires
        0 <= i < entries.len(),
    ensures
        views(entries).len() == entries.len(),
        match entries[i].value {
            ConfigValue::Text(s) => views(entries)[i] == EntryView::Text(entries[i].key@, s@),
            ConfigValue::Integer(n) => views(entries)[i] == EntryView::Integer(entries[i].key@, n),
            ConfigValue::Real(x) => views(entries)[i] == EntryView::Real(entries[i].key@, x),
        },
{
}

/// How many entries an optional setting gives.
pub open spec fn one_if(present: bool) -> int {
    if present {
        1
    } else {
        0
    }
}

proof fn lemma_integer_entry_len(key: Seq<char>, value: Option<u64>)
    ensures
        integer_entry(key, value).len() == one_if(value is Some),
{
}

proof fn lemma_real_entry_len(key: Seq<char>, value: Option<Real>)
    ensures
        real_entry(key, value).len() == one_if(value is Some),
{
}

proof fn lemma_joined_len<T>(
    a: Seq<T>,
    b: Seq<T>,
    c: Seq<T>,
    d: Seq<T>,
    e: Seq<T>,
    f: Seq<T>,
    g: Seq<T>,
    h: Seq<T>,
    i: Seq<T>,
    j: Seq<T>,
    k: Seq<T>,
    l: Seq<T>,
    m: Seq<T>,
)
    requires
        a.len() == 1,
        l.len() == 1,
        m.len() == 1,
    ensures
        ({
            let all = a + b + c + d + e + f + g + h + i + j + k + l + m;
            &&& all.len() == 3 + b.len() + c.len() + d.len() + e.len() + f.len() + g.len() + h.len()
                + i.len() + j.len() + k.len()
            &&& all[0] == a[0]
            &&& all[all.len() - 2] == l[0]
            &&& all[all.len() - 1] == m[0]
        }),
{
}

/// A configuration lists its type first, its tokens last, and between them one entry
/// for each setting that it has.
pub proof fn law_config_lists_settings(c: ModelConfig)
    ensures
        entries_of(c).len() == 3 + one_if(c.hidden_size is Some)
            + one_if(c.num_hidden_layers is Some) + one_if(c.num_attention_heads is Some)
            + one_if(c.num_key_value_heads is Some) + one_if(c.intermediate_size is Some)
            + one_if(c.vocab_size is Some) + one_if(c.max_position_embeddings is Some)
            + one_if(c.rope_theta is Some) + one_if(c.rms_norm_eps is Some)
            + one_if(c.head_dim is Some),
        entries_of(c)[0] == EntryView::Text("model_type"@, c.model_type@),
        entries_of(c)[entries_of(c).len() - 2] == EntryView::Integer(
            "bos_token_id"@,
            c.bos_token_id,
        ),
        entries_of(c)[entries_of(c).len() - 1] == EntryView::Integer(
            "eos_token_id"@,
            c.eos_token_id,
        ),
{
    lemma_integer_entry_len("hidden_size"@, c.hidden_size);
    lemma_integer_entry_len("num_hidden_layers"@, c.num_hidden_layers);
    lemma_integer_entry_len("num_attention_heads"@, c.num_attention_heads);
    lemma_integer_entry_len("num_key_value_heads"@, c.num_key_value_heads);
    lemma_integer_entry_len("intermediate_size"@, c.intermediate_size);
    lemma_integer_entry_len("vocab_size"@, c.vocab_size);
    lemma_integer_entry_len("max_position_embeddings"@, c.max_position_embeddings);
    lemma_real_entry_len("rope_theta"@, c.rope_theta);
    lemma_real_entry_len("rms_norm_eps"@, c.rms_norm_eps);
    lemma_integer_entry_len("head_dim"@, c.head_dim);
    lemma_joined_len(
        seq![EntryView::Text("model_type"@, c.model_type@)],
        integer_entry("hidden_size"@, c.hidden_size),
        integer_entry("num_hidden_layers"@, c.num_hidden_layers),
        integer_entry("num_attention_heads"@, c.num_attention_heads),
        integer_entry("num_key_value_heads"@, c.num_key_value_heads),
        integer_entry("intermediate_size"@, c.intermediate_size),
        integer_entry("vocab_size"@, c.vocab_size),
        integer_entry("max_position_embeddings"@, c.max_position_embeddings),
        real_entry("rope_theta"@, c.rope_theta),
        real_entry("rms_norm_eps"@, c.rms_norm_eps),
        integer_entry("head_dim"@, c.head_dim),
        integer_entry("bos_token_id"@, Some(c.bos_token_id)),
        integer_entry("eos_token_id"@, Some(c.eos_token_id)),
    );
}

} // verus!
