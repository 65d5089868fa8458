//! Importance data: the tensors that hold it, and which layers it singles out.
use vstd::prelude::*;
use vstd::string::*;

use crate::catalog::Listed;
use crate::decimal::format_usize;
#[allow(unused_imports)]
use crate::decimal::decimal;
use crate::gguf::GgufTensor;
#[allow(unused_imports)]
use crate::kmap::level;
use crate::kmap::QuantLevel;
use crate::names::safetensors_to_imatrix_key;
#[allow(unused_imports)]
use crate::names::imatrix_key;
use crate::order::{order_by, ScoreKeys};
#[allow(unused_imports)]
use crate::order::{before, double_key, is_order, score_less};
use crate::plan::{tensor_level, Settings};
#[allow(unused_imports)]
use crate::plan::level_in;
use crate::text::same;

verus! {

/// The names of the tensors that hold the importance of a tensor: the sums of the
/// squared inputs, and how many there were.
#[derive(Debug)]
pub struct ImportanceNames {
    pub sums: String,
    pub counts: String,
}

/// The names of the importance tensors behind a base name.
pub open spec fn names_match(n: ImportanceNames, base: Seq<char>) -> bool {
    n.sums@ == base + ".in_sum2"@ && n.counts@ == base + ".counts"@
}

fn names_behind(base: &str) -> (r: ImportanceNames)
    ensures
        names_match(r, base@),
{
    let mut sums = base.to_owned();
    sums.append(".in_sum2");
    let mut counts = base.to_owned();
    counts.append(".counts");
    ImportanceNames { sums, counts }
}

/// The names of the tensors that hold the importance of a stack of experts, if the
/// stack has any.
pub fn stack_importance(stack: &str) -> (r: Option<ImportanceNames>)
    ensures
        match r {
            Some(n) => match imatrix_key(stack@) {
                Some((base, _)) => names_match(n, base),
                None => false,
            },
            None => imatrix_key(stack@) is None,
        },
{
    match safetensors_to_imatrix_key(stack) {
        Some((base, _)) => Some(names_behind(base.as_str())),
        None => None,
    }
}

/// The base name under which the importance of the experts of a layer is kept.
pub open spec fn layer_base(layer: nat) -> Seq<char> {
    "blk."@ + decimal(layer) + ".ffn_gate_exps.weight"@
}

/// The names of the tensors that hold the importance of a layer.
pub fn layer_importance(layer: usize) -> (r: ImportanceNames)
    ensures
        names_match(r, layer_base(layer as nat)),
{
    let mut base = "blk.".to_owned();
    let number = format_usize(layer);
    base.append(number.as_str());
    base.append(".ffn_gate_exps.weight");
    names_behind(base.as_str())
}

/// The position of the first tensor of this name.
pub open spec fn tensor_at(tensors: Seq<GgufTensor>, name: Seq<char>) -> Option<int>
    decreases tensors.len(),
{
    if tensors.len() == 0 {
        None
    } else {
        match tensor_at(tensors.drop_last(), name) {
            Some(i) => Some(i),
            None => if tensors.last().name@ == name {
                Some(tensors.len() - 1)
            } else {
                None
            },
        }
    }
}

proof fn lemma_tensor_stays(tensors: Seq<GgufTensor>, name: Seq<char>, n: int)
    requires
        0 <= n <= tensors.len(),
        tensor_at(tensors.take(n), name) is Some,
    ensures
        tensor_at(tensors, name) == tensor_at(tensors.take(n), name),
    decreases tensors.len(),
{
    if n == tensors.len() {
        assert(tensors.take(n) =~= tensors);
    } else {
        assert(tensors.drop_last().take(n) =~= tensors.take(n));
        lemma_tensor_stays(tensors.drop_last(), name, n);
    }
}

/// Where a tensor stands in a list; the first of its name counts.
pub fn find_tensor(tensors: &[GgufTensor], name: &str) -> (r: Option<usize>)
    ensures
        match r {
            Some(i) => tensor_at(tensors@, name@) == Some(i as int) && i < tensors@.len(),
            None => tensor_at(tensors@, name@) is None,
        },
{
    let n: usize = tensors.len();
    let mut i: usize = 0;
    while i < n
        invariant
            i <= n,
            n == tensors@.len(),
            tensor_at(tensors@.take(i as int), name@) is None,
        decreases n - i,
    {
        proof {
            assert(tensors@.take(i + 1).drop_last() =~= tensors@.take(i as int));
        }
        if same(tensors[i].name.as_str(), name) {
            proof {
                assert(tensor_at(tensors@.take(i + 1), name@) == Some(i as int));
                lemma_tensor_stays(tensors@, name@, i + 1);
            }
            return Some(i);
        }
        i = i + 1;
    }
    assert(tensors@.take(n as int) =~= tensors@);
    None
}

/// Why importance data is not used.
#[derive(Clone, Copy, Debug, PartialEq, Eq, Structural)]
pub enum ImportanceFault {
    /// One of the tensors is no matrix.
    Shape,
    /// The data is for another number of experts.
    Experts,
    /// The data has not the length that the shape says.
    Length,
}

/// The number of columns of importance data with these shapes and lengths, or why
/// it is not used.
pub open spec fn columns_of(
    sums: Seq<usize>,
    counts: Seq<usize>,
    experts: usize,
    sums_len: int,
    counts_len: int,
) -> Result<usize, ImportanceFault> {
    if sums.len() != 2 || counts.len() != 2 {
        Err(ImportanceFault::Shape)
    } else if sums[1] != experts {
        Err(ImportanceFault::Experts)
    } else if sums_len != sums[0] * sums[1] || counts_len != sums[1] {
        Err(ImportanceFault::Length)
    } else {
        Ok(sums[0])
    }
}

/// Tests the shapes and lengths of importance data and gives its number of
/// columns. The columns of expert `e` start at `e` times that number.
pub fn importance_columns(
    sums: &[usize],
    counts: &[usize],
    experts: usize,
    sums_len: usize,
    counts_len: usize,
) -> (r: Result<usize, ImportanceFault>)
    ensures
        r == columns_of(sums@, counts@, experts, sums_len as int, counts_len as int),
        match r {
            Ok(k) => forall|e: int|
                #![trigger e * k]
                0 <= e < experts ==> 0 <= e * k && e * k + k <= sums_len,
            Err(_) => true,
        },
{
    if sums.len() != 2 || counts.len() != 2 {
        return Err(ImportanceFault::Shape);
    }
    let k: usize = sums[0];
    let n: usize = sums[1];
    if n != experts {
        return Err(ImportanceFault::Experts);
    }
    let fits = match k.checked_mul(n) {
        Some(m) => m == sums_len,
        None => false,
    };
    if !fits || counts_len != n {
        return Err(ImportanceFault::Length);
    }
    proof {
        assert forall|e: int| #![trigger e * k] 0 <= e < experts implies 0 <= e * k && e * k + k
            <= sums_len by {
            assert(0 <= e * k && e * k + k <= k * n) by (nonlinear_arith)
                requires
                    0 <= e < n,
                    0 <= k,
            ;
        }
    }
    Ok(k)
}

// Tiers.

/// The name of the expert stack that stands for a layer.
pub open spec fn probe_name_of(layer: nat) -> Seq<char> {
    "model.language_model.layers."@ + decimal(layer) + ".mlp.experts.gate_up_proj"@
}

/// The name of the expert stack that stands for a layer.
pub fn probe_name(layer: usize) -> (r: String)
    ensures
        r@ == probe_name_of(layer as nat),
{
    let mut out = "model.language_model.layers.".to_owned();
    let number = format_usize(layer);
    out.append(number.as_str());
    out.append(".mlp.experts.gate_up_proj");
    out
}

/// A tensor of this name is listed.
pub open spec fn is_listed(list: Seq<Listed>, name: Seq<char>) -> bool {
    exists|i: int| 0 <= i < list.len() && (#[trigger] list[i]).name@ == name
}

fn lists(list: &[Listed], name: &str) -> (r: bool)
    ensures
        r == is_listed(list@, name@),
{
    let n: usize = list.len();
    let mut i: usize = 0;
    while i < n
        invariant
            i <= n,
            n == list@.len(),
            forall|j: int| 0 <= j < i ==> (#[trigger] list@[j]).name@ != name@,
        decreases n - i,
    {
        if same(list[i].name.as_str(), name) {
            return true;
        }
        i = i + 1;
    }
    false
}

/// The layer is promoted: the model has its expert stack, and the stack is
/// promoted.
pub open spec fn layer_promoted(s: Settings, list: Seq<Listed>, layer: nat) -> bool {
    s.kmap && is_listed(list, probe_name_of(layer)) && level_in(s, probe_name_of(layer))
        == QuantLevel::Promote6
}

/// A score that is a finite number, by the bits of the `f64`.
pub open spec fn is_finite(score: u64) -> bool {
    score as int / 0x10_0000_0000_0000 % 0x800 != 0x7ff
}

/// Whether a score is a finite number.
pub fn score_is_finite(score: u64) -> (r: bool)
    ensures
        r == is_finite(score),
{
    score / 0x10_0000_0000_0000 % 0x800 != 0x7ff
}

/// The layers from 0 to below `n` that may be singled out: not promoted, with a
/// finite score.
pub open spec fn candidates_of(s: Settings, list: Seq<Listed>, scores: Seq<u64>, n: nat) -> Seq<
    usize,
>
    decreases n,
{
    if n == 0 {
        Seq::empty()
    } else {
        let rest = candidates_of(s, list, scores, (n - 1) as nat);
        if !layer_promoted(s, list, (n - 1) as nat) && is_finite(scores[n - 1]) {
            rest.push((n - 1) as usize)
        } else {
            rest
        }
    }
}

/// The layers that may be singled out, in order.
pub fn tier_candidates(s: Settings, list: &[Listed], scores: &[u64]) -> (out: Vec<usize>)
    ensures
        out@ == candidates_of(s, list@, scores@, scores@.len()),
{
    let n: usize = scores.len();
    let mut out: Vec<usize> = Vec::new();
    let mut layer: usize = 0;
    while layer < n
        invariant
            layer <= n,
            n == scores@.len(),
            out@ == candidates_of(s, list@, scores@, layer as nat),
        decreases n - layer,
    {
        let promoted = if s.kmap {
            let probe = probe_name(layer);
            lists(list, probe.as_str()) && matches!(
                tensor_level(s, probe.as_str()),
                QuantLevel::Promote6
            )
        } else {
            false
        };
        if !promoted && score_is_finite(scores[layer]) {
            out.push(layer);
        }
        layer = layer + 1;
    }
    out
}

/// The scores of layers.
pub open spec fn scores_of(layers: Seq<usize>, scores: Seq<u64>) -> Seq<u64> {
    Seq::new(layers.len(), |i: int| scores[layers[i] as int])
}

/// The layers in the order of a list of positions.
pub open spec fn arranged(layers: Seq<usize>, order: Seq<usize>) -> Seq<usize> {
    Seq::new(order.len(), |i: int| layers[order[i] as int])
}

/// The layers from the highest score to the lowest; equal scores keep their order.
/// The first list gives the position of each layer in `layers`.
pub fn rank_layers(layers: &[usize], scores: &[u64]) -> (r: (Vec<usize>, Vec<usize>))
    requires
        forall|i: int| 0 <= i < layers@.len() ==> #[trigger] layers@[i] < scores@.len(),
    ensures
        is_order(score_less(scores_of(layers@, scores@)), layers@.len(), r.0@),
        r.1@ == arranged(layers@, r.0@),
{
    let n: usize = layers.len();
    let mut mine: Vec<u64> = Vec::new();
    let mut i: usize = 0;
    while i < n
        invariant
            i <= n,
            n == layers@.len(),
            forall|j: int| 0 <= j < layers@.len() ==> #[trigger] layers@[j] < scores@.len(),
            mine@ =~= scores_of(layers@, scores@).take(i as int),
        decreases n - i,
    {
        mine.push(scores[layers[i]]);
        assert(scores_of(layers@, scores@).take(i + 1) =~= scores_of(layers@, scores@).take(
            i as int,
        ).push(scores@[layers@[i as int] as int]));
        i = i + 1;
    }
    assert(mine@ =~= scores_of(layers@, scores@));
    let keys = ScoreKeys { scores: mine.as_slice() };
    let order = order_by(&keys, n);
    let mut out: Vec<usize> = Vec::new();
    let mut j: usize = 0;
    while j < n
        invariant
            j <= n,
            n == layers@.len(),
            n == order@.len(),
            is_order(score_less(scores_of(layers@, scores@)), layers@.len(), order@),
            out@ =~= arranged(layers@, order@).take(j as int),
        decreases n - j,
    {
        out.push(layers[order[j]]);
        assert(arranged(layers@, order@).take(j + 1) =~= arranged(layers@, order@).take(
            j as int,
        ).push(layers@[order@[j as int] as int]));
        j = j + 1;
    }
    assert(out@ =~= arranged(layers@, order@));
    (order, out)
}

/// The layers singled out: the first `wanted` of the ranked ones, or all of them
/// where there are fewer.
pub fn hot_layers(ranked: &[usize], wanted: usize) -> (out: Vec<usize>)
    ensures
        out@ == (if wanted < ranked@.len() {
            ranked@.take(wanted as int)
        } else {
            ranked@
        }),
{
    let n: usize = if wanted < ranked.len() {
        wanted
    } else {
        ranked.len()
    };
    let mut out: Vec<usize> = Vec::new();
    let mut i: usize = 0;
    while i < n
        invariant
            i <= n,
            n <= ranked@.len(),
            out@ =~= ranked@.take(i as int),
        decreases n - i,
    {
        out.push(ranked[i]);
        assert(ranked@.take(i + 1) =~= ranked@.take(i as int).push(ranked@[i as int]));
        i = i + 1;
    }
    assert(ranked@.take(ranked@.len() as int) =~= ranked@);
    out
}

/// Whether a layer is among the ones singled out; unknown where the layer is.
pub fn tier_of(layer: Option<usize>, hot: &[usize]) -> (r: Option<bool>)
    ensures
        r == (match layer {
            Some(l) => Some(hot@.contains(l)),
            None => None,
        }),
{
    match layer {
        Some(l) => {
            let n: usize = hot.len();
            let mut i: usize = 0;
            while i < n
                invariant
                    i <= n,
                    n == hot@.len(),
                    layer == Some(l),
                    forall|j: int| 0 <= j < i ==> #[trigger] hot@[j] != l,
                decreases n - i,
            {
                if hot[i] == l {
                    assert(hot@.contains(l));
                    return Some(true);
                }
                i = i + 1;
            }
            Some(false)
        },
        None => None,
    }
}

/// No layer left out scores higher than a layer singled out.
pub proof fn law_hot_layers_score_highest(
    layers: Seq<usize>,
    scores: Seq<u64>,
    order: Seq<usize>,
    i: int,
    j: int,
)
    requires
        is_order(score_less(scores_of(layers, scores)), layers.len(), order),
        0 <= i <= j < order.len(),
    ensures
        double_key(scores[arranged(layers, order)[i] as int]) >= double_key(
            scores[arranged(layers, order)[j] as int],
        ),
{
    if i < j {
        assert(before(score_less(scores_of(layers, scores)), order[i], order[j]));
    }
}

// What importance is kept for.

/// The importance of a tensor stands under its name with `.in_sum2` and with
/// `.counts` behind it; that of a layer under `blk.{layer}.ffn_gate_exps.weight`.
pub proof fn law_importance_names(n: ImportanceNames, base: Seq<char>, layer: nat)
    ensures
        names_match(n, base) <==> n.sums@ == base + ".in_sum2"@ && n.counts@ == base + ".counts"@,
        layer_base(layer) == "blk."@ + decimal(layer) + ".ffn_gate_exps.weight"@,
        probe_name_of(layer) == "model.language_model.layers."@ + decimal(layer)
            + ".mlp.experts.gate_up_proj"@,
{
}

/// The first tensor of a name counts; without one there is none.
pub proof fn law_first_tensor_counts(tensors: Seq<GgufTensor>, name: Seq<char>, i: int)
    requires
        0 <= i <= tensors.len(),
        forall|j: int| 0 <= j < i ==> (#[trigger] tensors[j]).name@ != name,
    ensures
        i < tensors.len() && tensors[i].name@ == name ==> tensor_at(tensors, name) == Some(i),
        i == tensors.len() ==> tensor_at(tensors, name) is None,
    decreases tensors.len(),
{
    if tensors.len() > 0 {
        let rest = tensors.drop_last();
        if i == tensors.len() {
            assert forall|j: int| 0 <= j < rest.len() implies (#[trigger] rest[j]).name@ != name by {
                assert(rest[j] == tensors[j]);
            }
            assert(tensors[tensors.len() - 1].name@ != name);
            law_first_tensor_counts(rest, name, i - 1);
        } else {
            assert forall|j: int| 0 <= j < i implies (#[trigger] rest[j]).name@ != name by {
                assert(rest[j] == tensors[j]);
            }
            law_first_tensor_counts(rest, name, i);
        }
    }
}

/// When importance data is used: the sums and the counts are matrices, the second
/// dimension of the sums counts the experts, the sums hold a row for each expert
/// and the counts one number. The first dimension of the sums is then the number
/// of columns.
pub proof fn law_importance_is_checked(
    sums: Seq<usize>,
    counts: Seq<usize>,
    experts: usize,
    sums_len: int,
    counts_len: int,
)
    ensures
        ({
            let r = columns_of(sums, counts, experts, sums_len, counts_len);
            let flat = sums.len() != 2 || counts.len() != 2;
            &&& r == Err::<usize, ImportanceFault>(ImportanceFault::Shape) <==> flat
            &&& r == Err::<usize, ImportanceFault>(ImportanceFault::Experts) <==> !flat && sums[1]
                != experts
            &&& r == Err::<usize, ImportanceFault>(ImportanceFault::Length) <==> !flat && sums[1]
                == experts && (sums_len != sums[0] * experts || counts_len != experts)
            &&& r is Ok ==> r->Ok_0 == sums[0]
        }),
{
}

/// A score is finite unless all bits of its exponent are set.
pub proof fn law_finite_scores(score: u64)
    ensures
        is_finite(score) <==> score % 0x8000_0000_0000_0000 < 0x7ff0_0000_0000_0000,
{
}

/// The layers among which the most active are picked: those with a finite score that
/// the K-map does not promote by their listed stack of experts, from the first on.
pub proof fn law_candidates_are_unpromoted(
    s: Settings,
    list: Seq<Listed>,
    scores: Seq<u64>,
    n: nat,
    l: usize,
)
    requires
        n <= scores.len(),
        n <= usize::MAX,
    ensures
        candidates_of(s, list, scores, n).contains(l) <==> l < n && scores[l as int]
            % 0x8000_0000_0000_0000 < 0x7ff0_0000_0000_0000 && !(s.kmap && (exists|i: int|
            0 <= i < list.len() && (#[trigger] list[i]).name@ == probe_name_of(l as nat)) && level(
            probe_name_of(l as nat),
            s.n_layers,
            s.is_moe,
            s.kmap_mode,
        ) == QuantLevel::Promote6),
        forall|i: int, j: int|
            0 <= i < j < candidates_of(s, list, scores, n).len() ==> candidates_of(
                s,
                list,
                scores,
                n,
            )[i] < candidates_of(s, list, scores, n)[j],
        forall|i: int|
            0 <= i < candidates_of(s, list, scores, n).len() ==> #[trigger] candidates_of(
                s,
                list,
                scores,
                n,
            )[i] < n,
    decreases n,
{
    let all = candidates_of(s, list, scores, n);
    if n > 0 {
        let m = (n - 1) as nat;
        let rest = candidates_of(s, list, scores, m);
        law_candidates_are_unpromoted(s, list, scores, m, l);
        law_finite_scores(scores[n - 1]);
        if all.len() > rest.len() {
            let last = (n - 1) as usize;
            assert(all == rest.push(last));
            assert(all[rest.len() as int] == last);
            assert forall|i: int| 0 <= i < all.len() implies #[trigger] all[i] < n by {
                if i < rest.len() {
                    assert(all[i] == rest[i]);
                }
            }
            assert forall|i: int, j: int| 0 <= i < j < all.len() implies all[i] < all[j] by {
                assert(all[i] == rest[i]);
                if j < rest.len() {
                    assert(all[j] == rest[j]);
                }
            }
            if rest.contains(l) {
                let i = choose|i: int| 0 <= i < rest.len() && rest[i] == l;
                assert(all[i] == l);
            }
            if all.contains(l) && l != last {
                let i = choose|i: int| 0 <= i < all.len() && all[i] == l;
                assert(rest[i] == l);
            }
        } else {
            assert(all == rest);
        }
    }
}

/// Ranking only rearranges: the ranked layers are the layers at the positions of the
/// order.
pub proof fn law_ranked_layers_are_rearranged(layers: Seq<usize>, order: Seq<usize>, i: int)
    requires
        0 <= i < order.len(),
    ensures
        arranged(layers, order).len() == order.len(),
        arranged(layers, order)[i] == layers[order[i] as int],
{
}

} // verus!
