//! The tensors of a model that is spread over files: which tensors there are, in
//! which order they are taken, and which of them are the scales of others.
use vstd::prelude::*;
use vstd::string::*;
#[allow(unused_imports)]
use vstd::utf8::encode_utf8;

use crate::order::{compare_bytes, order_by, Keys, Less};
#[allow(unused_imports)]
use crate::order::{bytes_less, is_order, lemma_bytes_less};
use crate::text::{same, strip_suffix};
#[allow(unused_imports)]
use crate::text::ends;

verus! {

/// The name of the weight whose scales a tensor holds.
pub open spec fn scaled_weight(name: Seq<char>) -> Option<Seq<char>> {
    if ends(name, ".scale"@) {
        Some(name.take(name.len() - ".scale"@.len()) + ".weight"@)
    } else {
        None
    }
}

/// The name of the weight whose scales a tensor holds, if it holds scales.
pub fn weight_of_scale(name: &str) -> (r: Option<String>)
    ensures
        match r {
            Some(w) => scaled_weight(name@) == Some(w@),
            None => scaled_weight(name@) is None,
        },
{
    match strip_suffix(name, ".scale") {
        Some(stem) => {
            let mut out = stem.to_owned();
            out.append(".weight");
            Some(out)
        },
        None => None,
    }
}

/// A tensor and the file it stands in.
#[derive(Debug)]
pub struct Listed {
    pub name: String,
    pub file: usize,
}

/// A weight and where its scales stand.
#[derive(Debug)]
pub struct ScaleEntry {
    pub weight: String,
    pub file: usize,
    pub scale: String,
}

/// Tensors by name and file.
pub open spec fn listed_view(list: Seq<Listed>) -> Seq<(Seq<char>, int)> {
    Seq::new(list.len(), |i: int| (list[i].name@, list[i].file as int))
}

/// Scales by weight, file and name.
pub open spec fn scales_view(list: Seq<ScaleEntry>) -> Seq<(Seq<char>, int, Seq<char>)> {
    Seq::new(list.len(), |i: int| (list[i].weight@, list[i].file as int, list[i].scale@))
}

/// The tensors of one file that are no scales.
pub open spec fn plain_in(names: Seq<String>, file: int) -> Seq<(Seq<char>, int)>
    decreases names.len(),
{
    if names.len() == 0 {
        Seq::empty()
    } else {
        let rest = plain_in(names.drop_last(), file);
        if scaled_weight(names.last()@) is Some {
            rest
        } else {
            rest.push((names.last()@, file))
        }
    }
}

/// The tensors of one file that are scales.
pub open spec fn scales_in(names: Seq<String>, file: int) -> Seq<(Seq<char>, int, Seq<char>)>
    decreases names.len(),
{
    if names.len() == 0 {
        Seq::empty()
    } else {
        let rest = scales_in(names.drop_last(), file);
        match scaled_weight(names.last()@) {
            Some(w) => rest.push((w, file, names.last()@)),
            None => rest,
        }
    }
}

/// Adds the tensors of one file to the lists.
pub fn add_file(
    tensors: &mut Vec<Listed>,
    scales: &mut Vec<ScaleEntry>,
    names: &[String],
    file: usize,
)
    ensures
        listed_view(final(tensors)@) == listed_view(old(tensors)@) + plain_in(names@, file as int),
        scales_view(final(scales)@) == scales_view(old(scales)@) + scales_in(names@, file as int),
{
    let n: usize = names.len();
    let mut i: usize = 0;
    assert(listed_view(tensors@) =~= listed_view(old(tensors)@) + plain_in(
        names@.take(0),
        file as int,
    ));
    assert(scales_view(scales@) =~= scales_view(old(scales)@) + scales_in(
        names@.take(0),
        file as int,
    ));
    while i < n
        invariant
            i <= n,
            n == names@.len(),
            listed_view(tensors@) == listed_view(old(tensors)@) + plain_in(
                names@.take(i as int),
                file as int,
            ),
            scales_view(scales@) == scales_view(old(scales)@) + scales_in(
                names@.take(i as int),
                file as int,
            ),
        decreases n - i,
    {
        let name = names[i].as_str();
        let ghost before_t = tensors@;
        let ghost before_s = scales@;
        assert(names@.take(i + 1).drop_last() =~= names@.take(i as int));
        match weight_of_scale(name) {
            Some(weight) => {
                scales.push(ScaleEntry { weight, file, scale: name.to_owned() });
                assert(scales_view(scales@) =~= scales_view(before_s).push(
                    (scaled_weight(name@)->0, file as int, name@),
                ));
            },
            None => {
                tensors.push(Listed { name: name.to_owned(), file });
                assert(listed_view(tensors@) =~= listed_view(before_t).push(
                    (name@, file as int),
                ));
            },
        }
        proof {
            assert(listed_view(tensors@) =~= listed_view(old(tensors)@) + plain_in(
                names@.take(i + 1),
                file as int,
            ));
            assert(scales_view(scales@) =~= scales_view(old(scales)@) + scales_in(
                names@.take(i + 1),
                file as int,
            ));
        }
        i = i + 1;
    }
    assert(names@.take(n as int) =~= names@);
}

/// The last entry for a weight.
pub open spec fn scale_at(scales: Seq<ScaleEntry>, weight: Seq<char>) -> Option<int>
    decreases scales.len(),
{
    if scales.len() == 0 {
        None
    } else if scales.last().weight@ == weight {
        Some(scales.len() - 1)
    } else {
        scale_at(scales.drop_last(), weight)
    }
}

/// Where the scales of a weight stand in the list; a later entry replaces an
/// earlier one.
pub fn find_scale(scales: &[ScaleEntry], weight: &str) -> (r: Option<usize>)
    ensures
        match r {
            Some(i) => scale_at(scales@, weight@) == Some(i as int) && i < scales@.len(),
            None => scale_at(scales@, weight@) is None,
        },
{
    let n: usize = scales.len();
    let mut i: usize = n;
    assert(scales@.take(n as int) =~= scales@);
    while i > 0
        invariant
            i <= n,
            n == scales@.len(),
            scale_at(scales@, weight@) == scale_at(scales@.take(i as int), weight@),
        decreases i,
    {
        assert(scales@.take(i as int).last() == scales@[i - 1]);
        assert(scales@.take(i as int).drop_last() =~= scales@.take(i - 1));
        if same(scales[i - 1].weight.as_str(), weight) {
            return Some(i - 1);
        }
        i = i - 1;
    }
    None
}

/// How tensors compare: by the bytes of their names.
pub open spec fn name_less(list: Seq<Listed>) -> Less {
    |a: int, b: int| bytes_less(encode_utf8(list[a].name@), encode_utf8(list[b].name@))
}

/// The keys of tensors, their names.
pub struct NameKeys<'a> {
    pub list: &'a [Listed],
}

impl<'a> Keys for NameKeys<'a> {
    open spec fn count(&self) -> nat {
        self.list@.len()
    }

    open spec fn less(&self) -> Less {
        name_less(self.list@)
    }

    proof fn compares(&self) {
        let less = name_less(self.list@);
        assert forall|a: int, b: int| #[trigger] less(a, b) implies !less(b, a) by {
            let (x, y) = (
                encode_utf8(self.list@[a].name@),
                encode_utf8(self.list@[b].name@),
            );
            lemma_bytes_less(x, y, x);
        }
        assert forall|a: int, b: int, c: int|
            #[trigger] less(a, c) implies #[trigger] less(a, b) || #[trigger] less(b, c) by {
            let (x, y, z) = (
                encode_utf8(self.list@[a].name@),
                encode_utf8(self.list@[b].name@),
                encode_utf8(self.list@[c].name@),
            );
            lemma_bytes_less(x, y, z);
        }
    }

    fn is_less(&self, a: usize, b: usize) -> (r: bool) {
        compare_bytes(self.list[a].name.as_str().as_bytes(), self.list[b].name.as_str().as_bytes())
    }
}

/// The order in which tensors are taken: by name, and tensors of one name in the
/// order in which they were listed.
pub fn name_order(list: &[Listed]) -> (out: Vec<usize>)
    ensures
        is_order(name_less(list@), list@.len(), out@),
{
    let keys = NameKeys { list };
    order_by(&keys, list.len())
}

// What a catalog lists.

/// The scales of `{stem}.weight` stand under `{stem}.scale`; no other name holds
/// scales.
pub proof fn law_scales_belong_to_weights(stem: Seq<char>, name: Seq<char>)
    ensures
        scaled_weight(stem + ".scale"@) == Some(stem + ".weight"@),
        !ends(name, ".scale"@) ==> scaled_weight(name) is None,
{
    let s = stem + ".scale"@;
    assert(ends(s, ".scale"@)) by {
        assert forall|k: int| 0 <= k < ".scale"@.len() implies s[s.len() - ".scale"@.len() + k]
            == #[trigger] ".scale"@[k] by {}
    }
    assert(s.take(s.len() - ".scale"@.len()) =~= stem);
}

/// A file adds its tensors one by one and in their order: scales to the scales, and
/// everything else to the tensors.
pub proof fn law_catalog_adds_up(a: Seq<String>, b: Seq<String>, name: String, file: int)
    ensures
        plain_in(a + b, file) == plain_in(a, file) + plain_in(b, file),
        scales_in(a + b, file) == scales_in(a, file) + scales_in(b, file),
        !ends(name@, ".scale"@) ==> plain_in(seq![name], file) == seq![(name@, file)] && scales_in(
            seq![name],
            file,
        ).len() == 0,
        ends(name@, ".scale"@) ==> plain_in(seq![name], file).len() == 0 && scales_in(
            seq![name],
            file,
        ) == seq![(name@.take(name@.len() - ".scale"@.len()) + ".weight"@, file, name@)],
    decreases b.len(),
{
    let one = seq![name];
    assert(one.drop_last() =~= Seq::<String>::empty());
    assert(plain_in(one.drop_last(), file) =~= Seq::empty());
    assert(scales_in(one.drop_last(), file) =~= Seq::empty());
    assert(plain_in(one, file) =~= (if ends(name@, ".scale"@) {
        Seq::empty()
    } else {
        seq![(name@, file)]
    }));
    if b.len() == 0 {
        assert(a + b =~= a);
        assert(plain_in(a, file) + plain_in(b, file) =~= plain_in(a, file));
        assert(scales_in(a, file) + scales_in(b, file) =~= scales_in(a, file));
    } else {
        let rest = b.drop_last();
        assert((a + b).drop_last() =~= a + rest);
        law_catalog_adds_up(a, rest, name, file);
        assert(plain_in(a + b, file) =~= plain_in(a, file) + plain_in(b, file));
        assert(scales_in(a + b, file) =~= scales_in(a, file) + scales_in(b, file));
    }
}

/// Of the scales of one weight the last count.
pub proof fn law_last_scale_counts(scales: Seq<ScaleEntry>, weight: Seq<char>, i: int)
    requires
        -1 <= i < scales.len(),
        forall|j: int| i < j < scales.len() ==> (#[trigger] scales[j]).weight@ != weight,
    ensures
        i >= 0 && scales[i].weight@ == weight ==> scale_at(scales, weight) == Some(i),
        i == -1 ==> scale_at(scales, weight) is None,
    decreases scales.len(),
{
    if scales.len() > 0 && i < scales.len() - 1 {
        assert(scales[scales.len() - 1].weight@ != weight);
        let rest = scales.drop_last();
        assert forall|j: int| i < j < rest.len() implies (#[trigger] rest[j]).weight@ != weight by {
            assert(rest[j] == scales[j]);
        }
        law_last_scale_counts(rest, weight, i);
    }
}

/// Tensors are ordered by the bytes of their names, and by nothing else.
pub proof fn law_names_order_by_bytes(list: Seq<Listed>, a: int, b: int)
    ensures
        name_less(list)(a, b) <==> bytes_less(
            encode_utf8(list[a].name@),
            encode_utf8(list[b].name@),
        ),
{
}

/// What is listed of a tensor is its name and its file; of scales, the weight, the
/// file and the name of the scales.
pub proof fn law_lists_hold_entries(list: Seq<Listed>, scales: Seq<ScaleEntry>, i: int)
    ensures
        listed_view(list).len() == list.len(),
        scales_view(scales).len() == scales.len(),
        0 <= i < list.len() ==> listed_view(list)[i].0 == list[i].name@ && listed_view(list)[i].1
            == list[i].file,
        0 <= i < scales.len() ==> scales_view(scales)[i].0 == scales[i].weight@ && scales_view(
            scales,
        )[i].1 == scales[i].file && scales_view(scales)[i].2 == scales[i].scale@,
{
}

} // verus!
