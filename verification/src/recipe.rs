//! What is done with a tensor: the ways to store its data.
use vstd::prelude::*;
use vstd::string::*;

use crate::hfq::QuantType;

verus! {

/// A way to store the data of a tensor.
#[derive(Clone, Copy, Debug, PartialEq, Eq, Structural)]
pub enum Recipe {
    F16,
    Bf16Copy,
    RouteTable,
    Q8F16,
    Q4AsQ8,
    Q8Hfq,
    Q4K,
    Q4F16,
    Hfq1Copy,
    Hfq1,
    Hfq2G256,
    Hfq2G128,
    Hfq3G256,
    Hfq3G128,
    Hfq4G256,
    Hfq4G128,
    Hfq6G256,
    Mq2,
    Mq3,
    Mq4,
    Mq6,
    Mq8,
    /// Two-bit codebooks.
    Mq2Lloyd,
    /// Two-bit codebooks fitted by importance.
    Mq2LloydWeighted,
    /// Two-bit codebooks fitted by importance, with error feedback.
    Mq2LloydGptq,
    /// Through two-bit codebooks and back, then four-bit.
    Mq2LloydProbe,
    /// Three-bit codebooks.
    Mq3Lloyd,
    Hfp4,
    Mfp4,
}

/// The type under which the data is stored.
pub open spec fn stored_as(r: Recipe) -> QuantType {
    match r {
        Recipe::F16 => QuantType::F16,
        Recipe::Bf16Copy => QuantType::BF16,
        Recipe::RouteTable => QuantType::I32,
        Recipe::Q8F16 => QuantType::Q8F16,
        Recipe::Q4AsQ8 => QuantType::Q8F16,
        Recipe::Q8Hfq => QuantType::Q8HFQ,
        Recipe::Q4K => QuantType::Q4K,
        Recipe::Q4F16 => QuantType::Q4F16G64,
        Recipe::Hfq1Copy => QuantType::HFQ1G128,
        Recipe::Hfq1 => QuantType::HFQ1G128,
        Recipe::Hfq2G256 => QuantType::HFQ2G256,
        Recipe::Hfq2G128 => QuantType::HFQ2G128,
        Recipe::Hfq3G256 => QuantType::HFQ3G256,
        Recipe::Hfq3G128 => QuantType::HFQ3G128,
        Recipe::Hfq4G256 => QuantType::HFQ4G256,
        Recipe::Hfq4G128 => QuantType::HFQ4G128,
        Recipe::Hfq6G256 => QuantType::HFQ6G256,
        Recipe::Mq2 => QuantType::MQ2G256,
        Recipe::Mq3 => QuantType::MQ3G256,
        Recipe::Mq4 => QuantType::MQ4G256,
        Recipe::Mq6 => QuantType::MQ6G256,
        Recipe::Mq8 => QuantType::MQ8G256,
        Recipe::Mq2Lloyd => QuantType::MQ2G256Lloyd,
        Recipe::Mq2LloydWeighted => QuantType::MQ2G256Lloyd,
        Recipe::Mq2LloydGptq => QuantType::MQ2G256Lloyd,
        Recipe::Mq2LloydProbe => QuantType::HFQ4G256,
        Recipe::Mq3Lloyd => QuantType::MQ3G256Lloyd,
        Recipe::Hfp4 => QuantType::HFP4G32,
        Recipe::Mfp4 => QuantType::MFP4G32,
    }
}

/// The group size of a stored type; zero where there are no groups.
pub open spec fn group_of(q: QuantType) -> u32 {
    match q {
        QuantType::F16 => 0,
        QuantType::F32 => 0,
        QuantType::BF16 => 0,
        QuantType::I32 => 1,
        QuantType::Q8F16 => 32,
        QuantType::Q8HFQ => 32,
        QuantType::HFP4G32 => 32,
        QuantType::MFP4G32 => 32,
        QuantType::Q4F16G64 => 64,
        QuantType::HFQ4G128 => 128,
        QuantType::HFQ3G128 => 128,
        QuantType::HFQ2G128 => 128,
        QuantType::HFQ1G128 => 128,
        _ => 256,
    }
}

impl Recipe {
    /// The type under which the data is stored.
    pub fn quant_type(self) -> (r: QuantType)
        ensures
            r == stored_as(self),
    {
        match self {
            Recipe::F16 => QuantType::F16,
            Recipe::Bf16Copy => QuantType::BF16,
            Recipe::RouteTable => QuantType::I32,
            Recipe::Q8F16 => QuantType::Q8F16,
            Recipe::Q4AsQ8 => QuantType::Q8F16,
            Recipe::Q8Hfq => QuantType::Q8HFQ,
            Recipe::Q4K => QuantType::Q4K,
            Recipe::Q4F16 => QuantType::Q4F16G64,
            Recipe::Hfq1Copy => QuantType::HFQ1G128,
            Recipe::Hfq1 => QuantType::HFQ1G128,
            Recipe::Hfq2G256 => QuantType::HFQ2G256,
            Recipe::Hfq2G128 => QuantType::HFQ2G128,
            Recipe::Hfq3G256 => QuantType::HFQ3G256,
            Recipe::Hfq3G128 => QuantType::HFQ3G128,
            Recipe::Hfq4G256 => QuantType::HFQ4G256,
            Recipe::Hfq4G128 => QuantType::HFQ4G128,
            Recipe::Hfq6G256 => QuantType::HFQ6G256,
            Recipe::Mq2 => QuantType::MQ2G256,
            Recipe::Mq3 => QuantType::MQ3G256,
            Recipe::Mq4 => QuantType::MQ4G256,
            Recipe::Mq6 => QuantType::MQ6G256,
            Recipe::Mq8 => QuantType::MQ8G256,
            Recipe::Mq2Lloyd => QuantType::MQ2G256Lloyd,
            Recipe::Mq2LloydWeighted => QuantType::MQ2G256Lloyd,
            Recipe::Mq2LloydGptq => QuantType::MQ2G256Lloyd,
            Recipe::Mq2LloydProbe => QuantType::HFQ4G256,
            Recipe::Mq3Lloyd => QuantType::MQ3G256Lloyd,
            Recipe::Hfp4 => QuantType::HFP4G32,
            Recipe::Mfp4 => QuantType::MFP4G32,
        }
    }

    /// The group size under which the data is stored.
    pub fn group_size(self) -> (r: u32)
        ensures
            r == group_of(stored_as(self)),
    {
        match self.quant_type() {
            QuantType::F16 => 0,
            QuantType::F32 => 0,
            QuantType::BF16 => 0,
            QuantType::I32 => 1,
            QuantType::Q8F16 => 32,
            QuantType::Q8HFQ => 32,
            QuantType::HFP4G32 => 32,
            QuantType::MFP4G32 => 32,
            QuantType::Q4F16G64 => 64,
            QuantType::HFQ4G128 => 128,
            QuantType::HFQ3G128 => 128,
            QuantType::HFQ2G128 => 128,
            QuantType::HFQ1G128 => 128,
            _ => 256,
        }
    }
}

/// The name of a recipe in messages.
pub open spec fn label_of(r: Recipe) -> Seq<char> {
    match r {
        Recipe::F16 => "F16"@,
        Recipe::Bf16Copy => "BF16"@,
        Recipe::RouteTable => "I32-V4F"@,
        Recipe::Q8F16 => "Q8_F16"@,
        Recipe::Q4AsQ8 => "Q4asQ8"@,
        Recipe::Q8Hfq => "Q8_HFQ"@,
        Recipe::Q4K => "Q4_K"@,
        Recipe::Q4F16 => "Q4_F16"@,
        Recipe::Hfq1Copy => "HFQ1G128 (passthrough)"@,
        Recipe::Hfq1 => "HFQ1G128 (requant)"@,
        Recipe::Hfq2G256 => "HFQ2G256"@,
        Recipe::Hfq2G128 => "HFQ2G128"@,
        Recipe::Hfq3G256 => "HFQ3G256"@,
        Recipe::Hfq3G128 => "HFQ3G128"@,
        Recipe::Hfq4G256 => "HFQ4G256"@,
        Recipe::Hfq4G128 => "HFQ4G128"@,
        Recipe::Hfq6G256 => "HFQ6G256"@,
        Recipe::Mq2 => "MQ2G256"@,
        Recipe::Mq3 => "MQ3G256"@,
        Recipe::Mq4 => "MQ4G256"@,
        Recipe::Mq6 => "MQ6G256"@,
        Recipe::Mq8 => "MQ8G256"@,
        Recipe::Mq2Lloyd => "MQ2G256Lloyd"@,
        Recipe::Mq2LloydWeighted => "MQ2L+imatrix"@,
        Recipe::Mq2LloydGptq => "MQ2L+imatrix"@,
        Recipe::Mq2LloydProbe => "MQ2L->HFQ4"@,
        Recipe::Mq3Lloyd => "MQ3G256Lloyd"@,
        Recipe::Hfp4 => "HFP4G32"@,
        Recipe::Mfp4 => "MFP4G32"@,
    }
}

impl Recipe {
    /// The name of the recipe in messages.
    pub fn label(self) -> (r: &'static str)
        ensures
            r@ == label_of(self),
    {
        match self {
            Recipe::F16 => "F16",
            Recipe::Bf16Copy => "BF16",
            Recipe::RouteTable => "I32-V4F",
            Recipe::Q8F16 => "Q8_F16",
            Recipe::Q4AsQ8 => "Q4asQ8",
            Recipe::Q8Hfq => "Q8_HFQ",
            Recipe::Q4K => "Q4_K",
            Recipe::Q4F16 => "Q4_F16",
            Recipe::Hfq1Copy => "HFQ1G128 (passthrough)",
            Recipe::Hfq1 => "HFQ1G128 (requant)",
            Recipe::Hfq2G256 => "HFQ2G256",
            Recipe::Hfq2G128 => "HFQ2G128",
            Recipe::Hfq3G256 => "HFQ3G256",
            Recipe::Hfq3G128 => "HFQ3G128",
            Recipe::Hfq4G256 => "HFQ4G256",
            Recipe::Hfq4G128 => "HFQ4G128",
            Recipe::Hfq6G256 => "HFQ6G256",
            Recipe::Mq2 => "MQ2G256",
            Recipe::Mq3 => "MQ3G256",
            Recipe::Mq4 => "MQ4G256",
            Recipe::Mq6 => "MQ6G256",
            Recipe::Mq8 => "MQ8G256",
            Recipe::Mq2Lloyd => "MQ2G256Lloyd",
            Recipe::Mq2LloydWeighted => "MQ2L+imatrix",
            Recipe::Mq2LloydGptq => "MQ2L+imatrix",
            Recipe::Mq2LloydProbe => "MQ2L->HFQ4",
            Recipe::Mq3Lloyd => "MQ3G256Lloyd",
            Recipe::Hfp4 => "HFP4G32",
            Recipe::Mfp4 => "MFP4G32",
        }
    }
}

// Shapes.

/// The number of elements of a shape.
pub open spec fn numel_of(shape: Seq<usize>) -> nat
    decreases shape.len(),
{
    if shape.len() == 0 {
        1
    } else {
        numel_of(shape.drop_last()) * shape.last() as nat
    }
}

/// The number of elements of a shape, if it can be counted.
pub fn numel(shape: &[usize]) -> (r: Option<usize>)
    ensures
        match r {
            Some(n) => n == numel_of(shape@),
            None => exists|k: int|
                0 <= k <= shape@.len() && #[trigger] numel_of(shape@.take(k)) > usize::MAX,
        },
{
    let len: usize = shape.len();
    let mut n: usize = 1;
    let mut i: usize = 0;
    while i < len
        invariant
            i <= len,
            len == shape@.len(),
            n == numel_of(shape@.take(i as int)),
        decreases len - i,
    {
        proof {
            assert(shape@.take(i + 1).drop_last() =~= shape@.take(i as int));
            assert(numel_of(shape@.take(i + 1)) == n as nat * shape@[i as int] as nat);
        }
        match n.checked_mul(shape[i]) {
            Some(m) => {
                n = m;
            },
            None => {
                return None;
            },
        }
        i = i + 1;
    }
    assert(shape@.take(len as int) =~= shape@);
    Some(n)
}

/// The length of the rows that groups must divide: the second dimension of a
/// matrix, otherwise all elements.
pub open spec fn row_len(shape: Seq<usize>, n: usize) -> usize {
    if shape.len() == 2 {
        shape[1]
    } else {
        n
    }
}

/// The length of the rows that groups must divide.
pub fn row_length(shape: &[usize], n: usize) -> (r: usize)
    ensures
        r == row_len(shape@, n),
{
    if shape.len() == 2 {
        shape[1]
    } else {
        n
    }
}

/// The dimensions as they are written, the low 32 bits of each.
pub open spec fn written_shape(shape: Seq<usize>) -> Seq<u32> {
    Seq::new(shape.len(), |i: int| (shape[i] as int % 0x1_0000_0000) as u32)
}

/// The dimensions as they are written.
pub fn shape_u32(shape: &[usize]) -> (out: Vec<u32>)
    ensures
        out@ == written_shape(shape@),
{
    let n: usize = shape.len();
    let mut out: Vec<u32> = Vec::new();
    let mut i: usize = 0;
    while i < n
        invariant
            i <= n,
            n == shape@.len(),
            out@ =~= written_shape(shape@).take(i as int),
        decreases n - i,
    {
        out.push((shape[i] as u64 % 0x1_0000_0000) as u32);
        assert(written_shape(shape@).take(i + 1) =~= written_shape(shape@).take(i as int).push(
            written_shape(shape@)[i as int],
        ));
        i = i + 1;
    }
    assert(written_shape(shape@).take(n as int) =~= written_shape(shape@));
    out
}

// What a recipe stands for.

/// The type under which the result of each recipe is stored.
pub proof fn law_recipes_have_types()
    ensures
        stored_as(Recipe::F16) == QuantType::F16,
        stored_as(Recipe::Bf16Copy) == QuantType::BF16,
        stored_as(Recipe::RouteTable) == QuantType::I32,
        stored_as(Recipe::Q8F16) == QuantType::Q8F16,
        stored_as(Recipe::Q4AsQ8) == QuantType::Q8F16,
        stored_as(Recipe::Q8Hfq) == QuantType::Q8HFQ,
        stored_as(Recipe::Q4K) == QuantType::Q4K,
        stored_as(Recipe::Q4F16) == QuantType::Q4F16G64,
        stored_as(Recipe::Hfq1Copy) == QuantType::HFQ1G128,
        stored_as(Recipe::Hfq1) == QuantType::HFQ1G128,
        stored_as(Recipe::Hfq2G256) == QuantType::HFQ2G256,
        stored_as(Recipe::Hfq2G128) == QuantType::HFQ2G128,
        stored_as(Recipe::Hfq3G256) == QuantType::HFQ3G256,
        stored_as(Recipe::Hfq3G128) == QuantType::HFQ3G128,
        stored_as(Recipe::Hfq4G256) == QuantType::HFQ4G256,
        stored_as(Recipe::Hfq4G128) == QuantType::HFQ4G128,
        stored_as(Recipe::Hfq6G256) == QuantType::HFQ6G256,
        stored_as(Recipe::Mq2) == QuantType::MQ2G256,
        stored_as(Recipe::Mq3) == QuantType::MQ3G256,
        stored_as(Recipe::Mq4) == QuantType::MQ4G256,
        stored_as(Recipe::Mq6) == QuantType::MQ6G256,
        stored_as(Recipe::Mq8) == QuantType::MQ8G256,
        stored_as(Recipe::Mq2Lloyd) == QuantType::MQ2G256Lloyd,
        stored_as(Recipe::Mq2LloydWeighted) == QuantType::MQ2G256Lloyd,
        stored_as(Recipe::Mq2LloydGptq) == QuantType::MQ2G256Lloyd,
        stored_as(Recipe::Mq2LloydProbe) == QuantType::HFQ4G256,
        stored_as(Recipe::Mq3Lloyd) == QuantType::MQ3G256Lloyd,
        stored_as(Recipe::Hfp4) == QuantType::HFP4G32,
        stored_as(Recipe::Mfp4) == QuantType::MFP4G32,
{
}

/// The size of the groups of each type: none for plain floats, one for integers, 32,
/// 64 or 128 as the name says, and 256 for every other type.
pub proof fn law_types_have_groups(q: QuantType)
    ensures
        group_of(q) == 0 <==> (q == QuantType::F16 || q == QuantType::F32 || q == QuantType::BF16),
        group_of(q) == 1 <==> q == QuantType::I32,
        group_of(q) == 32 <==> (q == QuantType::Q8F16 || q == QuantType::Q8HFQ || q
            == QuantType::HFP4G32 || q == QuantType::MFP4G32),
        group_of(q) == 64 <==> q == QuantType::Q4F16G64,
        group_of(q) == 128 <==> (q == QuantType::HFQ4G128 || q == QuantType::HFQ3G128 || q
            == QuantType::HFQ2G128 || q == QuantType::HFQ1G128),
        group_of(q) == 256 <==> (q == QuantType::Q4K || q == QuantType::HFQ4G256 || q
            == QuantType::HFQ6G256 || q == QuantType::HFQ2G256 || q == QuantType::HFQ3G256 || q
            == QuantType::MQ4G256 || q == QuantType::MQ8G256 || q == QuantType::MQ6G256 || q
            == QuantType::MQ3G256 || q == QuantType::MQ2G256 || q == QuantType::MQ2G256Lloyd || q
            == QuantType::MQ3G256Lloyd),
{
}

/// The name under which the result of each recipe is reported.
pub proof fn law_recipes_have_labels()
    ensures
        label_of(Recipe::F16) == "F16"@,
        label_of(Recipe::Bf16Copy) == "BF16"@,
        label_of(Recipe::RouteTable) == "I32-V4F"@,
        label_of(Recipe::Q8F16) == "Q8_F16"@,
        label_of(Recipe::Q4AsQ8) == "Q4asQ8"@,
        label_of(Recipe::Q8Hfq) == "Q8_HFQ"@,
        label_of(Recipe::Q4K) == "Q4_K"@,
        label_of(Recipe::Q4F16) == "Q4_F16"@,
        label_of(Recipe::Hfq1Copy) == "HFQ1G128 (passthrough)"@,
        label_of(Recipe::Hfq1) == "HFQ1G128 (requant)"@,
        label_of(Recipe::Hfq2G256) == "HFQ2G256"@,
        label_of(Recipe::Hfq2G128) == "HFQ2G128"@,
        label_of(Recipe::Hfq3G256) == "HFQ3G256"@,
        label_of(Recipe::Hfq3G128) == "HFQ3G128"@,
        label_of(Recipe::Hfq4G256) == "HFQ4G256"@,
        label_of(Recipe::Hfq4G128) == "HFQ4G128"@,
        label_of(Recipe::Hfq6G256) == "HFQ6G256"@,
        label_of(Recipe::Mq2) == "MQ2G256"@,
        label_of(Recipe::Mq3) == "MQ3G256"@,
        label_of(Recipe::Mq4) == "MQ4G256"@,
        label_of(Recipe::Mq6) == "MQ6G256"@,
        label_of(Recipe::Mq8) == "MQ8G256"@,
        label_of(Recipe::Mq2Lloyd) == "MQ2G256Lloyd"@,
        label_of(Recipe::Mq2LloydWeighted) == "MQ2L+imatrix"@,
        label_of(Recipe::Mq2LloydGptq) == "MQ2L+imatrix"@,
        label_of(Recipe::Mq2LloydProbe) == "MQ2L->HFQ4"@,
        label_of(Recipe::Mq3Lloyd) == "MQ3G256Lloyd"@,
        label_of(Recipe::Hfp4) == "HFP4G32"@,
        label_of(Recipe::Mfp4) == "MFP4G32"@,
{
}

/// The elements of a shape are counted dimension by dimension: a matrix has its rows
/// times its columns.
pub proof fn law_elements_multiply(shape: Seq<usize>, d: usize, a: usize, b: usize)
    ensures
        numel_of(Seq::<usize>::empty()) == 1,
        numel_of(shape.push(d)) == numel_of(shape) * d as nat,
        numel_of(seq![a]) == a,
        numel_of(seq![a, b]) == a * b,
{
    assert(shape.push(d).drop_last() =~= shape);
    let one = seq![a];
    assert(one.drop_last() =~= Seq::<usize>::empty());
    let p = numel_of(one.drop_last());
    assert(p == 1);
    assert(numel_of(one) == p * a as nat);
    assert(p * a as nat == a) by (nonlinear_arith)
        requires
            p == 1,
    ;
    let two = seq![a, b];
    assert(two.drop_last() =~= one);
    assert(numel_of(two) == numel_of(one) * b as nat);
}

/// The row of a matrix is its second dimension; of any other shape, all elements
/// count as one row. A dimension is written as its low 32 bits.
pub proof fn law_rows_and_dimensions(shape: Seq<usize>, n: usize, i: int)
    ensures
        shape.len() == 2 ==> row_len(shape, n) == shape[1],
        shape.len() != 2 ==> row_len(shape, n) == n,
        written_shape(shape).len() == shape.len(),
        0 <= i < shape.len() ==> written_shape(shape)[i] == shape[i] as int % 0x1_0000_0000,
{
}

} // verus!
