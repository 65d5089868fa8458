//! The `.hfq` container: quantization types, tensor records, and everything that
//! stands in front of the tensor data.
use vstd::prelude::*;
use vstd::string::*;
#[allow(unused_imports)]
use vstd::utf8::{decode_utf8, encode_utf8};

use crate::blocks::push_bytes;
#[allow(unused_imports)]
use crate::blocks::{concat, lemma_concat_push};
use crate::bytes::{push_le2, push_le4, push_le8};
#[allow(unused_imports)]
use crate::bytes::{
    law_le2_round_trip, law_le4_round_trip, law_le8_round_trip, le2, le4, le8, lemma_le8_len, read2,
    read4, read8,
};

verus! {

/// How the data of a tensor is stored.
#[derive(Clone, Copy, Debug, PartialEq, Eq, Structural)]
pub enum QuantType {
    Q4F16G64,
    F16,
    F32,
    Q8F16,
    Q4K,
    Q8HFQ,
    HFQ4G256,
    HFQ4G128,
    HFQ6G256,
    HFQ2G256,
    HFQ2G128,
    HFQ3G256,
    HFQ3G128,
    MQ4G256,
    MQ8G256,
    MQ6G256,
    BF16,
    MQ3G256,
    MQ2G256,
    MQ2G256Lloyd,
    MQ3G256Lloyd,
    HFQ1G128,
    I32,
    HFP4G32,
    MFP4G32,
}

/// The number of a type in the file.
pub open spec fn type_code(q: QuantType) -> u8 {
    match q {
        QuantType::Q4F16G64 => 0,
        QuantType::F16 => 1,
        QuantType::F32 => 2,
        QuantType::Q8F16 => 3,
        QuantType::Q4K => 4,
        QuantType::Q8HFQ => 5,
        QuantType::HFQ4G256 => 6,
        QuantType::HFQ4G128 => 7,
        QuantType::HFQ6G256 => 8,
        QuantType::HFQ2G256 => 9,
        QuantType::HFQ2G128 => 10,
        QuantType::HFQ3G256 => 11,
        QuantType::HFQ3G128 => 12,
        QuantType::MQ4G256 => 13,
        QuantType::MQ8G256 => 14,
        QuantType::MQ6G256 => 15,
        QuantType::BF16 => 16,
        QuantType::MQ3G256 => 17,
        QuantType::MQ2G256 => 18,
        QuantType::MQ2G256Lloyd => 19,
        QuantType::MQ3G256Lloyd => 20,
        QuantType::HFQ1G128 => 21,
        QuantType::I32 => 22,
        QuantType::HFP4G32 => 30,
        QuantType::MFP4G32 => 33,
    }
}

impl QuantType {
    /// The number of the type in the file.
    pub fn code(self) -> (r: u8)
        ensures
            r == type_code(self),
    {
        match self {
            QuantType::Q4F16G64 => 0,
            QuantType::F16 => 1,
            QuantType::F32 => 2,
            QuantType::Q8F16 => 3,
            QuantType::Q4K => 4,
            QuantType::Q8HFQ => 5,
            QuantType::HFQ4G256 => 6,
            QuantType::HFQ4G128 => 7,
            QuantType::HFQ6G256 => 8,
            QuantType::HFQ2G256 => 9,
            QuantType::HFQ2G128 => 10,
            QuantType::HFQ3G256 => 11,
            QuantType::HFQ3G128 => 12,
            QuantType::MQ4G256 => 13,
            QuantType::MQ8G256 => 14,
            QuantType::MQ6G256 => 15,
            QuantType::BF16 => 16,
            QuantType::MQ3G256 => 17,
            QuantType::MQ2G256 => 18,
            QuantType::MQ2G256Lloyd => 19,
            QuantType::MQ3G256Lloyd => 20,
            QuantType::HFQ1G128 => 21,
            QuantType::I32 => 22,
            QuantType::HFP4G32 => 30,
            QuantType::MFP4G32 => 33,
        }
    }
}

/// No two types share a number.
pub proof fn law_type_codes_are_distinct(a: QuantType, b: QuantType)
    ensures
        type_code(a) == type_code(b) ==> a == b,
{
}

/// The reserved numbers 31, 32 and 34 to 38 belong to no type.
pub proof fn law_reserved_codes_are_unused(q: QuantType)
    ensures
        type_code(q) != 31,
        type_code(q) != 32,
        type_code(q) < 34,
{
}

/// A tensor of the file. Its bytes are `data`, or, where `spilled_len` is above
/// zero, that many bytes of the spill file.
#[derive(Debug)]
pub struct HfqTensor {
    pub name: String,
    pub quant_type: QuantType,
    pub shape: Vec<u32>,
    pub group_size: u32,
    pub data: Vec<u8>,
    pub spilled_len: u64,
}

impl HfqTensor {
    /// The number of data bytes of the tensor.
    pub open spec fn data_len(&self) -> int {
        if self.spilled_len > 0 {
            self.spilled_len as int
        } else {
            self.data@.len() as int
        }
    }

    /// The tensor holds data that is not in the spill file.
    pub open spec fn in_memory(&self) -> bool {
        self.spilled_len == 0 && self.data@.len() > 0
    }

    /// The number of data bytes of the tensor.
    pub fn data_size(&self) -> (r: u64)
        ensures
            r == self.data_len(),
            self.spilled_len > 0 ==> r == self.spilled_len,
            self.spilled_len == 0 ==> r == self.data@.len(),
    {
        if self.spilled_len > 0 {
            self.spilled_len
        } else {
            self.data.len() as u64
        }
    }

    /// Records that `written` bytes of the tensor went to the spill file, and frees
    /// the memory.
    pub fn mark_spilled(&mut self, written: u64)
        ensures
            final(self).spilled_len == written,
            final(self).data@.len() == 0,
            final(self).name@ == old(self).name@,
            final(self).quant_type == old(self).quant_type,
            final(self).shape@ == old(self).shape@,
            final(self).group_size == old(self).group_size,
    {
        self.spilled_len = written;
        self.data = Vec::new();
    }
}

/// The memory that tensors hold is the sum of the data that is not spilled.
pub proof fn law_held_data_adds_up(a: Seq<HfqTensor>, b: Seq<HfqTensor>, t: HfqTensor)
    ensures
        held(a + b) == held(a) + held(b),
        t.spilled_len == 0 ==> held(seq![t]) == t.data@.len(),
        t.spilled_len > 0 ==> held(seq![t]) == 0,
    decreases b.len(),
{
    let one = seq![t];
    assert(one.drop_last() =~= Seq::<HfqTensor>::empty());
    assert(held(one.drop_last()) == 0);
    if b.len() == 0 {
        assert(a + b =~= a);
    } else {
        assert((a + b).drop_last() =~= a + b.drop_last());
        law_held_data_adds_up(a, b.drop_last(), t);
    }
}

/// A tensor whose data went to the spill file whole keeps its recorded length and
/// is not spilled again.
pub proof fn law_spilling_keeps_length(before: HfqTensor, after: HfqTensor)
    requires
        before.in_memory(),
        after.spilled_len == before.data@.len(),
    ensures
        after.data_len() == before.data_len(),
        !after.in_memory(),
{
}

/// The bytes that tensors hold in memory.
pub open spec fn held(tensors: Seq<HfqTensor>) -> int
    decreases tensors.len(),
{
    if tensors.len() == 0 {
        0
    } else {
        held(tensors.drop_last()) + (if tensors.last().spilled_len == 0 {
            tensors.last().data@.len() as int
        } else {
            0
        })
    }
}

proof fn lemma_held_grows(tensors: Seq<HfqTensor>, n: int)
    requires
        0 <= n <= tensors.len(),
    ensures
        0 <= held(tensors.take(n)) <= held(tensors),
    decreases tensors.len(),
{
    if n == tensors.len() {
        assert(tensors.take(n) =~= tensors);
        if n > 0 {
            lemma_held_grows(tensors.drop_last(), n - 1);
        }
    } else {
        lemma_held_grows(tensors.drop_last(), n);
        assert(tensors.drop_last().take(n) =~= tensors.take(n));
    }
}

/// Whether the tensors hold at least `threshold` bytes in memory.
fn holds_at_least(tensors: &[HfqTensor], threshold: usize) -> (r: bool)
    ensures
        r == (held(tensors@) >= threshold),
{
    let n: usize = tensors.len();
    let mut sum: usize = 0;
    let mut i: usize = 0;
    while i < n
        invariant
            i <= n,
            n == tensors@.len(),
            sum == held(tensors@.take(i as int)),
            sum < threshold || i == 0,
        decreases n - i,
    {
        proof {
            assert(tensors@.take(i + 1).drop_last() =~= tensors@.take(i as int));
            lemma_held_grows(tensors@, i + 1);
            lemma_held_grows(tensors@, i as int);
        }
        if sum >= threshold {
            return true;
        }
        if tensors[i].spilled_len == 0 {
            let len: usize = tensors[i].data.len();
            if len >= threshold - sum {
                return true;
            }
            sum = sum + len;
        }
        i = i + 1;
    }
    assert(tensors@.take(n as int) =~= tensors@);
    sum >= threshold
}

/// Which tensors go to the spill file, in this order: all that hold data in
/// memory, once they hold at least `threshold` bytes together, and none before.
pub fn spill_list(tensors: &[HfqTensor], threshold: usize) -> (out: Vec<usize>)
    ensures
        forall|i: int, j: int| 0 <= i < j < out@.len() ==> out@[i] < out@[j],
        forall|t: int|
            #![trigger tensors@[t]]
            0 <= t < tensors@.len() ==> (out@.contains(t as usize) <==> held(tensors@) >= threshold
                && tensors@[t].in_memory()),
        forall|t: int|
            #![trigger tensors@[t]]
            0 <= t < tensors@.len() ==> (out@.contains(t as usize) <==> held(tensors@) >= threshold
                && tensors@[t].spilled_len == 0 && tensors@[t].data@.len() > 0),
        forall|i: int| 0 <= i < out@.len() ==> #[trigger] out@[i] < tensors@.len(),
{
    let n: usize = tensors.len();
    let mut out: Vec<usize> = Vec::new();
    if !holds_at_least(tensors, threshold) {
        return out;
    }
    let mut i: usize = 0;
    while i < n
        invariant
            i <= n,
            n == tensors@.len(),
            forall|a: int, b: int| 0 <= a < b < out@.len() ==> out@[a] < out@[b],
            forall|a: int| 0 <= a < out@.len() ==> #[trigger] out@[a] < i,
            forall|t: int|
                #![trigger tensors@[t]]
                0 <= t < i ==> (out@.contains(t as usize) <==> tensors@[t].in_memory()),
        decreases n - i,
    {
        let ghost before = out@;
        if tensors[i].spilled_len == 0 && tensors[i].data.len() > 0 {
            out.push(i);
        }
        proof {
            assert forall|t: int| #![trigger tensors@[t]]
                0 <= t < i + 1 implies (out@.contains(t as usize)
                <==> tensors@[t].in_memory()) by {
                if t < i {
                    if before.contains(t as usize) {
                        let a = choose|a: int| 0 <= a < before.len() && before[a] == t as usize;
                        assert(out@[a] == t as usize);
                    }
                    if out@.contains(t as usize) {
                        let a = choose|a: int| 0 <= a < out@.len() && out@[a] == t as usize;
                        assert(a < before.len());
                        assert(before[a] == t as usize);
                    }
                } else {
                    if tensors@[t].in_memory() {
                        assert(out@[out@.len() - 1] == t as usize);
                    } else if out@.contains(t as usize) {
                        let a = choose|a: int| 0 <= a < out@.len() && out@[a] == t as usize;
                        assert(out@[a] < i);
                    }
                }
            }
        }
        i = i + 1;
    }
    out
}

/// The spill file holds the tensors in their order: where none of the first `n`
/// tensors is left in memory, what is spilled next stands behind them.
pub proof fn law_spill_file_keeps_order(tensors: Seq<HfqTensor>, n: int, list: Seq<usize>, i: int)
    requires
        0 <= n <= tensors.len(),
        forall|t: int| 0 <= t < n ==> !(#[trigger] tensors[t]).in_memory(),
        forall|j: int| 0 <= j < list.len() ==> #[trigger] list[j] < tensors.len(),
        forall|j: int|
            0 <= j < list.len() ==> tensors[(#[trigger] list[j]) as int].in_memory(),
        0 <= i < list.len(),
    ensures
        list[i] >= n,
{
    assert(list[i] < tensors.len());
    assert(tensors[list[i] as int].in_memory());
}

proof fn lemma_nothing_held(tensors: Seq<HfqTensor>)
    requires
        forall|t: int|
            #![trigger tensors[t]]
            0 <= t < tensors.len() ==> tensors[t].spilled_len > 0 || tensors[t].data@.len() == 0,
    ensures
        held(tensors) == 0,
    decreases tensors.len(),
{
    if tensors.len() > 0 {
        assert forall|t: int| #![trigger tensors.drop_last()[t]]
            0 <= t < tensors.drop_last().len() implies tensors.drop_last()[t].spilled_len > 0
            || tensors.drop_last()[t].data@.len() == 0 by {
            assert(tensors.drop_last()[t] == tensors[t]);
        }
        lemma_nothing_held(tensors.drop_last());
        assert(tensors.last() == tensors[tensors.len() - 1]);
    }
}

/// Spilling bounds the memory that tensors hold: after every tensor that is due was
/// spilled, less than the threshold is held, and nothing at all where some were due.
pub proof fn law_spilling_bounds_memory(
    before: Seq<HfqTensor>,
    after: Seq<HfqTensor>,
    threshold: int,
)
    requires
        after.len() == before.len(),
        forall|t: int|
            #![trigger after[t]]
            0 <= t < before.len() ==> if held(before) >= threshold && before[t].in_memory() {
                after[t].data@.len() == 0
            } else {
                after[t] == before[t]
            },
    ensures
        held(before) >= threshold ==> held(after) == 0,
        threshold > 0 ==> held(after) < threshold,
{
    if held(before) >= threshold {
        assert forall|t: int| #![trigger after[t]] 0 <= t < after.len() implies after[t].spilled_len
            > 0 || after[t].data@.len() == 0 by {}
        lemma_nothing_held(after);
    } else {
        assert forall|t: int| 0 <= t < after.len() implies #[trigger] after[t] == before[t] by {}
        assert(after =~= before);
    }
}

// The part of the file in front of the data.

/// The dimensions of a tensor.
pub open spec fn shape_bytes(shape: Seq<u32>) -> Seq<u8>
    decreases shape.len(),
{
    if shape.len() == 0 {
        Seq::empty()
    } else {
        shape_bytes(shape.drop_last()) + le4(shape.last())
    }
}

/// The index entry of a tensor: the length of its name and the name, its type, the
/// number of its dimensions and the dimensions, its group size, and the length of
/// its data.
pub open spec fn entry_bytes(t: HfqTensor) -> Seq<u8> {
    let name = encode_utf8(t.name@);
    le2((name.len() as int % 0x1_0000) as u16) + name + seq![
        type_code(t.quant_type),
        (t.shape@.len() as int % 0x100) as u8,
    ] + shape_bytes(t.shape@) + le4(t.group_size) + le8(t.data_len() as u64)
}

/// The entries of the index.
pub open spec fn entries(tensors: Seq<HfqTensor>) -> Seq<Seq<u8>> {
    Seq::new(tensors.len(), |i: int| entry_bytes(tensors[i]))
}

/// The index: the number of tensors and their entries.
pub open spec fn index_bytes(tensors: Seq<HfqTensor>) -> Seq<u8> {
    le4((tensors.len() as int % 0x1_0000_0000) as u32) + concat(entries(tensors))
}

/// Where the data starts: behind the header of 32 bytes, the metadata and the
/// index, at a multiple of 4096.
pub open spec fn data_offset(metadata: Seq<char>, tensors: Seq<HfqTensor>) -> int {
    (32int + encode_utf8(metadata).len() + index_bytes(tensors).len() + 4095) / 4096 * 4096
}

/// The four letters at the start of a file.
pub open spec fn magic() -> Seq<u8> {
    seq![72u8, 70u8, 81u8, 77u8]
}

/// The version of the file format.
pub const HFQ_VERSION: u32 = 1;

/// The header: the letters `HFQM`, the version, the architecture, the number of
/// tensors, and where the metadata and the data start.
pub open spec fn header_bytes(arch: u32, count: int, data_start: int) -> Seq<u8> {
    magic() + le4(HFQ_VERSION) + le4(arch) + le4((count % 0x1_0000_0000) as u32) + le8(32) + le8(
        data_start as u64,
    )
}

/// Everything in front of the data: header, metadata, index, and zeros.
pub open spec fn prefix_bytes(arch: u32, metadata: Seq<char>, tensors: Seq<HfqTensor>) -> Seq<u8> {
    let start = data_offset(metadata, tensors);
    let body = header_bytes(arch, tensors.len() as int, start) + encode_utf8(metadata)
        + index_bytes(tensors);
    body + Seq::new((start - body.len()) as nat, |i: int| 0u8)
}

/// Appends the index entry of a tensor.
fn push_entry(out: &mut Vec<u8>, t: &HfqTensor)
    ensures
        final(out)@ == old(out)@ + entry_bytes(*t),
{
    let name = t.name.as_str().as_bytes();
    let name_len: usize = name.len();
    push_le2(out, (name_len % 0x1_0000) as u16);
    push_bytes(out, name);
    out.push(t.quant_type.code());
    let dims: usize = t.shape.len();
    out.push((dims % 0x100) as u8);
    let ghost head = out@;
    let mut i: usize = 0;
    while i < dims
        invariant
            i <= dims,
            dims == t.shape@.len(),
            out@ =~= head + shape_bytes(t.shape@.take(i as int)),
        decreases dims - i,
    {
        push_le4(out, t.shape[i]);
        proof {
            let next = t.shape@.take(i + 1);
            assert(next.drop_last() =~= t.shape@.take(i as int));
            assert(shape_bytes(next) == shape_bytes(t.shape@.take(i as int)) + le4(
                t.shape@[i as int],
            ));
        }
        i = i + 1;
    }
    assert(t.shape@.take(dims as int) =~= t.shape@);
    push_le4(out, t.group_size);
    push_le8(out, t.data_size());
    assert(out@ =~= old(out)@ + entry_bytes(*t));
}

/// Builds the index.
fn build_index(tensors: &[HfqTensor]) -> (out: Vec<u8>)
    ensures
        out@ == index_bytes(tensors@),
{
    let n: usize = tensors.len();
    let mut out: Vec<u8> = Vec::new();
    push_le4(&mut out, (n as u64 % 0x1_0000_0000) as u32);
    let ghost head = out@;
    let ghost all = entries(tensors@);
    assert(all.take(0) =~= Seq::empty());
    assert(head + concat(all.take(0)) =~= head);
    let mut i: usize = 0;
    while i < n
        invariant
            i <= n,
            n == tensors@.len(),
            all == entries(tensors@),
            out@ == head + concat(all.take(i as int)),
        decreases n - i,
    {
        push_entry(&mut out, &tensors[i]);
        proof {
            assert(all.take(i + 1) =~= all.take(i as int).push(all[i as int]));
            lemma_concat_push(all.take(i as int), all[i as int]);
            assert(out@ =~= head + (concat(all.take(i as int)) + all[i as int]));
        }
        i = i + 1;
    }
    assert(all.take(n as int) =~= all);
    assert(head =~= le4((tensors@.len() as int % 0x1_0000_0000) as u32));
    out
}

/// Builds everything that stands in front of the tensor data. The data of the
/// tensors follows in their order.
#[verifier::rlimit(40)]
pub fn build_prefix(arch: u32, metadata: &str, tensors: &[HfqTensor]) -> (out: Vec<u8>)
    requires
        data_offset(metadata@, tensors@) <= usize::MAX,
    ensures
        out@ == prefix_bytes(arch, metadata@, tensors@),
        out@.len() == data_offset(metadata@, tensors@),
{
    let text = metadata.as_bytes();
    let index = build_index(tensors);
    let text_len: usize = text.len();
    let index_len: usize = index.len();
    let end: usize = 32 + text_len + index_len;
    let rest: usize = end % 4096;
    let pad: usize = if rest == 0 {
        0
    } else {
        4096 - rest
    };
    let start: usize = end + pad;
    assert(start == data_offset(metadata@, tensors@));
    let count: usize = tensors.len();
    let mut out: Vec<u8> = Vec::new();
    out.push(72);
    out.push(70);
    out.push(81);
    out.push(77);
    assert(out@ =~= magic());
    push_le4(&mut out, HFQ_VERSION);
    push_le4(&mut out, arch);
    push_le4(&mut out, (count as u64 % 0x1_0000_0000) as u32);
    push_le8(&mut out, 32);
    push_le8(&mut out, start as u64);
    assert(out@ =~= header_bytes(arch, count as int, start as int));
    proof {
        lemma_le8_len(32);
        lemma_le8_len(start as u64);
    }
    push_bytes(&mut out, text);
    push_bytes(&mut out, index.as_slice());
    let ghost body = out@;
    let mut i: usize = 0;
    while i < pad
        invariant
            i <= pad,
            out@ =~= body + Seq::new(i as nat, |j: int| 0u8),
        decreases pad - i,
    {
        out.push(0);
        i = i + 1;
    }
    out
}

// Reading back.

/// Where the parts of a row of sequences stand: the end of `a + b` is `b`, and
/// what stood in `a` stands there still.
proof fn lemma_joined(a: Seq<u8>, b: Seq<u8>)
    ensures
        (a + b).subrange(a.len() as int, (a + b).len() as int) == b,
        forall|i: int, j: int|
            0 <= i <= j <= a.len() ==> #[trigger] (a + b).subrange(i, j) == a.subrange(i, j),
{
    assert((a + b).subrange(a.len() as int, (a + b).len() as int) =~= b);
    assert forall|i: int, j: int| 0 <= i <= j <= a.len() implies #[trigger] (a + b).subrange(i, j)
        == a.subrange(i, j) by {
        assert((a + b).subrange(i, j) =~= a.subrange(i, j));
    }
}

proof fn lemma_header_parts(
    m: Seq<u8>,
    v: Seq<u8>,
    a: Seq<u8>,
    n: Seq<u8>,
    o: Seq<u8>,
    d: Seq<u8>,
)
    requires
        m.len() == 4,
        v.len() == 4,
        a.len() == 4,
        n.len() == 4,
        o.len() == 8,
        d.len() == 8,
    ensures
        ({
            let h = m + v + a + n + o + d;
            &&& h.len() == 32
            &&& h.subrange(0, 4) == m
            &&& h.subrange(4, 8) == v
            &&& h.subrange(8, 12) == a
            &&& h.subrange(12, 16) == n
            &&& h.subrange(16, 24) == o
            &&& h.subrange(24, 32) == d
        }),
{
    let h2 = m + v;
    let h3 = h2 + a;
    let h4 = h3 + n;
    let h5 = h4 + o;
    lemma_joined(m, v);
    lemma_joined(h2, a);
    lemma_joined(h3, n);
    lemma_joined(h4, o);
    lemma_joined(h5, d);
    assert(m.subrange(0, 4) =~= m);
}

proof fn lemma_prefix_parts(head: Seq<u8>, text: Seq<u8>, index: Seq<u8>, pad: Seq<u8>)
    ensures
        ({
            let s = head + text + index + pad;
            let (h, t, x) = (head.len() as int, text.len() as int, index.len() as int);
            &&& s.len() == h + t + x + pad.len()
            &&& s.subrange(h, h + t) == text
            &&& s.subrange(h + t, h + t + x) == index
            &&& forall|i: int, j: int|
                0 <= i <= j <= h ==> #[trigger] s.subrange(i, j) == head.subrange(i, j)
        }),
{
    let p2 = head + text;
    let p3 = p2 + index;
    let s = p3 + pad;
    lemma_joined(head, text);
    lemma_joined(p2, index);
    lemma_joined(p3, pad);
    assert forall|i: int, j: int| 0 <= i <= j <= head.len() implies #[trigger] s.subrange(i, j)
        == head.subrange(i, j) by {
        assert(s.subrange(i, j) == p3.subrange(i, j));
        assert(p3.subrange(i, j) == p2.subrange(i, j));
        assert(p2.subrange(i, j) == head.subrange(i, j));
    }
    let (h, t) = (head.len() as int, text.len() as int);
    assert(s.subrange(h, h + t) == p3.subrange(h, h + t));
    assert(p3.subrange(h, h + t) == p2.subrange(h, h + t));
    assert(s.subrange(h + t, h + t + index.len()) == p3.subrange(h + t, h + t + index.len()));
}

/// The parts of what precedes the data: the header, the metadata and the index.
#[verifier::spinoff_prover]
proof fn lemma_prefix_at(arch: u32, metadata: Seq<char>, tensors: Seq<HfqTensor>)
    ensures
        ({
            let s = prefix_bytes(arch, metadata, tensors);
            let text = encode_utf8(metadata);
            let index = index_bytes(tensors);
            let t = 32 + text.len() as int;
            let start = data_offset(metadata, tensors);
            &&& s.len() == start
            &&& start >= t + index.len()
            &&& s.subrange(0, 32) == header_bytes(arch, tensors.len() as int, start)
            &&& s.subrange(32, t) == text
            &&& s.subrange(t, t + index.len()) == index
        }),
{
    let text = encode_utf8(metadata);
    let index = index_bytes(tensors);
    let start = data_offset(metadata, tensors);
    let head = header_bytes(arch, tensors.len() as int, start);
    lemma_le8_len(32);
    lemma_le8_len(start as u64);
    assert(head.len() == 32);
    let pad = Seq::new((start - (head + text + index).len()) as nat, |i: int| 0u8);
    lemma_prefix_parts(head, text, index, pad);
    assert(head.subrange(0, 32) =~= head);
}

/// The fields of a header.
#[verifier::spinoff_prover]
proof fn lemma_header_at(arch: u32, count: int, start: int)
    requires
        0 <= count < 0x1_0000_0000,
        0 <= start <= u64::MAX,
    ensures
        ({
            let h = header_bytes(arch, count, start);
            &&& h.len() == 32
            &&& h.subrange(0, 4) == magic()
            &&& h.subrange(4, 8) == le4(HFQ_VERSION)
            &&& h.subrange(8, 12) == le4(arch)
            &&& h.subrange(12, 16) == le4(count as u32)
            &&& h.subrange(16, 24) == le8(32)
            &&& h.subrange(24, 32) == le8(start as u64)
        }),
{
    lemma_le8_len(32);
    lemma_le8_len(start as u64);
    lemma_header_parts(
        magic(),
        le4(HFQ_VERSION),
        le4(arch),
        le4(count as u32),
        le8(32),
        le8(start as u64),
    );
}

/// What stands in the header stands in the file.
proof fn lemma_within_header(s: Seq<u8>, i: int, j: int)
    requires
        s.len() >= 32,
        0 <= i <= j <= 32,
    ensures
        s.subrange(i, j) == s.subrange(0, 32).subrange(i, j),
{
    assert(s.subrange(i, j) =~= s.subrange(0, 32).subrange(i, j));
}

/// The header of a file can be read back: the letters, the version, the
/// architecture, the number of tensors, and the metadata, which starts at 32. The
/// data starts where the header says, at the first multiple of 4096 not below the end
/// of the index.
#[verifier::spinoff_prover]
#[verifier::rlimit(40)]
pub proof fn law_header_reads_back(arch: u32, metadata: Seq<char>, tensors: Seq<HfqTensor>)
    requires
        tensors.len() < 0x1_0000_0000,
        data_offset(metadata, tensors) <= u64::MAX,
    ensures
        ({
            let s = prefix_bytes(arch, metadata, tensors);
            let text = encode_utf8(metadata);
            &&& s.subrange(0, 4) == magic()
            &&& read4(s, 4) == HFQ_VERSION
            &&& read4(s, 8) == arch
            &&& read4(s, 12) == tensors.len()
            &&& read8(s, 16) == 32
            &&& read8(s, 24) == s.len()
            &&& s.len() as int % 4096 == 0
            &&& 32int + text.len() + index_bytes(tensors).len() <= s.len()
            &&& s.len() < 32int + text.len() + index_bytes(tensors).len() + 4096
            &&& s.subrange(32, 32 + text.len() as int) == text
            &&& s.subrange(
                32 + text.len() as int,
                32 + text.len() as int + index_bytes(tensors).len() as int,
            ) == index_bytes(tensors)
        }),
{
    let s = prefix_bytes(arch, metadata, tensors);
    let start = data_offset(metadata, tensors);
    let n = tensors.len() as int;
    lemma_prefix_at(arch, metadata, tensors);
    lemma_header_at(arch, n, start);
    lemma_within_header(s, 0, 4);
    lemma_within_header(s, 4, 8);
    lemma_within_header(s, 8, 12);
    lemma_within_header(s, 12, 16);
    lemma_within_header(s, 16, 24);
    lemma_within_header(s, 24, 32);
    law_le4_round_trip(s, 4, HFQ_VERSION);
    law_le4_round_trip(s, 8, arch);
    law_le4_round_trip(s, 12, n as u32);
    law_le8_round_trip(s, 16, 32);
    law_le8_round_trip(s, 24, start as u64);
}

proof fn lemma_shape_at(shape: Seq<u32>, d: int)
    requires
        0 <= d < shape.len(),
    ensures
        shape_bytes(shape).len() == 4 * shape.len(),
        shape_bytes(shape).subrange(4 * d, 4 * d + 4) == le4(shape[d]),
    decreases shape.len(),
{
    let rest = shape.drop_last();
    lemma_shape_len(rest);
    if d < rest.len() {
        lemma_shape_at(rest, d);
        assert(shape_bytes(shape).subrange(4 * d, 4 * d + 4) =~= shape_bytes(rest).subrange(
            4 * d,
            4 * d + 4,
        ));
    } else {
        assert(shape_bytes(shape).subrange(4 * d, 4 * d + 4) =~= le4(shape[d]));
    }
}

proof fn lemma_shape_len(shape: Seq<u32>)
    ensures
        shape_bytes(shape).len() == 4 * shape.len(),
    decreases shape.len(),
{
    if shape.len() > 0 {
        lemma_shape_len(shape.drop_last());
    }
}

/// The length of the index entry of a tensor.
pub open spec fn entry_len(t: HfqTensor) -> int {
    16int + encode_utf8(t.name@).len() + 4 * t.shape@.len()
}

proof fn lemma_entry_len(t: HfqTensor)
    ensures
        entry_bytes(t).len() == entry_len(t),
{
    lemma_shape_len(t.shape@);
    lemma_le8_len(t.data_len() as u64);
}

/// Where the entry of tensor `k` starts in the index.
pub open spec fn entry_start(tensors: Seq<HfqTensor>, k: int) -> int
    decreases k,
{
    if k <= 0 {
        4
    } else {
        entry_start(tensors, k - 1) + entry_len(tensors[k - 1])
    }
}

proof fn lemma_entry_at(tensors: Seq<HfqTensor>, n: int, k: int)
    requires
        0 <= k < n <= tensors.len(),
    ensures
        concat(entries(tensors).take(n)).len() == entry_start(tensors, n) - 4,
        4 <= entry_start(tensors, k),
        entry_start(tensors, k) + entry_len(tensors[k]) <= entry_start(tensors, n),
        concat(entries(tensors).take(n)).subrange(
            entry_start(tensors, k) - 4,
            entry_start(tensors, k) - 4 + entry_len(tensors[k]),
        ) == entry_bytes(tensors[k]),
    decreases n,
{
    let all = entries(tensors);
    let rest = all.take(n - 1);
    lemma_entries_len(tensors, n - 1);
    lemma_entry_len(tensors[n - 1]);
    assert(all.take(n) =~= rest.push(all[n - 1]));
    lemma_concat_push(rest, all[n - 1]);
    let whole = concat(all.take(n));
    let at = entry_start(tensors, k) - 4;
    let len = entry_len(tensors[k]);
    if k < n - 1 {
        lemma_entry_at(tensors, n - 1, k);
        assert(whole.subrange(at, at + len) =~= concat(rest).subrange(at, at + len));
    } else {
        assert(whole.subrange(at, at + len) =~= entry_bytes(tensors[k]));
    }
}

proof fn lemma_entries_len(tensors: Seq<HfqTensor>, n: int)
    requires
        0 <= n <= tensors.len(),
    ensures
        concat(entries(tensors).take(n)).len() == entry_start(tensors, n) - 4,
        entry_start(tensors, n) >= 4,
    decreases n,
{
    let all = entries(tensors);
    if n > 0 {
        let rest = all.take(n - 1);
        lemma_entries_len(tensors, n - 1);
        lemma_entry_len(tensors[n - 1]);
        assert(all.take(n) =~= rest.push(all[n - 1]));
        lemma_concat_push(rest, all[n - 1]);
    } else {
        assert(all.take(0) =~= Seq::empty());
    }
}

/// The index holds the entry of every tensor at its start.
#[verifier::rlimit(40)]
pub proof fn law_index_holds_entries(tensors: Seq<HfqTensor>, k: int)
    requires
        0 <= k < tensors.len(),
    ensures
        index_bytes(tensors).len() == entry_start(tensors, tensors.len() as int),
        index_bytes(tensors).subrange(
            entry_start(tensors, k),
            entry_start(tensors, k) + entry_len(tensors[k]),
        ) == entry_bytes(tensors[k]),
{
    let n = tensors.len() as int;
    lemma_entry_at(tensors, n, k);
    assert(entries(tensors).take(n) =~= entries(tensors));
    let body = concat(entries(tensors));
    let at = entry_start(tensors, k);
    let len = entry_len(tensors[k]);
    assert(index_bytes(tensors).subrange(at, at + len) =~= body.subrange(at - 4, at - 4 + len));
}

proof fn lemma_entry_parts(
    l: Seq<u8>,
    name: Seq<u8>,
    two: Seq<u8>,
    shape: Seq<u8>,
    group: Seq<u8>,
    len: Seq<u8>,
)
    requires
        l.len() == 2,
        two.len() == 2,
        group.len() == 4,
        len.len() == 8,
    ensures
        ({
            let e = l + name + two + shape + group + len;
            let (n, m) = (name.len() as int, shape.len() as int);
            &&& e.len() == n + m + 16
            &&& e.subrange(0, 2) == l
            &&& e.subrange(2, 2 + n) == name
            &&& e.subrange(2 + n, 4 + n) == two
            &&& e.subrange(4 + n, 4 + n + m) == shape
            &&& e.subrange(4 + n + m, 8 + n + m) == group
            &&& e.subrange(8 + n + m, 16 + n + m) == len
        }),
{
    let e2 = l + name;
    let e3 = e2 + two;
    let e4 = e3 + shape;
    let e5 = e4 + group;
    let e = e5 + len;
    let (n, m) = (name.len() as int, shape.len() as int);
    lemma_joined(l, name);
    lemma_joined(e2, two);
    lemma_joined(e3, shape);
    lemma_joined(e4, group);
    lemma_joined(e5, len);
    assert(l.subrange(0, 2) =~= l);
    assert(e.subrange(2, 2 + n) == e5.subrange(2, 2 + n));
    assert(e5.subrange(2, 2 + n) == e4.subrange(2, 2 + n));
    assert(e4.subrange(2, 2 + n) == e3.subrange(2, 2 + n));
    assert(e3.subrange(2, 2 + n) == e2.subrange(2, 2 + n));
    assert(e.subrange(2 + n, 4 + n) == e5.subrange(2 + n, 4 + n));
    assert(e5.subrange(2 + n, 4 + n) == e4.subrange(2 + n, 4 + n));
    assert(e4.subrange(2 + n, 4 + n) == e3.subrange(2 + n, 4 + n));
    assert(e.subrange(4 + n, 4 + n + m) == e5.subrange(4 + n, 4 + n + m));
    assert(e5.subrange(4 + n, 4 + n + m) == e4.subrange(4 + n, 4 + n + m));
    assert(e.subrange(4 + n + m, 8 + n + m) == e5.subrange(4 + n + m, 8 + n + m));
}

/// Part of a part.
proof fn lemma_part_of_part(s: Seq<u8>, from: int, to: int, i: int, j: int)
    requires
        0 <= from <= to <= s.len(),
        0 <= i <= j <= to - from,
    ensures
        s.subrange(from, to).subrange(i, j) == s.subrange(from + i, from + j),
{
    assert(s.subrange(from, to).subrange(i, j) =~= s.subrange(from + i, from + j));
}

/// An index entry can be read back: name, type, dimensions, group size and data
/// length, wherever it stands. The name must be shorter than 65536 bytes and the
/// dimensions fewer than 256.
#[verifier::rlimit(40)]
pub proof fn law_entry_reads_back(t: HfqTensor, s: Seq<u8>, at: int, d: int)
    requires
        encode_utf8(t.name@).len() < 0x1_0000,
        t.shape@.len() < 0x100,
        t.data_len() <= u64::MAX,
        0 <= at,
        at + entry_len(t) <= s.len(),
        s.subrange(at, at + entry_len(t)) == entry_bytes(t),
    ensures
        ({
            let n = encode_utf8(t.name@).len() as int;
            let dims = t.shape@.len() as int;
            &&& read2(s, at) == n
            &&& decode_utf8(s.subrange(at + 2, at + 2 + n)) == t.name@
            &&& s[at + 2 + n] == type_code(t.quant_type)
            &&& s[at + 3 + n] == dims
            &&& 0 <= d < dims ==> read4(s, at + 4 + n + 4 * d) == t.shape@[d]
            &&& read4(s, at + 4 + n + 4 * dims) == t.group_size
            &&& read8(s, at + 8 + n + 4 * dims) == t.data_len()
        }),
{
    let name = encode_utf8(t.name@);
    let n = name.len() as int;
    let dims = t.shape@.len() as int;
    let m = 4 * dims;
    let e = entry_bytes(t);
    let end = at + entry_len(t);
    let two = seq![type_code(t.quant_type), (dims % 0x100) as u8];
    lemma_shape_len(t.shape@);
    lemma_le8_len(t.data_len() as u64);
    lemma_entry_parts(
        le2(n as u16),
        name,
        two,
        shape_bytes(t.shape@),
        le4(t.group_size),
        le8(t.data_len() as u64),
    );
    lemma_part_of_part(s, at, end, 0, 2);
    law_le2_round_trip(s, at, n as u16);
    lemma_part_of_part(s, at, end, 2, 2 + n);
    vstd::utf8::encode_utf8_decode_utf8(t.name@);
    lemma_part_of_part(s, at, end, 2 + n, 4 + n);
    assert(s.subrange(at + (2 + n), at + (4 + n))[0] == s[at + 2 + n]);
    assert(s.subrange(at + (2 + n), at + (4 + n))[1] == s[at + 3 + n]);
    if 0 <= d < dims {
        lemma_shape_at(t.shape@, d);
        lemma_part_of_part(s, at, end, 4 + n, 4 + n + m);
        lemma_part_of_part(s, at + (4 + n), at + (4 + n + m), 4 * d, 4 * d + 4);
        law_le4_round_trip(s, at + (4 + n) + 4 * d, t.shape@[d]);
    }
    lemma_part_of_part(s, at, end, 4 + n + m, 8 + n + m);
    law_le4_round_trip(s, at + (4 + n + m), t.group_size);
    lemma_part_of_part(s, at, end, 8 + n + m, 16 + n + m);
    law_le8_round_trip(s, at + (8 + n + m), t.data_len() as u64);
}

// The whole file.

/// A whole file: what precedes the data, and the data of the tensors, one behind the
/// other.
pub open spec fn file_bytes(
    arch: u32,
    metadata: Seq<char>,
    tensors: Seq<HfqTensor>,
    data: Seq<Seq<u8>>,
) -> Seq<u8> {
    prefix_bytes(arch, metadata, tensors) + concat(data)
}

/// The bytes of data in front of tensor `i`, summed up over the lengths in the index.
pub open spec fn data_before(tensors: Seq<HfqTensor>, i: int) -> int
    decreases i,
{
    if i <= 0 {
        0
    } else {
        data_before(tensors, i - 1) + tensors[i - 1].data_len()
    }
}

proof fn lemma_data_before(tensors: Seq<HfqTensor>, data: Seq<Seq<u8>>, i: int)
    requires
        data.len() == tensors.len(),
        forall|t: int|
            #![trigger data[t]]
            0 <= t < data.len() ==> data[t].len() == tensors[t].data_len(),
        0 <= i <= tensors.len(),
    ensures
        concat(data.take(i)).len() == data_before(tensors, i),
    decreases i,
{
    if i > 0 {
        lemma_data_before(tensors, data, i - 1);
        assert(data.take(i).drop_last() =~= data.take(i - 1));
        assert(data.take(i).last() == data[i - 1]);
    }
}

proof fn lemma_concat_part(blocks: Seq<Seq<u8>>, i: int)
    requires
        0 <= i < blocks.len(),
    ensures
        ({
            let at = concat(blocks.take(i)).len() as int;
            &&& at + blocks[i].len() <= concat(blocks).len()
            &&& concat(blocks).subrange(at, at + blocks[i].len()) == blocks[i]
        }),
    decreases blocks.len(),
{
    let rest = blocks.drop_last();
    if i == blocks.len() - 1 {
        assert(blocks.take(i) =~= rest);
        let at = concat(rest).len() as int;
        assert(concat(blocks).subrange(at, at + blocks[i].len()) =~= blocks.last());
    } else {
        lemma_concat_part(rest, i);
        assert(rest.take(i) =~= blocks.take(i));
        let at = concat(rest.take(i)).len() as int;
        assert(concat(blocks).subrange(at, at + blocks[i].len()) =~= concat(rest).subrange(
            at,
            at + rest[i].len(),
        ));
    }
}

/// A reader finds the data of every tensor from the index alone: it starts where the
/// header says that the data starts, behind the data of the tensors before it, whose
/// lengths the index gives.
pub proof fn law_data_is_found(
    arch: u32,
    metadata: Seq<char>,
    tensors: Seq<HfqTensor>,
    data: Seq<Seq<u8>>,
    i: int,
)
    requires
        data.len() == tensors.len(),
        forall|t: int|
            #![trigger data[t]]
            0 <= t < data.len() ==> data[t].len() == tensors[t].data_len(),
        0 <= i < tensors.len(),
    ensures
        ({
            let file = file_bytes(arch, metadata, tensors, data);
            let start = data_offset(metadata, tensors) + data_before(tensors, i);
            &&& start + tensors[i].data_len() <= file.len()
            &&& file.subrange(start, start + tensors[i].data_len()) == data[i]
        }),
{
    let prefix = prefix_bytes(arch, metadata, tensors);
    lemma_prefix_at(arch, metadata, tensors);
    lemma_data_before(tensors, data, i);
    lemma_concat_part(data, i);
    let at = data_before(tensors, i);
    let file = file_bytes(arch, metadata, tensors, data);
    let start = prefix.len() + at;
    assert(file.subrange(start, start + data[i].len()) =~= concat(data).subrange(
        at,
        at + data[i].len(),
    ));
}

// Spilling and the file.

/// The tensors of a conversion as it goes on, and the bytes of the spill file.
pub struct Spilling {
    pub tensors: Seq<HfqTensor>,
    pub spill: Seq<u8>,
}

/// The data that tensors hold in memory.
pub open spec fn payloads(tensors: Seq<HfqTensor>) -> Seq<Seq<u8>> {
    Seq::new(tensors.len(), |t: int| tensors[t].data@)
}

/// The tensors are the same but for where their data is.
pub open spec fn same_tensor(a: HfqTensor, b: HfqTensor) -> bool {
    &&& a.name@ == b.name@
    &&& a.quant_type == b.quant_type
    &&& a.shape@ == b.shape@
    &&& a.group_size == b.group_size
}

/// The data of the tensors that are due for spilling, one behind the other.
pub open spec fn due_data(tensors: Seq<HfqTensor>) -> Seq<u8>
    decreases tensors.len(),
{
    if tensors.len() == 0 {
        Seq::empty()
    } else {
        due_data(tensors.drop_last()) + (if tensors.last().in_memory() {
            tensors.last().data@
        } else {
            Seq::empty()
        })
    }
}

/// A round of spilling in which all writes succeed: where the tensors hold as much
/// as the threshold, those that `spill_list` names are appended to the spill file and
/// marked with their length; otherwise nothing changes.
pub open spec fn spills(a: Spilling, b: Spilling, threshold: int) -> bool {
    if held(a.tensors) >= threshold {
        &&& b.spill == a.spill + due_data(a.tensors)
        &&& b.tensors.len() == a.tensors.len()
        &&& forall|t: int|
            #![trigger b.tensors[t]]
            0 <= t < a.tensors.len() ==> if a.tensors[t].in_memory() {
                &&& same_tensor(b.tensors[t], a.tensors[t])
                &&& b.tensors[t].spilled_len == a.tensors[t].data@.len()
                &&& b.tensors[t].data@.len() == 0
            } else {
                b.tensors[t] == a.tensors[t]
            }
    } else {
        b == a
    }
}

/// A round of spilling with some threshold.
pub open spec fn spills_somehow(a: Spilling, b: Spilling) -> bool {
    exists|threshold: int| #[trigger] spills(a, b, threshold)
}

/// The next of the tensors `plain` is added.
pub open spec fn adds(a: Spilling, b: Spilling, plain: Seq<HfqTensor>) -> bool {
    &&& a.tensors.len() < plain.len()
    &&& b.tensors == a.tensors.push(plain[a.tensors.len() as int])
    &&& b.spill == a.spill
}

/// A conversion: it starts with nothing, adds the tensors `plain` in their order, and
/// spills at any time and with any thresholds.
pub open spec fn is_conversion(states: Seq<Spilling>, plain: Seq<HfqTensor>) -> bool {
    &&& states.len() > 0
    &&& states[0].tensors.len() == 0
    &&& states[0].spill.len() == 0
    &&& forall|i: int|
        #![trigger states[i]]
        0 < i < states.len() ==> adds(states[i - 1], states[i], plain) || spills_somehow(
            states[i - 1],
            states[i],
        )
}

/// The bytes of the spill file that belong to the first `n` tensors.
pub open spec fn spilled_before(tensors: Seq<HfqTensor>, n: int) -> int
    decreases n,
{
    if n <= 0 {
        0
    } else {
        spilled_before(tensors, n - 1) + tensors[n - 1].spilled_len
    }
}

/// The data that is written for tensor `t`: the next bytes of the spill file, which
/// is read from its start, or what the tensor holds in memory.
pub open spec fn written_for(s: Spilling, t: int) -> Seq<u8> {
    if s.tensors[t].spilled_len > 0 {
        let at = spilled_before(s.tensors, t);
        s.spill.subrange(at, at + s.tensors[t].spilled_len)
    } else {
        s.tensors[t].data@
    }
}

/// The data that is written, tensor by tensor.
pub open spec fn written(s: Spilling) -> Seq<Seq<u8>> {
    Seq::new(s.tensors.len(), |t: int| written_for(s, t))
}

/// Tensors are spilled from the front: what holds data in memory stands behind all
/// that is spilled.
pub open spec fn in_order(tensors: Seq<HfqTensor>) -> bool {
    forall|t: int, u: int|
        #![trigger tensors[t], tensors[u]]
        0 <= t < u < tensors.len() && tensors[t].in_memory() ==> tensors[u].spilled_len == 0
}

/// The data of those of the first `n` tensors that are spilled, one behind the other.
pub open spec fn spilled_data(tensors: Seq<HfqTensor>, plain: Seq<HfqTensor>, n: int) -> Seq<u8>
    decreases n,
{
    if n <= 0 {
        Seq::empty()
    } else {
        spilled_data(tensors, plain, n - 1) + (if tensors[n - 1].spilled_len > 0 {
            plain[n - 1].data@
        } else {
            Seq::empty()
        })
    }
}

/// The tensor is the tensor `plain`, with its data in memory or recorded as spilled.
pub open spec fn tensor_stands_for(t: HfqTensor, plain: HfqTensor) -> bool {
    &&& same_tensor(t, plain)
    &&& if t.spilled_len > 0 {
        t.spilled_len == plain.data@.len()
    } else {
        t.data@ == plain.data@
    }
}

/// The conversion has come to the first of the tensors `plain`: each tensor stands
/// for its own, and the spill file holds what is spilled, in order.
pub open spec fn stands_for(s: Spilling, plain: Seq<HfqTensor>) -> bool {
    &&& s.tensors.len() <= plain.len()
    &&& in_order(s.tensors)
    &&& s.spill == spilled_data(s.tensors, plain, s.tensors.len() as int)
    &&& forall|t: int|
        #![trigger s.tensors[t]]
        0 <= t < s.tensors.len() ==> tensor_stands_for(s.tensors[t], plain[t])
}

proof fn lemma_spilled_data_same(
    a: Seq<HfqTensor>,
    b: Seq<HfqTensor>,
    plain: Seq<HfqTensor>,
    n: int,
)
    requires
        0 <= n <= a.len(),
        n <= b.len(),
        forall|t: int| #![trigger a[t]] 0 <= t < n ==> a[t] == b[t],
    ensures
        spilled_data(a, plain, n) == spilled_data(b, plain, n),
    decreases n,
{
    if n > 0 {
        lemma_spilled_data_same(a, b, plain, n - 1);
        assert(a[n - 1] == b[n - 1]);
    }
}

proof fn lemma_adding_stands(a: Spilling, b: Spilling, plain: Seq<HfqTensor>)
    requires
        stands_for(a, plain),
        adds(a, b, plain),
        plain[a.tensors.len() as int].spilled_len == 0,
    ensures
        stands_for(b, plain),
{
    let n = a.tensors.len() as int;
    assert(b.tensors[n] == plain[n]);
    assert forall|t: int| 0 <= t < n implies #[trigger] b.tensors[t] == a.tensors[t] by {}
    lemma_spilled_data_same(b.tensors, a.tensors, plain, n);
    assert(spilled_data(b.tensors, plain, n + 1) =~= a.spill);
    assert forall|t: int| #![trigger b.tensors[t]] 0 <= t < b.tensors.len() implies tensor_stands_for(
        b.tensors[t],
        plain[t],
    ) by {
        if t < n {
            assert(tensor_stands_for(a.tensors[t], plain[t]));
        }
    }
    assert forall|t: int, u: int|
        #![trigger b.tensors[t], b.tensors[u]]
        0 <= t < u < b.tensors.len() && b.tensors[t].in_memory() implies b.tensors[u].spilled_len
        == 0 by {
        if u < n {
            assert(a.tensors[t].in_memory());
            assert(a.tensors[u].spilled_len == 0);
        }
    }
}

proof fn lemma_nothing_due(tensors: Seq<HfqTensor>)
    requires
        forall|t: int|
            #![trigger tensors[t]]
            0 <= t < tensors.len() ==> !tensors[t].in_memory(),
    ensures
        due_data(tensors) == Seq::<u8>::empty(),
    decreases tensors.len(),
{
    if tensors.len() > 0 {
        let rest = tensors.drop_last();
        assert forall|t: int| #![trigger rest[t]] 0 <= t < rest.len() implies !rest[t].in_memory() by {
            assert(rest[t] == tensors[t]);
        }
        lemma_nothing_due(rest);
        assert(!tensors[tensors.len() - 1].in_memory());
        assert(due_data(tensors) =~= Seq::<u8>::empty());
    }
}

/// The data of listed tensors.
pub open spec fn listed_data(tensors: Seq<HfqTensor>, list: Seq<usize>) -> Seq<Seq<u8>> {
    Seq::new(list.len(), |i: int| tensors[list[i] as int].data@)
}

/// What a round appends to the spill file is the data of the tensors that `spill_list`
/// names, in the order in which it names them.
pub proof fn law_spill_list_holds_due_data(tensors: Seq<HfqTensor>, list: Seq<usize>)
    requires
        tensors.len() <= usize::MAX,
        forall|i: int, j: int| 0 <= i < j < list.len() ==> list[i] < list[j],
        forall|i: int| 0 <= i < list.len() ==> #[trigger] list[i] < tensors.len(),
        forall|t: int|
            #![trigger tensors[t]]
            0 <= t < tensors.len() ==> (list.contains(t as usize) <==> tensors[t].in_memory()),
    ensures
        concat(listed_data(tensors, list)) == due_data(tensors),
    decreases tensors.len(),
{
    if tensors.len() == 0 {
        assert(list.len() == 0) by {
            if list.len() > 0 {
                assert(list[0] < tensors.len());
            }
        }
    } else {
        let last = tensors.len() - 1;
        let rest = tensors.drop_last();
        assert(tensors.last() == tensors[last]);
        if tensors[last].in_memory() {
            assert(list.contains(last as usize));
            let k = choose|k: int| 0 <= k < list.len() && list[k] == last as usize;
            assert(k == list.len() - 1) by {
                if k < list.len() - 1 {
                    assert(list[k] < list[list.len() - 1]);
                }
            }
            let front = list.drop_last();
            assert forall|i: int| 0 <= i < front.len() implies #[trigger] front[i] < rest.len() by {
                assert(list[i] < list[k]);
            }
            assert forall|t: int| #![trigger rest[t]] 0 <= t < rest.len() implies (front.contains(
                t as usize,
            ) <==> rest[t].in_memory()) by {
                assert(rest[t] == tensors[t]);
                if list.contains(t as usize) {
                    let i = choose|i: int| 0 <= i < list.len() && list[i] == t as usize;
                    assert(front[i] == t as usize);
                }
                if front.contains(t as usize) {
                    let i = choose|i: int| 0 <= i < front.len() && front[i] == t as usize;
                    assert(list[i] == t as usize);
                }
            }
            law_spill_list_holds_due_data(rest, front);
            assert(listed_data(tensors, list).drop_last() =~= listed_data(rest, front));
            assert(listed_data(tensors, list).last() == tensors[last].data@);
        } else {
            assert forall|i: int| 0 <= i < list.len() implies #[trigger] list[i] < rest.len() by {
                assert(list.contains(list[i]));
                assert(tensors[list[i] as int].in_memory());
            }
            assert forall|t: int| #![trigger rest[t]] 0 <= t < rest.len() implies (list.contains(
                t as usize,
            ) <==> rest[t].in_memory()) by {
                assert(rest[t] == tensors[t]);
            }
            law_spill_list_holds_due_data(rest, list);
            assert(listed_data(tensors, list) =~= listed_data(rest, list));
            assert(due_data(tensors) =~= due_data(rest));
        }
    }
}

// What a round appends to the spill file comes into its place: the spilled data of the
// first `n` tensors after the round is what it was before, and what was due of them.
proof fn lemma_due_follows(
    a: Seq<HfqTensor>,
    b: Seq<HfqTensor>,
    plain: Seq<HfqTensor>,
    n: int,
)
    requires
        0 <= n <= a.len() <= plain.len(),
        b.len() == a.len(),
        in_order(a),
        forall|t: int|
            #![trigger a[t]]
            0 <= t < a.len() ==> if a[t].in_memory() {
                b[t].spilled_len > 0 && a[t].data@ == plain[t].data@
            } else {
                b[t] == a[t]
            },
    ensures
        spilled_data(b, plain, n) == spilled_data(a, plain, n) + due_data(a.take(n)),
    decreases n,
{
    if n == 0 {
        assert(a.take(0).len() == 0);
        assert(spilled_data(b, plain, 0) =~= spilled_data(a, plain, 0) + due_data(a.take(0)));
    } else {
        let m = n - 1;
        lemma_due_follows(a, b, plain, m);
        assert(a.take(n).drop_last() =~= a.take(m));
        assert(a.take(n).last() == a[m]);
        if a[m].spilled_len > 0 {
            let front = a.take(m);
            assert forall|t: int| #![trigger front[t]] 0 <= t < front.len() implies !front[t].in_memory() by {
                assert(front[t] == a[t]);
            }
            lemma_nothing_due(front);
        }
        assert(spilled_data(b, plain, n) =~= spilled_data(a, plain, n) + due_data(a.take(n)));
    }
}

proof fn lemma_spilling_stands(a: Spilling, b: Spilling, plain: Seq<HfqTensor>, threshold: int)
    requires
        stands_for(a, plain),
        spills(a, b, threshold),
    ensures
        stands_for(b, plain),
{
    if held(a.tensors) >= threshold {
        let n = a.tensors.len() as int;
        assert forall|t: int| #![trigger a.tensors[t]] 0 <= t < n implies if a.tensors[t].in_memory() {
            b.tensors[t].spilled_len > 0 && a.tensors[t].data@ == plain[t].data@
        } else {
            b.tensors[t] == a.tensors[t]
        } by {
            assert(tensor_stands_for(a.tensors[t], plain[t]));
            assert(b.tensors[t] == b.tensors[t]);
        }
        lemma_due_follows(a.tensors, b.tensors, plain, n);
        assert(a.tensors.take(n) =~= a.tensors);
        assert forall|t: int| #![trigger b.tensors[t]] 0 <= t < n implies tensor_stands_for(
            b.tensors[t],
            plain[t],
        ) && !b.tensors[t].in_memory() by {
            assert(tensor_stands_for(a.tensors[t], plain[t]));
        }
    }
}

proof fn lemma_conversion_stands(states: Seq<Spilling>, plain: Seq<HfqTensor>, i: int)
    requires
        is_conversion(states, plain),
        forall|t: int| #![trigger plain[t]] 0 <= t < plain.len() ==> plain[t].spilled_len == 0,
        0 <= i < states.len(),
    ensures
        stands_for(states[i], plain),
    decreases i,
{
    if i == 0 {
        assert(states[0].spill =~= Seq::<u8>::empty());
    } else {
        lemma_conversion_stands(states, plain, i - 1);
        let (a, b) = (states[i - 1], states[i]);
        if adds(a, b, plain) {
            lemma_adding_stands(a, b, plain);
        } else {
            let threshold = choose|threshold: int| #[trigger] spills(a, b, threshold);
            lemma_spilling_stands(a, b, plain, threshold);
        }
    }
}

// The spilled data of tensor `n` stands behind that of the tensors before it.
proof fn lemma_spilled_at(s: Spilling, plain: Seq<HfqTensor>, n: int, end: int)
    requires
        stands_for(s, plain),
        0 <= n < end <= s.tensors.len(),
    ensures
        ({
            let all = spilled_data(s.tensors, plain, end);
            let at = spilled_before(s.tensors, n);
            &&& spilled_data(s.tensors, plain, n).len() == at
            &&& at + s.tensors[n].spilled_len <= all.len()
            &&& s.tensors[n].spilled_len > 0 ==> all.subrange(at, at + s.tensors[n].spilled_len)
                == plain[n].data@
        }),
    decreases end,
{
    let all = spilled_data(s.tensors, plain, end);
    let at = spilled_before(s.tensors, n);
    assert(tensor_stands_for(s.tensors[n], plain[n]));
    if n + 1 == end {
        if n > 0 {
            lemma_spilled_at(s, plain, n - 1, n);
            assert(tensor_stands_for(s.tensors[n - 1], plain[n - 1]));
        }
        if s.tensors[n].spilled_len > 0 {
            assert(all.subrange(at, at + s.tensors[n].spilled_len) =~= plain[n].data@);
        }
    } else {
        lemma_spilled_at(s, plain, n, end - 1);
        let less = spilled_data(s.tensors, plain, end - 1);
        if s.tensors[n].spilled_len > 0 {
            assert(all.subrange(at, at + s.tensors[n].spilled_len) =~= less.subrange(
                at,
                at + s.tensors[n].spilled_len,
            ));
        }
    }
}

proof fn lemma_same_entries(a: Seq<HfqTensor>, b: Seq<HfqTensor>)
    requires
        a.len() == b.len(),
        forall|t: int|
            #![trigger a[t]]
            0 <= t < a.len() ==> same_tensor(a[t], b[t]) && a[t].data_len() == b[t].data_len(),
    ensures
        entries(a) == entries(b),
{
    assert forall|t: int| 0 <= t < a.len() implies #[trigger] entries(a)[t] == entries(b)[t] by {
        assert(same_tensor(a[t], b[t]) && a[t].data_len() == b[t].data_len());
    }
    assert(entries(a) =~= entries(b));
}

/// What precedes the data depends on the tensors only by name, type, shape, group size
/// and length of the data: where the data is makes no difference.
pub proof fn law_prefix_ignores_spilling(
    arch: u32,
    metadata: Seq<char>,
    a: Seq<HfqTensor>,
    b: Seq<HfqTensor>,
)
    requires
        a.len() == b.len(),
        forall|t: int|
            #![trigger a[t]]
            0 <= t < a.len() ==> same_tensor(a[t], b[t]) && a[t].data_len() == b[t].data_len(),
    ensures
        prefix_bytes(arch, metadata, a) == prefix_bytes(arch, metadata, b),
{
    lemma_same_entries(a, b);
}

/// Spilling never changes the file. Whenever tensors are spilled while a conversion
/// adds them, and whatever the thresholds, what is written at the end, with the data
/// of spilled tensors read from the start of the spill file on, is the file of the
/// tensors that were never spilled.
#[verifier::rlimit(40)]
pub proof fn law_spilling_keeps_file(
    arch: u32,
    metadata: Seq<char>,
    plain: Seq<HfqTensor>,
    states: Seq<Spilling>,
)
    requires
        forall|t: int| #![trigger plain[t]] 0 <= t < plain.len() ==> plain[t].spilled_len == 0,
        is_conversion(states, plain),
        states.last().tensors.len() == plain.len(),
    ensures
        written(states.last()) == payloads(plain),
        file_bytes(arch, metadata, states.last().tensors, written(states.last())) == file_bytes(
            arch,
            metadata,
            plain,
            payloads(plain),
        ),
{
    let last = states.last();
    let n = plain.len() as int;
    lemma_conversion_stands(states, plain, states.len() - 1);
    assert forall|t: int| 0 <= t < n implies #[trigger] written(last)[t] == payloads(plain)[t] by {
        assert(tensor_stands_for(last.tensors[t], plain[t]));
        lemma_spilled_at(last, plain, t, n);
    }
    assert(written(last) =~= payloads(plain));
    assert forall|t: int| #![trigger last.tensors[t]] 0 <= t < n implies same_tensor(
        last.tensors[t],
        plain[t],
    ) && last.tensors[t].data_len() == plain[t].data_len() by {
        assert(tensor_stands_for(last.tensors[t], plain[t]));
        assert(plain[t].spilled_len == 0);
    }
    law_prefix_ignores_spilling(arch, metadata, last.tensors, plain);
}

// The bytes of a file.

/// The code under which each type is stored.
pub proof fn law_type_codes()
    ensures
        type_code(QuantType::Q4F16G64) == 0,
        type_code(QuantType::F16) == 1,
        type_code(QuantType::F32) == 2,
        type_code(QuantType::Q8F16) == 3,
        type_code(QuantType::Q4K) == 4,
        type_code(QuantType::Q8HFQ) == 5,
        type_code(QuantType::HFQ4G256) == 6,
        type_code(QuantType::HFQ4G128) == 7,
        type_code(QuantType::HFQ6G256) == 8,
        type_code(QuantType::HFQ2G256) == 9,
        type_code(QuantType::HFQ2G128) == 10,
        type_code(QuantType::HFQ3G256) == 11,
        type_code(QuantType::HFQ3G128) == 12,
        type_code(QuantType::MQ4G256) == 13,
        type_code(QuantType::MQ8G256) == 14,
        type_code(QuantType::MQ6G256) == 15,
        type_code(QuantType::BF16) == 16,
        type_code(QuantType::MQ3G256) == 17,
        type_code(QuantType::MQ2G256) == 18,
        type_code(QuantType::MQ2G256Lloyd) == 19,
        type_code(QuantType::MQ3G256Lloyd) == 20,
        type_code(QuantType::HFQ1G128) == 21,
        type_code(QuantType::I32) == 22,
        type_code(QuantType::HFP4G32) == 30,
        type_code(QuantType::MFP4G32) == 33,
{
}

/// A file begins with `HFQM`, the version 1, the architecture, the number of tensors,
/// the place of the metadata, which is 32, and the place of the data: the first
/// multiple of 4096 behind the metadata and the index.
pub proof fn law_file_begins(arch: u32, metadata: Seq<char>, tensors: Seq<HfqTensor>)
    requires
        tensors.len() < 0x1_0000_0000,
        data_offset(metadata, tensors) <= u64::MAX,
    ensures
        ({
            let s = prefix_bytes(arch, metadata, tensors);
            let text = encode_utf8(metadata);
            let end = 32int + text.len() + index_bytes(tensors).len();
            &&& s[0] == 0x48
            &&& s[1] == 0x46
            &&& s[2] == 0x51
            &&& s[3] == 0x4d
            &&& read4(s, 4) == 1
            &&& read4(s, 8) == arch
            &&& read4(s, 12) == tensors.len()
            &&& read8(s, 16) == 32
            &&& read8(s, 24) == s.len()
            &&& s.len() as int % 4096 == 0
            &&& end <= s.len() < end + 4096
            &&& s.subrange(32, 32 + text.len() as int) == text
            &&& s.subrange(32 + text.len() as int, end) == index_bytes(tensors)
            &&& forall|z: int| end <= z < s.len() ==> #[trigger] s[z] == 0
        }),
{
    let s = prefix_bytes(arch, metadata, tensors);
    law_header_reads_back(arch, metadata, tensors);
    let m = s.subrange(0, 4);
    assert(m[0] == s[0] && m[1] == s[1] && m[2] == s[2] && m[3] == s[3]);
    let body = header_bytes(arch, tensors.len() as int, data_offset(metadata, tensors))
        + encode_utf8(metadata) + index_bytes(tensors);
    lemma_le8_len(32);
    lemma_le8_len(data_offset(metadata, tensors) as u64);
    assert(body.len() == 32 + encode_utf8(metadata).len() + index_bytes(tensors).len());
}

/// The index counts its tensors and then lists them: an entry takes 16 bytes, those
/// of the name, and four for each dimension.
pub proof fn law_index_lists_tensors(tensors: Seq<HfqTensor>, k: int)
    requires
        tensors.len() < 0x1_0000_0000,
        0 <= k < tensors.len(),
    ensures
        read4(index_bytes(tensors), 0) == tensors.len(),
        entry_start(tensors, 0) == 4,
        entry_start(tensors, k + 1) == entry_start(tensors, k) + 16 + encode_utf8(
            tensors[k].name@,
        ).len() + 4 * tensors[k].shape@.len(),
        entry_bytes(tensors[k]).len() == 16 + encode_utf8(tensors[k].name@).len() + 4
            * tensors[k].shape@.len(),
        entry_start(tensors, k + 1) <= index_bytes(tensors).len(),
        index_bytes(tensors).subrange(entry_start(tensors, k), entry_start(tensors, k + 1))
            == entry_bytes(tensors[k]),
{
    law_index_holds_entries(tensors, k);
    let s = index_bytes(tensors);
    let n = tensors.len() as u32;
    assert(s.subrange(0, 4) =~= le4(n));
    law_le4_round_trip(s, 0, n);
    lemma_entry_len(tensors[k]);
    lemma_starts_ascend(tensors, k + 1);
}

/// No entry starts behind the end of the index.
proof fn lemma_starts_ascend(tensors: Seq<HfqTensor>, k: int)
    requires
        0 <= k <= tensors.len(),
    ensures
        entry_start(tensors, k) <= entry_start(tensors, tensors.len() as int),
    decreases tensors.len() - k,
{
    if k < tensors.len() {
        lemma_starts_ascend(tensors, k + 1);
    }
}

/// The data of the tensors stands in their order, without gaps: that of each begins
/// where that of the one before ends.
pub proof fn law_data_is_adjacent(tensors: Seq<HfqTensor>, i: int)
    requires
        0 <= i < tensors.len(),
    ensures
        data_before(tensors, 0) == 0,
        tensors[i].spilled_len > 0 ==> data_before(tensors, i + 1) == data_before(tensors, i)
            + tensors[i].spilled_len,
        tensors[i].spilled_len == 0 ==> data_before(tensors, i + 1) == data_before(tensors, i)
            + tensors[i].data@.len(),
{
}

/// The length of a name is written as its low 16 bits and the number of dimensions as
/// its low eight, behind the name and the code of the type.
pub proof fn law_entry_counts_wrap(t: HfqTensor)
    ensures
        ({
            let s = entry_bytes(t);
            let n = encode_utf8(t.name@).len() as int;
            &&& read2(s, 0) == n % 0x1_0000
            &&& s.subrange(2, 2 + n) == encode_utf8(t.name@)
            &&& s[2 + n] == type_code(t.quant_type)
            &&& s[3 + n] == t.shape@.len() as int % 0x100
        }),
{
    let s = entry_bytes(t);
    let name = encode_utf8(t.name@);
    let l = (name.len() as int % 0x1_0000) as u16;
    lemma_entry_len(t);
    assert(s.subrange(0, 2) =~= le2(l));
    law_le2_round_trip(s, 0, l);
    assert(s.subrange(2, 2 + name.len() as int) =~= name);
}

/// The number of tensors is written as its low 32 bits, in the header and before the
/// index.
pub proof fn law_tensor_count_wraps(arch: u32, metadata: Seq<char>, tensors: Seq<HfqTensor>)
    ensures
        read4(index_bytes(tensors), 0) == tensors.len() as int % 0x1_0000_0000,
        read4(prefix_bytes(arch, metadata, tensors), 12) == tensors.len() as int % 0x1_0000_0000,
{
    let n = (tensors.len() as int % 0x1_0000_0000) as u32;
    let s = index_bytes(tensors);
    assert(s.subrange(0, 4) =~= le4(n));
    law_le4_round_trip(s, 0, n);
    let start = data_offset(metadata, tensors);
    let head = header_bytes(arch, tensors.len() as int, start);
    lemma_le8_len(32);
    lemma_le8_len(start as u64);
    let p = prefix_bytes(arch, metadata, tensors);
    assert(head.subrange(12, 16) =~= le4(n));
    assert(p.subrange(12, 16) =~= head.subrange(12, 16));
    law_le4_round_trip(p, 12, n);
}

} // verus!
