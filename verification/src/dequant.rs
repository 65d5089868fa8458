//! Reading stored weights: raw tensor bytes of the plain float types, and the
//! paired four-bit and eight-bit formats with block scales.
use vstd::prelude::*;

use crate::bytes::{get_le2, get_le4, push_le2};
#[allow(unused_imports)]
use crate::bytes::{le2, read2, read4};
use crate::ieee::{bf16_to_f32, f16_to_f32, f32_to_f16};
#[allow(unused_imports)]
use crate::ieee::{truncate16, widen};
use crate::minifloat::{e2m1_to_f32, e4m3_to_f32, ue8m0_to_scale};
#[allow(unused_imports)]
use crate::minifloat::{e2m1, e4m3, ue8m0};
use crate::text::same;

verus! {

/// The number of bytes of one element of a plain float type.
pub open spec fn float_width(dtype: Seq<char>) -> Option<int> {
    if dtype == "F16"@ || dtype == "BF16"@ {
        Some(2)
    } else if dtype == "F32"@ {
        Some(4)
    } else {
        None
    }
}

/// The `f32` that element `i` of a tensor of a plain float type widens to.
pub open spec fn float_at(data: Seq<u8>, dtype: Seq<char>, i: int) -> u32 {
    if dtype == "F16"@ {
        widen(read2(data, 2 * i))
    } else if dtype == "BF16"@ {
        (read2(data, 2 * i) * 0x1_0000) as u32
    } else {
        read4(data, 4 * i)
    }
}

/// The number of bytes of one element, or `None` for a type that is no plain
/// float type.
pub fn element_size(dtype: &str) -> (r: Option<usize>)
    ensures
        match r {
            Some(w) => float_width(dtype@) == Some(w as int),
            None => float_width(dtype@) is None,
        },
{
    if same(dtype, "F16") || same(dtype, "BF16") {
        Some(2)
    } else if same(dtype, "F32") {
        Some(4)
    } else {
        None
    }
}

/// Converts raw tensor bytes to `f32` by the name of their type. Bytes behind
/// the last whole element are ignored; `None` where the type is no plain float
/// type.
pub fn to_f32(data: &[u8], dtype: &str) -> (r: Option<Vec<u32>>)
    ensures
        match r {
            Some(out) => {
                &&& float_width(dtype@) is Some
                &&& out@.len() == data@.len() as int / float_width(dtype@)->0
                &&& forall|i: int|
                    0 <= i < out@.len() ==> #[trigger] out@[i] == float_at(data@, dtype@, i)
            },
            None => float_width(dtype@) is None,
        },
{
    let width: usize = match element_size(dtype) {
        Some(w) => w,
        None => {
            return None;
        },
    };
    let is_half = same(dtype, "F16");
    let is_bfloat = same(dtype, "BF16");
    let len: usize = data.len();
    let n: usize = len / width;
    let mut out: Vec<u32> = Vec::new();
    let mut i: usize = 0;
    while i < n
        invariant
            len == data@.len(),
            n == len / width,
            width == 2 || width == 4,
            float_width(dtype@) == Some(width as int),
            is_half == (dtype@ == "F16"@),
            is_bfloat == (dtype@ == "BF16"@),
            i <= n,
            out@.len() == i,
            forall|k: int| 0 <= k < i ==> #[trigger] out@[k] == float_at(data@, dtype@, k),
        decreases n - i,
    {
        assert(i * width + width <= len) by (nonlinear_arith)
            requires
                i < n,
                n == len / width,
                width > 0,
        ;
        let x: u32 = if is_half {
            f16_to_f32(get_le2(data, 2 * i))
        } else if is_bfloat {
            bf16_to_f32(get_le2(data, 2 * i))
        } else {
            get_le4(data, 4 * i)
        };
        out.push(x);
        i = i + 1;
    }
    Some(out)
}

/// Writes `f32` values as little-endian `f16`, toward zero.
pub fn to_f16_bytes(values: &[u32]) -> (out: Vec<u8>)
    requires
        2 * values@.len() <= usize::MAX,
    ensures
        out@.len() == 2 * values@.len(),
        forall|i: int|
            #![trigger values@[i]]
            0 <= i < values@.len() ==> out@.subrange(2 * i, 2 * i + 2) == le2(
                truncate16(values@[i]),
            ),
{
    let n: usize = values.len();
    let mut out: Vec<u8> = Vec::new();
    let mut i: usize = 0;
    while i < n
        invariant
            n == values@.len(),
            i <= n,
            out@.len() == 2 * i,
            forall|k: int|
                #![trigger values@[k]]
                0 <= k < i ==> out@.subrange(2 * k, 2 * k + 2) == le2(truncate16(values@[k])),
        decreases n - i,
    {
        let ghost before = out@;
        push_le2(&mut out, f32_to_f16(values[i]));
        proof {
            assert forall|k: int|
                #![trigger values@[k]]
                0 <= k < i + 1 implies out@.subrange(2 * k, 2 * k + 2) == le2(
                truncate16(values@[k]),
            ) by {
                if k < i {
                    assert(out@.subrange(2 * k, 2 * k + 2) =~= before.subrange(2 * k, 2 * k + 2));
                } else {
                    assert(out@.subrange(2 * k, 2 * k + 2) =~= le2(truncate16(values@[k])));
                }
            }
        }
        i = i + 1;
    }
    out
}

/// Narrows little-endian `i64` values to little-endian `i32` values by keeping
/// the low half of each. Bytes behind the last whole value are dropped.
pub fn i64_to_i32_bytes(data: &[u8]) -> (out: Vec<u8>)
    ensures
        out@.len() == data@.len() / 8 * 4,
        forall|k: int| 0 <= k < out@.len() ==> #[trigger] out@[k] == data@[k / 4 * 8 + k % 4],
{
    let len: usize = data.len();
    let n: usize = len / 8;
    let mut out: Vec<u8> = Vec::new();
    let mut i: usize = 0;
    while i < n
        invariant
            len == data@.len(),
            n == len / 8,
            i <= n,
            out@.len() == 4 * i,
            forall|k: int| 0 <= k < out@.len() ==> #[trigger] out@[k] == data@[k / 4 * 8 + k % 4],
        decreases n - i,
    {
        out.push(data[8 * i]);
        out.push(data[8 * i + 1]);
        out.push(data[8 * i + 2]);
        out.push(data[8 * i + 3]);
        i = i + 1;
    }
    out
}

/// A weight as the product of two `f32` values.
#[derive(Clone, Copy, Debug, PartialEq, Eq, Structural)]
pub struct Scaled {
    pub value: u32,
    pub scale: u32,
}

/// `sr` by `sc` equal blocks tile a matrix of `rows` by `cols`.
pub open spec fn tiles(rows: int, cols: int, sr: int, sc: int) -> bool {
    sr > 0 && sc > 0 && rows % sr == 0 && cols % sc == 0
}

/// The index of the block, in row-major order, that holds row `r` and column
/// `c` of a matrix of `rows` by `cols` under `sr` by `sc` blocks.
pub open spec fn block_of(r: int, c: int, rows: int, cols: int, sr: int, sc: int) -> int {
    r / (rows / sr) * sc + c / (cols / sc)
}

/// The nibble of logical column `c`: the low half of a byte is the even column,
/// the high half the odd one.
pub open spec fn nibble_at(bytes: Seq<u8>, r: int, c: int, cols_stored: int) -> u8 {
    let byte = bytes[r * cols_stored + c / 2];
    if c % 2 == 0 {
        (byte % 16) as u8
    } else {
        (byte / 16) as u8
    }
}

proof fn lemma_block_in_range(r: int, c: int, rows: int, cols: int, sr: int, sc: int)
    requires
        tiles(rows, cols, sr, sc),
        0 <= r < rows,
        0 <= c < cols,
    ensures
        rows / sr > 0,
        cols / sc > 0,
        0 <= r / (rows / sr) < sr,
        0 <= c / (cols / sc) < sc,
        0 <= block_of(r, c, rows, cols, sr, sc) < sr * sc,
{
    let br = rows / sr;
    let bc = cols / sc;
    assert(rows == sr * br && br > 0) by (nonlinear_arith)
        requires
            rows % sr == 0,
            br == rows / sr,
            sr > 0,
            rows > 0,
    ;
    assert(cols == sc * bc && bc > 0) by (nonlinear_arith)
        requires
            cols % sc == 0,
            bc == cols / sc,
            sc > 0,
            cols > 0,
    ;
    let i = r / br;
    let j = c / bc;
    assert(0 <= i < sr) by (nonlinear_arith)
        requires
            i == r / br,
            0 <= r < sr * br,
            br > 0,
    ;
    assert(0 <= j < sc) by (nonlinear_arith)
        requires
            j == c / bc,
            0 <= c < sc * bc,
            bc > 0,
    ;
    assert(0 <= i * sc + j < sr * sc) by (nonlinear_arith)
        requires
            0 <= i < sr,
            0 <= j < sc,
    ;
}

proof fn lemma_cell_in_range(r: int, c: int, rows: int, cols: int)
    requires
        0 <= r < rows,
        0 <= c < cols,
    ensures
        0 <= r * cols + c < rows * cols,
        0 <= r * cols <= r * cols + c,
{
    assert(0 <= r * cols + c < rows * cols && 0 <= r * cols) by (nonlinear_arith)
        requires
            0 <= r < rows,
            0 <= c < cols,
    ;
}

/// Row-major entries in order: the entry behind (r, c) is (r, c + 1), or the
/// first of the next row.
proof fn lemma_row_end(r: int, cols: int)
    ensures
        r * cols + cols == (r + 1) * cols,
{
    assert(r * cols + cols == (r + 1) * cols) by (nonlinear_arith);
}

/// Dequantizes a paired E2M1 weight and UE8M0 scale tensor.
///
/// `storage_shape` is the byte shape `[rows, cols_stored]`, two nibbles per
/// byte; the logical shape that is returned has twice the columns. Each scale
/// governs one block of the logical matrix. The entries are row-major.
pub fn dequantize_e2m1_ue8m0_to_f32(
    weight_bytes: &[u8],
    storage_shape: &[usize],
    scale_bytes: &[u8],
    scale_shape: &[usize],
) -> (r: (Vec<Scaled>, Vec<usize>))
    requires
        storage_shape@.len() == 2,
        scale_shape@.len() == 2,
        weight_bytes@.len() == storage_shape@[0] * storage_shape@[1],
        scale_bytes@.len() == scale_shape@[0] * scale_shape@[1],
        2 * storage_shape@[1] <= usize::MAX,
        2 * weight_bytes@.len() <= usize::MAX,
        tiles(
            storage_shape@[0] as int,
            2 * storage_shape@[1],
            scale_shape@[0] as int,
            scale_shape@[1] as int,
        ),
    ensures
        ({
            let rows = storage_shape@[0] as int;
            let stored = storage_shape@[1] as int;
            let cols = 2 * stored;
            let (sr, sc) = (scale_shape@[0] as int, scale_shape@[1] as int);
            &&& r.1@ == seq![rows as usize, cols as usize]
            &&& r.0@.len() == rows * cols
            &&& forall|i: int, c: int|
                #![trigger nibble_at(weight_bytes@, i, c, stored)]
                0 <= i < rows && 0 <= c < cols ==> r.0@[i * cols + c] == (Scaled {
                    value: e2m1(nibble_at(weight_bytes@, i, c, stored)),
                    scale: ue8m0(scale_bytes@[block_of(i, c, rows, cols, sr, sc)]),
                })
        }),
{
    let rows: usize = storage_shape[0];
    let stored: usize = storage_shape[1];
    let cols: usize = 2 * stored;
    let sr: usize = scale_shape[0];
    let sc: usize = scale_shape[1];
    let block_rows: usize = rows / sr;
    let block_cols: usize = cols / sc;
    let mut out: Vec<Scaled> = Vec::new();
    let mut i: usize = 0;
    assert(rows * cols == 2 * (rows * stored)) by (nonlinear_arith)
        requires
            cols == 2 * stored,
    ;
    assert(0 * cols == 0) by (nonlinear_arith);
    while i < rows
        invariant
            i <= rows,
            cols == 2 * stored,
            block_rows == rows / sr,
            block_cols == cols / sc,
            tiles(rows as int, cols as int, sr as int, sc as int),
            weight_bytes@.len() == rows * stored,
            scale_bytes@.len() == sr * sc,
            rows * cols <= usize::MAX,
            out@.len() == i * cols,
            forall|a: int, c: int|
                #![trigger nibble_at(weight_bytes@, a, c, stored as int)]
                0 <= a < i && 0 <= c < cols ==> out@[a * cols + c] == (Scaled {
                    value: e2m1(nibble_at(weight_bytes@, a, c, stored as int)),
                    scale: ue8m0(
                        scale_bytes@[block_of(
                            a,
                            c,
                            rows as int,
                            cols as int,
                            sr as int,
                            sc as int,
                        )],
                    ),
                }),
        decreases rows - i,
    {
        let mut c: usize = 0;
        while c < cols
            invariant
                i < rows,
                c <= cols,
                cols == 2 * stored,
                block_rows == rows / sr,
                block_cols == cols / sc,
                tiles(rows as int, cols as int, sr as int, sc as int),
                weight_bytes@.len() == rows * stored,
                scale_bytes@.len() == sr * sc,
                rows * cols <= usize::MAX,
                out@.len() == i * cols + c,
                forall|a: int, b: int|
                    #![trigger nibble_at(weight_bytes@, a, b, stored as int)]
                    0 <= a <= i && 0 <= b < cols && (a < i || b < c) ==> out@[a * cols + b] == (
                    Scaled {
                        value: e2m1(nibble_at(weight_bytes@, a, b, stored as int)),
                        scale: ue8m0(
                            scale_bytes@[block_of(
                                a,
                                b,
                                rows as int,
                                cols as int,
                                sr as int,
                                sc as int,
                            )],
                        ),
                    }),
            decreases cols - c,
        {
            let n: usize = weight_bytes.len();
            let m: usize = scale_bytes.len();
            proof {
                lemma_block_in_range(
                    i as int,
                    c as int,
                    rows as int,
                    cols as int,
                    sr as int,
                    sc as int,
                );
                lemma_cell_in_range(i as int, c as int / 2, rows as int, stored as int);
                lemma_cell_in_range(
                    i as int / (rows as int / sr as int),
                    c as int / (cols as int / sc as int),
                    sr as int,
                    sc as int,
                );
            }
            let byte: u8 = weight_bytes[i * stored + c / 2];
            let nibble: u8 = if c % 2 == 0 {
                byte % 16
            } else {
                byte / 16
            };
            assert(nibble == nibble_at(weight_bytes@, i as int, c as int, stored as int));
            let scale: u8 = scale_bytes[i / block_rows * sc + c / block_cols];
            let ghost before = out@;
            out.push(Scaled { value: e2m1_to_f32(nibble), scale: ue8m0_to_scale(scale) });
            proof {
                assert forall|a: int, b: int|
                    #![trigger nibble_at(weight_bytes@, a, b, stored as int)]
                    0 <= a <= i && 0 <= b < cols && (a < i || b < c + 1) implies out@[a * cols + b]
                    == (Scaled {
                    value: e2m1(nibble_at(weight_bytes@, a, b, stored as int)),
                    scale: ue8m0(
                        scale_bytes@[block_of(
                            a,
                            b,
                            rows as int,
                            cols as int,
                            sr as int,
                            sc as int,
                        )],
                    ),
                }) by {
                    if a < i {
                        lemma_cell_in_range(a, b, i as int, cols as int);
                    } else {
                        lemma_cell_in_range(a, b, i + 1, cols as int);
                    }
                    if a == i && b == c {
                    } else {
                        assert(out@[a * cols + b] == before[a * cols + b]);
                    }
                }
            }
            c = c + 1;
        }
        proof {
            lemma_row_end(i as int, cols as int);
        }
        i = i + 1;
    }
    let mut shape: Vec<usize> = Vec::new();
    shape.push(rows);
    shape.push(cols);
    assert(shape@ =~= seq![rows, cols]);
    (out, shape)
}

/// Dequantizes a paired E4M3 weight and UE8M0 scale tensor.
///
/// `weight_shape` is `[rows, cols]`; each scale governs one block. The entries
/// are row-major.
pub fn dequantize_e4m3_ue8m0_to_f32(
    weight_bytes: &[u8],
    weight_shape: &[usize],
    scale_bytes: &[u8],
    scale_shape: &[usize],
) -> (out: Vec<Scaled>)
    requires
        weight_shape@.len() == 2,
        scale_shape@.len() == 2,
        weight_bytes@.len() == weight_shape@[0] * weight_shape@[1],
        scale_bytes@.len() == scale_shape@[0] * scale_shape@[1],
        tiles(
            weight_shape@[0] as int,
            weight_shape@[1] as int,
            scale_shape@[0] as int,
            scale_shape@[1] as int,
        ),
    ensures
        ({
            let (rows, cols) = (weight_shape@[0] as int, weight_shape@[1] as int);
            let (sr, sc) = (scale_shape@[0] as int, scale_shape@[1] as int);
            &&& out@.len() == rows * cols
            &&& forall|i: int, c: int|
                #![trigger block_of(i, c, rows, cols, sr, sc)]
                0 <= i < rows && 0 <= c < cols ==> out@[i * cols + c] == (Scaled {
                    value: e4m3(weight_bytes@[i * cols + c]),
                    scale: ue8m0(scale_bytes@[block_of(i, c, rows, cols, sr, sc)]),
                })
            &&& forall|p: int, q: int, di: int, dj: int|
                #![trigger out@[(p * (rows / sr) + di) * cols + (q * (cols / sc) + dj)]]
                0 <= p < sr && 0 <= q < sc && 0 <= di < rows / sr && 0 <= dj < cols / sc
                    ==> out@[(p * (rows / sr) + di) * cols + (q * (cols / sc) + dj)] == (Scaled {
                    value: e4m3(
                        weight_bytes@[(p * (rows / sr) + di) * cols + (q * (cols / sc) + dj)],
                    ),
                    scale: ue8m0(scale_bytes@[p * sc + q]),
                })
        }),
{
    let rows: usize = weight_shape[0];
    let cols: usize = weight_shape[1];
    let sr: usize = scale_shape[0];
    let sc: usize = scale_shape[1];
    let block_rows: usize = rows / sr;
    let block_cols: usize = cols / sc;
    let mut out: Vec<Scaled> = Vec::new();
    let mut i: usize = 0;
    assert(0 * cols == 0) by (nonlinear_arith);
    let n: usize = weight_bytes.len();
    while i < rows
        invariant
            i <= rows,
            block_rows == rows / sr,
            block_cols == cols / sc,
            tiles(rows as int, cols as int, sr as int, sc as int),
            n == weight_bytes@.len(),
            n == rows * cols,
            scale_bytes@.len() == sr * sc,
            out@.len() == i * cols,
            forall|a: int, c: int|
                #![trigger block_of(a, c, rows as int, cols as int, sr as int, sc as int)]
                0 <= a < i && 0 <= c < cols ==> out@[a * cols + c] == (Scaled {
                    value: e4m3(weight_bytes@[a * cols + c]),
                    scale: ue8m0(
                        scale_bytes@[block_of(
                            a,
                            c,
                            rows as int,
                            cols as int,
                            sr as int,
                            sc as int,
                        )],
                    ),
                }),
        decreases rows - i,
    {
        let mut c: usize = 0;
        while c < cols
            invariant
                i < rows,
                c <= cols,
                block_rows == rows / sr,
                block_cols == cols / sc,
                tiles(rows as int, cols as int, sr as int, sc as int),
                n == weight_bytes@.len(),
                n == rows * cols,
                scale_bytes@.len() == sr * sc,
                out@.len() == i * cols + c,
                forall|a: int, b: int|
                    #![trigger block_of(a, b, rows as int, cols as int, sr as int, sc as int)]
                    0 <= a <= i && 0 <= b < cols && (a < i || b < c) ==> out@[a * cols + b] == (
                    Scaled {
                        value: e4m3(weight_bytes@[a * cols + b]),
                        scale: ue8m0(
                            scale_bytes@[block_of(
                                a,
                                b,
                                rows as int,
                                cols as int,
                                sr as int,
                                sc as int,
                            )],
                        ),
                    }),
            decreases cols - c,
        {
            let m: usize = scale_bytes.len();
            proof {
                lemma_block_in_range(
                    i as int,
                    c as int,
                    rows as int,
                    cols as int,
                    sr as int,
                    sc as int,
                );
                lemma_cell_in_range(i as int, c as int, rows as int, cols as int);
                lemma_cell_in_range(
                    i as int / (rows as int / sr as int),
                    c as int / (cols as int / sc as int),
                    sr as int,
                    sc as int,
                );
            }
            let byte: u8 = weight_bytes[i * cols + c];
            let scale: u8 = scale_bytes[i / block_rows * sc + c / block_cols];
            let ghost before = out@;
            out.push(Scaled { value: e4m3_to_f32(byte), scale: ue8m0_to_scale(scale) });
            proof {
                assert forall|a: int, b: int|
                    #![trigger block_of(a, b, rows as int, cols as int, sr as int, sc as int)]
                    0 <= a <= i && 0 <= b < cols && (a < i || b < c + 1) implies out@[a * cols + b]
                    == (Scaled {
                    value: e4m3(weight_bytes@[a * cols + b]),
                    scale: ue8m0(
                        scale_bytes@[block_of(
                            a,
                            b,
                            rows as int,
                            cols as int,
                            sr as int,
                            sc as int,
                        )],
                    ),
                }) by {
                    if a < i {
                        lemma_cell_in_range(a, b, i as int, cols as int);
                    } else {
                        lemma_cell_in_range(a, b, i + 1, cols as int);
                    }
                    if a == i && b == c {
                    } else {
                        assert(out@[a * cols + b] == before[a * cols + b]);
                    }
                }
            }
            c = c + 1;
        }
        proof {
            lemma_row_end(i as int, cols as int);
        }
        i = i + 1;
    }
    proof {
        let (h, v) = (rows as int / sr as int, cols as int / sc as int);
        assert forall|p: int, q: int, di: int, dj: int|
            #![trigger out@[(p * h + di) * cols + (q * v + dj)]]
            0 <= p < sr && 0 <= q < sc && 0 <= di < h && 0 <= dj < v implies out@[(p * h + di)
            * cols + (q * v + dj)] == (Scaled {
            value: e4m3(weight_bytes@[(p * h + di) * cols + (q * v + dj)]),
            scale: ue8m0(scale_bytes@[p * sc + q]),
        }) by {
            law_scale_governs_block(
                rows as int,
                cols as int,
                sr as int,
                sc as int,
                p,
                q,
                di,
                dj,
            );
            let b = block_of(
                p * h + di,
                q * v + dj,
                rows as int,
                cols as int,
                sr as int,
                sc as int,
            );
            assert(b == p * sc + q);
        }
    }
    out
}

/// Where the values of a stored weight come from.
#[derive(Clone, Copy, Debug, PartialEq, Eq, Structural)]
pub enum WeightSource {
    /// E4M3 bytes with a UE8M0 scale tensor beside them.
    Paired,
    /// Eight-bit integers without a scale tensor, which cannot be read.
    Unpaired,
    /// A plain tensor, read by its type.
    Plain,
}

/// The type tag under which E4M3 bytes are stored.
pub open spec fn is_fp8_type(dtype: Seq<char>) -> bool {
    dtype == "I8"@ || dtype == "F8_E4M3"@
}

/// How to read a weight of this type, given whether a scale tensor is
/// registered for it.
pub open spec fn source_of(dtype: Seq<char>, has_scale: bool) -> WeightSource {
    if is_fp8_type(dtype) && has_scale {
        WeightSource::Paired
    } else if dtype == "I8"@ {
        WeightSource::Unpaired
    } else {
        WeightSource::Plain
    }
}

/// Decides how a weight is read.
pub fn weight_source(dtype: &str, has_scale: bool) -> (r: WeightSource)
    ensures
        r == source_of(dtype@, has_scale),
{
    if has_scale && (same(dtype, "I8") || same(dtype, "F8_E4M3")) {
        WeightSource::Paired
    } else if same(dtype, "I8") {
        WeightSource::Unpaired
    } else {
        WeightSource::Plain
    }
}

// What the readers promise.

/// The plain float types: two bytes for `F16` and `BF16`, four for `F32`, and no
/// other type is read. An `F16` widens, a `BF16` is the upper half of an `f32`, and
/// an `F32` is itself; element `i` stands `i` elements behind the first.
pub proof fn law_plain_floats(data: Seq<u8>, dtype: Seq<char>, i: int)
    ensures
        float_width("F16"@) == Some(2int),
        float_width("BF16"@) == Some(2int),
        float_width("F32"@) == Some(4int),
        dtype != "F16"@ && dtype != "BF16"@ && dtype != "F32"@ ==> float_width(dtype) is None,
        float_at(data, "F16"@, i) == widen(read2(data, 2 * i)),
        float_at(data, "BF16"@, i) == read2(data, 2 * i) * 0x1_0000,
        float_at(data, "F32"@, i) == read4(data, 4 * i),
{
    reveal_strlit("F16");
    reveal_strlit("BF16");
    reveal_strlit("F32");
    assert("F16"@.len() != "BF16"@.len());
    assert("F32"@.len() != "BF16"@.len());
    assert("F16"@[1] != "F32"@[1]);
}

/// Every scale governs one block of the matrix: the entry at offset `di`, `dj` of
/// the block in block row `p` and block column `q` takes scale `p * sc + q`.
pub proof fn law_scale_governs_block(
    rows: int,
    cols: int,
    sr: int,
    sc: int,
    p: int,
    q: int,
    di: int,
    dj: int,
)
    requires
        sr > 0,
        sc > 0,
        rows % sr == 0,
        cols % sc == 0,
        0 <= p < sr,
        0 <= q < sc,
        0 <= di < rows / sr,
        0 <= dj < cols / sc,
    ensures
        0 <= p * (rows / sr) + di < rows,
        0 <= q * (cols / sc) + dj < cols,
        block_of(p * (rows / sr) + di, q * (cols / sc) + dj, rows, cols, sr, sc) == p * sc + q,
{
    let br = rows / sr;
    let bc = cols / sc;
    assert(rows == sr * br) by (nonlinear_arith)
        requires
            rows % sr == 0,
            br == rows / sr,
            sr > 0,
    ;
    assert(cols == sc * bc) by (nonlinear_arith)
        requires
            cols % sc == 0,
            bc == cols / sc,
            sc > 0,
    ;
    let r = p * br + di;
    let c = q * bc + dj;
    assert(0 <= r < rows && r / br == p) by (nonlinear_arith)
        requires
            r == p * br + di,
            rows == sr * br,
            0 <= p < sr,
            0 <= di < br,
    ;
    assert(0 <= c < cols && c / bc == q) by (nonlinear_arith)
        requires
            c == q * bc + dj,
            cols == sc * bc,
            0 <= q < sc,
            0 <= dj < bc,
    ;
}

/// Of two values that share a byte, the even column is the low half and the odd
/// column the high half.
pub proof fn law_nibbles_share_bytes(bytes: Seq<u8>, r: int, h: int, stored: int)
    requires
        0 <= h < stored,
    ensures
        nibble_at(bytes, r, 2 * h, stored) == bytes[r * stored + h] % 16,
        nibble_at(bytes, r, 2 * h + 1, stored) == bytes[r * stored + h] / 16,
{
    assert((2 * h) / 2 == h && (2 * h + 1) / 2 == h);
    assert((2 * h) % 2 == 0 && (2 * h + 1) % 2 == 1);
}

/// A stored weight is read with its scales where it has an eight-bit type and
/// scales are there; without scales `I8` cannot be read, and everything else is
/// read by its own type.
pub proof fn law_weight_sources(dtype: Seq<char>)
    ensures
        source_of("I8"@, true) == WeightSource::Paired,
        source_of("F8_E4M3"@, true) == WeightSource::Paired,
        source_of("I8"@, false) == WeightSource::Unpaired,
        source_of("F8_E4M3"@, false) == WeightSource::Plain,
        dtype != "I8"@ && dtype != "F8_E4M3"@ ==> source_of(dtype, true) == WeightSource::Plain
            && source_of(dtype, false) == WeightSource::Plain,
{
    reveal_strlit("I8");
    reveal_strlit("F8_E4M3");
    assert("I8"@.len() != "F8_E4M3"@.len());
}

} // verus!
