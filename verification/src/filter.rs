//! The scanline filter: every complete row of the pixel stream becomes a tag
//! byte fixed to 1 (the Sub predictor) followed by the row with each byte
//! replaced by its difference, modulo 256, to the byte at the same channel
//! offset in the previous pixel of the row. The filter is deliberately not
//! adaptive: one fixed predictor, chosen for simplicity over ratio. The
//! transform is exactly invertible; the inverse and the round-trip law are
//! below.

use vstd::prelude::*;

use vstd::arithmetic::div_mod::lemma_fundamental_div_mod;
use vstd::arithmetic::div_mod::lemma_fundamental_div_mod_converse;
use vstd::arithmetic::div_mod::lemma_mod_multiples_vanish;
use vstd::arithmetic::div_mod::lemma_small_mod;
use vstd::arithmetic::mul::lemma_mul_inequality;
use vstd::arithmetic::mul::lemma_mul_nonnegative;

verus! {

/// Difference of two bytes, modulo 256.
pub open spec fn byte_sub(a: u8, b: u8) -> u8 {
    (((a as int) - (b as int)) % 256) as u8
}

/// Sum of two bytes, modulo 256.
pub open spec fn byte_add(a: u8, b: u8) -> u8 {
    (((a as int) + (b as int)) % 256) as u8
}

proof fn lemma_byte_sub_is_wrapping(a: u8, b: u8)
    ensures
        byte_sub(a, b) == vstd::wrapping::u8_specs::wrapping_sub(a, b),
{
    if a >= b {
        lemma_small_mod((a - b) as nat, 256);
    } else {
        lemma_mod_multiples_vanish(1, a - b, 256);
        lemma_small_mod((a - b + 256) as nat, 256);
    }
}

proof fn lemma_byte_add_is_wrapping(a: u8, b: u8)
    ensures
        byte_add(a, b) == vstd::wrapping::u8_specs::wrapping_add(a, b),
{
    if a + b < 256 {
        lemma_small_mod((a + b) as nat, 256);
    } else {
        lemma_mod_multiples_vanish(1, a + b - 256, 256);
        lemma_small_mod((a + b - 256) as nat, 256);
    }
}

/// Adding a byte back after subtracting it returns the original byte.
proof fn lemma_byte_sub_add(a: u8, b: u8)
    ensures
        byte_add(byte_sub(a, b), b) == a,
{
    if a >= b {
        lemma_small_mod((a - b) as nat, 256);
    } else {
        lemma_mod_multiples_vanish(1, a - b, 256);
        lemma_small_mod((a - b + 256) as nat, 256);
        lemma_mod_multiples_vanish(1, a as int, 256);
    }
    lemma_small_mod(a as nat, 256);
}

/// The byte at position `k` of the filtered stream, for rows of `row_len`
/// bytes and pixels of `bpp` bytes: a tag byte 1 at the start of each row,
/// otherwise the Sub difference to the previous pixel's byte of the same
/// channel (0 before the first pixel of the row).
pub open spec fn filtered_byte(data: Seq<u8>, row_len: int, bpp: int, k: int) -> u8 {
    let r = k / (1 + row_len);
    let p = k % (1 + row_len);
    if p == 0 {
        1u8
    } else {
        let j = p - 1;
        let cur = data[r * row_len + j];
        let prev = if j < bpp {
            0u8
        } else {
            data[r * row_len + j - bpp]
        };
        byte_sub(cur, prev)
    }
}

/// The Sub-filtered form of the whole pixel stream: each of the
/// `data.len() / row_len` complete rows contributes `1 + row_len` bytes.
pub open spec fn filtered_scanlines(data: Seq<u8>, row_len: int, bpp: int) -> Seq<u8> {
    Seq::new(
        ((data.len() as int / row_len) * (1 + row_len)) as nat,
        |k: int| filtered_byte(data, row_len, bpp, k),
    )
}

/// The filtered bytes of row `r`, without the leading tag byte.
pub open spec fn row_of(f: Seq<u8>, row_len: int, r: int) -> Seq<u8> {
    f.subrange(r * (1 + row_len) + 1, r * (1 + row_len) + 1 + row_len)
}

/// The byte at offset `j` of a row reconstructed from its filtered form
/// `f_row`: the inverse Sub predictor adds the previous pixel's
/// reconstructed byte of the same channel back, left to right.
pub open spec fn unfiltered_row_byte(f_row: Seq<u8>, bpp: int, j: int) -> u8
    decreases j when 1 <= bpp
{
    if j < bpp {
        f_row[j]
    } else {
        byte_add(f_row[j], unfiltered_row_byte(f_row, bpp, j - bpp))
    }
}

/// The pixel stream reconstructed from a filtered stream `f` of
/// `f.len() / (1 + row_len)` rows.
pub open spec fn unfiltered_scanlines(f: Seq<u8>, row_len: int, bpp: int) -> Seq<u8> {
    Seq::new(
        ((f.len() as int / (1 + row_len)) * row_len) as nat,
        |i: int| unfiltered_row_byte(row_of(f, row_len, i / row_len), bpp, i % row_len),
    )
}

/// Applies the Sub filter to every complete row of `data`; trailing bytes
/// that do not fill a row are ignored.
pub fn sub_filter_scanlines(data: &Vec<u8>, row_len: usize, bpp: usize) -> (out: Vec<u8>)
    requires
        1 <= bpp <= row_len,
    ensures
        out@ == filtered_scanlines(data@, row_len as int, bpp as int),
{
    let n = data.len();
    let mut out: Vec<u8> = Vec::new();
    let mut base: usize = 0;
    let ghost mut r: int = 0;
    while n - base >= row_len
        invariant
            1 <= bpp <= row_len,
            n == data@.len(),
            0 <= r,
            base == r * row_len,
            base <= n,
            out@.len() == r * (1 + row_len),
            forall|k: int|
                0 <= k < out@.len() ==> out@[k] == filtered_byte(
                    data@,
                    row_len as int,
                    bpp as int,
                    k,
                ),
        decreases n - base,
    {
        let ghost tag_pos = out@.len() as int;
        out.push(1);
        proof {
            lemma_fundamental_div_mod_converse(tag_pos, 1 + row_len as int, r, 0);
        }
        let mut j: usize = 0;
        while j < row_len
            invariant
                1 <= bpp <= row_len,
                n == data@.len(),
                0 <= r,
                base == r * row_len,
                base + row_len <= n,
                j <= row_len,
                out@.len() == r * (1 + row_len) + 1 + j,
                forall|k: int|
                    0 <= k < out@.len() ==> out@[k] == filtered_byte(
                        data@,
                        row_len as int,
                        bpp as int,
                        k,
                    ),
            decreases row_len - j,
        {
            let cur = data[base + j];
            let prev = if j < bpp {
                0u8
            } else {
                data[base + j - bpp]
            };
            let ghost k = out@.len() as int;
            out.push(cur.wrapping_sub(prev));
            proof {
                lemma_fundamental_div_mod_converse(k, 1 + row_len as int, r, 1 + j);
                lemma_byte_sub_is_wrapping(cur, prev);
            }
            j += 1;
        }
        proof {
            assert((r + 1) * row_len == r * row_len + row_len) by (nonlinear_arith);
            assert((r + 1) * (1 + row_len) == r * (1 + row_len) + 1 + row_len)
                by (nonlinear_arith);
            r = r + 1;
        }
        base += row_len;
    }
    proof {
        lemma_fundamental_div_mod_converse(n as int, row_len as int, r, n - base);
        assert(out@ =~= filtered_scanlines(data@, row_len as int, bpp as int));
    }
    out
}

/// Reconstructs the pixel stream from its Sub-filtered form: for every
/// complete block of `1 + row_len` bytes, the tag byte is dropped and the
/// inverse predictor is applied; trailing bytes that do not fill a block are
/// ignored.
pub fn unfilter_scanlines(filtered: &Vec<u8>, row_len: usize, bpp: usize) -> (out: Vec<u8>)
    requires
        1 <= bpp <= row_len,
        row_len < usize::MAX,
    ensures
        out@ == unfiltered_scanlines(filtered@, row_len as int, bpp as int),
{
    let n = filtered.len();
    let block = row_len + 1;
    let mut out: Vec<u8> = Vec::new();
    let mut fbase: usize = 0;
    let ghost mut r: int = 0;
    while n - fbase >= block
        invariant
            1 <= bpp <= row_len,
            block == row_len + 1,
            n == filtered@.len(),
            0 <= r,
            fbase == r * (1 + row_len),
            fbase <= n,
            out@.len() == r * row_len,
            forall|i: int|
                0 <= i < out@.len() ==> out@[i] == unfiltered_row_byte(
                    row_of(filtered@, row_len as int, i / (row_len as int)),
                    bpp as int,
                    i % (row_len as int),
                ),
        decreases n - fbase,
    {
        let mut j: usize = 0;
        while j < row_len
            invariant
                1 <= bpp <= row_len,
                block == row_len + 1,
                n == filtered@.len(),
                0 <= r,
                fbase == r * (1 + row_len),
                fbase + block <= n,
                j <= row_len,
                out@.len() == r * row_len + j,
                forall|i: int|
                    0 <= i < out@.len() ==> out@[i] == unfiltered_row_byte(
                        row_of(filtered@, row_len as int, i / (row_len as int)),
                        bpp as int,
                        i % (row_len as int),
                    ),
            decreases row_len - j,
        {
            let fb = filtered[fbase + 1 + j];
            let ghost i = out@.len() as int;
            let ghost f_row = row_of(filtered@, row_len as int, r);
            proof {
                lemma_mul_nonnegative(r, 1 + row_len as int);
                assert(f_row.len() == row_len);
                assert(f_row[j as int] == fb);
                lemma_fundamental_div_mod_converse(i, row_len as int, r, j as int);
            }
            let val = if j < bpp {
                fb
            } else {
                let prior = out[out.len() - bpp];
                proof {
                    lemma_fundamental_div_mod_converse(i - bpp, row_len as int, r, j - bpp);
                    lemma_byte_add_is_wrapping(fb, prior);
                }
                fb.wrapping_add(prior)
            };
            out.push(val);
            j += 1;
        }
        proof {
            assert((r + 1) * row_len == r * row_len + row_len) by (nonlinear_arith);
            assert((r + 1) * (1 + row_len) == r * (1 + row_len) + 1 + row_len)
                by (nonlinear_arith);
            r = r + 1;
        }
        fbase += block;
    }
    proof {
        lemma_fundamental_div_mod_converse(n as int, 1 + row_len as int, r, n - fbase);
        assert(out@ =~= unfiltered_scanlines(filtered@, row_len as int, bpp as int));
    }
    out
}

/// A filtered row decodes back byte for byte: if `f_row` holds the Sub
/// differences of `data_row`, the inverse predictor reconstructs
/// `data_row[j]`.
proof fn lemma_unfilter_row(data_row: Seq<u8>, f_row: Seq<u8>, bpp: int, j: int)
    requires
        1 <= bpp,
        f_row.len() == data_row.len(),
        0 <= j < data_row.len(),
        forall|x: int|
            0 <= x < data_row.len() ==> f_row[x] == byte_sub(
                data_row[x],
                if x < bpp {
                    0u8
                } else {
                    data_row[x - bpp]
                },
            ),
    ensures
        unfiltered_row_byte(f_row, bpp, j) == data_row[j],
    decreases j,
{
    if j < bpp {
        lemma_byte_sub_add(data_row[j], 0);
    } else {
        lemma_unfilter_row(data_row, f_row, bpp, j - bpp);
        lemma_byte_sub_add(data_row[j], data_row[j - bpp]);
    }
}

/// Law: the Sub filter round-trips. For any pixel stream made of complete
/// rows, any row length and any pixel size, applying the inverse predictor
/// to the filter's output reconstructs the stream byte for byte.
pub proof fn lemma_filter_roundtrip(data: Seq<u8>, row_len: int, bpp: int)
    requires
        1 <= bpp <= row_len,
        data.len() as int % row_len == 0,
    ensures
        unfiltered_scanlines(filtered_scanlines(data, row_len, bpp), row_len, bpp) == data,
{
    let n_rows = data.len() as int / row_len;
    let f = filtered_scanlines(data, row_len, bpp);
    lemma_fundamental_div_mod(data.len() as int, row_len);
    assert(row_len * n_rows == n_rows * row_len) by (nonlinear_arith);
    assert(data.len() == n_rows * row_len);
    assert(f.len() == n_rows * (1 + row_len));
    lemma_fundamental_div_mod_converse(f.len() as int, 1 + row_len, n_rows, 0);
    let u = unfiltered_scanlines(f, row_len, bpp);
    assert(u.len() == data.len());
    assert forall|i: int| 0 <= i < data.len() implies u[i] == data[i] by {
        let r = i / row_len;
        let j = i % row_len;
        lemma_fundamental_div_mod(i, row_len);
        assert(0 <= r) by {
            if r < 0 {
                lemma_mul_inequality(r, -1, row_len);
            }
        }
        assert(r < n_rows) by {
            if r >= n_rows {
                lemma_mul_inequality(n_rows, r, row_len);
            }
        }
        let data_row = data.subrange(r * row_len, r * row_len + row_len);
        let f_row = row_of(f, row_len, r);
        lemma_mul_nonnegative(r, row_len);
        lemma_mul_nonnegative(r, 1 + row_len);
        assert(r * row_len + row_len <= n_rows * row_len) by {
            lemma_mul_inequality(r + 1, n_rows, row_len);
            assert((r + 1) * row_len == r * row_len + row_len) by (nonlinear_arith);
        }
        assert(r * (1 + row_len) + 1 + row_len <= f.len()) by {
            lemma_mul_inequality(r + 1, n_rows, 1 + row_len);
            assert((r + 1) * (1 + row_len) == r * (1 + row_len) + 1 + row_len)
                by (nonlinear_arith);
        }
        assert(f_row.len() == row_len);
        assert forall|x: int| 0 <= x < row_len implies f_row[x] == byte_sub(
            data_row[x],
            if x < bpp {
                0u8
            } else {
                data_row[x - bpp]
            },
        ) by {
            let k = r * (1 + row_len) + 1 + x;
            lemma_fundamental_div_mod_converse(k, 1 + row_len, r, 1 + x);
            assert(f_row[x] == f[k]);
            assert(f[k] == filtered_byte(data, row_len, bpp, k));
        }
        lemma_unfilter_row(data_row, f_row, bpp, j);
        assert(u[i] == unfiltered_row_byte(f_row, bpp, j));
        assert(data_row[j] == data[i]);
    }
    assert(u =~= data);
}

} // verus!
