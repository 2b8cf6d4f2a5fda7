//! Row-major flattening of matrices into linear buffers, the byte encoding
//! of those buffers, and the inverse reshaping.
use vstd::prelude::*;
use vstd::arithmetic::power::pow;
use crate::shape::mat;

verus! {

/// Width in bytes of one encoded element.
pub const ELEM_BYTES: usize = 8;

/// The eight bytes of `x` (two's complement), least significant first.
pub open spec fn le_bytes(x: i64) -> Seq<u8> {
    Seq::new(8, |k: int| (((x as u64) as int / pow(256, k as nat)) % 256) as u8)
}

/// The eight bytes of `x` (two's complement), most significant first.
pub open spec fn be_bytes(x: i64) -> Seq<u8> {
    Seq::new(8, |k: int| le_bytes(x)[7 - k])
}

/// `b` is `x` written in one of the two byte orders a host may use natively.
pub open spec fn is_native_encoding(b: Seq<u8>, x: i64) -> bool {
    b == le_bytes(x) || b == be_bytes(x)
}

/// `bytes` holds the elements of `values` one after another, eight bytes each.
pub open spec fn encodes(bytes: Seq<u8>, values: Seq<i64>) -> bool {
    &&& bytes.len() == ELEM_BYTES * values.len()
    &&& forall|k: int|
        0 <= k < values.len() ==> is_native_encoding(
            #[trigger] bytes.subrange(ELEM_BYTES * k, ELEM_BYTES * k + ELEM_BYTES),
            values[k],
        )
}

/// Consecutive chunks of `c` elements of `s`, the last one possibly shorter.
pub open spec fn chunks(s: Seq<i64>, c: nat) -> Seq<Seq<i64>>
    recommends
        c > 0,
{
    Seq::new(
        ((s.len() + c - 1) / c as int) as nat,
        |i: int| s.subrange(i * c, if i * c + c <= s.len() { i * c + c } else { s.len() as int }),
    )
}

/// Relies on i64::to_ne_bytes: the memory representation of the value in the
/// target's native byte order, which is little- or big-endian.
#[verifier::external_body]
fn i64_to_ne_bytes(x: i64) -> (r: [u8; 8])
    ensures
        is_native_encoding(r@, x),
{
    x.to_ne_bytes()
}

/// Relies on i64::from_ne_bytes: the value whose memory representation in the
/// target's native byte order is `b`.
#[verifier::external_body]
fn i64_from_ne_bytes(b: [u8; 8]) -> (r: i64)
    ensures
        is_native_encoding(b@, r),
{
    i64::from_ne_bytes(b)
}

/// The elements of the matrix, row after row, each row in order. Ragged rows
/// are kept as they are.
pub fn flatten(matrix: &[Vec<i64>]) -> (r: Vec<i64>)
    ensures
        r@ == mat(matrix@).flatten(),
{
    let ghost m = mat(matrix@);
    let mut out: Vec<i64> = Vec::new();
    let mut i: usize = 0;
    while i < matrix.len()
        invariant
            0 <= i <= matrix.len(),
            m == mat(matrix@),
            out@ == m.take(i as int).flatten_alt(),
        decreases matrix.len() - i,
    {
        let row = &matrix[i];
        let mut j: usize = 0;
        while j < row.len()
            invariant
                0 <= j <= row.len(),
                out@ == m.take(i as int).flatten_alt() + row@.take(j as int),
            decreases row.len() - j,
        {
            out.push(row[j]);
            proof {
                assert(row@.take(j + 1) =~= row@.take(j as int).push(row@[j as int]));
                assert(out@ =~= m.take(i as int).flatten_alt() + row@.take(j + 1));
            }
            j += 1;
        }
        proof {
            assert(m.take(i + 1).drop_last() =~= m.take(i as int));
            assert(row@.take(j as int) =~= row@);
            assert(m.take(i + 1).last() == row@);
        }
        i += 1;
    }
    proof {
        assert(m.take(i as int) =~= m);
        m.lemma_flatten_and_flatten_alt_are_equivalent();
    }
    out
}

/// The flat byte buffer of a matrix: its row-major elements, each in the
/// host's native eight-byte encoding.
pub fn vec_to_flat_u8_vec(matrix: &[Vec<i64>]) -> (r: Vec<u8>)
    requires
        ELEM_BYTES * mat(matrix@).flatten().len() <= usize::MAX,
    ensures
        encodes(r@, mat(matrix@).flatten()),
{
    let flat = flatten(matrix);
    let mut out: Vec<u8> = Vec::new();
    let mut k: usize = 0;
    while k < flat.len()
        invariant
            0 <= k <= flat.len(),
            ELEM_BYTES * flat.len() <= usize::MAX,
            out@.len() == ELEM_BYTES * k,
            forall|q: int|
                0 <= q < k ==> is_native_encoding(
                    #[trigger] out@.subrange(ELEM_BYTES * q, ELEM_BYTES * q + ELEM_BYTES),
                    flat@[q],
                ),
        decreases flat.len() - k,
    {
        let bytes = i64_to_ne_bytes(flat[k]);
        let ghost before = out@;
        let mut t: usize = 0;
        while t < ELEM_BYTES
            invariant
                0 <= t <= ELEM_BYTES,
                out@ == before + bytes@.take(t as int),
            decreases ELEM_BYTES - t,
        {
            out.push(bytes[t]);
            proof {
                assert(bytes@.take(t + 1) =~= bytes@.take(t as int).push(bytes@[t as int]));
            }
            t += 1;
        }
        proof {
            assert(bytes@.take(8) =~= bytes@);
            assert forall|q: int| 0 <= q < k + 1 implies is_native_encoding(
                #[trigger] out@.subrange(ELEM_BYTES * q, ELEM_BYTES * q + ELEM_BYTES),
                flat@[q],
            ) by {
                if q < k {
                    assert(out@.subrange(ELEM_BYTES * q, ELEM_BYTES * q + ELEM_BYTES) =~= before.subrange(
                        ELEM_BYTES * q,
                        ELEM_BYTES * q + ELEM_BYTES,
                    ));
                } else {
                    assert(out@.subrange(ELEM_BYTES * q, ELEM_BYTES * q + ELEM_BYTES) =~= bytes@);
                }
            }
        }
        k += 1;
    }
    out
}

/// Decodes a byte buffer into its elements, eight bytes each in the host's
/// native order; trailing bytes that do not fill an element are ignored.
pub fn decode_flat_buffer(bytes: &[u8]) -> (r: Vec<i64>)
    ensures
        r@.len() == bytes@.len() as int / ELEM_BYTES as int,
        encodes(bytes@.take(ELEM_BYTES * r@.len()), r@),
{
    let len = bytes.len();
    let n = len / ELEM_BYTES;
    let mut out: Vec<i64> = Vec::new();
    let mut k: usize = 0;
    while k < n
        invariant
            0 <= k <= n,
            n == bytes@.len() as int / ELEM_BYTES as int,
            len == bytes@.len(),
            out@.len() == k,
            forall|q: int|
                0 <= q < k ==> is_native_encoding(
                    #[trigger] bytes@.subrange(ELEM_BYTES * q, ELEM_BYTES * q + ELEM_BYTES),
                    out@[q],
                ),
        decreases n - k,
    {
        assert(ELEM_BYTES * k + ELEM_BYTES <= bytes@.len()) by (nonlinear_arith)
            requires
                k < n,
                n == bytes@.len() as int / 8,
                ELEM_BYTES == 8,
        ;
        let s = ELEM_BYTES * k;
        let chunk: [u8; 8] = [
            bytes[s],
            bytes[s + 1],
            bytes[s + 2],
            bytes[s + 3],
            bytes[s + 4],
            bytes[s + 5],
            bytes[s + 6],
            bytes[s + 7],
        ];
        assert(chunk@ =~= bytes@.subrange(s as int, s + ELEM_BYTES));
        let v = i64_from_ne_bytes(chunk);
        out.push(v);
        k += 1;
    }
    proof {
        let t = bytes@.take(ELEM_BYTES * out@.len());
        assert forall|q: int| 0 <= q < out@.len() implies is_native_encoding(
            #[trigger] t.subrange(ELEM_BYTES * q, ELEM_BYTES * q + ELEM_BYTES),
            out@[q],
        ) by {
            assert(t.subrange(ELEM_BYTES * q, ELEM_BYTES * q + ELEM_BYTES) =~= bytes@.subrange(
                ELEM_BYTES * q,
                ELEM_BYTES * q + ELEM_BYTES,
            ));
        }
    }
    out
}

/// The start of chunk `i` lies inside the sequence.
proof fn lemma_chunk_start(len: nat, c: nat, i: nat)
    requires
        c > 0,
        i < (len + c - 1) / c as int,
    ensures
        i * c < len,
{
    let q = (len + c - 1) / c as int;
    assert(q * c <= len + c - 1) by (nonlinear_arith)
        requires
            c > 0,
            q == (len + c - 1) / c as int,
    ;
    assert(i * c + c <= q * c) by (nonlinear_arith)
        requires
            i + 1 <= q,
            c > 0,
    ;
}

/// Partitions a flat buffer into rows of `cols` elements, in order; a final
/// shorter chunk becomes a shorter last row.
pub fn reshape(flat: &[i64], cols: usize) -> (r: Vec<Vec<i64>>)
    requires
        cols > 0,
    ensures
        mat(r@) == chunks(flat@, cols as nat),
{
    let len = flat.len();
    assert(len as int % cols as int != 0 ==> len as int / cols as int + 1 <= usize::MAX)
        by (nonlinear_arith)
        requires
            cols > 0,
            len <= usize::MAX,
    ;
    let n_rows = len / cols + if len % cols != 0 { 1 } else { 0 };
    assert(n_rows == (len + cols - 1) / cols as int) by (nonlinear_arith)
        requires
            cols > 0,
            n_rows == len as int / cols as int + if len as int % cols as int != 0 { 1int } else { 0int },
    ;
    let ghost target = chunks(flat@, cols as nat);
    let mut out: Vec<Vec<i64>> = Vec::new();
    let mut i: usize = 0;
    while i < n_rows
        invariant
            0 <= i <= n_rows,
            cols > 0,
            len == flat@.len(),
            n_rows == (len + cols - 1) / cols as int,
            target == chunks(flat@, cols as nat),
            out@.len() == i,
            forall|q: int| 0 <= q < i ==> #[trigger] out@[q]@ == target[q],
        decreases n_rows - i,
    {
        proof {
            lemma_chunk_start(len as nat, cols as nat, i as nat);
        }
        let start = i * cols;
        let end = if len - start > cols { start + cols } else { len };
        let mut row: Vec<i64> = Vec::new();
        let mut k: usize = start;
        while k < end
            invariant
                start <= k <= end <= len,
                len == flat@.len(),
                row@ == flat@.subrange(start as int, k as int),
            decreases end - k,
        {
            row.push(flat[k]);
            proof {
                assert(flat@.subrange(start as int, k + 1) =~= flat@.subrange(start as int, k as int).push(flat@[k as int]));
            }
            k += 1;
        }
        assert(row@ == target[i as int]);
        out.push(row);
        i += 1;
    }
    assert(mat(out@) =~= target);
    out
}

/// Flattening a rectangular matrix places entry `(i, j)` at `i * cols + j`.
pub proof fn lemma_flatten_rectangular(m: Seq<Seq<i64>>, c: nat)
    requires
        forall|i: int| 0 <= i < m.len() ==> #[trigger] m[i].len() == c,
    ensures
        m.flatten().len() == m.len() * c,
        forall|i: int, j: int|
            0 <= i < m.len() && 0 <= j < c ==> #[trigger] m.flatten()[i * c + j] == m[i][j],
    decreases m.len(),
{
    m.lemma_flatten_and_flatten_alt_are_equivalent();
    if m.len() > 0 {
        let p = m.drop_last();
        lemma_flatten_rectangular(p, c);
        p.lemma_flatten_and_flatten_alt_are_equivalent();
        let n = p.len();
        assert(m.flatten_alt() == p.flatten_alt() + m.last());
        assert(n * c + c == (n + 1) * c) by (nonlinear_arith);
        assert forall|i: int, j: int| 0 <= i < m.len() && 0 <= j < c implies #[trigger] m.flatten()[i
            * c + j] == m[i][j] by {
            if i < n {
                assert(i * c + j < n * c) by (nonlinear_arith)
                    requires
                        i < n,
                        j < c,
                ;
                assert(p[i] == m[i]);
            } else {
                assert(i * c + j == n * c + j);
            }
        }
    }
}

} // verus!
