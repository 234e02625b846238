//! The byte layout of a matrix in shared memory: each entry an `i32` of four
//! bytes in the host's byte order, the entries row after row.

use vstd::prelude::*;

verus! {

/// The order of the four bytes of a stored `i32`.
#[derive(PartialEq, Eq, Structural, Clone, Copy, Debug)]
pub enum ByteOrder {
    /// Least significant byte first.
    Little,
    /// Most significant byte first.
    Big,
}

/// Byte `k` (0 = least significant) of the 32-bit pattern of `v`.
pub open spec fn pattern_byte(v: i32, k: int) -> u8 {
    if k == 0 {
        ((v as u32) & 0xffu32) as u8
    } else if k == 1 {
        (((v as u32) >> 8u32) & 0xffu32) as u8
    } else if k == 2 {
        (((v as u32) >> 16u32) & 0xffu32) as u8
    } else {
        (((v as u32) >> 24u32) & 0xffu32) as u8
    }
}

/// The four bytes that store `v` in byte order `order`.
pub open spec fn cell_bytes(v: i32, order: ByteOrder) -> Seq<u8> {
    match order {
        ByteOrder::Little => seq![pattern_byte(v, 0), pattern_byte(v, 1), pattern_byte(v, 2), pattern_byte(v, 3)],
        ByteOrder::Big => seq![pattern_byte(v, 3), pattern_byte(v, 2), pattern_byte(v, 1), pattern_byte(v, 0)],
    }
}

/// The `i32` whose 32-bit pattern has bytes `b0` (least significant) to `b3`.
pub open spec fn from_pattern_bytes(b0: u8, b1: u8, b2: u8, b3: u8) -> i32 {
    ((b0 as u32) | ((b1 as u32) << 8u32) | ((b2 as u32) << 16u32) | ((b3 as u32) << 24u32)) as i32
}

/// The `i32` stored in the four bytes `b` in byte order `order`.
pub open spec fn cell_value(b: Seq<u8>, order: ByteOrder) -> i32 {
    match order {
        ByteOrder::Little => from_pattern_bytes(b[0], b[1], b[2], b[3]),
        ByteOrder::Big => from_pattern_bytes(b[3], b[2], b[1], b[0]),
    }
}

/// The bytes that store the entries `vals`, one after another.
pub open spec fn cells_bytes(vals: Seq<i32>, order: ByteOrder) -> Seq<u8>
    decreases vals.len(),
{
    if vals.len() == 0 {
        Seq::empty()
    } else {
        cells_bytes(vals.drop_last(), order) + cell_bytes(vals.last(), order)
    }
}

/// The entries stored in `bytes`, four bytes each; bytes after the last
/// whole group of four are not read.
pub open spec fn decoded_cells(bytes: Seq<u8>, order: ByteOrder) -> Seq<i32> {
    Seq::new(bytes.len() / 4, |i: int| cell_value(bytes.subrange(4 * i, 4 * i + 4), order))
}

proof fn lemma_pattern_roundtrip(v: i32)
    ensures
        from_pattern_bytes(pattern_byte(v, 0), pattern_byte(v, 1), pattern_byte(v, 2), pattern_byte(v, 3)) == v,
{
    let u = v as u32;
    assert(((((u & 0xffu32) as u8) as u32) | (((((u >> 8u32) & 0xffu32) as u8) as u32) << 8u32)
        | (((((u >> 16u32) & 0xffu32) as u8) as u32) << 16u32) | (((((u >> 24u32) & 0xffu32) as u8) as u32)
        << 24u32)) == u) by (bit_vector);
    assert((u as i32) == v) by (bit_vector)
        requires
            u == v as u32,
    ;
}

proof fn lemma_bytes_roundtrip(b0: u8, b1: u8, b2: u8, b3: u8)
    ensures
        pattern_byte(from_pattern_bytes(b0, b1, b2, b3), 0) == b0,
        pattern_byte(from_pattern_bytes(b0, b1, b2, b3), 1) == b1,
        pattern_byte(from_pattern_bytes(b0, b1, b2, b3), 2) == b2,
        pattern_byte(from_pattern_bytes(b0, b1, b2, b3), 3) == b3,
{
    let u = (b0 as u32) | ((b1 as u32) << 8u32) | ((b2 as u32) << 16u32) | ((b3 as u32) << 24u32);
    assert(((u as i32) as u32) == u) by (bit_vector);
    assert((u & 0xffu32) as u8 == b0) by (bit_vector)
        requires
            u == (b0 as u32) | ((b1 as u32) << 8u32) | ((b2 as u32) << 16u32) | ((b3 as u32) << 24u32),
    ;
    assert(((u >> 8u32) & 0xffu32) as u8 == b1) by (bit_vector)
        requires
            u == (b0 as u32) | ((b1 as u32) << 8u32) | ((b2 as u32) << 16u32) | ((b3 as u32) << 24u32),
    ;
    assert(((u >> 16u32) & 0xffu32) as u8 == b2) by (bit_vector)
        requires
            u == (b0 as u32) | ((b1 as u32) << 8u32) | ((b2 as u32) << 16u32) | ((b3 as u32) << 24u32),
    ;
    assert(((u >> 24u32) & 0xffu32) as u8 == b3) by (bit_vector)
        requires
            u == (b0 as u32) | ((b1 as u32) << 8u32) | ((b2 as u32) << 16u32) | ((b3 as u32) << 24u32),
    ;
}

/// In little-endian order the four bytes of `v`, read as base-256 digits
/// from the first, give `v` modulo 2^32 (two's complement); big-endian order
/// stores the same bytes in reverse.
pub proof fn lemma_cell_bytes_meaning(v: i32)
    ensures
        cell_bytes(v, ByteOrder::Little).len() == 4,
        cell_bytes(v, ByteOrder::Little)[0] + 256 * cell_bytes(v, ByteOrder::Little)[1] + 65536 * cell_bytes(
            v,
            ByteOrder::Little,
        )[2] + 16777216 * cell_bytes(v, ByteOrder::Little)[3] == (if v >= 0 {
            v as int
        } else {
            v + 4294967296
        }),
        cell_bytes(v, ByteOrder::Big) == cell_bytes(v, ByteOrder::Little).reverse(),
{
    let u = v as u32;
    assert(((u & 0xffu32) as u8) as int + 256 * (((u >> 8u32) & 0xffu32) as u8) as int + 65536 * (((u >> 16u32)
        & 0xffu32) as u8) as int + 16777216 * (((u >> 24u32) & 0xffu32) as u8) as int == u as int) by (bit_vector);
    assert(u as int == (if v >= 0 {
        v as int
    } else {
        v + 4294967296
    })) by (bit_vector)
        requires
            u == v as u32,
    ;
    assert(cell_bytes(v, ByteOrder::Big) =~= cell_bytes(v, ByteOrder::Little).reverse());
}

/// Reading a stored entry back in the order it was written gives the entry.
pub proof fn lemma_cell_roundtrip(v: i32, order: ByteOrder)
    ensures
        cell_value(cell_bytes(v, order), order) == v,
{
    lemma_pattern_roundtrip(v);
}

/// Writing a read entry back in the order it was read gives the same bytes.
pub proof fn lemma_bytes_cell_roundtrip(b: Seq<u8>, order: ByteOrder)
    requires
        b.len() == 4,
    ensures
        cell_bytes(cell_value(b, order), order) == b,
{
    match order {
        ByteOrder::Little => lemma_bytes_roundtrip(b[0], b[1], b[2], b[3]),
        ByteOrder::Big => lemma_bytes_roundtrip(b[3], b[2], b[1], b[0]),
    }
    assert(cell_bytes(cell_value(b, order), order) =~= b);
}

/// The stored bytes of `vals` have four bytes for each entry, and entry `j`
/// occupies bytes `4 * j` to `4 * j + 4`.
pub proof fn lemma_cells_layout(vals: Seq<i32>, order: ByteOrder)
    ensures
        cells_bytes(vals, order).len() == 4 * vals.len(),
        forall|j: int|
            0 <= j < vals.len() ==> #[trigger] cells_bytes(vals, order).subrange(4 * j, 4 * j + 4)
                == cell_bytes(vals[j], order),
    decreases vals.len(),
{
    if vals.len() > 0 {
        let prev = vals.drop_last();
        lemma_cells_layout(prev, order);
        let all = cells_bytes(vals, order);
        assert forall|j: int| 0 <= j < vals.len() implies #[trigger] all.subrange(4 * j, 4 * j + 4)
            == cell_bytes(vals[j], order) by {
            if j < prev.len() {
                assert(all.subrange(4 * j, 4 * j + 4) =~= cells_bytes(prev, order).subrange(4 * j, 4 * j + 4));
                assert(prev[j] == vals[j]);
            } else {
                assert(all.subrange(4 * j, 4 * j + 4) =~= cell_bytes(vals.last(), order));
            }
        }
    }
}

/// Reading back the stored bytes of `vals` in the order they were written
/// gives `vals`.
pub proof fn lemma_cells_roundtrip(vals: Seq<i32>, order: ByteOrder)
    ensures
        decoded_cells(cells_bytes(vals, order), order) == vals,
{
    lemma_cells_layout(vals, order);
    let bytes = cells_bytes(vals, order);
    assert forall|i: int| 0 <= i < vals.len() implies #[trigger] decoded_cells(bytes, order)[i] == vals[i] by {
        lemma_cell_roundtrip(vals[i], order);
        assert(bytes.subrange(4 * i, 4 * i + 4) == cell_bytes(vals[i], order));
    }
    assert(decoded_cells(bytes, order) =~= vals);
}

/// Writing back the entries read from `bytes`, in the order they were read,
/// gives the bytes of every whole group of four.
pub proof fn lemma_decode_encode_roundtrip(bytes: Seq<u8>, order: ByteOrder)
    ensures
        cells_bytes(decoded_cells(bytes, order), order) == bytes.take(4 * (bytes.len() / 4) as int),
{
    let vals = decoded_cells(bytes, order);
    let count = bytes.len() / 4;
    lemma_cells_layout(vals, order);
    let out = cells_bytes(vals, order);
    let whole = bytes.take((4 * count) as int);
    assert(4 * count <= bytes.len());
    assert forall|p: int| 0 <= p < 4 * count implies out[p] == #[trigger] whole[p] by {
        let j = p / 4;
        assert(0 <= j < count);
        assert(4 * j <= p < 4 * j + 4);
        let chunk = bytes.subrange(4 * j, 4 * j + 4);
        lemma_bytes_cell_roundtrip(chunk, order);
        assert(out.subrange(4 * j, 4 * j + 4) == cell_bytes(vals[j], order));
        assert(vals[j] == cell_value(chunk, order));
        assert(out[p] == out.subrange(4 * j, 4 * j + 4)[p - 4 * j]);
        assert(whole[p] == chunk[p - 4 * j]);
    }
    assert(out =~= whole);
}

/// Two bytes that show the host's byte order: `1u16` in native order.
#[verifier::external_body]
fn native_order_probe() -> (r: [u8; 2])
    ensures
        r@ == seq![1u8, 0u8] || r@ == seq![0u8, 1u8],
{
    1u16.to_ne_bytes()
}

/// The byte order that `probe`, the native bytes of `1u16`, shows: the
/// least significant byte first when the first byte is 1.
pub fn byte_order_from_probe(probe: [u8; 2]) -> (r: ByteOrder)
    ensures
        r == (if probe@[0] == 1u8 {
            ByteOrder::Little
        } else {
            ByteOrder::Big
        }),
{
    if probe[0] == 1u8 {
        ByteOrder::Little
    } else {
        ByteOrder::Big
    }
}

/// The byte order of this machine, which `to_ne_bytes` and `from_ne_bytes`
/// use. Which of the two it is depends on the machine, so no clause names
/// it; `byte_order_from_probe` states how the native bytes decide it.
pub fn host_byte_order() -> ByteOrder {
    byte_order_from_probe(native_order_probe())
}

fn push_cell(out: &mut Vec<u8>, v: i32, order: ByteOrder)
    ensures
        final(out)@ == old(out)@ + cell_bytes(v, order),
{
    let u = v as u32;
    let b0 = (u & 0xffu32) as u8;
    let b1 = ((u >> 8u32) & 0xffu32) as u8;
    let b2 = ((u >> 16u32) & 0xffu32) as u8;
    let b3 = ((u >> 24u32) & 0xffu32) as u8;
    match order {
        ByteOrder::Little => {
            out.push(b0);
            out.push(b1);
            out.push(b2);
            out.push(b3);
        },
        ByteOrder::Big => {
            out.push(b3);
            out.push(b2);
            out.push(b1);
            out.push(b0);
        },
    }
    assert(final(out)@ =~= old(out)@ + cell_bytes(v, order));
}

/// The bytes that store `vals` one after another, four bytes each in byte
/// order `order` (what `to_ne_bytes` gives entry by entry in host order).
pub fn encode_cells(vals: &Vec<i32>, order: ByteOrder) -> (r: Vec<u8>)
    ensures
        r@ == cells_bytes(vals@, order),
{
    let mut out: Vec<u8> = Vec::new();
    let mut i: usize = 0;
    while i < vals.len()
        invariant
            i <= vals.len(),
            out@ == cells_bytes(vals@.take(i as int), order),
        decreases vals.len() - i,
    {
        push_cell(&mut out, vals[i], order);
        assert(vals@.take(i + 1).drop_last() =~= vals@.take(i as int));
        i = i + 1;
    }
    assert(vals@.take(vals.len() as int) =~= vals@);
    out
}

/// The entries stored in `bytes`, four bytes each in byte order `order`;
/// bytes after the last whole group of four are not read (as reading them
/// in `chunks_exact(4)` with `from_ne_bytes` does in host order).
pub fn decode_cells(bytes: &[u8], order: ByteOrder) -> (r: Vec<i32>)
    ensures
        r@ == decoded_cells(bytes@, order),
{
    let len = bytes.len();
    let count = len / 4;
    let mut out: Vec<i32> = Vec::new();
    let mut i: usize = 0;
    while i < count
        invariant
            i <= count,
            count == bytes@.len() / 4,
            len == bytes@.len(),
            out@ =~= decoded_cells(bytes@, order).take(i as int),
        decreases count - i,
    {
        assert(4 * i + 4 <= bytes@.len()) by (nonlinear_arith)
            requires
                i < count,
                count == bytes@.len() / 4,
        ;
        let p = 4 * i;
        let b0 = bytes[p];
        let b1 = bytes[p + 1];
        let b2 = bytes[p + 2];
        let b3 = bytes[p + 3];
        let (x0, x1, x2, x3) = match order {
            ByteOrder::Little => (b0, b1, b2, b3),
            ByteOrder::Big => (b3, b2, b1, b0),
        };
        let u: u32 = (x0 as u32) | ((x1 as u32) << 8u32) | ((x2 as u32) << 16u32) | ((x3 as u32) << 24u32);
        let v = #[verifier::truncate] (u as i32);
        assert(bytes@.subrange(4 * i, 4 * i + 4) =~= seq![b0, b1, b2, b3]);
        out.push(v);
        i = i + 1;
    }
    assert(decoded_cells(bytes@, order).take(count as int) =~= decoded_cells(bytes@, order));
    out
}

/// The bytes that row `row` of an `n` by `n` matrix occupies when the
/// entries are stored row after row, four bytes each.
pub open spec fn row_byte_span(row: int, n: int) -> (int, int) {
    (4 * (row * n), 4 * (row * n + n))
}

/// The rows of an `n` by `n` matrix occupy consecutive, disjoint byte spans
/// that together cover exactly the matrix's `4 * n * n` bytes, so rows
/// written by different workers never overlap.
pub proof fn lemma_row_spans_tile_matrix(n: int)
    requires
        n >= 0,
    ensures
        n > 0 ==> row_byte_span(0, n).0 == 0,
        n > 0 ==> row_byte_span(n - 1, n).1 == 4 * (n * n),
        forall|r: int| 0 <= r < n ==> #[trigger] row_byte_span(r, n).0 <= row_byte_span(r, n).1,
        forall|r: int| 0 <= r < n - 1 ==> #[trigger] row_byte_span(r, n).1 == row_byte_span(r + 1, n).0,
        forall|r1: int, r2: int|
            0 <= r1 < r2 < n ==> #[trigger] row_byte_span(r1, n).1 <= #[trigger] row_byte_span(r2, n).0,
{
    assert forall|r: int| 0 <= r < n - 1 implies #[trigger] row_byte_span(r, n).1 == row_byte_span(r + 1, n).0 by {
        assert((r + 1) * n == r * n + n) by (nonlinear_arith);
    }
    assert forall|r1: int, r2: int| 0 <= r1 < r2 < n implies #[trigger] row_byte_span(r1, n).1
        <= #[trigger] row_byte_span(r2, n).0 by {
        assert(r1 * n + n <= r2 * n) by (nonlinear_arith)
            requires
                0 <= r1 < r2,
                n >= 0,
        ;
    }
    if n > 0 {
        assert((n - 1) * n + n == n * n) by (nonlinear_arith);
    }
}

/// The first and one-past-last byte that row `row` of an `n` by `n` matrix
/// occupies in the shared layout; entry `j` of the row is at bytes
/// `4 * (row * n + j)` to `4 * (row * n + j) + 4`.
pub fn row_byte_range(row: usize, n: usize) -> (r: (usize, usize))
    requires
        4 * (row * n + n) <= usize::MAX,
    ensures
        r.0 == row_byte_span(row as int, n as int).0,
        r.1 == row_byte_span(row as int, n as int).1,
{
    assert(row * n <= row * n + n);
    let start = row * n;
    (4 * start, 4 * (start + n))
}

/// The size in bytes of an `n` by `n` matrix of `i32` entries.
pub fn matrix_byte_len(n: usize) -> (r: usize)
    requires
        4 * (n * n) <= usize::MAX,
    ensures
        r == 4 * (n * n),
{
    4 * (n * n)
}

} // verus!
