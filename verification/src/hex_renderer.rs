//! HexRect data and its 8-byte packed codec.
//!
//! Layout of one rect (big-endian, no padding):
//!   byte 0      col    (0..=95)
//!   byte 1      row    (0..=95)
//!   byte 2      width  (>= 1)
//!   byte 3      height (>= 1)
//!   bytes 4..6  color  (uint24, 0xRRGGBB, big-endian)
//!   byte 7      reserved, always 0x00
use vstd::prelude::*;

verus! {

/// The largest column or row index on the 96x96 hex grid.
pub const GRID_MAX: u8 = 95;

/// A run of hex cells sharing one color, as stored on chain.
#[derive(Debug, Clone, Copy, PartialEq, Eq, Structural)]
pub struct HexRect {
    pub col: u8,
    pub row: u8,
    pub width: u8,
    pub height: u8,
    /// 0xRRGGBB
    pub color: u32,
}

/// Why a packed blob was refused.
#[derive(Debug, Clone, Copy, PartialEq, Eq, Structural)]
pub enum HexCodecError {
    NotMultipleOf8,
    ReservedByteNonZero { index: usize, value: u8 },
    OutOfGrid { col: u8, row: u8 },
    ZeroDimension { col: u8, row: u8 },
}

/// The high, middle and low byte of the 24-bit color.
pub open spec fn color_hi(color: u32) -> u8 {
    (color / 0x10000 % 0x100) as u8
}

pub open spec fn color_mid(color: u32) -> u8 {
    (color / 0x100 % 0x100) as u8
}

pub open spec fn color_lo(color: u32) -> u8 {
    (color % 0x100) as u8
}

/// The eight bytes that stand for one rect.
pub open spec fn rect_bytes(r: HexRect) -> Seq<u8> {
    seq![r.col, r.row, r.width, r.height, color_hi(r.color), color_mid(r.color), color_lo(r.color), 0u8]
}

/// The packed blob of a sequence of rects: byte `k` is byte `k % 8` of rect `k / 8`.
pub open spec fn encoded(rects: Seq<HexRect>) -> Seq<u8> {
    Seq::new(8 * rects.len(), |k: int| rect_bytes(rects[k / 8])[k % 8])
}

/// The `i`-th 8-byte chunk of a blob.
pub open spec fn chunk(data: Seq<u8>, i: int) -> Seq<u8> {
    data.subrange(8 * i, 8 * i + 8)
}

/// Number of whole chunks in a blob.
pub open spec fn chunk_count(data: Seq<u8>) -> int {
    data.len() as int / 8
}

/// The rect that a chunk stands for, read without any check.
pub open spec fn decode_chunk(c: Seq<u8>) -> HexRect {
    HexRect {
        col: c[0],
        row: c[1],
        width: c[2],
        height: c[3],
        color: (c[4] * 0x10000 + c[5] * 0x100 + c[6]) as u32,
    }
}

/// The error that chunk number `index` gives, checked in order: reserved
/// byte, then grid bounds, then dimensions.
pub open spec fn chunk_error(c: Seq<u8>, index: int) -> Option<HexCodecError> {
    if c[7] != 0 {
        Some(HexCodecError::ReservedByteNonZero { index: index as usize, value: c[7] })
    } else if c[0] > GRID_MAX || c[1] > GRID_MAX {
        Some(HexCodecError::OutOfGrid { col: c[0], row: c[1] })
    } else if c[2] == 0 || c[3] == 0 {
        Some(HexCodecError::ZeroDimension { col: c[0], row: c[1] })
    } else {
        None
    }
}

/// No chunk before number `n` is malformed.
pub open spec fn chunks_ok_before(data: Seq<u8>, n: int) -> bool {
    forall|j: int| 0 <= j < n ==> (#[trigger] chunk_error(chunk(data, j), j)) is None
}

/// A blob that parses: whole chunks only, none malformed.
pub open spec fn well_formed_blob(data: Seq<u8>) -> bool {
    &&& data.len() % 8 == 0
    &&& chunks_ok_before(data, chunk_count(data))
}

/// The rects that the whole chunks of a blob stand for.
pub open spec fn decoded(data: Seq<u8>) -> Seq<HexRect> {
    Seq::new(chunk_count(data) as nat, |i: int| decode_chunk(chunk(data, i)))
}

/// Encode a slice of HexRects into the packed 8-byte-per-rect format.
/// Only the low 24 bits of `color` are stored.
pub fn encode_hexrects(rects: &[HexRect]) -> (out: Vec<u8>)
    ensures
        out@ == encoded(rects@),
        out@.len() == 8 * rects@.len(),
{
    let mut out: Vec<u8> = Vec::new();
    let mut i: usize = 0;
    while i < rects.len()
        invariant
            i <= rects@.len(),
            out@.len() == 8 * i,
            forall|k: int| 0 <= k < 8 * i ==> out@[k] == rect_bytes(rects@[k / 8])[k % 8],
        decreases rects@.len() - i,
    {
        let r = rects[i];
        let c = r.color;
        let hi = ((c >> 16) & 0xFF) as u8;
        let mid = ((c >> 8) & 0xFF) as u8;
        let lo = (c & 0xFF) as u8;
        assert(hi == color_hi(c) && mid == color_mid(c) && lo == color_lo(c)) by (bit_vector)
            requires
                hi == ((c >> 16) & 0xFF) as u8,
                mid == ((c >> 8) & 0xFF) as u8,
                lo == (c & 0xFF) as u8,
        ;
        let ghost before = out@;
        out.push(r.col);
        out.push(r.row);
        out.push(r.width);
        out.push(r.height);
        out.push(hi);
        out.push(mid);
        out.push(lo);
        out.push(0u8);
        assert forall|k: int| 0 <= k < 8 * (i + 1) implies out@[k] == rect_bytes(rects@[k / 8])[k
            % 8] by {
            if k >= 8 * i {
                assert(k / 8 == i);
                assert(out@[k] == rect_bytes(r)[k - 8 * i]);
            } else {
                assert(out@[k] == before[k]);
            }
        }
        i = i + 1;
    }
    assert(out@ =~= encoded(rects@));
    out
}

/// Parse a packed blob into rects.
///
/// Fails on any malformed data, never clamps, never drops bytes: the length
/// must be a multiple of 8, and the error names the first malformed chunk.
pub fn parse_hexrects(data: &[u8]) -> (res: Result<Vec<HexRect>, HexCodecError>)
    ensures
        data@.len() % 8 != 0 ==> res == Err::<Vec<HexRect>, HexCodecError>(
            HexCodecError::NotMultipleOf8,
        ),
        res is Ok <==> well_formed_blob(data@),
        res matches Ok(rects) ==> rects@ == decoded(data@),
        data@.len() % 8 == 0 ==> (res matches Err(e) ==> exists|i: int|
            0 <= i < chunk_count(data@) && chunks_ok_before(data@, i) && chunk_error(
                #[trigger] chunk(data@, i),
                i,
            ) == Some(e)),
{
    if data.len() % 8 != 0 {
        return Err(HexCodecError::NotMultipleOf8);
    }
    let n = data.len() / 8;
    assert(8 * n == data@.len());
    let mut rects: Vec<HexRect> = Vec::new();
    let mut i: usize = 0;
    while i < n
        invariant
            data@.len() % 8 == 0,
            n == chunk_count(data@),
            8 * n == data.len(),
            data.len() == data@.len(),
            i <= n,
            rects@.len() == i,
            chunks_ok_before(data@, i as int),
            forall|j: int| 0 <= j < i ==> rects@[j] == decode_chunk(#[trigger] chunk(data@, j)),
        decreases n - i,
    {
        let base = i * 8;
        let ghost c = chunk(data@, i as int);
        let col = data[base];
        let row = data[base + 1];
        let width = data[base + 2];
        let height = data[base + 3];
        let b4 = data[base + 4];
        let b5 = data[base + 5];
        let b6 = data[base + 6];
        let reserved = data[base + 7];
        let color = ((b4 as u32) << 16) | ((b5 as u32) << 8) | (b6 as u32);
        assert(color == b4 * 0x10000 + b5 * 0x100 + b6) by (bit_vector)
            requires
                color == ((b4 as u32) << 16) | ((b5 as u32) << 8) | (b6 as u32),
        ;
        assert(c[0] == col && c[1] == row && c[2] == width && c[3] == height);
        assert(c[4] == b4 && c[5] == b5 && c[6] == b6 && c[7] == reserved);
        if reserved != 0x00 {
            let e = HexCodecError::ReservedByteNonZero { index: i, value: reserved };
            assert(chunk_error(c, i as int) == Some(e));
            return Err(e);
        }
        if col > GRID_MAX || row > GRID_MAX {
            let e = HexCodecError::OutOfGrid { col, row };
            assert(chunk_error(c, i as int) == Some(e));
            return Err(e);
        }
        if width == 0 || height == 0 {
            let e = HexCodecError::ZeroDimension { col, row };
            assert(chunk_error(c, i as int) == Some(e));
            return Err(e);
        }
        assert(chunk_error(c, i as int) is None);
        let rect = HexRect { col, row, width, height, color };
        assert(rect == decode_chunk(c));
        rects.push(rect);
        i = i + 1;
    }
    assert(rects@ =~= decoded(data@));
    Ok(rects)
}


/// A rect that lies on the grid and covers at least one cell.
pub open spec fn placeable(r: HexRect) -> bool {
    r.col <= GRID_MAX && r.row <= GRID_MAX && r.width >= 1 && r.height >= 1
}

/// A placeable rect whose color fits in 24 bits: the packed form keeps all of it.
pub open spec fn storable(r: HexRect) -> bool {
    placeable(r) && r.color <= 0xFFFFFF
}

/// The rect as the packed form keeps it: the color cut to its low 24 bits.
pub open spec fn as_stored(r: HexRect) -> HexRect {
    HexRect { color: r.color % 0x1000000, ..r }
}

proof fn lemma_chunk_of_encoded(rects: Seq<HexRect>, i: int)
    requires
        0 <= i < rects.len(),
    ensures
        chunk(encoded(rects), i) == rect_bytes(rects[i]),
{
    let c = chunk(encoded(rects), i);
    assert forall|j: int| 0 <= j < 8 implies c[j] == rect_bytes(rects[i])[j] by {
        assert((8 * i + j) / 8 == i);
        assert((8 * i + j) % 8 == j);
    }
    assert(c =~= rect_bytes(rects[i]));
}

proof fn lemma_color_split_join(color: u32)
    ensures
        (color_hi(color) * 0x10000 + color_mid(color) * 0x100 + color_lo(color)) as u32 == color
            % 0x1000000,
{
    assert((((color / 0x10000 % 0x100) as u8) * 0x10000 + ((color / 0x100 % 0x100) as u8) * 0x100
        + ((color % 0x100) as u8)) as u32 == color % 0x1000000) by (bit_vector);
}

proof fn lemma_color_join_split(a: u8, b: u8, c: u8)
    ensures
        color_hi((a * 0x10000 + b * 0x100 + c) as u32) == a,
        color_mid((a * 0x10000 + b * 0x100 + c) as u32) == b,
        color_lo((a * 0x10000 + b * 0x100 + c) as u32) == c,
{
    assert((((a * 0x10000 + b * 0x100 + c) as u32) / 0x10000 % 0x100) as u8 == a) by (bit_vector);
    assert((((a * 0x10000 + b * 0x100 + c) as u32) / 0x100 % 0x100) as u8 == b) by (bit_vector);
    assert((((a * 0x10000 + b * 0x100 + c) as u32) % 0x100) as u8 == c) by (bit_vector);
}

/// Encoding never writes a nonzero reserved byte, so an encoded blob parses
/// exactly when every rect is placeable; what parses back is each rect with
/// its color cut to 24 bits, in the same order.
pub proof fn encode_then_parse(rects: Seq<HexRect>)
    ensures
        well_formed_blob(encoded(rects)) <==> forall|i: int|
            0 <= i < rects.len() ==> placeable(#[trigger] rects[i]),
        decoded(encoded(rects)) == rects.map_values(|r: HexRect| as_stored(r)),
{
    let data = encoded(rects);
    assert(chunk_count(data) == rects.len());
    assert forall|i: int| 0 <= i < rects.len() implies chunk_error(#[trigger] chunk(data, i), i)
        is None <==> placeable(rects[i]) by {
        lemma_chunk_of_encoded(rects, i);
    }
    if forall|i: int| 0 <= i < rects.len() ==> placeable(#[trigger] rects[i]) {
        assert forall|i: int| 0 <= i < chunk_count(data) implies (#[trigger] chunk_error(
            chunk(data, i),
            i,
        )) is None by {
            lemma_chunk_of_encoded(rects, i);
        }
    }
    if well_formed_blob(data) {
        assert forall|i: int| 0 <= i < rects.len() implies placeable(#[trigger] rects[i]) by {
            assert(chunk_error(chunk(data, i), i) is None);
            lemma_chunk_of_encoded(rects, i);
        }
    }
    assert forall|i: int| 0 <= i < rects.len() implies #[trigger] decoded(data)[i] == as_stored(
        rects[i],
    ) by {
        lemma_chunk_of_encoded(rects, i);
        lemma_color_split_join(rects[i].color);
    }
    assert(decoded(data) =~= rects.map_values(|r: HexRect| as_stored(r)));
}

/// Rects that are placeable and whose colors fit in 24 bits come back from
/// encode-then-parse unchanged.
pub proof fn storable_round_trip(rects: Seq<HexRect>)
    requires
        forall|i: int| 0 <= i < rects.len() ==> storable(#[trigger] rects[i]),
    ensures
        well_formed_blob(encoded(rects)),
        decoded(encoded(rects)) == rects,
{
    encode_then_parse(rects);
    assert forall|i: int| 0 <= i < rects.len() implies #[trigger] as_stored(rects[i])
        == rects[i] by {
        assert(storable(rects[i]));
    }
    assert(rects.map_values(|r: HexRect| as_stored(r)) =~= rects);
}

/// A blob that parses is given back byte for byte by encoding what it
/// parsed to.
pub proof fn parse_then_encode(data: Seq<u8>)
    requires
        well_formed_blob(data),
    ensures
        encoded(decoded(data)) == data,
{
    let rects = decoded(data);
    let out = encoded(rects);
    assert(out.len() == data.len());
    assert forall|k: int| 0 <= k < data.len() implies #[trigger] out[k] == data[k] by {
        let i = k / 8;
        let j = k % 8;
        assert(0 <= i < chunk_count(data));
        assert(k == 8 * i + j);
        let c = chunk(data, i);
        assert(chunk_error(c, i) is None);
        lemma_color_join_split(c[4], c[5], c[6]);
        assert(rect_bytes(decode_chunk(c)) =~= c);
        assert(out[k] == rect_bytes(rects[i])[j]);
        assert(c[j] == data[k]);
    }
    assert(out =~= data);
}


/// One grid cell that the renderer fills, with the color of its rect.
#[derive(Debug, Clone, Copy, PartialEq, Eq, Structural)]
pub struct HexCell {
    pub col: u32,
    pub row: u32,
    pub color: u32,
}

/// The cell at offset (`dx`, `dy`) inside a rect.
pub open spec fn cell_at(r: HexRect, dx: int, dy: int) -> HexCell {
    HexCell { col: (r.col + dx) as u32, row: (r.row + dy) as u32, color: r.color }
}

/// Row `dy` of a rect, left to right.
pub open spec fn rect_row(r: HexRect, dy: int) -> Seq<HexCell> {
    Seq::new(r.width as nat, |dx: int| cell_at(r, dx, dy))
}

/// The first `n` rows of a rect, top to bottom.
pub open spec fn rect_rows(r: HexRect, n: nat) -> Seq<HexCell>
    decreases n,
{
    if n == 0 {
        seq![]
    } else {
        rect_rows(r, (n - 1) as nat) + rect_row(r, n - 1)
    }
}

/// Every cell of a rect, row by row.
pub open spec fn rect_cells(r: HexRect) -> Seq<HexCell> {
    rect_rows(r, r.height as nat)
}

/// The cells of all rects, rect by rect, in the order they are painted:
/// a later rect paints over an earlier one.
pub open spec fn paint_order(rects: Seq<HexRect>) -> Seq<HexCell>
    decreases rects.len(),
{
    if rects.len() == 0 {
        seq![]
    } else {
        paint_order(rects.drop_last()) + rect_cells(rects.last())
    }
}

proof fn lemma_rect_rows(r: HexRect, n: nat)
    ensures
        rect_rows(r, n).len() == n * r.width,
        forall|dx: int, dy: int|
            0 <= dx < r.width && 0 <= dy < n ==> #[trigger] rect_rows(r, n)[dy * r.width + dx]
                == cell_at(r, dx, dy),
    decreases n,
{
    if n == 0 {
        assert(n * r.width == 0);
    } else {
        let w = r.width as int;
        let m = (n - 1) as nat;
        lemma_rect_rows(r, m);
        assert(rect_rows(r, n) == rect_rows(r, m) + rect_row(r, m as int));
        assert(n * w == m * w + w) by (nonlinear_arith)
            requires
                n == m + 1,
        ;
        assert forall|dx: int, dy: int| 0 <= dx < w && 0 <= dy < n implies #[trigger] rect_rows(
            r,
            n,
        )[dy * w + dx] == cell_at(r, dx, dy) by {
            if dy < m {
                assert(dy * w + dx < m * w) by (nonlinear_arith)
                    requires
                        0 <= dx < w,
                        0 <= dy < m,
                ;
            } else {
                assert(dy == m);
                assert(dy * w + dx - m * w == dx);
            }
        }
    }
}

/// A rect paints `width * height` cells: the cell at offset (`dx`, `dy`)
/// comes at position `dy * width + dx`, sits at column `col + dx` and row
/// `row + dy`, and has the rect's color; so every cell of the rect is
/// painted once, row by row.
pub proof fn rect_cells_fill_rect(r: HexRect)
    ensures
        rect_cells(r).len() == r.width * r.height,
        forall|dx: int, dy: int|
            0 <= dx < r.width && 0 <= dy < r.height ==> {
                &&& (#[trigger] rect_cells(r)[dy * r.width + dx]).col == r.col + dx
                &&& rect_cells(r)[dy * r.width + dx].row == r.row + dy
                &&& rect_cells(r)[dy * r.width + dx].color == r.color
            },
{
    lemma_rect_rows(r, r.height as nat);
    assert(r.height * r.width == r.width * r.height) by (nonlinear_arith);
}

/// The number of cells a list of rects covers, counted with repeats.
pub open spec fn total_cells(rects: Seq<HexRect>) -> int
    decreases rects.len(),
{
    if rects.len() == 0 {
        0
    } else {
        total_cells(rects.drop_last()) + rects.last().width * rects.last().height
    }
}

/// Painting one more rect paints all of its cells after everything before
/// it, whatever its color or position.
pub proof fn paint_order_push(rects: Seq<HexRect>, r: HexRect)
    ensures
        paint_order(rects.push(r)) == paint_order(rects) + rect_cells(r),
{
    assert(rects.push(r).drop_last() =~= rects);
}

/// Painting two lists one after the other is painting their concatenation.
pub proof fn paint_order_concat(a: Seq<HexRect>, b: Seq<HexRect>)
    ensures
        paint_order(a + b) == paint_order(a) + paint_order(b),
    decreases b.len(),
{
    if b.len() == 0 {
        assert(a + b =~= a);
        assert(paint_order(a) + paint_order(b) =~= paint_order(a));
    } else {
        let b1 = b.drop_last();
        paint_order_concat(a, b1);
        assert((a + b).drop_last() =~= a + b1);
        assert((a + b).last() == b.last());
        assert(paint_order(a) + (paint_order(b1) + rect_cells(b.last())) =~= (paint_order(a)
            + paint_order(b1)) + rect_cells(b.last()));
    }
}

/// Every rect is painted in full: the painting holds, in all, the sum of
/// `width * height` over the rects.
pub proof fn paint_order_len(rects: Seq<HexRect>)
    ensures
        paint_order(rects).len() == total_cells(rects),
    decreases rects.len(),
{
    if rects.len() > 0 {
        paint_order_len(rects.drop_last());
        rect_cells_fill_rect(rects.last());
    }
}

/// What a malformed chunk's error names, read straight off its bytes: the
/// chunk index and reserved byte, or the chunk's column (byte 0) and row
/// (byte 1), and the condition each error stands for.
pub proof fn chunk_error_names_the_chunk(c: Seq<u8>, i: int)
    requires
        c.len() == 8,
        0 <= i <= usize::MAX,
    ensures
        chunk_error(c, i) matches Some(HexCodecError::ReservedByteNonZero { index, value }) ==> index
            == i && value == c[7] && value != 0,
        chunk_error(c, i) matches Some(HexCodecError::OutOfGrid { col, row }) ==> col == c[0] && row
            == c[1] && c[7] == 0 && (c[0] > 95 || c[1] > 95),
        chunk_error(c, i) matches Some(HexCodecError::ZeroDimension { col, row }) ==> col == c[0]
            && row == c[1] && c[7] == 0 && c[0] <= 95 && c[1] <= 95 && (c[2] == 0 || c[3] == 0),
        chunk_error(c, i) is None <==> (c[7] == 0 && c[0] <= 95 && c[1] <= 95 && c[2] != 0 && c[3]
            != 0),
        !(chunk_error(c, i) matches Some(HexCodecError::NotMultipleOf8)),
{
}

/// What parsing reads: rect `i` takes its column, row, width and height from
/// bytes `8i` to `8i + 3`, and its color, big-endian, from bytes `8i + 4` to
/// `8i + 6`.
pub proof fn decoded_reads_bytes(data: Seq<u8>, i: int)
    requires
        0 <= i < chunk_count(data),
    ensures
        decoded(data).len() == data.len() / 8,
        decoded(data)[i].col == data[8 * i],
        decoded(data)[i].row == data[8 * i + 1],
        decoded(data)[i].width == data[8 * i + 2],
        decoded(data)[i].height == data[8 * i + 3],
        decoded(data)[i].color == data[8 * i + 4] * 0x10000 + data[8 * i + 5] * 0x100 + data[8 * i
            + 6],
{
    let (a, b, c) = (data[8 * i + 4], data[8 * i + 5], data[8 * i + 6]);
    assert(((a * 0x10000 + b * 0x100 + c) as u32) as int == a * 0x10000 + b * 0x100 + c) by (bit_vector);
}

/// What encoding writes: rect `i` fills bytes `8i` to `8i + 7` with its
/// column, row, width, height, the low 24 bits of its color big-endian, and
/// a zero.
pub proof fn encoded_writes_fields(rects: Seq<HexRect>, i: int)
    requires
        0 <= i < rects.len(),
    ensures
        encoded(rects).len() == 8 * rects.len(),
        encoded(rects)[8 * i] == rects[i].col,
        encoded(rects)[8 * i + 1] == rects[i].row,
        encoded(rects)[8 * i + 2] == rects[i].width,
        encoded(rects)[8 * i + 3] == rects[i].height,
        encoded(rects)[8 * i + 4] * 0x10000 + encoded(rects)[8 * i + 5] * 0x100 + encoded(rects)[8
            * i + 6] == rects[i].color % 0x1000000,
        encoded(rects)[8 * i + 7] == 0,
{
    lemma_chunk_of_encoded(rects, i);
    let color = rects[i].color;
    assert(((color / 0x10000 % 0x100) as u8) * 0x10000 + ((color / 0x100 % 0x100) as u8) * 0x100
        + ((color % 0x100) as u8) == color % 0x1000000) by (bit_vector);
    let e = encoded(rects);
    assert(e[8 * i + 4] == chunk(e, i)[4]);
    assert(e[8 * i + 5] == chunk(e, i)[5]);
    assert(e[8 * i + 6] == chunk(e, i)[6]);
}

/// Expand rects into the individual hex cells to paint, in painting order.
pub fn expand_rects(rects: &[HexRect]) -> (cells: Vec<HexCell>)
    ensures
        cells@ == paint_order(rects@),
{
    let mut cells: Vec<HexCell> = Vec::new();
    let mut i: usize = 0;
    while i < rects.len()
        invariant
            i <= rects@.len(),
            cells@ == paint_order(rects@.take(i as int)),
        decreases rects@.len() - i,
    {
        let rect = rects[i];
        let ghost start = cells@;
        let mut dy: u8 = 0;
        while dy < rect.height
            invariant
                dy <= rect.height,
                cells@ == start + rect_rows(rect, dy as nat),
            decreases rect.height - dy,
        {
            let ghost row_start = cells@;
            let mut dx: u8 = 0;
            while dx < rect.width
                invariant
                    dx <= rect.width,
                    cells@ == row_start + Seq::new(dx as nat, |x: int| cell_at(rect, x, dy as int)),
                decreases rect.width - dx,
            {
                cells.push(
                    HexCell {
                        col: rect.col as u32 + dx as u32,
                        row: rect.row as u32 + dy as u32,
                        color: rect.color,
                    },
                );
                assert(Seq::new(dx as nat, |x: int| cell_at(rect, x, dy as int)).push(
                    cell_at(rect, dx as int, dy as int),
                ) =~= Seq::new((dx + 1) as nat, |x: int| cell_at(rect, x, dy as int)));
                dx = dx + 1;
            }
            assert(Seq::new(dx as nat, |x: int| cell_at(rect, x, dy as int)) =~= rect_row(
                rect,
                dy as int,
            ));
            assert(rect_rows(rect, (dy + 1) as nat) == rect_rows(rect, dy as nat) + rect_row(
                rect,
                dy as int,
            ));
            dy = dy + 1;
        }
        assert(rects@.take(i + 1).drop_last() =~= rects@.take(i as int));
        assert(rects@.take(i + 1).last() == rect);
        i = i + 1;
    }
    assert(rects@.take(rects@.len() as int) =~= rects@);
    cells
}

/// The RGBA pixel of a 0xRRGGBB color, fully opaque.
pub fn uint24_to_rgba(color: u32) -> (px: [u8; 4])
    ensures
        px@ == seq![color_hi(color), color_mid(color), color_lo(color), 255u8],
{
    let r = ((color >> 16) & 0xFF) as u8;
    let g = ((color >> 8) & 0xFF) as u8;
    let b = (color & 0xFF) as u8;
    assert(r == color_hi(color) && g == color_mid(color) && b == color_lo(color)) by (bit_vector)
        requires
            r == ((color >> 16) & 0xFF) as u8,
            g == ((color >> 8) & 0xFF) as u8,
            b == (color & 0xFF) as u8,
    ;
    let px = [r, g, b, 255u8];
    assert(px@ =~= seq![r, g, b, 255u8]);
    px
}

} // verus!
