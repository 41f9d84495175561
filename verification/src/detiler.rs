//! Detiler for the `NV12_COL128` layout: NV12 where each plane is cut into
//! vertical columns 128 bytes wide, each column storing its rows contiguously.
//!
//! ```text
//!   tiled_offset(x, y) = col_base(x / 128) + y * 128 + (x % 128)
//!   col_base(c)        = c * (128 * aligned_height)
//! ```
use vstd::prelude::*;
use vstd::arithmetic::div_mod::{lemma_fundamental_div_mod, lemma_fundamental_div_mod_converse};

verus! {

/// Width in bytes of one tile column.
pub const TILE_W: usize = 128;

/// Geometry of one tiled plane.
#[derive(Clone, Copy, Debug)]
pub struct PlaneGeom {
    /// Visible bytes per row (== pixels for 8-bit luma; == width for NV12 UV).
    pub width: usize,
    /// Visible rows to emit.
    pub height: usize,
    /// Column height used for the 128-byte column stride (>= height, may be
    /// padded by the hardware).
    pub aligned_height: usize,
}

impl PlaneGeom {
    /// Number of tile columns: `ceil(width / 128)`.
    pub open spec fn spec_cols(self) -> int {
        (self.width + TILE_W - 1) / (TILE_W as int)
    }

    /// Bytes between the start of column `c` and column `c + 1`.
    pub open spec fn spec_col_stride(self) -> int {
        TILE_W * self.aligned_height
    }

    /// Total tiled size of the plane.
    pub open spec fn spec_tiled_len(self) -> int {
        self.spec_cols() * self.spec_col_stride()
    }

    /// Size of the tightly packed linear plane.
    pub open spec fn spec_linear_len(self) -> int {
        self.width * self.height
    }

    /// Bytes of column `c` that belong to the visible plane.
    pub open spec fn copy_width(self, c: int) -> int {
        if c < (self.width as int) / (TILE_W as int) {
            TILE_W as int
        } else {
            (self.width as int) % (TILE_W as int)
        }
    }

    /// Offset in the tiled buffer of the visible byte `(x, y)`.
    pub open spec fn tiled_offset(self, x: int, y: int) -> int {
        (x / (TILE_W as int)) * self.spec_col_stride() + y * TILE_W + x % (TILE_W as int)
    }

    /// One past the last tiled byte that row-run copies of column `c` touch.
    pub open spec fn run_end(self, c: int) -> int {
        c * self.spec_col_stride() + (self.height - 1) * TILE_W + self.copy_width(c)
    }

    /// Every column run of the plane lies within a tiled buffer of `len` bytes.
    pub open spec fn col_runs_fit(self, len: int) -> bool {
        self.width == 0 || self.height == 0 || forall|c: int|
            0 <= c < self.spec_cols() ==> #[trigger] self.run_end(c) <= len
    }

    /// The tiled size is representable.
    pub open spec fn tiled_len_fits(self) -> bool {
        &&& self.spec_col_stride() <= usize::MAX
        &&& self.spec_tiled_len() <= usize::MAX
    }

    pub fn cols(&self) -> (r: usize)
        ensures
            r == self.spec_cols(),
    {
        let q = self.width / TILE_W;
        if self.width % TILE_W == 0 {
            q
        } else {
            q + 1
        }
    }

    /// Bytes between the start of column c and column c+1 in the tiled buffer.
    pub fn col_stride(&self) -> (r: usize)
        requires
            self.spec_col_stride() <= usize::MAX,
        ensures
            r == self.spec_col_stride(),
    {
        TILE_W * self.aligned_height
    }

    /// Total tiled size of this plane.
    pub fn tiled_len(&self) -> (r: usize)
        requires
            self.tiled_len_fits(),
        ensures
            r == self.spec_tiled_len(),
    {
        self.cols() * self.col_stride()
    }

    /// Size of the linear (detiled) plane, tightly packed.
    pub fn linear_len(&self) -> (r: usize)
        requires
            self.spec_linear_len() <= usize::MAX,
        ensures
            r == self.spec_linear_len(),
    {
        self.width * self.height
    }
}

/// Rows of a linear buffer with row stride `stride` do not overlap.
pub open spec fn rows_disjoint(g: PlaneGeom, stride: int) -> bool {
    g.height <= 1 || g.width <= stride
}

/// Every visible row lies within a linear buffer of `len` bytes.
pub open spec fn rows_fit(g: PlaneGeom, stride: int, len: int) -> bool {
    g.width == 0 || g.height == 0 || (g.height - 1) * stride + g.width <= len
}

/// Row of the linear position `i` (for a plane whose rows do not overlap).
pub open spec fn row_of(g: PlaneGeom, stride: int, i: int) -> int {
    if g.height <= 1 || stride == 0 {
        0
    } else {
        i / stride
    }
}

/// Column (byte within the row) of the linear position `i`.
pub open spec fn col_of(g: PlaneGeom, stride: int, i: int) -> int {
    i - row_of(g, stride, i) * stride
}

/// Linear position `i` holds a visible byte of the plane.
pub open spec fn in_plane(g: PlaneGeom, stride: int, i: int) -> bool {
    &&& 0 <= i
    &&& row_of(g, stride, i) < g.height
    &&& 0 <= col_of(g, stride, i) < g.width
}

/// The linear buffer `dst` with every visible byte of the plane taken from
/// its place in the tiled buffer `src`; other bytes keep their value. This is
/// what detiling gives when the rows of the linear buffer do not overlap
/// (see [`lemma_detiled_is_placed`]).
pub open spec fn placed_plane(src: Seq<u8>, dst: Seq<u8>, g: PlaneGeom, stride: int) -> Seq<u8> {
    Seq::new(
        dst.len(),
        |i: int|
            if in_plane(g, stride, i) {
                src[g.tiled_offset(col_of(g, stride, i), row_of(g, stride, i))]
            } else {
                dst[i]
            },
    )
}

/// The run of column `c`, row `y` (its visible bytes, copied as one piece)
/// writes linear position `i`.
pub open spec fn run_covers(g: PlaneGeom, stride: int, c: int, y: int, i: int) -> bool {
    let d = y * stride + c * TILE_W;
    d <= i < d + g.copy_width(c)
}

/// The tiled byte that the run of column `c`, row `y` writes to position `i`.
pub open spec fn run_byte(src: Seq<u8>, g: PlaneGeom, stride: int, c: int, y: int, i: int) -> u8 {
    src[c * g.spec_col_stride() + y * TILE_W + (i - (y * stride + c * TILE_W))]
}

/// The last run before `(c, y)` in copy order (columns left to right, rows
/// top to bottom within a column) that writes position `i`.
pub open spec fn last_run_before(g: PlaneGeom, stride: int, i: int, c: int, y: int) -> Option<(int, int)>
    decreases c, y,
{
    if y > 0 {
        if run_covers(g, stride, c, y - 1, i) {
            Some((c, y - 1))
        } else {
            last_run_before(g, stride, i, c, y - 1)
        }
    } else if c > 0 {
        last_run_before(g, stride, i, c - 1, g.height as int)
    } else {
        None
    }
}

/// `dst` after the runs before `(c, y)` have been copied in order: each
/// position holds what the last run that wrote it brought.
pub open spec fn detile_progress(
    src: Seq<u8>,
    dst: Seq<u8>,
    g: PlaneGeom,
    stride: int,
    c: int,
    y: int,
) -> Seq<u8> {
    Seq::new(
        dst.len(),
        |i: int|
            match last_run_before(g, stride, i, c, y) {
                Some((rc, ry)) => run_byte(src, g, stride, rc, ry, i),
                None => dst[i],
            },
    )
}

/// The linear buffer `dst` after every row run of every column of the plane
/// has been copied from the tiled buffer `src`, in order; where rows of the
/// linear buffer overlap, the later run wins.
pub open spec fn detiled_plane(src: Seq<u8>, dst: Seq<u8>, g: PlaneGeom, stride: int) -> Seq<u8> {
    detile_progress(src, dst, g, stride, g.spec_cols(), 0)
}

/// Copying run `(c, y)` takes the progress from before it to after it.
proof fn lemma_run_step(src: Seq<u8>, dst0: Seq<u8>, g: PlaneGeom, stride: int, c: int, y: int)
    requires
        0 <= y,
    ensures
        forall|i: int|
            0 <= i < dst0.len() ==> #[trigger] detile_progress(src, dst0, g, stride, c, y + 1)[i] == if run_covers(
                g,
                stride,
                c,
                y,
                i,
            ) {
                run_byte(src, g, stride, c, y, i)
            } else {
                detile_progress(src, dst0, g, stride, c, y)[i]
            },
{
}

/// With no rows, no run writes anything.
proof fn lemma_no_rows(g: PlaneGeom, stride: int, i: int, c: int)
    requires
        g.height == 0,
        0 <= c,
    ensures
        last_run_before(g, stride, i, c, 0) is None,
    decreases c,
{
    if c > 0 {
        lemma_no_rows(g, stride, i, c - 1);
    }
}

/// `(a, b)` comes before `(c, y)` in copy order.
pub open spec fn run_before(a: int, b: int, c: int, y: int) -> bool {
    a < c || (a == c && b < y)
}

/// With disjoint rows, the only run that writes a visible byte is the run of
/// its own column and row.
proof fn lemma_last_run_disjoint(g: PlaneGeom, stride: int, i: int, c: int, y: int)
    requires
        rows_disjoint(g, stride),
        0 <= stride,
        0 <= i,
        0 <= c,
        0 <= y <= g.height,
        y == 0 ==> c <= g.spec_cols(),
        y > 0 ==> c < g.spec_cols(),
    ensures
        last_run_before(g, stride, i, c, y) == if in_plane(g, stride, i) && run_before(
            col_of(g, stride, i) / (TILE_W as int),
            row_of(g, stride, i),
            c,
            y,
        ) {
            Some((col_of(g, stride, i) / (TILE_W as int), row_of(g, stride, i)))
        } else {
            None
        },
    decreases c, y,
{
    if y > 0 {
        lemma_row_run(g, stride, c, y - 1, i);
        if !run_covers(g, stride, c, y - 1, i) {
            lemma_last_run_disjoint(g, stride, i, c, y - 1);
        }
    } else if c > 0 {
        lemma_last_run_disjoint(g, stride, i, c - 1, g.height as int);
    } else {
        if in_plane(g, stride, i) {
            assert(col_of(g, stride, i) / (TILE_W as int) >= 0);
        }
    }
}

/// With disjoint rows, detiling in order places every visible byte.
pub proof fn lemma_detiled_is_placed(src: Seq<u8>, dst: Seq<u8>, g: PlaneGeom, stride: int)
    requires
        rows_disjoint(g, stride),
        0 <= stride,
    ensures
        detiled_plane(src, dst, g, stride) =~= placed_plane(src, dst, g, stride),
{
    let a = detiled_plane(src, dst, g, stride);
    let b = placed_plane(src, dst, g, stride);
    assert forall|i: int| 0 <= i < a.len() implies #[trigger] a[i] == b[i] by {
        assert(g.spec_cols() >= 0);
        lemma_last_run_disjoint(g, stride, i, g.spec_cols(), 0);
        if in_plane(g, stride, i) {
            let col = col_of(g, stride, i);
            let row = row_of(g, stride, i);
            lemma_fundamental_div_mod(col, TILE_W as int);
            lemma_fundamental_div_mod((g.width + TILE_W - 1) as int, TILE_W as int);
            assert(col / (TILE_W as int) < g.spec_cols());
            assert(i - (row * stride + (col / (TILE_W as int)) * TILE_W) == col % (TILE_W as int));
        }
    }
}

proof fn lemma_copy_width(g: PlaneGeom, c: int)
    requires
        0 <= c < g.spec_cols(),
    ensures
        0 < g.copy_width(c) <= TILE_W,
        c * TILE_W + g.copy_width(c) <= g.width,
        c == (g.width as int) / (TILE_W as int) ==> c * TILE_W + g.copy_width(c) == g.width,
        c < (g.width as int) / (TILE_W as int) ==> g.copy_width(c) == TILE_W,
{
    lemma_fundamental_div_mod(g.width as int, TILE_W as int);
    lemma_fundamental_div_mod((g.width + TILE_W - 1) as int, TILE_W as int);
    let q = (g.width as int) / (TILE_W as int);
    let r = (g.width as int) % (TILE_W as int);
    if r == 0 {
        lemma_fundamental_div_mod_converse(g.width + TILE_W - 1, TILE_W as int, q, TILE_W - 1);
    } else {
        lemma_fundamental_div_mod_converse(g.width + TILE_W - 1, TILE_W as int, q + 1, r - 1);
    }
    if c < q {
        assert(c * TILE_W + TILE_W <= q * TILE_W) by (nonlinear_arith)
            requires c < q;
    }
}

/// The byte `(x, y)` of a plane sits at `y * stride + x` of the linear buffer.
proof fn lemma_linear_position(g: PlaneGeom, stride: int, x: int, y: int)
    requires
        rows_disjoint(g, stride),
        0 <= x < g.width,
        0 <= y < g.height,
        0 <= stride,
    ensures
        row_of(g, stride, y * stride + x) == y,
        col_of(g, stride, y * stride + x) == x,
        in_plane(g, stride, y * stride + x),
{
    let i = y * stride + x;
    assert(0 <= y * stride) by (nonlinear_arith)
        requires 0 <= y, 0 <= stride;
    if g.height <= 1 {
        assert(y == 0);
        assert(i == x);
    } else if stride == 0 {
        assert(false);
    } else {
        lemma_fundamental_div_mod_converse(i, stride, y, x);
    }
}

/// Decomposition of a tiled offset into its column, row and byte.
proof fn lemma_tiled_offset_split(g: PlaneGeom, c: int, k: int, y: int)
    requires
        0 <= k < TILE_W,
        0 <= c,
    ensures
        g.tiled_offset(c * TILE_W + k, y) == c * g.spec_col_stride() + y * TILE_W + k,
        (c * TILE_W + k) / (TILE_W as int) == c,
        (c * TILE_W + k) % (TILE_W as int) == k,
{
    lemma_fundamental_div_mod_converse(c * TILE_W + k, TILE_W as int, c, k);
}

/// The positions written by the row run `(c, y)` are exactly the visible
/// positions of column `c` in row `y`.
proof fn lemma_row_run(g: PlaneGeom, stride: int, c: int, y: int, i: int)
    requires
        rows_disjoint(g, stride),
        0 <= stride,
        0 <= c < g.spec_cols(),
        0 <= y < g.height,
        0 <= i,
    ensures
        (in_plane(g, stride, i) && col_of(g, stride, i) / (TILE_W as int) == c
            && row_of(g, stride, i) == y) <==> (y * stride + c * TILE_W <= i < y * stride
            + c * TILE_W + g.copy_width(c)),
        y * stride + c * TILE_W <= i < y * stride + c * TILE_W + g.copy_width(c) ==> {
            &&& col_of(g, stride, i) == c * TILE_W + (i - (y * stride + c * TILE_W))
            &&& g.tiled_offset(col_of(g, stride, i), row_of(g, stride, i)) == c
                * g.spec_col_stride() + y * TILE_W + (i - (y * stride + c * TILE_W))
        },
{
    lemma_copy_width(g, c);
    let d = y * stride + c * TILE_W;
    if d <= i < d + g.copy_width(c) {
        let k = i - d;
        let x = c * TILE_W + k;
        assert(0 <= c * TILE_W) by (nonlinear_arith)
            requires 0 <= c;
        lemma_linear_position(g, stride, x, y);
        lemma_tiled_offset_split(g, c, k, y);
    }
    if in_plane(g, stride, i) && col_of(g, stride, i) / (TILE_W as int) == c && row_of(g, stride, i)
        == y {
        let col = col_of(g, stride, i);
        lemma_fundamental_div_mod(col, TILE_W as int);
        let k = col % (TILE_W as int);
        assert(col == c * TILE_W + k);
        if c == (g.width as int) / (TILE_W as int) {
            assert(k < g.copy_width(c));
        }
        assert(i == y * stride + col);
    }
}

/// Copy `n` bytes from `src[s..]` to `dst[d..]`.
fn copy_run(src: &[u8], s: usize, dst: &mut [u8], d: usize, n: usize)
    requires
        s + n <= src@.len(),
        d + n <= old(dst)@.len(),
    ensures
        final(dst)@.len() == old(dst)@.len(),
        forall|i: int|
            0 <= i < old(dst)@.len() ==> #[trigger] final(dst)@[i] == if d <= i < d + n {
                src@[s + i - d]
            } else {
                old(dst)@[i]
            },
{
    let ghost dst0 = dst@;
    let src_len = src.len();
    let dst_len = dst.len();
    let mut k: usize = 0;
    while k < n
        invariant
            k <= n,
            src_len == src@.len(),
            dst_len == dst0.len(),
            s + n <= src@.len(),
            d + n <= dst0.len(),
            dst@.len() == dst0.len(),
            forall|i: int|
                0 <= i < dst0.len() ==> #[trigger] dst@[i] == if d <= i < d + k {
                    src@[s + i - d]
                } else {
                    dst0[i]
                },
        decreases n - k,
    {
        dst[d + k] = src[s + k];
        k += 1;
    }
}

/// Detile one plane into a linear buffer with row stride `dst_stride`.
/// Portable reference implementation.
pub fn detile_plane_scalar(src: &[u8], dst: &mut [u8], g: PlaneGeom, dst_stride: usize)
    requires
        g.tiled_len_fits(),
        dst_stride * g.height <= usize::MAX,
        src@.len() >= g.spec_tiled_len(),
        old(dst)@.len() >= dst_stride * g.height,
        g.col_runs_fit(src@.len() as int),
        rows_fit(g, dst_stride as int, old(dst)@.len() as int),
    ensures
        final(dst)@ == detiled_plane(src@, old(dst)@, g, dst_stride as int),
{
    let ghost dst0 = dst@;
    let src_len = src.len();
    let dst_len = dst.len();
    let col_stride = g.col_stride();
    let full_cols = g.width / TILE_W;
    let rem = g.width % TILE_W;
    let cols = g.cols();
    let mut c: usize = 0;
    while c < cols
        invariant
            c <= cols,
            cols == g.spec_cols(),
            col_stride == g.spec_col_stride(),
            full_cols == (g.width as int) / (TILE_W as int),
            rem == (g.width as int) % (TILE_W as int),
            g.tiled_len_fits(),
            src_len == src@.len(),
            dst_len == dst0.len(),
            src@.len() >= g.spec_tiled_len(),
            g.col_runs_fit(src@.len() as int),
            rows_fit(g, dst_stride as int, dst0.len() as int),
            dst@ == detile_progress(src@, dst0, g, dst_stride as int, c as int, 0),
        decreases cols - c,
    {
        proof {
            lemma_copy_width(g, c as int);
            assert(c * col_stride <= g.spec_tiled_len()) by (nonlinear_arith)
                requires c < cols, cols == g.spec_cols(), col_stride == g.spec_col_stride(),
                    g.spec_tiled_len() == g.spec_cols() * g.spec_col_stride(), col_stride >= 0;
        }
        let copy_w = if c < full_cols { TILE_W } else { rem };
        let col_base = c * col_stride;
        let x0 = c * TILE_W;
        let mut y: usize = 0;
        while y < g.height
            invariant
                c < cols,
                cols == g.spec_cols(),
                y <= g.height,
                col_stride == g.spec_col_stride(),
                col_base == c * col_stride,
                x0 == c * TILE_W,
                copy_w == g.copy_width(c as int),
                0 < copy_w <= TILE_W,
                x0 + copy_w <= g.width,
                src_len == src@.len(),
                dst_len == dst0.len(),
                g.col_runs_fit(src@.len() as int),
                rows_fit(g, dst_stride as int, dst0.len() as int),
                dst@ == detile_progress(src@, dst0, g, dst_stride as int, c as int, y as int),
            decreases g.height - y,
        {
            proof {
                assert(g.run_end(c as int) <= src@.len());
                assert(y * TILE_W <= (g.height - 1) * TILE_W) by (nonlinear_arith)
                    requires y < g.height;
                assert(y * dst_stride <= (g.height - 1) * dst_stride) by (nonlinear_arith)
                    requires y < g.height;
            }
            let s = col_base + y * TILE_W;
            let d = y * dst_stride + x0;
            let ghost before = dst@;
            copy_run(src, s, dst, d, copy_w);
            proof {
                let after = detile_progress(src@, dst0, g, dst_stride as int, c as int, y + 1);
                lemma_run_step(src@, dst0, g, dst_stride as int, c as int, y as int);
                assert forall|i: int| 0 <= i < dst@.len() implies #[trigger] dst@[i] == after[i] by {}
                assert(dst@ =~= after);
            }
            y += 1;
        }
        proof { lemma_column_done(src@, dst0, g, dst_stride as int, c as int); }
        c += 1;
    }
}


// ---------------------------------------------------------------------------
// NV12 frames
// ---------------------------------------------------------------------------

/// Luma geometry of an NV12 frame.
pub open spec fn nv12_luma(width: usize, height: usize, aligned_height: usize) -> PlaneGeom {
    PlaneGeom { width, height, aligned_height }
}

/// Chroma geometry of an NV12 frame: interleaved UV, same byte width, half height.
pub open spec fn nv12_chroma(width: usize, height: usize, aligned_height: usize) -> PlaneGeom {
    PlaneGeom {
        width,
        height: (height / 2) as usize,
        aligned_height: (aligned_height / 2) as usize,
    }
}

/// (luma, chroma) geometry for an NV12 frame.
pub fn nv12_planes(width: usize, height: usize, aligned_height: usize) -> (r: (PlaneGeom, PlaneGeom))
    ensures
        r.0 == nv12_luma(width, height, aligned_height),
        r.1 == nv12_chroma(width, height, aligned_height),
{
    let luma = PlaneGeom { width, height, aligned_height };
    let chroma = PlaneGeom { width, height: height / 2, aligned_height: aligned_height / 2 };
    (luma, chroma)
}

/// Chroma needs no more room than luma.
proof fn lemma_chroma_smaller(w: usize, h: usize, ah: usize)
    ensures
        nv12_chroma(w, h, ah).spec_col_stride() <= nv12_luma(w, h, ah).spec_col_stride(),
        nv12_chroma(w, h, ah).spec_tiled_len() <= nv12_luma(w, h, ah).spec_tiled_len(),
        nv12_chroma(w, h, ah).spec_linear_len() <= nv12_luma(w, h, ah).spec_linear_len(),
        nv12_chroma(w, h, ah).spec_cols() == nv12_luma(w, h, ah).spec_cols(),
{
    let l = nv12_luma(w, h, ah);
    let c = nv12_chroma(w, h, ah);
    assert(c.spec_cols() * c.spec_col_stride() <= l.spec_cols() * l.spec_col_stride())
        by (nonlinear_arith)
        requires c.spec_cols() == l.spec_cols(), c.spec_cols() >= 0,
            0 <= c.spec_col_stride() <= l.spec_col_stride();
    assert(w * (h / 2) <= w * h) by (nonlinear_arith);
}

/// The linear NV12 frame `dst` after detiling both planes of the tiled frame
/// `src` (luma at the front of both buffers, chroma right after it).
pub open spec fn nv12_detiled(src: Seq<u8>, dst: Seq<u8>, width: usize, height: usize, aligned_height: usize) -> Seq<u8> {
    let luma = nv12_luma(width, height, aligned_height);
    let chroma = nv12_chroma(width, height, aligned_height);
    let lt = luma.spec_tiled_len();
    let ll = luma.spec_linear_len();
    detiled_plane(src.take(lt), dst.take(ll), luma, width as int) + detiled_plane(
        src.skip(lt),
        dst.skip(ll),
        chroma,
        width as int,
    )
}

/// Conditions under which detiling an NV12 frame stays within its buffers.
pub open spec fn nv12_detile_fits(src_len: int, dst_len: int, width: usize, height: usize, aligned_height: usize) -> bool {
    let luma = nv12_luma(width, height, aligned_height);
    let chroma = nv12_chroma(width, height, aligned_height);
    &&& luma.tiled_len_fits()
    &&& luma.spec_linear_len() <= usize::MAX
    &&& src_len >= luma.spec_tiled_len() + chroma.spec_tiled_len()
    &&& dst_len >= luma.spec_linear_len() + chroma.spec_linear_len()
    &&& (width == 0 || height <= aligned_height)
}

/// Detile a full NV12 frame (scalar). `dst` is tightly packed linear NV12:
/// luma `width*height` then chroma `width*(height/2)`.
pub fn detile_nv12_scalar(src: &[u8], dst: &mut [u8], width: usize, height: usize, aligned_height: usize)
    requires
        nv12_detile_fits(src@.len() as int, old(dst)@.len() as int, width, height, aligned_height),
    ensures
        final(dst)@ == nv12_detiled(src@, old(dst)@, width, height, aligned_height),
{
    let (luma, chroma) = nv12_planes(width, height, aligned_height);
    proof { lemma_chroma_smaller(width, height, aligned_height); }
    let (l_src, c_src) = src.split_at(luma.tiled_len());
    let (l_dst, c_dst) = dst.split_at_mut(luma.linear_len());
    proof { lemma_nv12_runs_fit(src@.len() as int, width, height, aligned_height); }
    detile_plane_scalar(l_src, l_dst, luma, width);
    detile_plane_scalar(c_src, c_dst, chroma, width);
}

/// A tightly packed plane (row stride == width) has disjoint rows that fit.
proof fn lemma_rows_fit_packed(g: PlaneGeom)
    ensures
        rows_disjoint(g, g.width as int),
        rows_fit(g, g.width as int, g.spec_linear_len()),
{
    if g.height > 0 {
        assert((g.height - 1) * g.width + g.width == g.width * g.height) by (nonlinear_arith);
    }
}


// ---------------------------------------------------------------------------
// Wide-copy kernels. Full 128-byte columns are moved as two 64-byte halves
// (the shape of the 4x16-byte vector loads they were designed around); a
// partial trailing column falls back to the scalar run copy.
// ---------------------------------------------------------------------------

/// Copy one full 128-byte column row as two 64-byte halves.
fn copy_row_128(src: &[u8], s: usize, dst: &mut [u8], d: usize)
    requires
        s + TILE_W <= src@.len(),
        d + TILE_W <= old(dst)@.len(),
    ensures
        final(dst)@.len() == old(dst)@.len(),
        forall|i: int|
            0 <= i < old(dst)@.len() ==> #[trigger] final(dst)@[i] == if d <= i < d + TILE_W {
                src@[s + i - d]
            } else {
                old(dst)@[i]
            },
{
    let _ = src.len();
    let _ = dst.len();
    copy_run(src, s, dst, d, 64);
    copy_run(src, s + 64, dst, d + 64, 64);
}

/// Rows of the partial trailing column (if any), copied run by run.
fn detile_trailing_column(
    src: &[u8],
    dst: &mut [u8],
    g: PlaneGeom,
    dst_stride: usize,
    Ghost(dst0): Ghost<Seq<u8>>,
)
    requires
        g.tiled_len_fits(),
        src@.len() >= g.spec_tiled_len(),
        g.col_runs_fit(src@.len() as int),
        rows_fit(g, dst_stride as int, dst0.len() as int),
        old(dst)@ == detile_progress(src@, dst0, g, dst_stride as int, (g.width / TILE_W) as int, 0),
    ensures
        final(dst)@ == detiled_plane(src@, dst0, g, dst_stride as int),
{
    let src_len = src.len();
    let dst_len = dst.len();
    let col_stride = g.col_stride();
    let full_cols = g.width / TILE_W;
    let rem = g.width % TILE_W;
    proof {
        lemma_fundamental_div_mod(g.width as int, TILE_W as int);
        lemma_fundamental_div_mod((g.width + TILE_W - 1) as int, TILE_W as int);
        if rem == 0 {
            lemma_fundamental_div_mod_converse(g.width + TILE_W - 1, TILE_W as int, full_cols as int, TILE_W - 1);
        } else {
            lemma_fundamental_div_mod_converse(g.width + TILE_W - 1, TILE_W as int, full_cols + 1, rem - 1);
        }
    }
    if rem > 0 {
        let c = full_cols;
        proof {
            lemma_copy_width(g, c as int);
            assert(c * col_stride <= g.spec_tiled_len()) by (nonlinear_arith)
                requires c < g.spec_cols(), col_stride == g.spec_col_stride(),
                    g.spec_tiled_len() == g.spec_cols() * g.spec_col_stride(), col_stride >= 0;
        }
        let col_base = c * col_stride;
        let x0 = c * TILE_W;
        let mut y: usize = 0;
        while y < g.height
            invariant
                c == full_cols,
                c < g.spec_cols(),
                y <= g.height,
                col_stride == g.spec_col_stride(),
                col_base == c * col_stride,
                x0 == c * TILE_W,
                rem == g.copy_width(c as int),
                0 < rem <= TILE_W,
                x0 + rem <= g.width,
                src_len == src@.len(),
                dst_len == dst0.len(),
                g.col_runs_fit(src@.len() as int),
                rows_fit(g, dst_stride as int, dst0.len() as int),
                dst@ == detile_progress(src@, dst0, g, dst_stride as int, c as int, y as int),
            decreases g.height - y,
        {
            proof {
                assert(g.run_end(c as int) <= src@.len());
                assert(y * TILE_W <= (g.height - 1) * TILE_W) by (nonlinear_arith)
                    requires y < g.height;
                assert(y * dst_stride <= (g.height - 1) * dst_stride) by (nonlinear_arith)
                    requires y < g.height;
            }
            let s = col_base + y * TILE_W;
            let d = y * dst_stride + x0;
            copy_run(src, s, dst, d, rem);
            proof {
                let after = detile_progress(src@, dst0, g, dst_stride as int, c as int, y + 1);
                lemma_run_step(src@, dst0, g, dst_stride as int, c as int, y as int);
                assert forall|i: int| 0 <= i < dst@.len() implies #[trigger] dst@[i] == after[i] by {}
                assert(dst@ =~= after);
            }
            y += 1;
        }
        proof { lemma_column_done(src@, dst0, g, dst_stride as int, c as int); }
    }
}

/// Finishing every row of column `c` is the same as starting column `c + 1`.
proof fn lemma_column_done(src: Seq<u8>, dst0: Seq<u8>, g: PlaneGeom, stride: int, c: int)
    requires
        0 <= c,
    ensures
        detile_progress(src, dst0, g, stride, c, g.height as int) =~= detile_progress(src, dst0, g, stride, c + 1, 0),
{
    let a = detile_progress(src, dst0, g, stride, c, g.height as int);
    let b = detile_progress(src, dst0, g, stride, c + 1, 0);
    assert forall|i: int| 0 <= i < a.len() implies #[trigger] a[i] == b[i] by {
        assert(last_run_before(g, stride, i, c + 1, 0) == last_run_before(g, stride, i, c, g.height as int));
    }
}

/// Detile one plane with the wide-copy kernel: every full 128-wide column row
/// is moved as two 64-byte halves; a partial trailing column falls back to
/// run copies. Same result as [`detile_plane_scalar`].
pub fn detile_plane_neon(src: &[u8], dst: &mut [u8], g: PlaneGeom, dst_stride: usize)
    requires
        g.tiled_len_fits(),
        dst_stride * g.height <= usize::MAX,
        src@.len() >= g.spec_tiled_len(),
        old(dst)@.len() >= dst_stride * g.height,
        g.col_runs_fit(src@.len() as int),
        rows_fit(g, dst_stride as int, old(dst)@.len() as int),
    ensures
        final(dst)@ == detiled_plane(src@, old(dst)@, g, dst_stride as int),
{
    let ghost dst0 = dst@;
    let src_len = src.len();
    let dst_len = dst.len();
    let col_stride = g.col_stride();
    let full_cols = g.width / TILE_W;
    proof {
        lemma_fundamental_div_mod(g.width as int, TILE_W as int);
        lemma_fundamental_div_mod((g.width + TILE_W - 1) as int, TILE_W as int);
        assert(full_cols <= g.spec_cols());
    }
    let mut c: usize = 0;
    while c < full_cols
        invariant
            c <= full_cols,
            full_cols == g.width / TILE_W,
            full_cols <= g.spec_cols(),
            col_stride == g.spec_col_stride(),
            g.tiled_len_fits(),
            src_len == src@.len(),
            dst_len == dst0.len(),
            src@.len() >= g.spec_tiled_len(),
            g.col_runs_fit(src@.len() as int),
            rows_fit(g, dst_stride as int, dst0.len() as int),
            dst@ == detile_progress(src@, dst0, g, dst_stride as int, c as int, 0),
        decreases full_cols - c,
    {
        proof {
            lemma_copy_width(g, c as int);
            assert(c * col_stride <= g.spec_tiled_len()) by (nonlinear_arith)
                requires c < g.spec_cols(), col_stride == g.spec_col_stride(),
                    g.spec_tiled_len() == g.spec_cols() * g.spec_col_stride(), col_stride >= 0;
        }
        let col_base = c * col_stride;
        let x0 = c * TILE_W;
        let mut y: usize = 0;
        while y < g.height
            invariant
                c < full_cols,
                full_cols == g.width / TILE_W,
                full_cols <= g.spec_cols(),
                y <= g.height,
                col_stride == g.spec_col_stride(),
                col_base == c * col_stride,
                x0 == c * TILE_W,
                g.copy_width(c as int) == TILE_W,
                x0 + TILE_W <= g.width,
                src_len == src@.len(),
                dst_len == dst0.len(),
                g.col_runs_fit(src@.len() as int),
                rows_fit(g, dst_stride as int, dst0.len() as int),
                dst@ == detile_progress(src@, dst0, g, dst_stride as int, c as int, y as int),
            decreases g.height - y,
        {
            proof {
                assert(g.run_end(c as int) <= src@.len());
                assert(y * TILE_W <= (g.height - 1) * TILE_W) by (nonlinear_arith)
                    requires y < g.height;
                assert(y * dst_stride <= (g.height - 1) * dst_stride) by (nonlinear_arith)
                    requires y < g.height;
            }
            let sp = col_base + y * TILE_W;
            let dp = y * dst_stride + x0;
            copy_row_128(src, sp, dst, dp);
            proof {
                let after = detile_progress(src@, dst0, g, dst_stride as int, c as int, y + 1);
                lemma_run_step(src@, dst0, g, dst_stride as int, c as int, y as int);
                assert forall|i: int| 0 <= i < dst@.len() implies #[trigger] dst@[i] == after[i] by {}
                assert(dst@ =~= after);
            }
            y += 1;
        }
        proof { lemma_column_done(src@, dst0, g, dst_stride as int, c as int); }
        c += 1;
    }
    detile_trailing_column(src, dst, g, dst_stride, Ghost(dst0));
}

/// Detile one plane with the row-counter kernel: for each full column, a
/// counter runs down from `height` while 128-byte rows stream out of the
/// column; a partial trailing column falls back to run copies. Same result as
/// [`detile_plane_scalar`].
pub fn detile_plane_asm(src: &[u8], dst: &mut [u8], g: PlaneGeom, dst_stride: usize)
    requires
        g.tiled_len_fits(),
        dst_stride * g.height <= usize::MAX,
        src@.len() >= g.spec_tiled_len(),
        old(dst)@.len() >= dst_stride * g.height,
        g.col_runs_fit(src@.len() as int),
        rows_fit(g, dst_stride as int, old(dst)@.len() as int),
    ensures
        final(dst)@ == detiled_plane(src@, old(dst)@, g, dst_stride as int),
{
    let ghost dst0 = dst@;
    let src_len = src.len();
    let dst_len = dst.len();
    let col_stride = g.col_stride();
    let full_cols = g.width / TILE_W;
    proof {
        lemma_fundamental_div_mod(g.width as int, TILE_W as int);
        lemma_fundamental_div_mod((g.width + TILE_W - 1) as int, TILE_W as int);
        assert(full_cols <= g.spec_cols());
    }
    if g.height > 0 {
        let mut c: usize = 0;
        while c < full_cols
            invariant
                c <= full_cols,
                g.height > 0,
                full_cols == g.width / TILE_W,
                full_cols <= g.spec_cols(),
                col_stride == g.spec_col_stride(),
                g.tiled_len_fits(),
                src_len == src@.len(),
                dst_len == dst0.len(),
                src@.len() >= g.spec_tiled_len(),
                g.col_runs_fit(src@.len() as int),
                rows_fit(g, dst_stride as int, dst0.len() as int),
                dst@ == detile_progress(src@, dst0, g, dst_stride as int, c as int, 0),
            decreases full_cols - c,
        {
            proof {
                lemma_copy_width(g, c as int);
                assert(c * col_stride <= g.spec_tiled_len()) by (nonlinear_arith)
                    requires c < g.spec_cols(), col_stride == g.spec_col_stride(),
                        g.spec_tiled_len() == g.spec_cols() * g.spec_col_stride(), col_stride >= 0;
            }
            let sp = c * col_stride;
            let dp = c * TILE_W;
            let mut n: usize = g.height;
            while n > 0
                invariant
                    c < full_cols,
                    full_cols == g.width / TILE_W,
                    full_cols <= g.spec_cols(),
                    n <= g.height,
                    col_stride == g.spec_col_stride(),
                    sp == c * col_stride,
                    dp == c * TILE_W,
                    g.copy_width(c as int) == TILE_W,
                    dp + TILE_W <= g.width,
                    src_len == src@.len(),
                    dst_len == dst0.len(),
                    g.col_runs_fit(src@.len() as int),
                    rows_fit(g, dst_stride as int, dst0.len() as int),
                    dst@ == detile_progress(src@, dst0, g, dst_stride as int, c as int, g.height - n),
                decreases n,
            {
                let y = g.height - n;
                proof {
                    assert(g.run_end(c as int) <= src@.len());
                    assert(y * TILE_W <= (g.height - 1) * TILE_W) by (nonlinear_arith)
                        requires y < g.height;
                    assert(y * dst_stride <= (g.height - 1) * dst_stride) by (nonlinear_arith)
                        requires y < g.height;
                }
                copy_row_128(src, sp + y * TILE_W, dst, y * dst_stride + dp);
                proof {
                    let after = detile_progress(src@, dst0, g, dst_stride as int, c as int, y + 1);
                    lemma_run_step(src@, dst0, g, dst_stride as int, c as int, y as int);
                    assert forall|i: int| 0 <= i < dst@.len() implies #[trigger] dst@[i] == after[i] by {}
                    assert(dst@ =~= after);
                }
                n -= 1;
            }
            proof { lemma_column_done(src@, dst0, g, dst_stride as int, c as int); }
            c += 1;
        }
    } else {
        proof {
            let p = detile_progress(src@, dst0, g, dst_stride as int, full_cols as int, 0);
            assert forall|i: int| 0 <= i < p.len() implies #[trigger] p[i] == dst0[i] by {
                lemma_no_rows(g, dst_stride as int, i, full_cols as int);
            }
            assert(p =~= dst0);
        }
    }
    detile_trailing_column(src, dst, g, dst_stride, Ghost(dst0));
}

pub fn detile_nv12_neon(src: &[u8], dst: &mut [u8], width: usize, height: usize, aligned_height: usize)
    requires
        nv12_detile_fits(src@.len() as int, old(dst)@.len() as int, width, height, aligned_height),
    ensures
        final(dst)@ == nv12_detiled(src@, old(dst)@, width, height, aligned_height),
{
    let (luma, chroma) = nv12_planes(width, height, aligned_height);
    proof { lemma_chroma_smaller(width, height, aligned_height); }
    let (l_src, c_src) = src.split_at(luma.tiled_len());
    let (l_dst, c_dst) = dst.split_at_mut(luma.linear_len());
    proof { lemma_nv12_runs_fit(src@.len() as int, width, height, aligned_height); }
    detile_plane_neon(l_src, l_dst, luma, width);
    detile_plane_neon(c_src, c_dst, chroma, width);
}

pub fn detile_nv12_asm(src: &[u8], dst: &mut [u8], width: usize, height: usize, aligned_height: usize)
    requires
        nv12_detile_fits(src@.len() as int, old(dst)@.len() as int, width, height, aligned_height),
    ensures
        final(dst)@ == nv12_detiled(src@, old(dst)@, width, height, aligned_height),
{
    let (luma, chroma) = nv12_planes(width, height, aligned_height);
    proof { lemma_chroma_smaller(width, height, aligned_height); }
    let (l_src, c_src) = src.split_at(luma.tiled_len());
    let (l_dst, c_dst) = dst.split_at_mut(luma.linear_len());
    proof { lemma_nv12_runs_fit(src@.len() as int, width, height, aligned_height); }
    detile_plane_asm(l_src, l_dst, luma, width);
    detile_plane_asm(c_src, c_dst, chroma, width);
}


/// Column runs stay inside any buffer at least as long as the tiled plane,
/// provided columns are tall enough for the visible rows.
proof fn lemma_runs_fit(g: PlaneGeom, len: int)
    requires
        g.width == 0 || g.height <= g.aligned_height,
        g.spec_tiled_len() <= len,
    ensures
        g.col_runs_fit(len),
{
    if g.width > 0 && g.height > 0 {
        assert forall|c: int| 0 <= c < g.spec_cols() implies #[trigger] g.run_end(c) <= len by {
            lemma_copy_width(g, c);
            assert(c * g.spec_col_stride() + (g.height - 1) * TILE_W + g.copy_width(c) <= g.spec_tiled_len())
                by (nonlinear_arith)
                requires 0 <= c < g.spec_cols(), g.height <= g.aligned_height, g.copy_width(c) <= TILE_W,
                    g.spec_col_stride() == TILE_W * g.aligned_height,
                    g.spec_tiled_len() == g.spec_cols() * g.spec_col_stride();
        }
    }
}

proof fn lemma_nv12_runs_fit(src_len: int, w: usize, h: usize, ah: usize)
    requires
        nv12_detile_fits(src_len, src_len, w, h, ah) || (
            (w == 0 || h <= ah)
            && src_len >= nv12_luma(w, h, ah).spec_tiled_len() + nv12_chroma(w, h, ah).spec_tiled_len()),
    ensures
        nv12_luma(w, h, ah).col_runs_fit(nv12_luma(w, h, ah).spec_tiled_len()),
        nv12_chroma(w, h, ah).col_runs_fit(src_len - nv12_luma(w, h, ah).spec_tiled_len()),
        rows_disjoint(nv12_luma(w, h, ah), w as int),
        rows_fit(nv12_luma(w, h, ah), w as int, nv12_luma(w, h, ah).spec_linear_len()),
        rows_disjoint(nv12_chroma(w, h, ah), w as int),
        rows_fit(nv12_chroma(w, h, ah), w as int, nv12_chroma(w, h, ah).spec_linear_len()),
{
    let l = nv12_luma(w, h, ah);
    let c = nv12_chroma(w, h, ah);
    lemma_runs_fit(l, l.spec_tiled_len());
    lemma_runs_fit(c, src_len - l.spec_tiled_len());
    lemma_rows_fit_packed(l);
    lemma_rows_fit_packed(c);
}

// ---------------------------------------------------------------------------
// Reference tiler (inverse) — synthesizes tiled buffers without the hardware
// decoder.
// ---------------------------------------------------------------------------

/// Tile column of the tiled position `j`.
pub open spec fn tile_col_of(g: PlaneGeom, j: int) -> int {
    j / g.spec_col_stride()
}

/// Row of the tiled position `j` within its column.
pub open spec fn tile_row_of(g: PlaneGeom, j: int) -> int {
    (j % g.spec_col_stride()) / (TILE_W as int)
}

/// Byte offset within the plane row of the tiled position `j`.
pub open spec fn tile_x_of(g: PlaneGeom, j: int) -> int {
    tile_col_of(g, j) * TILE_W + (j % g.spec_col_stride()) % (TILE_W as int)
}

/// Tiled position `j` holds a visible byte of the plane.
pub open spec fn in_tiles(g: PlaneGeom, j: int) -> bool {
    &&& g.spec_col_stride() > 0
    &&& 0 <= j
    &&& tile_row_of(g, j) < g.height
    &&& tile_x_of(g, j) < g.width
}

/// The tiled buffer `tiled` after every visible byte of the linear plane
/// `linear` (row stride `stride`) has been placed at its tiled offset; other
/// bytes keep their value.
pub open spec fn tiled_plane(linear: Seq<u8>, tiled: Seq<u8>, g: PlaneGeom, stride: int) -> Seq<u8> {
    Seq::new(
        tiled.len(),
        |j: int|
            if in_tiles(g, j) {
                linear[tile_row_of(g, j) * stride + tile_x_of(g, j)]
            } else {
                tiled[j]
            },
    )
}

pub open spec fn tile_progress(linear: Seq<u8>, tiled: Seq<u8>, g: PlaneGeom, stride: int, c: int, y: int) -> Seq<u8> {
    Seq::new(
        tiled.len(),
        |j: int|
            if in_tiles(g, j) && (tile_col_of(g, j) < c || (tile_col_of(g, j) == c && tile_row_of(g, j) < y)) {
                linear[tile_row_of(g, j) * stride + tile_x_of(g, j)]
            } else {
                tiled[j]
            },
    )
}

/// Where the byte `(c * 128 + k, y)` sits in the tiled buffer, and back.
proof fn lemma_tile_position(g: PlaneGeom, c: int, k: int, y: int)
    requires
        g.height <= g.aligned_height,
        0 <= c,
        0 <= k < TILE_W,
        0 <= y < g.height,
    ensures
        tile_col_of(g, c * g.spec_col_stride() + y * TILE_W + k) == c,
        tile_row_of(g, c * g.spec_col_stride() + y * TILE_W + k) == y,
        tile_x_of(g, c * g.spec_col_stride() + y * TILE_W + k) == c * TILE_W + k,
        0 <= c * g.spec_col_stride() + y * TILE_W + k,
{
    let cs = g.spec_col_stride();
    let r = y * TILE_W + k;
    assert(r < cs) by (nonlinear_arith)
        requires r == y * TILE_W + k, k < TILE_W, y < g.height, g.height <= g.aligned_height,
            cs == TILE_W * g.aligned_height;
    assert(0 <= r) by (nonlinear_arith)
        requires r == y * TILE_W + k, 0 <= k, 0 <= y;
    assert(0 <= c * cs) by (nonlinear_arith)
        requires 0 <= c, 0 <= cs;
    lemma_fundamental_div_mod_converse(c * cs + r, cs, c, r);
    lemma_fundamental_div_mod_converse(r, TILE_W as int, y, k);
}

/// The tiled positions written by the row run `(c, y)` are exactly the visible
/// positions of column `c`, row `y`.
proof fn lemma_tile_row_run(g: PlaneGeom, c: int, y: int, j: int)
    requires
        g.height <= g.aligned_height,
        0 <= c < g.spec_cols(),
        0 <= y < g.height,
        0 <= j,
    ensures
        (in_tiles(g, j) && tile_col_of(g, j) == c && tile_row_of(g, j) == y) <==> (c * g.spec_col_stride()
            + y * TILE_W <= j < c * g.spec_col_stride() + y * TILE_W + g.copy_width(c)),
        c * g.spec_col_stride() + y * TILE_W <= j < c * g.spec_col_stride() + y * TILE_W + g.copy_width(c)
            ==> tile_x_of(g, j) == c * TILE_W + (j - (c * g.spec_col_stride() + y * TILE_W)),
{
    lemma_copy_width(g, c);
    let cs = g.spec_col_stride();
    let base = c * cs + y * TILE_W;
    assert(cs > 0) by (nonlinear_arith)
        requires cs == TILE_W * g.aligned_height, 0 <= y, y < g.height, g.height <= g.aligned_height;
    if base <= j < base + g.copy_width(c) {
        lemma_tile_position(g, c, j - base, y);
    }
    if in_tiles(g, j) && tile_col_of(g, j) == c && tile_row_of(g, j) == y {
        lemma_fundamental_div_mod(j, cs);
        let r = j % cs;
        lemma_fundamental_div_mod(r, TILE_W as int);
        let k = r % (TILE_W as int);
        assert(j == c * cs + y * TILE_W + k) by (nonlinear_arith)
            requires j == cs * (j / cs) + r, r == TILE_W * (r / (TILE_W as int)) + k,
                j / cs == c, r / (TILE_W as int) == y;
        if c == (g.width as int) / (TILE_W as int) {
            assert(k < g.copy_width(c));
        }
    }
}

fn tile_plane(linear: &[u8], tiled: &mut [u8], g: PlaneGeom, src_stride: usize)
    requires
        g.tiled_len_fits(),
        g.width == 0 || g.height <= g.aligned_height,
        g.spec_tiled_len() <= old(tiled)@.len(),
        rows_fit(g, src_stride as int, linear@.len() as int),
    ensures
        final(tiled)@ == tiled_plane(linear@, old(tiled)@, g, src_stride as int),
{
    let ghost t0 = tiled@;
    let lin_len = linear.len();
    let t_len = tiled.len();
    let col_stride = g.col_stride();
    let full_cols = g.width / TILE_W;
    let rem = g.width % TILE_W;
    let cols = g.cols();
    proof { lemma_runs_fit(g, t_len as int); }
    let mut c: usize = 0;
    while c < cols
        invariant
            c <= cols,
            cols == g.spec_cols(),
            col_stride == g.spec_col_stride(),
            full_cols == (g.width as int) / (TILE_W as int),
            rem == (g.width as int) % (TILE_W as int),
            g.tiled_len_fits(),
            g.width == 0 || g.height <= g.aligned_height,
            lin_len == linear@.len(),
            t_len == t0.len(),
            t0.len() >= g.spec_tiled_len(),
            g.col_runs_fit(t0.len() as int),
            rows_fit(g, src_stride as int, linear@.len() as int),
            tiled@ == tile_progress(linear@, t0, g, src_stride as int, c as int, 0),
        decreases cols - c,
    {
        proof {
            lemma_copy_width(g, c as int);
            assert(c * col_stride <= g.spec_tiled_len()) by (nonlinear_arith)
                requires c < cols, cols == g.spec_cols(), col_stride == g.spec_col_stride(),
                    g.spec_tiled_len() == g.spec_cols() * g.spec_col_stride(), col_stride >= 0;
        }
        let copy_w = if c < full_cols { TILE_W } else { rem };
        let col_base = c * col_stride;
        let x0 = c * TILE_W;
        let mut y: usize = 0;
        while y < g.height
            invariant
                c < cols,
                cols == g.spec_cols(),
                y <= g.height,
                g.height <= g.aligned_height,
                col_stride == g.spec_col_stride(),
                col_base == c * col_stride,
                x0 == c * TILE_W,
                copy_w == g.copy_width(c as int),
                0 < copy_w <= TILE_W,
                x0 + copy_w <= g.width,
                lin_len == linear@.len(),
                t_len == t0.len(),
                g.col_runs_fit(t0.len() as int),
                rows_fit(g, src_stride as int, linear@.len() as int),
                tiled@ == tile_progress(linear@, t0, g, src_stride as int, c as int, y as int),
            decreases g.height - y,
        {
            proof {
                assert(g.run_end(c as int) <= t0.len());
                assert(y * TILE_W <= (g.height - 1) * TILE_W) by (nonlinear_arith)
                    requires y < g.height;
                assert(y * src_stride <= (g.height - 1) * src_stride) by (nonlinear_arith)
                    requires y < g.height;
            }
            let s = y * src_stride + x0;
            let d = col_base + y * TILE_W;
            copy_run(linear, s, tiled, d, copy_w);
            proof {
                let after = tile_progress(linear@, t0, g, src_stride as int, c as int, y + 1);
                assert forall|j: int| 0 <= j < tiled@.len() implies #[trigger] tiled@[j] == after[j] by {
                    lemma_tile_row_run(g, c as int, y as int, j);
                }
                assert(tiled@ =~= after);
            }
            y += 1;
        }
        proof {
            let next = tile_progress(linear@, t0, g, src_stride as int, c + 1, 0);
            assert forall|j: int| 0 <= j < tiled@.len() implies #[trigger] tiled@[j] == next[j] by {
                if in_tiles(g, j) && tile_col_of(g, j) == c {
                    assert(tile_row_of(g, j) < g.height);
                }
            }
            assert(tiled@ =~= next);
        }
        c += 1;
    }
    proof {
        let fin = tiled_plane(linear@, t0, g, src_stride as int);
        assert forall|j: int| 0 <= j < tiled@.len() implies #[trigger] tiled@[j] == fin[j] by {
            if in_tiles(g, j) {
                let x = tile_x_of(g, j);
                lemma_fundamental_div_mod(j % g.spec_col_stride(), TILE_W as int);
                lemma_fundamental_div_mod(j, g.spec_col_stride());
                lemma_fundamental_div_mod((g.width + TILE_W - 1) as int, TILE_W as int);
                assert(tile_col_of(g, j) < g.spec_cols()) by (nonlinear_arith)
                    requires x == tile_col_of(g, j) * TILE_W + (j % g.spec_col_stride()) % (TILE_W as int),
                        0 <= (j % g.spec_col_stride()) % (TILE_W as int), x < g.width,
                        g.spec_cols() == (g.width + TILE_W - 1) / (TILE_W as int),
                        (g.width + TILE_W - 1) == g.spec_cols() * TILE_W + (g.width + TILE_W - 1) % (TILE_W as int),
                        0 <= (g.width + TILE_W - 1) % (TILE_W as int) < TILE_W;
            }
        }
        assert(tiled@ =~= fin);
    }
}

/// The tiled NV12_COL128 frame produced from the linear NV12 frame `linear`:
/// a zero-filled buffer of both tiled planes with every visible byte placed.
pub open spec fn nv12_tiled(linear: Seq<u8>, width: usize, height: usize, aligned_height: usize) -> Seq<u8> {
    let luma = nv12_luma(width, height, aligned_height);
    let chroma = nv12_chroma(width, height, aligned_height);
    let ll = luma.spec_linear_len();
    tiled_plane(linear.take(ll), Seq::new(luma.spec_tiled_len() as nat, |j: int| 0u8), luma, width as int)
        + tiled_plane(linear.skip(ll), Seq::new(chroma.spec_tiled_len() as nat, |j: int| 0u8), chroma, width as int)
}

/// Conditions under which tiling a linear NV12 frame stays within its buffers.
pub open spec fn nv12_tile_fits(linear_len: int, width: usize, height: usize, aligned_height: usize) -> bool {
    let luma = nv12_luma(width, height, aligned_height);
    let chroma = nv12_chroma(width, height, aligned_height);
    &&& luma.tiled_len_fits()
    &&& luma.spec_tiled_len() + chroma.spec_tiled_len() <= usize::MAX
    &&& luma.spec_linear_len() <= usize::MAX
    &&& linear_len >= luma.spec_linear_len() + chroma.spec_linear_len()
    &&& (width == 0 || height <= aligned_height)
}

/// Produce a tiled NV12_COL128 buffer from linear NV12. Inverse of the detilers.
pub fn tile_nv12_reference(linear: &[u8], width: usize, height: usize, aligned_height: usize) -> (out: Vec<u8>)
    requires
        nv12_tile_fits(linear@.len() as int, width, height, aligned_height),
    ensures
        out@ == nv12_tiled(linear@, width, height, aligned_height),
{
    let (luma, chroma) = nv12_planes(width, height, aligned_height);
    proof { lemma_chroma_smaller(width, height, aligned_height); }
    let lt = luma.tiled_len();
    let mut out = vec![0u8; lt + chroma.tiled_len()];
    let ghost out0 = out@;
    proof {
        assert forall|j: int| 0 <= j < out0.len() implies #[trigger] out0[j] == 0u8 by {
            assert(cloned(0u8, out0[j]));
            if vstd::pervasive::strictly_cloned(0u8, out0[j]) {
                assert(call_ensures(u8::clone, (&0u8,), out0[j]));
            }
        }
        assert(out0 =~= Seq::new(luma.spec_tiled_len() as nat, |j: int| 0u8) + Seq::new(chroma.spec_tiled_len() as nat, |j: int| 0u8));
    }
    {
        let (l_dst, c_dst) = out.as_mut_slice().split_at_mut(lt);
        let (l_src, c_src) = linear.split_at(luma.linear_len());
        proof { lemma_rows_fit_packed(luma); lemma_rows_fit_packed(chroma); }
        tile_plane(l_src, l_dst, luma, width);
        tile_plane(c_src, c_dst, chroma, width);
    }
    out
}


/// Luma byte of the deterministic test frame at `(x, y)`.
pub open spec fn luma_test_byte(x: usize, y: usize) -> u8 {
    (x.wrapping_mul(3) ^ y.wrapping_mul(7)) as u8
}

/// Chroma byte of the deterministic test frame at `(x, y)` of the UV plane.
pub open spec fn chroma_test_byte(x: usize, y: usize) -> u8 {
    (x.wrapping_add(y).wrapping_mul(5) ^ 0xA5usize) as u8
}

/// The deterministic linear NV12 test frame: luma rows, then half as many
/// chroma rows, all `width` bytes wide.
pub open spec fn linear_test_frame(width: usize, height: usize) -> Seq<u8> {
    let ll = width * height;
    Seq::new(
        (ll + width * (height / 2)) as nat,
        |i: int|
            if i < ll {
                luma_test_byte((i % (width as int)) as usize, (i / (width as int)) as usize)
            } else {
                chroma_test_byte(((i - ll) % (width as int)) as usize, ((i - ll) / (width as int)) as usize)
            },
    )
}

/// Position `base + y * width + x` of a packed plane splits back into `(x, y)`.
proof fn lemma_packed_index(base: int, width: int, x: int, y: int)
    requires
        0 <= x < width,
        0 <= y,
    ensures
        (y * width + x) % width == x,
        (y * width + x) / width == y,
        base + y * width + x - base == y * width + x,
{
    lemma_fundamental_div_mod_converse(y * width + x, width, y, x);
}

/// A deterministic linear NV12 test frame (content sensitive to (x,y,plane)).
pub fn make_linear_nv12(width: usize, height: usize) -> (v: Vec<u8>)
    requires
        width * height + width * (height / 2) <= usize::MAX,
    ensures
        v@ == linear_test_frame(width, height),
{
    proof {
        assert(width * (height / 2) <= width * height) by (nonlinear_arith);
    }
    let ll = width * height;
    let total = ll + width * (height / 2);
    let mut v = vec![0u8; total];
    let ghost v0 = v@;
    proof {
        assert forall|j: int| 0 <= j < v0.len() implies #[trigger] v0[j] == 0u8 by {
            assert(cloned(0u8, v0[j]));
            if vstd::pervasive::strictly_cloned(0u8, v0[j]) {
                assert(call_ensures(u8::clone, (&0u8,), v0[j]));
            }
        }
    }
    let ghost target = linear_test_frame(width, height);
    proof {
        assert(0 <= width * (height / 2)) by (nonlinear_arith);
        assert(0 <= width * height) by (nonlinear_arith);
        assert(target.len() == total);
    }
    let mut y: usize = 0;
    while y < height
        invariant
            y <= height,
            ll == width * height,
            total == ll + width * (height / 2),
            v@.len() == total,
            target.len() == total,
            target == linear_test_frame(width, height),
            forall|i: int| 0 <= i < total ==> #[trigger] v@[i] == if i < y * width { target[i] } else { 0u8 },
        decreases height - y,
    {
        proof {
            assert((y + 1) * width <= ll) by (nonlinear_arith)
                requires y < height, ll == width * height;
            assert((y + 1) * width == y * width + width) by (nonlinear_arith);
        }
        let mut x: usize = 0;
        while x < width
            invariant
                y < height,
                x <= width,
                ll == width * height,
                total == ll + width * (height / 2),
                (y + 1) * width <= ll,
                (y + 1) * width == y * width + width,
                v@.len() == total,
                target.len() == total,
                target == linear_test_frame(width, height),
                forall|i: int| 0 <= i < total ==> #[trigger] v@[i] == if i < y * width + x { target[i] } else { 0u8 },
            decreases width - x,
        {
            let i = y * width + x;
            v.set(i, (x.wrapping_mul(3) ^ y.wrapping_mul(7)) as u8);
            proof {
                lemma_packed_index(0, width as int, x as int, y as int);
                assert(v@[i as int] == target[i as int]);
            }
            x += 1;
        }
        y += 1;
    }
    proof {
        assert(height * width == width * height) by (nonlinear_arith);
    }
    let base = ll;
    let half = height / 2;
    let mut y: usize = 0;
    while y < half
        invariant
            y <= half,
            half == height / 2,
            base == ll,
            ll == width * height,
            total == ll + width * half,
            v@.len() == total,
            target.len() == total,
            target == linear_test_frame(width, height),
            forall|i: int| 0 <= i < total ==> #[trigger] v@[i] == if i < base + y * width { target[i] } else { 0u8 },
        decreases half - y,
    {
        proof {
            assert((y + 1) * width <= width * half) by (nonlinear_arith)
                requires y < half;
            assert((y + 1) * width == y * width + width) by (nonlinear_arith);
        }
        let mut x: usize = 0;
        while x < width
            invariant
                y < half,
                x <= width,
                base == ll,
                ll == width * height,
                total == ll + width * half,
                (y + 1) * width <= width * half,
                (y + 1) * width == y * width + width,
                v@.len() == total,
                target.len() == total,
                target == linear_test_frame(width, height),
                forall|i: int| 0 <= i < total ==> #[trigger] v@[i] == if i < base + y * width + x { target[i] } else { 0u8 },
            decreases width - x,
        {
            let i = base + y * width + x;
            v.set(i, (x.wrapping_add(y).wrapping_mul(5) ^ 0xA5) as u8);
            proof {
                lemma_packed_index(base as int, width as int, x as int, y as int);
                let k = i - ll;
                assert(k == y * width + x);
                assert(i < total);
                assert(target.len() == total);
                assert(!(i < ll));
                assert(target[i as int] == chroma_test_byte((k % (width as int)) as usize, (k / (width as int)) as usize));
                assert(v@[i as int] == target[i as int]);
            }
            x += 1;
        }
        y += 1;
    }
    proof {
        assert(half * width == width * half) by (nonlinear_arith);
        assert(v@ =~= target);
    }
    v
}


// ---------------------------------------------------------------------------
// Laws
// ---------------------------------------------------------------------------

/// Layout law: detiling puts the visible byte `(x, y)` at `y * stride + x` of
/// the linear buffer, taken from
/// `tiled_offset(x, y) = (x / 128) * (128 * aligned_height) + y * 128 + x % 128`.
pub proof fn lemma_detile_places_pixel(src: Seq<u8>, dst: Seq<u8>, g: PlaneGeom, stride: int, x: int, y: int)
    requires
        rows_disjoint(g, stride),
        0 <= stride,
        0 <= x < g.width,
        0 <= y < g.height,
        y * stride + x < dst.len(),
    ensures
        detiled_plane(src, dst, g, stride)[y * stride + x] == src[g.tiled_offset(x, y)],
{
    lemma_linear_position(g, stride, x, y);
    lemma_detiled_is_placed(src, dst, g, stride);
    assert(0 <= y * stride) by (nonlinear_arith)
        requires 0 <= y, 0 <= stride;
}

/// Every position of a packed plane (row stride == width) is a visible byte.
proof fn lemma_packed_all_in_plane(g: PlaneGeom, i: int)
    requires
        0 <= i < g.spec_linear_len(),
    ensures
        in_plane(g, g.width as int, i),
{
    let w = g.width as int;
    assert(w > 0 && g.height > 0) by (nonlinear_arith)
        requires 0 <= i < w * g.height, 0 <= w, 0 <= g.height;
    if g.height <= 1 {
        assert(i < w) by (nonlinear_arith)
            requires i < w * g.height, g.height <= 1, 0 <= g.height, 0 <= w;
    } else {
        lemma_fundamental_div_mod(i, w);
        assert(i / w < g.height) by (nonlinear_arith)
            requires 0 <= i < w * g.height, w > 0, i == w * (i / w) + i % w, 0 <= i % w;
    }
}

/// Round trip on one packed plane: detiling the tiled form of a plane gives
/// the plane back.
proof fn lemma_plane_round_trip(linear: Seq<u8>, tiled0: Seq<u8>, dst: Seq<u8>, g: PlaneGeom)
    requires
        g.width == 0 || g.height <= g.aligned_height,
        linear.len() == g.spec_linear_len(),
        dst.len() == linear.len(),
        tiled0.len() >= g.spec_tiled_len(),
    ensures
        detiled_plane(tiled_plane(linear, tiled0, g, g.width as int), dst, g, g.width as int) =~= linear,
{
    let w = g.width as int;
    let t = tiled_plane(linear, tiled0, g, w);
    lemma_rows_fit_packed(g);
    lemma_detiled_is_placed(t, dst, g, w);
    let r = placed_plane(t, dst, g, w);
    assert forall|i: int| 0 <= i < r.len() implies #[trigger] r[i] == linear[i] by {
        lemma_packed_all_in_plane(g, i);
        let x = col_of(g, w, i);
        let y = row_of(g, w, i);
        lemma_fundamental_div_mod(x, TILE_W as int);
        let c = x / (TILE_W as int);
        let k = x % (TILE_W as int);
        assert(x == c * TILE_W + k);
        lemma_tile_position(g, c, k, y);
        lemma_tiled_offset_split(g, c, k, y);
        let j = g.tiled_offset(x, y);
        lemma_fundamental_div_mod((g.width + TILE_W - 1) as int, TILE_W as int);
        assert(c < g.spec_cols()) by (nonlinear_arith)
            requires x == c * TILE_W + k, 0 <= k, x < g.width,
                g.spec_cols() == (g.width + TILE_W - 1) / (TILE_W as int),
                (g.width + TILE_W - 1) == TILE_W * g.spec_cols() + (g.width + TILE_W - 1) % (TILE_W as int),
                0 <= (g.width + TILE_W - 1) % (TILE_W as int) < TILE_W;
        assert(j < g.spec_tiled_len()) by (nonlinear_arith)
            requires j == c * g.spec_col_stride() + y * TILE_W + k, k < TILE_W, y < g.height,
                g.height <= g.aligned_height, c < g.spec_cols(), 0 <= c,
                g.spec_col_stride() == TILE_W * g.aligned_height,
                g.spec_tiled_len() == g.spec_cols() * g.spec_col_stride();
        assert(in_tiles(g, j));
        assert(t[j] == linear[y * w + x]);
        assert(i == y * w + x);
    }
}

/// Round-trip law: detiling the reference tiling of a linear NV12 frame
/// reproduces the frame exactly.
pub proof fn lemma_nv12_round_trip(linear: Seq<u8>, dst: Seq<u8>, width: usize, height: usize, aligned_height: usize)
    requires
        width == 0 || height <= aligned_height,
        linear.len() == nv12_luma(width, height, aligned_height).spec_linear_len() + nv12_chroma(
            width,
            height,
            aligned_height,
        ).spec_linear_len(),
        dst.len() == linear.len(),
    ensures
        nv12_detiled(nv12_tiled(linear, width, height, aligned_height), dst, width, height, aligned_height)
            == linear,
{
    let luma = nv12_luma(width, height, aligned_height);
    let chroma = nv12_chroma(width, height, aligned_height);
    let ll = luma.spec_linear_len();
    let lt = luma.spec_tiled_len();
    assert(0 <= ll) by (nonlinear_arith)
        requires ll == width * height;
    assert(0 <= chroma.spec_linear_len()) by (nonlinear_arith)
        requires chroma.spec_linear_len() == width * chroma.height;
    assert(0 <= luma.spec_cols() && 0 <= luma.spec_col_stride());
    assert(0 <= lt) by (nonlinear_arith)
        requires lt == luma.spec_cols() * luma.spec_col_stride(), 0 <= luma.spec_cols(), 0 <= luma.spec_col_stride();
    assert(0 <= chroma.spec_tiled_len()) by (nonlinear_arith)
        requires chroma.spec_tiled_len() == chroma.spec_cols() * chroma.spec_col_stride(),
            0 <= chroma.spec_cols(), 0 <= chroma.spec_col_stride();
    let tl = tiled_plane(linear.take(ll), Seq::new(lt as nat, |j: int| 0u8), luma, width as int);
    let tc = tiled_plane(linear.skip(ll), Seq::new(chroma.spec_tiled_len() as nat, |j: int| 0u8), chroma, width as int);
    let t = nv12_tiled(linear, width, height, aligned_height);
    assert(t == tl + tc);
    assert(t.take(lt) =~= tl);
    assert(t.skip(lt) =~= tc);
    assert(chroma.height <= chroma.aligned_height || width == 0);
    lemma_plane_round_trip(linear.take(ll), Seq::new(lt as nat, |j: int| 0u8), dst.take(ll), luma);
    lemma_plane_round_trip(
        linear.skip(ll),
        Seq::new(chroma.spec_tiled_len() as nat, |j: int| 0u8),
        dst.skip(ll),
        chroma,
    );
    assert(linear.take(ll) + linear.skip(ll) =~= linear);
}

/// The tiled plane `t` holds 0 wherever no visible byte is stored (column
/// padding beyond the width, rows beyond the height).
pub open spec fn zero_padded(t: Seq<u8>, g: PlaneGeom) -> bool {
    forall|j: int| 0 <= j < t.len() && !in_tiles(g, j) ==> #[trigger] t[j] == 0
}

/// Tiling the detiled form of a zero-padded packed plane gives the tiled
/// plane back.
proof fn lemma_plane_tile_after_detile(t: Seq<u8>, dst: Seq<u8>, g: PlaneGeom)
    requires
        g.width == 0 || g.height <= g.aligned_height,
        t.len() == g.spec_tiled_len(),
        dst.len() == g.spec_linear_len(),
        zero_padded(t, g),
    ensures
        tiled_plane(detiled_plane(t, dst, g, g.width as int), Seq::new(g.spec_tiled_len() as nat, |j: int| 0u8), g, g.width as int)
            =~= t,
{
    let w = g.width as int;
    lemma_rows_fit_packed(g);
    lemma_detiled_is_placed(t, dst, g, w);
    let r = placed_plane(t, dst, g, w);
    let z = Seq::new(g.spec_tiled_len() as nat, |j: int| 0u8);
    let back = tiled_plane(r, z, g, w);
    assert forall|j: int| 0 <= j < back.len() implies #[trigger] back[j] == t[j] by {
        if in_tiles(g, j) {
            let cs = g.spec_col_stride();
            let col = tile_col_of(g, j);
            let row = tile_row_of(g, j);
            let x = tile_x_of(g, j);
            let m = j % cs;
            lemma_fundamental_div_mod(j, cs);
            lemma_fundamental_div_mod(m, TILE_W as int);
            assert(0 <= col) by (nonlinear_arith)
                requires col == j / cs, 0 <= j, cs > 0;
            let k = m % (TILE_W as int);
            lemma_fundamental_div_mod_converse(x, TILE_W as int, col, k);
            assert(x / (TILE_W as int) == col && x % (TILE_W as int) == k);
            assert(j == col * cs + m) by (nonlinear_arith)
                requires j == cs * (j / cs) + j % cs, col == j / cs, m == j % cs;
            assert(m == row * TILE_W + k) by (nonlinear_arith)
                requires m == (TILE_W as int) * (m / (TILE_W as int)) + m % (TILE_W as int), row == m / (TILE_W as int),
                    k == m % (TILE_W as int);
            assert(g.tiled_offset(x, row) == j);
            assert(0 <= row) by (nonlinear_arith)
                requires row == m / (TILE_W as int), 0 <= m;
            assert(g.height > 0 && g.width > 0);
            lemma_linear_position(g, w, x, row);
            let i = row * w + x;
            assert(i < g.spec_linear_len()) by (nonlinear_arith)
                requires i == row * w + x, x < w, row < g.height, g.spec_linear_len() == w * g.height, 0 <= row;
            assert(0 <= i) by (nonlinear_arith)
                requires i == row * w + x, 0 <= x, 0 <= row, 0 <= w;
            assert(r[i] == t[j]);
        }
    }
}

/// Law: the tiler inverts the detiler on tiled NV12 frames whose padding
/// (bytes outside the visible picture) is zero, as the reference tiler
/// leaves it.
pub proof fn lemma_nv12_tile_after_detile(t: Seq<u8>, dst: Seq<u8>, width: usize, height: usize, aligned_height: usize)
    requires
        width == 0 || height <= aligned_height,
        t.len() == nv12_luma(width, height, aligned_height).spec_tiled_len() + nv12_chroma(
            width,
            height,
            aligned_height,
        ).spec_tiled_len(),
        zero_padded(t.take(nv12_luma(width, height, aligned_height).spec_tiled_len()), nv12_luma(width, height, aligned_height)),
        zero_padded(t.skip(nv12_luma(width, height, aligned_height).spec_tiled_len()), nv12_chroma(width, height, aligned_height)),
        dst.len() == nv12_luma(width, height, aligned_height).spec_linear_len() + nv12_chroma(
            width,
            height,
            aligned_height,
        ).spec_linear_len(),
    ensures
        nv12_tiled(nv12_detiled(t, dst, width, height, aligned_height), width, height, aligned_height) == t,
{
    let luma = nv12_luma(width, height, aligned_height);
    let chroma = nv12_chroma(width, height, aligned_height);
    let ll = luma.spec_linear_len();
    let lt = luma.spec_tiled_len();
    assert(0 <= ll) by (nonlinear_arith)
        requires ll == width * height;
    assert(0 <= chroma.spec_linear_len()) by (nonlinear_arith)
        requires chroma.spec_linear_len() == width * chroma.height;
    assert(0 <= luma.spec_cols() && 0 <= luma.spec_col_stride());
    assert(0 <= lt) by (nonlinear_arith)
        requires lt == luma.spec_cols() * luma.spec_col_stride(), 0 <= luma.spec_cols(), 0 <= luma.spec_col_stride();
    assert(0 <= chroma.spec_tiled_len()) by (nonlinear_arith)
        requires chroma.spec_tiled_len() == chroma.spec_cols() * chroma.spec_col_stride(),
            0 <= chroma.spec_cols(), 0 <= chroma.spec_col_stride();
    let dl = detiled_plane(t.take(lt), dst.take(ll), luma, width as int);
    let dc = detiled_plane(t.skip(lt), dst.skip(ll), chroma, width as int);
    let d = nv12_detiled(t, dst, width, height, aligned_height);
    assert(d == dl + dc);
    assert(d.take(ll) =~= dl);
    assert(d.skip(ll) =~= dc);
    assert(chroma.height <= chroma.aligned_height || width == 0);
    lemma_plane_tile_after_detile(t.take(lt), dst.take(ll), luma);
    lemma_plane_tile_after_detile(t.skip(lt), dst.skip(ll), chroma);
    assert(t.take(lt) + t.skip(lt) =~= t);
}

} // verus!
