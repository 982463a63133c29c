//! Assembly of a multi-tile image grid (ISO/IEC 23008-12) into one buffer.

use crate::error::{ErrorKind, HeicError, HeicResult};
use crate::limits::Limits;
use crate::processing::pixels::{blit_rows, bpp, lemma_blit_rows_bytes, lemma_blit_rows_empty, lemma_pixel_byte, zeros, PixelBuffer};
use crate::types::{ImageDimensions, PixelFormat};
use vstd::prelude::*;

verus! {

/// The smaller of two values.
pub open spec fn min2(a: int, b: int) -> int {
    if a < b { a } else { b }
}

/// `d` with `tile` drawn at `(dst_x, dst_y)` of an `ow` by `oh` canvas of `b`-byte pixels,
/// cropped at the canvas edges; a tile that starts outside the canvas draws nothing.
pub open spec fn paint_tile(d: Seq<u8>, tile: PixelBuffer, dst_x: int, dst_y: int, ow: int, oh: int, b: int) -> Seq<u8> {
    if dst_x < ow && dst_y < oh {
        let cw = min2(tile.dimensions.width as int, ow - dst_x);
        let ch = min2(tile.dimensions.height as int, oh - dst_y);
        blit_rows(d, ow * b, dst_x * b, dst_y, tile.data@, tile.stride as int, 0, 0, cw * b, ch as nat)
    } else {
        d
    }
}

/// `d` with the first `n` tiles of grid row `r` drawn (tile `r * cols + c` at
/// `(c * tw, r * th)`).
pub open spec fn paint_row(d: Seq<u8>, tiles: Seq<PixelBuffer>, r: int, n: nat, cols: int, tw: int, th: int, ow: int, oh: int, b: int) -> Seq<u8>
    decreases n,
{
    if n == 0 {
        d
    } else {
        let c = n - 1;
        paint_tile(paint_row(d, tiles, r, (n - 1) as nat, cols, tw, th, ow, oh, b), tiles[r * cols + c], c * tw, r * th, ow, oh, b)
    }
}

/// `d` with the first `n` grid rows drawn.
pub open spec fn paint_rows(d: Seq<u8>, tiles: Seq<PixelBuffer>, n: nat, cols: int, tw: int, th: int, ow: int, oh: int, b: int) -> Seq<u8>
    decreases n,
{
    if n == 0 {
        d
    } else {
        paint_row(paint_rows(d, tiles, (n - 1) as nat, cols, tw, th, ow, oh, b), tiles, n - 1, cols as nat, cols, tw, th, ow, oh, b)
    }
}

/// Whether all tiles share the format and dimensions of the first.
pub open spec fn uniform(tiles: Seq<PixelBuffer>) -> bool {
    forall|i: int| 0 <= i < tiles.len() ==> (#[trigger] tiles[i]).format == tiles[0].format
        && tiles[i].dimensions == tiles[0].dimensions
}

/// The checks made before drawing: a non-empty grid shape, exactly `rows * columns` tiles
/// (a malformed count otherwise), a tile count within the limits, and uniform tiles.
pub open spec fn grid_checks(tiles: Seq<PixelBuffer>, rows: u32, columns: u32, limits: Limits) -> Result<(), ErrorKind> {
    if rows == 0 || columns == 0 {
        Err(ErrorKind::InvalidContainer)
    } else if tiles.len() != rows * columns {
        Err(ErrorKind::MalformedInput)
    } else if !limits.allows_tile_count(tiles.len() as int) {
        Err(ErrorKind::LimitExceeded)
    } else if !uniform(tiles) {
        Err(ErrorKind::InvalidContainer)
    } else {
        Ok(())
    }
}

/// Draws one tile.
fn paint(canvas: &mut PixelBuffer, tile: &PixelBuffer, dst_x: u64, dst_y: u64, ow: u32, oh: u32)
    requires
        old(canvas).wf(),
        tile.readable(),
        old(canvas).format == tile.format,
        old(canvas).dimensions == (ImageDimensions { width: ow, height: oh }),
    ensures
        final(canvas).wf(),
        final(canvas).dimensions == old(canvas).dimensions,
        final(canvas).format == old(canvas).format,
        final(canvas).stride == old(canvas).stride,
        final(canvas).data@ == paint_tile(old(canvas).data@, *tile, dst_x as int, dst_y as int, ow as int, oh as int, bpp(tile.format)),
{
    if dst_x < ow as u64 && dst_y < oh as u64 {
        let dx = dst_x as u32;
        let dy = dst_y as u32;
        let tw = tile.dimensions.width;
        let th = tile.dimensions.height;
        let copy_w = if tw < ow - dx { tw } else { ow - dx };
        let copy_h = if th < oh - dy { th } else { oh - dy };
        let ghost b = bpp(tile.format);
        proof {
            let cs = canvas.stride as int;
            if copy_h > 0 && copy_w == 0 {
                assert((0 + copy_h - 1) * tile.stride + 0 * b <= tile.data@.len()) by (nonlinear_arith)
                    requires
                        copy_h <= th,
                        copy_h >= 1,
                        (th - 1) * tile.stride + tw * b <= tile.data@.len(),
                        tw >= 0,
                        b >= 1,
                ;
                assert((dy + copy_h - 1) * cs + dx * b <= canvas.data@.len()) by (nonlinear_arith)
                    requires
                        dy + copy_h <= oh,
                        dx < ow,
                        cs == ow * b,
                        canvas.data@.len() == cs * oh,
                        b >= 1,
                        copy_h >= 1,
                ;
            }
        }
        let _done = canvas.blit(dx, dy, tile, 0, 0, copy_w, copy_h);
    }
}

/// Assembles a grid of equally sized tiles, in row-major order, into one buffer of
/// `output_width` by `output_height` pixels (checked against `limits`); tiles that reach past
/// the output are cropped.
pub fn assemble_grid(tiles: &[PixelBuffer], rows: u32, columns: u32, output_width: u32, output_height: u32, limits: &Limits) -> (r: HeicResult<PixelBuffer>)
    requires
        rows * columns <= usize::MAX,
        forall|i: int| 0 <= i < tiles@.len() ==> (#[trigger] tiles@[i]).readable(),
        tiles@.len() > 0 ==> output_width * bpp(tiles@[0].format) <= usize::MAX,
        tiles@.len() > 0 ==> output_width * bpp(tiles@[0].format) * output_height <= usize::MAX,
    ensures
        match grid_checks(tiles@, rows, columns, *limits) {
            Err(k) => r matches Err(e) && e.kind() == k,
            Ok(_) => {
                let f = tiles@[0].format;
                let b = bpp(f);
                let d = ImageDimensions { width: output_width, height: output_height };
                let total = output_width * b * output_height;
                &&& r is Ok <==> (limits.allows_dimensions(d) && limits.allows_pixel_count(output_width * output_height)
                    && limits.allows_memory_size(total))
                &&& r matches Err(e) ==> e.kind() == ErrorKind::LimitExceeded
                &&& r matches Ok(c) ==> c.dimensions == d && c.format == f && c.wf()
                    && c.data@ == paint_rows(zeros(total as nat), tiles@, rows as nat, columns as int,
                        tiles@[0].dimensions.width as int, tiles@[0].dimensions.height as int,
                        output_width as int, output_height as int, b)
            },
        },
{
    if rows == 0 || columns == 0 {
        return Err(HeicError::invalid_container("Grid rows and columns must be non-zero"));
    }
    let expected = (rows as usize) * (columns as usize);
    let n = tiles.len();
    if n != expected {
        return Err(HeicError::malformed("Grid tile count mismatch"));
    }
    limits.check_tile_count(n)?;
    assert(n > 0) by (nonlinear_arith)
        requires
            n == rows * columns,
            rows >= 1,
            columns >= 1,
    ;
    let format = tiles[0].format;
    let tw = tiles[0].dimensions.width;
    let th = tiles[0].dimensions.height;
    let mut i: usize = 0;
    while i < n
        invariant
            n == tiles@.len(),
            n > 0,
            i <= n,
            rows > 0,
            columns > 0,
            n == rows * columns,
            limits.allows_tile_count(n as int),
            format == tiles@[0].format,
            tw == tiles@[0].dimensions.width,
            th == tiles@[0].dimensions.height,
            forall|j: int| 0 <= j < i ==> (#[trigger] tiles@[j]).format == tiles@[0].format
                && tiles@[j].dimensions == tiles@[0].dimensions,
        decreases n - i,
    {
        if tiles[i].format != format || tiles[i].dimensions.width != tw || tiles[i].dimensions.height != th {
            return Err(HeicError::invalid_container("Tile format or dimensions do not match the first tile"));
        }
        i = i + 1;
    }
    let out_dims = ImageDimensions::new(output_width, output_height);
    let mut canvas = PixelBuffer::new_with_limits(out_dims, format, limits)?;
    let ghost b = bpp(format);
    let ghost d0 = canvas.data@;
    let mut r: u32 = 0;
    while r < rows
        invariant
            r <= rows,
            n == tiles@.len(),
            n == rows * columns,
            format == tiles@[0].format,
            tw == tiles@[0].dimensions.width,
            th == tiles@[0].dimensions.height,
            b == bpp(format),
            uniform(tiles@),
            forall|j: int| 0 <= j < tiles@.len() ==> (#[trigger] tiles@[j]).readable(),
            canvas.wf(),
            canvas.format == format,
            canvas.dimensions == out_dims,
            out_dims == (ImageDimensions { width: output_width, height: output_height }),
            canvas.data@ == paint_rows(d0, tiles@, r as nat, columns as int, tw as int, th as int,
                output_width as int, output_height as int, b),
        decreases rows - r,
    {
        let mut c: u32 = 0;
        while c < columns
            invariant
                c <= columns,
                r < rows,
                n == tiles@.len(),
                n == rows * columns,
                format == tiles@[0].format,
                tw == tiles@[0].dimensions.width,
                th == tiles@[0].dimensions.height,
                b == bpp(format),
                uniform(tiles@),
                forall|j: int| 0 <= j < tiles@.len() ==> (#[trigger] tiles@[j]).readable(),
                canvas.wf(),
                canvas.format == format,
                canvas.dimensions == out_dims,
                out_dims == (ImageDimensions { width: output_width, height: output_height }),
                canvas.data@ == paint_row(paint_rows(d0, tiles@, r as nat, columns as int, tw as int, th as int,
                    output_width as int, output_height as int, b), tiles@, r as int, c as nat, columns as int,
                    tw as int, th as int, output_width as int, output_height as int, b),
            decreases columns - c,
        {
            proof {
                assert(r * columns + c < rows * columns) by (nonlinear_arith)
                    requires
                        r < rows,
                        c < columns,
                ;
            }
            let t = (r as usize) * (columns as usize) + (c as usize);
            let tile = &tiles[t];
            assert(tile.format == format && tile.dimensions == tiles@[0].dimensions);
            assert(c * tw <= u64::MAX && r * th <= u64::MAX) by (nonlinear_arith)
                requires
                    c <= u32::MAX,
                    tw <= u32::MAX,
                    r <= u32::MAX,
                    th <= u32::MAX,
            ;
            let dst_x = (c as u64) * (tw as u64);
            let dst_y = (r as u64) * (th as u64);
            paint(&mut canvas, tile, dst_x, dst_y, output_width, output_height);
            c = c + 1;
        }
        r = r + 1;
    }
    Ok(canvas)
}

/// The tile byte that belongs at byte `k` of a canvas with rows of `ds` bytes of `b`-byte
/// pixels: byte `t` of pixel `(X mod tw, Y mod th)` of tile `(Y / th) * cols + X / tw`, where
/// `(X, Y)` is the pixel of `k` and `t` its byte.
spec fn tile_byte(tiles: Seq<PixelBuffer>, cols: int, tw: int, th: int, ds: int, b: int, k: int) -> u8 {
    let y = k / ds;
    let x = (k % ds) / b;
    let t = (k % ds) % b;
    let tile = tiles[(y / th) * cols + x / tw];
    tile.data@[(y % th) * (tile.stride as int) + (x % tw) * b + t]
}

/// `q` is the quotient of `v` by `n` exactly when `v` lies in `[q * n, q * n + n)`.
proof fn lemma_block(v: int, n: int, q: int)
    requires
        v >= 0,
        n > 0,
    ensures
        (q * n <= v < q * n + n) == (v / n == q),
{
    vstd::arithmetic::div_mod::lemma_fundamental_div_mod(v, n);
    if q * n <= v < q * n + n {
        vstd::arithmetic::div_mod::lemma_fundamental_div_mod_converse(v, n, q, v - q * n);
    } else if v / n == q {
        assert(v == q * n + v % n) by (nonlinear_arith)
            requires
                v == n * (v / n) + v % n,
                v / n == q,
        ;
    }
}

/// Drawing tile `(r, c)` sets exactly the canvas bytes whose pixel falls in that tile's cell
/// to the tile's bytes.
proof fn lemma_paint_tile_bytes(d: Seq<u8>, tiles: Seq<PixelBuffer>, r: int, c: int, cols: int, tw: int, th: int, ow: int, oh: int, b: int)
    requires
        ow > 0,
        oh > 0,
        tw > 0,
        th > 0,
        1 <= b,
        0 <= r,
        0 <= c < cols,
        0 <= r * cols + c < tiles.len(),
        tiles[r * cols + c].wf(),
        tiles[r * cols + c].dimensions.width == tw,
        tiles[r * cols + c].dimensions.height == th,
        bpp(tiles[r * cols + c].format) == b,
        d.len() == ow * b * oh,
    ensures
        paint_tile(d, tiles[r * cols + c], c * tw, r * th, ow, oh, b).len() == d.len(),
        forall|k: int| 0 <= k < d.len() ==> #[trigger] paint_tile(d, tiles[r * cols + c], c * tw, r * th, ow, oh, b)[k]
            == if (k / (ow * b)) / th == r && ((k % (ow * b)) / b) / tw == c {
                tile_byte(tiles, cols, tw, th, ow * b, b, k)
            } else {
                d[k]
            },
{
    let tile = tiles[r * cols + c];
    let ds = ow * b;
    let dst_x = c * tw;
    let dst_y = r * th;
    assert(ds > 0 && 0 <= dst_x && 0 <= dst_y && d.len() == ds * oh) by (nonlinear_arith)
        requires
            ds == ow * b,
            ow > 0,
            b >= 1,
            c >= 0,
            tw > 0,
            r >= 0,
            th > 0,
            dst_x == c * tw,
            dst_y == r * th,
            d.len() == ow * b * oh,
    ;
    let res = paint_tile(d, tile, dst_x, dst_y, ow, oh, b);
    if dst_x < ow && dst_y < oh {
        let cw = min2(tw, ow - dst_x);
        let ch = min2(th, oh - dst_y);
        let ss = tile.stride as int;
        assert(dst_x * b + cw * b <= ds && (dst_y + ch) * ds <= d.len() && 0 <= dst_x * b && 0 <= cw * b
            && (0 + ch - 1) * ss + 0 + cw * b <= tile.data@.len()) by (nonlinear_arith)
            requires
                cw <= ow - dst_x,
                cw >= 1,
                ch <= oh - dst_y,
                ch >= 1,
                ch <= th,
                cw <= tw,
                ds == ow * b,
                d.len() == ds * oh,
                dst_x >= 0,
                b >= 1,
                ss == tw * b,
                tile.data@.len() == ss * th,
        ;
        lemma_blit_rows_bytes(d, ds, dst_x * b, dst_y, tile.data@, ss, 0, 0, cw * b, ch as nat);
        assert forall|k: int| 0 <= k < d.len() implies #[trigger] res[k]
            == if (k / ds) / th == r && ((k % ds) / b) / tw == c {
                tile_byte(tiles, cols, tw, th, ds, b, k)
            } else {
                d[k]
            } by {
            let y = k / ds;
            let cb = k % ds;
            let x = cb / b;
            let t = cb % b;
            vstd::arithmetic::div_mod::lemma_fundamental_div_mod(k, ds);
            vstd::arithmetic::div_mod::lemma_fundamental_div_mod(cb, b);
            assert(0 <= y < oh) by (nonlinear_arith)
                requires
                    k == ds * y + cb,
                    0 <= cb < ds,
                    0 <= k < ds * oh,
                    ds > 0,
            ;
            assert(0 <= x < ow) by (nonlinear_arith)
                requires
                    cb == b * x + t,
                    0 <= t < b,
                    0 <= cb < ds,
                    ds == ow * b,
                    b >= 1,
            ;
            lemma_block(y, th, r);
            lemma_block(x, tw, c);
            assert((dst_x * b <= cb < dst_x * b + cw * b) == (dst_x <= x < dst_x + cw)) by (nonlinear_arith)
                requires
                    cb == b * x + t,
                    0 <= t < b,
                    b >= 1,
            ;
            assert((dst_y <= y < dst_y + ch) == (y / th == r));
            assert((dst_x <= x < dst_x + cw) == (x / tw == c));
            if y / th == r && x / tw == c {
                vstd::arithmetic::div_mod::lemma_fundamental_div_mod(y, th);
                vstd::arithmetic::div_mod::lemma_fundamental_div_mod(x, tw);
                assert(y % th == y - dst_y) by (nonlinear_arith)
                    requires
                        y == th * (y / th) + y % th,
                        y / th == r,
                        dst_y == r * th,
                ;
                assert(x % tw == x - dst_x) by (nonlinear_arith)
                    requires
                        x == tw * (x / tw) + x % tw,
                        x / tw == c,
                        dst_x == c * tw,
                ;
                assert((0 + y - dst_y) * ss + 0 + cb - dst_x * b == (y % th) * ss + (x % tw) * b + t) by (nonlinear_arith)
                    requires
                        y % th == y - dst_y,
                        x % tw == x - dst_x,
                        cb == b * x + t,
                ;
            }
        }
    } else {
        assert(res == d);
        assert forall|k: int| 0 <= k < d.len() implies #[trigger] res[k]
            == if (k / ds) / th == r && ((k % ds) / b) / tw == c {
                tile_byte(tiles, cols, tw, th, ds, b, k)
            } else {
                d[k]
            } by {
            let y = k / ds;
            let cb = k % ds;
            let x = cb / b;
            vstd::arithmetic::div_mod::lemma_fundamental_div_mod(k, ds);
            vstd::arithmetic::div_mod::lemma_fundamental_div_mod(cb, b);
            assert(0 <= y < oh) by (nonlinear_arith)
                requires
                    k == ds * y + cb,
                    0 <= cb < ds,
                    0 <= k < ds * oh,
                    ds > 0,
            ;
            assert(0 <= x < ow) by (nonlinear_arith)
                requires
                    cb == b * x + cb % b,
                    0 <= cb % b < b,
                    0 <= cb < ds,
                    ds == ow * b,
                    b >= 1,
            ;
            lemma_block(y, th, r);
            lemma_block(x, tw, c);
        }
    }
}

/// The cell coordinates of a canvas byte are not negative.
proof fn lemma_cell_nonneg(k: int, ds: int, b: int, tw: int, th: int)
    requires
        k >= 0,
        ds > 0,
        b > 0,
        tw > 0,
        th > 0,
    ensures
        (k / ds) / th >= 0,
        ((k % ds) / b) / tw >= 0,
{
    vstd::arithmetic::div_mod::lemma_div_pos_is_pos(k, ds);
    vstd::arithmetic::div_mod::lemma_div_pos_is_pos(k / ds, th);
    vstd::arithmetic::div_mod::lemma_mod_pos_bound(k, ds);
    vstd::arithmetic::div_mod::lemma_div_pos_is_pos(k % ds, b);
    vstd::arithmetic::div_mod::lemma_div_pos_is_pos((k % ds) / b, tw);
}

/// Drawing the first `m` tiles of grid row `r` sets exactly the bytes of their cells.
proof fn lemma_paint_row_bytes(d: Seq<u8>, tiles: Seq<PixelBuffer>, r: int, m: nat, cols: int, tw: int, th: int, ow: int, oh: int, b: int)
    requires
        ow > 0,
        oh > 0,
        tw > 0,
        th > 0,
        1 <= b,
        0 <= r,
        m <= cols,
        (r + 1) * cols <= tiles.len(),
        forall|i: int| 0 <= i < tiles.len() ==> (#[trigger] tiles[i]).wf() && tiles[i].dimensions.width == tw
            && tiles[i].dimensions.height == th && bpp(tiles[i].format) == b,
        d.len() == ow * b * oh,
    ensures
        paint_row(d, tiles, r, m, cols, tw, th, ow, oh, b).len() == d.len(),
        forall|k: int| 0 <= k < d.len() ==> #[trigger] paint_row(d, tiles, r, m, cols, tw, th, ow, oh, b)[k]
            == if (k / (ow * b)) / th == r && ((k % (ow * b)) / b) / tw < m {
                tile_byte(tiles, cols, tw, th, ow * b, b, k)
            } else {
                d[k]
            },
    decreases m,
{
    assert(ow * b > 0) by (nonlinear_arith)
        requires
            ow > 0,
            b >= 1,
    ;
    if m == 0 {
        assert forall|k: int| 0 <= k < d.len() implies #[trigger] paint_row(d, tiles, r, m, cols, tw, th, ow, oh, b)[k] == d[k] by {
            lemma_cell_nonneg(k, ow * b, b, tw, th);
        }
    }
    if m > 0 {
        let c = m - 1;
        lemma_paint_row_bytes(d, tiles, r, (m - 1) as nat, cols, tw, th, ow, oh, b);
        let prev = paint_row(d, tiles, r, (m - 1) as nat, cols, tw, th, ow, oh, b);
        assert(0 <= r * cols + c < tiles.len()) by (nonlinear_arith)
            requires
                0 <= r,
                0 <= c < cols,
                (r + 1) * cols <= tiles.len(),
        ;
        lemma_paint_tile_bytes(prev, tiles, r, c, cols, tw, th, ow, oh, b);
        assert forall|k: int| 0 <= k < d.len() implies #[trigger] paint_row(d, tiles, r, m, cols, tw, th, ow, oh, b)[k]
            == if (k / (ow * b)) / th == r && ((k % (ow * b)) / b) / tw < m {
                tile_byte(tiles, cols, tw, th, ow * b, b, k)
            } else {
                d[k]
            } by {
            assert(paint_row(d, tiles, r, m, cols, tw, th, ow, oh, b)[k] == paint_tile(prev, tiles[r * cols + c], c * tw, r * th, ow, oh, b)[k]);
        }
    }
}

/// Drawing the first `n` grid rows sets exactly the bytes of their cells.
proof fn lemma_paint_rows_bytes(d: Seq<u8>, tiles: Seq<PixelBuffer>, n: nat, cols: int, tw: int, th: int, ow: int, oh: int, b: int)
    requires
        ow > 0,
        oh > 0,
        tw > 0,
        th > 0,
        1 <= b,
        0 <= cols,
        n * cols <= tiles.len(),
        forall|i: int| 0 <= i < tiles.len() ==> (#[trigger] tiles[i]).wf() && tiles[i].dimensions.width == tw
            && tiles[i].dimensions.height == th && bpp(tiles[i].format) == b,
        d.len() == ow * b * oh,
    ensures
        paint_rows(d, tiles, n, cols, tw, th, ow, oh, b).len() == d.len(),
        forall|k: int| 0 <= k < d.len() ==> #[trigger] paint_rows(d, tiles, n, cols, tw, th, ow, oh, b)[k]
            == if (k / (ow * b)) / th < n && ((k % (ow * b)) / b) / tw < cols {
                tile_byte(tiles, cols, tw, th, ow * b, b, k)
            } else {
                d[k]
            },
    decreases n,
{
    assert(ow * b > 0) by (nonlinear_arith)
        requires
            ow > 0,
            b >= 1,
    ;
    if n == 0 {
        assert forall|k: int| 0 <= k < d.len() implies #[trigger] paint_rows(d, tiles, n, cols, tw, th, ow, oh, b)[k] == d[k] by {
            lemma_cell_nonneg(k, ow * b, b, tw, th);
        }
    }
    if n > 0 {
        let n1 = (n - 1) as nat;
        assert(n1 * cols <= n * cols) by (nonlinear_arith)
            requires
                n1 < n,
                cols >= 0,
        ;
        lemma_paint_rows_bytes(d, tiles, n1, cols, tw, th, ow, oh, b);
        let prev = paint_rows(d, tiles, n1, cols, tw, th, ow, oh, b);
        lemma_paint_row_bytes(prev, tiles, n1 as int, cols as nat, cols, tw, th, ow, oh, b);
    }
}

/// Grid assembly places every tile in its cell: when `canvas` is what a successful
/// `assemble_grid` of `rows` by `cols` uniform, well-formed tiles of `tw` by `th` pixels into
/// `ow` by `oh` pixels returns, output pixel `(x, y)` reads as pixel
/// `(x mod tw, y mod th)` of tile `(y / th) * cols + x / tw` when that cell is in the grid,
/// and as zero bytes where no tile reaches.
pub proof fn lemma_grid_pixels(canvas: PixelBuffer, tiles: Seq<PixelBuffer>, rows: u32, cols: u32, ow: u32, oh: u32)
    requires
        tiles.len() == rows * cols,
        tiles.len() > 0,
        uniform(tiles),
        forall|i: int| 0 <= i < tiles.len() ==> (#[trigger] tiles[i]).wf(),
        canvas.wf(),
        canvas.dimensions == (ImageDimensions { width: ow, height: oh }),
        canvas.format == tiles[0].format,
        canvas.data@ == paint_rows(zeros((ow * bpp(tiles[0].format) * oh) as nat), tiles, rows as nat, cols as int,
            tiles[0].dimensions.width as int, tiles[0].dimensions.height as int, ow as int, oh as int,
            bpp(tiles[0].format)),
    ensures
        forall|x: int, y: int| 0 <= x < ow && 0 <= y < oh ==> #[trigger] canvas.pixel(x, y) == ({
            let tw = tiles[0].dimensions.width as int;
            let th = tiles[0].dimensions.height as int;
            if tw > 0 && th > 0 && x / tw < cols && y / th < rows {
                tiles[(y / th) * cols + x / tw].pixel(x % tw, y % th)
            } else {
                zeros(bpp(tiles[0].format) as nat)
            }
        }),
{
    let tw = tiles[0].dimensions.width as int;
    let th = tiles[0].dimensions.height as int;
    let b = bpp(tiles[0].format);
    let ds = ow * b;
    let d = zeros((ow * b * oh) as nat);
    assert(b >= 1);
    if ow > 0 && oh > 0 {
        assert(ow * b * oh >= 0) by (nonlinear_arith)
            requires
                b >= 1,
        ;
        if tw > 0 && th > 0 {
            lemma_paint_rows_bytes(d, tiles, rows as nat, cols as int, tw, th, ow as int, oh as int, b);
            assert forall|x: int, y: int| 0 <= x < ow && 0 <= y < oh implies #[trigger] canvas.pixel(x, y) == (
                if x / tw < cols && y / th < rows {
                    tiles[(y / th) * cols + x / tw].pixel(x % tw, y % th)
                } else {
                    zeros(b as nat)
                }) by {
                canvas.lemma_pixel_in(x, y);
                let covered = x / tw < cols && y / th < rows;
                let ti = (y / th) * cols + x / tw;
                if covered {
                    assert(0 <= ti < tiles.len()) by (nonlinear_arith)
                        requires
                            0 <= y / th < rows,
                            0 <= x / tw < cols,
                            ti == (y / th) * cols + x / tw,
                            tiles.len() == rows * cols,
                    ;
                    assert(tiles[ti].wf());
                    assert(0 <= x % tw < tw && 0 <= y % th < th);
                    tiles[ti].lemma_pixel_in(x % tw, y % th);
                }
                assert forall|t: int| 0 <= t < b implies canvas.pixel(x, y)[t] == (
                    if covered { tiles[ti].pixel(x % tw, y % th)[t] } else { 0u8 }) by {
                    lemma_pixel_byte(canvas, x, y, t);
                    let k = canvas.offset(x, y) + t;
                    vstd::arithmetic::div_mod::lemma_fundamental_div_mod_converse(x * b + t, b, x, t);
                    assert(k / ds == y && k % ds == x * b + t);
                    if covered {
                        assert(tiles[ti].offset(x % tw, y % th) == (y % th) * (tiles[ti].stride as int) + (x % tw) * b);
                    }
                }
                if covered {
                    assert(canvas.pixel(x, y) =~= tiles[ti].pixel(x % tw, y % th));
                } else {
                    assert(canvas.pixel(x, y) =~= zeros(b as nat));
                }
            }
        } else {
            assert forall|x: int, y: int| 0 <= x < ow && 0 <= y < oh implies #[trigger] canvas.pixel(x, y) == zeros(b as nat) by {
                canvas.lemma_pixel_in(x, y);
                lemma_paint_rows_empty(d, tiles, rows as nat, cols as int, tw, th, ow as int, oh as int, b);
                assert(canvas.pixel(x, y) =~= zeros(b as nat));
            }
        }
    }
}

/// Tiles without pixels draw nothing.
proof fn lemma_paint_tile_empty(d: Seq<u8>, tile: PixelBuffer, dst_x: int, dst_y: int, ow: int, oh: int, b: int)
    requires
        tile.wf(),
        tile.dimensions.width == 0 || tile.dimensions.height == 0,
        bpp(tile.format) == b,
        0 <= dst_x,
        0 <= dst_y,
        0 <= ow,
        0 <= oh,
        d.len() == ow * b * oh,
    ensures
        paint_tile(d, tile, dst_x, dst_y, ow, oh, b) == d,
{
    if dst_x < ow && dst_y < oh {
        let cw = min2(tile.dimensions.width as int, ow - dst_x);
        let ch = min2(tile.dimensions.height as int, oh - dst_y);
        if ch > 0 {
            assert(tile.dimensions.width == 0);
            assert(cw == 0);
            assert(tile.stride == 0) by (nonlinear_arith)
                requires
                    tile.stride == tile.dimensions.width * b,
                    tile.dimensions.width == 0,
            ;
            assert((dst_y + ch - 1) * (ow * b) + dst_x * b <= d.len() && 0 <= dst_x * b && ow * b >= 0) by (nonlinear_arith)
                requires
                    dst_y + ch <= oh,
                    ch >= 1,
                    dst_x < ow,
                    d.len() == ow * b * oh,
                    b >= 1,
                    dst_x >= 0,
            ;
            assert(cw * b == 0) by (nonlinear_arith)
                requires
                    cw == 0,
            ;
            lemma_blit_rows_empty(d, ow * b, dst_x * b, dst_y, tile.data@, tile.stride as int, 0, 0, ch as nat);
        }
    }
}

/// Grid rows of tiles without pixels draw nothing.
proof fn lemma_paint_rows_empty(d: Seq<u8>, tiles: Seq<PixelBuffer>, n: nat, cols: int, tw: int, th: int, ow: int, oh: int, b: int)
    requires
        tw == 0 || th == 0,
        0 <= cols,
        n * cols <= tiles.len(),
        forall|i: int| 0 <= i < tiles.len() ==> (#[trigger] tiles[i]).wf() && tiles[i].dimensions.width == tw
            && tiles[i].dimensions.height == th && bpp(tiles[i].format) == b,
        0 <= ow,
        0 <= oh,
        d.len() == ow * b * oh,
    ensures
        paint_rows(d, tiles, n, cols, tw, th, ow, oh, b) == d,
    decreases n,
{
    if n > 0 {
        let n1 = (n - 1) as nat;
        assert(n1 * cols + cols == n * cols) by (nonlinear_arith)
            requires
                n1 + 1 == n,
        ;
        lemma_paint_rows_empty(d, tiles, n1, cols, tw, th, ow, oh, b);
        lemma_paint_row_empty(d, tiles, n1 as int, cols as nat, cols, tw, th, ow, oh, b);
    }
}

/// A grid row of tiles without pixels draws nothing.
proof fn lemma_paint_row_empty(d: Seq<u8>, tiles: Seq<PixelBuffer>, r: int, m: nat, cols: int, tw: int, th: int, ow: int, oh: int, b: int)
    requires
        tw == 0 || th == 0,
        0 <= r,
        m <= cols,
        r * cols + cols <= tiles.len(),
        forall|i: int| 0 <= i < tiles.len() ==> (#[trigger] tiles[i]).wf() && tiles[i].dimensions.width == tw
            && tiles[i].dimensions.height == th && bpp(tiles[i].format) == b,
        0 <= ow,
        0 <= oh,
        d.len() == ow * b * oh,
    ensures
        paint_row(d, tiles, r, m, cols, tw, th, ow, oh, b) == d,
    decreases m,
{
    if m > 0 {
        let c = m - 1;
        lemma_paint_row_empty(d, tiles, r, (m - 1) as nat, cols, tw, th, ow, oh, b);
        assert(0 <= r * cols + c < tiles.len() && 0 <= c * tw && 0 <= r * th) by (nonlinear_arith)
            requires
                0 <= r,
                0 <= c < cols,
                r * cols + cols <= tiles.len(),
                tw >= 0,
                th >= 0,
        ;
        lemma_paint_tile_empty(d, tiles[r * cols + c], c * tw, r * th, ow, oh, b);
    }
}

} // verus!
