//! The in-process filmstrip sprite: `cols` decoded frames, each scaled to a
//! cell of the same size, laid side by side in one packed RGB row and encoded
//! as a JPEG (through `jpeg_encoder`). A cell whose frame could not be decoded
//! stays black.

use vstd::prelude::*;
use crate::text::{decimal, str_concat};

verus! {

broadcast use vstd::string::group_string_axioms;

/// The JPEG `jpeg_encoder` writes for packed RGB `data` of `width` x `height`
/// pixels at `quality`.
pub uninterp spec fn jpeg_rgb(data: Seq<u8>, width: u16, height: u16, quality: u8) -> Seq<u8>;

/// Whether `jpeg_encoder` accepts an RGB image: both dimensions non-zero and
/// at least `width * height * 3` bytes of pixels.
pub open spec fn jpeg_accepts(len: nat, width: u16, height: u16) -> bool {
    width > 0 && height > 0 && len >= width * height * 3
}

/// The message of `jpeg_encoder`'s error for an RGB image it refuses: too few
/// bytes is checked first, then the dimensions.
pub open spec fn jpeg_error_text(len: nat, width: u16, height: u16) -> Seq<char> {
    if len < width * height * 3 {
        "Image data too small for dimensions and color_type: "@ + decimal(len) + " need at least "@
            + decimal((width * height * 3) as nat)
    } else {
        "Image dimensions must be non zero: "@ + decimal(width as nat) + "x"@ + decimal(
            height as nat,
        )
    }
}

/// `jpeg_encoder::Encoder::new(&mut Vec<u8>, quality)` followed by
/// `encode(data, width, height, ColorType::Rgb)`: the baseline encoder writes
/// into memory, which cannot fail, so the call fails exactly when the image is
/// refused (`BadImageData` when `data` is short, else `ZeroImageDimensions`),
/// with that error's message; otherwise it returns the JPEG bytes, a function
/// of its arguments (the crate's `simd` feature, whose code path depends on
/// the CPU, is not enabled).
#[verifier::external_body]
fn encode_jpeg_rgb(data: &[u8], width: u16, height: u16, quality: u8) -> (r: Result<Vec<u8>, String>)
    requires
        width * height * 3 <= usize::MAX,
    ensures
        r is Ok <==> jpeg_accepts(data@.len(), width, height),
        r matches Ok(b) ==> b@ == jpeg_rgb(data@, width, height, quality),
        r matches Err(e) ==> e@ == jpeg_error_text(data@.len(), width, height),
{
    let mut out: Vec<u8> = Vec::new();
    let encoder = jpeg_encoder::Encoder::new(&mut out, quality);
    match encoder.encode(data, width, height, jpeg_encoder::ColorType::Rgb) {
        Ok(()) => Ok(out),
        Err(e) => Err(e.to_string()),
    }
}

/// A decoded frame scaled to the cell size, as packed RGB rows `stride`
/// bytes apart (a row may carry padding past the cell's width).
pub struct CellFrame {
    pub data: Vec<u8>,
    pub stride: usize,
}

/// The frames of the cells: pixel bytes and row stride, `None` for a cell
/// left black.
pub open spec fn cells_view(cells: Seq<Option<CellFrame>>) -> Seq<Option<(Seq<u8>, nat)>> {
    cells.map_values(
        |c: Option<CellFrame>|
            match c {
                Some(f) => Some((f.data@, f.stride as nat)),
                None => None,
            },
    )
}

/// Whether a frame holds `height` rows of `cell_bytes` bytes at its stride.
pub open spec fn frame_fits(c: Option<(Seq<u8>, nat)>, cell_bytes: nat, height: nat) -> bool {
    match c {
        Some((d, s)) => s >= cell_bytes && (height > 0 ==> (height - 1) * s + cell_bytes <= d.len()),
        None => true,
    }
}

/// Byte `p` of the sprite whose rows are `row_bytes` long and whose cells
/// are `cell_bytes` wide: the matching byte of its cell's frame, 0 (black)
/// for a cell without one.
pub open spec fn canvas_byte(
    cells: Seq<Option<(Seq<u8>, nat)>>,
    cell_bytes: int,
    row_bytes: int,
    p: int,
) -> u8 {
    let c = (p % row_bytes) / cell_bytes;
    match cells[c] {
        Some((d, s)) => d[(p / row_bytes) * s + (p % row_bytes - c * cell_bytes)],
        None => 0,
    }
}

/// The packed RGB sprite: one row of `cells.len()` cells, each `cell_bytes`
/// bytes (3 per pixel) wide and `height` rows tall.
pub open spec fn sprite_canvas(cells: Seq<Option<(Seq<u8>, nat)>>, cell_bytes: nat, height: nat) -> Seq<
    u8,
> {
    let row_bytes = cell_bytes * cells.len();
    Seq::new(row_bytes * height, |p: int| canvas_byte(cells, cell_bytes as int, row_bytes as int, p))
}

/// Whether byte `p` of a canvas lies in cell `i`.
pub open spec fn in_cell(p: int, i: int, cell_bytes: int, row_bytes: int) -> bool {
    i * cell_bytes <= p % row_bytes < (i + 1) * cell_bytes
}

proof fn lemma_position(y: int, i: int, k: int, cell_bytes: int, row_bytes: int)
    requires
        0 <= y,
        0 <= i,
        0 <= k < cell_bytes,
        (i + 1) * cell_bytes <= row_bytes,
    ensures
        (y * row_bytes + i * cell_bytes + k) / row_bytes == y,
        (y * row_bytes + i * cell_bytes + k) % row_bytes == i * cell_bytes + k,
        in_cell(y * row_bytes + i * cell_bytes + k, i, cell_bytes, row_bytes),
{
    assert((i + 1) * cell_bytes == i * cell_bytes + cell_bytes) by (nonlinear_arith);
    assert(0 <= i * cell_bytes) by (nonlinear_arith)
        requires
            0 <= i,
            0 <= k < cell_bytes,
    ;
    vstd::arithmetic::div_mod::lemma_fundamental_div_mod_converse(
        y * row_bytes + i * cell_bytes + k,
        row_bytes,
        y,
        i * cell_bytes + k,
    );
}

/// Copies the frame `data` (rows `stride` bytes apart) into cell `i` of the
/// canvas, row by row, skipping the frame's row padding.
fn blit_cell(
    canvas: &mut Vec<u8>,
    data: &[u8],
    stride: usize,
    i: usize,
    cell_bytes: usize,
    row_bytes: usize,
    height: usize,
)
    requires
        cell_bytes > 0,
        (i + 1) * cell_bytes <= row_bytes,
        old(canvas)@.len() == row_bytes * height,
        stride >= cell_bytes,
        height > 0 ==> (height - 1) * stride + cell_bytes <= data@.len(),
    ensures
        final(canvas)@.len() == old(canvas)@.len(),
        forall|p: int|
            0 <= p < old(canvas)@.len() ==> #[trigger] final(canvas)@[p] == if in_cell(
                p,
                i as int,
                cell_bytes as int,
                row_bytes as int,
            ) {
                data@[(p / row_bytes as int) * stride + (p % row_bytes as int - i * cell_bytes)]
            } else {
                old(canvas)@[p]
            },
{
    let ghost c0 = canvas@;
    let ghost len = c0.len();
    let ghost rb = row_bytes as int;
    let ghost cb = cell_bytes as int;
    let ghost ii = i as int;
    assert(ii * cb + cb <= rb) by (nonlinear_arith)
        requires
            (ii + 1) * cb <= rb,
    ;
    let x_off = i * cell_bytes;
    let dl = data.len();
    let cl = canvas.len();
    let mut y: usize = 0;
    while y < height
        invariant
            y <= height,
            cell_bytes > 0,
            x_off == ii * cb,
            x_off + cell_bytes <= row_bytes,
            rb == row_bytes,
            cb == cell_bytes,
            ii == i,
            (ii + 1) * cb <= rb,
            stride >= cell_bytes,
            height > 0 ==> (height - 1) * stride + cell_bytes <= data@.len(),
            data@.len() == dl,
            len == cl,
            len == row_bytes * height,
            canvas@.len() == len,
            forall|p: int|
                0 <= p < len ==> #[trigger] canvas@[p] == if in_cell(p, ii, cb, rb) && p
                    / rb < y {
                    data@[(p / rb) * stride + (p % rb - ii * cb)]
                } else {
                    c0[p]
                },
        decreases height - y,
    {
        assert((y + 1) * row_bytes <= row_bytes * height) by (nonlinear_arith)
            requires
                y < height,
        ;
        assert(y * row_bytes + row_bytes == (y + 1) * row_bytes) by (nonlinear_arith);
        assert(y * stride + cell_bytes <= data@.len()) by (nonlinear_arith)
            requires
                y < height,
                (height - 1) * stride + cell_bytes <= data@.len(),
        ;
        let row_start = y * row_bytes + x_off;
        let src_start = y * stride;
        let mut k: usize = 0;
        while k < cell_bytes
            invariant
                y < height,
                k <= cell_bytes,
                cell_bytes > 0,
                x_off == ii * cb,
                x_off + cell_bytes <= row_bytes,
                rb == row_bytes,
                cb == cell_bytes,
                ii == i,
                (ii + 1) * cb <= rb,
                row_start == y * row_bytes + x_off,
                src_start == y * stride,
                src_start + cell_bytes <= data@.len(),
                data@.len() == dl,
                len == cl,
                (y + 1) * row_bytes <= len,
                len == row_bytes * height,
                canvas@.len() == len,
                forall|p: int|
                    0 <= p < len ==> #[trigger] canvas@[p] == if in_cell(p, ii, cb, rb) && (
                    p / rb < y || (p / rb == y && p % rb - ii * cb < k)) {
                        data@[(p / rb) * stride + (p % rb - ii * cb)]
                    } else {
                        c0[p]
                    },
            decreases cell_bytes - k,
        {
            proof {
                lemma_position(y as int, ii, k as int, cb, rb);
                assert(y * row_bytes + row_bytes == (y + 1) * row_bytes) by (nonlinear_arith);
            }
            let q = row_start + k;
            let src = src_start + k;
            let v = data[src];
            let ghost before = canvas@;
            canvas.set(q, v);
            proof {
                assert forall|p: int| 0 <= p < len implies #[trigger] canvas@[p] == if in_cell(
                    p,
                    ii,
                    cb,
                    rb,
                ) && (p / rb < y || (p / rb == y && p % rb - ii * cb < k + 1)) {
                    data@[(p / rb) * stride + (p % rb - ii * cb)]
                } else {
                    c0[p]
                } by {
                    if p == q {
                        assert(p / rb == y && p % rb == ii * cb + k);
                    } else {
                        assert(before[p] == canvas@[p]);
                        if in_cell(p, ii, cb, rb) && p / rb == y && p % rb - ii * cb == k {
                            assert(p == (p / rb) * rb + p % rb) by {
                                vstd::arithmetic::div_mod::lemma_fundamental_div_mod(p, rb);
                            }
                            assert(p == q) by (nonlinear_arith)
                                requires
                                    p == (p / rb) * rb + p % rb,
                                    p / rb == y,
                                    p % rb == ii * cb + k,
                                    q == y * rb + ii * cb + k,
                            ;
                        }
                    }
                }
            }
            k += 1;
        }
        proof {
            assert forall|p: int| 0 <= p < len implies #[trigger] canvas@[p] == if in_cell(
                p,
                ii,
                cb,
                rb,
            ) && p / rb < y + 1 {
                data@[(p / rb) * stride + (p % rb - ii * cb)]
            } else {
                c0[p]
            } by {
                assert((ii + 1) * cb == ii * cb + cb) by (nonlinear_arith);
            }
        }
        y += 1;
    }
    proof {
        assert forall|p: int| 0 <= p < len implies #[trigger] canvas@[p] == if in_cell(p, ii, cb, rb) {
            data@[(p / rb) * stride + (p % rb - ii * cb)]
        } else {
            c0[p]
        } by {
            vstd::arithmetic::div_mod::lemma_fundamental_div_mod(p, rb);
            assert(p / rb < height) by (nonlinear_arith)
                requires
                    p == rb * (p / rb) + p % rb,
                    0 <= p % rb,
                    p < rb * height,
                    rb > 0,
            ;
        }
    }
}

/// The cell height of a `src_w` x `src_h` source scaled to `frame_width`
/// wide with its aspect kept: the exact height rounded to the nearest pixel
/// (halves up) and capped at `u32::MAX`, then down to even (4:2:0 needs even
/// rows), and at least 2.
pub open spec fn cell_height_spec(frame_width: nat, src_w: nat, src_h: nat) -> nat {
    let rounded = (2 * frame_width * src_h + src_w) / (2 * src_w);
    let capped = if rounded > u32::MAX {
        u32::MAX as nat
    } else {
        rounded
    };
    let even = (capped / 2) * 2;
    if even < 2 {
        2
    } else {
        even
    }
}

/// The sprite's cell height for a `src_w` x `src_h` video scaled to
/// `frame_width` (see `cell_height_spec`); `None` when the source reports a
/// zero dimension.
pub fn sprite_cell_height(frame_width: u32, src_w: u32, src_h: u32) -> (r: Option<u32>)
    ensures
        r is None <==> (src_w == 0 || src_h == 0),
        r matches Some(h) ==> h == cell_height_spec(frame_width as nat, src_w as nat, src_h as nat),
{
    if src_w == 0 || src_h == 0 {
        return None;
    }
    let fw = frame_width as u128;
    let sw = src_w as u128;
    let sh = src_h as u128;
    assert(fw * sh <= 0xffff_ffff_ffff_ffff_ffff_ffffu128) by (nonlinear_arith)
        requires
            fw <= 0xffff_ffff,
            sh <= 0xffff_ffff,
    ;
    let num = 2 * (fw * sh) + sw;
    let rounded = num / (2 * sw);
    assert(2 * (fw * sh) == 2 * fw * sh) by (nonlinear_arith);
    let capped: u32 = if rounded > 0xffff_ffffu128 {
        0xffff_ffffu32
    } else {
        rounded as u32
    };
    let even = (capped / 2) * 2;
    if even < 2 {
        Some(2)
    } else {
        Some(even)
    }
}

/// The JPEG quality of the sprite (about FFmpeg's `-q:v 4`).
pub const SPRITE_QUALITY: u8 = 88;

/// The sprite width in pixels as handed to the encoder: `cols` cells of
/// `cell_w`, in `u32` and then cut to the encoder's `u16`.
pub open spec fn sprite_width(cell_w: u32, cols: nat) -> u16 {
    ((cell_w * cols) as u32) as u16
}

proof fn lemma_cell_index(p: int, i: int, cb: int, rb: int)
    requires
        cb > 0,
        rb > 0,
        0 <= i,
    ensures
        in_cell(p, i, cb, rb) <==> (p % rb) / cb == i,
{
    let x = p % rb;
    if in_cell(p, i, cb, rb) {
        assert(0 <= x - i * cb < cb) by (nonlinear_arith)
            requires
                i * cb <= x < (i + 1) * cb,
        ;
        vstd::arithmetic::div_mod::lemma_fundamental_div_mod_converse(x, cb, i, x - i * cb);
    }
    if x / cb == i {
        vstd::arithmetic::div_mod::lemma_fundamental_div_mod(x, cb);
        assert(i * cb <= x < (i + 1) * cb) by (nonlinear_arith)
            requires
                x == cb * (x / cb) + x % cb,
                0 <= x % cb < cb,
                x / cb == i,
        ;
    }
}

proof fn lemma_truncate_u16(x: u32)
    ensures
        (x as u16) as int <= x as int,
{
    assert((x as u16) as u32 <= x) by (bit_vector);
}

/// Lays the decoded `cells` side by side, left to right, into one packed RGB
/// row, each cell `cell_w` pixels wide and `cell_h` rows tall; a cell
/// without a frame stays black.
pub fn filmstrip_canvas(cells: &Vec<Option<CellFrame>>, cell_w: u32, cell_h: u32) -> (r: Vec<u8>)
    requires
        cells@.len() <= u32::MAX,
        cell_w * 3 <= u32::MAX,
        cell_w * cells@.len() * 3 <= u32::MAX,
        cell_w * cells@.len() * 3 * cell_h <= usize::MAX,
        forall|c: int|
            0 <= c < cells@.len() ==> frame_fits(
                #[trigger] cells_view(cells@)[c],
                cell_w as nat * 3,
                cell_h as nat,
            ),
    ensures
        r@ == sprite_canvas(cells_view(cells@), cell_w as nat * 3, cell_h as nat),
{
    let ghost cv = cells_view(cells@);
    let ghost cols = cells@.len();
    assert(cell_w * cols <= u32::MAX && cell_w * cols * 3 == cell_w * 3 * cols) by (nonlinear_arith)
        requires
            cell_w * cols * 3 <= u32::MAX,
    ;
    assert(cell_w * cols * 3 * cell_h == cell_w * 3 * cols * cell_h) by (nonlinear_arith);
    let n = cells.len();
    let tile_w: u32 = cell_w * (n as u32);
    let row_bytes: usize = (tile_w * 3) as usize;
    let cell_bytes: usize = (cell_w * 3) as usize;
    let height: usize = cell_h as usize;
    assert(row_bytes == cell_bytes * cols) by (nonlinear_arith)
        requires
            row_bytes == cell_w * cols * 3,
            cell_bytes == cell_w * 3,
    ;
    let len: usize = row_bytes * height;
    let ghost rb = row_bytes as int;
    let ghost cb = cell_bytes as int;
    let mut canvas: Vec<u8> = Vec::new();
    while canvas.len() < len
        invariant
            canvas@.len() <= len,
            forall|p: int| 0 <= p < canvas@.len() ==> #[trigger] canvas@[p] == 0u8,
        decreases len - canvas@.len(),
    {
        canvas.push(0u8);
    }
    let mut i: usize = 0;
    while i < n
        invariant
            i <= n,
            n == cols,
            cols == cells@.len(),
            cv == cells_view(cells@),
            rb == row_bytes,
            cb == cell_bytes,
            rb == cb * cols,
            len == row_bytes * height,
            canvas@.len() == len,
            forall|c: int| 0 <= c < cols ==> frame_fits(#[trigger] cv[c], cb as nat, height as nat),
            forall|p: int|
                0 <= p < len ==> #[trigger] canvas@[p] == if cb > 0 && (p % rb) / cb < i {
                    canvas_byte(cv, cb, rb, p)
                } else {
                    0u8
                },
        decreases n - i,
    {
        assert((i + 1) * cb <= rb) by (nonlinear_arith)
            requires
                i < cols,
                rb == cb * cols,
                cb >= 0,
        ;
        if cell_bytes > 0 {
            let ghost before = canvas@;
            match &cells[i] {
                Some(f) => {
                    assert(cv[i as int] == Some((f.data@, f.stride as nat)));
                    blit_cell(&mut canvas, f.data.as_slice(), f.stride, i, cell_bytes, row_bytes, height);
                    assert forall|p: int| 0 <= p < len implies #[trigger] canvas@[p] == if (p % rb) / cb
                        < i + 1 {
                        canvas_byte(cv, cb, rb, p)
                    } else {
                        0u8
                    } by {
                        lemma_cell_index(p, i as int, cb, rb);
                    }
                },
                None => {
                    assert(cv[i as int] is None);
                    assert forall|p: int| 0 <= p < len implies #[trigger] canvas@[p] == if (p % rb) / cb
                        < i + 1 {
                        canvas_byte(cv, cb, rb, p)
                    } else {
                        0u8
                    } by {
                        lemma_cell_index(p, i as int, cb, rb);
                    }
                },
            }
        }
        i += 1;
    }
    proof {
        let want = sprite_canvas(cv, cell_w as nat * 3, cell_h as nat);
        assert(want.len() == len);
        assert forall|p: int| 0 <= p < len implies canvas@[p] == want[p] by {
            if cb > 0 {
                vstd::arithmetic::div_mod::lemma_fundamental_div_mod(p % rb, cb);
                assert((p % rb) / cb < cols) by (nonlinear_arith)
                    requires
                        p % rb == cb * ((p % rb) / cb) + (p % rb) % cb,
                        0 <= (p % rb) % cb,
                        p % rb < rb,
                        rb == cb * cols,
                        cb > 0,
                ;
            }
        }
        assert(canvas@ =~= want);
    }
    canvas
}

/// Assembles the sprite from the decoded `cells` (see `filmstrip_canvas`)
/// and encodes it as a JPEG at `SPRITE_QUALITY`. A refused image (an empty
/// sprite) fails with `jpeg_encoder`'s message.
pub fn filmstrip_sprite(cells: &Vec<Option<CellFrame>>, cell_w: u32, cell_h: u32) -> (r: Result<
    Vec<u8>,
    String,
>)
    requires
        cells@.len() <= u32::MAX,
        cell_w * 3 <= u32::MAX,
        cell_w * cells@.len() * 3 <= u32::MAX,
        cell_w * cells@.len() * 3 * cell_h <= usize::MAX,
        forall|c: int|
            0 <= c < cells@.len() ==> frame_fits(
                #[trigger] cells_view(cells@)[c],
                cell_w as nat * 3,
                cell_h as nat,
            ),
    ensures
        r is Ok <==> jpeg_accepts(
            sprite_canvas(cells_view(cells@), cell_w as nat * 3, cell_h as nat).len(),
            sprite_width(cell_w, cells@.len()),
            cell_h as u16,
        ),
        r matches Ok(b) ==> b@ == jpeg_rgb(
            sprite_canvas(cells_view(cells@), cell_w as nat * 3, cell_h as nat),
            sprite_width(cell_w, cells@.len()),
            cell_h as u16,
            SPRITE_QUALITY,
        ),
        r matches Err(e) ==> e@ == "libav jpeg encode: "@ + jpeg_error_text(
            sprite_canvas(cells_view(cells@), cell_w as nat * 3, cell_h as nat).len(),
            sprite_width(cell_w, cells@.len()),
            cell_h as u16,
        ),
{
    let canvas = filmstrip_canvas(cells, cell_w, cell_h);
    let ghost cols = cells@.len();
    let n = cells.len();
    assert(cell_w * cols <= u32::MAX && cell_w * cols * 3 * cell_h == cell_w * cols * cell_h * 3)
        by (nonlinear_arith)
        requires
            cell_w * cols * 3 <= u32::MAX,
    ;
    let tile_w: u32 = cell_w * (n as u32);
    proof {
        lemma_truncate_u16(tile_w);
        lemma_truncate_u16(cell_h);
    }
    let w16: u16 = #[verifier::truncate] (tile_w as u16);
    let h16: u16 = #[verifier::truncate] (cell_h as u16);
    assert(w16 * h16 * 3 <= usize::MAX) by (nonlinear_arith)
        requires
            w16 <= tile_w,
            h16 <= cell_h,
            tile_w * cell_h * 3 <= usize::MAX,
    ;
    match encode_jpeg_rgb(canvas.as_slice(), w16, h16, SPRITE_QUALITY) {
        Ok(b) => Ok(b),
        Err(e) => Err(str_concat("libav jpeg encode: ", e.as_str())),
    }
}

/// Cell `i` of the sprite shows its own frame and nothing else: row `y`,
/// byte `k` of the cell is byte `y * stride + k` of that frame, or black when
/// the cell has no frame.
pub proof fn lemma_sprite_cell_shows_its_frame(
    cells: Seq<Option<(Seq<u8>, nat)>>,
    cell_bytes: nat,
    height: nat,
    i: int,
    y: int,
    k: int,
)
    requires
        0 <= i < cells.len(),
        0 <= y < height,
        0 <= k < cell_bytes,
    ensures
        sprite_canvas(cells, cell_bytes, height)[y * (cell_bytes * cells.len()) + i * cell_bytes + k]
            == match cells[i] {
            Some((d, s)) => d[y * s + k],
            None => 0u8,
        },
{
    let rb = (cell_bytes * cells.len()) as int;
    let cb = cell_bytes as int;
    assert((i + 1) * cb <= rb) by (nonlinear_arith)
        requires
            0 <= i < cells.len(),
            rb == cb * cells.len(),
            cb >= 0,
    ;
    lemma_position(y, i, k, cb, rb);
    let p = y * rb + i * cb + k;
    lemma_cell_index(p, i, cb, rb);
    assert(i * cb + k < rb) by (nonlinear_arith)
        requires
            (i + 1) * cb <= rb,
            k < cb,
    ;
    assert((y + 1) * rb <= rb * height) by (nonlinear_arith)
        requires
            y + 1 <= height,
            rb >= 0,
    ;
    assert(y * rb + rb == (y + 1) * rb) by (nonlinear_arith);
    assert(p - 0 >= 0) by (nonlinear_arith)
        requires
            p == y * rb + i * cb + k,
            0 <= y,
            0 <= i,
            0 <= k,
            rb >= 0,
            cb >= 0,
    ;
}

} // verus!
