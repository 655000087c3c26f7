use vstd::prelude::*;

verus! {

/// The bytes of `rows` rows of `row_len` bytes each, taken from `src` with
/// the first row at `start` and each next row `stride` bytes further on.
pub open spec fn rows_of(src: Seq<u8>, start: int, stride: int, row_len: int, rows: nat) -> Seq<u8>
    decreases rows,
{
    if rows == 0 {
        Seq::empty()
    } else {
        let r = (rows - 1) as nat;
        rows_of(src, start, stride, row_len, r) + src.subrange(
            start + r * stride,
            start + r * stride + row_len,
        )
    }
}

/// Every row read by `rows_of` lies inside a buffer of `len` bytes.
pub open spec fn rows_fit(len: int, start: int, stride: int, row_len: int, rows: int) -> bool {
    rows == 0 || start + (rows - 1) * stride + row_len <= len
}

/// Copies `rows` rows of `row_len` bytes out of `src` into one tightly packed
/// buffer, dropping whatever lies between rows.
pub fn copy_rows(src: &Vec<u8>, start: usize, stride: usize, row_len: usize, rows: usize) -> (r: Vec<u8>)
    requires
        rows_fit(src@.len() as int, start as int, stride as int, row_len as int, rows as int),
    ensures
        r@ == rows_of(src@, start as int, stride as int, row_len as int, rows as nat),
        r@.len() == rows * row_len,
{
    let src_len: usize = src.len();
    let mut out: Vec<u8> = Vec::new();
    let mut j: usize = 0;
    while j < rows
        invariant
            j <= rows,
            rows_fit(src@.len() as int, start as int, stride as int, row_len as int, rows as int),
            out@ == rows_of(src@, start as int, stride as int, row_len as int, j as nat),
            out@.len() == j * row_len,
            src_len == src@.len(),
        decreases rows - j,
    {
        proof {
            assert(j * stride <= (rows - 1) * stride) by (nonlinear_arith)
                requires j < rows, stride >= 0;
        }
        let base: usize = start + j * stride;
        let ghost before = out@;
        let mut i: usize = 0;
        while i < row_len
            invariant
                i <= row_len,
                base + row_len <= src@.len(),
                src_len == src@.len(),
                out@ == before + src@.subrange(base as int, base + i),
            decreases row_len - i,
        {
            out.push(src[base + i]);
            i = i + 1;
            proof {
                assert(src@.subrange(base as int, base + i) =~= src@.subrange(base as int, base + i - 1).push(src@[base + i - 1]));
            }
        }
        proof {
            assert(j * row_len + row_len == (j + 1) * row_len) by (nonlinear_arith);
        }
        j = j + 1;
    }
    out
}

/// Packs an interleaved RGBA plane whose rows are `stride` bytes apart into a
/// buffer of `4 * width` bytes per row, discarding the padding at row ends.
pub fn pack_interleaved(data: &Vec<u8>, stride: usize, width: u32, height: u32) -> (r: Vec<u8>)
    requires
        rows_fit(data@.len() as int, 0, stride as int, 4 * width, height as int),
    ensures
        r@ == rows_of(data@, 0, stride as int, 4 * width, height as nat),
        r@.len() == 4 * width * height,
{
    if height == 0 {
        let empty: Vec<u8> = Vec::new();
        proof {
            assert(empty@ =~= rows_of(data@, 0, stride as int, 4 * width, 0));
        }
        return empty;
    }
    let len = data.len();
    let row_len: usize = 4 * (width as usize);
    let r = copy_rows(data, 0, stride, row_len, height as usize);
    proof {
        assert(height * (4 * width) == 4 * width * height) by (nonlinear_arith);
    }
    r
}

/// Turns the interleaved RGBA plane of a decoded HEIF image, `width` by
/// `height` pixels with rows `stride` bytes apart, into a tightly packed
/// bitmap; `None` when the plane is too short for its rows.
pub fn pack_heif_plane(data: &Vec<u8>, stride: usize, width: u32, height: u32) -> (r: Option<RasterImage>)
    ensures
        r is Some <==> rows_fit(data@.len() as int, 0, stride as int, 4 * width, height as int),
        r matches Some(img) ==> img.wf() && img.width == width && img.height == height
            && img.rgba@ == rows_of(data@, 0, stride as int, 4 * width, height as nat),
{
    let row_len: u64 = 4 * (width as u64);
    if height > 0 {
        proof {
            assert((height - 1) * stride <= 0xffff_ffffu128 * 0xffff_ffff_ffff_ffffu128) by (nonlinear_arith)
                requires height - 1 <= 0xffff_ffffu128, stride <= 0xffff_ffff_ffff_ffffu128, height >= 1;
        }
        let last: u128 = ((height - 1) as u128) * (stride as u128) + (row_len as u128);
        if last > data.len() as u128 {
            return None;
        }
    }
    let packed = pack_interleaved(data, stride, width, height);
    Some(RasterImage { width, height, rgba: packed })
}

/// A decoded bitmap: `width` by `height` pixels of four bytes each (red,
/// green, blue, alpha), row after row with no padding.
pub struct RasterImage {
    pub width: u32,
    pub height: u32,
    pub rgba: Vec<u8>,
}

impl RasterImage {
    pub open spec fn wf(&self) -> bool {
        self.rgba@.len() == 4 * self.width * self.height
    }

    /// Makes a bitmap from tightly packed RGBA bytes, or `None` when their
    /// number is not four per pixel.
    pub fn from_rgba(width: u32, height: u32, rgba: Vec<u8>) -> (r: Option<RasterImage>)
        ensures
            r is Some <==> rgba@.len() == 4 * width * height,
            r matches Some(img) ==> img.wf() && img.width == width && img.height == height
                && img.rgba@ == rgba@,
    {
        proof {
            assert(width * height <= 0xffff_ffffu64 * 0xffff_ffffu64) by (nonlinear_arith)
                requires width <= 0xffff_ffffu64, height <= 0xffff_ffffu64;
            assert(4 * (width * height) == 4 * width * height) by (nonlinear_arith);
        }
        let wh: u128 = (width as u128) * (height as u128);
        let n: u128 = 4 * wh;
        if (rgba.len() as u128) == n {
            Some(RasterImage { width, height, rgba })
        } else {
            None
        }
    }
}

} // verus!
