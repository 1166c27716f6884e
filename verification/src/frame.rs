//! Turning a finished frame for a panel that is mounted rotated. Frames are
//! square and stored as RGBA, 4 bytes per pixel, row by row. Done while
//! rendering so the device itself can stay at orientation 0.

use vstd::prelude::*;

verus! {

/// Where output pixel `(x, y)` of a `w`-wide square frame turned by `degrees`
/// is read from. 90 turns counter-clockwise; any angle other than 0, 90 and
/// 180 (modulo 360) is taken as 270.
pub open spec fn rotation_source(w: int, degrees: u32, x: int, y: int) -> (int, int) {
    let d = degrees % 360;
    if d == 0 {
        (x, y)
    } else if d == 180 {
        (w - 1 - x, w - 1 - y)
    } else if d == 90 {
        (w - 1 - y, x)
    } else {
        (y, w - 1 - x)
    }
}

/// Byte `k` of the turned frame.
pub open spec fn rotated_byte(src: Seq<u8>, w: int, degrees: u32, k: int) -> u8 {
    let p = k / 4;
    let (sx, sy) = rotation_source(w, degrees, p % w, p / w);
    src[(sy * w + sx) * 4 + k % 4]
}

/// The whole frame `src`, `w` pixels square, turned by `degrees`.
pub open spec fn spec_rotated(src: Seq<u8>, w: int, degrees: u32) -> Seq<u8> {
    Seq::new(src.len(), |k: int| rotated_byte(src, w, degrees, k))
}

proof fn lemma_pixel_coords(p: int, w: int)
    requires
        0 < w,
        0 <= p < w * w,
    ensures
        0 <= p / w < w,
        0 <= p % w < w,
        p == (p / w) * w + p % w,
{
    vstd::arithmetic::div_mod::lemma_fundamental_div_mod(p, w);
    vstd::arithmetic::div_mod::lemma_mod_bound(p, w);
    assert((p / w) * w == w * (p / w)) by (nonlinear_arith);
    assert(0 <= p / w < w) by (nonlinear_arith)
        requires 0 < w, 0 <= p < w * w, p == (p / w) * w + p % w, 0 <= p % w < w;
}

proof fn lemma_pixel_index(x: int, y: int, w: int)
    requires
        0 <= x < w,
        0 <= y < w,
    ensures
        0 <= y * w + x < w * w,
        (y * w + x) / w == y,
        (y * w + x) % w == x,
{
    assert(0 <= y * w + x < w * w) by (nonlinear_arith)
        requires 0 <= x < w, 0 <= y < w;
    vstd::arithmetic::div_mod::lemma_fundamental_div_mod_converse(y * w + x, w, y, x);
}

/// Turn the square RGBA frame `src`, `size` pixels wide, by `degrees` into
/// `out` (see `rotation_source`).
pub fn rotate_into(src: &[u8], out: &mut [u8], size: usize, degrees: u32)
    requires
        src@.len() == size * size * 4,
        old(out)@.len() == src@.len(),
    ensures
        final(out)@ == spec_rotated(src@, size as int, degrees),
{
    let d = degrees % 360;
    let n = src.len() / 4;
    let ghost w = size as int;
    assert(n == w * w);
    let mut p: usize = 0;
    while p < n
        invariant
            0 <= p <= n,
            n == w * w,
            n * 4 <= usize::MAX,
            w == size,
            d == degrees % 360,
            src@.len() == n * 4,
            out@.len() == n * 4,
            forall|k: int| 0 <= k < p * 4 ==> #[trigger] out@[k] == rotated_byte(src@, w, degrees, k),
        decreases n - p,
    {
        proof {
            lemma_pixel_coords(p as int, w);
        }
        let y = p / size;
        let x = p % size;
        let (sx, sy) = if d == 0 {
            (x, y)
        } else if d == 180 {
            (size - 1 - x, size - 1 - y)
        } else if d == 90 {
            (size - 1 - y, x)
        } else {
            (y, size - 1 - x)
        };
        proof {
            lemma_pixel_index(sx as int, sy as int, w);
            assert((sy * w + sx) * 4 + 4 <= n * 4);
        }
        let si = (sy * size + sx) * 4;
        let di = p * 4;
        let mut c: usize = 0;
        while c < 4
            invariant
                0 <= c <= 4,
                di == p * 4,
                p < n,
                n == w * w,
                src@.len() == n * 4,
                out@.len() == n * 4,
                si + 4 <= n * 4,
                (sx as int, sy as int) == rotation_source(w, degrees, p as int % w, p as int / w),
                si == (sy * w + sx) * 4,
                forall|k: int| 0 <= k < p * 4 + c ==> #[trigger] out@[k] == rotated_byte(src@, w, degrees, k),
            decreases 4 - c,
        {
            out[di + c] = src[si + c];
            proof {
                let k = (p * 4 + c) as int;
                assert(k / 4 == p && k % 4 == c);
            }
            c = c + 1;
        }
        p = p + 1;
    }
}

/// Law: a quarter turn one way undone by a quarter turn the other way, a half
/// turn done twice, and no turn at all each give back the frame unchanged.
pub proof fn lemma_rotation_undone(src: Seq<u8>, w: int)
    requires
        w > 0,
        src.len() == w * w * 4,
    ensures
        spec_rotated(spec_rotated(src, w, 90), w, 270) == src,
        spec_rotated(spec_rotated(src, w, 270), w, 90) == src,
        spec_rotated(spec_rotated(src, w, 180), w, 180) == src,
        spec_rotated(src, w, 0) == src,
{
    assert forall|a: u32, b: u32, k: int|
        0 <= k < src.len() && ((a == 90 && b == 270) || (a == 270 && b == 90) || (a == 180 && b == 180))
            implies #[trigger] rotated_byte(spec_rotated(src, w, a), w, b, k) == src[k] by {
        let p = k / 4;
        let c = k % 4;
        assert(0 <= p < w * w);
        lemma_pixel_coords(p, w);
        let (x, y) = (p % w, p / w);
        let (sx, sy) = rotation_source(w, b, x, y);
        lemma_pixel_index(sx, sy, w);
        let k2 = (sy * w + sx) * 4 + c;
        assert(0 <= k2 < src.len());
        assert(k2 / 4 == sy * w + sx && k2 % 4 == c);
        let (tx, ty) = rotation_source(w, a, sx, sy);
        assert((tx, ty) == (x, y));
        assert(k == (y * w + x) * 4 + c);
    }
    assert(spec_rotated(spec_rotated(src, w, 90), w, 270) =~= src);
    assert(spec_rotated(spec_rotated(src, w, 270), w, 90) =~= src);
    assert(spec_rotated(spec_rotated(src, w, 180), w, 180) =~= src);
    assert forall|k: int| 0 <= k < src.len() implies #[trigger] spec_rotated(src, w, 0)[k] == src[k] by {
        let p = k / 4;
        lemma_pixel_coords(p, w);
        assert(k == ((p / w) * w + p % w) * 4 + k % 4);
    }
    assert(spec_rotated(src, w, 0) =~= src);
}

} // verus!
