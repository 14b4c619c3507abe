//! Padding of RGBA images: an image is centred on a larger transparent canvas.
use vstd::prelude::*;

verus! {

/// The index of subpixel `c` of pixel (`x`, `y`) in an RGBA image `w` pixels wide.
pub open spec fn subpixel(w: int, y: int, x: int, c: int) -> int {
    4 * (y * w + x) + c
}

/// Subpixel `c` of pixel (`x`, `y`) of the image `content` (`sw` by `sh`)
/// centred on a transparent canvas of `tw` by `th` pixels: where the padding
/// on one side cannot be even, the image sits one pixel left of (above) the centre.
pub open spec fn padded_subpixel(content: Seq<u8>, sw: int, sh: int, tw: int, th: int, y: int, x: int, c: int) -> u8 {
    let left = (tw - sw) / 2;
    let top = (th - sh) / 2;
    if top <= y < top + sh && left <= x < left + sw {
        content[subpixel(sw, y - top, x - left, c)]
    } else {
        0
    }
}

proof fn lemma_subpixel_bound(w: int, h: int, y: int, x: int, c: int)
    requires
        0 <= y < h,
        0 <= x < w,
        0 <= c < 4,
    ensures
        0 <= subpixel(w, y, x, c) < 4 * w * h,
{
    assert(y * w + x < w * h) by (nonlinear_arith)
        requires 0 <= y < h, 0 <= x < w;
    assert(0 <= y * w) by (nonlinear_arith)
        requires 0 <= y, 0 <= w;
    assert(4 * (w * h) == 4 * w * h) by (nonlinear_arith);
}

proof fn lemma_subpixel_injective(w: int, y1: int, x1: int, c1: int, y2: int, x2: int, c2: int)
    requires
        0 <= y1, 0 <= y2,
        0 <= x1 < w, 0 <= x2 < w,
        0 <= c1 < 4, 0 <= c2 < 4,
        subpixel(w, y1, x1, c1) == subpixel(w, y2, x2, c2),
    ensures
        y1 == y2 && x1 == x2 && c1 == c2,
{
    let p1 = y1 * w + x1;
    let p2 = y2 * w + x2;
    assert(0 <= y1 * w && 0 <= y2 * w) by (nonlinear_arith)
        requires 0 <= y1, 0 <= y2, 0 <= x1 < w;
    vstd::arithmetic::div_mod::lemma_fundamental_div_mod_converse(4 * p1 + c1, 4, p1, c1);
    vstd::arithmetic::div_mod::lemma_fundamental_div_mod_converse(4 * p2 + c2, 4, p2, c2);
    assert(p1 == p2);
    vstd::arithmetic::div_mod::lemma_fundamental_div_mod_converse(p1, w, y1, x1);
    vstd::arithmetic::div_mod::lemma_fundamental_div_mod_converse(p2, w, y2, x2);
}

/// The byte at `i` after the first and third byte of every four are swapped.
pub open spec fn swapped_byte(d: Seq<u8>, i: int) -> u8 {
    if i % 4 == 0 { d[i + 2] } else if i % 4 == 2 { d[i - 2] } else { d[i] }
}

/// Turns BGRA pixels into RGBA pixels (and back) by swapping the first and
/// third byte of every four.
pub fn bgra_to_rgba(data: &mut Vec<u8>)
    requires
        old(data)@.len() % 4 == 0 || old(data)@.len() % 4 == 3,
    ensures
        final(data)@.len() == old(data)@.len(),
        forall|i: int| 0 <= i < old(data)@.len() ==> #[trigger] final(data)@[i] == swapped_byte(old(data)@, i),
{
    let ghost d0 = data@;
    let n = data.len();
    let blocks = n / 4 + if n % 4 == 3 { 1 } else { 0 };
    let mut k: usize = 0;
    while k < blocks
        invariant
            n == d0.len() == data@.len(),
            d0.len() % 4 == 0 || d0.len() % 4 == 3,
            blocks == n / 4 + if n % 4 == 3 { 1usize } else { 0usize },
            k <= blocks,
            forall|j: int| 0 <= j < 4 * k && j < n ==> #[trigger] data@[j] == swapped_byte(d0, j),
            forall|j: int| 4 * k <= j < n ==> #[trigger] data@[j] == d0[j],
        decreases blocks - k,
    {
        let i = 4 * k;
        assert(i + 2 < n);
        let a = data[i];
        let b = data[i + 2];
        data.set(i, b);
        data.set(i + 2, a);
        proof {
            assert forall|j: int| 0 <= j < 4 * (k + 1) && j < n implies #[trigger] data@[j] == swapped_byte(d0, j) by {
                if j >= i {
                    assert((j - i) % 4 == j % 4);
                }
            }
        }
        k = k + 1;
    }
}

/// Puts an RGBA image (`src_width` by `src_height` pixels, four bytes each,
/// row by row) in the centre of a transparent image of the target size.
pub fn enlarge_to(content: &[u8], src_width: u32, src_height: u32, target_width: u32, target_height: u32) -> (r: Vec<u8>)
    requires
        target_width >= src_width,
        target_height >= src_height,
        4 * target_width * target_height <= u32::MAX,
        content@.len() >= 4 * src_width * src_height,
    ensures
        r@.len() == 4 * target_width * target_height,
        forall|y: int, x: int, c: int| 0 <= y < target_height && 0 <= x < target_width && 0 <= c < 4
            ==> #[trigger] r@[subpixel(target_width as int, y, x, c)] == padded_subpixel(
                content@, src_width as int, src_height as int, target_width as int, target_height as int, y, x, c),
{
    let sw = src_width as usize;
    let sh = src_height as usize;
    let tw = target_width as usize;
    let th = target_height as usize;
    let left = (tw - sw) / 2;
    let top = (th - sh) / 2;
    let ghost cs = content@;
    proof {
        assert(4 * tw * th <= u32::MAX);
        assert(sw * sh <= tw * th) by (nonlinear_arith)
            requires sw <= tw, sh <= th;
    }
    let mut image: Vec<u8> = Vec::new();
    let mut y: usize = 0;
    assert(4 * (0 * tw) == 0) by (nonlinear_arith);
    while y < th
        invariant
            sw == src_width, sh == src_height, tw == target_width, th == target_height,
            left == (tw - sw) / 2, top == (th - sh) / 2,
            cs == content@,
            cs.len() >= 4 * sw * sh,
            4 * tw * th <= u32::MAX,
            y <= th,
            image@.len() == 4 * (y * tw),
            forall|y2: int, x2: int, c2: int| 0 <= y2 && 0 <= x2 < tw && 0 <= c2 < 4
                && subpixel(tw as int, y2, x2, c2) < image@.len()
                ==> #[trigger] image@[subpixel(tw as int, y2, x2, c2)]
                    == padded_subpixel(cs, sw as int, sh as int, tw as int, th as int, y2, x2, c2),
        decreases th - y,
    {
        let mut x: usize = 0;
        assert(y * tw + 0 == y * tw);
        while x < tw
            invariant
                sw == src_width, sh == src_height, tw == target_width, th == target_height,
                left == (tw - sw) / 2, top == (th - sh) / 2,
                cs == content@,
                cs.len() >= 4 * sw * sh,
                4 * tw * th <= u32::MAX,
                y < th,
                x <= tw,
                image@.len() == 4 * (y * tw + x),
                forall|y2: int, x2: int, c2: int| 0 <= y2 && 0 <= x2 < tw && 0 <= c2 < 4
                    && subpixel(tw as int, y2, x2, c2) < image@.len()
                    ==> #[trigger] image@[subpixel(tw as int, y2, x2, c2)]
                        == padded_subpixel(cs, sw as int, sh as int, tw as int, th as int, y2, x2, c2),
            decreases tw - x,
        {
            let inside = top <= y && y < top + sh && left <= x && x < left + sw;
            let mut c: usize = 0;
            proof {
                lemma_subpixel_bound(tw as int, th as int, y as int, x as int, 3);
            }
            while c < 4
                invariant
                    sw == src_width, sh == src_height, tw == target_width, th == target_height,
                    left == (tw - sw) / 2, top == (th - sh) / 2,
                    cs == content@,
                    cs.len() >= 4 * sw * sh,
                    4 * tw * th <= u32::MAX,
                    y < th,
                    x < tw,
                    c <= 4,
                    inside == (top <= y && y < top + sh && left <= x && x < left + sw),
                    image@.len() == 4 * (y * tw + x) + c,
                    4 * (y * tw + x) + 3 < 4 * tw * th,
                    forall|y2: int, x2: int, c2: int| 0 <= y2 && 0 <= x2 < tw && 0 <= c2 < 4
                        && subpixel(tw as int, y2, x2, c2) < image@.len()
                        ==> #[trigger] image@[subpixel(tw as int, y2, x2, c2)]
                            == padded_subpixel(cs, sw as int, sh as int, tw as int, th as int, y2, x2, c2),
                decreases 4 - c,
            {
                let v: u8 = if inside {
                    proof {
                        lemma_subpixel_bound(sw as int, sh as int, (y - top) as int, (x - left) as int, c as int);
                        assert((y - top) * sw <= (y - top) * sw + (x - left));
                        assert(0 <= (y - top) * sw) by (nonlinear_arith)
                            requires y >= top;
                        assert(sw * sh <= tw * th) by (nonlinear_arith)
                            requires sw <= tw, sh <= th;
                        assert(4 * sw * sh == 4 * (sw * sh)) by (nonlinear_arith);
                        assert(4 * tw * th == 4 * (tw * th)) by (nonlinear_arith);
                        assert(4 * ((y - top) * sw + (x - left)) + c < 4 * tw * th);
                        assert(4 * ((y - top) * sw + (x - left)) + c <= u32::MAX);
                    }
                    content[4 * ((y - top) * sw + (x - left)) + c]
                } else {
                    0
                };
                let ghost before = image@;
                image.push(v);
                proof {
                    assert forall|y2: int, x2: int, c2: int| 0 <= y2 && 0 <= x2 < tw && 0 <= c2 < 4
                        && subpixel(tw as int, y2, x2, c2) < image@.len()
                        implies #[trigger] image@[subpixel(tw as int, y2, x2, c2)]
                            == padded_subpixel(cs, sw as int, sh as int, tw as int, th as int, y2, x2, c2) by {
                        if subpixel(tw as int, y2, x2, c2) == before.len() {
                            lemma_subpixel_injective(tw as int, y2, x2, c2, y as int, x as int, c as int);
                        } else {
                            assert(image@[subpixel(tw as int, y2, x2, c2)] == before[subpixel(tw as int, y2, x2, c2)]);
                        }
                    }
                }
                c = c + 1;
            }
            x = x + 1;
        }
        assert(4 * (y * tw + tw) == 4 * ((y + 1) * tw)) by (nonlinear_arith);
        y = y + 1;
    }
    proof {
        assert(4 * (th * tw) == 4 * tw * th) by (nonlinear_arith);
        assert forall|y2: int, x2: int, c2: int| 0 <= y2 < target_height && 0 <= x2 < target_width && 0 <= c2 < 4
            implies #[trigger] image@[subpixel(target_width as int, y2, x2, c2)] == padded_subpixel(
                content@, src_width as int, src_height as int, target_width as int, target_height as int, y2, x2, c2) by {
            lemma_subpixel_bound(tw as int, th as int, y2, x2, c2);
        }
    }
    image
}

} // verus!
