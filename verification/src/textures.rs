//! Texture rectangles, their mipmap chains, and the cube maps built of them.

use vstd::prelude::*;
use vstd::arithmetic::div_mod::lemma_fundamental_div_mod_converse;

verus! {

/// A `width` by `height` texture whose pixels are stored row after row.
#[derive(Clone)]
pub struct Rectangle<T> {
    pub width: u32,
    pub height: u32,
    pub data: Vec<T>,
}

impl<T> Rectangle<T> {
    /// A rectangle with the given size and pixels.
    pub fn new(width: u32, height: u32, data: Vec<T>) -> (r: Self)
        ensures
            r.width == width,
            r.height == height,
            r.data@ == data@,
    {
        Rectangle { width, height, data }
    }

    /// A rectangle with no pixels.
    pub fn empty() -> (r: Self)
        ensures
            r.width == 0,
            r.height == 0,
            r.data@.len() == 0,
    {
        Rectangle { width: 0, height: 0, data: Vec::new() }
    }
}

/// Whether a `w` by `h` texture has a smaller mipmap level: both sides
/// larger than one and even.
pub open spec fn halvable(w: nat, h: nat) -> bool {
    &&& w > 1
    &&& h > 1
    &&& w % 2 == 0
    &&& h % 2 == 0
}

/// The number of levels in the mipmap chain of a `w` by `h` texture, the
/// texture itself included.
pub open spec fn mip_levels(w: nat, h: nat) -> nat
    decreases w,
{
    if halvable(w, h) {
        1 + mip_levels(w / 2, h / 2)
    } else {
        1
    }
}

/// Pixel `(x, y)` of the half-size level made from `data`, a texture of
/// width `w`: the mean of the four pixels it covers, rounded to the nearest
/// integer (halves upwards).
pub open spec fn averaged_pixel(data: Seq<u8>, w: nat, x: nat, y: nat) -> u8 {
    let top = (2 * y * w + 2 * x) as int;
    let bottom = ((2 * y + 1) * w + 2 * x) as int;
    let sum = data[top] + data[top + 1] + data[bottom] + data[bottom + 1];
    ((sum + 2) / 4) as u8
}

/// The pixels of the half-size level of a `w` by `h` texture.
pub open spec fn downsampled(data: Seq<u8>, w: nat, h: nat) -> Seq<u8> {
    let nw = w / 2;
    let nh = h / 2;
    Seq::new(nw * nh, |i: int| averaged_pixel(data, w, (i % nw as int) as nat, (i / nw as int) as nat))
}

/// The mipmap chain of a texture as (width, height, pixels) triples, from
/// the texture itself down to the first level that cannot be halved.
pub open spec fn mip_chain(w: nat, h: nat, data: Seq<u8>) -> Seq<(nat, nat, Seq<u8>)>
    decreases w,
{
    if halvable(w, h) {
        seq![(w, h, data)] + mip_chain(w / 2, h / 2, downsampled(data, w, h))
    } else {
        seq![(w, h, data)]
    }
}

/// Whether the mipmaps of a `w` by `h` texture with pixels `data` can be
/// computed: where the texture can be halved, it holds all `w * h` pixels
/// and every pixel offset fits in a `u32`.
pub open spec fn mip_ready(w: nat, h: nat, data: Seq<u8>) -> bool {
    halvable(w, h) ==> w * h <= data.len() && w * h <= 0x1_0000_0000
}

pub open spec fn levels_view(rs: Seq<Rectangle<u8>>) -> Seq<(nat, nat, Seq<u8>)> {
    rs.map_values(|r: Rectangle<u8>| (r.width as nat, r.height as nat, r.data@))
}

/// The chain has one level per mipmap level.
pub proof fn lemma_chain_length(w: nat, h: nat, data: Seq<u8>)
    ensures
        mip_chain(w, h, data).len() == mip_levels(w, h),
        mip_chain(w, h, data)[0] == (w, h, data),
    decreases w,
{
    if halvable(w, h) {
        lemma_chain_length(w / 2, h / 2, downsampled(data, w, h));
    }
}

proof fn lemma_levels_bound(w: nat, h: nat)
    ensures
        mip_levels(w, h) <= 1 + w / 2,
    decreases w,
{
    if halvable(w, h) {
        lemma_levels_bound(w / 2, h / 2);
    }
}

proof fn lemma_corner_offsets(w: int, h: int, x: int, y: int)
    requires
        w >= 2,
        h >= 2,
        w % 2 == 0,
        h % 2 == 0,
        0 <= x < w / 2,
        0 <= y < h / 2,
    ensures
        0 <= 2 * y * w + 2 * x,
        (2 * y + 1) * w + 2 * x + 1 < w * h,
        2 * y * w + 2 * x + 1 < (2 * y + 1) * w + 2 * x,
{
    let a = w / 2;
    let b = h / 2;
    assert(w == 2 * a && h == 2 * b);
    assert(2 * y * w >= 0) by (nonlinear_arith)
        requires
            y >= 0,
            w >= 0,
    ;
    assert((2 * y + 1) * w <= (h - 1) * w) by (nonlinear_arith)
        requires
            2 * y + 1 <= h - 1,
            w >= 0,
    ;
    assert((h - 1) * w == w * h - w) by (nonlinear_arith);
    assert((2 * y + 1) * w == 2 * y * w + w) by (nonlinear_arith);
}

proof fn lemma_half_area(w: int, h: int)
    requires
        w >= 2,
        h >= 2,
        w % 2 == 0,
        h % 2 == 0,
    ensures
        (w / 2) * (h / 2) * 4 == w * h,
        (w / 2) * (h / 2) <= w * h,
{
    let a = w / 2;
    let b = h / 2;
    assert(w == 2 * a && h == 2 * b);
    assert(a * b * 4 == (2 * a) * (2 * b)) by (nonlinear_arith);
    assert(a * b >= 0) by (nonlinear_arith)
        requires
            a >= 0,
            b >= 0,
    ;
}

impl Rectangle<u8> {
    /// The number of mipmap levels of this texture, itself included.
    pub fn mip_map_count(&self) -> (r: u32)
        ensures
            r == mip_levels(self.width as nat, self.height as nat),
    {
        proof {
            lemma_levels_bound(self.width as nat, self.height as nat);
        }
        Self::mip_map_count_inner(self.width, self.height, 0)
    }

    fn mip_map_count_inner(width: u32, height: u32, acc: u32) -> (r: u32)
        requires
            acc + mip_levels(width as nat, height as nat) <= u32::MAX,
        ensures
            r == acc + mip_levels(width as nat, height as nat),
        decreases width,
    {
        if width <= 1 || height <= 1 || width % 2 != 0 || height % 2 != 0 {
            return acc + 1;
        }
        Self::mip_map_count_inner(width / 2, height / 2, acc + 1)
    }

    /// The half-size level of this texture.
    fn downsample(&self) -> (r: Rectangle<u8>)
        requires
            halvable(self.width as nat, self.height as nat),
            mip_ready(self.width as nat, self.height as nat, self.data@),
        ensures
            r.width == self.width / 2,
            r.height == self.height / 2,
            r.data@ == downsampled(self.data@, self.width as nat, self.height as nat),
    {
        let w = self.width;
        let h = self.height;
        let nw = w / 2;
        let nh = h / 2;
        let ghost data = self.data@;
        let mut next: Vec<u8> = Vec::new();
        let mut y: u32 = 0;
        while y < nh
            invariant
                w == self.width,
                h == self.height,
                data == self.data@,
                nw == w / 2,
                nh == h / 2,
                halvable(w as nat, h as nat),
                mip_ready(w as nat, h as nat, data),
                y <= nh,
                next@.len() == y * nw,
                forall|j: int|
                    0 <= j < next@.len() ==> #[trigger] next@[j] == averaged_pixel(
                        data,
                        w as nat,
                        (j % nw as int) as nat,
                        (j / nw as int) as nat,
                    ),
            decreases nh - y,
        {
            let mut x: u32 = 0;
            while x < nw
                invariant
                    w == self.width,
                    h == self.height,
                    data == self.data@,
                    nw == w / 2,
                    nh == h / 2,
                    halvable(w as nat, h as nat),
                    mip_ready(w as nat, h as nat, data),
                    y < nh,
                    x <= nw,
                    next@.len() == y * nw + x,
                    forall|j: int|
                        0 <= j < next@.len() ==> #[trigger] next@[j] == averaged_pixel(
                            data,
                            w as nat,
                            (j % nw as int) as nat,
                            (j / nw as int) as nat,
                        ),
                decreases nw - x,
            {
                proof {
                    lemma_corner_offsets(w as int, h as int, x as int, y as int);
                }
                let row_top = 2 * y;
                let row_bot = 2 * y + 1;
                let col_left = 2 * x;
                let col_right = 2 * x + 1;
                let i_tl = (row_top * w + col_left) as usize;
                let i_tr = (row_top * w + col_right) as usize;
                let i_bl = (row_bot * w + col_left) as usize;
                let i_br = (row_bot * w + col_right) as usize;
                let sum = self.data[i_tl] as u16 + self.data[i_tr] as u16 + self.data[i_bl] as u16
                    + self.data[i_br] as u16;
                // the mean, rounded to the nearest integer rather than down
                let avg = (sum + 2) / 4;
                let ghost i = next@.len() as int;
                proof {
                    lemma_fundamental_div_mod_converse(i, nw as int, y as int, x as int);
                }
                next.push(avg as u8);
                x = x + 1;
            }
            assert(y * nw + nw == (y + 1) * nw) by (nonlinear_arith);
            y = y + 1;
        }
        proof {
            lemma_half_area(w as int, h as int);
            assert(nh * nw == nw * nh) by (nonlinear_arith);
        }
        assert(next@ =~= downsampled(data, w as nat, h as nat));
        Rectangle::new(nw, nh, next)
    }

    /// The mipmap chain of this texture: the texture itself, then each level
    /// halved from the one before, down to the first level whose sides are
    /// not both even and larger than one.
    #[verifier::loop_isolation(false)]
    pub fn generate_mipmaps(self) -> (res: Vec<Rectangle<u8>>)
        requires
            mip_ready(self.width as nat, self.height as nat, self.data@),
        ensures
            levels_view(res@) == mip_chain(self.width as nat, self.height as nat, self.data@),
            res@.len() == mip_levels(self.width as nat, self.height as nat),
    {
        let ghost w0 = self.width as nat;
        let ghost h0 = self.height as nat;
        let ghost d0 = self.data@;
        let ghost chain = mip_chain(w0, h0, d0);
        let mut acc: Vec<Rectangle<u8>> = Vec::new();
        let mut cur = self;
        loop
            invariant
                chain == mip_chain(w0, h0, d0),
                mip_ready(cur.width as nat, cur.height as nat, cur.data@),
                levels_view(acc@) + mip_chain(cur.width as nat, cur.height as nat, cur.data@) == chain,
            decreases cur.width,
        {
            if cur.width <= 1 || cur.height <= 1 || cur.width % 2 != 0 || cur.height % 2 != 0 {
                let ghost before = acc@;
                let ghost level = (cur.width as nat, cur.height as nat, cur.data@);
                acc.push(cur);
                assert(levels_view(acc@) =~= levels_view(before).push(level));
                assert(levels_view(acc@) =~= levels_view(before) + seq![level]);
                proof {
                    lemma_chain_length(w0, h0, d0);
                }
                return acc;
            }
            let next = cur.downsample();
            proof {
                lemma_half_area(cur.width as int, cur.height as int);
            }
            let ghost before = acc@;
            let ghost level = (cur.width as nat, cur.height as nat, cur.data@);
            acc.push(cur);
            assert(levels_view(acc@) =~= levels_view(before).push(level));
            assert(levels_view(acc@) + mip_chain(next.width as nat, next.height as nat, next.data@)
                =~= levels_view(before) + (seq![level] + mip_chain(next.width as nat, next.height as nat, next.data@)));
            cur = next;
        }
    }
}

/// A cube map: six square faces of the same size.
#[derive(Clone)]
pub struct Cubemap<T> {
    pub texture_size: u32,
    pub texture_data: [Rectangle<T>; 6],
    pub changed: bool,
}

impl<T> Default for Cubemap<T> {
    /// A cube map of six empty faces, size zero and unchanged.
    fn default() -> (r: Self)
        ensures
            r.texture_size == 0,
            !r.changed,
            forall|i: int|
                0 <= i < 6 ==> (#[trigger] r.texture_data@[i]).width == 0 && r.texture_data@[i].height == 0
                    && r.texture_data@[i].data@.len() == 0,
    {
        Cubemap {
            texture_size: 0,
            texture_data: [
                Rectangle::<T>::empty(),
                Rectangle::<T>::empty(),
                Rectangle::<T>::empty(),
                Rectangle::<T>::empty(),
                Rectangle::<T>::empty(),
                Rectangle::<T>::empty(),
            ],
            changed: false,
        }
    }
}

/// The textures waiting to be uploaded to the graphics card.
pub struct Textures {
    pub clouds_texture_to_upload: Option<Cubemap<u8>>,
}

impl Default for Textures {
    /// Nothing waits to be uploaded.
    fn default() -> (r: Self)
        ensures
            r.clouds_texture_to_upload is None,
    {
        Textures { clouds_texture_to_upload: None }
    }
}

/// The chain that `generate_mipmaps` gives has exactly as many levels as
/// `mip_map_count` reports, and starts with the texture itself.
pub proof fn lemma_mipmaps_match_count(w: nat, h: nat, data: Seq<u8>)
    ensures
        mip_chain(w, h, data).len() == mip_levels(w, h),
        mip_chain(w, h, data)[0] == (w, h, data),
{
    lemma_chain_length(w, h, data);
}

/// Each pixel of a halved level is the mean of the four pixels it covers
/// rounded to the nearest integer, a mean halfway between two integers
/// going up: four times the pixel is within two below and one above their
/// sum.
pub proof fn lemma_pixel_rounds_to_nearest(data: Seq<u8>, w: nat, x: nat, y: nat)
    requires
        (2 * y + 1) * w + 2 * x + 1 < data.len(),
    ensures
        ({
            let top = (2 * y * w + 2 * x) as int;
            let bottom = ((2 * y + 1) * w + 2 * x) as int;
            let sum = data[top] + data[top + 1] + data[bottom] + data[bottom + 1];
            let v = averaged_pixel(data, w, x, y);
            4 * v <= sum + 2 && sum <= 4 * v + 1
        }),
{
}

/// The shape of the mipmap chain: it starts with the texture itself; each
/// level but the last has even sides of at least 2, and the next level has
/// half its width and height and one pixel for each place; the last level
/// cannot be halved.
pub proof fn lemma_mip_chain_levels(w: nat, h: nat, data: Seq<u8>)
    ensures
        mip_chain(w, h, data).len() >= 1,
        mip_chain(w, h, data)[0] == (w, h, data),
        forall|i: int| 0 <= i < mip_chain(w, h, data).len() - 1 ==> {
            &&& halvable((#[trigger] mip_chain(w, h, data)[i]).0, mip_chain(w, h, data)[i].1)
            &&& mip_chain(w, h, data)[i + 1].0 == mip_chain(w, h, data)[i].0 / 2
            &&& mip_chain(w, h, data)[i + 1].1 == mip_chain(w, h, data)[i].1 / 2
            &&& mip_chain(w, h, data)[i + 1].2.len() == mip_chain(w, h, data)[i + 1].0 * mip_chain(w, h, data)[i + 1].1
        },
        !halvable(mip_chain(w, h, data).last().0, mip_chain(w, h, data).last().1),
    decreases w,
{
    let c = mip_chain(w, h, data);
    if halvable(w, h) {
        let d = downsampled(data, w, h);
        lemma_mip_chain_levels(w / 2, h / 2, d);
        let r = mip_chain(w / 2, h / 2, d);
        assert(c == seq![(w, h, data)] + r);
        assert forall|i: int| 0 <= i < c.len() - 1 implies {
            &&& halvable((#[trigger] c[i]).0, c[i].1)
            &&& c[i + 1].0 == c[i].0 / 2
            &&& c[i + 1].1 == c[i].1 / 2
            &&& c[i + 1].2.len() == c[i + 1].0 * c[i + 1].1
        } by {
            if i == 0 {
                assert(c[1] == r[0]);
                assert(d.len() == (w / 2) * (h / 2));
            } else {
                assert(c[i] == r[i - 1]);
                assert(c[i + 1] == r[i]);
            }
        }
        assert(c.last() == r.last());
    }
}

} // verus!
