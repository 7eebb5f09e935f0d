//! Depth-tested drawing: a z-buffer keyed by pixel, and the rule by which a
//! fragment reaches the image.
use crate::image_buffer::Color;
use crate::img::{Img, ImgView};
use std::collections::HashMap;
use vstd::arithmetic::power2::{lemma2_to64, lemma_pow2_pos, lemma_pow2_unfold, pow2};
use vstd::prelude::*;

verus! {

broadcast use vstd::std_specs::hash::group_hash_axioms;

/// The depth of a fragment, standing for a floating-point `z` (a larger `z`
/// is nearer the eye). `Ordered(k)` stands for a number, `k` growing with
/// `z`; `Unordered` stands for NaN, which is nearer than nothing and than
/// which nothing is nearer.
#[derive(Clone, Copy, Debug, PartialEq, Eq, Structural)]
pub enum Depth {
    Unordered,
    Ordered(i64),
}

/// `b` is strictly nearer the eye than `a` (`a < b` on the `z` values).
pub open spec fn nearer(a: Depth, b: Depth) -> bool {
    match (a, b) {
        (Depth::Ordered(x), Depth::Ordered(y)) => x < y,
        _ => false,
    }
}

/// Whether depth `b` is strictly nearer the eye than depth `a`.
pub fn is_nearer(a: Depth, b: Depth) -> (r: bool)
    ensures
        r == nearer(a, b),
{
    match (a, b) {
        (Depth::Ordered(x), Depth::Ordered(y)) => x < y,
        _ => false,
    }
}

/// The depth that stands for the `f32` whose IEEE-754 bit pattern is
/// `bits`: NaN patterns are `Unordered`; any other gets its magnitude (the
/// bits below the sign) as key, negated when the sign bit is set, so that
/// keys grow with the number and both zeros get key 0.
pub open spec fn depth_of_bits_spec(bits: u32) -> Depth {
    let negative = bits >= 0x8000_0000;
    let magnitude = if negative { bits - 0x8000_0000 } else { bits as int };
    if magnitude > 0x7f80_0000 {
        Depth::Unordered
    } else if negative {
        Depth::Ordered(-magnitude as i64)
    } else {
        Depth::Ordered(magnitude as i64)
    }
}

/// The depth that stands for the `f32` with bit pattern `bits`.
pub fn depth_of_bits(bits: u32) -> (d: Depth)
    ensures
        d == depth_of_bits_spec(bits),
{
    let negative = bits >= 0x8000_0000;
    let magnitude: u32 = if negative { bits - 0x8000_0000 } else { bits };
    if magnitude > 0x7f80_0000 {
        Depth::Unordered
    } else if negative {
        Depth::Ordered(-(magnitude as i64))
    } else {
        Depth::Ordered(magnitude as i64)
    }
}

/// One candidate pixel of a primitive: where it falls, how deep it is, the
/// colour it carries, and whether its shader discarded the colour.
#[derive(Clone, Copy, Debug)]
pub struct Fragment {
    pub x: i32,
    pub y: i32,
    pub depth: Depth,
    pub color: Color,
    pub discard: bool,
}

/// The hash key of pixel `(x, y)`: distinct pixels get distinct keys.
pub open spec fn pixel_key(x: i32, y: i32) -> int {
    x * 0x1_0000_0000 + (y + 0x8000_0000)
}

proof fn lemma_pixel_key_injective(a: (i32, i32), b: (i32, i32))
    ensures
        pixel_key(a.0, a.1) == pixel_key(b.0, b.1) ==> a == b,
{
}

fn pixel_key_of(x: i32, y: i32) -> (k: i64)
    ensures
        k == pixel_key(x, y),
{
    (x as i64) * 0x1_0000_0000 + (y as i64 + 0x8000_0000)
}

/// The nearest depth drawn so far at each pixel.
pub struct ZBuffer {
    depths: HashMap<i64, Depth>,
}

impl View for ZBuffer {
    type V = Map<(i32, i32), Depth>;

    closed spec fn view(&self) -> Map<(i32, i32), Depth> {
        Map::new(
            |p: (i32, i32)| self.depths@.contains_key(pixel_key(p.0, p.1) as i64),
            |p: (i32, i32)| self.depths@[pixel_key(p.0, p.1) as i64],
        )
    }
}

impl ZBuffer {
    /// A z-buffer with no depth at any pixel.
    pub fn new() -> (zb: ZBuffer)
        ensures
            zb@ == Map::<(i32, i32), Depth>::empty(),
    {
        let zb = ZBuffer { depths: HashMap::new() };
        assert(zb@ =~= Map::<(i32, i32), Depth>::empty());
        zb
    }

    /// The depth stored at `(x, y)`, if any.
    pub fn get(&self, x: i32, y: i32) -> (d: Option<Depth>)
        ensures
            d == (if self@.contains_key((x, y)) { Some(self@[(x, y)]) } else { None }),
    {
        let k = pixel_key_of(x, y);
        match self.depths.get(&k) {
            Some(d) => Some(*d),
            None => None,
        }
    }

    /// Whether a fragment of depth `depth` at `(x, y)` would pass the depth
    /// test.
    pub fn passes(&self, x: i32, y: i32, depth: Depth) -> (r: bool)
        ensures
            r == passes_depth_test(self@, x, y, depth),
    {
        match self.get(x, y) {
            None => true,
            Some(d) => is_nearer(d, depth),
        }
    }

    /// Stores `depth` at `(x, y)`.
    fn put(&mut self, x: i32, y: i32, depth: Depth)
        ensures
            final(self)@ == old(self)@.insert((x, y), depth),
    {
        let k = pixel_key_of(x, y);
        self.depths.insert(k, depth);
        proof {
            assert forall|p: (i32, i32)| #![trigger final(self)@.contains_key(p)] true implies
                (final(self)@.contains_key(p) == old(self)@.insert((x, y), depth).contains_key(p)) by {
                lemma_pixel_key_injective(p, (x, y));
            }
            assert forall|p: (i32, i32)| final(self)@.contains_key(p) implies
                #[trigger] final(self)@[p] == old(self)@.insert((x, y), depth)[p] by {
                lemma_pixel_key_injective(p, (x, y));
            }
            assert(final(self)@ =~= old(self)@.insert((x, y), depth));
        }
    }
}

/// A fragment of depth `depth` at `(x, y)` passes the depth test against
/// `zb`: nothing is stored there yet, or it is nearer than what is.
pub open spec fn passes_depth_test(zb: Map<(i32, i32), Depth>, x: i32, y: i32, depth: Depth) -> bool {
    !zb.contains_key((x, y)) || nearer(zb[(x, y)], depth)
}

/// The image and z-buffer after fragment `f` meets the depth test: it passes
/// when nothing was drawn at its pixel yet or it is nearer than what was;
/// passing stores its depth and, unless discarded, writes its colour.
pub open spec fn draw_spec(
    state: (ImgView, Map<(i32, i32), Depth>),
    f: Fragment,
) -> (ImgView, Map<(i32, i32), Depth>) {
    let (img, zb) = state;
    let p = (f.x, f.y);
    if passes_depth_test(zb, f.x, f.y, f.depth) {
        (
            if f.discard { img } else { img.set(f.x as u32, f.y as u32, f.color) },
            zb.insert(p, f.depth),
        )
    } else {
        state
    }
}

/// The image and z-buffer after the fragments meet the depth test in order.
pub open spec fn draw_all_spec(
    state: (ImgView, Map<(i32, i32), Depth>),
    frags: Seq<Fragment>,
) -> (ImgView, Map<(i32, i32), Depth>)
    decreases frags.len(),
{
    if frags.len() == 0 {
        state
    } else {
        draw_spec(draw_all_spec(state, frags.drop_last()), frags.last())
    }
}

/// Puts fragment `f` through the depth test against `zbuffer` and draws it on
/// `img` if it passes.
pub fn draw_fragment(img: &mut Img, zbuffer: &mut ZBuffer, f: &Fragment)
    ensures
        (final(img)@, final(zbuffer)@) == draw_spec((old(img)@, old(zbuffer)@), *f),
{
    let passes = match zbuffer.get(f.x, f.y) {
        None => true,
        Some(d) => is_nearer(d, f.depth),
    };
    if passes {
        zbuffer.put(f.x, f.y, f.depth);
        if !f.discard {
            img.set(f.x as u32, f.y as u32, f.color);
        }
    }
}

/// Draws the fragments of one primitive, in order, through the depth test.
pub fn triangle(fragments: &Vec<Fragment>, img: &mut Img, zbuffer: &mut ZBuffer)
    ensures
        (final(img)@, final(zbuffer)@) == draw_all_spec((old(img)@, old(zbuffer)@), fragments@),
{
    let n = fragments.len();
    for i in 0..n
        invariant
            n == fragments@.len(),
            (img@, zbuffer@) == draw_all_spec((old(img)@, old(zbuffer)@), fragments@.take(i as int)),
    {
        draw_fragment(img, zbuffer, &fragments[i]);
        assert(fragments@.take(i + 1).drop_last() =~= fragments@.take(i as int));
    }
    assert(fragments@.take(n as int) =~= fragments@);
}

/// Fragment `f` falls on pixel `(x, y)`.
pub open spec fn lands_on(f: Fragment, x: i32, y: i32) -> bool {
    f.x == x && f.y == y
}

proof fn lemma_cast_injective(a: i32, b: i32)
    ensures
        a as u32 == b as u32 ==> a == b,
{
    assert(a as u32 == b as u32 ==> a == b) by (bit_vector);
}

/// Drawing fragments keeps the size of the image and its well-formedness.
pub proof fn lemma_draw_all_keeps_size(img: ImgView, zb: Map<(i32, i32), Depth>, frags: Seq<Fragment>)
    requires
        img.well_formed(),
    ensures
        draw_all_spec((img, zb), frags).0.width == img.width,
        draw_all_spec((img, zb), frags).0.height == img.height,
        draw_all_spec((img, zb), frags).0.well_formed(),
    decreases frags.len(),
{
    if frags.len() > 0 {
        lemma_draw_all_keeps_size(img, zb, frags.drop_last());
        let (img1, zb1) = draw_all_spec((img, zb), frags.drop_last());
        let f = frags.last();
        if img1.in_bounds(f.x as u32, f.y as u32) {
            assert(img1.set(f.x as u32, f.y as u32, f.color).pixels.dom() =~= img1.pixels.dom());
        }
    }
}

/// Fragments that fall elsewhere leave the depth and the colour of pixel
/// `(x, y)` as they were.
pub proof fn lemma_draw_all_elsewhere(
    img: ImgView,
    zb: Map<(i32, i32), Depth>,
    frags: Seq<Fragment>,
    x: i32,
    y: i32,
)
    requires
        forall|i: int| 0 <= i < frags.len() ==> !lands_on(#[trigger] frags[i], x, y),
    ensures
        draw_all_spec((img, zb), frags).1.contains_key((x, y)) == zb.contains_key((x, y)),
        draw_all_spec((img, zb), frags).1[(x, y)] == zb[(x, y)],
        draw_all_spec((img, zb), frags).0.pixels.contains_key((x as u32, y as u32)) == img.pixels.contains_key(
            (x as u32, y as u32),
        ),
        draw_all_spec((img, zb), frags).0.pixels[(x as u32, y as u32)] == img.pixels[(x as u32, y as u32)],
    decreases frags.len(),
{
    if frags.len() > 0 {
        let s = frags.drop_last();
        assert forall|i: int| 0 <= i < s.len() implies !lands_on(#[trigger] s[i], x, y) by {
            assert(s[i] == frags[i]);
        }
        lemma_draw_all_elsewhere(img, zb, s, x, y);
        let f = frags.last();
        assert(!lands_on(frags[frags.len() - 1], x, y));
        lemma_cast_injective(f.x, x);
        lemma_cast_injective(f.y, y);
    }
}

/// The depth stored at a pixel only ever moves nearer: drawing keeps every
/// pixel that had a depth, with that depth or a nearer one.
pub proof fn lemma_depth_only_moves_nearer(
    img: ImgView,
    zb: Map<(i32, i32), Depth>,
    frags: Seq<Fragment>,
    p: (i32, i32),
)
    requires
        zb.contains_key(p),
    ensures
        draw_all_spec((img, zb), frags).1.contains_key(p),
        draw_all_spec((img, zb), frags).1[p] == zb[p] || nearer(zb[p], draw_all_spec((img, zb), frags).1[p]),
    decreases frags.len(),
{
    if frags.len() > 0 {
        lemma_depth_only_moves_nearer(img, zb, frags.drop_last(), p);
    }
}

/// The z-buffer keeps the nearest fragment. Among the fragments that fall on
/// pixel `(x, y)`, where none is NaN or discarded and nothing was drawn there
/// before, the one that stays is the first of the nearest: its depth is what
/// the z-buffer holds, no fragment there is nearer, every earlier one there
/// is farther, and, on the image, its colour is the pixel's.
pub proof fn lemma_nearest_fragment_wins(
    img: ImgView,
    zb: Map<(i32, i32), Depth>,
    frags: Seq<Fragment>,
    x: i32,
    y: i32,
)
    requires
        img.well_formed(),
        !zb.contains_key((x, y)),
        exists|i: int| 0 <= i < frags.len() && lands_on(#[trigger] frags[i], x, y),
        forall|i: int|
            0 <= i < frags.len() && lands_on(#[trigger] frags[i], x, y) ==> frags[i].depth is Ordered
                && !frags[i].discard,
    ensures
        exists|i: int|
            {
                &&& 0 <= i < frags.len()
                &&& lands_on(#[trigger] frags[i], x, y)
                &&& draw_all_spec((img, zb), frags).1.contains_key((x, y))
                &&& draw_all_spec((img, zb), frags).1[(x, y)] == frags[i].depth
                &&& forall|j: int|
                    0 <= j < frags.len() && lands_on(#[trigger] frags[j], x, y) ==> !nearer(
                        frags[i].depth,
                        frags[j].depth,
                    )
                &&& forall|j: int|
                    0 <= j < i && lands_on(#[trigger] frags[j], x, y) ==> nearer(frags[j].depth, frags[i].depth)
                &&& img.in_bounds(x as u32, y as u32) ==> draw_all_spec((img, zb), frags).0.pixels[(
                    x as u32,
                    y as u32,
                )] == frags[i].color
            },
    decreases frags.len(),
{
    let n = frags.len();
    let s = frags.drop_last();
    let f = frags.last();
    let (img1, zb1) = draw_all_spec((img, zb), s);
    lemma_draw_all_keeps_size(img, zb, s);
    assert(forall|j: int| 0 <= j < s.len() ==> #[trigger] s[j] == frags[j]);
    if exists|i: int| 0 <= i < s.len() && lands_on(#[trigger] s[i], x, y) {
        lemma_nearest_fragment_wins(img, zb, s, x, y);
        let i = choose|i: int|
            {
                &&& 0 <= i < s.len()
                &&& lands_on(#[trigger] s[i], x, y)
                &&& zb1.contains_key((x, y))
                &&& zb1[(x, y)] == s[i].depth
                &&& forall|j: int|
                    0 <= j < s.len() && lands_on(#[trigger] s[j], x, y) ==> !nearer(s[i].depth, s[j].depth)
                &&& forall|j: int| 0 <= j < i && lands_on(#[trigger] s[j], x, y) ==> nearer(s[j].depth, s[i].depth)
                &&& img.in_bounds(x as u32, y as u32) ==> img1.pixels[(x as u32, y as u32)] == s[i].color
            };
        if lands_on(f, x, y) {
            assert(lands_on(frags[n - 1], x, y));
            if nearer(zb1[(x, y)], f.depth) {
                let k = n - 1;
                assert forall|j: int| 0 <= j < n && lands_on(#[trigger] frags[j], x, y) implies !nearer(
                    frags[k].depth,
                    frags[j].depth,
                ) by {
                    if j < n - 1 {
                        assert(lands_on(s[j], x, y));
                    }
                }
                assert forall|j: int| 0 <= j < k && lands_on(#[trigger] frags[j], x, y) implies nearer(
                    frags[j].depth,
                    frags[k].depth,
                ) by {
                    assert(lands_on(s[j], x, y));
                    assert(frags[j].depth is Ordered);
                }
                assert(frags[k] == f);
            } else {
                assert forall|j: int| 0 <= j < n && lands_on(#[trigger] frags[j], x, y) implies !nearer(
                    frags[i].depth,
                    frags[j].depth,
                ) by {
                    if j < n - 1 {
                        assert(lands_on(s[j], x, y));
                    }
                }
                assert forall|j: int| 0 <= j < i && lands_on(#[trigger] frags[j], x, y) implies nearer(
                    frags[j].depth,
                    frags[i].depth,
                ) by {
                    assert(lands_on(s[j], x, y));
                }
                assert(frags[i] == s[i]);
            }
        } else {
            lemma_cast_injective(f.x, x);
            lemma_cast_injective(f.y, y);
            assert forall|j: int| 0 <= j < n && lands_on(#[trigger] frags[j], x, y) implies !nearer(
                frags[i].depth,
                frags[j].depth,
            ) by {
                if j < n - 1 {
                    assert(lands_on(s[j], x, y));
                }
            }
            assert forall|j: int| 0 <= j < i && lands_on(#[trigger] frags[j], x, y) implies nearer(
                frags[j].depth,
                frags[i].depth,
            ) by {
                assert(lands_on(s[j], x, y));
            }
            assert(frags[i] == s[i]);
        }
    } else {
        assert forall|i: int| 0 <= i < s.len() implies !lands_on(#[trigger] s[i], x, y) by {}
        lemma_draw_all_elsewhere(img, zb, s, x, y);
        let w = choose|i: int| 0 <= i < frags.len() && lands_on(#[trigger] frags[i], x, y);
        if w < n - 1 {
            assert(lands_on(s[w], x, y));
        }
        assert(lands_on(frags[n - 1], x, y));
        let k = n - 1;
        assert forall|j: int| 0 <= j < n && lands_on(#[trigger] frags[j], x, y) implies !nearer(
            frags[k].depth,
            frags[j].depth,
        ) by {
            if j < n - 1 {
                assert(lands_on(s[j], x, y));
            }
        }
        assert forall|j: int| 0 <= j < k && lands_on(#[trigger] frags[j], x, y) implies nearer(
            frags[j].depth,
            frags[k].depth,
        ) by {
            assert(lands_on(s[j], x, y));
        }
        assert(frags[k] == f);
    }
}

/// The z-buffer `zb` already holds, at the pixel of `f`, a depth that `f` is
/// not nearer than.
pub open spec fn settled(zb: Map<(i32, i32), Depth>, f: Fragment) -> bool {
    zb.contains_key((f.x, f.y)) && !nearer(zb[(f.x, f.y)], f.depth)
}

/// After drawing fragments, each of them is settled: none of them would pass
/// the depth test again, whatever colour it carries, so a second pass over
/// the same pixels and depths asks no shader for a colour.
pub proof fn lemma_drawn_fragments_settle(state: (ImgView, Map<(i32, i32), Depth>), frags: Seq<Fragment>)
    ensures
        forall|i: int| 0 <= i < frags.len() ==> settled(draw_all_spec(state, frags).1, #[trigger] frags[i]),
        forall|i: int|
            0 <= i < frags.len() ==> !passes_depth_test(
                draw_all_spec(state, frags).1,
                frags[i].x,
                frags[i].y,
                #[trigger] frags[i].depth,
            ),
    decreases frags.len(),
{
    if frags.len() > 0 {
        let s = frags.drop_last();
        lemma_drawn_fragments_settle(state, s);
        let zb1 = draw_all_spec(state, s).1;
        let zb2 = draw_all_spec(state, frags).1;
        let f = frags.last();
        assert forall|i: int| 0 <= i < frags.len() implies settled(zb2, #[trigger] frags[i]) by {
            if i < frags.len() - 1 {
                assert(frags[i] == s[i]);
                assert(settled(zb1, s[i]));
            }
        }
    }
}

/// Drawing fragments that are all settled changes nothing.
pub proof fn lemma_settled_fragments_change_nothing(
    state: (ImgView, Map<(i32, i32), Depth>),
    frags: Seq<Fragment>,
)
    requires
        forall|i: int| 0 <= i < frags.len() ==> settled(state.1, #[trigger] frags[i]),
    ensures
        draw_all_spec(state, frags) == state,
    decreases frags.len(),
{
    if frags.len() > 0 {
        let s = frags.drop_last();
        assert forall|i: int| 0 <= i < s.len() implies settled(state.1, #[trigger] s[i]) by {
            assert(s[i] == frags[i]);
        }
        lemma_settled_fragments_change_nothing(state, s);
        assert(settled(state.1, frags[frags.len() - 1]));
    }
}

/// Drawing the same primitive twice in a row: the second time changes
/// neither the image nor the z-buffer.
pub proof fn lemma_draw_twice_same(state: (ImgView, Map<(i32, i32), Depth>), frags: Seq<Fragment>)
    ensures
        draw_all_spec(draw_all_spec(state, frags), frags) == draw_all_spec(state, frags),
{
    lemma_drawn_fragments_settle(state, frags);
    lemma_settled_fragments_change_nothing(draw_all_spec(state, frags), frags);
}

/// Fragments `f` and `g` may be drawn in either order: they fall on
/// different pixels, or on one pixel with depths that are different numbers
/// and neither is discarded.
pub open spec fn order_free(f: Fragment, g: Fragment) -> bool {
    ||| (f.x, f.y) != (g.x, g.y)
    ||| (f.depth is Ordered && g.depth is Ordered && f.depth != g.depth && !f.discard && !g.discard)
}

proof fn lemma_set_twice(img: ImgView, x: u32, y: u32, c1: Color, c2: Color)
    ensures
        img.set(x, y, c1).set(x, y, c2) == img.set(x, y, c2),
{
    if img.in_bounds(x, y) {
        assert(img.set(x, y, c1).set(x, y, c2).pixels =~= img.set(x, y, c2).pixels);
    }
}

proof fn lemma_set_commutes(img: ImgView, x1: u32, y1: u32, c1: Color, x2: u32, y2: u32, c2: Color)
    requires
        (x1, y1) != (x2, y2),
    ensures
        img.set(x1, y1, c1).set(x2, y2, c2) == img.set(x2, y2, c2).set(x1, y1, c1),
{
    assert(img.set(x1, y1, c1).set(x2, y2, c2).pixels =~= img.set(x2, y2, c2).set(x1, y1, c1).pixels);
}

proof fn lemma_draw_pair_commutes(state: (ImgView, Map<(i32, i32), Depth>), f: Fragment, g: Fragment)
    requires
        order_free(f, g),
    ensures
        draw_spec(draw_spec(state, f), g) == draw_spec(draw_spec(state, g), f),
{
    let (img, zb) = state;
    let pf = (f.x, f.y);
    let pg = (g.x, g.y);
    if pf != pg {
        lemma_cast_injective(f.x, g.x);
        lemma_cast_injective(f.y, g.y);
        lemma_set_commutes(img, f.x as u32, f.y as u32, f.color, g.x as u32, g.y as u32, g.color);
        assert(zb.insert(pf, f.depth).insert(pg, g.depth) =~= zb.insert(pg, g.depth).insert(pf, f.depth));
    } else {
        lemma_set_twice(img, f.x as u32, f.y as u32, f.color, g.color);
        lemma_set_twice(img, f.x as u32, f.y as u32, g.color, f.color);
        assert(zb.insert(pf, f.depth).insert(pf, g.depth) =~= zb.insert(pf, g.depth));
        assert(zb.insert(pf, g.depth).insert(pf, f.depth) =~= zb.insert(pf, f.depth));
    }
}

proof fn lemma_draw_past_sequence(state: (ImgView, Map<(i32, i32), Depth>), frags: Seq<Fragment>, f: Fragment)
    requires
        forall|i: int| 0 <= i < frags.len() ==> order_free(#[trigger] frags[i], f),
    ensures
        draw_spec(draw_all_spec(state, frags), f) == draw_all_spec(draw_spec(state, f), frags),
    decreases frags.len(),
{
    if frags.len() > 0 {
        let s = frags.drop_last();
        assert forall|i: int| 0 <= i < s.len() implies order_free(#[trigger] s[i], f) by {
            assert(s[i] == frags[i]);
        }
        lemma_draw_past_sequence(state, s, f);
        assert(order_free(frags[frags.len() - 1], f));
        lemma_draw_pair_commutes(draw_all_spec(state, s), frags.last(), f);
    }
}

/// Two primitives give the same image and z-buffer drawn in either order,
/// where each fragment of one and each fragment of the other may be drawn in
/// either order ([`order_free`]): at the pixels they share, their depths are
/// different numbers and nothing is discarded.
pub proof fn lemma_draw_order_free(
    state: (ImgView, Map<(i32, i32), Depth>),
    a: Seq<Fragment>,
    b: Seq<Fragment>,
)
    requires
        forall|i: int, j: int| 0 <= i < a.len() && 0 <= j < b.len() ==> order_free(#[trigger] a[i], #[trigger] b[j]),
    ensures
        draw_all_spec(draw_all_spec(state, a), b) == draw_all_spec(draw_all_spec(state, b), a),
    decreases a.len(),
{
    if a.len() > 0 {
        let s = a.drop_last();
        let f = a.last();
        assert forall|i: int, j: int| 0 <= i < s.len() && 0 <= j < b.len() implies order_free(
            #[trigger] s[i],
            #[trigger] b[j],
        ) by {
            assert(s[i] == a[i]);
        }
        lemma_draw_order_free(state, s, b);
        assert forall|j: int| 0 <= j < b.len() implies order_free(#[trigger] b[j], f) by {
            assert(order_free(a[a.len() - 1], b[j]));
        }
        lemma_draw_past_sequence(draw_all_spec(state, s), b, f);
    }
}

/// The magnitude of an `f32` bit pattern: the bits below the sign.
pub open spec fn f32_magnitude(bits: u32) -> int {
    if bits >= 0x8000_0000 {
        bits - 0x8000_0000
    } else {
        bits as int
    }
}

/// The bit pattern is that of a finite `f32` (not an infinity, not NaN).
pub open spec fn f32_is_finite(bits: u32) -> bool {
    f32_magnitude(bits) < 0x7f80_0000
}

/// The absolute value, times 2^149, of the finite `f32` whose magnitude bits
/// are `m`: the 23-bit fraction alone for a subnormal (exponent field 0);
/// otherwise the fraction with its implicit leading 1, times 2 to the
/// exponent field minus 1. (IEEE-754: `(1 + f / 2^23) * 2^(e - 127)`.)
pub open spec fn scaled_magnitude(m: int) -> int {
    let e = m / 0x80_0000;
    let f = m % 0x80_0000;
    if e == 0 {
        f
    } else {
        (0x80_0000 + f) * pow2((e - 1) as nat)
    }
}

/// The value of the finite `f32` with bit pattern `bits`, times 2^149 (an
/// integer): negative when the sign bit is set.
pub open spec fn f32_scaled_value(bits: u32) -> int {
    if bits >= 0x8000_0000 {
        -scaled_magnitude(f32_magnitude(bits))
    } else {
        scaled_magnitude(f32_magnitude(bits))
    }
}

proof fn lemma_scaled_magnitude_step(m: int)
    requires
        0 <= m,
        m + 1 < 0x7f80_0000,
    ensures
        0 <= scaled_magnitude(m) < scaled_magnitude(m + 1),
{
    let k: int = 0x80_0000;
    let e = m / k;
    let f = m % k;
    assert(m == e * k + f && 0 <= f < k);
    lemma2_to64();
    if f + 1 < k {
        assert((m + 1) / k == e && (m + 1) % k == f + 1);
        if e > 0 {
            let p = pow2((e - 1) as nat);
            lemma_pow2_pos((e - 1) as nat);
            assert((k + f) * p < (k + f + 1) * p) by (nonlinear_arith)
                requires
                    p > 0,
            ;
            assert(0 <= (k + f) * p) by (nonlinear_arith)
                requires
                    p > 0,
                    f >= 0,
                    k == 0x80_0000,
            ;
        }
    } else {
        assert((m + 1) / k == e + 1 && (m + 1) % k == 0);
        if e == 0 {
            assert(pow2(0) == 1);
        } else {
            lemma_pow2_unfold(e as nat);
            let p = pow2((e - 1) as nat);
            lemma_pow2_pos((e - 1) as nat);
            assert(pow2(e as nat) == 2 * p);
            assert((k + f) * p < k * (2 * p)) by (nonlinear_arith)
                requires
                    p > 0,
                    f == k - 1,
            ;
            assert(0 <= (k + f) * p) by (nonlinear_arith)
                requires
                    p > 0,
                    f >= 0,
                    k == 0x80_0000,
            ;
        }
    }
}

proof fn lemma_scaled_magnitude_increases(m1: int, m2: int)
    requires
        0 <= m1 < m2 < 0x7f80_0000,
    ensures
        0 <= scaled_magnitude(m1) < scaled_magnitude(m2),
    decreases m2 - m1,
{
    lemma_scaled_magnitude_step(m2 - 1);
    if m1 < m2 - 1 {
        lemma_scaled_magnitude_increases(m1, m2 - 1);
    }
}

proof fn lemma_scaled_magnitude_zero_only_at_zero(m: int)
    requires
        0 <= m < 0x7f80_0000,
    ensures
        scaled_magnitude(m) >= 0,
        scaled_magnitude(m) == 0 <==> m == 0,
{
    assert(scaled_magnitude(0) == 0);
    if m > 0 {
        lemma_scaled_magnitude_increases(0, m);
    }
}

/// Depths follow the order of the numbers they stand for: of two finite
/// `f32` values, the depth of `b` is nearer than the depth of `a` exactly
/// when `a < b` (both zeros being equal).
pub proof fn lemma_depth_follows_float_order(a: u32, b: u32)
    requires
        f32_is_finite(a),
        f32_is_finite(b),
    ensures
        nearer(depth_of_bits_spec(a), depth_of_bits_spec(b)) <==> f32_scaled_value(a) < f32_scaled_value(b),
{
    let ma = f32_magnitude(a);
    let mb = f32_magnitude(b);
    lemma_scaled_magnitude_zero_only_at_zero(ma);
    lemma_scaled_magnitude_zero_only_at_zero(mb);
    if ma < mb {
        lemma_scaled_magnitude_increases(ma, mb);
    } else if mb < ma {
        lemma_scaled_magnitude_increases(mb, ma);
    }
}

/// The infinities are the extremes: `+inf` is nearer than every finite value
/// and every finite value is nearer than `-inf`; a NaN pattern is unordered.
pub proof fn lemma_depth_of_infinities_and_nan(a: u32)
    ensures
        f32_is_finite(a) ==> nearer(depth_of_bits_spec(a), depth_of_bits_spec(0x7f80_0000)),
        f32_is_finite(a) ==> nearer(depth_of_bits_spec(0xff80_0000), depth_of_bits_spec(a)),
        f32_magnitude(a) > 0x7f80_0000 ==> depth_of_bits_spec(a) == Depth::Unordered,
        f32_magnitude(a) > 0x7f80_0000 ==> !nearer(depth_of_bits_spec(a), depth_of_bits_spec(0x7f80_0000)),
{
}

/// A fragment that its shader discards never changes the image, whatever the
/// z-buffer held; only the z-buffer may change.
pub proof fn lemma_discarded_fragment_keeps_image(state: (ImgView, Map<(i32, i32), Depth>), f: Fragment)
    requires
        f.discard,
    ensures
        draw_spec(state, f).0 == state.0,
{
}

/// The depth test, spelt out: a fragment passes exactly when nothing is
/// stored at its pixel, or both depths are numbers and its own is the larger.
/// A passing fragment stores its depth there and, unless discarded, writes
/// its colour at its pixel; a failing one changes nothing.
pub proof fn lemma_depth_test_outcome(state: (ImgView, Map<(i32, i32), Depth>), f: Fragment)
    ensures
        passes_depth_test(state.1, f.x, f.y, f.depth) <==> (!state.1.contains_key((f.x, f.y)) || (
        state.1[(f.x, f.y)] matches Depth::Ordered(a) && f.depth matches Depth::Ordered(b) && a < b)),
        passes_depth_test(state.1, f.x, f.y, f.depth) ==> draw_spec(state, f).1 == state.1.insert(
            (f.x, f.y),
            f.depth,
        ),
        passes_depth_test(state.1, f.x, f.y, f.depth) && !f.discard ==> draw_spec(state, f).0 == state.0.set(
            f.x as u32,
            f.y as u32,
            f.color,
        ),
        !passes_depth_test(state.1, f.x, f.y, f.depth) ==> draw_spec(state, f) == state,
{
}

} // verus!
