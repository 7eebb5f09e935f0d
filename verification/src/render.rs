//! The rendering pass: a black canvas, every primitive drawn through one
//! shared z-buffer, and the result turned upside down so that row 0 is the
//! top of the picture.
use crate::image_buffer::grid;
use crate::img::{blank_pixels, Img, ImgView};
use crate::our_gl::{
    draw_all_spec, lands_on, lemma_draw_all_keeps_size, lemma_nearest_fragment_wins, nearer, triangle, Depth,
    Fragment, ZBuffer,
};
use vstd::prelude::*;

verus! {

/// A black `width` x `height` canvas.
pub open spec fn blank_image(width: u32, height: u32) -> ImgView {
    ImgView { width, height, pixels: blank_pixels(width, height) }
}

/// The image and z-buffer after the primitives are drawn in order, each one's
/// fragments in order.
pub open spec fn draw_triangles_spec(
    state: (ImgView, Map<(i32, i32), Depth>),
    triangles: Seq<Seq<Fragment>>,
) -> (ImgView, Map<(i32, i32), Depth>)
    decreases triangles.len(),
{
    if triangles.len() == 0 {
        state
    } else {
        draw_all_spec(draw_triangles_spec(state, triangles.drop_last()), triangles.last())
    }
}

/// The fragments of the primitives, one primitive after another.
pub open spec fn all_fragments(triangles: Seq<Seq<Fragment>>) -> Seq<Fragment>
    decreases triangles.len(),
{
    if triangles.len() == 0 {
        Seq::empty()
    } else {
        all_fragments(triangles.drop_last()) + triangles.last()
    }
}

/// The fragments of each primitive, as sequences.
pub open spec fn fragment_lists(triangles: Seq<Vec<Fragment>>) -> Seq<Seq<Fragment>> {
    triangles.map_values(|t: Vec<Fragment>| t@)
}

/// The picture that the pass makes of the primitives on a `width` x `height`
/// canvas.
pub open spec fn rendered(width: u32, height: u32, triangles: Seq<Seq<Fragment>>) -> ImgView {
    draw_triangles_spec((blank_image(width, height), Map::empty()), triangles).0.flip_vertical()
}

/// Renders the primitives, each given by its fragments, on a black
/// `width` x `height` canvas through one z-buffer, then flips the canvas
/// vertically.
pub fn run_model_with_zbuffer_and_perspective(width: u32, height: u32, triangles: &Vec<Vec<Fragment>>) -> (img: Img)
    requires
        0 < width,
        0 < height,
        3 * width * height <= isize::MAX,
    ensures
        img@ == rendered(width, height, fragment_lists(triangles@)),
{
    let mut img = Img::new(width, height);
    let mut zbuffer = ZBuffer::new();
    let n = triangles.len();
    let ghost tris = fragment_lists(triangles@);
    assert(tris.take(0) =~= Seq::<Seq<Fragment>>::empty());
    for i in 0..n
        invariant
            n == triangles@.len(),
            tris == fragment_lists(triangles@),
            (img@, zbuffer@) == draw_triangles_spec((blank_image(width, height), Map::empty()), tris.take(i as int)),
    {
        assert(tris.take(i + 1).drop_last() =~= tris.take(i as int));
        assert(tris.take(i + 1).last() == triangles@[i as int]@);
        triangle(&triangles[i], &mut img, &mut zbuffer);
    }
    assert(tris.take(n as int) =~= tris);
    img.flip_vertical();
    img
}

/// Drawing `a` and then `b` is drawing `a + b`.
pub proof fn lemma_draw_all_append(state: (ImgView, Map<(i32, i32), Depth>), a: Seq<Fragment>, b: Seq<Fragment>)
    ensures
        draw_all_spec(state, a + b) == draw_all_spec(draw_all_spec(state, a), b),
    decreases b.len(),
{
    if b.len() == 0 {
        assert(a + b =~= a);
    } else {
        lemma_draw_all_append(state, a, b.drop_last());
        assert((a + b).drop_last() =~= a + b.drop_last());
        assert((a + b).last() == b.last());
    }
}

/// Drawing primitive after primitive through one z-buffer is drawing all
/// their fragments in one run.
pub proof fn lemma_triangles_are_fragments(state: (ImgView, Map<(i32, i32), Depth>), triangles: Seq<Seq<Fragment>>)
    ensures
        draw_triangles_spec(state, triangles) == draw_all_spec(state, all_fragments(triangles)),
    decreases triangles.len(),
{
    if triangles.len() > 0 {
        lemma_triangles_are_fragments(state, triangles.drop_last());
        lemma_draw_all_append(state, all_fragments(triangles.drop_last()), triangles.last());
    }
}

/// The rendered picture shows the nearest surface. Take a canvas pixel
/// `(x, y)` on which some fragment falls, none of them NaN or discarded:
/// row `height - 1 - y` of the picture, at column `x`, has the colour of the
/// first of the nearest fragments there, counting fragments primitive after
/// primitive.
pub proof fn lemma_rendered_shows_nearest(width: u32, height: u32, triangles: Seq<Seq<Fragment>>, x: i32, y: i32)
    requires
        0 <= x < width,
        0 <= y < height,
        exists|i: int|
            0 <= i < all_fragments(triangles).len() && lands_on(#[trigger] all_fragments(triangles)[i], x, y),
        forall|i: int|
            0 <= i < all_fragments(triangles).len() && lands_on(#[trigger] all_fragments(triangles)[i], x, y)
                ==> all_fragments(triangles)[i].depth is Ordered && !all_fragments(triangles)[i].discard,
    ensures
        exists|i: int|
            {
                &&& 0 <= i < all_fragments(triangles).len()
                &&& lands_on(#[trigger] all_fragments(triangles)[i], x, y)
                &&& forall|j: int|
                    0 <= j < all_fragments(triangles).len() && lands_on(#[trigger] all_fragments(triangles)[j], x, y)
                        ==> !nearer(all_fragments(triangles)[i].depth, all_fragments(triangles)[j].depth)
                &&& forall|j: int|
                    0 <= j < i && lands_on(#[trigger] all_fragments(triangles)[j], x, y) ==> nearer(
                        all_fragments(triangles)[j].depth,
                        all_fragments(triangles)[i].depth,
                    )
                &&& rendered(width, height, triangles).pixels[(x as u32, (height - 1 - y) as u32)]
                    == all_fragments(triangles)[i].color
            },
{
    let frags = all_fragments(triangles);
    let start = (blank_image(width, height), Map::<(i32, i32), Depth>::empty());
    assert(blank_image(width, height).well_formed()) by {
        assert(blank_pixels(width, height).dom() =~= grid(width, height));
    }
    lemma_triangles_are_fragments(start, triangles);
    lemma_draw_all_keeps_size(start.0, start.1, frags);
    lemma_nearest_fragment_wins(start.0, start.1, frags, x, y);
    let drawn = draw_all_spec(start, frags).0;
    let i = choose|i: int|
        {
            &&& 0 <= i < frags.len()
            &&& lands_on(#[trigger] frags[i], x, y)
            &&& draw_all_spec(start, frags).1.contains_key((x, y))
            &&& draw_all_spec(start, frags).1[(x, y)] == frags[i].depth
            &&& forall|j: int|
                0 <= j < frags.len() && lands_on(#[trigger] frags[j], x, y) ==> !nearer(frags[i].depth, frags[j].depth)
            &&& forall|j: int| 0 <= j < i && lands_on(#[trigger] frags[j], x, y) ==> nearer(frags[j].depth, frags[i].depth)
            &&& start.0.in_bounds(x as u32, y as u32) ==> drawn.pixels[(x as u32, y as u32)] == frags[i].color
        };
    let q = (x as u32, (height - 1 - y) as u32);
    assert(grid(width, height).contains(q));
    assert((height - 1 - q.1) as u32 == y as u32);
    assert(rendered(width, height, triangles).pixels[q] == drawn.pixels[(x as u32, y as u32)]);
}

} // verus!
