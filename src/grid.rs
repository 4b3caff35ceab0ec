use vstd::prelude::*;
use rayon::iter::{IntoParallelIterator, ParallelIterator};
use crate::raster::{Raster, RegionError, index_of, pixel_count, lemma_index_round_trip};

verus! {

/// `g` is a grid of `raster`: one cell per pixel, in row-major order, the
/// cell of pixel `(x, y)` being a value that `pixel` returns for `(x, y)`.
pub open spec fn is_grid_of<T, P: Fn(u32, u32) -> T>(raster: Raster, pixel: P, g: Seq<T>) -> bool {
    &&& g.len() == pixel_count(raster.img_w, raster.img_h)
    &&& forall|x: u32, y: u32|
        x < raster.img_w && y < raster.img_h ==> pixel.ensures(
            (x, y),
            #[trigger] g[index_of(raster.img_w, x, y)],
        )
}

/// `pixel` may be called on every pixel of `raster`.
pub open spec fn accepts_all<T, P: Fn(u32, u32) -> T>(raster: Raster, pixel: P) -> bool {
    forall|x: u32, y: u32| x < raster.img_w && y < raster.img_h ==> #[trigger] pixel.requires((x, y))
}

/// `pixel` has at most one possible result for each pixel.
pub open spec fn is_deterministic<T, P: Fn(u32, u32) -> T>(pixel: P) -> bool {
    forall|a: (u32, u32), v1: T, v2: T|
        #[trigger] pixel.ensures(a, v1) && #[trigger] pixel.ensures(a, v2) ==> v1 == v2
}

/// Relies on rayon's `into_par_iter` on a `u32` range, `map` and `collect`:
/// `f` runs once on each index below `n`, and collecting an indexed parallel
/// iterator into a `Vec` keeps the order of the range.
#[verifier::external_body]
fn par_map_range<T: Send, F: Fn(u32) -> T + Sync + Send>(n: u32, f: F) -> (r: Vec<T>)
    requires
        forall|i: u32| i < n ==> #[trigger] f.requires((i,)),
    ensures
        r.len() == n,
        forall|i: int| 0 <= i < n ==> f.ensures((i as u32,), #[trigger] r[i]),
{
    (0..n).into_par_iter().map(f).collect()
}

/// From cells listed by index to the grid that `is_grid_of` describes.
proof fn lemma_grid_from_indices<T, P: Fn(u32, u32) -> T>(raster: Raster, pixel: P, g: Seq<T>)
    requires
        raster.img_w >= 1,
        g.len() == pixel_count(raster.img_w, raster.img_h),
        forall|i: int|
            0 <= i < g.len() ==> pixel.ensures(
                ((i % raster.img_w as int) as u32, (i / raster.img_w as int) as u32),
                #[trigger] g[i],
            ),
    ensures
        is_grid_of(raster, pixel, g),
{
    assert forall|x: u32, y: u32| x < raster.img_w && y < raster.img_h implies pixel.ensures(
        (x, y),
        #[trigger] g[index_of(raster.img_w, x, y)],
    ) by {
        lemma_index_round_trip(raster.img_w, raster.img_h, x, y);
        crate::raster::lemma_index_in_range(raster.img_w, raster.img_h, x, y);
    }
}

/// Evaluates `pixel` on every pixel of `raster`, in parallel, and returns
/// the results in row-major order. `progress` is called once for each pixel,
/// from whichever worker computed it. A raster with no pixels, or with more
/// than a `u32` can index, is refused before any work.
pub fn generate<T: Send, P: Fn(u32, u32) -> T + Sync + Send, G: Fn() + Sync + Send>(
    raster: &Raster,
    pixel: P,
    progress: G,
) -> (r: Result<Vec<T>, RegionError>)
    requires
        accepts_all(*raster, pixel),
        progress.requires(()),
    ensures
        r is Ok <==> raster.is_valid(),
        r matches Err(e) ==> raster.error_of() == Some(e),
        r matches Ok(g) ==> is_grid_of(*raster, pixel, g@),
{
    let n = match raster.validate() {
        Ok(n) => n,
        Err(e) => {
            return Err(e);
        },
    };
    let w = raster.img_w;
    let eval = &pixel;
    let tick = &progress;
    let cell = move |i: u32| -> (v: T)
        requires
            i < n,
            n as int == pixel_count(raster.img_w, raster.img_h),
            w == raster.img_w,
            w >= 1,
            forall|x: u32, y: u32| x < raster.img_w && y < raster.img_h ==> #[trigger] eval.requires((x, y)),
            tick.requires(()),
        ensures
            eval.ensures(((i as int % w as int) as u32, (i as int / w as int) as u32), v),
    {
        tick();
        let (x, y) = raster.pixel_coords(i);
        eval(x, y)
    };
    let g = par_map_range(n, cell);
    proof {
        lemma_grid_from_indices(*raster, pixel, g@);
    }
    Ok(g)
}

/// Evaluates `pixel` on every pixel of `raster` on the calling thread, in
/// row-major order, calling `progress` after each pixel. Refuses the same
/// rasters as `generate`.
pub fn generate_sequential<T, P: Fn(u32, u32) -> T, G: Fn()>(
    raster: &Raster,
    pixel: P,
    progress: G,
) -> (r: Result<Vec<T>, RegionError>)
    requires
        accepts_all(*raster, pixel),
        progress.requires(()),
    ensures
        r is Ok <==> raster.is_valid(),
        r matches Err(e) ==> raster.error_of() == Some(e),
        r matches Ok(g) ==> is_grid_of(*raster, pixel, g@),
{
    let n = match raster.validate() {
        Ok(n) => n,
        Err(e) => {
            return Err(e);
        },
    };
    let w = raster.img_w;
    let mut g: Vec<T> = Vec::new();
    let mut i: u32 = 0;
    while i < n
        invariant
            i <= n,
            n as int == pixel_count(raster.img_w, raster.img_h),
            w == raster.img_w,
            w >= 1,
            accepts_all(*raster, pixel),
            progress.requires(()),
            g.len() == i,
            forall|k: int|
                0 <= k < i ==> pixel.ensures(
                    ((k % w as int) as u32, (k / w as int) as u32),
                    #[trigger] g[k],
                ),
        decreases n - i,
    {
        let (x, y) = raster.pixel_coords(i);
        let v = pixel(x, y);
        progress();
        g.push(v);
        i = i + 1;
    }
    proof {
        lemma_grid_from_indices(*raster, pixel, g@);
    }
    Ok(g)
}

/// A render does not depend on how its pixels are scheduled: two grids of
/// the same raster and the same deterministic evaluator, however they were
/// produced (one worker or many, in any order), are equal.
pub proof fn lemma_grid_unique<T, P: Fn(u32, u32) -> T>(raster: Raster, pixel: P, g1: Seq<T>, g2: Seq<T>)
    requires
        raster.is_valid(),
        is_deterministic(pixel),
        is_grid_of(raster, pixel, g1),
        is_grid_of(raster, pixel, g2),
    ensures
        g1 == g2,
{
    let w = raster.img_w;
    assert forall|i: int| 0 <= i < g1.len() implies g1[i] == g2[i] by {
        assert(0 <= i < pixel_count(w, raster.img_h) <= u32::MAX);
        crate::raster::lemma_coords_of_index(w, raster.img_h, i as u32);
        let x = (i % w as int) as u32;
        let y = (i / w as int) as u32;
        assert(pixel.ensures((x, y), g1[index_of(w, x, y)]));
    }
    assert(g1 =~= g2);
}

} // verus!
