//! The camera's raster: how an image is split among workers, rendered row by
//! row and put together, and how far one ray is followed.

use vstd::prelude::*;
use crate::image::assemble;
use crate::image::header_bytes;
use crate::image::joined;
use crate::image::pixel_line;
use crate::image::quantised;
use crate::image::Rgb;
use crate::image::BRIGHTEST;
use crate::interval::Interval;
use crate::material::ScatterRecord;
use crate::ray::Ray;
use crate::scalar::at_most;
use crate::scalar::below;
use crate::scalar::not_above;
use crate::scalar::INFINITY;
use crate::utils::available_cpus;
use crate::vec::Color3;

verus! {

/// The code of 0.001: a hit nearer than this to a ray's origin is taken for
/// the surface that the ray has just left, and passed over.
pub const NEAREST_HIT: i64 = 0x3F50_624D_D2F1_A9FC;

/// A contiguous run of image rows: from `start` up to, not including, `end`.
#[derive(Debug, Clone, Copy, PartialEq, Eq, Structural)]
pub struct Rows {
    pub start: usize,
    pub end: usize,
}

/// What became of a ray at its next surface.
#[derive(Debug, Clone, Copy, PartialEq, Eq, Structural)]
pub enum Bounce {
    /// The ray hit nothing.
    Miss,
    /// The ray hit a surface that absorbed it.
    Absorbed,
    /// The ray hit a surface that scattered it.
    Scattered(ScatterRecord),
}

/// Why a path ended.
#[derive(Debug, Clone, Copy, PartialEq, Eq, Structural)]
pub enum PathEnd {
    /// The path was cut after the greatest number of bounces: it brings
    /// back black.
    Exhausted,
    /// A surface absorbed the last ray: the path brings back black.
    Absorbed,
    /// The last ray left the scene: the path brings back the sky's colour
    /// in the direction of that ray.
    Escaped,
}

/// The path of one sample: its bounces in order, and how it ended. The
/// colour it brings back is that of its end, dimmed by the attenuation of
/// each bounce.
#[derive(Debug)]
pub struct Path {
    pub bounces: Vec<ScatterRecord>,
    pub end: PathEnd,
}

impl Path {
    /// The ray that is followed after `k` bounces of a path that began
    /// with `ray`.
    pub open spec fn ray_after(&self, ray: Ray, k: int) -> Ray {
        if k == 0 {
            ray
        } else {
            self.bounces@[k - 1].scattered
        }
    }

    /// The ray on which the path ended, for a path that began with `ray`:
    /// the one scattered last, or `ray` itself where nothing scattered it.
    pub fn last_ray(&self, ray: Ray) -> (last: Ray)
        ensures
            last == self.ray_after(ray, self.bounces@.len() as int),
    {
        let n: usize = self.bounces.len();
        if n == 0 {
            ray
        } else {
            self.bounces[n - 1].scattered
        }
    }

    /// The path is one that `bounce` allows from `ray` with at most `depth`
    /// bounces: each of its bounces is what `bounce` made of the ray before
    /// it, and it ends where `bounce` reported a miss or an absorption, or
    /// after `depth` bounces.
    pub open spec fn follows<F: Fn(Ray) -> Bounce>(&self, bounce: F, ray: Ray, depth: nat) -> bool {
        let n = self.bounces@.len() as int;
        &&& n <= depth
        &&& forall|k: int|
            0 <= k < n ==> bounce.ensures(
                (self.ray_after(ray, k),),
                Bounce::Scattered(#[trigger] self.bounces@[k]),
            )
        &&& match self.end {
            PathEnd::Exhausted => n == depth,
            PathEnd::Absorbed => n < depth && bounce.ensures(
                (self.ray_after(ray, n),),
                Bounce::Absorbed,
            ),
            PathEnd::Escaped => n < depth && bounce.ensures((self.ray_after(ray, n),), Bounce::Miss),
        }
    }
}

/// The number of workers on a machine with `cpus` processors: four
/// processors are left free, and there is always one worker.
pub open spec fn workers_for(cpus: nat) -> nat {
    if cpus > 5 {
        (cpus - 4) as nat
    } else {
        1
    }
}

/// The rows of worker `t` of `workers`, for an image of `height` rows: every
/// worker gets the same number of consecutive rows, and the last one also
/// what is left over.
pub open spec fn batch(height: nat, workers: nat, t: nat) -> Rows {
    let size = height / workers;
    Rows {
        start: (t * size) as usize,
        end: if t + 1 == workers {
            height as usize
        } else {
            ((t + 1) * size) as usize
        },
    }
}

/// What the first `n` pixels of row `j` can be rendered as, from left to
/// right: for each column `i`, the line of what the colour `pixel(i, j)` is
/// shown as.
pub open spec fn row_rendered<F: Fn(usize, usize) -> Color3, R: Fn(i64) -> i64, S: Fn(i64) -> u8>(
    pixel: F,
    root: R,
    scale: S,
    j: usize,
    n: nat,
    out: Seq<u8>,
) -> bool
    decreases n,
{
    if n == 0 {
        out == Seq::<u8>::empty()
    } else {
        exists|before: Seq<u8>, colour: Color3, shown: Rgb|
            row_rendered(pixel, root, scale, j, (n - 1) as nat, before) && #[trigger] pixel.ensures(
                ((n - 1) as usize, j),
                colour,
            ) && quantised(root, scale, colour, shown) && out == #[trigger] (before + pixel_line(
                shown,
            ))
    }
}

/// What the `n` rows from row `start` on can be rendered as, from top to
/// bottom, each `width` pixels wide.
pub open spec fn rows_rendered<F: Fn(usize, usize) -> Color3, R: Fn(i64) -> i64, S: Fn(i64) -> u8>(
    pixel: F,
    root: R,
    scale: S,
    width: nat,
    start: usize,
    n: nat,
    out: Seq<u8>,
) -> bool
    decreases n,
{
    if n == 0 {
        out == Seq::<u8>::empty()
    } else {
        exists|before: Seq<u8>, row: Seq<u8>|
            rows_rendered(pixel, root, scale, width, start, (n - 1) as nat, before) && row_rendered(
                pixel,
                root,
                scale,
                (start + n - 1) as usize,
                width,
                row,
            ) && out == #[trigger] (before + row)
    }
}

/// The raster of a camera and the switches of its sampling.
#[derive(Debug, Clone, Copy, PartialEq, Eq, Structural)]
pub struct Camera {
    image_width: usize,
    image_height: usize,
    samples_per_pixel: usize,
    max_depth: usize,
    defocus_angle: i64,
    enable_motion_blur: bool,
}

impl Camera {
    pub closed spec fn spec_image_width(&self) -> usize {
        self.image_width
    }

    pub closed spec fn spec_image_height(&self) -> usize {
        self.image_height
    }

    pub closed spec fn spec_samples_per_pixel(&self) -> usize {
        self.samples_per_pixel
    }

    pub closed spec fn spec_max_depth(&self) -> usize {
        self.max_depth
    }

    pub closed spec fn spec_defocus_angle(&self) -> i64 {
        self.defocus_angle
    }

    pub closed spec fn spec_enable_motion_blur(&self) -> bool {
        self.enable_motion_blur
    }

    /// A camera for an image `image_width` pixels wide. `rows` is the width
    /// divided by the aspect ratio, rounded down; the image is that high, but
    /// at least one row. `defocus_angle` is the angle of the cone of rays
    /// through each pixel.
    pub fn new(
        image_width: usize,
        rows: usize,
        samples_per_pixel: usize,
        max_depth: usize,
        defocus_angle: i64,
        enable_motion_blur: bool,
    ) -> (camera: Camera)
        ensures
            camera.spec_image_width() == image_width,
            camera.spec_image_height() == if rows >= 1 {
                rows
            } else {
                1
            },
            camera.spec_samples_per_pixel() == samples_per_pixel,
            camera.spec_max_depth() == max_depth,
            camera.spec_defocus_angle() == defocus_angle,
            camera.spec_enable_motion_blur() == enable_motion_blur,
    {
        let image_height: usize = if rows >= 1 {
            rows
        } else {
            1
        };
        Camera {
            image_width,
            image_height,
            samples_per_pixel,
            max_depth,
            defocus_angle,
            enable_motion_blur,
        }
    }

    pub fn image_width(&self) -> (w: usize)
        ensures
            w == self.spec_image_width(),
    {
        self.image_width
    }

    pub fn image_height(&self) -> (h: usize)
        ensures
            h == self.spec_image_height(),
    {
        self.image_height
    }

    pub fn samples_per_pixel(&self) -> (n: usize)
        ensures
            n == self.spec_samples_per_pixel(),
    {
        self.samples_per_pixel
    }

    pub fn max_depth(&self) -> (n: usize)
        ensures
            n == self.spec_max_depth(),
    {
        self.max_depth
    }

    /// Whether rays start on the defocus disk rather than at the camera's
    /// centre: they do unless the defocus angle is found to be zero or less.
    pub fn uses_defocus(&self) -> (b: bool)
        ensures
            b == !not_above(self.spec_defocus_angle() as int, 0),
    {
        !at_most(self.defocus_angle, 0)
    }

    /// Whether each ray gets a time drawn from `[0, 1)` rather than time 0.
    pub fn uses_motion_blur(&self) -> (b: bool)
        ensures
            b == self.spec_enable_motion_blur(),
    {
        self.enable_motion_blur
    }

    /// The number of workers on a machine with `cpus` processors.
    pub fn thread_count(cpus: usize) -> (workers: usize)
        ensures
            workers == workers_for(cpus as nat),
            workers >= 1,
    {
        let spare: usize = if cpus >= 4 {
            cpus - 4
        } else {
            0
        };
        if spare >= 1 {
            spare
        } else {
            1
        }
    }

    /// The rows of each of `thread_count` workers, in row order: together
    /// they are the rows of the image, each once.
    pub fn batches(&self, thread_count: usize) -> (plan: Vec<Rows>)
        requires
            thread_count >= 1,
        ensures
            plan@.len() == thread_count,
            forall|t: int|
                0 <= t < thread_count ==> #[trigger] plan@[t] == batch(
                    self.spec_image_height() as nat,
                    thread_count as nat,
                    t as nat,
                ),
            plan@[0].start == 0,
            plan@[thread_count - 1].end == self.spec_image_height(),
            forall|t: int| 0 <= t < thread_count ==> (#[trigger] plan@[t]).start <= plan@[t].end,
            forall|t: int| 0 < t < thread_count ==> (#[trigger] plan@[t]).start == plan@[t - 1].end,
    {
        let batch_size: usize = self.image_height / thread_count;
        let mut plan: Vec<Rows> = Vec::new();
        let mut t: usize = 0;
        while t < thread_count
            invariant
                t <= thread_count,
                thread_count >= 1,
                batch_size == self.image_height / thread_count,
                plan@.len() == t,
                forall|k: int|
                    0 <= k < t ==> #[trigger] plan@[k] == batch(
                        self.spec_image_height() as nat,
                        thread_count as nat,
                        k as nat,
                    ),
                forall|k: int| 0 <= k < t ==> (#[trigger] plan@[k]).start <= plan@[k].end,
                forall|k: int| 0 < k < t ==> (#[trigger] plan@[k]).start == plan@[k - 1].end,
                t > 0 ==> plan@[0].start == 0,
                t == thread_count ==> plan@[t - 1].end == self.image_height,
            decreases thread_count - t,
        {
            proof {
                lemma_batch_fits(self.image_height as nat, thread_count as nat, t as nat);
            }
            let batch_start: usize = t * batch_size;
            let batch_end: usize = if t == thread_count - 1 {
                self.image_height
            } else {
                batch_start + batch_size
            };
            plan.push(Rows { start: batch_start, end: batch_end });
            t = t + 1;
        }
        plan
    }

    /// The rows of each worker on this machine.
    pub fn plan(&self) -> (plan: Vec<Rows>)
        ensures
            plan@.len() >= 1,
            exists|cpus: nat|
                cpus >= 1 && plan@.len() == #[trigger] workers_for(cpus) && forall|t: int|
                    0 <= t < plan@.len() ==> #[trigger] plan@[t] == batch(
                        self.spec_image_height() as nat,
                        plan@.len(),
                        t as nat,
                    ),
    {
        let cpus: usize = available_cpus();
        let workers: usize = Camera::thread_count(cpus);
        let plan: Vec<Rows> = self.batches(workers);
        assert(plan@.len() == workers_for(cpus as nat));
        plan
    }

    /// The lines of the pixels of the given rows, row after row from the top
    /// and each row from the left. `pixel(i, j)` gives the linear colour of
    /// column `i` in row `j`; `root` and `scale` are what
    /// [`Color3::write`] writes it with.
    pub fn render_rows<F: Fn(usize, usize) -> Color3, R: Fn(i64) -> i64, S: Fn(i64) -> u8>(
        &self,
        rows: Rows,
        pixel: &F,
        root: &R,
        scale: &S,
    ) -> (data: Vec<u8>)
        requires
            rows.start <= rows.end,
            forall|i: usize, j: usize|
                i < self.spec_image_width() && rows.start <= j < rows.end ==> #[trigger] pixel.requires(
                    (i, j),
                ),
            forall|c: i64| below(0, c as int) ==> #[trigger] root.requires((c,)),
            forall|c: i64| 0 <= c <= BRIGHTEST ==> #[trigger] scale.requires((c,)),
        ensures
            rows_rendered(
                *pixel,
                *root,
                *scale,
                self.spec_image_width() as nat,
                rows.start,
                (rows.end - rows.start) as nat,
                data@,
            ),
    {
        let mut image_data: Vec<u8> = Vec::new();
        let mut j: usize = rows.start;
        while j < rows.end
            invariant
                rows.start <= j <= rows.end,
                forall|i: usize, j: usize|
                    i < self.spec_image_width() && rows.start <= j < rows.end ==> #[trigger] pixel.requires(
                        (i, j),
                    ),
                forall|c: i64| below(0, c as int) ==> #[trigger] root.requires((c,)),
                forall|c: i64| 0 <= c <= BRIGHTEST ==> #[trigger] scale.requires((c,)),
                rows_rendered(
                    *pixel,
                    *root,
                    *scale,
                    self.spec_image_width() as nat,
                    rows.start,
                    (j - rows.start) as nat,
                    image_data@,
                ),
            decreases rows.end - j,
        {
            let ghost before = image_data@;
            let ghost mut row: Seq<u8> = Seq::empty();
            let mut i: usize = 0;
            while i < self.image_width
                invariant
                    i <= self.image_width,
                    rows.start <= j < rows.end,
                    forall|i: usize, j: usize|
                        i < self.spec_image_width() && rows.start <= j < rows.end ==> #[trigger] pixel.requires(
                            (i, j),
                        ),
                    forall|c: i64| below(0, c as int) ==> #[trigger] root.requires((c,)),
                    forall|c: i64| 0 <= c <= BRIGHTEST ==> #[trigger] scale.requires((c,)),
                    row_rendered(*pixel, *root, *scale, j, i as nat, row),
                    image_data@ == before + row,
                decreases self.image_width - i,
            {
                let pixel_color: Color3 = pixel(i, j);
                let ghost so_far = image_data@;
                pixel_color.write(&mut image_data, root, scale);
                proof {
                    let shown = choose|shown: Rgb|
                        quantised(*root, *scale, pixel_color, shown) && image_data@ == so_far
                            + #[trigger] pixel_line(shown);
                    let longer = row + pixel_line(shown);
                    assert(image_data@ =~= before + longer);
                    assert(row_rendered(*pixel, *root, *scale, j, i as nat, row) && pixel.ensures(
                        (i, j),
                        pixel_color,
                    ) && quantised(*root, *scale, pixel_color, shown) && longer == row
                        + pixel_line(shown));
                    row = longer;
                }
                i = i + 1;
            }
            proof {
                assert(rows_rendered(
                    *pixel,
                    *root,
                    *scale,
                    self.spec_image_width() as nat,
                    rows.start,
                    (j - rows.start) as nat,
                    before,
                ) && row_rendered(*pixel, *root, *scale, j, self.spec_image_width() as nat, row)
                    && image_data@ == before + row);
            }
            j = j + 1;
        }
        image_data
    }

    /// The whole image: the header for the camera's raster, then the chunks
    /// of pixel lines in the order given.
    pub fn render(&self, chunks: &Vec<Vec<u8>>) -> (image: Vec<u8>)
        ensures
            image@ == header_bytes(
                self.spec_image_width() as nat,
                self.spec_image_height() as nat,
            ) + joined(chunks@),
    {
        assemble(self.image_width, self.image_height, chunks)
    }

    /// The parameter range in which a ray's next surface is looked for: from
    /// just off the ray's origin without end.
    pub fn visible_range() -> (r: Interval)
        ensures
            r == (Interval { min: NEAREST_HIT, max: INFINITY }),
    {
        Interval::new(NEAREST_HIT, INFINITY)
    }

    /// Follows `ray` through the scene for at most `depth` bounces.
    /// `bounce(ray)` tells what becomes of a ray at its next surface.
    pub fn ray_color<F: Fn(Ray) -> Bounce>(&self, ray: Ray, depth: usize, bounce: &F) -> (path: Path)
        requires
            forall|r: Ray| #[trigger] bounce.requires((r,)),
        ensures
            path.follows(*bounce, ray, depth as nat),
    {
        let mut bounces: Vec<ScatterRecord> = Vec::new();
        let mut current: Ray = ray;
        let mut remaining: usize = depth;
        while remaining > 0
            invariant
                remaining <= depth,
                bounces@.len() == depth - remaining,
                forall|r: Ray| #[trigger] bounce.requires((r,)),
                current == (if bounces@.len() == 0 {
                    ray
                } else {
                    bounces@[bounces@.len() - 1].scattered
                }),
                forall|k: int|
                    0 <= k < bounces@.len() ==> bounce.ensures(
                        (
                            if k == 0 {
                                ray
                            } else {
                                bounces@[k - 1].scattered
                            },
                        ),
                        Bounce::Scattered(#[trigger] bounces@[k]),
                    ),
            decreases remaining,
        {
            match bounce(current) {
                Bounce::Miss => {
                    return Path { bounces, end: PathEnd::Escaped };
                },
                Bounce::Absorbed => {
                    return Path { bounces, end: PathEnd::Absorbed };
                },
                Bounce::Scattered(scatter_record) => {
                    bounces.push(scatter_record);
                    current = scatter_record.scattered;
                    remaining = remaining - 1;
                },
            }
        }
        Path { bounces, end: PathEnd::Exhausted }
    }
}

/// Rows rendered apart fit together: what `n` rows can be rendered as,
/// followed by what the next `more` rows can be rendered as, is what the
/// `n + more` rows can be rendered as in one go. So an image does not depend
/// on how its rows were split among workers, only on the order in which the
/// parts are put together.
pub proof fn lemma_rows_fit_together<
    F: Fn(usize, usize) -> Color3,
    R: Fn(i64) -> i64,
    S: Fn(i64) -> u8,
>(
    pixel: F,
    root: R,
    scale: S,
    width: nat,
    start: usize,
    n: nat,
    more: nat,
    first: Seq<u8>,
    second: Seq<u8>,
)
    requires
        start + n + more <= usize::MAX,
        rows_rendered(pixel, root, scale, width, start, n, first),
        rows_rendered(pixel, root, scale, width, (start + n) as usize, more, second),
    ensures
        rows_rendered(pixel, root, scale, width, start, n + more, first + second),
    decreases more,
{
    if more == 0 {
        assert(first + second =~= first);
    } else {
        let (before, row) = choose|before: Seq<u8>, row: Seq<u8>|
            rows_rendered(pixel, root, scale, width, (start + n) as usize, (more - 1) as nat, before)
                && row_rendered(pixel, root, scale, (start + n + more - 1) as usize, width, row)
                && second == #[trigger] (before + row);
        lemma_rows_fit_together(
            pixel,
            root,
            scale,
            width,
            start,
            n,
            (more - 1) as nat,
            first,
            before,
        );
        let joined = first + before;
        assert(first + second =~= joined + row);
        assert(rows_rendered(pixel, root, scale, width, start, (n + more - 1) as nat, joined)
            && row_rendered(pixel, root, scale, (start + (n + more) - 1) as usize, width, row)
            && first + second == joined + row);
    }
}

/// The rows of every worker but the last lie within the image.
proof fn lemma_batch_fits(height: nat, workers: nat, t: nat)
    requires
        workers >= 1,
        t < workers,
    ensures
        t * (height / workers) + (height / workers) <= height,
        (t + 1) * (height / workers) == t * (height / workers) + (height / workers),
{
    let size = height / workers;
    assert(workers * size <= height) by (nonlinear_arith)
        requires
            workers >= 1,
            size == height / workers,
    ;
    assert((t + 1) * size <= workers * size) by (nonlinear_arith)
        requires
            t + 1 <= workers,
            size >= 0,
    ;
    assert((t + 1) * size == t * size + size) by (nonlinear_arith);
}

} // verus!
