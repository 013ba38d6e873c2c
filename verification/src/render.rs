//! The radiance integrator and the render driver.
//!
//! Each pixel averages independently jittered samples; each sample walks
//! the scene recursively until the ray misses (background gradient), the
//! surface absorbs it, or the bounce budget runs out (black).

use crate::camera::{camera_ray, Camera};
use crate::fixed::{
    fadd, fclamp, fdiv, fmul, fsqrt, fsub, fx_add, fx_clamp, fx_div, fx_mul, fx_sqrt, fx_sub,
    fx_tzdiv, lemma_fmul_one, lemma_fmul_unit_range, tz, ONE,
};
use crate::hittable::{scene_sel, scene_wf, HittableList, Sphere};
use crate::material::{color_wf, lemma_color_mul, material_wf, Material};
use crate::ray::{Ray, RayV};
use crate::rng::Rng;
use crate::vec3::{in_ball, lsqv, unitv, v_add, v_scale, zerov, Vec3, V3};
use vstd::prelude::*;

verus! {

/// Parametric offset below which intersections are ignored; it keeps a
/// secondary ray from meeting the surface it just left.
pub const T_EPS: i64 = 64;

/// One half, as a fixed-point scalar.
pub const HALF: i64 = 32768;

/// The green channel of the sky tint, seven tenths rounded to the grid.
pub const SKY_GREEN: i64 = 45875;

/// The saturation bound applied before quantization: `0.999`, which is
/// `0.999 * 65536 = 65470.464` steps, rounded down to the grid.
pub const CLAMP_MAX: i64 = 65470;

/// The background gradient: a vertical blend from white to sky blue by
/// the upward component of the normalized direction, remapped from
/// `[-1, 1]` to `[0, 1]` and clamped to absorb rounding at the edges.
pub open spec fn background_spec(r: RayV) -> V3 {
    let t = fclamp(fmul(HALF as int, fadd(unitv(r.direction).y, ONE as int)), 0, ONE as int);
    v_add(
        v_scale(fsub(ONE as int, t), V3 { x: ONE as int, y: ONE as int, z: ONE as int }),
        v_scale(t, V3 { x: HALF as int, y: SKY_GREEN as int, z: ONE as int }),
    )
}

/// The background color of a missed ray.
fn background(ray: Ray) -> (c: Vec3)
    requires
        lsqv(ray@.direction) >= 1,
    ensures
        c@ == background_spec(ray@),
        color_wf(c@),
{
    let unit_direction = ray.direction().unit();
    let t = fx_clamp(fx_mul(HALF, fx_add(unit_direction.y(), ONE)), 0, ONE);
    let white = Vec3::new(ONE, ONE, ONE);
    let sky = Vec3::new(HALF, SKY_GREEN, ONE);
    let c = white.scale(fx_sub(ONE, t)).add(sky.scale(t));
    proof {
        let tt = t as int;
        let omt = fsub(ONE as int, tt);
        lemma_fmul_one(omt);
        lemma_fmul_unit_range(tt, HALF as int);
        lemma_fmul_unit_range(tt, SKY_GREEN as int);
        lemma_fmul_unit_range(tt, ONE as int);
    }
    c
}

/// Everything the integrator promises of an estimate `c` for a ray
/// `r` with `depth` bounces left: channels inside `[0, 1]`; black on an
/// exhausted budget or a degenerate direction; exactly the background
/// gradient on a miss; and black for a depth-one hit on a surface that
/// always scatters (every kind but metal).
pub open spec fn radiance_post(world: Seq<Sphere>, r: RayV, depth: int, c: V3) -> bool {
    &&& color_wf(c)
    &&& depth == 0 ==> c == zerov()
    &&& depth > 0 && lsqv(r.direction) < 1 ==> c == zerov()
    &&& depth > 0 && lsqv(r.direction) >= 1 && scene_sel(
        world,
        r,
        T_EPS as int,
        i64::MAX as int,
    ) is None ==> c == background_spec(r)
    &&& depth == 1 && lsqv(r.direction) >= 1 && (match scene_sel(
        world,
        r,
        T_EPS as int,
        i64::MAX as int,
    ) {
        Some(it) => !(world[it.0].material matches Material::Metal(_)),
        None => false,
    }) ==> c == zerov()
}

/// The estimated radiance carried back along a ray.
///
/// With the bounce budget exhausted, or a direction whose squared length
/// rounds to zero (a degenerate ray that can be neither normalized nor
/// intersected), the contribution is black.  A miss yields exactly the
/// background gradient.  On a hit, the scattered ray's estimate is
/// filtered by the attenuation color, so with well-formed materials
/// every channel of the result stays inside `[0, 1]`.  With exactly one
/// bounce left, a hit on a surface that always scatters (every kind but
/// metal) contributes black: the scattered ray's budget is exhausted.
pub fn ray_color(rng: &mut Rng, ray: Ray, world: &HittableList, depth: usize) -> (c: Vec3)
    requires
        scene_wf(world.objects@),
    ensures
        radiance_post(world.objects@, ray@, depth as int, c@),
    decreases depth,
{
    if depth == 0 {
        return Vec3::zero();
    }

    if ray.direction().length_squared() < 1 {
        return Vec3::zero();
    }

    match world.hit(ray, T_EPS, i64::MAX) {
        Some(rec) => {
            proof {
                assert(material_wf(rec.material));
            }
            match rec.material.scatter(ray, &rec, rng) {
                Some((attenuation, scattered)) => {
                    let bounced = ray_color(rng, scattered, world, depth - 1);
                    let c = attenuation.mul(bounced);
                    proof {
                        lemma_color_mul(attenuation@, bounced@);
                        if depth == 1 {
                            assert(bounced@ == zerov());
                            crate::vec3::lemma_v_mul_zero(attenuation@);
                            assert(c@ == zerov());
                        }
                    }
                    c
                },
                None => Vec3::zero(),
            }
        },
        None => background(ray),
    }
}

/// One gamma-corrected, quantized channel: average the accumulated
/// value over the sample count, take the square root, saturate at
/// `0.999`, scale by 256 and round down.
pub open spec fn quantize_channel(c: int, n: int) -> int {
    let avg = tz(c, n);
    let g = fsqrt(avg);
    let clamped = fclamp(g, 0, CLAMP_MAX as int);
    tz(256 * clamped, ONE as int)
}

/// One channel of the written pixel.
fn quantize(c: i64, n: i64) -> (q: u32)
    requires
        n >= 1,
    ensures
        q as int == quantize_channel(c as int, n as int),
        q <= 255,
{
    let avg = fx_tzdiv(c, n);
    let g = fx_sqrt(avg);
    let clamped = fx_clamp(g, 0, CLAMP_MAX);
    let scaled = fx_tzdiv(256 * clamped, ONE);
    proof {
        let v = 256 * (clamped as int);
        assert(0 <= v <= 16760320);
        assert(tz(v, 65536) == v / 65536);
        vstd::arithmetic::div_mod::lemma_div_is_ordered(v, 16760320, 65536);
        assert(0 <= tz(256 * (clamped as int), ONE as int) < 256);
    }
    scaled as u32
}

/// Turn an accumulated color into the three channel values of one
/// written pixel.
pub fn write_color(color: &Vec3, samples_per_pixel: usize) -> (rgb: (u32, u32, u32))
    requires
        1 <= samples_per_pixel <= 0x7fff_ffff,
    ensures
        rgb.0 as int == quantize_channel(color@.x, samples_per_pixel as int),
        rgb.1 as int == quantize_channel(color@.y, samples_per_pixel as int),
        rgb.2 as int == quantize_channel(color@.z, samples_per_pixel as int),
        rgb.0 <= 255,
        rgb.1 <= 255,
        rgb.2 <= 255,
{
    let n = samples_per_pixel as i64;
    (quantize(color.x(), n), quantize(color.y(), n), quantize(color.z(), n))
}

/// The camera ray of pixel `(i, j)` for jitter `(ju, jv)` and lens
/// sample `rd`: each viewport coordinate divides the jittered pixel
/// index by the last column or row index.
pub open spec fn pixel_ray(
    cam: Camera,
    i: int,
    j: int,
    width: int,
    height: int,
    ju: int,
    jv: int,
    rd: V3,
) -> RayV {
    camera_ray(
        cam,
        fdiv(fadd(i * (ONE as int), ju), (width - 1) * (ONE as int)),
        fdiv(fadd(j * (ONE as int), jv), (height - 1) * (ONE as int)),
        rd,
    )
}

/// One Monte Carlo sample of pixel `(i, j)`: for some jitter of the
/// half-open unit square and some lens-disk sample, the color satisfies
/// everything the integrator promises of the corresponding camera ray.
pub open spec fn pixel_sample_ok(
    cam: Camera,
    world: Seq<Sphere>,
    i: int,
    j: int,
    width: int,
    height: int,
    depth: int,
    c: V3,
) -> bool {
    exists|ju: int, jv: int, rd: V3|
        {
            &&& 0 <= ju < ONE as int
            &&& 0 <= jv < ONE as int
            &&& in_ball(rd)
            &&& rd.z == 0
            &&& radiance_post(
                world,
                #[trigger] pixel_ray(cam, i, j, width, height, ju, jv, rd),
                depth,
                c,
            )
        }
}

/// Componentwise sum of a sequence of colors.
pub open spec fn color_sum(samples: Seq<V3>) -> V3
    decreases samples.len(),
{
    if samples.len() == 0 {
        zerov()
    } else {
        v_add(color_sum(samples.drop_last()), samples.last())
    }
}

/// What a pixel accumulates: the componentwise sum of one valid Monte
/// Carlo sample per pass.
pub open spec fn pixel_accum_ok(
    cam: Camera,
    world: Seq<Sphere>,
    i: int,
    j: int,
    width: int,
    height: int,
    spp: int,
    depth: int,
    c: V3,
) -> bool {
    exists|samples: Seq<V3>|
        {
            &&& samples.len() == spp
            &&& (forall|k: int|
                0 <= k < samples.len() ==> pixel_sample_ok(
                    cam,
                    world,
                    i,
                    j,
                    width,
                    height,
                    depth,
                    #[trigger] samples[k],
                ))
            &&& c == #[trigger] color_sum(samples)
        }
}

/// What one written pixel holds: the quantized channels of a color
/// accumulated as `pixel_accum_ok` describes.
pub open spec fn pixel_written_ok(
    cam: Camera,
    world: Seq<Sphere>,
    i: int,
    j: int,
    width: int,
    height: int,
    spp: int,
    depth: int,
    px: (u32, u32, u32),
) -> bool {
    exists|c: V3|
        {
            &&& #[trigger] pixel_accum_ok(cam, world, i, j, width, height, spp, depth, c)
            &&& px.0 as int == quantize_channel(c.x, spp)
            &&& px.1 as int == quantize_channel(c.y, spp)
            &&& px.2 as int == quantize_channel(c.z, spp)
        }
}

/// The accumulated (unaveraged) color of one pixel: the sum of
/// independently jittered samples, each channel bounded by the sample
/// count.
pub fn pixel_color(
    rng: &mut Rng,
    camera: &Camera,
    world: &HittableList,
    i: usize,
    j: usize,
    width: usize,
    height: usize,
    samples_per_pixel: usize,
    max_depth: usize,
) -> (c: Vec3)
    requires
        scene_wf(world.objects@),
        2 <= width <= 32768,
        2 <= height <= 32768,
        i < width,
        j < height,
        1 <= samples_per_pixel <= 0x7fff_ffff,
    ensures
        pixel_accum_ok(
            *camera,
            world.objects@,
            i as int,
            j as int,
            width as int,
            height as int,
            samples_per_pixel as int,
            max_depth as int,
            c@,
        ),
        0 <= c@.x <= samples_per_pixel * (ONE as int),
        0 <= c@.y <= samples_per_pixel * (ONE as int),
        0 <= c@.z <= samples_per_pixel * (ONE as int),
{
    let mut color = Vec3::zero();
    let ghost mut gsamples: Seq<V3> = Seq::empty();
    let mut s: usize = 0;
    while s < samples_per_pixel
        invariant
            scene_wf(world.objects@),
            2 <= width <= 32768,
            2 <= height <= 32768,
            i < width,
            j < height,
            s <= samples_per_pixel <= 0x7fff_ffff,
            0 <= color@.x <= s * (ONE as int),
            0 <= color@.y <= s * (ONE as int),
            0 <= color@.z <= s * (ONE as int),
            gsamples.len() == s,
            forall|k: int|
                0 <= k < gsamples.len() ==> pixel_sample_ok(
                    *camera,
                    world.objects@,
                    i as int,
                    j as int,
                    width as int,
                    height as int,
                    max_depth as int,
                    #[trigger] gsamples[k],
                ),
            color@ == color_sum(gsamples),
        decreases samples_per_pixel - s,
    {
        let ju = rng.gen_range(0, ONE);
        let jv = rng.gen_range(0, ONE);
        let u = fx_div(fx_add((i as i64) * ONE, ju), ((width - 1) as i64) * ONE);
        let v = fx_div(fx_add((j as i64) * ONE, jv), ((height - 1) as i64) * ONE);
        let ray = camera.get_ray(rng, u, v);
        let sample = ray_color(rng, ray, world, max_depth);
        proof {
            let rd = choose|rd: V3|
                in_ball(rd) && rd.z == 0 && ray@ == #[trigger] camera_ray(
                    *camera,
                    u as int,
                    v as int,
                    rd,
                );
            assert(pixel_ray(
                *camera,
                i as int,
                j as int,
                width as int,
                height as int,
                ju as int,
                jv as int,
                rd,
            ) == ray@);
            assert(radiance_post(
                world.objects@,
                pixel_ray(
                    *camera,
                    i as int,
                    j as int,
                    width as int,
                    height as int,
                    ju as int,
                    jv as int,
                    rd,
                ),
                max_depth as int,
                sample@,
            ));
        }
        color = color.add(sample);
        proof {
            let prev = gsamples;
            gsamples = prev.push(sample@);
            assert(gsamples.drop_last() =~= prev);
            assert(color@ == color_sum(gsamples));
        }
        s = s + 1;
    }
    proof {
        assert(color@ == color_sum(gsamples));
    }
    color
}

/// One scanline of quantized pixels, left to right.
pub fn render_row(
    rng: &mut Rng,
    camera: &Camera,
    world: &HittableList,
    j: usize,
    width: usize,
    height: usize,
    samples_per_pixel: usize,
    max_depth: usize,
) -> (row: Vec<(u32, u32, u32)>)
    requires
        scene_wf(world.objects@),
        2 <= width <= 32768,
        2 <= height <= 32768,
        j < height,
        1 <= samples_per_pixel <= 0x7fff_ffff,
    ensures
        row@.len() == width,
        forall|k: int|
            0 <= k < row@.len() ==> (#[trigger] row@[k]).0 <= 255 && row@[k].1 <= 255
                && row@[k].2 <= 255,
        forall|k: int|
            0 <= k < row@.len() ==> pixel_written_ok(
                *camera,
                world.objects@,
                k,
                j as int,
                width as int,
                height as int,
                samples_per_pixel as int,
                max_depth as int,
                #[trigger] row@[k],
            ),
{
    let mut row: Vec<(u32, u32, u32)> = Vec::new();
    let mut i: usize = 0;
    while i < width
        invariant
            scene_wf(world.objects@),
            2 <= width <= 32768,
            2 <= height <= 32768,
            j < height,
            1 <= samples_per_pixel <= 0x7fff_ffff,
            i <= width,
            row@.len() == i,
            forall|k: int|
                0 <= k < row@.len() ==> (#[trigger] row@[k]).0 <= 255 && row@[k].1 <= 255
                    && row@[k].2 <= 255,
            forall|k: int|
                0 <= k < row@.len() ==> pixel_written_ok(
                    *camera,
                    world.objects@,
                    k,
                    j as int,
                    width as int,
                    height as int,
                    samples_per_pixel as int,
                    max_depth as int,
                    #[trigger] row@[k],
                ),
        decreases width - i,
    {
        let color = pixel_color(
            rng,
            camera,
            world,
            i,
            j,
            width,
            height,
            samples_per_pixel,
            max_depth,
        );
        let rgb = write_color(&color, samples_per_pixel);
        proof {
            assert(pixel_written_ok(
                *camera,
                world.objects@,
                i as int,
                j as int,
                width as int,
                height as int,
                samples_per_pixel as int,
                max_depth as int,
                rgb,
            ));
        }
        row.push(rgb);
        i = i + 1;
    }
    row
}

/// The whole image in row-major order, top scanline first.
pub fn render(
    rng: &mut Rng,
    camera: &Camera,
    world: &HittableList,
    width: usize,
    height: usize,
    samples_per_pixel: usize,
    max_depth: usize,
) -> (img: Vec<(u32, u32, u32)>)
    requires
        scene_wf(world.objects@),
        2 <= width <= 32768,
        2 <= height <= 32768,
        1 <= samples_per_pixel <= 0x7fff_ffff,
    ensures
        img@.len() == width * height,
        forall|k: int|
            0 <= k < img@.len() ==> (#[trigger] img@[k]).0 <= 255 && img@[k].1 <= 255
                && img@[k].2 <= 255,
        forall|m: int|
            0 <= m < img@.len() ==> pixel_written_ok(
                *camera,
                world.objects@,
                m % (width as int),
                (height as int) - 1 - m / (width as int),
                width as int,
                height as int,
                samples_per_pixel as int,
                max_depth as int,
                #[trigger] img@[m],
            ),
{
    let mut img: Vec<(u32, u32, u32)> = Vec::new();
    let mut j: usize = height;
    while j > 0
        invariant
            scene_wf(world.objects@),
            2 <= width <= 32768,
            2 <= height <= 32768,
            1 <= samples_per_pixel <= 0x7fff_ffff,
            j <= height,
            img@.len() == (height - j) * width,
            forall|k: int|
                0 <= k < img@.len() ==> (#[trigger] img@[k]).0 <= 255 && img@[k].1 <= 255
                    && img@[k].2 <= 255,
            forall|m: int|
                0 <= m < img@.len() ==> pixel_written_ok(
                    *camera,
                    world.objects@,
                    m % (width as int),
                    (height as int) - 1 - m / (width as int),
                    width as int,
                    height as int,
                    samples_per_pixel as int,
                    max_depth as int,
                    #[trigger] img@[m],
                ),
        decreases j,
    {
        j = j - 1;
        let row = render_row(rng, camera, world, j, width, height, samples_per_pixel, max_depth);
        let mut k: usize = 0;
        while k < row.len()
            invariant
                scene_wf(world.objects@),
                2 <= width <= 32768,
                2 <= height <= 32768,
                1 <= samples_per_pixel <= 0x7fff_ffff,
                j < height,
                k <= row@.len(),
                row@.len() == width,
                img@.len() == (height - j - 1) * width + k,
                forall|m: int|
                    0 <= m < row@.len() ==> (#[trigger] row@[m]).0 <= 255 && row@[m].1 <= 255
                        && row@[m].2 <= 255,
                forall|m: int|
                    0 <= m < row@.len() ==> pixel_written_ok(
                        *camera,
                        world.objects@,
                        m,
                        j as int,
                        width as int,
                        height as int,
                        samples_per_pixel as int,
                        max_depth as int,
                        #[trigger] row@[m],
                    ),
                forall|m: int|
                    0 <= m < img@.len() ==> (#[trigger] img@[m]).0 <= 255 && img@[m].1 <= 255
                        && img@[m].2 <= 255,
                forall|m: int|
                    0 <= m < img@.len() ==> pixel_written_ok(
                        *camera,
                        world.objects@,
                        m % (width as int),
                        (height as int) - 1 - m / (width as int),
                        width as int,
                        height as int,
                        samples_per_pixel as int,
                        max_depth as int,
                        #[trigger] img@[m],
                    ),
            decreases row@.len() - k,
        {
            let px = row[k];
            proof {
                let m0 = img@.len() as int;
                vstd::arithmetic::div_mod::lemma_fundamental_div_mod_converse(
                    m0,
                    width as int,
                    (height as int) - (j as int) - 1,
                    k as int,
                );
                assert(m0 % (width as int) == k as int);
                assert((height as int) - 1 - m0 / (width as int) == j as int);
            }
            img.push(px);
            k = k + 1;
        }
        proof {
            assert((height - j - 1) * width + width == (height - j) * width) by (nonlinear_arith);
        }
    }
    proof {
        assert((height - 0) * width == width * height) by (nonlinear_arith);
    }
    img
}

} // verus!
