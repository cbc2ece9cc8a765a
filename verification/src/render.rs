//! The integrator and the render driver.
//!
//! `ray_colour` estimates the radiance a ray gathers: black at the
//! recursion budget, the material-attenuated recursive estimate on a
//! hit, the analytic sky gradient on a miss.  The driver accumulates
//! per-pixel samples, averages, gamma-corrects and formats raster
//! lines, rows from the top of the image down, columns left to right.

use crate::camera::{get_ray_spec, Camera};
use crate::colour::pixel_line_spec;
use crate::fx::{
    fx_add, fx_mul, fx_sub, sat, sat_i128, spec_add, spec_mul, spec_sub, tdiv, tdiv_i128, FX_MAX,
    SCALE,
};
use crate::hit::{
    lemma_scene_hit_material, lemma_scene_hit_wf, scene_hit_spec, Hittable, HittableList,
};
use crate::material::{metal_exact_spec, Material};
use crate::ray::Ray;
use crate::rng::rand_range_i64;
use crate::sphere::Sphere;
use crate::vec3::{add_spec, mul_spec, scale_spec, unit_spec, Colour, Vec3};
use vstd::prelude::*;

verus! {

/// The self-intersection epsilon: hits closer than about 0.001 of a
/// unit are ignored (`floor(0.001 * SCALE)`).
pub const T_MIN: i64 = 16777;

/// One half, as a scalar (`SCALE / 2`).
pub const HALF: i64 = 8388608;

/// The largest image dimension the driver accepts:
/// `floor(i64::MAX / SCALE)`, so that a scaled pixel coordinate
/// numerator `pix * SCALE + jitter` always fits the scalar word.
pub const MAX_IMAGE_DIM: i64 = 549755813887;

/// The sky gradient's colour at the zenith end: `(0.5, 0.7, 1.0)`,
/// component-wise `floor` of the scalar representation.
pub open spec fn sky_blue() -> Colour {
    Vec3 { x: 8388608i64, y: 11744051i64, z: 16777216i64 }
}

/// Plain white, the sky gradient's colour at the horizon end.
pub open spec fn sky_white() -> Colour {
    Vec3 { x: SCALE, y: SCALE, z: SCALE }
}

/// Linear interpolation `(1 - s) * a + s * b`.
pub open spec fn lerp_spec(s: int, a: Colour, b: Colour) -> Colour {
    add_spec(scale_spec(a, spec_sub(SCALE as int, s)), scale_spec(b, s))
}

/// The analytic background: white at ray elevation -1, sky blue at +1,
/// interpolated along the unit direction's height.
pub open spec fn sky_spec(ray: Ray) -> Colour {
    let unit_direction = unit_spec(ray.direction);
    let t = spec_mul(HALF as int, spec_add(unit_direction.y as int, SCALE as int));
    lerp_spec(t, sky_white(), sky_blue())
}

/// Whether every material of the scene is value-deterministic: a
/// fuzzless metal.  Diffuse surfaces and fuzzy metals draw randomness
/// that shifts their scattered rays; a fuzzless metal draws too, but
/// the draw is scaled away exactly.
pub open spec fn scene_deterministic(objs: Seq<Sphere>) -> bool {
    forall|i: int|
        0 <= i < objs.len() ==> match (#[trigger] objs[i]).material {
            Material::Metal(m) => m.fuzz == 0,
            Material::Lambertian(_) => false,
        }
}

/// The integrator's value on a deterministic scene, as a mathematical
/// function of the ray and the depth.  (On scenes with stochastic
/// materials this function is not the integrator's value and nothing
/// claims it is; the diffuse arm is a placeholder.)
pub open spec fn ray_colour_spec(objs: Seq<Sphere>, ray: Ray, depth: nat) -> Colour
    decreases depth,
{
    if depth == 0 {
        Vec3 { x: 0i64, y: 0i64, z: 0i64 }
    } else {
        match scene_hit_spec(objs, ray, T_MIN as int, FX_MAX as int) {
            Some(h) => match h.material {
                Material::Metal(m) => match metal_exact_spec(m, ray, h) {
                    Some(p) => mul_spec(p.0, ray_colour_spec(objs, p.1, (depth - 1) as nat)),
                    None => Vec3 { x: 0i64, y: 0i64, z: 0i64 },
                },
                Material::Lambertian(_) => Vec3 { x: 0i64, y: 0i64, z: 0i64 },
            },
            None => sky_spec(ray),
        }
    }
}

/// Linear interpolation between two colours.
pub fn lerp(s: i64, t_1: Colour, t_2: Colour) -> (r: Colour)
    ensures
        r == lerp_spec(s as int, t_1, t_2),
        r.wf(),
{
    t_1.scale(fx_sub(SCALE, s)).add(t_2.scale(s))
}

/// The recursive radiance estimate of a ray in a scene.
///
/// With the recursion budget spent the estimate is exactly black; that
/// is the sole termination rule.  On a hit, the material scatters and
/// the estimate is the attenuation times the recursive estimate of the
/// scattered ray, or black when the ray is absorbed; on a diffuse hit
/// the estimate is the albedo's channel product with some well-formed
/// recursive estimate.  On a miss the estimate is the sky gradient,
/// exactly; on a scene of fuzzless metals the whole estimate is the
/// mathematical function `ray_colour_spec`.
pub fn ray_colour(ray: Ray, world: &HittableList, recursion_depth: usize) -> (r: Colour)
    requires
        ray.wf(),
        world.well_formed(),
    ensures
        r.wf(),
        recursion_depth == 0 ==> r == (Vec3 { x: 0i64, y: 0i64, z: 0i64 }),
        (recursion_depth > 0 && scene_hit_spec(
            world.objects@,
            ray,
            T_MIN as int,
            FX_MAX as int,
        ) is None) ==> r == sky_spec(ray),
        recursion_depth > 0 ==> (scene_hit_spec(
            world.objects@,
            ray,
            T_MIN as int,
            FX_MAX as int,
        ) matches Some(h) ==> (h.material matches Material::Lambertian(l) ==> exists|c: Colour|
            c.wf() && r == mul_spec(l.albedo, c))),
        scene_deterministic(world.objects@) ==> r == ray_colour_spec(
            world.objects@,
            ray,
            recursion_depth as nat,
        ),
    decreases recursion_depth,
{
    if recursion_depth == 0 {
        return Vec3::zero();
    }
    proof {
        lemma_scene_hit_wf(world.objects@, ray, T_MIN as int, FX_MAX as int);
        lemma_scene_hit_material(world.objects@, ray, T_MIN as int, FX_MAX as int);
    }
    match world.hit(&ray, T_MIN, FX_MAX) {
        Some(hit) => {
            proof {
                if scene_deterministic(world.objects@) {
                    let i = choose|i: int|
                        0 <= i < world.objects@.len() && hit.material == (
                        #[trigger] world.objects@[i]).material;
                    assert(hit.material matches Material::Metal(m) && m.fuzz == 0);
                }
            }
            match hit.material.scatter(&ray, &hit) {
                Some((attenuation, scattered)) => {
                    let recursive = ray_colour(scattered, world, recursion_depth - 1);
                    let estimate = attenuation.mul(recursive);
                    proof {
                        match hit.material {
                            Material::Lambertian(l) => {
                                assert(estimate == mul_spec(l.albedo, recursive));
                            },
                            Material::Metal(_) => {},
                        }
                    }
                    estimate
                },
                None => Vec3::zero(),
            }
        },
        None => {
            let unit_direction = ray.direction.unit();
            let t = fx_mul(HALF, fx_add(unit_direction.y, SCALE));
            lerp(t, Vec3::new(SCALE, SCALE, SCALE), Vec3::new(8388608, 11744051, 16777216))
        },
    }
}

/// The image-plane coordinate of a jittered pixel index:
/// `(pix + jitter) / (limit - 1)` as a scalar.
pub open spec fn sample_coord(pix: int, jitter: int, limit: int) -> int {
    sat(tdiv(pix * SCALE + jitter, limit - 1))
}

/// The primary ray of sample `(i + ju, j + jv)` of a `width` by
/// `height` image.
pub open spec fn primary_ray_spec(
    camera: Camera,
    i: int,
    ju: int,
    width: int,
    j: int,
    jv: int,
    height: int,
) -> Ray {
    get_ray_spec(camera, sample_coord(i, ju, width), sample_coord(j, jv, height))
}

/// One jitter pair per sample, each component a scalar in `[0, 1)`.
pub open spec fn jitters_ok(jitters: Seq<(i64, i64)>, n: int) -> bool {
    jitters.len() == n && forall|k: int|
        0 <= k < jitters.len() ==> 0 <= (#[trigger] jitters[k]).0 < SCALE && 0 <= jitters[k].1
            < SCALE
}

/// The accumulated per-sample estimates of pixel `(i, j)` under the
/// given jitter pairs, summed in sampling order.
pub open spec fn sample_sum_spec(
    objs: Seq<Sphere>,
    camera: Camera,
    i: int,
    j: int,
    width: int,
    height: int,
    jitters: Seq<(i64, i64)>,
    depth: nat,
) -> Colour
    decreases jitters.len(),
{
    if jitters.len() == 0 {
        Vec3 { x: 0i64, y: 0i64, z: 0i64 }
    } else {
        add_spec(
            sample_sum_spec(objs, camera, i, j, width, height, jitters.drop_last(), depth),
            ray_colour_spec(
                objs,
                primary_ray_spec(
                    camera,
                    i,
                    jitters.last().0 as int,
                    width,
                    j,
                    jitters.last().1 as int,
                    height,
                ),
                depth,
            ),
        )
    }
}

/// Whether `line` is a raster line of pixel `(i, j)`: the formatted
/// mean of the per-sample estimates under some admissible jitters.
pub open spec fn is_pixel_line(
    line: Seq<char>,
    objs: Seq<Sphere>,
    camera: Camera,
    i: int,
    j: int,
    width: int,
    height: int,
    spp: int,
    depth: nat,
) -> bool {
    exists|jitters: Seq<(i64, i64)>|
        jitters_ok(jitters, spp) && line == pixel_line_spec(
            sample_sum_spec(objs, camera, i, j, width, height, jitters, depth),
            spp,
        )
}

/// Where pixel `(i, j)` stands in the raster's scan order: rows from
/// the top (`j == height - 1`) down, columns left to right.
pub open spec fn raster_index(width: int, height: int, i: int, j: int) -> int {
    (height - 1 - j) * width + i
}

/// Compute one jittered image-plane coordinate.
fn sample_coord_fx(pix: usize, jitter: i64, limit: usize) -> (r: i64)
    requires
        1 < limit,
        limit as int <= MAX_IMAGE_DIM as int,
        pix < limit,
        0 <= jitter <= SCALE,
    ensures
        r as int == sample_coord(pix as int, jitter as int, limit as int),
{
    proof {
        assert(0 <= (pix as int) * (SCALE as int) && (pix as int) * (SCALE as int) + SCALE as int
            <= i64::MAX as int) by (nonlinear_arith)
            requires
                0 <= pix as int <= 549755813886int,
                SCALE as int == 16777216,
        ;
    }
    let num: i64 = (pix as i64) * SCALE + jitter;
    sat_i128(tdiv_i128(num as i128, (limit as i128) - 1))
}

/// One radiance sample of pixel `(i, j)`: trace the primary ray through
/// the jittered sample point.  With the explicit jitter this function
/// is the deterministic core of the sampling loop; the zero-recursion
/// and miss cases are pinned exactly, and on a scene of fuzzless metals
/// the whole sample is the mathematical function of its arguments.
pub fn trace_pixel(
    world: &HittableList,
    camera: &Camera,
    i: usize,
    j: usize,
    image_width: usize,
    image_height: usize,
    ju: i64,
    jv: i64,
    depth: usize,
) -> (r: Colour)
    requires
        world.well_formed(),
        camera.wf(),
        1 < image_width,
        image_width as int <= MAX_IMAGE_DIM as int,
        1 < image_height,
        image_height as int <= MAX_IMAGE_DIM as int,
        i < image_width,
        j < image_height,
        0 <= ju <= SCALE,
        0 <= jv <= SCALE,
    ensures
        r.wf(),
        depth == 0 ==> r == (Vec3 { x: 0i64, y: 0i64, z: 0i64 }),
        (depth > 0 && scene_hit_spec(
            world.objects@,
            primary_ray_spec(
                *camera,
                i as int,
                ju as int,
                image_width as int,
                j as int,
                jv as int,
                image_height as int,
            ),
            T_MIN as int,
            FX_MAX as int,
        ) is None) ==> r == sky_spec(
            primary_ray_spec(
                *camera,
                i as int,
                ju as int,
                image_width as int,
                j as int,
                jv as int,
                image_height as int,
            ),
        ),
        scene_deterministic(world.objects@) ==> r == ray_colour_spec(
            world.objects@,
            primary_ray_spec(
                *camera,
                i as int,
                ju as int,
                image_width as int,
                j as int,
                jv as int,
                image_height as int,
            ),
            depth as nat,
        ),
{
    let u = sample_coord_fx(i, ju, image_width);
    let v = sample_coord_fx(j, jv, image_height);
    let ray = camera.get_ray(u, v);
    ray_colour(ray, world, depth)
}

/// The accumulated radiance of `samples_per_pixel` independent jittered
/// samples of pixel `(i, j)`; the jitters come from the thread-local
/// randomness source.  On a scene of fuzzless metals the result is the
/// ordered sum of per-sample estimates for the jitters that were drawn.
pub fn pixel_colour(
    world: &HittableList,
    camera: &Camera,
    i: usize,
    j: usize,
    image_width: usize,
    image_height: usize,
    samples_per_pixel: usize,
    depth: usize,
) -> (r: Colour)
    requires
        world.well_formed(),
        camera.wf(),
        1 < image_width,
        image_width as int <= MAX_IMAGE_DIM as int,
        1 < image_height,
        image_height as int <= MAX_IMAGE_DIM as int,
        i < image_width,
        j < image_height,
    ensures
        r.wf(),
        samples_per_pixel == 0 ==> r == (Vec3 { x: 0i64, y: 0i64, z: 0i64 }),
        scene_deterministic(world.objects@) ==> exists|jitters: Seq<(i64, i64)>|
            jitters_ok(jitters, samples_per_pixel as int) && r == sample_sum_spec(
                world.objects@,
                *camera,
                i as int,
                j as int,
                image_width as int,
                image_height as int,
                jitters,
                depth as nat,
            ),
{
    let mut acc = Vec3::zero();
    let ghost mut jitters: Seq<(i64, i64)> = Seq::empty();
    let mut sample: usize = 0;
    while sample < samples_per_pixel
        invariant
            acc.wf(),
            samples_per_pixel == 0 ==> acc == (Vec3 { x: 0i64, y: 0i64, z: 0i64 }),
            sample <= samples_per_pixel,
            jitters_ok(jitters, sample as int),
            scene_deterministic(world.objects@) ==> acc == sample_sum_spec(
                world.objects@,
                *camera,
                i as int,
                j as int,
                image_width as int,
                image_height as int,
                jitters,
                depth as nat,
            ),
            world.well_formed(),
            camera.wf(),
            1 < image_width,
            image_width as int <= MAX_IMAGE_DIM as int,
            1 < image_height,
            image_height as int <= MAX_IMAGE_DIM as int,
            i < image_width,
            j < image_height,
        decreases samples_per_pixel - sample,
    {
        let ju = rand_range_i64(0, SCALE);
        let jv = rand_range_i64(0, SCALE);
        let c = trace_pixel(world, camera, i, j, image_width, image_height, ju, jv, depth);
        proof {
            let prev = jitters;
            jitters = jitters.push((ju, jv));
            assert(jitters.drop_last() =~= prev);
            assert(jitters.last() == (ju, jv));
            assert forall|k: int|
                0 <= k < jitters.len() implies 0 <= (#[trigger] jitters[k]).0 < SCALE && 0
                    <= jitters[k].1 < SCALE by {
                if k < prev.len() {
                    assert(jitters[k] == prev[k]);
                } else {
                    assert(jitters[k] == (ju, jv));
                }
            }
        }
        acc = acc.add(c);
        sample = sample + 1;
    }
    proof {
        if scene_deterministic(world.objects@) {
            assert(jitters_ok(jitters, samples_per_pixel as int) && acc == sample_sum_spec(
                world.objects@,
                *camera,
                i as int,
                j as int,
                image_width as int,
                image_height as int,
                jitters,
                depth as nat,
            ));
        }
    }
    acc
}

/// One raster row: the formatted pixels of row `j`, columns left to
/// right.  Each element is the raster line of a well-formed accumulated
/// colour, and on a scene of fuzzless metals the line of pixel
/// `(k, j)` for some drawn jitters.
pub fn render_row(
    world: &HittableList,
    camera: &Camera,
    j: usize,
    image_width: usize,
    image_height: usize,
    samples_per_pixel: usize,
    depth: usize,
) -> (r: Vec<String>)
    requires
        world.well_formed(),
        camera.wf(),
        1 < image_width,
        image_width as int <= MAX_IMAGE_DIM as int,
        1 < image_height,
        image_height as int <= MAX_IMAGE_DIM as int,
        j < image_height,
        1 <= samples_per_pixel <= 0x7fff_ffff_ffff_ffff,
    ensures
        r@.len() == image_width as int,
        forall|k: int|
            0 <= k < r@.len() ==> exists|c: Colour|
                c.wf() && (#[trigger] r@[k])@ == pixel_line_spec(c, samples_per_pixel as int),
        scene_deterministic(world.objects@) ==> forall|k: int|
            0 <= k < r@.len() ==> is_pixel_line(
                (#[trigger] r@[k])@,
                world.objects@,
                *camera,
                k,
                j as int,
                image_width as int,
                image_height as int,
                samples_per_pixel as int,
                depth as nat,
            ),
{
    let mut row: Vec<String> = Vec::new();
    let mut i: usize = 0;
    while i < image_width
        invariant
            row@.len() == i as int,
            i <= image_width,
            forall|k: int|
                0 <= k < row@.len() ==> exists|c: Colour|
                    c.wf() && (#[trigger] row@[k])@ == pixel_line_spec(
                        c,
                        samples_per_pixel as int,
                    ),
            scene_deterministic(world.objects@) ==> forall|k: int|
                0 <= k < row@.len() ==> is_pixel_line(
                    (#[trigger] row@[k])@,
                    world.objects@,
                    *camera,
                    k,
                    j as int,
                    image_width as int,
                    image_height as int,
                    samples_per_pixel as int,
                    depth as nat,
                ),
            world.well_formed(),
            camera.wf(),
            1 < image_width,
            image_width as int <= MAX_IMAGE_DIM as int,
            1 < image_height,
            image_height as int <= MAX_IMAGE_DIM as int,
            j < image_height,
            1 <= samples_per_pixel <= 0x7fff_ffff_ffff_ffff,
        decreases image_width - i,
    {
        let c = pixel_colour(
            world,
            camera,
            i,
            j,
            image_width,
            image_height,
            samples_per_pixel,
            depth,
        );
        let line = c.to_string(samples_per_pixel);
        let ghost prev = row@;
        row.push(line);
        proof {
            assert forall|k: int|
                0 <= k < row@.len() implies exists|cc: Colour|
                    cc.wf() && (#[trigger] row@[k])@ == pixel_line_spec(
                        cc,
                        samples_per_pixel as int,
                    ) by {
                if k < prev.len() {
                    assert(row@[k] == prev[k]);
                } else {
                    assert(row@[k]@ == pixel_line_spec(c, samples_per_pixel as int));
                }
            }
            if scene_deterministic(world.objects@) {
                assert(is_pixel_line(
                    line@,
                    world.objects@,
                    *camera,
                    i as int,
                    j as int,
                    image_width as int,
                    image_height as int,
                    samples_per_pixel as int,
                    depth as nat,
                ));
                assert forall|k: int|
                    0 <= k < row@.len() implies is_pixel_line(
                        (#[trigger] row@[k])@,
                        world.objects@,
                        *camera,
                        k,
                        j as int,
                        image_width as int,
                        image_height as int,
                        samples_per_pixel as int,
                        depth as nat,
                    ) by {
                    if k < prev.len() {
                        assert(row@[k] == prev[k]);
                    } else {
                        assert(row@[k] == line);
                    }
                }
            }
        }
        i = i + 1;
    }
    row
}

/// The whole raster: `image_width * image_height` formatted pixels,
/// rows from `j = image_height - 1` down to `0`, columns left to right.
/// Every element is the raster line of a well-formed accumulated
/// colour, and on a scene of fuzzless metals the element at
/// `raster_index(width, height, i, j)` is a line of pixel `(i, j)`:
/// the external raster format's scan order, whatever order the pixels
/// were evaluated in.
#[verifier::rlimit(60)]
pub fn render(
    world: &HittableList,
    camera: &Camera,
    image_width: usize,
    image_height: usize,
    samples_per_pixel: usize,
    depth: usize,
) -> (r: Vec<String>)
    requires
        world.well_formed(),
        camera.wf(),
        1 < image_width,
        image_width as int <= MAX_IMAGE_DIM as int,
        1 < image_height,
        image_height as int <= MAX_IMAGE_DIM as int,
        1 <= samples_per_pixel <= 0x7fff_ffff_ffff_ffff,
        image_width * image_height <= usize::MAX,
    ensures
        r@.len() == image_width as int * image_height as int,
        forall|k: int|
            0 <= k < r@.len() ==> exists|c: Colour|
                c.wf() && (#[trigger] r@[k])@ == pixel_line_spec(c, samples_per_pixel as int),
        scene_deterministic(world.objects@) ==> forall|i: int, j: int|
            0 <= i < image_width as int && 0 <= j < image_height as int ==> is_pixel_line(
                r@[#[trigger] raster_index(image_width as int, image_height as int, i, j)]@,
                world.objects@,
                *camera,
                i,
                j,
                image_width as int,
                image_height as int,
                samples_per_pixel as int,
                depth as nat,
            ),
{
    let mut out: Vec<String> = Vec::new();
    let mut remaining: usize = image_height;
    while remaining > 0
        invariant
            remaining <= image_height,
            out@.len() == (image_height - remaining) * image_width as int,
            forall|k: int|
                0 <= k < out@.len() ==> exists|c: Colour|
                    c.wf() && (#[trigger] out@[k])@ == pixel_line_spec(
                        c,
                        samples_per_pixel as int,
                    ),
            scene_deterministic(world.objects@) ==> forall|i: int, j: int|
                0 <= i < image_width as int && remaining as int <= j < image_height as int
                    ==> is_pixel_line(
                    out@[#[trigger] raster_index(image_width as int, image_height as int, i, j)]@,
                    world.objects@,
                    *camera,
                    i,
                    j,
                    image_width as int,
                    image_height as int,
                    samples_per_pixel as int,
                    depth as nat,
                ),
            world.well_formed(),
            camera.wf(),
            1 < image_width,
            image_width as int <= MAX_IMAGE_DIM as int,
            1 < image_height,
            image_height as int <= MAX_IMAGE_DIM as int,
            1 <= samples_per_pixel <= 0x7fff_ffff_ffff_ffff,
        decreases remaining,
    {
        let ghost prev = out@;
        let mut row = render_row(
            world,
            camera,
            remaining - 1,
            image_width,
            image_height,
            samples_per_pixel,
            depth,
        );
        let ghost row_lines = row@;
        out.append(&mut row);
        proof {
            let w = image_width as int;
            let h = image_height as int;
            let jr = remaining as int - 1;
            assert((h - (remaining as int - 1)) * w == (h - remaining as int) * w + w)
                by (nonlinear_arith);
            assert(out@ =~= prev + row_lines);
            assert forall|k: int|
                0 <= k < out@.len() implies exists|c: Colour|
                    c.wf() && (#[trigger] out@[k])@ == pixel_line_spec(
                        c,
                        samples_per_pixel as int,
                    ) by {
                if k < prev.len() {
                    assert(out@[k] == prev[k]);
                } else {
                    assert(out@[k] == row_lines[k - prev.len()]);
                }
            }
            if scene_deterministic(world.objects@) {
                assert forall|i: int, j: int|
                    0 <= i < w && jr <= j < h implies is_pixel_line(
                        out@[#[trigger] raster_index(w, h, i, j)]@,
                        world.objects@,
                        *camera,
                        i,
                        j,
                        w,
                        h,
                        samples_per_pixel as int,
                        depth as nat,
                    ) by {
                    let idx = raster_index(w, h, i, j);
                    if j == jr {
                        assert(idx == prev.len() + i);
                        assert(out@[idx] == row_lines[i]);
                    } else {
                        assert((h - 1 - j) * w + w <= (h - 1 - jr) * w) by (nonlinear_arith)
                            requires
                                j >= jr + 1,
                                w > 0,
                        ;
                        assert((h - 1 - j) * w >= 0) by (nonlinear_arith)
                            requires
                                j <= h - 1,
                                w > 0,
                        ;
                        assert(0 <= idx < prev.len());
                        assert(out@[idx] == prev[idx]);
                    }
                }
            }
        }
        remaining = remaining - 1;
    }
    proof {
        assert(image_height as int * image_width as int == image_width as int
            * image_height as int) by (nonlinear_arith);
    }
    out
}

} // verus!
