//! Materials: what becomes of a ray at a surface.

use vstd::prelude::*;
use crate::hittable::HitRecord;
use crate::ray::Ray;
use crate::scalar::below;
use crate::scalar::less;
use crate::scalar::not_above;
use crate::scalar::ONE;
use crate::vec::Color3;
use crate::vec::Vec3;

verus! {

/// A scattered ray and the colour by which it dims what it brings back.
#[derive(Debug, Clone, Copy, PartialEq, Eq, Structural)]
pub struct ScatterRecord {
    pub scattered: Ray,
    pub attenuation: Color3,
}

impl ScatterRecord {
    fn new(scattered: Ray, attenuation: Color3) -> (r: ScatterRecord)
        ensures
            r == (ScatterRecord { scattered, attenuation }),
    {
        ScatterRecord { scattered, attenuation }
    }
}

/// The ray that leaves the hit point in `direction`, at the time of the ray
/// that came in.
pub open spec fn leaving(ray_in: Ray, hit: HitRecord, direction: Vec3) -> Ray {
    Ray { origin: hit.p, dir: direction, tm: ray_in.tm }
}

/// A material turns a ray that hit a surface into a scattered ray, or
/// absorbs it.
///
/// `direction` is the direction that the material's rule gives the outgoing
/// ray; each material says below how it is to be computed.
pub trait Material: core::fmt::Debug + Send + Sync {
    /// What [`Material::scatter`] answers.
    spec fn scattered(&self, ray_in: Ray, hit: HitRecord, direction: Vec3) -> Option<ScatterRecord>;

    /// The scattered ray and its attenuation, or `None` where the ray is
    /// absorbed.
    fn scatter(&self, ray_in: &Ray, hit_record: &HitRecord, direction: Vec3) -> (r: Option<
        ScatterRecord,
    >)
        ensures
            r == self.scattered(*ray_in, *hit_record, direction),
    ;
}

/// A diffuse surface.
#[derive(Debug, Clone, Copy)]
pub struct Lambertian {
    albedo: Color3,
}

impl Lambertian {
    pub closed spec fn spec_albedo(&self) -> Color3 {
        self.albedo
    }

    pub fn new(albedo: Color3) -> (m: Lambertian)
        ensures
            m.spec_albedo() == albedo,
    {
        Lambertian { albedo }
    }

    pub fn albedo(&self) -> (c: Color3)
        ensures
            c == self.spec_albedo(),
    {
        self.albedo
    }
}

impl Material for Lambertian {
    /// `direction` is the sum of the surface normal and a unit vector drawn
    /// uniformly. Where that sum is too short to be a direction, the ray
    /// leaves along the normal. The attenuation is always the albedo.
    open spec fn scattered(&self, ray_in: Ray, hit: HitRecord, direction: Vec3) -> Option<
        ScatterRecord,
    > {
        Some(
            ScatterRecord {
                scattered: leaving(
                    ray_in,
                    hit,
                    if direction.spec_near_zero() {
                        hit.normal
                    } else {
                        direction
                    },
                ),
                attenuation: self.spec_albedo(),
            },
        )
    }

    fn scatter(&self, ray_in: &Ray, hit_record: &HitRecord, direction: Vec3) -> (r: Option<
        ScatterRecord,
    >) {
        let mut scatter_direction: Vec3 = direction;
        if scatter_direction.near_zero() {
            scatter_direction = hit_record.normal;
        }
        let scattered: Ray = Ray::new_time(hit_record.p, scatter_direction, ray_in.tm);
        Some(ScatterRecord::new(scattered, self.albedo))
    }
}

/// A mirroring surface, blurred by `fuzz`.
#[derive(Debug, Clone, Copy)]
pub struct Metal {
    albedo: Color3,
    fuzz: i64,
}

impl Metal {
    pub closed spec fn spec_albedo(&self) -> Color3 {
        self.albedo
    }

    pub closed spec fn spec_fuzz(&self) -> i64 {
        self.fuzz
    }

    /// The fuzz is a number and not negative.
    pub open spec fn wf(&self) -> bool {
        not_above(0, self.spec_fuzz() as int)
    }

    pub fn new(albedo: Color3, fuzz: i64) -> (m: Metal)
        requires
            not_above(0, fuzz as int),
        ensures
            m.spec_albedo() == albedo,
            m.spec_fuzz() == fuzz,
            m.wf(),
    {
        Metal { albedo, fuzz }
    }

    pub fn albedo(&self) -> (c: Color3)
        ensures
            c == self.spec_albedo(),
    {
        self.albedo
    }

    pub fn fuzz(&self) -> (f: i64)
        ensures
            f == self.spec_fuzz(),
    {
        self.fuzz
    }

    /// Whether the mirrored direction is to be perturbed: only a positive
    /// fuzz does that.
    pub fn is_fuzzy(&self) -> (b: bool)
        ensures
            b == below(0, self.spec_fuzz() as int),
    {
        less(0, self.fuzz)
    }
}

impl Material for Metal {
    /// `direction` is the unit mirror image of the incoming direction at the
    /// surface, to which `fuzz` times a unit vector drawn uniformly has been
    /// added where [`Metal::is_fuzzy`]. A direction that points into the
    /// surface is not rejected. The attenuation is always the albedo.
    open spec fn scattered(&self, ray_in: Ray, hit: HitRecord, direction: Vec3) -> Option<
        ScatterRecord,
    > {
        Some(
            ScatterRecord {
                scattered: leaving(ray_in, hit, direction),
                attenuation: self.spec_albedo(),
            },
        )
    }

    fn scatter(&self, ray_in: &Ray, hit_record: &HitRecord, direction: Vec3) -> (r: Option<
        ScatterRecord,
    >) {
        let scattered: Ray = Ray::new_time(hit_record.p, direction, ray_in.tm);
        Some(ScatterRecord::new(scattered, self.albedo))
    }
}

/// A clear surface that refracts.
#[derive(Debug, Clone, Copy)]
pub struct Dielectric {
    refraction_index: i64,
}

impl Dielectric {
    pub closed spec fn spec_refraction_index(&self) -> i64 {
        self.refraction_index
    }

    pub fn new(refraction_index: i64) -> (m: Dielectric)
        ensures
            m.spec_refraction_index() == refraction_index,
    {
        Dielectric { refraction_index }
    }

    pub fn refraction_index(&self) -> (n: i64)
        ensures
            n == self.spec_refraction_index(),
    {
        self.refraction_index
    }

    /// The ratio of refraction indices that a ray meets at `hit_record`:
    /// `inverse`, which is to be one over the material's index, where the ray
    /// enters through the front face, and the index itself where it leaves.
    pub fn refraction_ratio(&self, hit_record: &HitRecord, inverse: i64) -> (ratio: i64)
        ensures
            ratio == if hit_record.is_front_face {
                inverse
            } else {
                self.spec_refraction_index()
            },
    {
        if hit_record.is_front_face {
            inverse
        } else {
            self.refraction_index
        }
    }

    /// Whether the ray is mirrored rather than refracted. `ratio_sine` is the
    /// refraction ratio times the sine of the angle of incidence: above one
    /// there is no refracted ray, and nothing is drawn. Otherwise a number
    /// is drawn by `draw`, uniformly from `[0, 1)`, and the ray is mirrored
    /// where `reflectance`, the share of light that the surface reflects at
    /// that angle, exceeds it.
    pub fn reflects<D: Fn() -> i64>(ratio_sine: i64, reflectance: i64, draw: &D) -> (b: bool)
        requires
            !below(ONE as int, ratio_sine as int) ==> draw.requires(()),
        ensures
            if below(ONE as int, ratio_sine as int) {
                b
            } else {
                exists|drawn: i64|
                    draw.ensures((), drawn) && b == #[trigger] below(drawn as int, reflectance as int)
            },
    {
        let cannot_refract: bool = less(ONE, ratio_sine);
        if cannot_refract {
            return true;
        }
        let drawn: i64 = draw();
        less(drawn, reflectance)
    }
}

impl Material for Dielectric {
    /// `direction` is the mirrored direction where [`Dielectric::reflects`],
    /// and the refracted one otherwise. Nothing is absorbed: the attenuation
    /// is white.
    open spec fn scattered(&self, ray_in: Ray, hit: HitRecord, direction: Vec3) -> Option<
        ScatterRecord,
    > {
        Some(
            ScatterRecord {
                scattered: leaving(ray_in, hit, direction),
                attenuation: Vec3 { x: ONE, y: ONE, z: ONE },
            },
        )
    }

    fn scatter(&self, ray_in: &Ray, hit_record: &HitRecord, direction: Vec3) -> (r: Option<
        ScatterRecord,
    >) {
        let scattered: Ray = Ray::new_time(hit_record.p, direction, ray_in.tm);
        Some(ScatterRecord::new(scattered, Color3::new(ONE, ONE, ONE)))
    }
}

/// A diffuse surface never changes its colour: whatever ray comes in and
/// wherever it goes, the attenuation is the albedo, and the ray is never
/// absorbed.
pub proof fn lemma_lambertian_attenuation(m: Lambertian, ray_in: Ray, hit: HitRecord, direction: Vec3)
    ensures
        m.scattered(ray_in, hit, direction) is Some,
        m.scattered(ray_in, hit, direction)->0.attenuation == m.spec_albedo(),
        direction.spec_near_zero() ==> m.scattered(ray_in, hit, direction)->0.scattered.dir
            == hit.normal,
{
}

} // verus!
