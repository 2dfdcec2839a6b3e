use nalgebra::{Isometry3, Point3 as Point, Vector3};
use raytracer::intersection::Intersection;
use raytracer::material::{Material, Metal};
use raytracer::math::{Point3, Vec3};
use raytracer::ray::Ray;
use raytracer::renderer::{color_rec, LightPath, Outcome};
use raytracer::shape::{Scene, Shape};
use raytracer::sphere::hit;

fn vec3(v: &Vector3<f32>) -> Vec3 {
    Vec3 { x: v.x.to_bits(), y: v.y.to_bits(), z: v.z.to_bits() }
}

fn point3(p: &Point<f32>) -> Point3 {
    Point3 { x: p.x.to_bits(), y: p.y.to_bits(), z: p.z.to_bits() }
}

fn vector(v: Vec3) -> Vector3<f32> {
    Vector3::new(f32::from_bits(v.x), f32::from_bits(v.y), f32::from_bits(v.z))
}

fn point(p: Point3) -> Point<f32> {
    Point::new(f32::from_bits(p.x), f32::from_bits(p.y), f32::from_bits(p.z))
}

#[derive(Clone, Copy)]
struct Mirror {
    metal: Metal,
}

impl Material for Mirror {
    fn albedo(&self) -> Vec3 {
        self.metal.color()
    }

    fn scatters(&self, ray: Ray, intersection: Intersection, out: Option<Ray>) -> bool {
        out == self.scatter(&ray, &intersection)
    }

    fn scatter(&self, ray: &Ray, intersection: &Intersection) -> Option<Ray> {
        let normal = vector(intersection.normal);
        let d = vector(ray.direction).normalize();
        let r = (d - (2.0 * normal.dot(&d)) * normal).normalize();
        let reflected = Ray { origin: intersection.point, direction: vec3(&r) };
        self.metal.scatter(reflected, r.dot(&normal).to_bits())
    }

    fn color(&self) -> Vec3 {
        self.metal.color()
    }
}

struct Ball {
    radius: f32,
    object_to_world: Isometry3<f32>,
    world_to_object: Isometry3<f32>,
    surface: Mirror,
}

fn ball(z: f32, tint: [f32; 3]) -> Ball {
    let object_to_world = Isometry3::translation(0., 0., z);
    Ball {
        radius: 1.,
        object_to_world,
        world_to_object: object_to_world.inverse(),
        surface: Mirror { metal: Metal { color: vec3(&Vector3::new(tint[0], tint[1], tint[2])) } },
    }
}

impl Shape for Ball {
    type Surface = Mirror;

    fn meets(&self, ray: Ray) -> Option<Intersection> {
        self.hit(&ray)
    }

    fn surface(&self, _intersection: Intersection) -> Mirror {
        self.surface
    }

    fn hit(&self, ray: &Ray) -> Option<Intersection> {
        let local = ray.transform(
            |p| point3(&self.world_to_object.transform_point(&point(p))),
            |v| vec3(&self.world_to_object.transform_vector(&vector(v))),
        );
        let o = point(local.origin).coords;
        let d = vector(local.direction);
        let b = 2.0 * d.dot(&o);
        let c = o.dot(&o) - self.radius * self.radius;
        let discriminant = b * b - 4.0 * c;
        let q = -0.5 * (b - b.signum() * discriminant.sqrt());
        let t = f32::from_bits(hit(discriminant.to_bits(), q.to_bits(), (c / q).to_bits())?);
        let at = Point::from(o + d * t);
        let normal = self.object_to_world.transform_vector(&at.coords.normalize()).normalize();
        Some(Intersection {
            point: point3(&self.object_to_world.transform_point(&at)),
            normal: vec3(&normal),
            t: t.to_bits(),
        })
    }

    fn material_at(&self, _intersection: &Intersection) -> &Mirror {
        &self.surface
    }
}

fn sky(direction: Vec3) -> Vector3<f32> {
    let d = vector(direction).normalize();
    let t = 0.5 * (d.y + 1.0);
    ((1.0 - t) * Vector3::new(1.0, 1.0, 1.0)) + (t * Vector3::new(0.5, 0.7, 1.0))
}

fn light(path: &LightPath) -> Vector3<f32> {
    let mut color = match path.end {
        Outcome::Absorbed => Vector3::zeros(),
        Outcome::Escaped => sky(path.last.direction),
    };
    for albedo in path.albedos.iter().rev() {
        color = vector(*albedo).component_mul(&color);
    }
    color
}

fn ray(origin: [f32; 3], direction: [f32; 3]) -> Ray {
    Ray {
        origin: point3(&Point::new(origin[0], origin[1], origin[2])),
        direction: vec3(&Vector3::new(direction[0], direction[1], direction[2])),
    }
}

#[test]
fn a_sphere_is_met_head_on() {
    let scene = Scene { shapes: vec![ball(0., [1., 0., 0.])] };
    let met = scene.shapes[0].hit(&ray([0., 0., 3.], [0., 0., -1.])).unwrap();
    assert_eq!(f32::from_bits(met.t), 2.);
    assert_eq!(point(met.point), Point::new(0., 0., 1.));
    assert_eq!(vector(met.normal), Vector3::new(0., 0., 1.));
    assert!(scene.shapes[0].hit(&ray([0., 0., 3.], [1., 0., 0.])).is_none());
    assert!(scene.shapes[0].hit(&ray([0., 0., 3.], [0., 0., 1.])).is_none());
}

#[test]
fn facing_mirrors_give_no_light_after_the_last_bounce() {
    let scene = Scene { shapes: vec![ball(-3., [1., 1., 1.]), ball(3., [1., 1., 1.])] };
    let path = color_rec(&ray([0., 0., 0.], [0., 0., 1.]), &scene, 3);
    assert_eq!(path.albedos.len(), 4);
    assert_eq!(path.end, Outcome::Absorbed);
    assert_eq!(point(path.last.origin), Point::new(0., 0., -2.));
    assert_eq!(vector(path.last.direction), Vector3::new(0., 0., 1.));
    assert_eq!(light(&path), Vector3::new(0., 0., 0.));
}

#[test]
fn the_nearest_of_three_tints_the_sky() {
    let scene = Scene {
        shapes: vec![ball(0., [1., 0., 0.]), ball(5., [0.5, 0.5, 0.5]), ball(-5., [0., 0., 1.])],
    };
    let path = color_rec(&ray([0., 0., 10.], [0., 0., -1.]), &scene, 1);
    assert_eq!(path.albedos, vec![vec3(&Vector3::new(0.5, 0.5, 0.5))]);
    assert_eq!(path.end, Outcome::Escaped);
    assert_eq!(point(path.last.origin), Point::new(0., 0., 6.));
    assert_eq!(vector(path.last.direction), Vector3::new(0., 0., 1.));
    assert!((light(&path) - Vector3::new(0.375, 0.425, 0.5)).norm() < 1e-6);
}

#[test]
fn a_mirror_absorbs_a_ray_from_inside() {
    let scene = Scene { shapes: vec![ball(0., [1., 1., 1.])] };
    let from_inside = ray([0., 0., 0.], [0., 0., 1.]);
    let met = scene.shapes[0].hit(&from_inside).unwrap();
    assert_eq!(f32::from_bits(met.t), 1.);
    assert_eq!(vector(met.normal), Vector3::new(0., 0., 1.));
    let path = color_rec(&from_inside, &scene, 5);
    assert_eq!(path.albedos.len(), 0);
    assert_eq!(path.end, Outcome::Absorbed);
    assert_eq!(path.last, from_inside);
    assert_eq!(light(&path), Vector3::new(0., 0., 0.));
}

#[test]
fn the_sky_is_blue_above_and_white_below() {
    let empty: Scene<Ball> = Scene { shapes: vec![] };
    let up = color_rec(&ray([0., 0., 0.], [0., 1., 0.]), &empty, 5);
    assert_eq!(up.end, Outcome::Escaped);
    assert_eq!(light(&up), Vector3::new(0.5, 0.7, 1.0));
    let down = color_rec(&ray([0., 0., 0.], [0., -1., 0.]), &empty, 5);
    assert_eq!(down.end, Outcome::Escaped);
    assert_eq!(light(&down), Vector3::new(1., 1., 1.));
}

#[test]
fn no_light_is_below_zero() {
    let scene = Scene {
        shapes: vec![ball(0., [1., 0., 0.]), ball(5., [0.5, 0.5, 0.5]), ball(-5., [0., 0., 1.])],
    };
    for depth in -1..6 {
        for direction in [[0., 0., -1.], [0., 0., 1.], [0., 1., 0.], [0.1, 0., -1.], [0., -0.05, -1.]] {
            let d = Vector3::new(direction[0], direction[1], direction[2]).normalize();
            let seen = light(&color_rec(&ray([0., 0., 10.], [d.x, d.y, d.z]), &scene, depth));
            assert!(seen.x >= 0. && seen.y >= 0. && seen.z >= 0.);
        }
    }
}
