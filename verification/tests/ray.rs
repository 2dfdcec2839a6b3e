use nalgebra::{Isometry3, Point3 as Point, Vector3};
use raytracer::math::{Point3, Vec3};
use raytracer::ray::Ray;

fn vec3(v: &Vector3<f32>) -> Vec3 {
    Vec3 { x: v.x.to_bits(), y: v.y.to_bits(), z: v.z.to_bits() }
}

fn point3(p: &Point<f32>) -> Point3 {
    Point3 { x: p.x.to_bits(), y: p.y.to_bits(), z: p.z.to_bits() }
}

fn vector(v: Vec3) -> Vector3<f32> {
    Vector3::new(f32::from_bits(v.x), f32::from_bits(v.y), f32::from_bits(v.z))
}

fn point(p: Point3) -> Point<f32> {
    Point::new(f32::from_bits(p.x), f32::from_bits(p.y), f32::from_bits(p.z))
}

fn moved(ray: &Ray, by: &Isometry3<f32>) -> Ray {
    ray.transform(
        |p| point3(&by.transform_point(&point(p))),
        |v| vec3(&by.transform_vector(&vector(v))),
    )
}

#[test]
fn a_translation_moves_the_origin_only() {
    let ray = Ray {
        origin: point3(&Point::new(0., 0., 3.)),
        direction: vec3(&Vector3::new(0., 0., -1.)),
    };
    let shifted = moved(&ray, &Isometry3::translation(1., -2., 0.5));
    assert_eq!(point(shifted.origin), Point::new(1., -2., 3.5));
    assert_eq!(vector(shifted.direction), Vector3::new(0., 0., -1.));
}

#[test]
fn a_rotation_turns_origin_and_direction() {
    let ray = Ray {
        origin: point3(&Point::new(1., 0., 0.)),
        direction: vec3(&Vector3::new(1., 0., 0.)),
    };
    let quarter = Isometry3::rotation(Vector3::z() * std::f32::consts::FRAC_PI_2);
    let turned = moved(&ray, &quarter);
    assert!((point(turned.origin) - Point::new(0., 1., 0.)).norm() < 1e-6);
    assert!((vector(turned.direction) - Vector3::new(0., 1., 0.)).norm() < 1e-6);
}

#[test]
fn a_transform_and_its_inverse_cancel() {
    let placements = [
        Isometry3::identity(),
        Isometry3::translation(1., -300.5, -10.),
        Isometry3::new(Vector3::new(3., 4., 1.5), Vector3::new(0.3, -1.2, 2.)),
        Isometry3::look_at_rh(&Point::new(0., 5., 15.), &Point::new(0., 0., 0.), &Vector3::y()),
    ];
    let ray = Ray {
        origin: point3(&Point::new(0.5, -2., 3.)),
        direction: vec3(&Vector3::new(0.6, 0., -0.8)),
    };
    for object_to_world in placements {
        let world_to_object = object_to_world.inverse();
        let back = moved(&moved(&ray, &object_to_world), &world_to_object);
        assert!((point(back.origin) - point(ray.origin)).norm() < 1e-4);
        assert!((vector(back.direction) - vector(ray.direction)).norm() < 1e-5);
    }
}
