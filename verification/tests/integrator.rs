use raytracer::intersection::Intersection;
use raytracer::material::Material;
use raytracer::math::{Point3, Vec3};
use raytracer::ray::Ray;
use raytracer::renderer::{closer, closest, color, color_rec, Outcome, MAX_DEPTH};
use raytracer::shape::{Scene, Shape};

fn bits(x: f32) -> u32 {
    x.to_bits()
}

fn vec3(x: f32, y: f32, z: f32) -> Vec3 {
    Vec3 { x: bits(x), y: bits(y), z: bits(z) }
}

fn point3(x: f32, y: f32, z: f32) -> Point3 {
    Point3 { x: bits(x), y: bits(y), z: bits(z) }
}

#[derive(Clone, Copy)]
struct Coat {
    tint: Vec3,
    reflects: bool,
}

impl Material for Coat {
    fn albedo(&self) -> Vec3 {
        self.tint
    }

    fn scatters(&self, ray: Ray, intersection: Intersection, out: Option<Ray>) -> bool {
        out == self.scatter(&ray, &intersection)
    }

    fn scatter(&self, ray: &Ray, intersection: &Intersection) -> Option<Ray> {
        if self.reflects {
            Some(Ray { origin: intersection.point, direction: ray.direction })
        } else {
            None
        }
    }

    fn color(&self) -> Vec3 {
        self.tint
    }
}

struct Wall {
    t: Option<f32>,
    coat: Coat,
}

impl Shape for Wall {
    type Surface = Coat;

    fn meets(&self, ray: Ray) -> Option<Intersection> {
        self.hit(&ray)
    }

    fn surface(&self, _intersection: Intersection) -> Coat {
        self.coat
    }

    fn hit(&self, _ray: &Ray) -> Option<Intersection> {
        self.t.map(|t| Intersection {
            point: point3(0., 0., t),
            normal: vec3(0., 0., 1.),
            t: bits(t),
        })
    }

    fn material_at(&self, _intersection: &Intersection) -> &Coat {
        &self.coat
    }
}

fn mirror(t: Option<f32>) -> Wall {
    Wall { t, coat: Coat { tint: vec3(0.5, 0.5, 0.5), reflects: true } }
}

fn tinted(t: f32, tint: Vec3, reflects: bool) -> Wall {
    Wall { t: Some(t), coat: Coat { tint, reflects } }
}

fn down_z() -> Ray {
    Ray { origin: point3(0., 0., 3.), direction: vec3(0., 0., -1.) }
}

#[test]
fn closer_wants_a_meeting_ahead_and_nearer() {
    assert!(closer(None, bits(2.)));
    assert!(closer(None, bits(f32::INFINITY)));
    assert!(!closer(None, bits(0.)));
    assert!(!closer(None, bits(-1.)));
    assert!(!closer(None, bits(f32::NAN)));
    assert!(closer(Some(bits(3.)), bits(2.)));
    assert!(!closer(Some(bits(2.)), bits(2.)));
    assert!(!closer(Some(bits(2.)), bits(3.)));
    assert!(!closer(Some(bits(2.)), bits(-3.)));
}

#[test]
fn closest_takes_the_nearest_ahead() {
    let scene = Scene {
        shapes: vec![
            mirror(Some(5.)),
            mirror(None),
            mirror(Some(2.)),
            mirror(Some(-1.)),
            mirror(Some(2.)),
            mirror(Some(0.)),
        ],
    };
    let (i, h) = closest(&down_z(), &scene).unwrap();
    assert_eq!(i, 2);
    assert_eq!(h.t, bits(2.));
    assert_eq!(h.point, point3(0., 0., 2.));
}

#[test]
fn closest_finds_nothing_behind_the_origin() {
    let scene = Scene { shapes: vec![mirror(Some(-5.)), mirror(None), mirror(Some(0.))] };
    assert!(closest(&down_z(), &scene).is_none());
    let empty: Scene<Wall> = Scene { shapes: vec![] };
    assert!(closest(&down_z(), &empty).is_none());
}

#[test]
fn a_ray_that_meets_nothing_escapes() {
    let empty: Scene<Wall> = Scene { shapes: vec![] };
    let path = color_rec(&down_z(), &empty, 5);
    assert_eq!(path.albedos.len(), 0);
    assert_eq!(path.end, Outcome::Escaped);
    assert_eq!(path.last, down_z());
}

#[test]
fn below_depth_zero_there_is_no_light() {
    let scene = Scene { shapes: vec![mirror(Some(1.))] };
    let path = color_rec(&down_z(), &scene, -1);
    assert_eq!(path.albedos.len(), 0);
    assert_eq!(path.end, Outcome::Absorbed);
    assert_eq!(path.last, down_z());
}

#[test]
fn facing_mirrors_stop_at_the_depth() {
    let scene = Scene { shapes: vec![mirror(Some(1.)), mirror(Some(4.))] };
    for depth in 0..9 {
        let path = color_rec(&down_z(), &scene, depth);
        assert_eq!(path.albedos.len(), depth as usize + 1);
        assert_eq!(path.end, Outcome::Absorbed);
    }
    let path = color(&down_z(), &scene);
    assert_eq!(path.albedos.len(), MAX_DEPTH as usize + 1);
    assert_eq!(path.end, Outcome::Absorbed);
}

#[test]
fn an_absorbing_surface_ends_the_path() {
    let scene = Scene {
        shapes: vec![tinted(3., vec3(1., 0., 0.), true), tinted(2., vec3(0., 1., 0.), false)],
    };
    let path = color_rec(&down_z(), &scene, 10);
    assert_eq!(path.albedos.len(), 0);
    assert_eq!(path.end, Outcome::Absorbed);
}

#[test]
fn the_path_keeps_the_albedos_in_order() {
    struct Once {
        coat: Coat,
    }
    impl Shape for Once {
        type Surface = Coat;

        fn meets(&self, ray: Ray) -> Option<Intersection> {
            self.hit(&ray)
        }

        fn surface(&self, _intersection: Intersection) -> Coat {
            self.coat
        }

        fn hit(&self, ray: &Ray) -> Option<Intersection> {
            if ray.origin == point3(0., 0., 3.) {
                Some(Intersection { point: point3(0., 0., 1.), normal: vec3(0., 0., 1.), t: bits(2.) })
            } else {
                None
            }
        }

        fn material_at(&self, _intersection: &Intersection) -> &Coat {
            &self.coat
        }
    }
    let scene = Scene { shapes: vec![Once { coat: Coat { tint: vec3(0.5, 0.25, 1.), reflects: true } }] };
    let path = color_rec(&down_z(), &scene, 10);
    assert_eq!(path.albedos, vec![vec3(0.5, 0.25, 1.)]);
    assert_eq!(path.end, Outcome::Escaped);
    assert_eq!(path.last, Ray { origin: point3(0., 0., 1.), direction: vec3(0., 0., -1.) });
}

#[test]
fn tints_come_from_the_scene() {
    let red = vec3(1., 0., 0.);
    let grey = vec3(0.5, 0.5, 0.5);
    let scene = Scene { shapes: vec![tinted(3., red, true), tinted(7., grey, true)] };
    let path = color_rec(&down_z(), &scene, 4);
    assert_eq!(path.albedos, vec![red; 5]);
    for tint in &path.albedos {
        assert!(f32::from_bits(tint.x) >= 0.);
        assert!(f32::from_bits(tint.y) >= 0.);
        assert!(f32::from_bits(tint.z) >= 0.);
    }
}
