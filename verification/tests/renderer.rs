use std::path::Path;
use raytracer::film::Film;
use raytracer::intersection::Intersection;
use raytracer::material::Material;
use raytracer::math::{Point3, Vec3};
use raytracer::raster::Raster;
use raytracer::ray::Ray;
use raytracer::renderer::{quantise, render_scanline, LightPath, Outcome, RenderError, Renderer};
use raytracer::shape::{Scene, Shape};
use std::sync::Arc;

struct Nothing;

impl Material for Nothing {
    fn albedo(&self) -> Vec3 {
        Vec3::zeros()
    }

    fn scatters(&self, _ray: Ray, _intersection: Intersection, out: Option<Ray>) -> bool {
        out.is_none()
    }

    fn scatter(&self, _ray: &Ray, _intersection: &Intersection) -> Option<Ray> {
        None
    }

    fn color(&self) -> Vec3 {
        Vec3::zeros()
    }
}

impl Shape for Nothing {
    type Surface = Nothing;

    fn meets(&self, _ray: Ray) -> Option<Intersection> {
        None
    }

    fn surface(&self, _intersection: Intersection) -> Nothing {
        Nothing
    }

    fn hit(&self, _ray: &Ray) -> Option<Intersection> {
        None
    }

    fn material_at(&self, _intersection: &Intersection) -> &Nothing {
        self
    }
}

fn empty() -> Scene<Nothing> {
    Scene { shapes: vec![] }
}

fn vec3(x: f32, y: f32, z: f32) -> Vec3 {
    Vec3 { x: x.to_bits(), y: y.to_bits(), z: z.to_bits() }
}

fn number(bits: u32) -> f32 {
    f32::from_bits(bits)
}

fn camera(x: u32, y: u32) -> Ray {
    Ray { origin: Point3 { x: 0, y: 0, z: 0 }, direction: vec3(x as f32, y as f32, 0.) }
}

fn gather(sum: Vec3, path: LightPath) -> Vec3 {
    assert_eq!(path.end, Outcome::Escaped);
    let seen = path.last.direction;
    vec3(number(sum.x) + number(seen.x), number(sum.y) + number(seen.y), number(sum.z) + 1.)
}

fn develop(sum: Vec3, samples: u32) -> Vec3 {
    vec3(number(sum.x) / samples as f32, number(sum.y) / samples as f32, number(sum.z))
}

fn line(width: u32, rgb: [u8; 3]) -> Raster {
    let mut raster = Raster::new(width, 1).unwrap();
    for x in 0..width {
        assert!(raster.put(x, 0, rgb));
    }
    raster
}

#[test]
fn a_scanline_holds_what_was_developed() {
    let row = render_scanline(5, 4, 3, &empty(), &camera, &gather, &develop);
    assert_eq!(row.width(), 4);
    assert_eq!(row.height(), 1);
    assert_eq!(row.to_vec(), vec![0, 5, 3, 1, 5, 3, 2, 5, 3, 3, 5, 3]);
}

#[test]
fn a_scanline_without_samples_develops_black() {
    let row = render_scanline(5, 2, 0, &empty(), &camera, &gather, &|sum: Vec3, _n: u32| {
        assert_eq!(sum, Vec3::zeros());
        vec3(300., -4., 9.75)
    });
    assert_eq!(row.to_vec(), vec![255, 0, 9, 255, 0, 9]);
}

#[test]
fn rows_are_handed_out_once_each() {
    let mut renderer = Renderer::new(Film::new(2, 3, 1, Path::new("test").to_path_buf()), Arc::new(empty()));
    assert_eq!(renderer.take_row(), Some(0));
    assert_eq!(renderer.take_row(), Some(1));
    assert_eq!(renderer.take_row(), Some(2));
    assert_eq!(renderer.take_row(), None);
    assert_eq!(renderer.take_row(), None);
    assert!(!renderer.is_done());
}

#[test]
fn rows_are_collected_in_any_order() {
    let mut renderer = Renderer::new(Film::new(2, 3, 1, Path::new("test").to_path_buf()), Arc::new(empty()));
    while renderer.take_row().is_some() {}
    assert_eq!(renderer.collect(2, &line(2, [3, 3, 3])), Ok(33));
    assert!(!renderer.is_done());
    assert_eq!(renderer.collect(0, &line(2, [1, 1, 1])), Ok(66));
    assert!(!renderer.is_done());
    assert_eq!(renderer.collect(1, &line(2, [2, 2, 2])), Ok(100));
    assert!(renderer.is_done());
    assert_eq!(
        renderer.film.to_vec(),
        vec![1, 1, 1, 1, 1, 1, 2, 2, 2, 2, 2, 2, 3, 3, 3, 3, 3, 3]
    );
    assert_eq!(renderer.stored, vec![true, true, true]);
    assert_eq!(renderer.count, 3);
}

#[test]
fn a_row_is_stored_once_only() {
    let mut renderer = Renderer::new(Film::new(2, 3, 1, Path::new("test").to_path_buf()), Arc::new(empty()));
    assert_eq!(renderer.take_row(), Some(0));
    assert_eq!(renderer.collect(0, &line(2, [1, 1, 1])), Ok(33));
    assert_eq!(renderer.collect(0, &line(2, [9, 9, 9])), Err(RenderError::AlreadyStored));
    assert_eq!(renderer.film.pixel(0, 0), Some([1, 1, 1]));
    assert_eq!(renderer.count, 1);
}

#[test]
fn a_row_must_have_been_handed_out() {
    let mut renderer = Renderer::new(Film::new(2, 3, 1, Path::new("test").to_path_buf()), Arc::new(empty()));
    assert_eq!(renderer.collect(0, &line(2, [1, 1, 1])), Err(RenderError::NotHandedOut));
    assert_eq!(renderer.take_row(), Some(0));
    assert_eq!(renderer.collect(1, &line(2, [1, 1, 1])), Err(RenderError::NotHandedOut));
    assert_eq!(renderer.collect(3, &line(2, [1, 1, 1])), Err(RenderError::NotHandedOut));
    assert_eq!(renderer.film.to_vec(), vec![0u8; 18]);
}

#[test]
fn a_line_must_be_one_row_of_the_film() {
    let mut renderer = Renderer::new(Film::new(2, 3, 1, Path::new("test").to_path_buf()), Arc::new(empty()));
    assert_eq!(renderer.take_row(), Some(0));
    assert_eq!(renderer.collect(0, &line(1, [1, 1, 1])), Err(RenderError::WrongExtent));
    assert_eq!(renderer.collect(0, &line(3, [1, 1, 1])), Err(RenderError::WrongExtent));
    assert_eq!(
        renderer.collect(0, &Raster::new(2, 2).unwrap()),
        Err(RenderError::WrongExtent)
    );
    assert_eq!(renderer.film.to_vec(), vec![0u8; 18]);
    assert_eq!(renderer.count, 0);
}

#[test]
fn the_share_done_is_rounded_down() {
    let mut renderer = Renderer::new(Film::new(1, 7, 1, Path::new("test").to_path_buf()), Arc::new(empty()));
    let mut shares = Vec::new();
    while let Some(row) = renderer.take_row() {
        shares.push(renderer.collect(row, &line(1, [0, 0, 0])).unwrap());
    }
    assert_eq!(shares, vec![14, 28, 42, 57, 71, 85, 100]);
}

#[test]
fn render_fills_every_row() {
    let mut renderer = Renderer::new(Film::new(3, 2, 2, Path::new("test").to_path_buf()), Arc::new(empty()));
    let reported = std::cell::RefCell::new(Vec::new());
    renderer.render(&camera, &gather, &develop, &|share: i32| reported.borrow_mut().push(share));
    assert!(renderer.is_done());
    assert_eq!(renderer.take_row(), None);
    assert_eq!(
        renderer.film.to_vec(),
        vec![0, 0, 2, 1, 0, 2, 2, 0, 2, 0, 1, 2, 1, 1, 2, 2, 1, 2]
    );
    assert_eq!(reported.into_inner(), vec![50, 100]);
    assert_eq!(renderer.stored, vec![true, true]);
}

#[test]
fn render_of_an_empty_film_is_done_at_once() {
    let mut renderer = Renderer::new(Film::new(3, 0, 2, Path::new("test").to_path_buf()), Arc::new(empty()));
    assert!(renderer.is_done());
    renderer.render(&camera, &gather, &develop, &|_share: i32| panic!("no row to report"));
    assert!(renderer.is_done());
}

#[test]
fn a_color_is_cut_to_bytes() {
    assert_eq!(quantise(vec3(0., 127.99, 255.)), [0, 127, 255]);
    assert_eq!(quantise(vec3(-3., 256., f32::NAN)), [0, 255, 0]);
    assert_eq!(quantise(vec3(0.999, 1., f32::INFINITY)), [0, 1, 255]);
}
