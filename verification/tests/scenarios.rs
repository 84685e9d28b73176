//! A small tracer built on the library: the arithmetic is written here, in
//! floating point, and every decision is asked of the library.

use graphics::hittable_list::HittableList;
use graphics::image::Image;
use graphics::image::Pixel;
use graphics::integrator::begin;
use graphics::integrator::resume;
use graphics::integrator::Bounce;
use graphics::integrator::Light;
use graphics::integrator::Step;
use graphics::material::absorbs;
use graphics::material::reflects;
use graphics::sphere::front_face;
use graphics::sphere::select_root;
use graphics::tone::level;

type V = (f64, f64, f64);

fn add(a: V, b: V) -> V {
    (a.0 + b.0, a.1 + b.1, a.2 + b.2)
}

fn sub(a: V, b: V) -> V {
    (a.0 - b.0, a.1 - b.1, a.2 - b.2)
}

fn scale(k: f64, a: V) -> V {
    (k * a.0, k * a.1, k * a.2)
}

fn times(a: V, b: V) -> V {
    (a.0 * b.0, a.1 * b.1, a.2 * b.2)
}

fn dot(a: V, b: V) -> f64 {
    a.0 * b.0 + a.1 * b.1 + a.2 * b.2
}

fn unit(a: V) -> V {
    scale(1.0 / dot(a, a).sqrt(), a)
}

#[derive(Clone, Copy)]
enum Surface {
    /// Scatters along the normal, which is where the diffuse lobe points.
    Diffuse(V),
    Mirror(V),
    Glass(f64),
}

#[derive(Clone, Copy)]
struct Ball {
    from: V,
    to: V,
    radius: f64,
    surface: Surface,
}

impl Ball {
    fn at_rest(center: V, radius: f64, surface: Surface) -> Ball {
        Ball { from: center, to: center, radius, surface }
    }

    /// The center at a time between 0 and 1.
    fn center(&self, time: f64) -> V {
        add(self.from, scale(time, sub(self.to, self.from)))
    }
}

#[derive(Clone, Copy)]
struct Ray {
    origin: V,
    direction: V,
    time: f64,
}

#[derive(Clone, Copy)]
struct Hit {
    t: f64,
    p: V,
    normal: V,
    front: bool,
    surface: Surface,
}

fn hit_ball(ball: &Ball, ray: &Ray, t_min: f64, t_max: f64) -> Option<Hit> {
    let center = ball.center(ray.time);
    let oc = sub(ray.origin, center);
    let a = dot(ray.direction, ray.direction);
    let half_b = dot(oc, ray.direction);
    let c = dot(oc, oc) - ball.radius * ball.radius;
    let discriminant = half_b * half_b - a * c;
    let sqrtd = discriminant.sqrt();
    let near = (-half_b - sqrtd) / a;
    let far = (-half_b + sqrtd) / a;
    let root = f64::from_bits(select_root(
        discriminant.to_bits(),
        near.to_bits(),
        far.to_bits(),
        t_min.to_bits(),
        t_max.to_bits(),
    )?);
    let p = add(ray.origin, scale(root, ray.direction));
    let outward = scale(1.0 / ball.radius, sub(p, center));
    let front = front_face(dot(ray.direction, outward).to_bits());
    let normal = if front { outward } else { scale(-1.0, outward) };
    Some(Hit { t: root, p, normal, front, surface: ball.surface })
}

fn closest(world: &HittableList<Ball>, ray: &Ray) -> Option<Hit> {
    let probe = |ball: &Ball, limit: u64| {
        hit_ball(ball, ray, 0.001, f64::from_bits(limit)).map(|hit| (hit.t.to_bits(), hit))
    };
    world.hit(f64::INFINITY.to_bits(), &probe).map(|(_, hit)| hit)
}

fn scatter(ray: &Ray, hit: &Hit) -> Option<(Ray, V)> {
    let incoming = unit(ray.direction);
    match hit.surface {
        Surface::Diffuse(albedo) => {
            Some((Ray { origin: hit.p, direction: hit.normal, time: ray.time }, albedo))
        }
        Surface::Mirror(albedo) => {
            let reflected = sub(incoming, scale(2.0 * dot(incoming, hit.normal), hit.normal));
            if absorbs(dot(reflected, hit.normal).to_bits()) {
                None
            } else {
                Some((Ray { origin: hit.p, direction: reflected, time: ray.time }, albedo))
            }
        }
        Surface::Glass(index) => {
            let ratio = if hit.front { 1.0 / index } else { index };
            let cos_theta = dot(scale(-1.0, incoming), hit.normal).min(1.0);
            let sin_theta = (1.0 - cos_theta * cos_theta).sqrt();
            let r0 = ((1.0 - ratio) / (1.0 + ratio)) * ((1.0 - ratio) / (1.0 + ratio));
            let reflectance = r0 + (1.0 - r0) * (1.0 - cos_theta).powi(5);
            let drawn: f64 = 0.5;
            let direction = if reflects(
                (ratio * sin_theta).to_bits(),
                reflectance.to_bits(),
                drawn.to_bits(),
            ) {
                sub(incoming, scale(2.0 * dot(incoming, hit.normal), hit.normal))
            } else {
                let perp = scale(ratio, add(incoming, scale(cos_theta, hit.normal)));
                let parallel = scale(-(1.0 - dot(perp, perp)).abs().sqrt(), hit.normal);
                add(perp, parallel)
            };
            Some((Ray { origin: hit.p, direction, time: ray.time }, (1.0, 1.0, 1.0)))
        }
    }
}

fn sky(ray: &Ray) -> V {
    let t = 0.5 * (unit(ray.direction).1 + 1.0);
    add(scale(1.0 - t, (1.0, 1.0, 1.0)), scale(t, (0.5, 0.7, 1.0)))
}

fn radiance(ray: Ray, world: &HittableList<Ball>, depth: usize) -> V {
    let mut ray = ray;
    let mut attenuations: Vec<V> = Vec::new();
    let mut step = begin(depth);
    let light = loop {
        match step {
            Step::Finish(Light::Black) => break (0.0, 0.0, 0.0),
            Step::Finish(Light::Sky) => break sky(&ray),
            Step::Query { depth } => {
                let bounce = match closest(world, &ray) {
                    None => Bounce::Miss,
                    Some(hit) => match scatter(&ray, &hit) {
                        None => Bounce::Absorbed,
                        Some((next, attenuation)) => {
                            attenuations.push(attenuation);
                            ray = next;
                            Bounce::Scattered
                        }
                    },
                };
                step = resume(depth, bounce);
            }
        }
    };
    attenuations.iter().rev().fold(light, |gathered, a| times(*a, gathered))
}

fn encode(color: V, samples_per_pixel: usize) -> Pixel {
    let scale = 1.0 / (samples_per_pixel as f64);
    Pixel::new(
        level((scale * color.0).sqrt().to_bits()),
        level((scale * color.1).sqrt().to_bits()),
        level((scale * color.2).sqrt().to_bits()),
    )
}

fn world_of(balls: &[Ball]) -> HittableList<Ball> {
    let mut world = HittableList::new();
    for ball in balls {
        world.add(*ball);
    }
    world
}

fn down_the_axis() -> Ray {
    Ray { origin: (0.0, 0.0, 0.0), direction: (0.0, 0.0, -1.0), time: 0.0 }
}

const WHITE: V = (1.0, 1.0, 1.0);

#[test]
fn a_ray_down_the_axis_hits_the_unit_sphere_at_two() {
    let ball = Ball::at_rest((0.0, 0.0, -3.0), 1.0, Surface::Diffuse(WHITE));
    let hit = hit_ball(&ball, &down_the_axis(), 0.001, f64::INFINITY).unwrap();
    assert_eq!(hit.t, 2.0);
    assert_eq!(hit.normal, (0.0, 0.0, 1.0));
    assert!(hit.front);
    assert_eq!(hit.p, (0.0, 0.0, -2.0));
}

#[test]
fn a_ray_from_inside_the_sphere_hits_its_far_side_from_the_back() {
    let ball = Ball::at_rest((0.0, 0.0, 0.0), 1.0, Surface::Diffuse(WHITE));
    let hit = hit_ball(&ball, &down_the_axis(), 0.001, f64::INFINITY).unwrap();
    assert_eq!(hit.t, 1.0);
    assert!(!hit.front);
    assert_eq!(hit.normal, (0.0, 0.0, 1.0));
}

#[test]
fn a_ray_that_misses_everything_sees_the_sky() {
    let empty = world_of(&[]);
    let aside = world_of(&[Ball::at_rest((5.0, 0.0, -3.0), 1.0, Surface::Diffuse(WHITE))]);
    for depth in [1usize, 2, 3, 50] {
        for direction in [(0.0, 0.0, -1.0), (0.0, 1.0, 0.0), (0.3, -0.2, -1.0), (0.0, -4.0, 0.0)] {
            let ray = Ray { origin: (0.0, 0.0, 0.0), direction, time: 0.0 };
            let t = 0.5 * (unit(direction).1 + 1.0);
            let expected = add(scale(1.0 - t, WHITE), scale(t, (0.5, 0.7, 1.0)));
            assert_eq!(radiance(ray, &empty, depth), expected);
            assert_eq!(radiance(ray, &aside, depth), expected);
        }
    }
    assert_eq!(radiance(down_the_axis(), &empty, 7), (0.75, 0.85, 1.0));
}

#[test]
fn no_depth_gathers_no_light() {
    let empty = world_of(&[]);
    let ball = world_of(&[Ball::at_rest((0.0, 0.0, -3.0), 1.0, Surface::Mirror(WHITE))]);
    assert_eq!(radiance(down_the_axis(), &empty, 0), (0.0, 0.0, 0.0));
    assert_eq!(radiance(down_the_axis(), &ball, 0), (0.0, 0.0, 0.0));
}

#[test]
fn a_white_sphere_at_depth_one_is_black() {
    let world = world_of(&[Ball::at_rest((0.0, 0.0, -3.0), 1.0, Surface::Diffuse(WHITE))]);
    assert_eq!(radiance(down_the_axis(), &world, 1), (0.0, 0.0, 0.0));
    // With one more query the scattered ray reaches the sky.
    assert_eq!(radiance(down_the_axis(), &world, 2), (0.75, 0.85, 1.0));
}

#[test]
fn a_mirror_sphere_shows_the_sky_behind_the_camera() {
    let albedo = (0.7, 0.6, 0.5);
    let world = world_of(&[Ball::at_rest((0.0, 0.0, -3.0), 1.0, Surface::Mirror(albedo))]);
    let hit = closest(&world, &down_the_axis()).unwrap();
    let (scattered, _) = scatter(&down_the_axis(), &hit).unwrap();
    assert_eq!(scattered.direction, (0.0, 0.0, 1.0));
    assert_eq!(scattered.origin, hit.p);
    for depth in [2usize, 3, 50] {
        assert_eq!(radiance(down_the_axis(), &world, depth), times(albedo, (0.75, 0.85, 1.0)));
    }
}

#[test]
fn attenuations_multiply_along_the_path() {
    // A mirror ahead sends the ray back to a diffuse sphere behind the camera,
    // which sends it off below the mirror.
    let near = (0.9, 0.8, 0.7);
    let far = (0.5, 0.5, 0.25);
    let world = world_of(&[
        Ball::at_rest((0.0, 0.0, -3.0), 1.0, Surface::Mirror(near)),
        Ball::at_rest((0.0, 0.5, 3.0), 1.0, Surface::Diffuse(far)),
    ]);
    let ray = down_the_axis();
    let first = closest(&world, &ray).unwrap();
    let (second_ray, _) = scatter(&ray, &first).unwrap();
    let second = closest(&world, &second_ray).unwrap();
    let (third_ray, _) = scatter(&second_ray, &second).unwrap();
    assert!(closest(&world, &third_ray).is_none());
    let expected = times(near, times(far, sky(&third_ray)));
    assert_eq!(radiance(ray, &world, 3), expected);
    assert_eq!(radiance(ray, &world, 2), (0.0, 0.0, 0.0));
}

#[test]
fn glass_of_index_one_is_as_if_it_were_not_there() {
    let world = world_of(&[Ball::at_rest((0.0, 0.0, -3.0), 1.0, Surface::Glass(1.0))]);
    let empty = world_of(&[]);
    let hit = closest(&world, &down_the_axis()).unwrap();
    let (scattered, attenuation) = scatter(&down_the_axis(), &hit).unwrap();
    assert_eq!(attenuation, WHITE);
    assert_eq!(scattered.direction, (0.0, 0.0, -1.0));
    // Into the sphere, out of it, then the sky: three queries.
    assert_eq!(radiance(down_the_axis(), &world, 3), radiance(down_the_axis(), &empty, 3));
    assert_eq!(radiance(down_the_axis(), &world, 2), (0.0, 0.0, 0.0));
}

#[test]
fn glass_reflects_a_grazing_ray_from_inside() {
    // Inside glass of index 1.5, at a sine of 0.8 to the normal.
    let normal = (0.0, 1.0, 0.0);
    let incoming = (0.8, -0.6, 0.0);
    let hit = Hit { t: 1.0, p: (0.0, 0.0, 0.0), normal, front: false, surface: Surface::Glass(1.5) };
    let ray = Ray { origin: (-0.8, 0.6, 0.0), direction: incoming, time: 0.0 };
    let (scattered, attenuation) = scatter(&ray, &hit).unwrap();
    assert_eq!(attenuation, WHITE);
    let reflected = sub(incoming, scale(2.0 * dot(incoming, normal), normal));
    assert_eq!(scattered.direction, reflected);
    assert!(scattered.direction.1 > 0.0);
}

#[test]
fn a_moving_sphere_is_hit_where_it_is_at_the_time_of_the_ray() {
    let moving = |radius: f64| Ball {
        from: (0.0, 0.0, -3.0),
        to: (1.0, 0.0, -3.0),
        radius,
        surface: Surface::Diffuse(WHITE),
    };
    let ray = Ray { time: 0.5, ..down_the_axis() };
    assert_eq!(moving(1.0).center(0.0), (0.0, 0.0, -3.0));
    assert_eq!(moving(1.0).center(1.0), (1.0, 0.0, -3.0));
    assert_eq!(moving(1.0).center(0.5), (0.5, 0.0, -3.0));
    // The ray passes the center at a distance of 0.5.
    assert!(hit_ball(&moving(1.0), &ray, 0.001, f64::INFINITY).is_some());
    assert!(hit_ball(&moving(0.6), &ray, 0.001, f64::INFINITY).is_some());
    assert!(hit_ball(&moving(0.4), &ray, 0.001, f64::INFINITY).is_none());
    // At time 1 the same sphere is out of reach, at time 0 it is straight ahead.
    let late = Ray { time: 1.0, ..down_the_axis() };
    assert!(hit_ball(&moving(0.6), &late, 0.001, f64::INFINITY).is_none());
    let early = hit_ball(&moving(0.5), &down_the_axis(), 0.001, f64::INFINITY).unwrap();
    assert_eq!(early.t, 2.5);
}

#[test]
fn the_closest_of_two_spheres_is_hit_in_either_order() {
    let front = Ball::at_rest((0.0, 0.0, -3.0), 1.0, Surface::Mirror(WHITE));
    let back = Ball::at_rest((0.0, 0.0, -8.0), 2.0, Surface::Diffuse(WHITE));
    for world in [world_of(&[front, back]), world_of(&[back, front])] {
        let hit = closest(&world, &down_the_axis()).unwrap();
        assert_eq!(hit.t, 2.0);
        assert!(matches!(hit.surface, Surface::Mirror(_)));
    }
}

#[test]
fn a_picture_of_the_empty_sky_straight_ahead() {
    let empty = world_of(&[]);
    let shade = |_i: usize, _j: usize| encode(radiance(down_the_axis(), &empty, 50), 1);
    let image = Image::render_scene(1, 1, 4, shade);
    assert_eq!(image.pixels(), &vec![Pixel::new(221, 236, 255)]);
    let text = String::from_utf8(image.to_ppm()).unwrap();
    assert_eq!(text, "P3\n1 1\n 255\n221 236 255\n");
}

#[test]
fn a_picture_of_a_sphere_under_the_sky() {
    // A camera at the origin that looks down the axis, 90 degrees tall.
    let world = world_of(&[Ball::at_rest((0.0, 0.0, -3.0), 1.0, Surface::Diffuse((0.5, 0.5, 0.5)))]);
    let (width, height) = (5usize, 5usize);
    let shade = |i: usize, j: usize| {
        let s = i as f64 / (width - 1) as f64;
        let t = j as f64 / (height - 1) as f64;
        let direction = (-1.0 + 2.0 * s, -1.0 + 2.0 * t, -1.0);
        let ray = Ray { origin: (0.0, 0.0, 0.0), direction, time: 0.0 };
        encode(radiance(ray, &world, 50), 1)
    };
    let image = Image::render_scene(width, height, 4, shade);
    let pixels = image.pixels();
    assert_eq!(pixels.len(), 25);
    // The sphere fills the middle of the picture and halves the sky above it.
    assert_eq!(pixels[12], encode(scale(0.5, (0.75, 0.85, 1.0)), 1));
    // The top left corner is sky, bluer than the bottom left.
    let top_left = pixels[0];
    let bottom_left = pixels[20];
    assert_eq!(top_left, shade(0, 4));
    assert_eq!(bottom_left, shade(0, 0));
    assert!(top_left.r < bottom_left.r);
    // Rows of the file run from the top of the picture down.
    for (k, p) in pixels.iter().enumerate() {
        assert_eq!(*p, shade(k % width, height - 1 - k / width));
    }
}
