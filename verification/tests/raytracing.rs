use base64::Engine;
use raytrace::fixed::fp_mul;
use raytrace::render::{default_camera, render, scene_spheres, trace_pixel};
use raytrace::shade::{calculate_ground_color, calculate_sky_color};
use raytrace::sphere::Sphere;
use raytrace::vec3::Vec3;
use raytrace::Raytracing;

const ONE: i64 = 65536;

#[test]
fn vec3_add() {
    let v1 = Vec3 { x: 5 * ONE, y: 5 * ONE, z: 5 * ONE };
    let v2 = Vec3 { x: 1 * ONE, y: 2 * ONE, z: 3 * ONE };
    let v3 = v1.add(&v2);
    println!("Dos Vec3 sumandos: x:{}, y: {}, z: {}", v3.x, v3.y, v3.z);
    assert_eq!(6 * ONE, v3.x);
    assert_eq!(7 * ONE, v3.y);
    assert_eq!(8 * ONE, v3.z);
}

#[test]
fn vec3_sub() {
    let v1 = Vec3 { x: 5 * ONE, y: 5 * ONE, z: 5 * ONE };
    let v2 = Vec3 { x: 1 * ONE, y: 2 * ONE, z: 3 * ONE };
    let v3 = v1.sub(&v2);
    println!("Dos Vec3 sumandos: x:{}, y: {}, z: {}", v3.x, v3.y, v3.z);
    assert_eq!(4 * ONE, v3.x);
    assert_eq!(3 * ONE, v3.y);
    assert_eq!(2 * ONE, v3.z);
}

#[test]
fn vec3_neg() {
    let v1 = Vec3 { x: 1 * ONE, y: 2 * ONE, z: 3 * ONE };
    let v3 = v1.neg();
    println!("Dos Vec3 sumandos: x:{}, y: {}, z: {}", v3.x, v3.y, v3.z);
    println!("Longitud de la suma {}", v3.length());
    assert_eq!(-1 * ONE, v3.x);
    assert_eq!(-2 * ONE, v3.y);
    assert_eq!(-3 * ONE, v3.z);
}

#[test]
fn create_texture() {
    let contract = Raytracing {};
    let png_base64 = &contract.mint(255, 255, Vec3 { x: 18248, y: 42148, z: 62967 });
    println!("Imagen png en base 64: {}", png_base64);
    assert_ne!(0, png_base64.len());
}

#[test]
fn dot_product_is_squared_length() {
    // A 3-4-5 triple is exact in fixed point.
    let v = Vec3 { x: 3 * ONE, y: 4 * ONE, z: 0 };
    let d = v.dot_product(&v);
    let l = v.length();
    assert_eq!(25 * ONE, d);
    assert_eq!(5 * ONE, l);
    assert_eq!(d, fp_mul(l, l));
}

#[test]
fn normalize_gives_unit_length() {
    let v = Vec3 { x: 3 * ONE, y: 4 * ONE, z: 0 };
    let n = v.normalize();
    // Within two fixed-point rounding units of one.
    let len = n.length();
    assert!((ONE - len).abs() <= 2, "length {}", len);
    let w = Vec3 { x: 7 * ONE, y: -2 * ONE, z: 11 * ONE };
    let wl = w.normalize().length();
    assert!((ONE - wl).abs() <= 16, "length {}", wl);
}

#[test]
fn head_on_reflection_reverses_ray() {
    let s = Sphere {
        color: Vec3 { x: ONE, y: 42465, z: 0 },
        position: Vec3 { x: 0, y: 0, z: 2 * ONE },
        reflectivity: 3277,
        radius: ONE / 2,
    };
    let o = Vec3 { x: 0, y: 0, z: 0 };
    let d = Vec3 { x: 0, y: 0, z: ONE };
    let hit = s.is_hit_by_ray(&o, &d).expect("head-on ray must hit");
    assert_eq!(Vec3 { x: 0, y: 0, z: -ONE }, hit.direction);
    assert_eq!(98304, hit.distance);
    assert_eq!(Vec3 { x: 0, y: 0, z: 98304 }, hit.origin);
    assert_eq!(s.color, hit.color);
    assert_eq!(s.reflectivity, hit.reflectivity);
}

#[test]
fn miss_above_horizon_gives_sky_gradient() {
    let scene: Vec<Sphere> = Vec::new();
    let o = Vec3 { x: 0, y: ONE, z: -4 * ONE };
    let d = Vec3 { x: 0, y: 0, z: ONE };
    let sky_n = Vec3 { x: ONE, y: 0, z: 0 };
    let (c, bounces) = trace_pixel(&o, &d, &sky_n, &scene);
    // Gradient factor (1 - d.y)^2 is exactly one for a level ray.
    assert_eq!(calculate_sky_color(&d, &sky_n), c);
    assert_eq!(Vec3 { x: ONE, y: 0, z: 0 }, c);
    assert_eq!(1, bounces);
}

#[test]
fn sky_base_colour_is_not_rescaled() {
    // The sky base enters the gradient exactly as given: a half-intensity
    // red sky yields a half-intensity red pixel for a level ray, not a
    // vector scaled up to unit length.
    let scene: Vec<Sphere> = Vec::new();
    let o = Vec3 { x: 0, y: ONE, z: -4 * ONE };
    let d = Vec3 { x: 0, y: 0, z: ONE };
    let sky = Vec3 { x: ONE / 2, y: 0, z: 0 };
    let (c, _) = trace_pixel(&o, &d, &sky, &scene);
    assert_eq!(Vec3 { x: ONE / 2, y: 0, z: 0 }, c);
}

#[test]
fn ray_straight_down_hits_checkerboard_black() {
    let o = Vec3 { x: 0, y: ONE, z: -4 * ONE };
    let d = Vec3 { x: 0, y: -ONE, z: 0 };
    let g = calculate_ground_color(&o, &d);
    assert_eq!(Vec3 { x: 0, y: 0, z: 0 }, g);
    // The same ray traced against the scene selects the ground branch: the
    // spheres sit ahead of the camera, not below it.
    let scene = scene_spheres();
    let (c, bounces) = trace_pixel(&o, &d, &Vec3 { x: ONE, y: ONE, z: ONE }, &scene);
    assert_eq!(Vec3 { x: 0, y: 0, z: 0 }, c);
    assert_eq!(1, bounces);
}

#[test]
fn checkerboard_white_cell() {
    // One and a half units to the right the x cell parity flips.
    let o = Vec3 { x: 98304, y: ONE, z: 0 };
    let d = Vec3 { x: 0, y: -ONE, z: 0 };
    let g = calculate_ground_color(&o, &d);
    assert_eq!(Vec3 { x: ONE, y: ONE, z: ONE }, g);
}

#[test]
fn single_bounce_energy_split() {
    // A lone matte sphere hit head-on: the pixel gets the surface colour
    // weighted by one minus the reflectivity, and the trace ends after the
    // reflected ray escapes to an all-black sky.
    let s = Sphere {
        color: Vec3 { x: ONE, y: 42465, z: 0 },
        position: Vec3 { x: 0, y: 0, z: 2 * ONE },
        reflectivity: 3277,
        radius: ONE / 2,
    };
    let scene = vec![s];
    let o = Vec3 { x: 0, y: 0, z: 0 };
    let d = Vec3 { x: 0, y: 0, z: ONE };
    let sky_n = Vec3 { x: 0, y: 0, z: 0 };
    let (c, bounces) = trace_pixel(&o, &d, &sky_n, &scene);
    let w = ONE - 3277;
    assert_eq!(w, c.x);
    assert_eq!(fp_mul(42465, w), c.y);
    assert_eq!(0, c.z);
    assert_eq!(2, bounces);
}

#[test]
fn mirror_corridor_stops_at_bounce_cap() {
    // Two perfect mirrors facing each other: the ray never loses energy and
    // the trace must stop exactly at the bounce cap.
    let m1 = Sphere {
        color: Vec3 { x: ONE, y: ONE, z: ONE },
        position: Vec3 { x: 0, y: 0, z: 2 * ONE },
        reflectivity: ONE,
        radius: ONE / 2,
    };
    let m2 = Sphere {
        color: Vec3 { x: ONE, y: ONE, z: ONE },
        position: Vec3 { x: 0, y: 0, z: -2 * ONE },
        reflectivity: ONE,
        radius: ONE / 2,
    };
    let scene = vec![m1, m2];
    let o = Vec3 { x: 0, y: 0, z: 0 };
    let d = Vec3 { x: 0, y: 0, z: ONE };
    let (c, bounces) = trace_pixel(&o, &d, &Vec3 { x: ONE, y: ONE, z: ONE }, &scene);
    assert_eq!(100, bounces);
    // A perfect mirror hands out no colour at all.
    assert_eq!(Vec3 { x: 0, y: 0, z: 0 }, c);
}

#[test]
fn two_by_two_render_has_opaque_pixels() {
    let scene = scene_spheres();
    let cam = default_camera();
    let sky = Vec3 { x: 18248, y: 42148, z: 62967 };
    let buf = render(1, 1, sky, &scene, &cam);
    assert_eq!(2 * 2 * 4, buf.len());
    for p in 0..4 {
        assert_eq!(255, buf[p * 4 + 3]);
    }
}

#[test]
fn mint_wraps_a_real_png() {
    let contract = Raytracing {};
    let uri = contract.mint(1, 1, Vec3 { x: 18248, y: 42148, z: 62967 });
    let prefix = "data:image/png;base64,";
    assert!(uri.starts_with(prefix));
    let body = &uri[prefix.len()..];
    assert!(!body.is_empty());
    let bytes = base64::engine::general_purpose::STANDARD
        .decode(body)
        .expect("mint must return valid base64");
    // The PNG signature pins down that a real encoder ran.
    assert_eq!(&[137u8, 80, 78, 71, 13, 10, 26, 10], &bytes[0..8]);
}

#[test]
fn channel_conversion_clamps() {
    let channel = raytrace::render::channel;
    assert_eq!(0, channel(-5 * ONE));
    assert_eq!(0, channel(0));
    assert_eq!(127, channel(ONE / 2));
    assert_eq!(254, channel(ONE - 1));
    assert_eq!(255, channel(ONE));
    assert_eq!(255, channel(40 * ONE));
}

#[test]
fn vec3_add_commutes_and_cancels() {
    let a = Vec3 { x: 12345, y: -678, z: 9999999 };
    let b = Vec3 { x: -444, y: 55555, z: 17 };
    assert_eq!(a.add(&b), b.add(&a));
    assert_eq!(Vec3 { x: 0, y: 0, z: 0 }, a.add(&a.neg()));
}
