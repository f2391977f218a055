use path_tracer::integrator::{Bounce, Intersection, PathAction, PathTracer, Radiance, Scatter};

#[test]
fn tracer_keeps_its_file_name() {
    let tracer = PathTracer::new("cornell_box.png");
    assert_eq!(tracer.output_filename(), "cornell_box.png");
    assert_eq!(PathTracer::new("").output_filename(), "");
}

#[test]
fn no_bounce_without_depth() {
    assert!(Bounce::begin(0, false).is_none());
    assert!(Bounce::begin(0, true).is_none());
}

#[test]
fn bounce_keeps_depth_and_lights() {
    let b = Bounce::begin(50, true).unwrap();
    assert_eq!(b.depth(), 50);
    assert!(b.has_lights());
    let b = Bounce::begin(u32::MAX, false).unwrap();
    assert_eq!(b.depth(), u32::MAX);
    assert!(!b.has_lights());
}

#[test]
fn miss_ends_with_the_background() {
    let b = Bounce::begin(3, false).unwrap();
    assert_eq!(b.on_intersection(Intersection::Miss), PathAction::Finish(Radiance::Background));
}

#[test]
fn surface_without_material_ends_with_the_warning_colour() {
    let b = Bounce::begin(3, false).unwrap();
    assert_eq!(b.on_intersection(Intersection::Bare), PathAction::Finish(Radiance::MissingMaterial));
}

#[test]
fn surface_with_material_is_shaded() {
    let b = Bounce::begin(3, false).unwrap();
    assert_eq!(b.on_intersection(Intersection::Surface), PathAction::Shade);
}

#[test]
fn absorbed_ray_ends_with_the_emission() {
    let b = Bounce::begin(3, true).unwrap();
    assert_eq!(b.on_scatter(Scatter::Absorbed), PathAction::Finish(Radiance::Emission));
}

#[test]
fn named_ray_is_followed_unweighted_with_one_bounce_less() {
    let b = Bounce::begin(3, true).unwrap();
    assert_eq!(b.on_scatter(Scatter::Delta), PathAction::Follow { depth: 2, weighted: false });
    let b = Bounce::begin(1, false).unwrap();
    assert_eq!(b.on_scatter(Scatter::Delta), PathAction::Follow { depth: 0, weighted: false });
}

#[test]
fn density_is_mixed_with_lights_only_where_there_are_lights() {
    let lit = Bounce::begin(3, true).unwrap();
    assert_eq!(lit.on_scatter(Scatter::Diffuse), PathAction::Sample { mix_lights: true });
    let dark = Bounce::begin(3, false).unwrap();
    assert_eq!(dark.on_scatter(Scatter::Diffuse), PathAction::Sample { mix_lights: false });
}

#[test]
fn negligible_density_ends_with_the_emission() {
    let b = Bounce::begin(3, true).unwrap();
    assert_eq!(b.on_density(true), PathAction::Finish(Radiance::Emission));
}

#[test]
fn usable_density_follows_the_drawn_ray_weighted() {
    let b = Bounce::begin(75, true).unwrap();
    assert_eq!(b.on_density(false), PathAction::Follow { depth: 74, weighted: true });
}

#[test]
fn path_of_mirrors_ends_when_the_bounces_are_spent() {
    let mut depth = 5u32;
    let mut bounces = 0;
    while let Some(b) = Bounce::begin(depth, false) {
        assert_eq!(b.on_intersection(Intersection::Surface), PathAction::Shade);
        match b.on_scatter(Scatter::Delta) {
            PathAction::Follow { depth: next, weighted: false } => depth = next,
            other => panic!("unexpected {:?}", other),
        }
        bounces += 1;
    }
    assert_eq!(bounces, 5);
}
