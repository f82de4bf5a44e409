use jtracer::{Color, Material, ParseError, Scene, Shape};

fn text(r: &jtracer::Real) -> String {
    r.text().iter().collect()
}

#[test]
fn sphere_with_default_material() {
    let scene = Scene::parse("0 0 0 1 sphere").unwrap();
    assert_eq!(scene.objects.len(), 1);
    assert!(scene.lights.is_empty());
    match &scene.objects[0].shape {
        Shape::Sphere { p, r } => {
            assert_eq!(text(&p.x), "0");
            assert_eq!(text(&p.y), "0");
            assert_eq!(text(&p.z), "0");
            assert_eq!(text(r), "1");
        }
        other => panic!("not a sphere: {:?}", other),
    }
    match &scene.objects[0].material {
        Material::Solid { color } => assert_eq!(*color, Color { r: 255, g: 0, b: 0 }),
        other => panic!("not solid: {:?}", other),
    }
}

#[test]
fn sphere_with_solid_color() {
    let scene = Scene::parse("0 0 0 1 sphere 10 20 30 solid").unwrap();
    assert_eq!(scene.objects.len(), 1);
    match &scene.objects[0].shape {
        Shape::Sphere { p, r } => {
            assert_eq!(text(&p.x), "0");
            assert_eq!(text(r), "1");
        }
        other => panic!("not a sphere: {:?}", other),
    }
    match &scene.objects[0].material {
        Material::Solid { color } => assert_eq!(*color, Color { r: 10, g: 20, b: 30 }),
        other => panic!("not solid: {:?}", other),
    }
}

#[test]
fn too_few_operands_is_an_error() {
    assert_eq!(Scene::parse("1 2 sphere").unwrap_err(), ParseError::EmptyStack);
    assert_eq!(ParseError::EmptyStack.message(), "Empty stack");
}

#[test]
fn bad_number_is_an_error() {
    assert_eq!(Scene::parse("0 0 x 1 sphere").unwrap_err(), ParseError::BadNumber);
    assert_eq!(Scene::parse("1. .5 - 1 sphere").unwrap_err(), ParseError::BadNumber);
    assert_eq!(ParseError::BadNumber.message(), "Unable to parse");
}

#[test]
fn bad_channel_is_an_error() {
    assert_eq!(Scene::parse("0 0 0 1 sphere 10 20 256 solid").unwrap_err(), ParseError::BadNumber);
    assert_eq!(Scene::parse("0 0 0 1 sphere 10 -2 25 solid").unwrap_err(), ParseError::BadNumber);
}

#[test]
fn material_without_object_is_an_error() {
    assert_eq!(Scene::parse("1 2 3 solid").unwrap_err(), ParseError::NoObject);
    assert_eq!(Scene::parse("reflective").unwrap_err(), ParseError::NoObject);
    assert_eq!(ParseError::NoObject.message(), "No object");
}

#[test]
fn first_error_wins() {
    // the top operand fails to read before the stack runs out
    assert_eq!(Scene::parse("1 y sphere").unwrap_err(), ParseError::BadNumber);
    // an error ends the run, whatever follows
    assert_eq!(Scene::parse("sphere 0 0 0 1 sphere").unwrap_err(), ParseError::EmptyStack);
}

#[test]
fn plane_light_and_separator() {
    let scene = Scene::parse("0 0 -1 | 0 0 1 plane\n\t1.5 2e3 -3 light").unwrap();
    assert_eq!(scene.objects.len(), 1);
    match &scene.objects[0].shape {
        Shape::Plane { p, n } => {
            assert_eq!(text(&p.z), "-1");
            assert_eq!(text(&n.x), "0");
            assert_eq!(text(&n.z), "1");
        }
        other => panic!("not a plane: {:?}", other),
    }
    assert_eq!(scene.lights.len(), 1);
    assert_eq!(text(&scene.lights[0].0.x), "1.5");
    assert_eq!(text(&scene.lights[0].0.y), "2e3");
    assert_eq!(text(&scene.lights[0].0.z), "-3");
}

#[test]
fn triangle_points_in_order() {
    let scene = Scene::parse("1 2 3 4 5 6 7 8 9 triangle").unwrap();
    match &scene.objects[0].shape {
        Shape::Triangle { p0, p1, p2 } => {
            assert_eq!(text(&p0.x), "1");
            assert_eq!(text(&p1.y), "5");
            assert_eq!(text(&p2.z), "9");
        }
        other => panic!("not a triangle: {:?}", other),
    }
}

#[test]
fn checkered_and_reflective() {
    let scene = Scene::parse("0 0 0 1 sphere 1 2 3 4 5 6 0 0 1 0.5 checkered 0 0 0 2 sphere reflective").unwrap();
    assert_eq!(scene.objects.len(), 2);
    match &scene.objects[0].material {
        Material::Checkered { color0, color1, up, scale } => {
            assert_eq!(*color0, Color { r: 1, g: 2, b: 3 });
            assert_eq!(*color1, Color { r: 4, g: 5, b: 6 });
            assert_eq!(text(&up.z), "1");
            assert_eq!(text(scale), "0.5");
        }
        other => panic!("not checkered: {:?}", other),
    }
    assert!(matches!(scene.objects[1].material, Material::Reflective));
}

#[test]
fn material_applies_to_last_object() {
    let scene = Scene::parse("0 0 0 1 sphere 0 0 5 2 sphere 7 8 9 solid").unwrap();
    assert!(matches!(scene.objects[0].material, Material::Solid { color: Color { r: 255, g: 0, b: 0 } }));
    assert!(matches!(scene.objects[1].material, Material::Solid { color: Color { r: 7, g: 8, b: 9 } }));
}

#[test]
fn empty_description_is_an_empty_scene() {
    let scene = Scene::parse("  \n ").unwrap();
    assert!(scene.objects.is_empty());
    assert!(scene.lights.is_empty());
    let scene = Scene::parse("").unwrap();
    assert!(scene.objects.is_empty());
}

#[test]
fn leftover_operands_are_ignored() {
    let scene = Scene::parse("9 9 0 0 0 1 sphere").unwrap();
    assert_eq!(scene.objects.len(), 1);
}

#[test]
fn unicode_space_separates_words() {
    let scene = Scene::parse("0\u{a0}0\u{3000}0 1 sphere").unwrap();
    assert_eq!(scene.objects.len(), 1);
}

#[test]
fn light_at_infinity() {
    let scene = Scene::parse("0 0 inf light").unwrap();
    assert_eq!(scene.lights.len(), 1);
    assert_eq!(text(&scene.lights[0].0.z), "inf");
    let scene = Scene::parse("nan 0 0 1 sphere").unwrap();
    assert_eq!(scene.objects.len(), 1);
}
