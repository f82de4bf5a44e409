use vstd::prelude::*;

use crate::text::{decimal_text, is_decimal};

verus! {

/// A real number as a scene description writes it, in digits or as one of the
/// words for infinity and not-a-number; the renderer reads the text as a double.
#[derive(Debug)]
pub struct Real {
    text: Vec<char>,
}

impl View for Real {
    type V = Seq<char>;

    closed spec fn view(&self) -> Seq<char> {
        self.text@
    }
}

impl Real {
    pub open spec fn wf(&self) -> bool {
        is_decimal(self@)
    }

    /// The real that `text` writes, if it is a number.
    pub fn new(text: Vec<char>) -> (r: Option<Real>)
        ensures
            is_decimal(text@) ==> (r matches Some(x) && x@ == text@ && x.wf()),
            !is_decimal(text@) ==> r is None,
    {
        if decimal_text(&text) {
            Some(Real { text })
        } else {
            None
        }
    }

    pub fn text(&self) -> (r: &Vec<char>)
        ensures
            r@ == self@,
    {
        &self.text
    }
}

/// An RGB color, one byte per channel.
#[derive(Clone, Copy, Debug, PartialEq, Eq, Structural)]
pub struct Color {
    pub r: u8,
    pub g: u8,
    pub b: u8,
}

/// A point or a vector in space.
#[derive(Debug)]
pub struct Point {
    pub x: Real,
    pub y: Real,
    pub z: Real,
}

pub struct PointView {
    pub x: Seq<char>,
    pub y: Seq<char>,
    pub z: Seq<char>,
}

impl View for Point {
    type V = PointView;

    open spec fn view(&self) -> PointView {
        PointView { x: self.x@, y: self.y@, z: self.z@ }
    }
}

#[derive(Debug)]
pub enum Shape {
    Plane { p: Point, n: Point },
    Sphere { p: Point, r: Real },
    Triangle { p0: Point, p1: Point, p2: Point },
}

pub enum ShapeView {
    Plane { p: PointView, n: PointView },
    Sphere { p: PointView, r: Seq<char> },
    Triangle { p0: PointView, p1: PointView, p2: PointView },
}

impl View for Shape {
    type V = ShapeView;

    open spec fn view(&self) -> ShapeView {
        match self {
            Shape::Plane { p, n } => ShapeView::Plane { p: p@, n: n@ },
            Shape::Sphere { p, r } => ShapeView::Sphere { p: p@, r: r@ },
            Shape::Triangle { p0, p1, p2 } => ShapeView::Triangle { p0: p0@, p1: p1@, p2: p2@ },
        }
    }
}

#[derive(Debug)]
pub enum Material {
    Solid { color: Color },
    Checkered { color0: Color, color1: Color, up: Point, scale: Real },
    Reflective,
}

pub enum MaterialView {
    Solid { color: Color },
    Checkered { color0: Color, color1: Color, up: PointView, scale: Seq<char> },
    Reflective,
}

impl View for Material {
    type V = MaterialView;

    open spec fn view(&self) -> MaterialView {
        match self {
            Material::Solid { color } => MaterialView::Solid { color: *color },
            Material::Checkered { color0, color1, up, scale } => MaterialView::Checkered {
                color0: *color0,
                color1: *color1,
                up: up@,
                scale: scale@,
            },
            Material::Reflective => MaterialView::Reflective,
        }
    }
}

/// The material of an object that the description gives none: solid red.
pub open spec fn default_material() -> MaterialView {
    MaterialView::Solid { color: Color { r: 255, g: 0, b: 0 } }
}

impl Default for Material {
    fn default() -> (r: Material)
        ensures
            r@ == default_material(),
    {
        Material::Solid { color: Color { r: 255, g: 0, b: 0 } }
    }
}

/// A shape with its material.
#[derive(Debug)]
pub struct Object {
    pub shape: Shape,
    pub material: Material,
}

pub struct ObjectView {
    pub shape: ShapeView,
    pub material: MaterialView,
}

impl View for Object {
    type V = ObjectView;

    open spec fn view(&self) -> ObjectView {
        ObjectView { shape: self.shape@, material: self.material@ }
    }
}

/// A point light.
#[derive(Debug)]
pub struct Light(pub Point);

impl View for Light {
    type V = PointView;

    open spec fn view(&self) -> PointView {
        self.0@
    }
}

/// The objects and lights of a scene, in the order of their description.
#[derive(Debug)]
pub struct Scene {
    pub objects: Vec<Object>,
    pub lights: Vec<Light>,
}

/// Why a scene description was refused.
#[derive(Clone, Copy, Debug, PartialEq, Eq, Structural)]
pub enum ParseError {
    /// A keyword wanted more operands than the stack held.
    EmptyStack,
    /// An operand did not read as the number it had to be.
    BadNumber,
    /// A material was given before any object.
    NoObject,
}

impl ParseError {
    /// A description of the error for people.
    pub fn message(&self) -> (r: String)
        ensures
            *self == ParseError::EmptyStack ==> r@ == "Empty stack"@,
            *self == ParseError::BadNumber ==> r@ == "Unable to parse"@,
            *self == ParseError::NoObject ==> r@ == "No object"@,
    {
        match self {
            ParseError::EmptyStack => String::from_str("Empty stack"),
            ParseError::BadNumber => String::from_str("Unable to parse"),
            ParseError::NoObject => String::from_str("No object"),
        }
    }
}

} // verus!
