use vstd::prelude::*;

use crate::scene::{
    default_material, Color, Light, Material, MaterialView, Object, ObjectView, ParseError, Point,
    PointView, Real, Scene, Shape, ShapeView,
};
use crate::text::{channel_of, is_decimal, is_space_char, parse_channel, scan, texts, words};

verus! {

/// The state of the scene interpreter: its operand stack and what it has built.
pub struct Machine {
    pub stack: Seq<Seq<char>>,
    pub objects: Seq<ObjectView>,
    pub lights: Seq<PointView>,
}

/// The operand `j` places below the top of the stack.
pub open spec fn top(st: Seq<Seq<char>>, j: int) -> Seq<char> {
    st[st.len() - 1 - j]
}

/// Pops `n` reals, the top first: the popped operands and the stack left; or
/// the error of the first pop that fails.
pub open spec fn pop_reals(st: Seq<Seq<char>>, n: nat) -> Result<
    (Seq<Seq<char>>, Seq<Seq<char>>),
    ParseError,
> {
    let k = if st.len() < n {
        st.len() as int
    } else {
        n as int
    };
    if exists|j: int| 0 <= j < k && !is_decimal(#[trigger] top(st, j)) {
        Err(ParseError::BadNumber)
    } else if st.len() < n {
        Err(ParseError::EmptyStack)
    } else {
        Ok((Seq::new(n, |j: int| top(st, j)), st.take(st.len() - n)))
    }
}

/// Pops `n` color channels, the top first, as `pop_reals` does reals.
pub open spec fn pop_channels(st: Seq<Seq<char>>, n: nat) -> Result<
    (Seq<u8>, Seq<Seq<char>>),
    ParseError,
> {
    let k = if st.len() < n {
        st.len() as int
    } else {
        n as int
    };
    if exists|j: int| 0 <= j < k && (#[trigger] channel_of(top(st, j))) is None {
        Err(ParseError::BadNumber)
    } else if st.len() < n {
        Err(ParseError::EmptyStack)
    } else {
        Ok((Seq::new(n, |j: int| channel_of(top(st, j))->0), st.take(st.len() - n)))
    }
}

/// The point whose coordinates were popped at `k` (z), `k + 1` (y), `k + 2` (x).
pub open spec fn point_at(v: Seq<Seq<char>>, k: int) -> PointView {
    PointView { x: v[k + 2], y: v[k + 1], z: v[k] }
}

/// The color whose channels were popped at `k` (b), `k + 1` (g), `k + 2` (r).
pub open spec fn color_at(c: Seq<u8>, k: int) -> Color {
    Color { r: c[k + 2], g: c[k + 1], b: c[k] }
}

pub open spec fn add_object(m: Machine, rest: Seq<Seq<char>>, shape: ShapeView) -> Machine {
    Machine {
        stack: rest,
        objects: m.objects.push(ObjectView { shape, material: default_material() }),
        lights: m.lights,
    }
}

/// Gives the last object the material `mat`.
pub open spec fn paint(m: Machine, rest: Seq<Seq<char>>, mat: MaterialView) -> Result<
    Machine,
    ParseError,
> {
    if m.objects.len() == 0 {
        Err(ParseError::NoObject)
    } else {
        Ok(
            Machine {
                stack: rest,
                objects: m.objects.update(
                    m.objects.len() - 1,
                    ObjectView { shape: m.objects.last().shape, material: mat },
                ),
                lights: m.lights,
            },
        )
    }
}

/// One word of a scene description applied to the machine.
pub open spec fn step(m: Machine, w: Seq<char>) -> Result<Machine, ParseError> {
    if w == "light"@ {
        match pop_reals(m.stack, 3) {
            Ok(p) => Ok(
                Machine { stack: p.1, objects: m.objects, lights: m.lights.push(point_at(p.0, 0)) },
            ),
            Err(e) => Err(e),
        }
    } else if w == "sphere"@ {
        match pop_reals(m.stack, 4) {
            Ok(p) => Ok(add_object(m, p.1, ShapeView::Sphere { p: point_at(p.0, 1), r: p.0[0] })),
            Err(e) => Err(e),
        }
    } else if w == "plane"@ {
        match pop_reals(m.stack, 6) {
            Ok(p) => Ok(
                add_object(m, p.1, ShapeView::Plane { p: point_at(p.0, 3), n: point_at(p.0, 0) }),
            ),
            Err(e) => Err(e),
        }
    } else if w == "triangle"@ {
        match pop_reals(m.stack, 9) {
            Ok(p) => Ok(
                add_object(
                    m,
                    p.1,
                    ShapeView::Triangle {
                        p0: point_at(p.0, 6),
                        p1: point_at(p.0, 3),
                        p2: point_at(p.0, 0),
                    },
                ),
            ),
            Err(e) => Err(e),
        }
    } else if w == "solid"@ {
        match pop_channels(m.stack, 3) {
            Ok(c) => paint(m, c.1, MaterialView::Solid { color: color_at(c.0, 0) }),
            Err(e) => Err(e),
        }
    } else if w == "reflective"@ {
        paint(m, m.stack, MaterialView::Reflective)
    } else if w == "checkered"@ {
        match pop_reals(m.stack, 4) {
            Ok(p) => match pop_channels(p.1, 6) {
                Ok(c) => paint(
                    m,
                    c.1,
                    MaterialView::Checkered {
                        color0: color_at(c.0, 3),
                        color1: color_at(c.0, 0),
                        up: point_at(p.0, 1),
                        scale: p.0[0],
                    },
                ),
                Err(e) => Err(e),
            },
            Err(e) => Err(e),
        }
    } else if w == "|"@ {
        Ok(m)
    } else {
        Ok(Machine { stack: m.stack.push(w), objects: m.objects, lights: m.lights })
    }
}

/// The words applied in order to the empty machine; the first error stops it.
pub open spec fn run(ws: Seq<Seq<char>>) -> Result<Machine, ParseError>
    decreases ws.len(),
{
    if ws.len() == 0 {
        Ok(Machine { stack: seq![], objects: seq![], lights: seq![] })
    } else {
        match run(ws.drop_last()) {
            Ok(m) => step(m, ws.last()),
            Err(e) => Err(e),
        }
    }
}

/// What a scene description builds.
pub open spec fn interpret(text: Seq<char>) -> Result<Machine, ParseError> {
    run(words(text))
}

pub open spec fn reals(v: Seq<Real>) -> Seq<Seq<char>> {
    v.map_values(|x: Real| x@)
}

pub open spec fn object_views(v: Seq<Object>) -> Seq<ObjectView> {
    v.map_values(|o: Object| o@)
}

pub open spec fn light_views(v: Seq<Light>) -> Seq<PointView> {
    v.map_values(|l: Light| l@)
}

pub open spec fn machine_of(stack: Seq<Vec<char>>, objects: Seq<Object>, lights: Seq<Light>) -> Machine {
    Machine { stack: texts(stack), objects: object_views(objects), lights: light_views(lights) }
}

/// Pops the top operand of `stack` as a real.
pub fn try_pop(stack: &mut Vec<Vec<char>>) -> (r: Result<Real, ParseError>)
    ensures
        old(stack)@.len() == 0 ==> r == Err::<Real, ParseError>(ParseError::EmptyStack)
            && final(stack)@ == old(stack)@,
        old(stack)@.len() > 0 ==> final(stack)@ == old(stack)@.drop_last(),
        old(stack)@.len() > 0 && is_decimal(old(stack)@.last()@) ==> (r matches Ok(x) && x@
            == old(stack)@.last()@ && x.wf()),
        old(stack)@.len() > 0 && !is_decimal(old(stack)@.last()@) ==> r == Err::<
            Real,
            ParseError,
        >(ParseError::BadNumber),
{
    match stack.pop() {
        None => Err(ParseError::EmptyStack),
        Some(t) => match Real::new(t) {
            Some(x) => Ok(x),
            None => Err(ParseError::BadNumber),
        },
    }
}

fn pop_real_operands(stack: &mut Vec<Vec<char>>, n: usize) -> (r: Result<Vec<Real>, ParseError>)
    ensures
        match pop_reals(texts(old(stack)@), n as nat) {
            Ok(p) => r matches Ok(v) && reals(v@) == p.0 && texts(final(stack)@) == p.1,
            Err(e) => r == Err::<Vec<Real>, ParseError>(e),
        },
{
    let ghost st = texts(stack@);
    let mut out: Vec<Real> = Vec::new();
    let mut i: usize = 0;
    while i < n
        invariant
            i <= n,
            i <= st.len(),
            st == texts(old(stack)@),
            texts(stack@) == st.take(st.len() - i),
            forall|j: int| 0 <= j < i ==> is_decimal(#[trigger] top(st, j)),
            reals(out@) == Seq::new(i as nat, |j: int| top(st, j)),
        decreases n - i,
    {
        let ghost before = stack@;
        assert(texts(before).len() == before.len());
        match try_pop(stack) {
            Err(e) => {
                proof {
                    if before.len() == 0 {
                        assert(st.len() == i);
                        assert(!exists|j: int|
                            0 <= j < st.len() && !is_decimal(#[trigger] top(st, j)));
                    } else {
                        assert(texts(before)[before.len() - 1] == top(st, i as int));
                    }
                }
                return Err(e);
            },
            Ok(x) => {
                assert(texts(before)[before.len() - 1] == top(st, i as int));
                assert(texts(stack@) =~= st.take(st.len() - i - 1));
                let ghost prev = out@;
                out.push(x);
                assert(reals(out@) =~= reals(prev).push(x@));
                assert(reals(out@) =~= Seq::new(i as nat + 1, |j: int| top(st, j)));
            },
        }
        i += 1;
    }
    Ok(out)
}

fn pop_channel_operands(stack: &mut Vec<Vec<char>>, n: usize) -> (r: Result<Vec<u8>, ParseError>)
    ensures
        match pop_channels(texts(old(stack)@), n as nat) {
            Ok(p) => r matches Ok(v) && v@ == p.0 && texts(final(stack)@) == p.1,
            Err(e) => r == Err::<Vec<u8>, ParseError>(e),
        },
{
    let ghost st = texts(stack@);
    let mut out: Vec<u8> = Vec::new();
    let mut i: usize = 0;
    while i < n
        invariant
            i <= n,
            i <= st.len(),
            st == texts(old(stack)@),
            texts(stack@) == st.take(st.len() - i),
            forall|j: int| 0 <= j < i ==> (#[trigger] channel_of(top(st, j))) is Some,
            out@ == Seq::new(i as nat, |j: int| channel_of(top(st, j))->0),
        decreases n - i,
    {
        let ghost before = stack@;
        assert(texts(before).len() == before.len());
        match stack.pop() {
            None => {
                assert(st.len() == i);
                assert(!exists|j: int|
                    0 <= j < st.len() && (#[trigger] channel_of(top(st, j))) is None);
                return Err(ParseError::EmptyStack);
            },
            Some(t) => {
                assert(texts(before)[before.len() - 1] == t@);
                assert(t@ == top(st, i as int));
                assert(texts(stack@) =~= st.take(st.len() - i - 1));
                match parse_channel(&t) {
                    None => {
                        return Err(ParseError::BadNumber);
                    },
                    Some(c) => {
                        out.push(c);
                        assert(out@ =~= Seq::new(
                            i as nat + 1,
                            |j: int| channel_of(top(st, j))->0,
                        ));
                    },
                }
            },
        }
        i += 1;
    }
    Ok(out)
}

/// Takes the last three reals of `v` as a point: x last, z first.
fn take_point(v: &mut Vec<Real>) -> (r: Point)
    requires
        old(v)@.len() >= 3,
    ensures
        r@ == point_at(reals(old(v)@), old(v)@.len() - 3),
        final(v)@ == old(v)@.take(old(v)@.len() - 3),
{
    let x = v.pop().unwrap();
    let y = v.pop().unwrap();
    let z = v.pop().unwrap();
    Point { x, y, z }
}

/// Takes the last three channels of `c` as a color: red last, blue first.
fn take_color(c: &mut Vec<u8>) -> (r: Color)
    requires
        old(c)@.len() >= 3,
    ensures
        r == color_at(old(c)@, old(c)@.len() - 3),
        final(c)@ == old(c)@.take(old(c)@.len() - 3),
{
    let r = c.pop().unwrap();
    let g = c.pop().unwrap();
    let b = c.pop().unwrap();
    Color { r, g, b }
}

/// Whether the characters of `t` are those of `w`.
fn is_word(t: &Vec<char>, w: &str) -> (r: bool)
    ensures
        r == (t@ == w@),
{
    let n = w.unicode_len();
    if t.len() != n {
        return false;
    }
    let mut i: usize = 0;
    while i < n
        invariant
            n == w@.len(),
            t@.len() == n,
            i <= n,
            forall|j: int| 0 <= j < i ==> t@[j] == w@[j],
        decreases n - i,
    {
        if t[i] != w.get_char(i) {
            return false;
        }
        i += 1;
    }
    assert(t@ =~= w@);
    true
}

fn set_last_material(objects: &mut Vec<Object>, mat: Material) -> (r: Result<(), ParseError>)
    ensures
        old(objects)@.len() == 0 ==> r == Err::<(), ParseError>(ParseError::NoObject)
            && final(objects)@ == old(objects)@,
        old(objects)@.len() > 0 ==> r is Ok && object_views(final(objects)@) == object_views(
            old(objects)@,
        ).update(
            old(objects)@.len() - 1,
            ObjectView { shape: old(objects)@.last()@.shape, material: mat@ },
        ),
{
    match objects.pop() {
        None => Err(ParseError::NoObject),
        Some(o) => {
            let ghost before = objects@;
            let shape = o.shape;
            let ghost sv = shape@;
            let ghost mv = mat@;
            objects.push(Object { shape, material: mat });
            assert(object_views(objects@) =~= object_views(old(objects)@).update(
                old(objects)@.len() - 1,
                ObjectView { shape: sv, material: mv },
            ));
            Ok(())
        },
    }
}

fn push_object(objects: &mut Vec<Object>, shape: Shape)
    ensures
        object_views(final(objects)@) == object_views(old(objects)@).push(
            ObjectView { shape: shape@, material: default_material() },
        ),
{
    let ghost sv = shape@;
    objects.push(Object { shape, material: Material::default() });
    assert(object_views(objects@) =~= object_views(old(objects)@).push(
        ObjectView { shape: sv, material: default_material() },
    ));
}

/// Applies the word `w` to the interpreter's stack, objects and lights.
fn apply(
    stack: &mut Vec<Vec<char>>,
    objects: &mut Vec<Object>,
    lights: &mut Vec<Light>,
    w: Vec<char>,
) -> (r: Result<(), ParseError>)
    ensures
        match step(machine_of(old(stack)@, old(objects)@, old(lights)@), w@) {
            Ok(m) => r is Ok && machine_of(final(stack)@, final(objects)@, final(lights)@) == m,
            Err(e) => r == Err::<(), ParseError>(e),
        },
{
    let ghost m = machine_of(stack@, objects@, lights@);
    if is_word(&w, "light") {
        let mut v = match pop_real_operands(stack, 3) {
            Ok(x) => x,
            Err(e) => {
                return Err(e);
            },
        };
        assert(reals(v@).len() == v@.len());
        let p = take_point(&mut v);
        let ghost before = lights@;
        let ghost pv = p@;
        lights.push(Light(p));
        assert(light_views(lights@) =~= light_views(before).push(pv));
        Ok(())
    } else if is_word(&w, "sphere") {
        let mut v = match pop_real_operands(stack, 4) {
            Ok(x) => x,
            Err(e) => {
                return Err(e);
            },
        };
        assert(reals(v@).len() == v@.len());
        let p = take_point(&mut v);
        let r = v.pop().unwrap();
        push_object(objects, Shape::Sphere { p, r });
        Ok(())
    } else if is_word(&w, "plane") {
        let mut v = match pop_real_operands(stack, 6) {
            Ok(x) => x,
            Err(e) => {
                return Err(e);
            },
        };
        assert(reals(v@).len() == v@.len());
        let p = take_point(&mut v);
        let n = take_point(&mut v);
        push_object(objects, Shape::Plane { p, n });
        Ok(())
    } else if is_word(&w, "triangle") {
        let mut v = match pop_real_operands(stack, 9) {
            Ok(x) => x,
            Err(e) => {
                return Err(e);
            },
        };
        assert(reals(v@).len() == v@.len());
        let p0 = take_point(&mut v);
        let p1 = take_point(&mut v);
        let p2 = take_point(&mut v);
        push_object(objects, Shape::Triangle { p0, p1, p2 });
        Ok(())
    } else if is_word(&w, "solid") {
        let mut c = match pop_channel_operands(stack, 3) {
            Ok(x) => x,
            Err(e) => {
                return Err(e);
            },
        };
        let color = take_color(&mut c);
        set_last_material(objects, Material::Solid { color })
    } else if is_word(&w, "reflective") {
        set_last_material(objects, Material::Reflective)
    } else if is_word(&w, "checkered") {
        let mut v = match pop_real_operands(stack, 4) {
            Ok(x) => x,
            Err(e) => {
                return Err(e);
            },
        };
        assert(reals(v@).len() == v@.len());
        let mut c = match pop_channel_operands(stack, 6) {
            Ok(x) => x,
            Err(e) => {
                return Err(e);
            },
        };
        let up = take_point(&mut v);
        let scale = v.pop().unwrap();
        let color0 = take_color(&mut c);
        let color1 = take_color(&mut c);
        set_last_material(objects, Material::Checkered { color0, color1, up, scale })
    } else if is_word(&w, "|") {
        Ok(())
    } else {
        let ghost before = stack@;
        let ghost wv = w@;
        stack.push(w);
        assert(texts(stack@) =~= texts(before).push(wv));
        Ok(())
    }
}

pub open spec fn prefix_of(a: Seq<Seq<char>>, b: Seq<Seq<char>>) -> bool {
    a.len() <= b.len() && b.take(a.len() as int) == a
}

proof fn lemma_scan_prefix(s: Seq<char>, i: int, j: int)
    requires
        0 <= i <= j <= s.len(),
    ensures
        prefix_of(scan(s.take(i)).0, scan(s.take(j)).0),
    decreases j - i,
{
    if i < j {
        lemma_scan_prefix(s, i, j - 1);
        assert(s.take(j).drop_last() =~= s.take(j - 1));
        let a = scan(s.take(i)).0;
        let b = scan(s.take(j - 1)).0;
        let c = scan(s.take(j)).0;
        if c != b {
            assert(c == b.push(scan(s.take(j - 1)).1));
            assert(c.take(a.len() as int) =~= b.take(a.len() as int));
        }
    } else {
        assert(scan(s.take(i)).0.take(scan(s.take(i)).0.len() as int) =~= scan(s.take(i)).0);
    }
}

/// The words completed after `i` characters begin the words of `s`.
proof fn lemma_done_prefix(s: Seq<char>, i: int)
    requires
        0 <= i <= s.len(),
    ensures
        prefix_of(scan(s.take(i)).0, words(s)),
{
    lemma_scan_prefix(s, i, s.len() as int);
    assert(s.take(s.len() as int) =~= s);
    let a = scan(s.take(i)).0;
    let b = scan(s).0;
    if words(s) != b {
        assert(words(s).take(a.len() as int) =~= b.take(a.len() as int));
    }
}

/// Once the machine has failed, later words do not change the error.
proof fn lemma_run_err(a: Seq<Seq<char>>, b: Seq<Seq<char>>, e: ParseError)
    requires
        prefix_of(a, b),
        run(a) == Err::<Machine, ParseError>(e),
    ensures
        run(b) == Err::<Machine, ParseError>(e),
    decreases b.len(),
{
    if b.len() == a.len() {
        assert(b =~= a);
    } else {
        assert(b.drop_last().take(a.len() as int) =~= b.take(a.len() as int));
        lemma_run_err(a, b.drop_last(), e);
    }
}

impl Scene {
    /// Builds the scene that `text` describes.
    pub fn parse(text: &str) -> (r: Result<Scene, ParseError>)
        ensures
            match interpret(text@) {
                Ok(m) => r matches Ok(sc) && object_views(sc.objects@) == m.objects && light_views(
                    sc.lights@,
                ) == m.lights,
                Err(e) => r == Err::<Scene, ParseError>(e),
            },
    {
        let n = text.unicode_len();
        let mut stack: Vec<Vec<char>> = Vec::new();
        let mut objects: Vec<Object> = Vec::new();
        let mut lights: Vec<Light> = Vec::new();
        let mut word: Vec<char> = Vec::new();
        let ghost mut done: Seq<Seq<char>> = seq![];
        proof {
            assert(text@.take(0) =~= seq![]);
            assert(texts(stack@) =~= seq![]);
            assert(object_views(objects@) =~= seq![]);
            assert(light_views(lights@) =~= seq![]);
            assert(machine_of(stack@, objects@, lights@) == Machine {
                stack: seq![],
                objects: seq![],
                lights: seq![],
            });
        }
        let mut i: usize = 0;
        while i < n
            invariant
                n == text@.len(),
                i <= n,
                scan(text@.take(i as int)) == (done, word@),
                run(done) == Ok::<Machine, ParseError>(machine_of(stack@, objects@, lights@)),
            decreases n - i,
        {
            let c = text.get_char(i);
            proof {
                assert(text@.take(i as int + 1).drop_last() =~= text@.take(i as int));
            }
            if is_space_char(c) {
                if word.len() > 0 {
                    let w = word;
                    word = Vec::new();
                    let ghost wv = w@;
                    proof {
                        assert(done.push(wv).drop_last() =~= done);
                    }
                    match apply(&mut stack, &mut objects, &mut lights, w) {
                        Ok(()) => {},
                        Err(e) => {
                            proof {
                                lemma_done_prefix(text@, i + 1);
                                lemma_run_err(done.push(wv), words(text@), e);
                            }
                            return Err(e);
                        },
                    }
                    proof {
                        done = done.push(wv);
                    }
                }
            } else {
                word.push(c);
            }
            i += 1;
        }
        proof {
            assert(text@.take(n as int) =~= text@);
        }
        if word.len() > 0 {
            let w = word;
            let ghost wv = w@;
            proof {
                assert(done.push(wv).drop_last() =~= done);
            }
            match apply(&mut stack, &mut objects, &mut lights, w) {
                Ok(()) => {},
                Err(e) => {
                    return Err(e);
                },
            }
        }
        Ok(Scene { objects, lights })
    }
}

} // verus!
