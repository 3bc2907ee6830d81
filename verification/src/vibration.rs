//! Effects of the motor: curves of points, by which an input becomes an intensity.
//!
//! What a curve is computed with stays open: the points hold values of any kind
//! that can be copied.

use crate::enumerate::WinwingDevice;
use crate::text;
use vstd::prelude::*;

verus! {

/// The intensities of one level, one for each point.
#[derive(Debug, PartialEq)]
pub struct Cv<T: Copy> {
    pub c: T,
    pub v: Vec<T>,
}

/// The points of an effect: their places, and the intensities of each level.
#[derive(Debug, PartialEq)]
pub struct Points<T: Copy> {
    pub x: Vec<T>,
    pub cv: Vec<Cv<T>>,
}

/// The points as their plain values: the places, and each level with its
/// intensities.
#[verifier::ext_equal]
pub struct Shape<T> {
    pub x: Seq<T>,
    pub cv: Seq<(T, Seq<T>)>,
}

/// The levels as their plain values.
pub open spec fn levels<T: Copy>(cv: Seq<Cv<T>>) -> Seq<(T, Seq<T>)> {
    Seq::new(cv.len(), |i: int| (cv[i].c, cv[i].v@))
}

impl<T: Copy> View for Points<T> {
    type V = Shape<T>;

    open spec fn view(&self) -> Shape<T> {
        Shape { x: self.x@, cv: levels(self.cv@) }
    }
}

/// The values cut or filled up to a length.
pub open spec fn resized<T>(v: Seq<T>, n: nat, zero: T) -> Seq<T> {
    Seq::new(
        n,
        |i: int|
            if i < v.len() {
                v[i]
            } else {
                zero
            },
    )
}

/// Every level has an intensity for every point, and there is a level.
pub open spec fn is_aligned<T>(s: Shape<T>) -> bool {
    &&& s.cv.len() > 0
    &&& forall|i: int| 0 <= i < s.cv.len() ==> (#[trigger] s.cv[i]).1.len() == s.x.len()
}

/// The levels, or one with zeros when there is none.
pub open spec fn with_level<T>(s: Shape<T>, zero: T) -> Shape<T> {
    if s.cv.len() == 0 {
        Shape { x: s.x, cv: seq![(zero, Seq::new(s.x.len(), |i: int| zero))] }
    } else {
        s
    }
}

/// The points with every level cut or filled up.
pub open spec fn sanitized<T>(s: Shape<T>, zero: T) -> Shape<T> {
    let w = with_level(s, zero);
    Shape {
        x: w.x,
        cv: Seq::new(w.cv.len(), |i: int| (w.cv[i].0, resized(w.cv[i].1, w.x.len(), zero))),
    }
}

/// The values with one replaced, when it is there.
pub open spec fn replaced<T>(v: Seq<T>, i: int, value: T) -> Seq<T> {
    if i < v.len() {
        v.update(i, value)
    } else {
        v
    }
}

/// The points with point `i` at a place, with an intensity on every level.
pub open spec fn pointed<T>(s: Shape<T>, i: int, x: T, v: T) -> Shape<T> {
    Shape {
        x: replaced(s.x, i, x),
        cv: Seq::new(s.cv.len(), |k: int| (s.cv[k].0, replaced(s.cv[k].1, i, v))),
    }
}

/// The points with one more at a place, without an intensity.
pub open spec fn extended<T>(s: Shape<T>, next: T, zero: T) -> Shape<T> {
    with_level(
        Shape {
            x: s.x.push(next),
            cv: Seq::new(s.cv.len(), |k: int| (s.cv[k].0, s.cv[k].1.push(zero))),
        },
        zero,
    )
}

/// The values without one of them, when it is there.
pub open spec fn without<T>(v: Seq<T>, i: int) -> Seq<T> {
    if i < v.len() {
        v.remove(i)
    } else {
        v
    }
}

/// The points without one of them; the last one stays.
pub open spec fn reduced<T>(s: Shape<T>, i: int) -> Shape<T> {
    if s.x.len() <= 1 || i >= s.x.len() {
        s
    } else {
        Shape {
            x: s.x.remove(i),
            cv: Seq::new(s.cv.len(), |k: int| (s.cv[k].0, without(s.cv[k].1, i))),
        }
    }
}

/// The place of a point and its intensity on the first level.
pub open spec fn point_of<T>(s: Shape<T>, i: int, zero: T) -> Option<(T, T)> {
    if i < s.x.len() {
        Some(
            (
                s.x[i],
                if s.cv.len() > 0 && i < s.cv[0].1.len() {
                    s.cv[0].1[i]
                } else {
                    zero
                },
            ),
        )
    } else {
        None
    }
}

/// The points with another intensity of point `i` on the first level.
pub open spec fn raised<T>(s: Shape<T>, i: int, v: T, zero: T) -> Shape<T> {
    let w = with_level(s, zero);
    Shape { x: w.x, cv: w.cv.update(0, (w.cv[0].0, replaced(w.cv[0].1, i, v))) }
}

impl<T: Copy> Points<T> {
    fn ensure_level(&mut self, zero: T)
        ensures
            final(self)@ == with_level(old(self)@, zero),
    {
        if self.cv.len() == 0 {
            let n: usize = self.x.len();
            let mut v: Vec<T> = Vec::new();
            while v.len() < n
                invariant
                    v.len() <= n,
                    v@ == Seq::new(v@.len(), |i: int| zero),
                decreases n - v.len(),
            {
                v.push(zero);
                assert(v@ == Seq::new(v@.len(), |i: int| zero));
            }
            self.cv.push(Cv { c: zero, v });
        }
        assert(self@ =~~= with_level(old(self)@, zero));
    }

    /// Gives every level as many intensities as there are points: the rest is cut,
    /// and what is missing is filled with zeros. Without a level one is made.
    pub fn sanitize(&mut self, zero: T)
        ensures
            final(self)@ == sanitized(old(self)@, zero),
    {
        self.ensure_level(zero);
        let n: usize = self.x.len();
        let ghost start = self.cv@;
        let ghost places = self.x@;
        assert(levels(start) == with_level(old(self)@, zero).cv);
        let mut i: usize = 0;
        while i < self.cv.len()
            invariant
                i <= self.cv.len(),
                n == places.len(),
                self.x@ == places,
                self.cv.len() == start.len(),
                forall|k: int| i <= k < start.len() ==> self.cv@[k] == start[k],
                forall|k: int|
                    0 <= k < i ==> (#[trigger] self.cv@[k]).c == start[k].c && self.cv@[k].v@
                        == resized(start[k].v@, n as nat, zero),
            decreases self.cv.len() - i,
        {
            let mut v: Vec<T> = Vec::new();
            while v.len() < n
                invariant
                    i < self.cv.len(),
                    v.len() <= n,
                    self.cv.len() == start.len(),
                    self.cv@[i as int] == start[i as int],
                    v@ == resized(start[i as int].v@, n as nat, zero).take(v@.len() as int),
                decreases n - v.len(),
            {
                let k: usize = v.len();
                if k < self.cv[i].v.len() {
                    v.push(self.cv[i].v[k]);
                } else {
                    v.push(zero);
                }
                assert(v@ == resized(start[i as int].v@, n as nat, zero).take(v@.len() as int));
            }
            assert(v@ == resized(start[i as int].v@, n as nat, zero));
            self.cv[i].v = v;
            i += 1;
        }
        assert(self@ =~~= sanitized(old(self)@, zero));
    }

    /// Number of points.
    pub fn npoints(&self) -> (r: usize)
        ensures
            r == self@.x.len(),
    {
        self.x.len()
    }

    /// The place of point `i` and its intensity on the first level.
    pub fn point_at(&self, i: usize, zero: T) -> (r: Option<(T, T)>)
        ensures
            r == point_of(self@, i as int, zero),
    {
        if i < self.x.len() {
            let v: T = if self.cv.len() > 0 && i < self.cv[0].v.len() {
                self.cv[0].v[i]
            } else {
                zero
            };
            Some((self.x[i], v))
        } else {
            None
        }
    }

    /// Puts point `i` at a place with an intensity, on every level.
    pub fn set_point(&mut self, i: usize, x: T, v: T)
        ensures
            final(self)@ == pointed(old(self)@, i as int, x, v),
    {
        if i < self.x.len() {
            self.x[i] = x;
        }
        let ghost start = self.cv@;
        let ghost places = self.x@;
        let mut k: usize = 0;
        while k < self.cv.len()
            invariant
                k <= self.cv.len(),
                self.x@ == places,
                self.cv.len() == start.len(),
                forall|j: int| k <= j < start.len() ==> self.cv@[j] == start[j],
                forall|j: int|
                    0 <= j < k ==> (#[trigger] self.cv@[j]).c == start[j].c && self.cv@[j].v@
                        == replaced(start[j].v@, i as int, v),
            decreases self.cv.len() - k,
        {
            if i < self.cv[k].v.len() {
                self.cv[k].v[i] = v;
            }
            k += 1;
        }
        assert(self@ =~~= pointed(old(self)@, i as int, x, v));
    }

    /// Gives point `i` another intensity on the first level.
    pub fn set_intensity(&mut self, i: usize, v: T, zero: T)
        ensures
            final(self)@ == raised(old(self)@, i as int, v, zero),
    {
        self.ensure_level(zero);
        assert(self@ == with_level(old(self)@, zero));
        let ghost start = self.cv@;
        assert(self@.cv.len() == start.len());
        if i < self.cv[0].v.len() {
            self.cv[0].v[i] = v;
        }
        assert forall|k: int| 1 <= k < start.len() implies self.cv@[k] == start[k] by {}
        assert(self@ =~~= raised(old(self)@, i as int, v, zero));
    }

    /// Adds a point at a place, with no intensity.
    pub fn add_point(&mut self, next: T, zero: T)
        ensures
            final(self)@ == extended(old(self)@, next, zero),
    {
        self.x.push(next);
        let ghost start = self.cv@;
        let ghost places = self.x@;
        let mut k: usize = 0;
        while k < self.cv.len()
            invariant
                k <= self.cv.len(),
                self.x@ == places,
                self.cv.len() == start.len(),
                forall|j: int| k <= j < start.len() ==> self.cv@[j] == start[j],
                forall|j: int|
                    0 <= j < k ==> (#[trigger] self.cv@[j]).c == start[j].c && self.cv@[j].v@
                        == start[j].v@.push(zero),
            decreases self.cv.len() - k,
        {
            self.cv[k].v.push(zero);
            k += 1;
        }
        proof {
            let s = old(self)@;
            assert(self@ =~~= (Shape {
                x: s.x.push(next),
                cv: Seq::new(s.cv.len(), |k: int| (s.cv[k].0, s.cv[k].1.push(zero))),
            }));
        }
        self.ensure_level(zero);
    }

    /// Removes point `i`; the last point stays.
    pub fn remove_point(&mut self, i: usize)
        ensures
            final(self)@ == reduced(old(self)@, i as int),
    {
        if self.x.len() <= 1 || i >= self.x.len() {
            return ;
        }
        self.x.remove(i);
        let ghost start = self.cv@;
        let ghost places = self.x@;
        let mut k: usize = 0;
        while k < self.cv.len()
            invariant
                k <= self.cv.len(),
                self.x@ == places,
                self.cv.len() == start.len(),
                forall|j: int| k <= j < start.len() ==> self.cv@[j] == start[j],
                forall|j: int|
                    0 <= j < k ==> (#[trigger] self.cv@[j]).c == start[j].c && self.cv@[j].v@
                        == without(start[j].v@, i as int),
            decreases self.cv.len() - k,
        {
            if i < self.cv[k].v.len() {
                self.cv[k].v.remove(i);
            }
            k += 1;
        }
        assert(self@ =~~= reduced(old(self)@, i as int));
    }
}

/// What is read from a file fits together once it is sanitized, and stays so
/// whatever is edited: each level keeps one intensity for each point.
pub proof fn law_points_stay_aligned<T>(s: Shape<T>, i: int, x: T, v: T, zero: T)
    requires
        0 <= i,
    ensures
        is_aligned(sanitized(s, zero)),
        is_aligned(s) ==> sanitized(s, zero) == s,
        is_aligned(s) ==> is_aligned(pointed(s, i, x, v)),
        is_aligned(s) ==> is_aligned(raised(s, i, v, zero)),
        is_aligned(s) ==> is_aligned(extended(s, x, zero)),
        is_aligned(s) ==> is_aligned(reduced(s, i)),
{
    if is_aligned(s) {
        assert(with_level(s, zero) == s);
        assert forall|k: int| 0 <= k < s.cv.len() implies resized(
            (#[trigger] s.cv[k]).1,
            s.x.len(),
            zero,
        ) == s.cv[k].1 by {
            assert(resized(s.cv[k].1, s.x.len(), zero) =~= s.cv[k].1);
        }
        assert(sanitized(s, zero).cv =~= s.cv);
        assert(sanitized(s, zero) =~= s);
        let p = pointed(s, i, x, v);
        assert forall|k: int| 0 <= k < p.cv.len() implies (#[trigger] p.cv[k]).1.len() == p.x.len() by {
            assert(s.cv[k].1.len() == s.x.len());
        }
        let r = raised(s, i, v, zero);
        assert forall|k: int| 0 <= k < r.cv.len() implies (#[trigger] r.cv[k]).1.len() == r.x.len() by {
            assert(s.cv[k].1.len() == s.x.len());
        }
        let e = extended(s, x, zero);
        assert forall|k: int| 0 <= k < e.cv.len() implies (#[trigger] e.cv[k]).1.len() == e.x.len() by {
            assert(s.cv[k].1.len() == s.x.len());
        }
        let q = reduced(s, i);
        assert forall|k: int| 0 <= k < q.cv.len() implies (#[trigger] q.cv[k]).1.len() == q.x.len() by {
            assert(s.cv[k].1.len() == s.x.len());
        }
    }
}

/// A point is read as it was put, and the other points stay as they were.
pub proof fn law_set_then_read<T>(s: Shape<T>, i: int, j: int, x: T, v: T, zero: T)
    requires
        is_aligned(s),
        0 <= i < s.x.len(),
        0 <= j,
    ensures
        point_of(pointed(s, i, x, v), i, zero) == Some((x, v)),
        j != i ==> point_of(pointed(s, i, x, v), j, zero) == point_of(s, j, zero),
{
    assert(s.cv[0].1.len() == s.x.len());
}

/// The intensity of a point is read as it was turned to, at the place where the
/// point stands; the other points, the places and the further levels stay as they
/// were.
pub proof fn law_raise_then_read<T>(s: Shape<T>, i: int, j: int, v: T, zero: T)
    requires
        is_aligned(s),
        0 <= i < s.x.len(),
        0 <= j,
    ensures
        point_of(raised(s, i, v, zero), i, zero) == Some((s.x[i], v)),
        j != i ==> point_of(raised(s, i, v, zero), j, zero) == point_of(s, j, zero),
        raised(s, i, v, zero).x == s.x,
        raised(s, i, v, zero).cv.len() == s.cv.len(),
        raised(s, i, v, zero).cv[0].0 == s.cv[0].0,
        0 < j < s.cv.len() ==> raised(s, i, v, zero).cv[j] == s.cv[j],
{
    assert(s.cv[0].1.len() == s.x.len());
}

/// Turning the intensity of a point that is not there changes no point.
pub proof fn law_raise_beyond_the_points<T>(s: Shape<T>, i: int, v: T, zero: T)
    requires
        is_aligned(s),
        i >= s.x.len(),
    ensures
        raised(s, i, v, zero) == s,
{
    assert(s.cv[0].1.len() == s.x.len());
    assert(raised(s, i, v, zero).cv =~= s.cv);
}

/// A point is put on every level: each level has the intensity there, and keeps
/// what it is called and its other intensities.
pub proof fn law_set_reaches_every_level<T>(s: Shape<T>, i: int, j: int, k: int, x: T, v: T)
    requires
        is_aligned(s),
        0 <= i < s.x.len(),
        0 <= j < s.x.len(),
        0 <= k < s.cv.len(),
    ensures
        pointed(s, i, x, v).x.len() == s.x.len(),
        pointed(s, i, x, v).cv.len() == s.cv.len(),
        pointed(s, i, x, v).cv[k].0 == s.cv[k].0,
        pointed(s, i, x, v).cv[k].1[i] == v,
        j != i ==> pointed(s, i, x, v).cv[k].1[j] == s.cv[k].1[j],
{
    assert(s.cv[k].1.len() == s.x.len());
}

/// A point that is added comes last, at its place and without an intensity on any
/// level; the points before it stay as they were.
pub proof fn law_added_point_is_last<T>(s: Shape<T>, j: int, k: int, next: T, zero: T)
    requires
        is_aligned(s),
        0 <= j < s.x.len(),
        0 <= k < s.cv.len(),
    ensures
        extended(s, next, zero).x.len() == s.x.len() + 1,
        point_of(extended(s, next, zero), s.x.len() as int, zero) == Some((next, zero)),
        point_of(extended(s, next, zero), j, zero) == point_of(s, j, zero),
        extended(s, next, zero).cv.len() == s.cv.len(),
        extended(s, next, zero).cv[k].0 == s.cv[k].0,
        extended(s, next, zero).cv[k].1[s.x.len() as int] == zero,
        extended(s, next, zero).cv[k].1[j] == s.cv[k].1[j],
{
    assert(s.cv[0].1.len() == s.x.len());
    assert(s.cv[k].1.len() == s.x.len());
}

/// Without one of its points a curve keeps the others in their order, on every
/// level.
pub proof fn law_removal_takes_one_point<T>(s: Shape<T>, i: int, j: int, k: int, zero: T)
    requires
        is_aligned(s),
        s.x.len() > 1,
        0 <= i < s.x.len(),
        0 <= j < s.x.len() - 1,
        0 <= k < s.cv.len(),
    ensures
        ({
            let from = if j < i {
                j
            } else {
                j + 1
            };
            &&& reduced(s, i).x.len() == s.x.len() - 1
            &&& point_of(reduced(s, i), j, zero) == point_of(s, from, zero)
            &&& reduced(s, i).cv.len() == s.cv.len()
            &&& reduced(s, i).cv[k].0 == s.cv[k].0
            &&& reduced(s, i).cv[k].1[j] == s.cv[k].1[from]
        }),
{
    assert(s.cv[0].1.len() == s.x.len());
    assert(s.cv[k].1.len() == s.x.len());
}

/// Fitting the levels to the points changes no point: each is where it was, with
/// the intensity that is shown for it, and what a level lacks is zero.
pub proof fn law_sanitizing_keeps_the_points<T>(s: Shape<T>, i: int, k: int, zero: T)
    requires
        0 <= i,
        0 <= k < s.cv.len(),
    ensures
        sanitized(s, zero).x == s.x,
        point_of(sanitized(s, zero), i, zero) == point_of(s, i, zero),
        sanitized(s, zero).cv.len() == s.cv.len(),
        sanitized(s, zero).cv[k].0 == s.cv[k].0,
        i < s.x.len() && i < s.cv[k].1.len() ==> sanitized(s, zero).cv[k].1[i] == s.cv[k].1[i],
        s.cv[k].1.len() <= i < s.x.len() ==> sanitized(s, zero).cv[k].1[i] == zero,
{
}

/// A curve without levels is given one, on which every point has no intensity.
pub proof fn law_first_level_is_empty<T>(s: Shape<T>, i: int, zero: T)
    requires
        s.cv.len() == 0,
        0 <= i < s.x.len(),
    ensures
        sanitized(s, zero).cv.len() == 1,
        point_of(sanitized(s, zero), i, zero) == Some((s.x[i], zero)),
{
}

/// Removing the point that was just added leaves the points as they were.
pub proof fn law_add_then_remove<T>(s: Shape<T>, next: T, zero: T)
    requires
        is_aligned(s),
        s.x.len() > 0,
    ensures
        reduced(extended(s, next, zero), s.x.len() as int) == s,
{
    let e = extended(s, next, zero);
    let r = reduced(e, s.x.len() as int);
    assert(r.x =~= s.x);
    assert forall|k: int| 0 <= k < s.cv.len() implies r.cv[k] == (#[trigger] s.cv[k]) by {
        assert(s.cv[k].1.push(zero).remove(s.x.len() as int) =~= s.cv[k].1);
    }
    assert(r.cv =~= s.cv);
}

/// However often a point is removed, one is left.
pub proof fn law_one_point_stays<T>(s: Shape<T>, i: int)
    requires
        s.x.len() > 0,
        0 <= i,
    ensures
        reduced(s, i).x.len() > 0,
        s.x.len() == 1 ==> reduced(s, i) == s,
{
}

// --- Configuration ----------------------------------------------------------------------------

/// An effect: its name, whether it is on, its ranges and its points.
#[derive(Debug, PartialEq)]
pub struct VibEffect<T: Copy> {
    pub name: String,
    pub enable: bool,
    pub x_axis: Option<String>,
    pub x_min: T,
    pub x_max: T,
    pub v_min: T,
    pub v_max: T,
    pub points: Points<T>,
}

/// The configuration of a joystick.
#[derive(Debug, PartialEq)]
pub struct VibFile<T: Copy> {
    pub format: String,
    pub version: u32,
    pub intensity: T,
    pub effects: Vec<VibEffect<T>>,
}

/// The effect is another one but for its points, which are sanitized.
pub open spec fn is_sanitized<T: Copy>(e: VibEffect<T>, from: VibEffect<T>, zero: T) -> bool {
    &&& e.name == from.name
    &&& e.enable == from.enable
    &&& e.x_axis == from.x_axis
    &&& e.x_min == from.x_min
    &&& e.x_max == from.x_max
    &&& e.v_min == from.v_min
    &&& e.v_max == from.v_max
    &&& e.points@ == sanitized(from.points@, zero)
}

/// The configuration to work with: the stored one, or the default one when none was
/// stored, it could not be read, or it holds no effects.
pub fn settle<T: Copy>(stored: Option<VibFile<T>>, fallback: VibFile<T>, zero: T) -> (r: VibFile<T>)
    ensures
        ({
            let from = if stored is Some && stored->0.effects@.len() > 0 {
                stored->0
            } else {
                fallback
            };
            &&& r.format == from.format
            &&& r.version == from.version
            &&& r.intensity == from.intensity
            &&& r.effects@.len() == from.effects@.len()
            &&& forall|i: int|
                0 <= i < r.effects@.len() ==> is_sanitized(
                    #[trigger] r.effects@[i],
                    from.effects@[i],
                    zero,
                )
        }),
{
    let mut cfg: VibFile<T> = match stored {
        Some(s) => if s.effects.len() > 0 {
            s
        } else {
            fallback
        },
        None => fallback,
    };
    let ghost from = cfg;
    let mut i: usize = 0;
    while i < cfg.effects.len()
        invariant
            i <= cfg.effects.len(),
            cfg.format == from.format,
            cfg.version == from.version,
            cfg.intensity == from.intensity,
            cfg.effects@.len() == from.effects@.len(),
            forall|k: int| i <= k < from.effects@.len() ==> cfg.effects@[k] == from.effects@[k],
            forall|k: int|
                0 <= k < i ==> is_sanitized(#[trigger] cfg.effects@[k], from.effects@[k], zero),
        decreases cfg.effects.len() - i,
    {
        cfg.effects[i].points.sanitize(zero);
        i += 1;
    }
    cfg
}

/// The letters and digits of a text.
pub open spec fn alphanumeric(s: Seq<char>) -> Seq<char>
    decreases s.len(),
{
    if s.len() == 0 {
        Seq::empty()
    } else if is_alphanumeric(s.last()) {
        alphanumeric(s.drop_last()).push(s.last())
    } else {
        alphanumeric(s.drop_last())
    }
}

/// A letter or digit of ASCII.
pub open spec fn is_alphanumeric(c: char) -> bool {
    'a' <= c <= 'z' || 'A' <= c <= 'Z' || '0' <= c <= '9'
}

/// The key of a joystick: its product number, and the letters and digits of its
/// serial number when there are any.
pub open spec fn key_of(pid: u16, serial: Seq<char>) -> Seq<char> {
    let s = alphanumeric(serial);
    if s.len() == 0 {
        text::hex_fill(pid as nat, 4)
    } else {
        text::hex_fill(pid as nat, 4) + "-"@ + s
    }
}

/// The key of a joystick, from which the name of its file is made.
pub fn device_key(dev: &WinwingDevice) -> (r: String)
    ensures
        r@ == key_of(dev.pid, dev.serial@),
{
    let chars: Vec<char> = text::chars_of(dev.serial.as_str());
    let mut serial: String = String::new();
    let mut any: bool = false;
    let mut i: usize = 0;
    assert(serial@ == alphanumeric(chars@.take(0)));
    while i < chars.len()
        invariant
            i <= chars.len(),
            serial@ == alphanumeric(chars@.take(i as int)),
            any == (serial@.len() > 0),
        decreases chars.len() - i,
    {
        assert(chars@.take(i + 1).drop_last() == chars@.take(i as int));
        assert(chars@.take(i + 1).last() == chars@[i as int]);
        let c: char = chars[i];
        if ('a' <= c && c <= 'z') || ('A' <= c && c <= 'Z') || ('0' <= c && c <= '9') {
            serial.push(c);
            any = true;
        }
        i += 1;
    }
    assert(chars@.take(i as int) == chars@);
    let mut out: String = text::hex_text(dev.pid as u64, 4);
    if any {
        out.append("-");
        out.append(serial.as_str());
    }
    out
}

proof fn lemma_alphanumeric(s: Seq<char>, i: int)
    requires
        0 <= i < alphanumeric(s).len(),
    ensures
        is_alphanumeric(alphanumeric(s)[i]),
    decreases s.len(),
{
    let before = alphanumeric(s.drop_last());
    if i < before.len() {
        lemma_alphanumeric(s.drop_last(), i);
    }
}

/// Whatever the serial number holds, the key after the product number is a dash and
/// characters that are letters and digits: no path can be made of it.
pub proof fn law_key_is_a_file_name(pid: u16, serial: Seq<char>, i: int)
    requires
        text::hex_fill(pid as nat, 4).len() <= i < key_of(pid, serial).len(),
    ensures
        is_alphanumeric(key_of(pid, serial)[i]) || key_of(pid, serial)[i] == '-',
{
    let n = text::hex_fill(pid as nat, 4).len();
    let s = alphanumeric(serial);
    reveal_strlit("-");
    if i > n {
        lemma_alphanumeric(serial, i - n - 1);
        assert(key_of(pid, serial)[i] == s[i - n - 1]);
    }
}

/// Where the configurations of effects are stored.
pub open spec fn vibration_dir(home: Seq<char>) -> Seq<char> {
    text::below(home, ".local/share/winctrl/vibration"@)
}

/// The directory of the configurations, below the home of the user.
pub fn config_dir(home: &str) -> (r: String)
    ensures
        r@ == vibration_dir(home@),
{
    text::path_below(home, ".local/share/winctrl/vibration")
}

/// The file of a configuration.
pub fn config_path(home: &str, key: &str) -> (r: String)
    ensures
        r@ == text::below(vibration_dir(home@), key@ + ".json"@),
{
    let mut name: String = key.to_string();
    name.append(".json");
    text::path_below(config_dir(home).as_str(), name.as_str())
}

proof fn lemma_alphanumeric_same(s: Seq<char>)
    requires
        forall|i: int|
            0 <= i < s.len() ==> ('a' <= #[trigger] s[i] <= 'z' || 'A' <= s[i] <= 'Z' || '0' <= s[i]
                <= '9'),
    ensures
        alphanumeric(s) == s,
    decreases s.len(),
{
    if s.len() > 0 {
        let rest = s.drop_last();
        assert forall|i: int| 0 <= i < rest.len() implies ('a' <= #[trigger] rest[i] <= 'z' || 'A'
            <= rest[i] <= 'Z' || '0' <= rest[i] <= '9') by {
            assert(rest[i] == s[i]);
        }
        lemma_alphanumeric_same(rest);
        assert(s[s.len() - 1] == s.last());
        assert(s =~= rest.push(s.last()));
    }
}

/// A joystick is known by its product and by the letters and digits of its serial
/// number, all of them and in order; other characters do not matter.
pub proof fn law_key_tells_the_serial_number(pid: u16, serial: Seq<char>, other: char)
    requires
        serial.len() > 0,
        forall|i: int|
            0 <= i < serial.len() ==> ('a' <= #[trigger] serial[i] <= 'z' || 'A' <= serial[i]
                <= 'Z' || '0' <= serial[i] <= '9'),
        !('a' <= other <= 'z' || 'A' <= other <= 'Z' || '0' <= other <= '9'),
    ensures
        key_of(pid, serial) == text::hex_fill(pid as nat, 4) + "-"@ + serial,
        key_of(pid, serial.push(other)) == key_of(pid, serial),
        key_of(pid, Seq::empty()) == text::hex_fill(pid as nat, 4),
{
    lemma_alphanumeric_same(serial);
    assert(serial.push(other).drop_last() =~= serial);
}

/// The stored configuration is the one to work with as soon as it holds an effect;
/// each of its effects is kept, with its ranges and whether it is on, and can be
/// edited safely.
pub proof fn law_stored_effects_are_kept<T: Copy>(
    stored: VibFile<T>,
    fallback: VibFile<T>,
    zero: T,
    r: VibFile<T>,
    i: int,
)
    requires
        call_ensures(settle::<T>, (Some(stored), fallback, zero), r),
        stored.effects@.len() > 0,
        0 <= i < stored.effects@.len(),
    ensures
        r.intensity == stored.intensity,
        r.effects@.len() == stored.effects@.len(),
        r.effects@[i].name == stored.effects@[i].name,
        r.effects@[i].enable == stored.effects@[i].enable,
        r.effects@[i].x_min == stored.effects@[i].x_min,
        r.effects@[i].x_max == stored.effects@[i].x_max,
        r.effects@[i].v_min == stored.effects@[i].v_min,
        r.effects@[i].v_max == stored.effects@[i].v_max,
        r.effects@[i].points@.x == stored.effects@[i].points@.x,
        is_aligned(r.effects@[i].points@),
{
    assert(is_sanitized(r.effects@[i], stored.effects@[i], zero));
    law_points_stay_aligned(stored.effects@[i].points@, 0, zero, zero, zero);
}

/// Without a stored configuration, or with an empty one, the default one is taken.
pub proof fn law_default_effects<T: Copy>(
    stored: Option<VibFile<T>>,
    fallback: VibFile<T>,
    zero: T,
    r: VibFile<T>,
)
    requires
        call_ensures(settle::<T>, (stored, fallback, zero), r),
        stored matches Some(s) ==> s.effects@.len() == 0,
    ensures
        r.intensity == fallback.intensity,
        r.effects@.len() == fallback.effects@.len(),
{
}

} // verus!
