//! The partial order of geometries: first by kind, then lexicographically by
//! their coordinates, each compared as binary64 values.
use crate::binary64;
use crate::geometry::{kind_rank, Coord, Geometry, Polygon};
use crate::number::{int_order, merged_key, ordering_is};
use core::cmp::Ordering;
use vstd::prelude::*;

verus! {

/// The binary64 comparison (`partial_cmp`): none with a NaN, the two zeros
/// equal, otherwise by value.
pub open spec fn float_partial(a: u64, b: u64) -> Option<int> {
    if binary64::is_nan(a) || binary64::is_nan(b) {
        None
    } else {
        Some(int_order(merged_key(a), merged_key(b)))
    }
}

/// Coordinate pairs compared as `(x, y)` tuples: by `x`, then by `y`.
pub open spec fn pair_partial(a: Coord, b: Coord) -> Option<int> {
    if float_partial(a.x, b.x) == Some(0int) {
        float_partial(a.y, b.y)
    } else {
        float_partial(a.x, b.x)
    }
}

/// Sequences of pairs compared lexicographically (`Iterator::partial_cmp`):
/// the first pair that is not equal decides; otherwise the shorter is less.
pub open spec fn pairs_partial(a: Seq<Coord>, b: Seq<Coord>) -> Option<int>
    decreases a.len(),
{
    if a.len() == 0 {
        if b.len() == 0 {
            Some(0)
        } else {
            Some(-1)
        }
    } else if b.len() == 0 {
        Some(1)
    } else {
        if pair_partial(a[0], b[0]) == Some(0int) {
            pairs_partial(a.drop_first(), b.drop_first())
        } else {
            pair_partial(a[0], b[0])
        }
    }
}

/// The pairs of a polygon in the order they are compared: the interior
/// rings, then the exterior ring.
pub open spec fn polygon_pairs(p: Polygon<Coord>) -> Seq<Coord> {
    p.interiors@.map_values(|r: Vec<Coord>| r@).flatten() + p.exterior@
}

/// The pairs of several lines, one line after the other.
pub open spec fn lines_pairs(ls: Seq<Vec<Coord>>) -> Seq<Coord> {
    ls.map_values(|r: Vec<Coord>| r@).flatten()
}

/// The pairs of several polygons, one polygon after the other.
pub open spec fn polygons_pairs(ps: Seq<Polygon<Coord>>) -> Seq<Coord> {
    ps.map_values(|p: Polygon<Coord>| polygon_pairs(p)).flatten()
}

/// How geometry `a` compares with `b` (`PartialOrd::partial_cmp`): kinds in
/// the order point, line, polygon, multi-point, multi-line, multi-polygon,
/// collection; two of a kind by their pairs, and two collections
/// lexicographically by their members. `None` where a NaN decides.
pub open spec fn geometry_order(a: Geometry<Coord>, b: Geometry<Coord>) -> Option<int>
    decreases a,
{
    if kind_rank(a) != kind_rank(b) {
        Some(int_order(kind_rank(a), kind_rank(b)))
    } else {
        match (a, b) {
            (Geometry::Point(x), Geometry::Point(y)) => pair_partial(x, y),
            (Geometry::Line(v), Geometry::Line(w)) => pairs_partial(v@, w@),
            (Geometry::Polygon(p), Geometry::Polygon(q)) => pairs_partial(
                polygon_pairs(p),
                polygon_pairs(q),
            ),
            (Geometry::MultiPoint(v), Geometry::MultiPoint(w)) => pairs_partial(v@, w@),
            (Geometry::MultiLine(v), Geometry::MultiLine(w)) => pairs_partial(
                lines_pairs(v@),
                lines_pairs(w@),
            ),
            (Geometry::MultiPolygon(v), Geometry::MultiPolygon(w)) => pairs_partial(
                polygons_pairs(v@),
                polygons_pairs(w@),
            ),
            (Geometry::Collection(v), Geometry::Collection(w)) => geometries_order(v@, w@),
            _ => None,
        }
    }
}

/// Sequences of geometries compared lexicographically (slices' `partial_cmp`).
pub open spec fn geometries_order(a: Seq<Geometry<Coord>>, b: Seq<Geometry<Coord>>) -> Option<
    int,
>
    decreases a,
{
    if a.len() == 0 {
        if b.len() == 0 {
            Some(0)
        } else {
            Some(-1)
        }
    } else if b.len() == 0 {
        Some(1)
    } else {
        if geometry_order(a[0], b[0]) == Some(0int) {
            geometries_order(a.drop_first(), b.drop_first())
        } else {
            geometry_order(a[0], b[0])
        }
    }
}

/// The optional `Ordering` stands for the optional -1, 0 or 1.
pub open spec fn partial_is(r: Option<Ordering>, v: Option<int>) -> bool {
    match v {
        None => r is None,
        Some(k) => r matches Some(o) && ordering_is(o, k),
    }
}

/// The result of comparing the other way round.
pub open spec fn reversed(v: Option<int>) -> Option<int> {
    match v {
        None => None,
        Some(k) => Some(-k),
    }
}


/// The sign of an optional comparison result, as -1, 0 or 1.
pub open spec fn code(v: Option<int>) -> Option<i8> {
    match v {
        None => None,
        Some(k) => Some(
            if k < 0 {
                -1i8
            } else if k == 0 {
                0i8
            } else {
                1i8
            },
        ),
    }
}

/// Compares two binary64 patterns (`f64::partial_cmp`).
fn compare_coordinate(a: u64, b: u64) -> (r: Option<i8>)
    ensures
        r == code(float_partial(a, b)),
{
    if binary64::nan(a) || binary64::nan(b) {
        return None;
    }
    let x = merged_key_of(a);
    let y = merged_key_of(b);
    if x < y {
        Some(-1)
    } else if x == y {
        Some(0)
    } else {
        Some(1)
    }
}

fn merged_key_of(b: u64) -> (r: i64)
    ensures
        r == merged_key(b),
{
    if binary64::zero(b) {
        0
    } else {
        binary64::order_key_of(b)
    }
}

fn compare_pairs(a: &Coord, b: &Coord) -> (r: Option<i8>)
    ensures
        r == code(pair_partial(*a, *b)),
{
    let first = compare_coordinate(a.x, b.x);
    match first {
        Some(0) => compare_coordinate(a.y, b.y),
        _ => first,
    }
}

/// Compares two sequences of pairs lexicographically.
fn compare_pair_sequences(a: &Vec<Coord>, b: &Vec<Coord>) -> (r: Option<i8>)
    ensures
        r == code(pairs_partial(a@, b@)),
{
    let mut i: usize = 0;
    proof {
        assert(a@.skip(0) =~= a@);
        assert(b@.skip(0) =~= b@);
    }
    while i < a.len() && i < b.len()
        invariant
            i <= a@.len(),
            i <= b@.len(),
            pairs_partial(a@, b@) == pairs_partial(a@.skip(i as int), b@.skip(i as int)),
        decreases a@.len() - i,
    {
        let c = compare_pairs(&a[i], &b[i]);
        proof {
            assert(a@.skip(i as int)[0] == a@[i as int]);
            assert(b@.skip(i as int)[0] == b@[i as int]);
            assert(a@.skip(i as int).drop_first() =~= a@.skip(i + 1));
            assert(b@.skip(i as int).drop_first() =~= b@.skip(i + 1));
        }
        match c {
            Some(0) => {},
            _ => {
                return c;
            },
        }
        i = i + 1;
    }
    if i == a.len() {
        if i == b.len() {
            Some(0)
        } else {
            Some(-1)
        }
    } else {
        Some(1)
    }
}

/// Appends the pairs of the rings, one ring after the other.
fn push_rings(out: &mut Vec<Coord>, rings: &Vec<Vec<Coord>>)
    ensures
        final(out)@ == old(out)@ + rings@.map_values(|r: Vec<Coord>| r@).flatten(),
{
    let ghost start = out@;
    let ghost views = rings@.map_values(|r: Vec<Coord>| r@);
    let mut i: usize = 0;
    while i < rings.len()
        invariant
            i <= rings@.len(),
            views == rings@.map_values(|r: Vec<Coord>| r@),
            out@ == start + views.take(i as int).flatten(),
        decreases rings@.len() - i,
    {
        let ring = &rings[i];
        let mut j: usize = 0;
        let ghost before = out@;
        while j < ring.len()
            invariant
                j <= ring@.len(),
                out@ == before + ring@.take(j as int),
            decreases ring@.len() - j,
        {
            out.push(ring[j]);
            proof {
                assert(ring@.take(j + 1) =~= ring@.take(j as int).push(ring@[j as int]));
            }
            j = j + 1;
        }
        proof {
            assert(ring@.take(ring@.len() as int) =~= ring@);
            assert(views.take(i + 1) =~= views.take(i as int).push(views[i as int]));
            views.take(i as int).lemma_flatten_push(views[i as int]);
            vstd::seq_lib::lemma_concat_associative(start, views.take(i as int).flatten(), ring@);
        }
        i = i + 1;
    }
    proof {
        assert(views.take(rings@.len() as int) =~= views);
    }
}

fn push_polygon(out: &mut Vec<Coord>, p: &Polygon<Coord>)
    ensures
        final(out)@ == old(out)@ + polygon_pairs(*p),
{
    let ghost start = out@;
    push_rings(out, &p.interiors);
    let ghost middle = out@;
    let mut j: usize = 0;
    while j < p.exterior.len()
        invariant
            j <= p.exterior@.len(),
            out@ == middle + p.exterior@.take(j as int),
        decreases p.exterior@.len() - j,
    {
        out.push(p.exterior[j]);
        proof {
            assert(p.exterior@.take(j + 1) =~= p.exterior@.take(j as int).push(p.exterior@[j as int]));
        }
        j = j + 1;
    }
    proof {
        assert(p.exterior@.take(p.exterior@.len() as int) =~= p.exterior@);
        vstd::seq_lib::lemma_concat_associative(
            start,
            p.interiors@.map_values(|r: Vec<Coord>| r@).flatten(),
            p.exterior@,
        );
    }
}

fn polygon_pair_list(p: &Polygon<Coord>) -> (r: Vec<Coord>)
    ensures
        r@ == polygon_pairs(*p),
{
    let mut out = Vec::new();
    push_polygon(&mut out, p);
    proof {
        assert(Seq::<Coord>::empty() + polygon_pairs(*p) =~= polygon_pairs(*p));
    }
    out
}

fn lines_pair_list(ls: &Vec<Vec<Coord>>) -> (r: Vec<Coord>)
    ensures
        r@ == lines_pairs(ls@),
{
    let mut out = Vec::new();
    push_rings(&mut out, ls);
    proof {
        assert(Seq::<Coord>::empty() + lines_pairs(ls@) =~= lines_pairs(ls@));
    }
    out
}

fn polygons_pair_list(ps: &Vec<Polygon<Coord>>) -> (r: Vec<Coord>)
    ensures
        r@ == polygons_pairs(ps@),
{
    let ghost views = ps@.map_values(|p: Polygon<Coord>| polygon_pairs(p));
    let mut out: Vec<Coord> = Vec::new();
    let mut i: usize = 0;
    proof {
        assert(views.take(0) =~= Seq::<Seq<Coord>>::empty());
        assert(out@ =~= views.take(0).flatten());
    }
    while i < ps.len()
        invariant
            i <= ps@.len(),
            views == ps@.map_values(|p: Polygon<Coord>| polygon_pairs(p)),
            out@ == views.take(i as int).flatten(),
        decreases ps@.len() - i,
    {
        push_polygon(&mut out, &ps[i]);
        proof {
            assert(views.take(i + 1) =~= views.take(i as int).push(views[i as int]));
            views.take(i as int).lemma_flatten_push(views[i as int]);
        }
        i = i + 1;
    }
    proof {
        assert(views.take(ps@.len() as int) =~= views);
    }
    out
}

fn compare_ranks(a: u8, b: u8) -> (r: i8)
    ensures
        r == int_order(a as int, b as int),
{
    if a < b {
        -1
    } else if a == b {
        0
    } else {
        1
    }
}

fn rank_of(g: &Geometry<Coord>) -> (r: u8)
    ensures
        r == kind_rank(*g),
{
    match g {
        Geometry::Point(_) => 0,
        Geometry::Line(_) => 1,
        Geometry::Polygon(_) => 2,
        Geometry::MultiPoint(_) => 3,
        Geometry::MultiLine(_) => 4,
        Geometry::MultiPolygon(_) => 5,
        Geometry::Collection(_) => 6,
    }
}

fn compare_geometries(a: &Geometry<Coord>, b: &Geometry<Coord>) -> (r: Option<i8>)
    ensures
        r == code(geometry_order(*a, *b)),
    decreases a,
{
    let ra = rank_of(a);
    let rb = rank_of(b);
    if ra != rb {
        return Some(compare_ranks(ra, rb));
    }
    match (a, b) {
        (Geometry::Point(x), Geometry::Point(y)) => compare_pairs(x, y),
        (Geometry::Line(v), Geometry::Line(w)) => compare_pair_sequences(v, w),
        (Geometry::Polygon(p), Geometry::Polygon(q)) => compare_pair_sequences(
            &polygon_pair_list(p),
            &polygon_pair_list(q),
        ),
        (Geometry::MultiPoint(v), Geometry::MultiPoint(w)) => compare_pair_sequences(v, w),
        (Geometry::MultiLine(v), Geometry::MultiLine(w)) => compare_pair_sequences(
            &lines_pair_list(v),
            &lines_pair_list(w),
        ),
        (Geometry::MultiPolygon(v), Geometry::MultiPolygon(w)) => compare_pair_sequences(
            &polygons_pair_list(v),
            &polygons_pair_list(w),
        ),
        (Geometry::Collection(v), Geometry::Collection(w)) => {
            proof {
                assert(decreases_to!(*a => (*a)->Collection_0));
                assert(decreases_to!(*v => v@));
            }
            compare_members(v, w)
        },
        _ => None,
    }
}

/// Compares two collections' members lexicographically.
fn compare_members(v: &Vec<Geometry<Coord>>, w: &Vec<Geometry<Coord>>) -> (r: Option<i8>)
    ensures
        r == code(geometries_order(v@, w@)),
    decreases v@,
{
    let mut i: usize = 0;
    proof {
        assert(v@.skip(0) =~= v@);
        assert(w@.skip(0) =~= w@);
    }
    while i < v.len() && i < w.len()
        invariant
            i <= v@.len(),
            i <= w@.len(),
            geometries_order(v@, w@) == geometries_order(v@.skip(i as int), w@.skip(i as int)),
        decreases v@.len() - i,
    {
        proof {
            assert(decreases_to!(v@ => v@[i as int]));
            assert(v@.skip(i as int)[0] == v@[i as int]);
            assert(w@.skip(i as int)[0] == w@[i as int]);
            assert(v@.skip(i as int).drop_first() =~= v@.skip(i + 1));
            assert(w@.skip(i as int).drop_first() =~= w@.skip(i + 1));
        }
        let c = compare_geometries(&v[i], &w[i]);
        match c {
            Some(0) => {},
            _ => {
                return c;
            },
        }
        i = i + 1;
    }
    if i == v.len() {
        if i == w.len() {
            Some(0)
        } else {
            Some(-1)
        }
    } else {
        Some(1)
    }
}

/// `x` is below `y` as binary64 values (neither a NaN; the two zeros equal).
pub open spec fn value_below(x: u64, y: u64) -> bool {
    merged_key(x) < merged_key(y)
}

/// Two points compared as the tuples `(x, y)`, in argument order: a NaN in
/// the `x`s leaves them unordered; otherwise the `x`s decide where they
/// differ, and the `y`s where they are equal (a NaN there leaving them
/// unordered).
pub open spec fn points_compared(a: Coord, b: Coord, r: Option<Ordering>) -> bool {
    if binary64::is_nan(a.x) || binary64::is_nan(b.x) {
        r is None
    } else if value_below(a.x, b.x) {
        r == Some(Ordering::Less)
    } else if value_below(b.x, a.x) {
        r == Some(Ordering::Greater)
    } else if binary64::is_nan(a.y) || binary64::is_nan(b.y) {
        r is None
    } else if value_below(a.y, b.y) {
        r == Some(Ordering::Less)
    } else if value_below(b.y, a.y) {
        r == Some(Ordering::Greater)
    } else {
        r == Some(Ordering::Equal)
    }
}

impl Geometry<Coord> {
    /// How `self` compares with `other` (`PartialOrd::partial_cmp`).
    pub fn partial_cmp(&self, other: &Geometry<Coord>) -> (r: Option<Ordering>)
        ensures
            partial_is(r, geometry_order(*self, *other)),
            kind_rank(*self) < kind_rank(*other) ==> r == Some(Ordering::Less),
            kind_rank(*self) > kind_rank(*other) ==> r == Some(Ordering::Greater),
            *self matches Geometry::Point(a) ==> (*other matches Geometry::Point(b) ==> points_compared(
                a,
                b,
                r,
            )),
    {
        match compare_geometries(self, other) {
            None => None,
            Some(k) => Some(
                if k < 0 {
                    Ordering::Less
                } else if k == 0 {
                    Ordering::Equal
                } else {
                    Ordering::Greater
                },
            ),
        }
    }
}


proof fn lemma_pair_antisymmetric(a: Coord, b: Coord)
    ensures
        pair_partial(b, a) == reversed(pair_partial(a, b)),
{
}

proof fn lemma_pairs_antisymmetric(a: Seq<Coord>, b: Seq<Coord>)
    ensures
        pairs_partial(b, a) == reversed(pairs_partial(a, b)),
    decreases a.len(),
{
    if a.len() > 0 && b.len() > 0 {
        lemma_pair_antisymmetric(a[0], b[0]);
        lemma_pairs_antisymmetric(a.drop_first(), b.drop_first());
    }
}

/// Comparing two geometries the other way round reverses the result (and a
/// comparison that a NaN leaves undecided stays undecided).
pub proof fn lemma_geometry_order_antisymmetric(a: Geometry<Coord>, b: Geometry<Coord>)
    ensures
        geometry_order(b, a) == reversed(geometry_order(a, b)),
    decreases a,
{
    if kind_rank(a) == kind_rank(b) {
        match (a, b) {
            (Geometry::Point(x), Geometry::Point(y)) => lemma_pair_antisymmetric(x, y),
            (Geometry::Line(v), Geometry::Line(w)) => lemma_pairs_antisymmetric(v@, w@),
            (Geometry::Polygon(p), Geometry::Polygon(q)) => lemma_pairs_antisymmetric(
                polygon_pairs(p),
                polygon_pairs(q),
            ),
            (Geometry::MultiPoint(v), Geometry::MultiPoint(w)) => lemma_pairs_antisymmetric(v@, w@),
            (Geometry::MultiLine(v), Geometry::MultiLine(w)) => lemma_pairs_antisymmetric(
                lines_pairs(v@),
                lines_pairs(w@),
            ),
            (Geometry::MultiPolygon(v), Geometry::MultiPolygon(w)) => lemma_pairs_antisymmetric(
                polygons_pairs(v@),
                polygons_pairs(w@),
            ),
            (Geometry::Collection(v), Geometry::Collection(w)) => {
                assert(decreases_to!(a => a->Collection_0));
                assert(decreases_to!(v => v@));
                lemma_geometries_order_antisymmetric(v@, w@);
            },
            _ => {},
        }
    }
}

/// Comparing two sequences of geometries the other way round reverses the result.
pub proof fn lemma_geometries_order_antisymmetric(
    a: Seq<Geometry<Coord>>,
    b: Seq<Geometry<Coord>>,
)
    ensures
        geometries_order(b, a) == reversed(geometries_order(a, b)),
    decreases a,
{
    if a.len() > 0 && b.len() > 0 {
        assert(decreases_to!(a => a[0]));
        lemma_geometry_order_antisymmetric(a[0], b[0]);
        lemma_geometries_order_antisymmetric(a.drop_first(), b.drop_first());
    }
}

/// A decided comparison that finds the first not above the second.
pub open spec fn not_above(v: Option<int>) -> bool {
    v matches Some(k) && k <= 0
}

/// A decided comparison that finds the first below the second.
pub open spec fn below(v: Option<int>) -> bool {
    v matches Some(k) && k < 0
}

proof fn lemma_float_transitive(a: u64, b: u64, c: u64)
    requires
        not_above(float_partial(a, b)),
        not_above(float_partial(b, c)),
    ensures
        not_above(float_partial(a, c)),
        below(float_partial(a, b)) || below(float_partial(b, c)) ==> below(float_partial(a, c)),
{
}

proof fn lemma_pair_transitive(a: Coord, b: Coord, c: Coord)
    requires
        not_above(pair_partial(a, b)),
        not_above(pair_partial(b, c)),
    ensures
        not_above(pair_partial(a, c)),
        below(pair_partial(a, b)) || below(pair_partial(b, c)) ==> below(pair_partial(a, c)),
{
    assert(not_above(float_partial(a.x, b.x)));
    assert(not_above(float_partial(b.x, c.x)));
    lemma_float_transitive(a.x, b.x, c.x);
    if float_partial(a.x, b.x) == Some(0int) && float_partial(b.x, c.x) == Some(0int) {
        lemma_float_transitive(a.y, b.y, c.y);
    }
}

proof fn lemma_pairs_transitive(a: Seq<Coord>, b: Seq<Coord>, c: Seq<Coord>)
    requires
        not_above(pairs_partial(a, b)),
        not_above(pairs_partial(b, c)),
    ensures
        not_above(pairs_partial(a, c)),
        below(pairs_partial(a, b)) || below(pairs_partial(b, c)) ==> below(pairs_partial(a, c)),
    decreases a.len(),
{
    if a.len() > 0 && b.len() > 0 && c.len() > 0 {
        let p1 = pair_partial(a[0], b[0]);
        let p2 = pair_partial(b[0], c[0]);
        assert(not_above(p1));
        assert(not_above(p2));
        lemma_pair_transitive(a[0], b[0], c[0]);
        if p1 == Some(0int) && p2 == Some(0int) {
            lemma_pairs_transitive(a.drop_first(), b.drop_first(), c.drop_first());
        }
    }
}

/// The order of geometries is transitive: where `a` is not above `b` and `b`
/// not above `c`, `a` is not above `c`, and below it where either step is
/// strict.
pub proof fn lemma_geometry_order_transitive(a: Geometry<Coord>, b: Geometry<Coord>, c: Geometry<Coord>)
    requires
        not_above(geometry_order(a, b)),
        not_above(geometry_order(b, c)),
    ensures
        not_above(geometry_order(a, c)),
        below(geometry_order(a, b)) || below(geometry_order(b, c)) ==> below(geometry_order(a, c)),
    decreases a,
{
    if kind_rank(a) == kind_rank(b) && kind_rank(b) == kind_rank(c) {
        match (a, b, c) {
            (Geometry::Point(x), Geometry::Point(y), Geometry::Point(z)) => lemma_pair_transitive(x, y, z),
            (Geometry::Line(u), Geometry::Line(v), Geometry::Line(w)) => lemma_pairs_transitive(u@, v@, w@),
            (Geometry::Polygon(p), Geometry::Polygon(q), Geometry::Polygon(r)) => lemma_pairs_transitive(
                polygon_pairs(p),
                polygon_pairs(q),
                polygon_pairs(r),
            ),
            (Geometry::MultiPoint(u), Geometry::MultiPoint(v), Geometry::MultiPoint(w)) =>
                lemma_pairs_transitive(u@, v@, w@),
            (Geometry::MultiLine(u), Geometry::MultiLine(v), Geometry::MultiLine(w)) =>
                lemma_pairs_transitive(lines_pairs(u@), lines_pairs(v@), lines_pairs(w@)),
            (Geometry::MultiPolygon(u), Geometry::MultiPolygon(v), Geometry::MultiPolygon(w)) =>
                lemma_pairs_transitive(polygons_pairs(u@), polygons_pairs(v@), polygons_pairs(w@)),
            (Geometry::Collection(u), Geometry::Collection(v), Geometry::Collection(w)) => {
                assert(decreases_to!(a => a->Collection_0));
                assert(decreases_to!(u => u@));
                lemma_geometries_order_transitive(u@, v@, w@);
            },
            _ => {},
        }
    }
}

/// The lexicographic order of sequences of geometries is transitive.
pub proof fn lemma_geometries_order_transitive(
    a: Seq<Geometry<Coord>>,
    b: Seq<Geometry<Coord>>,
    c: Seq<Geometry<Coord>>,
)
    requires
        not_above(geometries_order(a, b)),
        not_above(geometries_order(b, c)),
    ensures
        not_above(geometries_order(a, c)),
        below(geometries_order(a, b)) || below(geometries_order(b, c)) ==> below(geometries_order(a, c)),
    decreases a,
{
    if a.len() > 0 && b.len() > 0 && c.len() > 0 {
        let p1 = geometry_order(a[0], b[0]);
        let p2 = geometry_order(b[0], c[0]);
        assert(not_above(p1));
        assert(not_above(p2));
        assert(decreases_to!(a => a[0]));
        lemma_geometry_order_transitive(a[0], b[0], c[0]);
        if p1 == Some(0int) && p2 == Some(0int) {
            lemma_geometries_order_transitive(a.drop_first(), b.drop_first(), c.drop_first());
        }
    }
}

} // verus!
