//! Which face of a die points up.

use vstd::prelude::*;
use crate::face_map::{valid_faces, Face, FaceMap};
use crate::geometry::{DieOrientation, Direction};

verus! {

/// Position `i` wins among `heights`: its height is above zero, above every
/// height before it and not below any height after it. Of several equal
/// greatest heights the first one wins.
pub open spec fn is_top(heights: Seq<int>, i: int) -> bool {
    &&& 0 <= i < heights.len()
    &&& heights[i] > 0
    &&& forall|j: int| 0 <= j < i ==> #[trigger] heights[j] < heights[i]
    &&& forall|j: int| i < j < heights.len() ==> #[trigger] heights[j] <= heights[i]
}

/// The winning position among `heights`, if any height is above zero.
pub open spec fn spec_top(heights: Seq<int>) -> Option<int> {
    if exists|i: int| is_top(heights, i) {
        Some(choose|i: int| is_top(heights, i))
    } else {
        None
    }
}

/// The heights to which `orientation` lifts the normals of `faces`.
pub open spec fn spec_heights(orientation: DieOrientation, faces: Seq<Face>) -> Seq<int> {
    Seq::new(faces.len(), |i: int| orientation.spec_height(faces[i].normal))
}

/// The label that a die with these faces shows when turned by
/// `orientation`: that of the winning face, and `0` when no face looks up.
pub open spec fn spec_classify(orientation: DieOrientation, faces: Seq<Face>) -> usize {
    match spec_top(spec_heights(orientation, faces)) {
        Some(i) => faces[i].value,
        None => 0,
    }
}

/// Machine heights as mathematical integers.
pub open spec fn spec_widen(heights: Seq<i128>) -> Seq<int> {
    Seq::new(heights.len(), |i: int| heights[i] as int)
}

/// No two positions win.
pub proof fn lemma_top_is_unique(heights: Seq<int>, i: int, j: int)
    requires
        is_top(heights, i),
        is_top(heights, j),
    ensures
        i == j,
{
    if i < j {
        assert(heights[i] < heights[j]);
        assert(heights[j] <= heights[i]);
    } else if j < i {
        assert(heights[j] < heights[i]);
        assert(heights[i] <= heights[j]);
    }
}

/// A position that wins is the one that `spec_top` names.
pub proof fn lemma_top_is(heights: Seq<int>, i: int)
    requires
        is_top(heights, i),
    ensures
        spec_top(heights) == Some(i),
{
    let chosen = choose|k: int| is_top(heights, k);
    lemma_top_is_unique(heights, i, chosen);
}

/// Where no height is above zero, nothing wins.
pub proof fn lemma_no_top(heights: Seq<int>)
    requires
        forall|j: int| 0 <= j < heights.len() ==> #[trigger] heights[j] <= 0,
    ensures
        spec_top(heights) is None,
{
    assert forall|i: int| !is_top(heights, i) by {
        if 0 <= i < heights.len() {
            assert(heights[i] <= 0);
        }
    }
}

/// Finds the winning position among `heights`.
///
/// The running greatest height starts at zero and a later height replaces
/// it only when it is strictly greater.
pub fn top_index(heights: &Vec<i128>) -> (top: Option<usize>)
    ensures
        match top {
            Some(i) => spec_top(spec_widen(heights@)) == Some(i as int),
            None => spec_top(spec_widen(heights@)) is None,
        },
{
    let ghost wide = spec_widen(heights@);
    let n: usize = heights.len();
    let mut best: i128 = 0;
    let mut top: Option<usize> = None;
    let mut i: usize = 0;
    while i < n
        invariant
            n == heights@.len(),
            wide == spec_widen(heights@),
            i <= n,
            match top {
                Some(t) => {
                    &&& t < i
                    &&& best == heights@[t as int]
                    &&& best > 0
                    &&& forall|j: int| 0 <= j < t ==> #[trigger] wide[j] < best
                    &&& forall|j: int| t < j < i ==> #[trigger] wide[j] <= best
                },
                None => best == 0 && forall|j: int| 0 <= j < i ==> #[trigger] wide[j] <= 0,
            },
        decreases n - i,
    {
        if best < heights[i] {
            best = heights[i];
            top = Some(i);
        }
        i += 1;
    }
    proof {
        match top {
            Some(t) => {
                assert(wide[t as int] == best);
                lemma_top_is(wide, t as int);
            },
            None => {
                lemma_no_top(wide);
            },
        }
    }
    top
}

/// Tells which face of a die points up.
///
/// Each face's normal is turned by `orientation`; the face whose turned
/// normal reaches highest wins, the first of them if several reach equally
/// high. The answer is `0` if no turned normal rises above the horizontal.
pub fn classify(orientation: &DieOrientation, face_map: &FaceMap) -> (value: usize)
    ensures
        value == spec_classify(*orientation, face_map@),
{
    let faces: &Vec<Face> = face_map.faces();
    let n: usize = faces.len();
    let mut heights: Vec<i128> = Vec::new();
    let mut i: usize = 0;
    while i < n
        invariant
            n == faces@.len(),
            i <= n,
            heights@.len() == i,
            forall|j: int|
                0 <= j < i ==> #[trigger] heights@[j] == orientation.spec_height(faces@[j].normal),
        decreases n - i,
    {
        heights.push(orientation.height(&faces[i].normal));
        i += 1;
    }
    assert(spec_widen(heights@) =~= spec_heights(*orientation, faces@));
    match top_index(&heights) {
        Some(t) => faces[t].value,
        None => 0,
    }
}

/// A die shows one of its labels, or `0`.
pub proof fn lemma_classify_is_a_label(orientation: DieOrientation, faces: Seq<Face>)
    ensures
        spec_classify(orientation, faces) == 0 || exists|i: int|
            0 <= i < faces.len() && (#[trigger] faces[i]).value == spec_classify(
                orientation,
                faces,
            ),
{
    let heights = spec_heights(orientation, faces);
    if let Some(t) = spec_top(heights) {
        assert(is_top(heights, t));
        assert(faces[t].value == spec_classify(orientation, faces));
    }
}

/// Where no label of a die with `n` faces is above `n`, what the die shows
/// is among `0` to `n`, however it is turned.
pub proof fn lemma_classify_in_range(orientation: DieOrientation, faces: Seq<Face>)
    requires
        forall|i: int| 0 <= i < faces.len() ==> (#[trigger] faces[i]).value <= faces.len(),
    ensures
        0 <= spec_classify(orientation, faces) <= faces.len(),
{
    lemma_classify_is_a_label(orientation, faces);
}

/// The answer is `0` exactly when no face looks up, if no face is
/// labelled `0`.
pub proof fn lemma_classify_zero(orientation: DieOrientation, faces: Seq<Face>)
    requires
        forall|i: int| 0 <= i < faces.len() ==> (#[trigger] faces[i]).value != 0,
    ensures
        spec_classify(orientation, faces) == 0 <==> forall|i: int|
            0 <= i < faces.len() ==> orientation.spec_height((#[trigger] faces[i]).normal) <= 0,
{
    let heights = spec_heights(orientation, faces);
    if let Some(t) = spec_top(heights) {
        assert(is_top(heights, t));
        assert(orientation.spec_height(faces[t].normal) > 0);
    } else {
        assert forall|i: int| 0 <= i < faces.len() implies orientation.spec_height(
            (#[trigger] faces[i]).normal,
        ) <= 0 by {
            lemma_some_height_wins(heights, i);
        }
    }
}

/// Among heights of which one is above zero, some position wins.
pub proof fn lemma_some_height_wins(heights: Seq<int>, i: int)
    requires
        0 <= i < heights.len(),
    ensures
        heights[i] > 0 ==> spec_top(heights) is Some,
    decreases heights.len(),
{
    if heights[i] > 0 {
        let shorter = heights.drop_last();
        let last = heights.len() - 1;
        if i < last {
            lemma_some_height_wins(shorter, i);
            let t = spec_top(shorter).unwrap();
            assert(is_top(shorter, t));
            assert forall|j: int| 0 <= j < t implies #[trigger] heights[j] < heights[t] by {
                assert(shorter[j] < shorter[t]);
            }
            if heights[last] > heights[t] {
                assert forall|j: int| 0 <= j < last implies #[trigger] heights[j] < heights[last] by {
                    if j < t {
                        assert(shorter[j] < shorter[t]);
                    } else if j > t {
                        assert(shorter[j] <= shorter[t]);
                    }
                }
                lemma_top_is(heights, last);
            } else {
                assert forall|j: int| t < j < heights.len() implies #[trigger] heights[j]
                    <= heights[t] by {
                    if j < last {
                        assert(shorter[j] <= shorter[t]);
                    }
                }
                lemma_top_is(heights, t);
            }
        } else {
            // The last height is above zero: either it wins, or what won
            // before it still does.
            if forall|j: int| 0 <= j < last ==> #[trigger] heights[j] < heights[last] {
                lemma_top_is(heights, last);
            } else {
                let j = choose|j: int| 0 <= j < last && !(#[trigger] heights[j] < heights[last]);
                assert(shorter[j] > 0);
                lemma_some_height_wins(shorter, j);
                let t = spec_top(shorter).unwrap();
                assert(is_top(shorter, t));
                assert(shorter[j] <= shorter[t]) by {
                    if j < t {
                        assert(shorter[j] < shorter[t]);
                    } else if j > t {
                        assert(shorter[j] <= shorter[t]);
                    }
                }
                assert forall|k: int| 0 <= k < t implies #[trigger] heights[k] < heights[t] by {
                    assert(shorter[k] < shorter[t]);
                }
                assert forall|k: int| t < k < heights.len() implies #[trigger] heights[k]
                    <= heights[t] by {
                    if k < last {
                        assert(shorter[k] <= shorter[t]);
                    }
                }
                lemma_top_is(heights, t);
            }
        }
    }
}

/// Multiplying by a positive factor keeps the order of two integers.
proof fn lemma_scaled_order(factor: int, a: int, b: int)
    by (nonlinear_arith)
    requires
        factor > 0,
    ensures
        a < b <==> factor * a < factor * b,
        a <= b <==> factor * a <= factor * b,
        a > 0 <==> factor * a > 0,
{
}

/// Scaling both factors of a product by `k` scales the product by `k * k`.
proof fn lemma_scaled_product(k: int, a: int, b: int)
    by (nonlinear_arith)
    ensures
        (k * a) * (k * b) == (k * k) * (a * b),
{
}

/// A factor can be taken out of a product with a coordinate.
proof fn lemma_factor_out(factor: int, a: int, b: int)
    by (nonlinear_arith)
    ensures
        (factor * a) * b == factor * (a * b),
{
}

/// A factor can be taken out of a sum of three terms.
proof fn lemma_factor_out_sum(factor: int, a: int, b: int, c: int)
    by (nonlinear_arith)
    ensures
        factor * a + factor * b + factor * c == factor * (a + b + c),
{
}

/// A height is quadratic in the quaternion.
proof fn lemma_scaled_height(q: DieOrientation, scaled: DieOrientation, k: int, d: Direction)
    requires
        scaled.x == k * q.x,
        scaled.y == k * q.y,
        scaled.z == k * q.z,
        scaled.w == k * q.w,
    ensures
        scaled.spec_height(d) == (k * k) * q.spec_height(d),
{
    let f = k * k;
    let (x, y, z, w) = (q.x as int, q.y as int, q.z as int, q.w as int);
    lemma_scaled_product(k, x, y);
    lemma_scaled_product(k, w, z);
    lemma_scaled_product(k, w, w);
    lemma_scaled_product(k, x, x);
    lemma_scaled_product(k, y, y);
    lemma_scaled_product(k, z, z);
    lemma_scaled_product(k, y, z);
    lemma_scaled_product(k, w, x);
    let side = 2 * (x * y + w * z);
    let up = w * w - x * x + y * y - z * z;
    let front = 2 * (y * z - w * x);
    let scaled_side = 2 * (scaled.x * scaled.y + scaled.w * scaled.z);
    let scaled_up = scaled.w * scaled.w - scaled.x * scaled.x + scaled.y * scaled.y - scaled.z
        * scaled.z;
    let scaled_front = 2 * (scaled.y * scaled.z - scaled.w * scaled.x);
    assert(scaled_side == f * side) by {
        lemma_factor_out_sum(f, x * y, w * z, 0);
        lemma_factor_out_sum(f, x * y + w * z, x * y + w * z, 0);
    }
    assert(scaled_up == f * up) by {
        lemma_factor_out_sum(f, w * w, -(x * x), y * y);
        lemma_factor_out_sum(f, w * w - x * x + y * y, -(z * z), 0);
        lemma_negated(f, x * x);
        lemma_negated(f, z * z);
    }
    assert(scaled_front == f * front) by {
        lemma_negated(f, w * x);
        lemma_factor_out_sum(f, y * z, -(w * x), 0);
        lemma_factor_out_sum(f, y * z - w * x, y * z - w * x, 0);
    }
    lemma_factor_out(f, side, d.x as int);
    lemma_factor_out(f, up, d.y as int);
    lemma_factor_out(f, front, d.z as int);
    lemma_factor_out_sum(f, side * d.x, up * d.y, front * d.z);
}

/// The product with a negated integer is the negated product.
proof fn lemma_negated(factor: int, a: int)
    by (nonlinear_arith)
    ensures
        factor * (-a) == -(factor * a),
        factor * 0 == 0,
{
}

/// Stretching all heights by one positive factor moves no win.
proof fn lemma_scaled_top(heights: Seq<int>, scaled: Seq<int>, factor: int)
    requires
        factor > 0,
        scaled.len() == heights.len(),
        forall|j: int| 0 <= j < heights.len() ==> #[trigger] scaled[j] == factor * heights[j],
    ensures
        spec_top(scaled) == spec_top(heights),
{
    assert forall|i: int| is_top(heights, i) <==> is_top(scaled, i) by {
        if 0 <= i < heights.len() {
            lemma_scaled_order(factor, heights[i], 0);
            assert(scaled[i] == factor * heights[i]);
            assert forall|j: int| 0 <= j < heights.len() implies ((#[trigger] heights[j])
                < heights[i] <==> scaled[j] < scaled[i]) && (heights[j] <= heights[i] <==> scaled[j]
                <= scaled[i]) by {
                assert(scaled[j] == factor * heights[j]);
                lemma_scaled_order(factor, heights[j], heights[i]);
            }
            if is_top(heights, i) {
                assert forall|j: int| 0 <= j < i implies #[trigger] scaled[j] < scaled[i] by {
                    assert(heights[j] < heights[i]);
                }
                assert forall|j: int| i < j < scaled.len() implies #[trigger] scaled[j]
                    <= scaled[i] by {
                    assert(heights[j] <= heights[i]);
                }
            }
            if is_top(scaled, i) {
                assert forall|j: int| 0 <= j < i implies #[trigger] heights[j] < heights[i] by {
                    assert(scaled[j] < scaled[i]);
                }
                assert forall|j: int| i < j < heights.len() implies #[trigger] heights[j]
                    <= heights[i] by {
                    assert(scaled[j] <= scaled[i]);
                }
            }
        }
    }
    match spec_top(heights) {
        Some(t) => {
            assert(is_top(heights, t));
            assert(is_top(scaled, t));
            lemma_top_is(scaled, t);
        },
        None => {
            if spec_top(scaled) is Some {
                let t = spec_top(scaled).unwrap();
                assert(is_top(scaled, t));
                assert(is_top(heights, t));
            }
        },
    }
}

/// Only the direction of the quaternion counts: a die shows the same face
/// under `q` and under any multiple of `q` other than zero.
pub proof fn lemma_classify_ignores_scale(
    q: DieOrientation,
    scaled: DieOrientation,
    k: int,
    faces: Seq<Face>,
)
    requires
        k != 0,
        scaled.x == k * q.x,
        scaled.y == k * q.y,
        scaled.z == k * q.z,
        scaled.w == k * q.w,
    ensures
        spec_classify(scaled, faces) == spec_classify(q, faces),
{
    let heights = spec_heights(q, faces);
    let stretched = spec_heights(scaled, faces);
    assert(k * k > 0) by (nonlinear_arith)
        requires
            k != 0,
    ;
    assert forall|j: int| 0 <= j < heights.len() implies #[trigger] stretched[j] == (k * k)
        * heights[j] by {
        lemma_scaled_height(q, scaled, k, faces[j].normal);
    }
    lemma_scaled_top(heights, stretched, k * k);
}

/// A coordinate of a vector is at most the vector's length, and equal to
/// it only where the other two coordinates are zero.
proof fn lemma_coordinate_below_length(d: Direction, length: int)
    by (nonlinear_arith)
    requires
        length > 0,
        d.spec_length_squared() == length * length,
    ensures
        d.y <= length,
        d.y == length ==> d.x == 0 && d.z == 0,
{
}

/// The rest pose lifts a direction to its own vertical coordinate, times
/// the square of the quaternion's length.
proof fn lemma_rest_height(rest: DieOrientation, d: Direction)
    by (nonlinear_arith)
    requires
        rest.x == 0,
        rest.y == 0,
        rest.z == 0,
    ensures
        rest.spec_height(d) == (rest.w * rest.w) * d.y,
{
}

/// A die in its rest pose shows the face whose normal points straight up.
///
/// The rest pose is the quaternion `w`, for any `w` other than zero.
pub proof fn lemma_rest_pose_shows_upward_face(faces: Seq<Face>, i: int, w: i32)
    requires
        valid_faces(faces),
        0 <= i < faces.len(),
        faces[i].normal.x == 0,
        faces[i].normal.y > 0,
        faces[i].normal.z == 0,
        w != 0,
    ensures
        spec_classify(DieOrientation { x: 0, y: 0, z: 0, w }, faces) == faces[i].value,
{
    let rest = DieOrientation { x: 0, y: 0, z: 0, w };
    let heights = spec_heights(rest, faces);
    let up = faces[i].normal.y as int;
    let factor = w * w;
    assert(factor > 0) by (nonlinear_arith)
        requires
            factor == w * w,
            w != 0,
    ;
    assert(faces[i].normal.spec_length_squared() == up * up);
    assert forall|j: int| 0 <= j < faces.len() implies #[trigger] heights[j] == factor
        * faces[j].normal.y by {
        lemma_rest_height(rest, faces[j].normal);
    }
    assert forall|j: int| 0 <= j < faces.len() && j != i implies #[trigger] heights[j]
        < heights[i] by {
        let other = faces[j].normal;
        assert(other.spec_length_squared() == faces[0].normal.spec_length_squared());
        assert(faces[i].normal.spec_length_squared() == faces[0].normal.spec_length_squared());
        lemma_coordinate_below_length(other, up);
        if other.y == up {
            assert(other == faces[i].normal);
            if j < i {
                assert(faces[j].normal != faces[i].normal);
            } else {
                assert(faces[i].normal != faces[j].normal);
            }
        }
        lemma_scaled_order(factor, other.y as int, up);
    }
    lemma_scaled_order(factor, up, 0);
    assert(heights[i] > 0);
    lemma_top_is(heights, i);
}

} // verus!
