//! Which label stands on which side of a die.

use vstd::prelude::*;
use crate::geometry::Direction;

verus! {

/// One side of a die: the outward normal in the die's own frame and the
/// label printed on that side.
#[derive(Clone, Copy, Debug, PartialEq, Eq, Structural)]
pub struct Face {
    pub normal: Direction,
    pub value: usize,
}

/// What a list of faces must satisfy to describe a die.
///
/// The normals all have one length, which is not zero, so that their
/// heights can be compared; no two faces look the same way; and no label
/// is used twice.
pub open spec fn valid_faces(faces: Seq<Face>) -> bool {
    &&& forall|i: int|
        0 <= i < faces.len() ==> (#[trigger] faces[i]).normal.spec_length_squared() > 0
    &&& forall|i: int|
        0 <= i < faces.len() ==> (#[trigger] faces[i]).normal.spec_length_squared()
            == faces[0].normal.spec_length_squared()
    &&& forall|i: int, j: int|
        0 <= i < j < faces.len() ==> (#[trigger] faces[i]).normal != (#[trigger] faces[j]).normal
    &&& forall|i: int, j: int|
        0 <= i < j < faces.len() ==> (#[trigger] faces[i]).value != (#[trigger] faces[j]).value
}

/// The six faces of an ordinary die: `1` up, `2` towards `+x`, `3` towards
/// `-z`, `4` towards `+z`, `5` towards `-x`, `6` down.
pub open spec fn spec_standard_cube() -> Seq<Face> {
    seq![
        Face { normal: Direction { x: 0, y: 1, z: 0 }, value: 1 },
        Face { normal: Direction { x: 1, y: 0, z: 0 }, value: 2 },
        Face { normal: Direction { x: 0, y: 0, z: (-1int) as i32 }, value: 3 },
        Face { normal: Direction { x: 0, y: 0, z: 1 }, value: 4 },
        Face { normal: Direction { x: (-1int) as i32, y: 0, z: 0 }, value: 5 },
        Face { normal: Direction { x: 0, y: (-1int) as i32, z: 0 }, value: 6 },
    ]
}

/// The ordinary die is a die.
pub proof fn lemma_standard_cube_is_valid()
    ensures
        valid_faces(spec_standard_cube()),
{
    let cube = spec_standard_cube();
    assert(cube.len() == 6);
    assert(cube[0].normal == (Direction { x: 0, y: 1, z: 0 }) && cube[0].value == 1);
    assert(cube[1].normal == (Direction { x: 1, y: 0, z: 0 }) && cube[1].value == 2);
    assert(cube[2].normal == (Direction { x: 0, y: 0, z: (-1int) as i32 }) && cube[2].value == 3);
    assert(cube[3].normal == (Direction { x: 0, y: 0, z: 1 }) && cube[3].value == 4);
    assert(cube[4].normal == (Direction { x: (-1int) as i32, y: 0, z: 0 }) && cube[4].value == 5);
    assert(cube[5].normal == (Direction { x: 0, y: (-1int) as i32, z: 0 }) && cube[5].value == 6);
    assert forall|i: int| 0 <= i < cube.len() implies (#[trigger] cube[i]).normal.spec_length_squared()
        == 1 by {
        let n = cube[i].normal;
        assert(i == 0 || i == 1 || i == 2 || i == 3 || i == 4 || i == 5);
        assert(n.x == 0 || n.x == 1 || n.x == -1);
        assert(n.y == 0 || n.y == 1 || n.y == -1);
        assert(n.z == 0 || n.z == 1 || n.z == -1);
        assert(n.x * n.x == if n.x == 0 { 0int } else { 1int });
        assert(n.y * n.y == if n.y == 0 { 0int } else { 1int });
        assert(n.z * n.z == if n.z == 0 { 0int } else { 1int });
    }
}

/// The faces of one kind of die, in the order in which ties are broken.
/// It is made once and then only read.
#[derive(Clone, Debug)]
pub struct FaceMap {
    faces: Vec<Face>,
}

impl View for FaceMap {
    type V = Seq<Face>;

    closed spec fn view(&self) -> Seq<Face> {
        self.faces@
    }
}

impl FaceMap {
    /// Every map that a constructor hands out is well formed.
    pub open spec fn wf(&self) -> bool {
        valid_faces(self@)
    }

    /// Makes a map of `faces`, in this order, if they describe a die.
    pub fn new(faces: Vec<Face>) -> (made: Option<FaceMap>)
        ensures
            made is Some <==> valid_faces(faces@),
            made matches Some(map) ==> map@ == faces@ && map.wf(),
    {
        let n: usize = faces.len();
        let mut i: usize = 0;
        while i < n
            invariant
                n == faces@.len(),
                i <= n,
                forall|a: int|
                    0 <= a < i ==> (#[trigger] faces@[a]).normal.spec_length_squared() > 0,
                forall|a: int|
                    0 <= a < i ==> (#[trigger] faces@[a]).normal.spec_length_squared()
                        == faces@[0].normal.spec_length_squared(),
                forall|a: int, b: int|
                    0 <= a < b < n && a < i ==> (#[trigger] faces@[a]).normal != (
                    #[trigger] faces@[b]).normal,
                forall|a: int, b: int|
                    0 <= a < b < n && a < i ==> (#[trigger] faces@[a]).value != (
                    #[trigger] faces@[b]).value,
            decreases n - i,
        {
            let length: u64 = faces[i].normal.length_squared();
            if length == 0 || length != faces[0].normal.length_squared() {
                return None;
            }
            let mut j: usize = i + 1;
            while j < n
                invariant
                    n == faces@.len(),
                    i < j <= n,
                    forall|b: int|
                        i < b < j ==> faces@[i as int].normal != (#[trigger] faces@[b]).normal,
                    forall|b: int|
                        i < b < j ==> faces@[i as int].value != (#[trigger] faces@[b]).value,
                decreases n - j,
            {
                if faces[i].normal == faces[j].normal || faces[i].value == faces[j].value {
                    return None;
                }
                j += 1;
            }
            i += 1;
        }
        Some(FaceMap { faces })
    }

    /// The map of an ordinary six-sided die.
    pub fn standard_cube() -> (map: FaceMap)
        ensures
            map@ == spec_standard_cube(),
            map.wf(),
    {
        let mut faces: Vec<Face> = Vec::new();
        faces.push(Face { normal: Direction { x: 0, y: 1, z: 0 }, value: 1 });
        faces.push(Face { normal: Direction { x: 1, y: 0, z: 0 }, value: 2 });
        faces.push(Face { normal: Direction { x: 0, y: 0, z: -1 }, value: 3 });
        faces.push(Face { normal: Direction { x: 0, y: 0, z: 1 }, value: 4 });
        faces.push(Face { normal: Direction { x: -1, y: 0, z: 0 }, value: 5 });
        faces.push(Face { normal: Direction { x: 0, y: -1, z: 0 }, value: 6 });
        proof {
            assert(faces@ =~= spec_standard_cube());
            lemma_standard_cube_is_valid();
        }
        FaceMap { faces }
    }

    /// How many faces the die has.
    pub fn len(&self) -> (n: usize)
        ensures
            n == self@.len(),
    {
        self.faces.len()
    }

    /// The faces, in the order in which they were given.
    pub fn faces(&self) -> (faces: &Vec<Face>)
        ensures
            faces@ == self@,
    {
        &self.faces
    }
}

} // verus!
