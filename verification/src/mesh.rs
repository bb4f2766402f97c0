//! Meshes, and the lines of text that describe them.
//!
//! A mesh is described line by line. A line that begins with `v` gives a
//! vertex, a line that begins with `f` gives a triangular face by the numbers
//! of its three vertices, counted from 1 in the order in which the vertices
//! were given. Any other line says nothing. The fields of a line start at
//! its third byte and are separated by single spaces.

use vstd::prelude::*;
use crate::color::Color;
use crate::fields::{field_index, fields_from, parse_index, split_fields, texts};
use crate::triangle::Triangle;

verus! {

/// Why a mesh description is refused.
#[derive(Clone, Copy, Debug, PartialEq, Eq, Structural)]
pub enum MeshError {
    /// A vertex line or a face line ends before its first field.
    Truncated,
    /// Field number `field`, counted from 0, of a face line writes no index.
    BadIndex { field: usize },
    /// A vertex line or a face line has only `found` fields, fewer than three.
    TooFewFields { found: usize },
    /// A face names vertex number `index`, while the vertices given so far
    /// are numbered from 1 to `vertices`.
    IndexOutOfRange { index: usize, vertices: usize },
}

/// What one line of a mesh description says.
#[derive(Debug)]
pub enum ObjLine {
    /// A vertex, with all the fields of the line. The first three are its
    /// coordinates.
    Vertex(Vec<Vec<u8>>),
    /// A face, with the numbers of its three vertices.
    Face([usize; 3]),
    /// Nothing.
    Other,
}

/// Whether `line` begins with the letter `v`.
pub open spec fn is_vertex_line(line: Seq<u8>) -> bool {
    line.len() > 0 && line[0] == 118
}

/// Whether `line` begins with the letter `f`.
pub open spec fn is_face_line(line: Seq<u8>) -> bool {
    line.len() > 0 && line[0] == 102
}

/// The fields of a vertex line or a face line.
pub open spec fn line_fields(line: Seq<u8>) -> Seq<Seq<u8>> {
    split_fields(line.skip(2))
}

/// Whether each of the first `n` fields writes an index.
pub open spec fn indices_readable(fields: Seq<Seq<u8>>, n: int) -> bool {
    forall|k: int| 0 <= k < n ==> field_index(#[trigger] fields[k]) is Some
}

/// Reads one line of a mesh description.
///
/// A vertex line is returned with its fields unread, since what a coordinate
/// may look like is for the caller to say; it must have three fields at
/// least. Of a face line every field must write an index, and there must be
/// three at least; the first three are returned. The first fault found, in
/// this order, is the error: the line is too short to have fields, a field
/// of a face line writes no index, there are fewer than three fields.
pub fn parse_line(line: &[u8]) -> (result: Result<ObjLine, MeshError>)
    ensures
        match result {
            Ok(ObjLine::Other) => !is_vertex_line(line@) && !is_face_line(line@),
            Ok(ObjLine::Vertex(fields)) => {
                &&& is_vertex_line(line@)
                &&& line.len() >= 2
                &&& texts(fields@) == line_fields(line@)
                &&& fields.len() >= 3
            },
            Ok(ObjLine::Face(face)) => {
                &&& is_face_line(line@)
                &&& line.len() >= 2
                &&& line_fields(line@).len() >= 3
                &&& indices_readable(line_fields(line@), line_fields(line@).len() as int)
                &&& forall|k: int|
                    0 <= k < 3 ==> Some(#[trigger] face[k]) == field_index(line_fields(line@)[k])
            },
            Err(MeshError::Truncated) => {
                &&& is_vertex_line(line@) || is_face_line(line@)
                &&& line.len() < 2
            },
            Err(MeshError::BadIndex { field }) => {
                &&& is_face_line(line@)
                &&& line.len() >= 2
                &&& field < line_fields(line@).len()
                &&& indices_readable(line_fields(line@), field as int)
                &&& field_index(line_fields(line@)[field as int]) is None
            },
            Err(MeshError::TooFewFields { found }) => {
                &&& is_vertex_line(line@) || is_face_line(line@)
                &&& line.len() >= 2
                &&& found == line_fields(line@).len()
                &&& found < 3
                &&& is_face_line(line@) ==> indices_readable(line_fields(line@), found as int)
            },
            Err(MeshError::IndexOutOfRange { .. }) => false,
        },
{
    if line.len() == 0 {
        return Ok(ObjLine::Other);
    }
    let letter = line[0];
    if letter != 118 && letter != 102 {
        return Ok(ObjLine::Other);
    }
    if line.len() < 2 {
        return Err(MeshError::Truncated);
    }
    let fields = fields_from(line, 2);
    if letter == 118 {
        if fields.len() < 3 {
            return Err(MeshError::TooFewFields { found: fields.len() });
        }
        return Ok(ObjLine::Vertex(fields));
    }
    let mut face: [usize; 3] = [0, 0, 0];
    let mut k: usize = 0;
    while k < fields.len()
        invariant
            k <= fields.len(),
            is_face_line(line@),
            line.len() >= 2,
            texts(fields@) == line_fields(line@),
            indices_readable(line_fields(line@), k as int),
            forall|j: int|
                0 <= j < 3 && j < k ==> Some(#[trigger] face[j]) == field_index(
                    line_fields(line@)[j],
                ),
        decreases fields.len() - k,
    {
        assert(texts(fields@)[k as int] == fields[k as int]@);
        match parse_index(fields[k].as_slice()) {
            Some(index) => {
                if k < 3 {
                    face[k] = index;
                }
            },
            None => {
                return Err(MeshError::BadIndex { field: k });
            },
        }
        k = k + 1;
    }
    if fields.len() < 3 {
        return Err(MeshError::TooFewFields { found: fields.len() });
    }
    Ok(ObjLine::Face(face))
}

/// An ordered collection of triangles in model space.
#[derive(Debug)]
pub struct Mesh<V> {
    pub tris: Vec<Triangle<V>>,
}

/// The position in `face` of the first vertex number that names none of
/// `vertices` vertices, or 3 if each names one.
pub open spec fn first_out_of_range(face: Seq<usize>, vertices: int) -> int {
    if !(1 <= face[0] <= vertices) {
        0
    } else if !(1 <= face[1] <= vertices) {
        1
    } else if !(1 <= face[2] <= vertices) {
        2
    } else {
        3
    }
}

/// The triangle of the face with vertex numbers `face`, white as all new
/// faces are.
pub open spec fn face_triangle<V>(vertices: Seq<V>, face: Seq<usize>) -> Triangle<V> {
    Triangle {
        p: [vertices[face[0] - 1], vertices[face[1] - 1], vertices[face[2] - 1]],
        base_color: Color::white(),
        color: Color::white(),
    }
}

impl<V: Copy> Mesh<V> {
    /// A mesh without triangles.
    pub fn new() -> (mesh: Self)
        ensures
            mesh.tris@ == Seq::<Triangle<V>>::empty(),
    {
        Mesh { tris: Vec::new() }
    }

    /// Appends the face whose three vertices are numbered `face` among
    /// `vertices`, the first vertex being number 1. If a number names no
    /// vertex, the mesh stays as it is and the first such number is
    /// reported.
    pub fn add_face(&mut self, vertices: &Vec<V>, face: &[usize; 3]) -> (result: Result<
        (),
        MeshError,
    >)
        ensures
            match result {
                Ok(()) => {
                    &&& first_out_of_range(face@, vertices.len() as int) == 3
                    &&& final(self).tris@ == old(self).tris@.push(face_triangle(vertices@, face@))
                },
                Err(error) => {
                    let at = first_out_of_range(face@, vertices.len() as int);
                    &&& at < 3
                    &&& error == MeshError::IndexOutOfRange {
                        index: face[at],
                        vertices: vertices.len(),
                    }
                    &&& final(self).tris@ == old(self).tris@
                },
            },
    {
        let mut k: usize = 0;
        while k < 3
            invariant
                k <= 3,
                forall|j: int| 0 <= j < k ==> 1 <= #[trigger] face[j] <= vertices.len(),
            decreases 3 - k,
        {
            if face[k] < 1 || face[k] > vertices.len() {
                return Err(MeshError::IndexOutOfRange { index: face[k], vertices: vertices.len() });
            }
            k = k + 1;
        }
        let triangle = Triangle::new(
            vertices[face[0] - 1],
            vertices[face[1] - 1],
            vertices[face[2] - 1],
            None,
        );
        proof {
            assert(triangle.p =~= face_triangle(vertices@, face@).p);
        }
        self.tris.push(triangle);
        Ok(())
    }
}

} // verus!
