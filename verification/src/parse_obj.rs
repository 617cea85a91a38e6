//! Reading a model from its text.
//!
//! The text holds one directive on each line; a line ends with a line feed,
//! with or without a carriage return before it. `v ` gives a vertex by three
//! numbers, `f ` a face by the vertices of a polygon, counted from 1, each
//! with or without a `/` and more behind it. Comments and the directives
//! `vt `, `vn `, `usemtl `, `s `, `mtllib `, `o ` and `g ` are passed over, and
//! so are empty lines. A face is cut into the triangles of its fan.
//!
//! What a line can go wrong on is a `ParseError`, and the first such line
//! ends the reading: a model is read whole or not at all.
//!
//! A number is handed out as the place where it stands in the text, for the
//! caller to convert.

use crate::text::{
    holds_number, is_number, lemma_words_in_order, places, read_reference, reference, split_words,
    words, Span,
};
use vstd::prelude::*;
use vstd::slice::slice_subrange;

verus! {

/// Why a text is not a model.
#[derive(Clone, Copy, Debug, PartialEq, Eq, Structural)]
pub enum ParseError {
    /// A line that is not empty and starts with no directive that is known.
    UnsupportedDirective,
    /// A face with fewer than three words after `f `.
    DegeneratePolygon,
    /// A vertex whose line does not hold three numbers and nothing else.
    MalformedVertex,
    /// A word of a face that names no vertex of the model: it does not start
    /// with a number from 1 on, or the model has fewer vertices.
    InvalidReference,
}

/// What a line is, by the way it starts.
#[derive(Clone, Copy, Debug, PartialEq, Eq, Structural)]
pub enum Directive {
    /// The empty line.
    Blank,
    /// `v `: a vertex.
    Vertex,
    /// `f `: a face.
    Face,
    /// A comment, or a directive that is read and passed over.
    Ignored,
    /// Anything else.
    Unsupported,
}

/// `line` begins with the bytes of `prefix`.
pub open spec fn starts_with(line: Seq<u8>, prefix: Seq<u8>) -> bool {
    prefix.len() <= line.len() && line.subrange(0, prefix.len() as int) == prefix
}

/// `v `
pub open spec fn vertex_prefix() -> Seq<u8> {
    seq![118u8, 32u8]
}

/// `f `
pub open spec fn face_prefix() -> Seq<u8> {
    seq![102u8, 32u8]
}

/// A line that is passed over: one that starts with `#`, `vt `, `vn `,
/// `usemtl `, `s `, `mtllib `, `o ` or `g `.
pub open spec fn is_ignored(line: Seq<u8>) -> bool {
    ||| starts_with(line, seq![35u8])
    ||| starts_with(line, seq![118u8, 116u8, 32u8])
    ||| starts_with(line, seq![118u8, 110u8, 32u8])
    ||| starts_with(line, seq![117u8, 115u8, 101u8, 109u8, 116u8, 108u8, 32u8])
    ||| starts_with(line, seq![115u8, 32u8])
    ||| starts_with(line, seq![109u8, 116u8, 108u8, 108u8, 105u8, 98u8, 32u8])
    ||| starts_with(line, seq![111u8, 32u8])
    ||| starts_with(line, seq![103u8, 32u8])
}

/// What `line` is.
pub open spec fn directive(line: Seq<u8>) -> Directive {
    if line.len() == 0 {
        Directive::Blank
    } else if starts_with(line, vertex_prefix()) {
        Directive::Vertex
    } else if starts_with(line, face_prefix()) {
        Directive::Face
    } else if is_ignored(line) {
        Directive::Ignored
    } else {
        Directive::Unsupported
    }
}

/// Tells whether `line` begins with `prefix`.
pub fn begins_with(line: &[u8], prefix: &[u8]) -> (r: bool)
    ensures
        r == starts_with(line@, prefix@),
{
    let n: usize = prefix.len();
    if line.len() < n {
        return false;
    }
    let mut i: usize = 0;
    while i < n
        invariant
            i <= n,
            n == prefix@.len(),
            n <= line@.len(),
            forall|k: int| 0 <= k < i ==> line@[k] == prefix@[k],
        decreases n - i,
    {
        if line[i] != prefix[i] {
            proof {
                assert(line@.subrange(0, n as int)[i as int] == line@[i as int]);
            }
            return false;
        }
        i = i + 1;
    }
    proof {
        assert(line@.subrange(0, n as int) =~= prefix@);
    }
    true
}

/// Tells what `line` is.
pub fn classify(line: &[u8]) -> (r: Directive)
    ensures
        r == directive(line@),
{
    if line.len() == 0 {
        return Directive::Blank;
    }
    let vertex: [u8; 2] = [118, 32];
    let face: [u8; 2] = [102, 32];
    let comment: [u8; 1] = [35];
    let texture: [u8; 3] = [118, 116, 32];
    let normal: [u8; 3] = [118, 110, 32];
    let material: [u8; 7] = [117, 115, 101, 109, 116, 108, 32];
    let smoothing: [u8; 2] = [115, 32];
    let library: [u8; 7] = [109, 116, 108, 108, 105, 98, 32];
    let object: [u8; 2] = [111, 32];
    let group: [u8; 2] = [103, 32];
    proof {
        assert(vertex@ =~= vertex_prefix());
        assert(face@ =~= face_prefix());
        assert(comment@ =~= seq![35u8]);
        assert(texture@ =~= seq![118u8, 116u8, 32u8]);
        assert(normal@ =~= seq![118u8, 110u8, 32u8]);
        assert(material@ =~= seq![117u8, 115u8, 101u8, 109u8, 116u8, 108u8, 32u8]);
        assert(smoothing@ =~= seq![115u8, 32u8]);
        assert(library@ =~= seq![109u8, 116u8, 108u8, 108u8, 105u8, 98u8, 32u8]);
        assert(object@ =~= seq![111u8, 32u8]);
        assert(group@ =~= seq![103u8, 32u8]);
    }
    if begins_with(line, vertex.as_slice()) {
        Directive::Vertex
    } else if begins_with(line, face.as_slice()) {
        Directive::Face
    } else if begins_with(line, comment.as_slice()) || begins_with(line, texture.as_slice())
        || begins_with(line, normal.as_slice()) || begins_with(line, material.as_slice())
        || begins_with(line, smoothing.as_slice()) || begins_with(line, library.as_slice())
        || begins_with(line, object.as_slice()) || begins_with(line, group.as_slice()) {
        Directive::Ignored
    } else {
        Directive::Unsupported
    }
}

/// The position, within a polygon, of corner `i` of its fan: every triangle
/// starts at the polygon's first corner, and triangle `k` goes on with
/// corners `k + 1` and `k + 2`.
pub open spec fn fan_corner(i: int) -> int {
    if i % 3 == 0 {
        0
    } else {
        i / 3 + i % 3
    }
}

/// A polygon is a face's vertex references, counted from 1, at least three
/// of them.
pub open spec fn is_polygon(polygon: Seq<u32>) -> bool {
    &&& polygon.len() >= 3
    &&& forall|i: int| 0 <= i < polygon.len() ==> polygon[i] >= 1
}

/// The fan of a polygon `[p0, p1, .., p(n-1)]`: the triangles
/// `(p0, p1, p2), (p0, p2, p3), .., (p0, p(n-2), p(n-1))`, one after the
/// other, each reference turned into an index counted from 0.
pub open spec fn fan(polygon: Seq<u32>) -> Seq<u32>
    recommends
        is_polygon(polygon),
{
    Seq::new(
        (3 * (polygon.len() - 2)) as nat,
        |i: int| (polygon[fan_corner(i)] - 1) as u32,
    )
}

/// Splits a polygon into the triangles of its fan.
pub fn to_triangles(polygon: Vec<u32>) -> (out: Vec<u32>)
    requires
        is_polygon(polygon@),
    ensures
        out@ == fan(polygon@),
        out@.len() == 3 * (polygon@.len() - 2),
{
    let mut out: Vec<u32> = Vec::new();
    let n: usize = polygon.len();
    let mut k: usize = 0;
    while k + 2 < n
        invariant
            n == polygon@.len(),
            is_polygon(polygon@),
            k + 2 <= n,
            out@.len() == 3 * k,
            forall|i: int| 0 <= i < out@.len() ==> out@[i] == (polygon@[fan_corner(i)] - 1) as u32,
        decreases n - k,
    {
        out.push(polygon[0] - 1);
        out.push(polygon[k + 1] - 1);
        out.push(polygon[k + 2] - 1);
        k = k + 1;
    }
    out
}

/// A vertex as the text gives it: the places of its three numbers.
#[derive(Clone, Copy, Debug, PartialEq, Eq, Structural)]
pub struct Vertex {
    pub x: Span,
    pub y: Span,
    pub z: Span,
}

impl View for Vertex {
    type V = ((int, int), (int, int), (int, int));

    open spec fn view(&self) -> ((int, int), (int, int), (int, int)) {
        (self.x@, self.y@, self.z@)
    }
}

/// What one line adds to a model.
pub enum Entry {
    /// Nothing: an empty line or one that is passed over.
    Nothing,
    /// A vertex, by the places of its three numbers.
    Vertex(((int, int), (int, int), (int, int))),
    /// A face, by the vertices of its polygon, counted from 1.
    Face(Seq<u32>),
}

/// A model as a value of mathematics: the vertices in the order of the text,
/// and the corners of the triangles, three for each, as indices into the
/// vertices, counted from 0.
pub struct MeshModel {
    pub vertices: Seq<((int, int), (int, int), (int, int))>,
    pub indices: Seq<u32>,
}

impl MeshModel {
    /// The model without a vertex or a face.
    pub open spec fn empty() -> MeshModel {
        MeshModel { vertices: Seq::empty(), indices: Seq::empty() }
    }

    /// The model with what one more line adds: a vertex behind the vertices,
    /// the fan of a face behind the indices.
    pub open spec fn with(self, entry: Entry) -> MeshModel {
        match entry {
            Entry::Nothing => self,
            Entry::Vertex(v) => MeshModel { vertices: self.vertices.push(v), indices: self.indices },
            Entry::Face(polygon) => MeshModel {
                vertices: self.vertices,
                indices: self.indices + fan(polygon),
            },
        }
    }

    /// Every index names a vertex of the model.
    pub open spec fn in_range(self) -> bool {
        forall|i: int| 0 <= i < self.indices.len() ==> self.indices[i] < self.vertices.len()
    }

    /// Every vertex is three numbers of the text `s`, at the places that the
    /// vertex names.
    pub open spec fn numbers_of(self, s: Seq<u8>) -> bool {
        forall|i: int|
            0 <= i < self.vertices.len() ==> {
                let v = #[trigger] self.vertices[i];
                &&& 0 <= v.0.0 < v.0.1 <= v.1.0 < v.1.1 <= v.2.0 < v.2.1 <= s.len()
                &&& is_number(word_text(s, v.0))
                &&& is_number(word_text(s, v.1))
                &&& is_number(word_text(s, v.2))
            }
    }
}

/// A model read from a text.
#[derive(Debug)]
pub struct Mesh {
    /// The vertices, in the order of the text.
    pub vertices: Vec<Vertex>,
    /// The corners of the triangles, three for each.
    pub indices: Vec<u32>,
}

/// The places that a list of vertices names.
pub open spec fn vertex_places(vertices: Seq<Vertex>) -> Seq<((int, int), (int, int), (int, int))> {
    Seq::new(vertices.len(), |i: int| vertices[i]@)
}

/// The model of the given vertices and indices.
pub open spec fn model(vertices: Seq<Vertex>, indices: Seq<u32>) -> MeshModel {
    MeshModel { vertices: vertex_places(vertices), indices }
}

impl View for Mesh {
    type V = MeshModel;

    open spec fn view(&self) -> MeshModel {
        model(self.vertices@, self.indices@)
    }
}

/// The bytes of the word at place `w`.
pub open spec fn word_text(s: Seq<u8>, w: (int, int)) -> Seq<u8> {
    s.subrange(w.0, w.1)
}

/// What the words between `from` and `to` say of a vertex: three numbers,
/// and nothing else.
pub open spec fn vertex_entry(s: Seq<u8>, from: int, to: int) -> Result<Entry, ParseError> {
    let w = words(s, from, to);
    if w.len() == 3 && is_number(word_text(s, w[0])) && is_number(word_text(s, w[1])) && is_number(
        word_text(s, w[2]),
    ) {
        Ok(Entry::Vertex((w[0], w[1], w[2])))
    } else {
        Err(ParseError::MalformedVertex)
    }
}

/// What the words between `from` and `to` say of a face: three or more
/// words, each of which refers to a vertex.
pub open spec fn face_entry(s: Seq<u8>, from: int, to: int) -> Result<Entry, ParseError> {
    let w = words(s, from, to);
    if w.len() < 3 {
        Err(ParseError::DegeneratePolygon)
    } else if forall|k: int| 0 <= k < w.len() ==> reference(word_text(s, #[trigger] w[k])) is Some {
        Ok(Entry::Face(Seq::new(w.len(), |k: int| reference(word_text(s, w[k])).unwrap())))
    } else {
        Err(ParseError::InvalidReference)
    }
}

/// What the line between `from` and `to` adds to a model, or why it is no
/// line of a model.
pub open spec fn entry(s: Seq<u8>, from: int, to: int) -> Result<Entry, ParseError> {
    match directive(s.subrange(from, to)) {
        Directive::Blank => Ok(Entry::Nothing),
        Directive::Ignored => Ok(Entry::Nothing),
        Directive::Vertex => vertex_entry(s, from + 2, to),
        Directive::Face => face_entry(s, from + 2, to),
        Directive::Unsupported => Err(ParseError::UnsupportedDirective),
    }
}

/// The position of the first line feed of `s` from `from` on; the length of
/// `s` where there is none.
pub open spec fn line_end(s: Seq<u8>, from: int) -> int
    decreases s.len() - from,
{
    if 0 <= from < s.len() && s[from] != 10 {
        line_end(s, from + 1)
    } else {
        from
    }
}

/// Where the line from `from` to the line feed at `end` stops: before the
/// carriage return, if one stands in front of the line feed.
pub open spec fn content_end(s: Seq<u8>, from: int, end: int) -> int {
    if from < end && s[end - 1] == 13 {
        end - 1
    } else {
        end
    }
}

/// The model `so_far` with what the lines from position `from` on add to
/// it, or the error of the first of them that is no line of a model.
pub open spec fn read_lines(s: Seq<u8>, from: int, so_far: MeshModel) -> Result<
    MeshModel,
    ParseError,
>
    decreases s.len() - from,
{
    let end = line_end(s, from);
    match entry(s, from, content_end(s, from, end)) {
        Err(e) => Err(e),
        Ok(added) => if from <= end < s.len() {
            read_lines(s, end + 1, so_far.with(added))
        } else {
            Ok(so_far.with(added))
        },
    }
}

/// The model that the text `s` describes, or why it describes none. The
/// lines are read in order and the first that is no line of a model decides.
/// A face may refer to a vertex that the text gives further down; once all
/// lines are read, every index has to name a vertex.
pub open spec fn model_of(s: Seq<u8>) -> Result<MeshModel, ParseError> {
    match read_lines(s, 0, MeshModel::empty()) {
        Err(e) => Err(e),
        Ok(m) => if m.in_range() {
            Ok(m)
        } else {
            Err(ParseError::InvalidReference)
        },
    }
}

/// `line_end` stays between `from` and the end, passes no line feed, and
/// stops at the first one.
pub proof fn lemma_line_end(s: Seq<u8>, from: int)
    requires
        0 <= from <= s.len(),
    ensures
        from <= line_end(s, from) <= s.len(),
        forall|i: int| from <= i < line_end(s, from) ==> #[trigger] s[i] != 10,
        line_end(s, from) < s.len() ==> s[line_end(s, from)] == 10,
    decreases s.len() - from,
{
    if from < s.len() && s[from] != 10 {
        lemma_line_end(s, from + 1);
    }
}

/// Reads a vertex from the words between `from` and `to`.
pub fn read_vertex(source: &[u8], from: usize, to: usize) -> (r: Result<Vertex, ParseError>)
    requires
        from <= to <= source@.len(),
    ensures
        match r {
            Ok(v) => vertex_entry(source@, from as int, to as int) == Ok::<Entry, ParseError>(
                Entry::Vertex(v@),
            ),
            Err(e) => vertex_entry(source@, from as int, to as int) == Err::<Entry, ParseError>(e),
        },
        r matches Ok(v) ==> from <= v.x.start < v.x.end <= v.y.start < v.y.end <= v.z.start
            < v.z.end <= to,
{
    let w = split_words(source, from, to);
    assert(places(w@).len() == w@.len());
    if w.len() != 3 {
        return Err(ParseError::MalformedVertex);
    }
    let x: Span = w[0];
    let y: Span = w[1];
    let z: Span = w[2];
    proof {
        assert(places(w@)[0] == x@ && places(w@)[1] == y@ && places(w@)[2] == z@);
        lemma_words_in_order(source@, from as int, to as int);
    }
    if holds_number(slice_subrange(source, x.start, x.end)) && holds_number(
        slice_subrange(source, y.start, y.end),
    ) && holds_number(slice_subrange(source, z.start, z.end)) {
        Ok(Vertex { x, y, z })
    } else {
        Err(ParseError::MalformedVertex)
    }
}

/// Reads the polygon of a face from the words between `from` and `to`.
pub fn read_face(source: &[u8], from: usize, to: usize) -> (r: Result<Vec<u32>, ParseError>)
    requires
        from <= to <= source@.len(),
    ensures
        match r {
            Ok(polygon) => face_entry(source@, from as int, to as int) == Ok::<Entry, ParseError>(
                Entry::Face(polygon@),
            ),
            Err(e) => face_entry(source@, from as int, to as int) == Err::<Entry, ParseError>(e),
        },
        r matches Ok(polygon) ==> is_polygon(polygon@),
{
    let w = split_words(source, from, to);
    let ghost p = words(source@, from as int, to as int);
    assert(places(w@).len() == w@.len());
    if w.len() < 3 {
        return Err(ParseError::DegeneratePolygon);
    }
    let mut polygon: Vec<u32> = Vec::new();
    let mut k: usize = 0;
    while k < w.len()
        invariant
            k <= w@.len(),
            w@.len() == p.len(),
            p.len() >= 3,
            p == words(source@, from as int, to as int),
            places(w@) == p,
            forall|j: int| 0 <= j < w@.len() ==> from <= (#[trigger] w@[j]).start < w@[j].end <= to,
            to <= source@.len(),
            polygon@.len() == k,
            forall|j: int|
                0 <= j < k ==> reference(word_text(source@, #[trigger] p[j])) == Some(polygon@[j]),
        decreases w@.len() - k,
    {
        let word: Span = w[k];
        assert(places(w@)[k as int] == word@);
        match read_reference(slice_subrange(source, word.start, word.end)) {
            Some(v) => {
                polygon.push(v);
            },
            None => {
                proof {
                    assert(reference(word_text(source@, p[k as int])) is None);
                }
                return Err(ParseError::InvalidReference);
            },
        }
        k = k + 1;
    }
    proof {
        let wanted = Seq::new(p.len(), |j: int| reference(word_text(source@, p[j])).unwrap());
        assert(polygon@ =~= wanted);
        assert forall|j: int| 0 <= j < polygon@.len() implies polygon@[j] >= 1 by {
            assert(reference(word_text(source@, p[j])) == Some(polygon@[j]));
        }
    }
    Ok(polygon)
}

/// Finds the end of the line that starts at `from`.
pub fn find_line_end(source: &[u8], from: usize) -> (end: usize)
    requires
        from <= source@.len(),
    ensures
        end == line_end(source@, from as int),
        from <= end <= source@.len(),
{
    let n: usize = source.len();
    let mut end: usize = from;
    while end < n && source[end] != 10
        invariant
            from <= end <= n,
            n == source@.len(),
            line_end(source@, from as int) == line_end(source@, end as int),
        decreases n - end,
    {
        end = end + 1;
    }
    end
}

/// Reads a model from its text.
///
/// The result is the model that `model_of` gives for the text, or the error
/// that it gives. In a model that was read, the indices come in threes, each
/// names a vertex, and each vertex is three numbers of the text.
pub fn parse(source: &[u8]) -> (r: Result<Mesh, ParseError>)
    ensures
        match r {
            Ok(mesh) => model_of(source@) == Ok::<MeshModel, ParseError>(mesh@),
            Err(e) => model_of(source@) == Err::<MeshModel, ParseError>(e),
        },
        r matches Ok(mesh) ==> mesh@.indices.len() % 3 == 0 && mesh@.in_range() && mesh@.numbers_of(
            source@,
        ),
{
    let n: usize = source.len();
    let mut vertices: Vec<Vertex> = Vec::new();
    let mut indices: Vec<u32> = Vec::new();
    let mut pos: usize = 0;
    let mut done: bool = false;
    let ghost whole = read_lines(source@, 0, MeshModel::empty());
    proof {
        assert(vertex_places(vertices@) =~= Seq::empty());
    }
    while !done
        invariant
            pos <= n,
            n == source@.len(),
            whole == read_lines(source@, 0, MeshModel::empty()),
            !done ==> whole == read_lines(source@, pos as int, model(vertices@, indices@)),
            done ==> whole == Ok::<MeshModel, ParseError>(model(vertices@, indices@)),
            indices@.len() % 3 == 0,
            model(vertices@, indices@).numbers_of(source@),
        decreases n - pos + (if done { 0int } else { 1int }),
    {
        let end: usize = find_line_end(source, pos);
        let stop: usize = if pos < end && source[end - 1] == 13 {
            end - 1
        } else {
            end
        };
        let ghost before = model(vertices@, indices@);
        let ghost found = entry(source@, pos as int, stop as int);
        match classify(slice_subrange(source, pos, stop)) {
            Directive::Blank => {},
            Directive::Ignored => {},
            Directive::Unsupported => {
                return Err(ParseError::UnsupportedDirective);
            },
            Directive::Vertex => {
                match read_vertex(source, pos + 2, stop) {
                    Ok(v) => {
                        vertices.push(v);
                        proof {
                            assert(vertex_places(vertices@) =~= before.vertices.push(v@));
                        }
                    },
                    Err(e) => {
                        return Err(e);
                    },
                }
            },
            Directive::Face => {
                match read_face(source, pos + 2, stop) {
                    Ok(polygon) => {
                        let ghost corners = fan(polygon@);
                        let mut triangles = to_triangles(polygon);
                        indices.append(&mut triangles);
                        proof {
                            assert(indices@ =~= before.indices + corners);
                        }
                    },
                    Err(e) => {
                        return Err(e);
                    },
                }
            },
        }
        proof {
            let after = model(vertices@, indices@);
            assert(found is Ok);
            assert(after == before.with(found.unwrap()));
        }
        if end < n {
            pos = end + 1;
        } else {
            done = true;
        }
    }
    let count: usize = vertices.len();
    let mut i: usize = 0;
    while i < indices.len()
        invariant
            i <= indices@.len(),
            count == vertices@.len(),
            whole == read_lines(source@, 0, MeshModel::empty()),
            whole == Ok::<MeshModel, ParseError>(model(vertices@, indices@)),
            forall|j: int| 0 <= j < i ==> indices@[j] < count,
        decreases indices@.len() - i,
    {
        if indices[i] as usize >= count {
            proof {
                let m = model(vertices@, indices@);
                assert(!(m.indices[i as int] < m.vertices.len()));
            }
            return Err(ParseError::InvalidReference);
        }
        i = i + 1;
    }
    Ok(Mesh { vertices, indices })
}

} // verus!
