//! What the renderer is handed once the configuration is loaded: the tile
//! types in the order in which they are shown, for each model where its
//! vertices and its indices start in the buffers that hold those of all
//! models, and the faces of each model merged into one.

use crate::id::Id;
use crate::interner::{Interned, Interner};
use crate::ordered_map::{entries_map, lemma_value_views, value_views, OrderedMap};
use crate::registry::{Registry, ResourceManager};
use crate::text::{lemma_lex_total, lemma_lex_transitive, lex_before, text_before};
use vstd::prelude::*;

verus! {

/// Where the indices of a model lie in the buffer of all indices.
#[derive(Clone, Copy, Debug, PartialEq, Eq, Structural)]
pub struct Face {
    pub offset: u32,
    pub size: u32,
}

/// A model as configuration names it: its identifier, and the file that
/// holds its mesh.
#[derive(Debug)]
pub struct ModelRaw {
    pub id: String,
    pub file: String,
}

/// A face of a mesh: the indices of its corners among the vertices of the
/// mesh.
#[derive(Debug)]
pub struct RawFace {
    pub indices: Vec<u32>,
}

impl View for RawFace {
    type V = Seq<u32>;

    open spec fn view(&self) -> Seq<u32> {
        self.indices@
    }
}

/// What a list of faces stands for: the indices of each.
pub open spec fn face_views(faces: Seq<RawFace>) -> Seq<Seq<u32>> {
    Seq::new(faces.len(), |i: int| faces[i]@)
}

/// What the engine keeps of the mesh of a model: the number of its vertices,
/// and its faces.
pub struct Mesh {
    pub vertex_count: u32,
    pub faces: Vec<RawFace>,
}

/// What a mesh stands for.
pub struct MeshView {
    pub vertex_count: u32,
    pub faces: Seq<Seq<u32>>,
}

impl View for Mesh {
    type V = MeshView;

    open spec fn view(&self) -> MeshView {
        MeshView { vertex_count: self.vertex_count, faces: face_views(self.faces@) }
    }
}

/// Why the models could not be compiled.
#[derive(Clone, Copy, Debug, PartialEq, Eq, Structural)]
pub enum ModelError {
    /// The models have more vertices than a buffer can address.
    TooManyVertices,
    /// The models have more indices than a buffer can address.
    TooManyIndices,
    /// An index of a face, counted from the first vertex of all models, is
    /// more than a buffer can address.
    IndexTooLarge,
}

/// Whether the identifier with the parts `a` comes before the one with the
/// parts `b`: by namespace first, then by name.
pub open spec fn id_before(a: (Seq<char>, Seq<char>), b: (Seq<char>, Seq<char>)) -> bool {
    lex_before(a.0, b.0) || (a.0 == b.0 && lex_before(a.1, b.1))
}

/// Of two different identifiers, one comes before the other, and the order
/// carries over.
pub proof fn lemma_id_order(
    a: (Seq<char>, Seq<char>),
    b: (Seq<char>, Seq<char>),
    c: (Seq<char>, Seq<char>),
)
    ensures
        a == b || id_before(a, b) || id_before(b, a),
        !id_before(a, a),
        id_before(a, b) && id_before(b, c) ==> id_before(a, c),
{
    lemma_lex_total(a.0, b.0);
    lemma_lex_total(a.1, b.1);
    lemma_lex_total(a.0, a.0);
    lemma_lex_total(a.1, a.1);
    if id_before(a, b) && id_before(b, c) {
        if lex_before(a.0, b.0) && lex_before(b.0, c.0) {
            lemma_lex_transitive(a.0, b.0, c.0);
        } else if a.0 == b.0 && b.0 == c.0 {
            lemma_lex_transitive(a.1, b.1, c.1);
        }
    }
}

/// Whether `a` comes before `b`: by namespace first, then by name.
pub fn precedes(a: &Id, b: &Id) -> (out: bool)
    ensures
        out == id_before(a@, b@),
{
    if text_before(a.namespace(), b.namespace()) {
        true
    } else if text_before(b.namespace(), a.namespace()) {
        proof {
            lemma_lex_total(a@.0, b@.0);
        }
        false
    } else {
        proof {
            lemma_lex_total(a@.0, b@.0);
        }
        text_before(a.name(), b.name())
    }
}

/// Whether `order` lists handles in the ascending order of the identifiers
/// that `texts` hold under them.
pub open spec fn in_id_order(order: Seq<Interned>, texts: Seq<Seq<char>>) -> bool {
    &&& forall|k: int| 0 <= k < order.len() ==> (#[trigger] order[k]).index < texts.len()
    &&& forall|k: int, l: int|
        0 <= k < l < order.len() ==> id_before(
            crate::id::parse_id(texts[(#[trigger] order[k]).index as int])->Ok_0,
            crate::id::parse_id(texts[(#[trigger] order[l]).index as int])->Ok_0,
        )
}

/// Whether `i` is the first place of `order` that holds `first`.
pub open spec fn is_first_place(order: Seq<Interned>, first: Interned, i: int) -> bool {
    &&& 0 <= i < order.len()
    &&& order[i] == first
    &&& forall|j: int| 0 <= j < i ==> order[j] != first
}

/// `order` with `first` at its front, where `order` lists it: `first` and
/// what stood at the front change places.
pub open spec fn with_front(order: Seq<Interned>, first: Interned) -> Seq<Interned> {
    if exists|i: int| is_first_place(order, first, i) {
        let i = choose|i: int| is_first_place(order, first, i);
        order.update(i, order[0]).update(0, first)
    } else {
        order
    }
}

/// The indices of the first `n` of `faces`, one face after the other.
pub open spec fn joined(faces: Seq<Seq<u32>>, n: nat) -> Seq<u32>
    decreases n,
{
    if n == 0 {
        Seq::empty()
    } else {
        joined(faces, (n - 1) as nat) + faces[n - 1]
    }
}

/// The number of indices of a mesh.
pub open spec fn index_count(mesh: MeshView) -> int {
    joined(mesh.faces, mesh.faces.len()).len() as int
}

/// Whether each of `indices` can be counted from `base` on.
pub open spec fn shift_fits(indices: Seq<u32>, base: u32) -> bool {
    forall|i: int| 0 <= i < indices.len() ==> #[trigger] indices[i] + base <= u32::MAX
}

/// `indices`, each counted from `base` on.
pub open spec fn shifted(indices: Seq<u32>, base: u32) -> Seq<u32> {
    Seq::new(indices.len(), |i: int| (indices[i] + base) as u32)
}

/// Whether every index of a mesh can be counted from `base` on.
pub open spec fn mesh_fits(mesh: MeshView, base: u32) -> bool {
    shift_fits(joined(mesh.faces, mesh.faces.len()), base)
}

/// The one face that the faces of a mesh are merged into: their indices,
/// one face after the other, each counted from `base` on.
pub open spec fn merged(mesh: MeshView, base: u32) -> Seq<u32> {
    shifted(joined(mesh.faces, mesh.faces.len()), base)
}

/// The number of vertices of the first `n` meshes.
pub open spec fn vertices_before(meshes: Seq<(Interned, MeshView)>, n: nat) -> int
    decreases n,
{
    if n == 0 {
        0
    } else {
        vertices_before(meshes, (n - 1) as nat) + meshes[n - 1].1.vertex_count
    }
}

/// The number of indices of the first `n` meshes.
pub open spec fn indices_before(meshes: Seq<(Interned, MeshView)>, n: nat) -> int
    decreases n,
{
    if n == 0 {
        0
    } else {
        indices_before(meshes, (n - 1) as nat) + index_count(meshes[n - 1].1)
    }
}

/// Where the vertices of each of the first `n` meshes start in the buffer of
/// all vertices.
pub open spec fn vertex_offsets(meshes: Seq<(Interned, MeshView)>, n: nat) -> Map<Interned, u32>
    decreases n,
{
    if n == 0 {
        Map::empty()
    } else {
        vertex_offsets(meshes, (n - 1) as nat).insert(
            meshes[n - 1].0,
            vertices_before(meshes, (n - 1) as nat) as u32,
        )
    }
}

/// Where the indices of each of the first `n` meshes lie in the buffer of all
/// indices; a mesh without faces has no place there.
pub open spec fn face_table(meshes: Seq<(Interned, MeshView)>, n: nat) -> Map<Interned, Face>
    decreases n,
{
    if n == 0 {
        Map::empty()
    } else {
        let before = face_table(meshes, (n - 1) as nat);
        if meshes[n - 1].1.faces.len() > 0 {
            before.insert(
                meshes[n - 1].0,
                Face {
                    offset: indices_before(meshes, (n - 1) as nat) as u32,
                    size: index_count(meshes[n - 1].1) as u32,
                },
            )
        } else {
            before
        }
    }
}

/// The merged faces of the first `n` meshes, in their order: one for each
/// mesh that has a face, its indices counted from the place where the
/// vertices of the mesh start in the buffer of all vertices.
pub open spec fn merged_faces(meshes: Seq<(Interned, MeshView)>, n: nat) -> Seq<Seq<u32>>
    decreases n,
{
    if n == 0 {
        Seq::empty()
    } else {
        let before = merged_faces(meshes, (n - 1) as nat);
        if meshes[n - 1].1.faces.len() > 0 {
            before.push(merged(meshes[n - 1].1, vertices_before(meshes, (n - 1) as nat) as u32))
        } else {
            before
        }
    }
}

/// Whether every index of the first `n` meshes can be counted from the place
/// where the vertices of its mesh start.
pub open spec fn indices_fit(meshes: Seq<(Interned, MeshView)>, n: nat) -> bool {
    forall|k: int|
        0 <= k < n ==> mesh_fits((#[trigger] meshes[k]).1, vertices_before(meshes, k as nat) as u32)
}

/// How many of the first `n` meshes have a face.
pub open spec fn faces_before(meshes: Seq<(Interned, MeshView)>, n: nat) -> nat
    decreases n,
{
    if n == 0 {
        0
    } else if meshes[n - 1].1.faces.len() > 0 {
        faces_before(meshes, (n - 1) as nat) + 1
    } else {
        faces_before(meshes, (n - 1) as nat)
    }
}

/// Sums grow with the number of their terms.
pub proof fn lemma_sums_grow(meshes: Seq<(Interned, MeshView)>, k: nat, n: nat)
    requires
        k <= n,
    ensures
        0 <= vertices_before(meshes, k) <= vertices_before(meshes, n),
        0 <= indices_before(meshes, k) <= indices_before(meshes, n),
        faces_before(meshes, k) <= faces_before(meshes, n),
    decreases n,
{
    if k < n {
        lemma_sums_grow(meshes, k, (n - 1) as nat);
    } else if n > 0 {
        lemma_sums_grow(meshes, (n - 1) as nat, (n - 1) as nat);
    }
}

/// The indices of the first faces stand at the front of those of more.
pub proof fn lemma_joined_front(faces: Seq<Seq<u32>>, k: nat, n: nat)
    requires
        k <= n,
    ensures
        joined(faces, k).len() <= joined(faces, n).len(),
        forall|i: int| 0 <= i < joined(faces, k).len() ==> joined(faces, n)[i] == joined(faces, k)[i],
    decreases n,
{
    if k < n {
        lemma_joined_front(faces, k, (n - 1) as nat);
    }
}

/// Counting two lists of indices from a base on is counting each of them.
pub proof fn lemma_shifted_parts(a: Seq<u32>, b: Seq<u32>, base: u32)
    ensures
        shifted(a + b, base) == shifted(a, base) + shifted(b, base),
        shift_fits(a + b, base) <==> shift_fits(a, base) && shift_fits(b, base),
{
    assert(shifted(a + b, base) =~= shifted(a, base) + shifted(b, base));
    if shift_fits(a + b, base) {
        assert forall|i: int| 0 <= i < a.len() implies #[trigger] a[i] + base <= u32::MAX by {
            assert(a[i] == (a + b)[i]);
        }
        assert forall|i: int| 0 <= i < b.len() implies #[trigger] b[i] + base <= u32::MAX by {
            assert(b[i] == (a + b)[a.len() + i]);
        }
    }
    if shift_fits(a, base) && shift_fits(b, base) {
        assert forall|i: int| 0 <= i < (a + b).len() implies #[trigger] (a + b)[i] + base
            <= u32::MAX by {
            if i < a.len() {
                assert((a + b)[i] == a[i]);
            } else {
                assert((a + b)[i] == b[i - a.len()]);
            }
        }
    }
}

/// Where the indices of all faces can be counted from a base on, those of
/// the first faces can.
pub proof fn lemma_front_fits(faces: Seq<Seq<u32>>, k: nat, n: nat, base: u32)
    requires
        k <= n,
        shift_fits(joined(faces, n), base),
    ensures
        shift_fits(joined(faces, k), base),
{
    lemma_joined_front(faces, k, n);
    assert forall|i: int| 0 <= i < joined(faces, k).len() implies #[trigger] joined(faces, k)[i]
        + base <= u32::MAX by {
        assert(joined(faces, k)[i] == joined(faces, n)[i]);
    }
}

/// Each mesh with a face has one merged face, in the order of the meshes:
/// that of the mesh at `k` is the one with as many merged faces before it as
/// meshes before `k` have a face. It holds the indices of the mesh, and where
/// it starts among the indices of all merged faces is where the indices of
/// the mesh start in the buffer of all indices.
pub proof fn law_merged_faces(meshes: Seq<(Interned, MeshView)>, n: nat, k: nat)
    requires
        k < n,
        meshes[k as int].1.faces.len() > 0,
    ensures
        merged_faces(meshes, n).len() == faces_before(meshes, n),
        faces_before(meshes, k) < faces_before(meshes, n),
        merged_faces(meshes, n)[faces_before(meshes, k) as int] == merged(
            meshes[k as int].1,
            vertices_before(meshes, k) as u32,
        ),
        merged_faces(meshes, n)[faces_before(meshes, k) as int].len() == index_count(
            meshes[k as int].1,
        ),
        joined(merged_faces(meshes, n), faces_before(meshes, k)).len() == indices_before(meshes, k),
{
    lemma_merged_count(meshes, n);
    lemma_merged_count(meshes, k);
    lemma_merged_front(meshes, k, n);
    lemma_merged_front(meshes, k + 1, n);
    lemma_merged_lengths(meshes, k);
    lemma_joined_same(merged_faces(meshes, k), merged_faces(meshes, n), faces_before(meshes, k));
}

/// The `i`-th index of the mesh at `k`, as the mesh wrote it.
pub open spec fn local_index(meshes: Seq<(Interned, MeshView)>, k: int, i: int) -> u32 {
    joined(meshes[k].1.faces, meshes[k].1.faces.len())[i]
}

/// The `i`-th index of the merged face of the mesh at `k`.
pub open spec fn merged_index(meshes: Seq<(Interned, MeshView)>, k: int, i: int) -> u32 {
    merged(meshes[k].1, vertices_before(meshes, k as nat) as u32)[i]
}

/// Whether every index of the first `n` meshes names a vertex of its own
/// mesh.
pub open spec fn indices_in_range(meshes: Seq<(Interned, MeshView)>, n: nat) -> bool {
    forall|k: int, i: int|
        0 <= k < n && 0 <= i < index_count(meshes[k].1) ==> #[trigger] local_index(meshes, k, i)
            < meshes[k].1.vertex_count
}

/// Where every index names a vertex of its own mesh and the buffer can
/// address all vertices, every index can be counted from the place where the
/// vertices of its mesh start: each merged index is the index that the mesh
/// wrote plus that place, and names a vertex among those of its mesh.
pub proof fn law_merged_indices(meshes: Seq<(Interned, MeshView)>, n: nat)
    requires
        indices_in_range(meshes, n),
        vertices_before(meshes, n) <= u32::MAX,
    ensures
        indices_fit(meshes, n),
        forall|k: int, i: int|
            0 <= k < n && 0 <= i < index_count(meshes[k].1) ==> {
                &&& #[trigger] merged_index(meshes, k, i) == local_index(meshes, k, i)
                    + vertices_before(meshes, k as nat)
                &&& vertices_before(meshes, k as nat) <= merged_index(meshes, k, i)
                    < vertices_before(meshes, (k + 1) as nat)
            },
{
    assert forall|k: int| 0 <= k < n implies vertices_before(meshes, k as nat) + (
    #[trigger] meshes[k]).1.vertex_count <= u32::MAX && 0 <= vertices_before(meshes, k as nat) by {
        lemma_sums_grow(meshes, (k + 1) as nat, n);
        lemma_sums_grow(meshes, k as nat, (k + 1) as nat);
    }
    assert forall|k: int| 0 <= k < n implies mesh_fits(
        (#[trigger] meshes[k]).1,
        vertices_before(meshes, k as nat) as u32,
    ) by {
        let all = joined(meshes[k].1.faces, meshes[k].1.faces.len());
        let base = vertices_before(meshes, k as nat) as u32;
        assert forall|i: int| 0 <= i < all.len() implies #[trigger] all[i] + base <= u32::MAX by {
            assert(local_index(meshes, k, i) < meshes[k].1.vertex_count);
        }
    }
    assert forall|k: int, i: int| 0 <= k < n && 0 <= i < index_count(meshes[k].1) implies {
        &&& #[trigger] merged_index(meshes, k, i) == local_index(meshes, k, i) + vertices_before(
            meshes,
            k as nat,
        )
        &&& vertices_before(meshes, k as nat) <= merged_index(meshes, k, i) < vertices_before(
            meshes,
            (k + 1) as nat,
        )
    } by {
        assert(local_index(meshes, k, i) < meshes[k].1.vertex_count);
        assert(vertices_before(meshes, k as nat) + meshes[k].1.vertex_count <= u32::MAX);
    }
}

/// As many merged faces as meshes with a face.
pub proof fn lemma_merged_count(meshes: Seq<(Interned, MeshView)>, n: nat)
    ensures
        merged_faces(meshes, n).len() == faces_before(meshes, n),
    decreases n,
{
    if n > 0 {
        lemma_merged_count(meshes, (n - 1) as nat);
    }
}

/// The merged faces of the first meshes stand at the front of those of more.
pub proof fn lemma_merged_front(meshes: Seq<(Interned, MeshView)>, k: nat, n: nat)
    requires
        k <= n,
    ensures
        merged_faces(meshes, k).len() <= merged_faces(meshes, n).len(),
        forall|j: int|
            0 <= j < merged_faces(meshes, k).len() ==> merged_faces(meshes, n)[j] == merged_faces(
                meshes,
                k,
            )[j],
    decreases n,
{
    if k < n {
        lemma_merged_front(meshes, k, (n - 1) as nat);
    }
}

/// The merged faces of the first `n` meshes hold as many indices as the
/// meshes have.
pub proof fn lemma_merged_lengths(meshes: Seq<(Interned, MeshView)>, n: nat)
    ensures
        joined(merged_faces(meshes, n), merged_faces(meshes, n).len()).len() == indices_before(
            meshes,
            n,
        ),
    decreases n,
{
    if n > 0 {
        let before = merged_faces(meshes, (n - 1) as nat);
        let all = merged_faces(meshes, n);
        lemma_merged_lengths(meshes, (n - 1) as nat);
        lemma_merged_front(meshes, (n - 1) as nat, n);
        lemma_joined_same(before, all, before.len());
        if meshes[n - 1].1.faces.len() == 0 {
            assert(joined(meshes[n - 1].1.faces, 0).len() == 0);
        }
    }
}

/// Lists of faces that agree on their first `n` faces hold the same indices
/// in them.
pub proof fn lemma_joined_same(a: Seq<Seq<u32>>, b: Seq<Seq<u32>>, n: nat)
    requires
        n <= a.len(),
        n <= b.len(),
        forall|j: int| 0 <= j < n ==> a[j] == b[j],
    ensures
        joined(a, n) == joined(b, n),
    decreases n,
{
    if n > 0 {
        lemma_joined_same(a, b, (n - 1) as nat);
    }
}

/// The meshes of the models, and what was compiled of them.
pub struct Models {
    meshes: OrderedMap<Interned, Mesh>,
    ordered_tiles: Vec<Interned>,
    vertex_offsets: OrderedMap<Interned, u32>,
    faces: OrderedMap<Interned, Face>,
    merged: Vec<RawFace>,
}

impl Models {
    /// The meshes, in ascending order of the handles of their models.
    pub closed spec fn meshes(&self) -> Seq<(Interned, MeshView)> {
        value_views(self.meshes.entries())
    }

    /// The tile types in the order in which they are shown, as last
    /// compiled.
    pub closed spec fn ordered_tiles(&self) -> Seq<Interned> {
        self.ordered_tiles@
    }

    /// Where the vertices of each model start, as last compiled.
    pub closed spec fn vertex_offsets(&self) -> Map<Interned, u32> {
        self.vertex_offsets@
    }

    /// Where the indices of each model lie, as last compiled.
    pub closed spec fn faces(&self) -> Map<Interned, Face> {
        self.faces@
    }

    /// The merged faces of the models that have a face, as last compiled.
    pub closed spec fn merged_faces(&self) -> Seq<Seq<u32>> {
        face_views(self.merged@)
    }

    /// The tables ascend.
    pub closed spec fn wf(&self) -> bool {
        &&& self.meshes.wf()
        &&& self.vertex_offsets.wf()
        &&& self.faces.wf()
    }

    /// No meshes, and nothing compiled.
    pub fn new() -> (models: Models)
        ensures
            models.wf(),
            models.meshes().len() == 0,
            models.ordered_tiles().len() == 0,
            models.vertex_offsets() == Map::<Interned, u32>::empty(),
            models.faces() == Map::<Interned, Face>::empty(),
            models.merged_faces() == Seq::<Seq<u32>>::empty(),
    {
        let models = Models {
            meshes: OrderedMap::new(),
            ordered_tiles: Vec::new(),
            vertex_offsets: OrderedMap::new(),
            faces: OrderedMap::new(),
            merged: Vec::new(),
        };
        assert(models.merged_faces() =~= Seq::<Seq<u32>>::empty());
        models
    }

    /// Puts the mesh of the model `id` in place of what was there.
    pub fn add_mesh(&mut self, id: Interned, mesh: Mesh)
        requires
            old(self).wf(),
        ensures
            final(self).wf(),
            entries_map(final(self).meshes()) == entries_map(old(self).meshes()).insert(id, mesh@),
            final(self).ordered_tiles() == old(self).ordered_tiles(),
            final(self).vertex_offsets() == old(self).vertex_offsets(),
            final(self).faces() == old(self).faces(),
            final(self).merged_faces() == old(self).merged_faces(),
    {
        proof {
            lemma_value_views(self.meshes.entries());
        }
        self.meshes.insert(id, mesh);
        proof {
            lemma_value_views(self.meshes.entries());
            assert(entries_map(self.meshes()) =~= entries_map(old(self).meshes()).insert(id, mesh@));
        }
    }

    /// The tile types in the order in which they are shown.
    pub fn tiles(&self) -> (tiles: &Vec<Interned>)
        ensures
            tiles@ == self.ordered_tiles(),
    {
        &self.ordered_tiles
    }

    /// Where the vertices of the model `id` start in the buffer of all
    /// vertices.
    pub fn vertex_offset(&self, id: Interned) -> (out: Option<u32>)
        requires
            self.wf(),
        ensures
            out is Some <==> self.vertex_offsets().contains_key(id),
            out matches Some(offset) ==> offset == self.vertex_offsets()[id],
    {
        match self.vertex_offsets.get(id) {
            Some(offset) => Some(*offset),
            None => None,
        }
    }

    /// Where the indices of the model `id` lie in the buffer of all indices.
    pub fn face(&self, id: Interned) -> (out: Option<Face>)
        requires
            self.wf(),
        ensures
            out is Some <==> self.faces().contains_key(id),
            out matches Some(face) ==> face == self.faces()[id],
    {
        match self.faces.get(id) {
            Some(face) => Some(*face),
            None => None,
        }
    }

    /// The merged faces of the models that have a face, in ascending order
    /// of the handles of their models.
    pub fn raw_faces(&self) -> (faces: &Vec<RawFace>)
        ensures
            face_views(faces@) == self.merged_faces(),
    {
        &self.merged
    }

    /// Works out where the vertices and the indices of each model lie, the
    /// models taken in ascending order of their handles.
    fn lay_out(&self) -> (out: Result<(OrderedMap<Interned, u32>, OrderedMap<Interned, Face>), ModelError>)
        requires
            self.wf(),
        ensures
            out is Ok <==> vertices_before(self.meshes(), self.meshes().len()) <= u32::MAX
                && indices_before(self.meshes(), self.meshes().len()) <= u32::MAX,
            out matches Ok(tables) ==> {
                &&& tables.0.wf()
                &&& tables.1.wf()
                &&& tables.0@ == vertex_offsets(self.meshes(), self.meshes().len())
                &&& tables.1@ == face_table(self.meshes(), self.meshes().len())
            },
            out matches Err(e) ==> e != ModelError::IndexTooLarge && (e == ModelError::TooManyVertices
                <==> vertices_before(self.meshes(), self.meshes().len()) > u32::MAX),
    {
        let ghost meshes = self.meshes();
        let n = self.meshes.len();
        let mut offsets: OrderedMap<Interned, u32> = OrderedMap::new();
        let mut faces: OrderedMap<Interned, Face> = OrderedMap::new();
        let mut vertices: u64 = 0;
        let mut indices: u64 = 0;
        let mut too_many_indices = false;
        let mut k: usize = 0;
        while k < n
            invariant
                self.wf(),
                meshes == self.meshes(),
                n == meshes.len(),
                k <= n,
                offsets.wf(),
                faces.wf(),
                vertices == vertices_before(meshes, k as nat),
                vertices <= u32::MAX,
                !too_many_indices ==> indices == indices_before(meshes, k as nat) && indices
                    <= u32::MAX,
                too_many_indices ==> indices_before(meshes, k as nat) > u32::MAX,
                !too_many_indices ==> offsets@ == vertex_offsets(meshes, k as nat) && faces@
                    == face_table(meshes, k as nat),
            decreases n - k,
        {
            let id = self.meshes.key_at(k);
            let mesh = self.meshes.value_at(k);
            assert(meshes[k as int] == (id, mesh@));
            let count = size_of_faces(&mesh.faces);
            proof {
                lemma_sums_grow(meshes, (k + 1) as nat, n as nat);
            }
            if !too_many_indices {
                offsets.insert(id, vertices as u32);
                match count {
                    Some(count) => {
                        if indices + count as u64 > 0xFFFF_FFFF {
                            too_many_indices = true;
                        } else {
                            if mesh.faces.len() > 0 {
                                faces.insert(id, Face { offset: indices as u32, size: count });
                            }
                            indices = indices + count as u64;
                        }
                    },
                    None => {
                        too_many_indices = true;
                    },
                }
            }
            if vertices + mesh.vertex_count as u64 > 0xFFFF_FFFF {
                proof {
                    lemma_sums_grow(meshes, (k + 1) as nat, n as nat);
                }
                return Err(ModelError::TooManyVertices);
            }
            vertices = vertices + mesh.vertex_count as u64;
            k = k + 1;
        }
        if too_many_indices {
            return Err(ModelError::TooManyIndices);
        }
        Ok((offsets, faces))
    }

    /// Merges the faces of each model that has one, the models taken in
    /// ascending order of their handles; `None` where an index cannot be
    /// counted from the place where the vertices of its model start.
    fn merge_all(&self) -> (out: Option<Vec<RawFace>>)
        requires
            self.wf(),
            vertices_before(self.meshes(), self.meshes().len()) <= u32::MAX,
        ensures
            out is Some <==> indices_fit(self.meshes(), self.meshes().len()),
            out matches Some(all) ==> face_views(all@) == merged_faces(
                self.meshes(),
                self.meshes().len(),
            ),
    {
        let ghost meshes = self.meshes();
        let n = self.meshes.len();
        let mut all: Vec<RawFace> = Vec::new();
        let mut vertices: u32 = 0;
        let mut k: usize = 0;
        assert(face_views(all@) =~= merged_faces(meshes, 0));
        while k < n
            invariant
                self.wf(),
                meshes == self.meshes(),
                n == meshes.len(),
                k <= n,
                vertices_before(meshes, n as nat) <= u32::MAX,
                vertices == vertices_before(meshes, k as nat),
                indices_fit(meshes, k as nat),
                face_views(all@) == merged_faces(meshes, k as nat),
            decreases n - k,
        {
            let id = self.meshes.key_at(k);
            let mesh = self.meshes.value_at(k);
            assert(meshes[k as int] == (id, mesh@));
            proof {
                lemma_sums_grow(meshes, (k + 1) as nat, n as nat);
            }
            match merged_face(mesh, vertices) {
                Some(face) => {
                    if mesh.faces.len() > 0 {
                        let ghost before = all@;
                        all.push(face);
                        assert(face_views(all@) =~= face_views(before).push(face@));
                    }
                },
                None => {
                    assert(!mesh_fits(meshes[k as int].1, vertices_before(meshes, k as nat) as u32));
                    return None;
                },
            }
            vertices = vertices + mesh.vertex_count;
            k = k + 1;
        }
        Some(all)
    }

    /// Works out where the vertices and the indices of each model lie, and
    /// merges the faces of each, the models taken in ascending order of
    /// their handles.
    fn compile_faces(&mut self) -> (out: Result<(), ModelError>)
        requires
            old(self).wf(),
        ensures
            final(self).wf(),
            final(self).meshes() == old(self).meshes(),
            final(self).ordered_tiles() == old(self).ordered_tiles(),
            out == compiled(old(self).meshes()),
            out is Ok ==> {
                &&& final(self).vertex_offsets() == vertex_offsets(
                    old(self).meshes(),
                    old(self).meshes().len(),
                )
                &&& final(self).faces() == face_table(old(self).meshes(), old(self).meshes().len())
                &&& final(self).merged_faces() == merged_faces(
                    old(self).meshes(),
                    old(self).meshes().len(),
                )
            },
            out is Err ==> {
                &&& final(self).vertex_offsets() == old(self).vertex_offsets()
                &&& final(self).faces() == old(self).faces()
                &&& final(self).merged_faces() == old(self).merged_faces()
            },
    {
        let (offsets, faces) = match self.lay_out() {
            Ok(tables) => tables,
            Err(e) => {
                return Err(e);
            },
        };
        let merged = match self.merge_all() {
            Some(merged) => merged,
            None => {
                return Err(ModelError::IndexTooLarge);
            },
        };
        self.vertex_offsets = offsets;
        self.faces = faces;
        self.merged = merged;
        Ok(())
    }

    /// Puts `tiles` in place of the order in which the tile types are shown.
    fn set_tiles(&mut self, tiles: Vec<Interned>)
        requires
            old(self).wf(),
        ensures
            final(self).wf(),
            final(self).meshes() == old(self).meshes(),
            final(self).ordered_tiles() == tiles@,
            final(self).vertex_offsets() == old(self).vertex_offsets(),
            final(self).faces() == old(self).faces(),
            final(self).merged_faces() == old(self).merged_faces(),
    {
        self.ordered_tiles = tiles;
    }
}

/// What compiling `meshes` comes to: the first thing that stands in the way,
/// if anything does.
pub open spec fn compiled(meshes: Seq<(Interned, MeshView)>) -> Result<(), ModelError> {
    if vertices_before(meshes, meshes.len()) > u32::MAX {
        Err(ModelError::TooManyVertices)
    } else if indices_before(meshes, meshes.len()) > u32::MAX {
        Err(ModelError::TooManyIndices)
    } else if !indices_fit(meshes, meshes.len()) {
        Err(ModelError::IndexTooLarge)
    } else {
        Ok(())
    }
}

/// The number of indices of `faces`; `None` where it is more than a buffer
/// can address.
fn size_of_faces(faces: &Vec<RawFace>) -> (out: Option<u32>)
    ensures
        out is Some <==> joined(face_views(faces@), faces@.len()).len() <= u32::MAX,
        out matches Some(total) ==> total == joined(face_views(faces@), faces@.len()).len(),
{
    let n = faces.len();
    let ghost views = face_views(faces@);
    let mut total: u64 = 0;
    let mut i: usize = 0;
    while i < n
        invariant
            n == faces@.len(),
            views == face_views(faces@),
            i <= n,
            total == joined(views, i as nat).len(),
            total <= u32::MAX,
        decreases n - i,
    {
        let size = faces[i].indices.len();
        assert(views[i as int] == faces@[i as int]@);
        if size > 0xFFFF_FFFF || total + size as u64 > 0xFFFF_FFFF {
            proof {
                lemma_joined_front(views, (i + 1) as nat, n as nat);
            }
            return None;
        }
        total = total + size as u64;
        i = i + 1;
    }
    Some(total as u32)
}

/// `indices`, each counted from `base` on; `None` where one of them would be
/// more than a buffer can address.
pub fn shifted_indices(indices: &Vec<u32>, base: u32) -> (out: Option<Vec<u32>>)
    ensures
        out is Some <==> forall|i: int|
            0 <= i < indices@.len() ==> #[trigger] indices@[i] + base <= u32::MAX,
        out matches Some(moved) ==> {
            &&& moved@.len() == indices@.len()
            &&& forall|i: int| 0 <= i < moved@.len() ==> #[trigger] moved@[i] == indices@[i] + base
            &&& moved@ == shifted(indices@, base)
        },
        out is Some <==> shift_fits(indices@, base),
{
    let n = indices.len();
    let mut moved: Vec<u32> = Vec::new();
    let mut i: usize = 0;
    while i < n
        invariant
            n == indices@.len(),
            i <= n,
            moved@.len() == i,
            forall|j: int| 0 <= j < i ==> #[trigger] indices@[j] + base <= u32::MAX,
            forall|j: int| 0 <= j < i ==> #[trigger] moved@[j] == indices@[j] + base,
        decreases n - i,
    {
        let index = indices[i];
        if index > u32::MAX - base {
            assert(indices@[i as int] + base > u32::MAX);
            return None;
        }
        moved.push(index + base);
        i = i + 1;
    }
    assert(moved@ =~= shifted(indices@, base));
    Some(moved)
}

/// The one face that the faces of `mesh` are merged into: their indices, one
/// face after the other, each counted from `base` on. `None` where one of
/// them would be more than a buffer can address.
pub fn merged_face(mesh: &Mesh, base: u32) -> (out: Option<RawFace>)
    ensures
        out is Some <==> mesh_fits(mesh@, base),
        out matches Some(face) ==> face@ == merged(mesh@, base),
{
    let n = mesh.faces.len();
    let ghost faces = mesh@.faces;
    let mut indices: Vec<u32> = Vec::new();
    let mut k: usize = 0;
    assert(indices@ =~= shifted(joined(faces, 0), base));
    while k < n
        invariant
            n == faces.len(),
            faces == mesh@.faces,
            k <= n,
            shift_fits(joined(faces, k as nat), base),
            indices@ == shifted(joined(faces, k as nat), base),
        decreases n - k,
    {
        let face = &mesh.faces[k];
        assert(faces[k as int] == face@);
        proof {
            lemma_shifted_parts(joined(faces, k as nat), faces[k as int], base);
        }
        match shifted_indices(&face.indices, base) {
            Some(more) => {
                let mut more = more;
                indices.append(&mut more);
            },
            None => {
                proof {
                    if shift_fits(joined(faces, n as nat), base) {
                        lemma_front_fits(faces, (k + 1) as nat, n as nat, base);
                    }
                }
                return None;
            },
        }
        k = k + 1;
    }
    Some(RawFace { indices })
}

/// Whether `order` lists exactly the tile types of `registry` that `texts`
/// hold an identifier for, in the ascending order of their identifiers.
pub open spec fn is_tile_order(order: Seq<Interned>, registry: &Registry, texts: Seq<Seq<char>>) -> bool {
    &&& in_id_order(order, texts)
    &&& forall|id: Interned|
        order.contains(id) <==> registry.tiles().contains_key(id) && id.index < texts.len()
}

/// Where `this` belongs in `order`: behind every handle whose identifier
/// comes before it.
fn place_of(order: &Vec<Interned>, this: &Id, interner: &Interner) -> (p: usize)
    requires
        interner.wf(),
        in_id_order(order@, interner.texts()),
    ensures
        p <= order@.len(),
        forall|k: int| 0 <= k < p ==> id_before(interner.parts(#[trigger] order@[k]), this@),
        p < order@.len() ==> !id_before(interner.parts(order@[p as int]), this@),
{
    let m = order.len();
    let mut p: usize = 0;
    while p < m
        invariant
            interner.wf(),
            in_id_order(order@, interner.texts()),
            m == order@.len(),
            p <= m,
            forall|k: int| 0 <= k < p ==> id_before(interner.parts(#[trigger] order@[k]), this@),
        decreases m - p,
    {
        assert(order@[p as int].index < interner.texts().len());
        match interner.resolve(order[p]) {
            Some(other) => {
                if !precedes(&other, this) {
                    return p;
                }
            },
            None => {
                return p;
            },
        }
        p = p + 1;
    }
    p
}

/// An order with one more handle put where it belongs is an order.
proof fn lemma_put_in_order(
    interner: &Interner,
    before: Seq<Interned>,
    p: int,
    id: Interned,
)
    requires
        interner.wf(),
        interner.knows(id),
        in_id_order(before, interner.texts()),
        !before.contains(id),
        0 <= p <= before.len(),
        forall|k: int| 0 <= k < p ==> id_before(interner.parts(#[trigger] before[k]), interner.parts(id)),
        p < before.len() ==> !id_before(interner.parts(before[p]), interner.parts(id)),
    ensures
        in_id_order(before.insert(p, id), interner.texts()),
{
    let after = before.insert(p, id);
    let texts = interner.texts();
    let x = interner.parts(id);
    assert forall|k: int| 0 <= k < after.len() implies (#[trigger] after[k]).index < texts.len() by {
        if k < p {
            assert(after[k] == before[k]);
        } else if k > p {
            assert(after[k] == before[k - 1]);
        }
    }
    assert forall|k: int, l: int| 0 <= k < l < after.len() implies id_before(
        crate::id::parse_id(texts[(#[trigger] after[k]).index as int])->Ok_0,
        crate::id::parse_id(texts[(#[trigger] after[l]).index as int])->Ok_0,
    ) by {
        if l < p {
            assert(after[k] == before[k]);
            assert(after[l] == before[l]);
        } else if l == p {
            assert(after[k] == before[k]);
            assert(id_before(interner.parts(before[k]), x));
        } else if k < p {
            assert(after[k] == before[k]);
            assert(after[l] == before[l - 1]);
        } else if k == p {
            assert(after[l] == before[l - 1]);
            let y = interner.parts(before[p]);
            let z = interner.parts(before[l - 1]);
            assert(before.contains(before[p]));
            assert(before[p] != id);
            assert(before[p].index < texts.len());
            lemma_parts_differ(interner, before[p], id);
            lemma_id_order(x, y, z);
            lemma_id_order(y, x, x);
            if l - 1 > p {
                assert(id_before(y, z));
            }
        } else {
            assert(after[k] == before[k - 1]);
            assert(after[l] == before[l - 1]);
        }
    }
}

/// The tile types of `registry` that `interner` knows, in the ascending order
/// of their identifiers.
pub fn sorted_tiles(registry: &Registry, interner: &Interner) -> (out: Vec<Interned>)
    requires
        registry.wf(),
        interner.wf(),
    ensures
        is_tile_order(out@, registry, interner.texts()),
{
    let ghost texts = interner.texts();
    let mut out: Vec<Interned> = Vec::new();
    let ids = registry.tile_ids();
    let n = ids.len();
    let mut i: usize = 0;
    while i < n
        invariant
            interner.wf(),
            texts == interner.texts(),
            n == ids@.len(),
            i <= n,
            forall|a: int, b: int| 0 <= a < b < n ==> ids@[a] != ids@[b],
            in_id_order(out@, texts),
            forall|id: Interned|
                out@.contains(id) <==> id.index < texts.len() && exists|j: int|
                    0 <= j < i && ids@[j] == id,
        decreases n - i,
    {
        let id = ids[i];
        let ghost before = out@;
        match interner.resolve(id) {
            Some(this) => {
                let p = place_of(&out, &this, interner);
                out.insert(p, id);
                proof {
                    let after = out@;
                    assert(!before.contains(id)) by {
                        if before.contains(id) {
                            let j = choose|j: int| 0 <= j < i && ids@[j] == id;
                            assert(ids@[j] != ids@[i as int]);
                        }
                    }
                    lemma_put_in_order(interner, before, p as int, id);
                    assert forall|h: Interned|
                        after.contains(h) <==> h.index < texts.len() && exists|j: int|
                            0 <= j < i + 1 && ids@[j] == h by {
                        if after.contains(h) {
                            let k = choose|k: int| 0 <= k < after.len() && after[k] == h;
                            if k < p {
                                assert(before[k] == h);
                                assert(before.contains(h));
                                let j = choose|j: int| 0 <= j < i && ids@[j] == h;
                                assert(ids@[j] == h);
                            } else if k > p {
                                assert(before[k - 1] == h);
                                assert(before.contains(h));
                                let j = choose|j: int| 0 <= j < i && ids@[j] == h;
                                assert(ids@[j] == h);
                            } else {
                                assert(ids@[i as int] == h);
                            }
                        }
                        if h.index < texts.len() && exists|j: int| 0 <= j < i + 1 && ids@[j] == h {
                            let j = choose|j: int| 0 <= j < i + 1 && ids@[j] == h;
                            if j < i {
                                assert(before.contains(h));
                                let k = choose|k: int| 0 <= k < before.len() && before[k] == h;
                                if k < p {
                                    assert(after[k] == h);
                                } else {
                                    assert(after[k + 1] == h);
                                }
                            } else {
                                assert(after[p as int] == h);
                            }
                        }
                    }
                }
            },
            None => {
                proof {
                    assert forall|h: Interned|
                        out@.contains(h) <==> h.index < texts.len() && exists|j: int|
                            0 <= j < i + 1 && ids@[j] == h by {
                        if h.index < texts.len() && exists|j: int| 0 <= j < i + 1 && ids@[j] == h {
                            let j = choose|j: int| 0 <= j < i + 1 && ids@[j] == h;
                            assert(j < i);
                            assert(ids@[j] == h);
                        }
                        if out@.contains(h) {
                            let j = choose|j: int| 0 <= j < i && ids@[j] == h;
                            assert(ids@[j] == h);
                        }
                    }
                }
            },
        }
        i = i + 1;
    }
    proof {
        assert forall|id: Interned|
            out@.contains(id) <==> registry.tiles().contains_key(id) && id.index
                < texts.len() by {
            if registry.tiles().contains_key(id) {
                let j = choose|j: int| 0 <= j < n && ids@[j] == id;
                assert(ids@[j] == id);
            }
            if out@.contains(id) {
                let j = choose|j: int| 0 <= j < n && ids@[j] == id;
                assert(ids@[j] == id);
            }
        }
    }
    out
}

/// Two handles that an interner knows stand for different identifiers.
pub proof fn lemma_parts_differ(interner: &Interner, a: Interned, b: Interned)
    requires
        interner.wf(),
        interner.knows(a),
        interner.knows(b),
        a != b,
    ensures
        interner.parts(a) != interner.parts(b),
{
    let ta = interner.texts()[a.index as int];
    let tb = interner.texts()[b.index as int];
    if a.index < b.index {
        assert(ta != tb);
    } else {
        assert(tb != ta);
    }
    crate::id::lemma_text_of_parsed(ta);
    crate::id::lemma_text_of_parsed(tb);
}

/// `order` with `first` at its front, where `order` lists it.
pub fn bring_to_front(order: &mut Vec<Interned>, first: Interned)
    ensures
        final(order)@ == with_front(old(order)@, first),
{
    let n = order.len();
    let mut i: usize = 0;
    while i < n
        invariant
            n == order@.len(),
            order@ == old(order)@,
            i <= n,
            forall|k: int| 0 <= k < i ==> order@[k] != first,
        decreases n - i,
    {
        if order[i] == first {
            let ghost s = order@;
            proof {
                assert(is_first_place(s, first, i as int));
                let found = choose|k: int| is_first_place(s, first, k);
                if found < i {
                    assert(s[found] != first);
                } else if i < found {
                    assert(s[i as int] != first);
                }
            }
            let front = order[0];
            order.set(i, front);
            order.set(0, first);
            proof {
                assert(order@ =~= s.update(i as int, s[0]).update(0, first));
            }
            return ;
        }
        i = i + 1;
    }
    proof {
        if exists|k: int| is_first_place(order@, first, k) {
            let k = choose|k: int| is_first_place(order@, first, k);
            assert(order@[k] != first);
        }
    }
}

impl ResourceManager {
    /// Makes ready what the renderer is handed: the tile types in the
    /// ascending order of their identifiers, with the type that stands for no
    /// tile brought to the front; the place of each model's vertices and
    /// indices in the buffers of all models; and for each model that has a
    /// face the one face that its faces are merged into, its indices counted
    /// from the place where the vertices of the model start.
    pub fn compile_models(&mut self) -> (out: Result<(), ModelError>)
        requires
            old(self).wf(),
        ensures
            final(self).wf(),
            final(self).interner == old(self).interner,
            final(self).registry == old(self).registry,
            final(self).models.meshes() == old(self).models.meshes(),
            exists|order: Seq<Interned>|
                is_tile_order(order, &old(self).registry, old(self).interner.texts()) && final(self).models.ordered_tiles() == with_front(order, old(self).registry.none_id()),
            out == compiled(old(self).models.meshes()),
            out is Ok ==> {
                &&& final(self).models.vertex_offsets() == vertex_offsets(
                    old(self).models.meshes(),
                    old(self).models.meshes().len(),
                )
                &&& final(self).models.faces() == face_table(
                    old(self).models.meshes(),
                    old(self).models.meshes().len(),
                )
                &&& final(self).models.merged_faces() == merged_faces(
                    old(self).models.meshes(),
                    old(self).models.meshes().len(),
                )
            },
            out is Err ==> {
                &&& final(self).models.vertex_offsets() == old(self).models.vertex_offsets()
                &&& final(self).models.faces() == old(self).models.faces()
                &&& final(self).models.merged_faces() == old(self).models.merged_faces()
            },
    {
        let mut tiles = sorted_tiles(&self.registry, &self.interner);
        let ghost order = tiles@;
        bring_to_front(&mut tiles, self.registry.none());
        self.models.set_tiles(tiles);
        assert(is_tile_order(order, &old(self).registry, old(self).interner.texts()));
        self.models.compile_faces()
    }
}

} // verus!
