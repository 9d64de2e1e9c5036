//! The scene registry: primitives, materials and the objects that pair them,
//! each under an identifier handed out in order of arrival.
//!
//! The registry does not look inside a primitive or a material; it is generic
//! in both.

use std::collections::HashMap;
use vstd::prelude::*;

verus! {

broadcast use vstd::std_specs::hash::group_hash_axioms;

#[derive(Copy, Clone, Eq, PartialEq, Hash, Debug, Structural)]
pub struct ObjectId(pub u32);

#[derive(Copy, Clone, Eq, PartialEq, Hash, Debug, Structural)]
pub struct MaterialId(pub u32);

#[derive(Copy, Clone, Eq, PartialEq, Hash, Debug, Structural)]
pub struct PrimitiveId(pub u32);

/// The identifiers that the next arrivals will get.
#[derive(Copy, Clone)]
struct NextIds {
    object_id: ObjectId,
    material_id: MaterialId,
    primitive_id: PrimitiveId,
}

impl NextIds {
    fn new() -> (ids: NextIds)
        ensures
            ids.object_id.0 == 0,
            ids.material_id.0 == 0,
            ids.primitive_id.0 == 0,
    {
        NextIds { object_id: ObjectId(0), material_id: MaterialId(0), primitive_id: PrimitiveId(0) }
    }

    fn next_object_id(&mut self) -> (id: ObjectId)
        requires
            old(self).object_id.0 < u32::MAX,
        ensures
            id == old(self).object_id,
            final(self).object_id.0 == id.0 + 1,
            final(self).material_id == old(self).material_id,
            final(self).primitive_id == old(self).primitive_id,
    {
        let id = self.object_id;
        self.object_id.0 += 1;
        id
    }

    fn next_material_id(&mut self) -> (id: MaterialId)
        requires
            old(self).material_id.0 < u32::MAX,
        ensures
            id == old(self).material_id,
            final(self).material_id.0 == id.0 + 1,
            final(self).object_id == old(self).object_id,
            final(self).primitive_id == old(self).primitive_id,
    {
        let id = self.material_id;
        self.material_id.0 += 1;
        id
    }

    fn next_primitive_id(&mut self) -> (id: PrimitiveId)
        requires
            old(self).primitive_id.0 < u32::MAX,
        ensures
            id == old(self).primitive_id,
            final(self).primitive_id.0 == id.0 + 1,
            final(self).object_id == old(self).object_id,
            final(self).material_id == old(self).material_id,
    {
        let id = self.primitive_id;
        self.primitive_id.0 += 1;
        id
    }
}

/// One object of the scene: a primitive and the material it is made of, both
/// by identifier.
#[derive(Copy, Clone, Debug, PartialEq, Eq, Structural)]
pub struct SceneObject {
    pub primitive: PrimitiveId,
    pub material: MaterialId,
}

impl SceneObject {
    fn new(primitive: PrimitiveId, material: MaterialId) -> (o: SceneObject)
        ensures
            o == (SceneObject { primitive, material }),
    {
        SceneObject { primitive, material }
    }

    pub fn primitive(&self) -> (id: PrimitiveId)
        ensures
            id == self.primitive,
    {
        self.primitive
    }

    pub fn material(&self) -> (id: MaterialId)
        ensures
            id == self.material,
    {
        self.material
    }
}

/// The keys of `m` are exactly the numbers below its size.
pub open spec fn dense<V>(m: Map<u32, V>) -> bool {
    &&& m.dom().finite()
    &&& forall|k: u32| #[trigger] m.contains_key(k) <==> (k as nat) < m.len()
}

/// Adding the next number as a key keeps a map dense and makes it one larger.
pub proof fn lemma_dense_insert<V>(m: Map<u32, V>, v: V)
    requires
        dense(m),
        m.len() <= u32::MAX,
    ensures
        dense(m.insert(m.len() as u32, v)),
        m.insert(m.len() as u32, v).len() == m.len() + 1,
{
    let k = m.len() as u32;
    assert(!m.contains_key(k));
    let n = m.insert(k, v);
    assert(n.dom() =~= m.dom().insert(k));
    assert forall|j: u32| #[trigger] n.contains_key(j) <==> (j as nat) < n.len() by {
        if j != k {
            assert(n.contains_key(j) == m.contains_key(j));
        }
    }
}

pub struct SceneData<P, M> {
    objects: HashMap<u32, SceneObject>,
    materials: HashMap<u32, M>,
    primitives: HashMap<u32, P>,
    next_ids: NextIds,
}

impl<P, M> SceneData<P, M> {
    /// The objects, by the number inside their identifier.
    pub closed spec fn objects_view(&self) -> Map<u32, SceneObject> {
        self.objects@
    }

    /// The materials, by the number inside their identifier.
    pub closed spec fn materials_view(&self) -> Map<u32, M> {
        self.materials@
    }

    /// The primitives, by the number inside their identifier.
    pub closed spec fn primitives_view(&self) -> Map<u32, P> {
        self.primitives@
    }

    /// The counters stand at the sizes of the three tables.
    pub closed spec fn counters_in_step(&self) -> bool {
        &&& self.next_ids.object_id.0 == self.objects@.len()
        &&& self.next_ids.material_id.0 == self.materials@.len()
        &&& self.next_ids.primitive_id.0 == self.primitives@.len()
    }

    /// Identifiers are the numbers from zero up in each table, and every object
    /// names a primitive and a material that are registered.
    pub open spec fn wf(&self) -> bool {
        &&& dense(self.objects_view())
        &&& dense(self.materials_view())
        &&& dense(self.primitives_view())
        &&& self.counters_in_step()
        &&& forall|k: u32| #[trigger]
            self.objects_view().contains_key(k) ==> {
                &&& self.primitives_view().contains_key(
                    self.objects_view()[k].primitive.0,
                )
                &&& self.materials_view().contains_key(self.objects_view()[k].material.0)
            }
    }

    /// No table of a well-formed registry outgrows its identifiers.
    pub proof fn lemma_sizes_bounded(&self)
        requires
            self.wf(),
        ensures
            self.objects_view().len() <= u32::MAX,
            self.materials_view().len() <= u32::MAX,
            self.primitives_view().len() <= u32::MAX,
    {
    }

    pub fn new() -> (s: Self)
        ensures
            s.wf(),
            s.objects_view() == Map::<u32, SceneObject>::empty(),
            s.materials_view() == Map::<u32, M>::empty(),
            s.primitives_view() == Map::<u32, P>::empty(),
    {
        SceneData {
            objects: HashMap::new(),
            materials: HashMap::new(),
            primitives: HashMap::new(),
            next_ids: NextIds::new(),
        }
    }

    pub fn objects_count(&self) -> (n: usize)
        ensures
            n == self.objects_view().len(),
    {
        self.objects.len()
    }

    pub fn materials_count(&self) -> (n: usize)
        ensures
            n == self.materials_view().len(),
    {
        self.materials.len()
    }

    pub fn primitives_count(&self) -> (n: usize)
        ensures
            n == self.primitives_view().len(),
    {
        self.primitives.len()
    }

    pub fn object(&self, id: ObjectId) -> (found: Option<&SceneObject>)
        ensures
            match found {
                Some(o) => self.objects_view().contains_key(id.0) && self.objects_view()[id.0]
                    == *o,
                None => !self.objects_view().contains_key(id.0),
            },
    {
        self.objects.get(&id.0)
    }

    pub fn material(&self, id: MaterialId) -> (found: Option<&M>)
        ensures
            match found {
                Some(m) => self.materials_view().contains_key(id.0)
                    && self.materials_view()[id.0] == *m,
                None => !self.materials_view().contains_key(id.0),
            },
    {
        self.materials.get(&id.0)
    }

    pub fn primitive(&self, id: PrimitiveId) -> (found: Option<&P>)
        ensures
            match found {
                Some(p) => self.primitives_view().contains_key(id.0)
                    && self.primitives_view()[id.0] == *p,
                None => !self.primitives_view().contains_key(id.0),
            },
    {
        self.primitives.get(&id.0)
    }

    /// Registers a material under the next free identifier.
    pub fn add_material(&mut self, material: M) -> (id: MaterialId)
        requires
            old(self).wf(),
            old(self).materials_view().len() < u32::MAX,
        ensures
            final(self).wf(),
            id.0 == old(self).materials_view().len(),
            final(self).materials_view() == old(self).materials_view().insert(id.0, material),
            final(self).primitives_view() == old(self).primitives_view(),
            final(self).objects_view() == old(self).objects_view(),
    {
        proof {
            lemma_dense_insert(self.materials@, material);
        }
        let id = self.next_ids.next_material_id();
        self.materials.insert(id.0, material);
        id
    }

    /// Registers a primitive under the next free identifier.
    pub fn add_primitive(&mut self, primitive: P) -> (id: PrimitiveId)
        requires
            old(self).wf(),
            old(self).primitives_view().len() < u32::MAX,
        ensures
            final(self).wf(),
            id.0 == old(self).primitives_view().len(),
            final(self).primitives_view() == old(self).primitives_view().insert(id.0, primitive),
            final(self).materials_view() == old(self).materials_view(),
            final(self).objects_view() == old(self).objects_view(),
    {
        proof {
            lemma_dense_insert(self.primitives@, primitive);
        }
        let id = self.next_ids.next_primitive_id();
        self.primitives.insert(id.0, primitive);
        id
    }

    /// Pairs a registered primitive with a registered material.  Where either
    /// is unknown nothing is added.
    pub fn add_object(&mut self, primitive: PrimitiveId, material: MaterialId) -> (added: Option<
        ObjectId,
    >)
        requires
            old(self).wf(),
            old(self).objects_view().len() < u32::MAX,
        ensures
            final(self).wf(),
            final(self).primitives_view() == old(self).primitives_view(),
            final(self).materials_view() == old(self).materials_view(),
            added is Some <==> old(self).primitives_view().contains_key(primitive.0) && old(
                self,
            ).materials_view().contains_key(material.0),
            match added {
                Some(id) => {
                    &&& id.0 == old(self).objects_view().len()
                    &&& final(self).objects_view() == old(self).objects_view().insert(
                        id.0,
                        (SceneObject { primitive, material }),
                    )
                },
                None => final(self).objects_view() == old(self).objects_view(),
            },
    {
        if !self.primitives.contains_key(&primitive.0) || !self.materials.contains_key(
            &material.0,
        ) {
            return None;
        }
        let object = SceneObject::new(primitive, material);
        proof {
            lemma_dense_insert(self.objects@, object);
        }
        let id = self.next_ids.next_object_id();
        self.objects.insert(id.0, object);
        Some(id)
    }

    /// Registers a primitive and a material and pairs them.
    pub fn create_object(&mut self, primitive: P, material: M) -> (id: ObjectId)
        requires
            old(self).wf(),
            old(self).objects_view().len() < u32::MAX,
            old(self).primitives_view().len() < u32::MAX,
            old(self).materials_view().len() < u32::MAX,
        ensures
            final(self).wf(),
            id.0 == old(self).objects_view().len(),
            final(self).primitives_view() == old(self).primitives_view().insert(
                old(self).primitives_view().len() as u32,
                primitive,
            ),
            final(self).materials_view() == old(self).materials_view().insert(
                old(self).materials_view().len() as u32,
                material,
            ),
            final(self).objects_view() == old(self).objects_view().insert(
                id.0,
                (SceneObject {
                    primitive: PrimitiveId(old(self).primitives_view().len() as u32),
                    material: MaterialId(old(self).materials_view().len() as u32),
                }),
            ),
    {
        let primitive = self.add_primitive(primitive);
        let material = self.add_material(material);
        self.add_object(primitive, material).unwrap()
    }

    /// The objects with their identifiers, in the order in which they came.
    pub fn objects_iter(&self) -> (all: Vec<(ObjectId, SceneObject)>)
        requires
            self.wf(),
        ensures
            all.len() == self.objects_view().len(),
            forall|i: int|
                0 <= i < all.len() ==> (#[trigger] all[i]).0.0 == i && all[i].1
                    == self.objects_view()[i as u32],
    {
        let n = self.objects.len();
        let mut all: Vec<(ObjectId, SceneObject)> = Vec::new();
        let mut i: u32 = 0;
        while (i as usize) < n
            invariant
                self.wf(),
                n == self.objects_view().len(),
                i <= n,
                all.len() == i,
                forall|j: int|
                    0 <= j < all.len() ==> (#[trigger] all[j]).0.0 == j && all[j].1
                        == self.objects_view()[j as u32],
            decreases n - i,
        {
            assert(self.objects_view().contains_key(i));
            let object = *self.objects.get(&i).unwrap();
            all.push((ObjectId(i), object));
            assert(n <= u32::MAX);
            i += 1;
        }
        all
    }

    /// The materials with their identifiers, in the order in which they came.
    pub fn materials_iter(&self) -> (all: Vec<(MaterialId, &M)>)
        requires
            self.wf(),
        ensures
            all.len() == self.materials_view().len(),
            forall|i: int|
                0 <= i < all.len() ==> (#[trigger] all[i]).0.0 == i && *all[i].1
                    == self.materials_view()[i as u32],
    {
        let n = self.materials.len();
        let mut all: Vec<(MaterialId, &M)> = Vec::new();
        let mut i: u32 = 0;
        while (i as usize) < n
            invariant
                self.wf(),
                n == self.materials_view().len(),
                i <= n,
                all.len() == i,
                forall|j: int|
                    0 <= j < all.len() ==> (#[trigger] all[j]).0.0 == j && *all[j].1
                        == self.materials_view()[j as u32],
            decreases n - i,
        {
            assert(self.materials_view().contains_key(i));
            let material = self.materials.get(&i).unwrap();
            all.push((MaterialId(i), material));
            assert(n <= u32::MAX);
            i += 1;
        }
        all
    }

    /// The primitives with their identifiers, in the order in which they came.
    pub fn primitives_iter(&self) -> (all: Vec<(PrimitiveId, &P)>)
        requires
            self.wf(),
        ensures
            all.len() == self.primitives_view().len(),
            forall|i: int|
                0 <= i < all.len() ==> (#[trigger] all[i]).0.0 == i && *all[i].1
                    == self.primitives_view()[i as u32],
    {
        let n = self.primitives.len();
        let mut all: Vec<(PrimitiveId, &P)> = Vec::new();
        let mut i: u32 = 0;
        while (i as usize) < n
            invariant
                self.wf(),
                n == self.primitives_view().len(),
                i <= n,
                all.len() == i,
                forall|j: int|
                    0 <= j < all.len() ==> (#[trigger] all[j]).0.0 == j && *all[j].1
                        == self.primitives_view()[j as u32],
            decreases n - i,
        {
            assert(self.primitives_view().contains_key(i));
            let primitive = self.primitives.get(&i).unwrap();
            all.push((PrimitiveId(i), primitive));
            assert(n <= u32::MAX);
            i += 1;
        }
        all
    }
}

/// The object table as rows for a device: row `i` holds the numbers of the
/// primitive and of the material of object `i`.
pub fn objects_to_gpu_buf<P, M>(scene: &SceneData<P, M>) -> (buf: Vec<[u32; 2]>)
    requires
        scene.wf(),
    ensures
        buf.len() == scene.objects_view().len(),
        forall|i: int|
            0 <= i < buf.len() ==> (#[trigger] buf[i])[0]
                == scene.objects_view()[i as u32].primitive.0 && buf[i][1]
                == scene.objects_view()[i as u32].material.0,
{
    let objects = scene.objects_iter();
    let mut buf: Vec<[u32; 2]> = Vec::new();
    let mut i: usize = 0;
    while i < objects.len()
        invariant
            i <= objects.len(),
            objects.len() == scene.objects_view().len(),
            forall|j: int|
                0 <= j < objects.len() ==> (#[trigger] objects[j]).1
                    == scene.objects_view()[j as u32],
            buf.len() == i,
            forall|j: int|
                0 <= j < buf.len() ==> (#[trigger] buf[j])[0]
                    == scene.objects_view()[j as u32].primitive.0 && buf[j][1]
                    == scene.objects_view()[j as u32].material.0,
        decreases objects.len() - i,
    {
        let object = objects[i].1;
        buf.push([object.primitive().0, object.material().0]);
        i += 1;
    }
    buf
}

} // verus!
