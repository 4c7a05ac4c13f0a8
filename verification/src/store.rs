//! An executable model of the vector store's collection and point semantics.
//!
//! The real store is a remote service; the application talks to it over the
//! network.  This module captures, as verified code, exactly the behaviour the
//! rest of the library relies on: named collections with a fixed vector
//! dimensionality, point upsert keyed by a numeric identifier, topic-filtered
//! retrieval, capped enumeration, and teardown.  Vectors appear only as their
//! length: their numeric contents, and the similarity scores computed from
//! them, stay inside the remote service.  Ranked retrieval is therefore
//! abstracted to stored order; every property stated downstream is independent
//! of the ranking.  Transport failures also live outside the model: the errors
//! here are the store's semantic rejections.

use vstd::prelude::*;
use crate::payload::{Payload, plookup, spec_topic_name_key};

verus! {

/// The mathematical value of a stored point.
pub struct PointAbs {
    pub id: u64,
    pub payload: Seq<(Seq<char>, Seq<char>)>,
}

/// A point in a collection: its numeric identifier and its payload.  The
/// vector itself stays in the remote store; its length is fixed by the
/// collection.
pub struct StoredPoint {
    pub id: u64,
    pub payload: Payload,
}

impl View for StoredPoint {
    type V = PointAbs;

    open spec fn view(&self) -> PointAbs {
        PointAbs { id: self.id, payload: self.payload@ }
    }
}

impl Clone for StoredPoint {
    fn clone(&self) -> (r: Self)
        ensures
            r@ == self@,
    {
        StoredPoint { id: self.id, payload: self.payload.clone() }
    }
}

/// The mathematical value of a collection.
pub struct CollectionAbs {
    pub vector_size: u64,
    pub points: Seq<PointAbs>,
}

/// A named container of points, with the vector dimensionality fixed at
/// creation time.
pub struct Collection {
    pub vector_size: u64,
    pub points: Vec<StoredPoint>,
}

impl View for Collection {
    type V = CollectionAbs;

    open spec fn view(&self) -> CollectionAbs {
        CollectionAbs {
            vector_size: self.vector_size,
            points: self.points@.map_values(|p: StoredPoint| p@),
        }
    }
}

/// A collection together with its name.
pub struct NamedCollection {
    pub name: String,
    pub collection: Collection,
}

/// What a describe call reports about a collection.
#[derive(Clone, Copy, PartialEq, Eq, Structural, Debug)]
pub struct CollectionInfo {
    pub vector_size: u64,
    pub points_count: u64,
}

/// A semantic rejection by the store.
#[derive(Clone, Copy, PartialEq, Eq, Structural, Debug)]
pub enum StoreError {
    /// `create_collection` on a name that already exists.
    CollectionAlreadyExists,
    /// An operation on a collection that does not exist.
    CollectionNotFound,
    /// A vector whose length differs from the collection's dimensionality.
    DimensionMismatch,
}

impl StoreError {
    /// The rejection's description.
    pub open spec fn spec_message(self) -> Seq<char> {
        match self {
            StoreError::CollectionAlreadyExists => "collection already exists"@,
            StoreError::CollectionNotFound => "collection not found"@,
            StoreError::DimensionMismatch => "vector dimensionality mismatch"@,
        }
    }

    /// The rejection's description.
    pub fn message(&self) -> (r: String)
        ensures
            r@ == self.spec_message(),
    {
        match self {
            StoreError::CollectionAlreadyExists => "collection already exists".to_owned(),
            StoreError::CollectionNotFound => "collection not found".to_owned(),
            StoreError::DimensionMismatch => "vector dimensionality mismatch".to_owned(),
        }
    }
}

/// True when a point's payload labels it with `topic`.
pub open spec fn point_has_topic(p: PointAbs, topic: Seq<char>) -> bool {
    plookup(p.payload, spec_topic_name_key()) == Some(topic)
}

/// The points labelled with `topic`, in stored order.
pub open spec fn topic_matches(points: Seq<PointAbs>, topic: Seq<char>) -> Seq<PointAbs>
    decreases points.len(),
{
    if points.len() == 0 {
        Seq::empty()
    } else if point_has_topic(points[0], topic) {
        seq![points[0]] + topic_matches(points.drop_first(), topic)
    } else {
        topic_matches(points.drop_first(), topic)
    }
}

/// The first `limit` elements, or all of them when there are fewer.
pub open spec fn capped(s: Seq<PointAbs>, limit: int) -> Seq<PointAbs> {
    if limit < s.len() {
        s.take(limit)
    } else {
        s
    }
}

/// True when some point carries identifier `id`.
pub open spec fn has_point(points: Seq<PointAbs>, id: u64) -> bool {
    exists|j: int| 0 <= j < points.len() && points[j].id == id
}

/// The position of the point carrying identifier `id`.
pub open spec fn point_index(points: Seq<PointAbs>, id: u64) -> int
    recommends
        has_point(points, id),
{
    choose|j: int| 0 <= j < points.len() && points[j].id == id
}

/// The points after an upsert of `p`: the point with the same identifier is
/// overwritten, or `p` is appended when there is none.
pub open spec fn upserted(points: Seq<PointAbs>, p: PointAbs) -> Seq<PointAbs> {
    if has_point(points, p.id) {
        points.update(point_index(points, p.id), p)
    } else {
        points.push(p)
    }
}

/// The points after the point carrying `id` is deleted; nothing changes when
/// there is none.
pub open spec fn without_point(points: Seq<PointAbs>, id: u64) -> Seq<PointAbs> {
    if has_point(points, id) {
        points.remove(point_index(points, id))
    } else {
        points
    }
}

/// No two points share an identifier.
pub open spec fn ids_unique(points: Seq<PointAbs>) -> bool {
    forall|i: int, j: int| 0 <= i < j < points.len() ==> points[i].id != points[j].id
}

/// No two collections share a name.
pub open spec fn names_unique(cols: Seq<NamedCollection>) -> bool {
    forall|i: int, j: int| 0 <= i < j < cols.len() ==> cols[i].name@ != cols[j].name@
}

/// The collections as a map from name to value.
pub open spec fn store_map(cols: Seq<NamedCollection>) -> Map<Seq<char>, CollectionAbs>
    decreases cols.len(),
{
    if cols.len() == 0 {
        Map::empty()
    } else {
        store_map(cols.drop_last()).insert(cols.last().name@, cols.last().collection@)
    }
}

/// The store: the collections it currently holds.
pub struct StoreState {
    pub collections: Vec<NamedCollection>,
}

impl View for StoreState {
    type V = Map<Seq<char>, CollectionAbs>;

    open spec fn view(&self) -> Map<Seq<char>, CollectionAbs> {
        store_map(self.collections@)
    }
}

impl StoreState {
    /// Collection names are distinct and every collection's point identifiers
    /// are distinct.
    pub open spec fn wf(self) -> bool {
        &&& names_unique(self.collections@)
        &&& forall|i: int|
            0 <= i < self.collections@.len() ==> ids_unique(
                #[trigger] self.collections@[i].collection@.points,
            )
    }
}

proof fn lemma_store_map_index(cols: Seq<NamedCollection>, i: int)
    requires
        names_unique(cols),
        0 <= i < cols.len(),
    ensures
        store_map(cols).contains_key(cols[i].name@),
        store_map(cols)[cols[i].name@] == cols[i].collection@,
    decreases cols.len(),
{
    if i == cols.len() - 1 {
    } else {
        assert(names_unique(cols.drop_last())) by {
            assert(forall|x: int, y: int|
                0 <= x < y < cols.drop_last().len() ==> cols.drop_last()[x].name@ != cols.drop_last()[y].name@);
        }
        lemma_store_map_index(cols.drop_last(), i);
        assert(cols.drop_last()[i] == cols[i]);
        assert(cols[i].name@ != cols.last().name@);
    }
}

proof fn lemma_store_map_dom(cols: Seq<NamedCollection>, name: Seq<char>)
    requires
        store_map(cols).contains_key(name),
    ensures
        exists|i: int| 0 <= i < cols.len() && cols[i].name@ == name,
    decreases cols.len(),
{
    if cols.len() == 0 {
    } else if cols.last().name@ == name {
        assert(cols[cols.len() - 1].name@ == name);
    } else {
        lemma_store_map_dom(cols.drop_last(), name);
        let i = choose|i: int| 0 <= i < cols.drop_last().len() && cols.drop_last()[i].name@ == name;
        assert(cols[i].name@ == name);
    }
}

proof fn lemma_store_map_absent(cols: Seq<NamedCollection>, name: Seq<char>)
    requires
        forall|i: int| 0 <= i < cols.len() ==> (#[trigger] cols[i].name@) != name,
    ensures
        !store_map(cols).contains_key(name),
{
    if store_map(cols).contains_key(name) {
        lemma_store_map_dom(cols, name);
    }
}

proof fn lemma_store_map_update(cols: Seq<NamedCollection>, i: int, nc: NamedCollection)
    requires
        names_unique(cols),
        0 <= i < cols.len(),
        nc.name@ == cols[i].name@,
    ensures
        store_map(cols.update(i, nc)) == store_map(cols).insert(nc.name@, nc.collection@),
        names_unique(cols.update(i, nc)),
    decreases cols.len(),
{
    let cols2 = cols.update(i, nc);
    assert(names_unique(cols2)) by {
        assert(forall|x: int, y: int| 0 <= x < y < cols2.len() ==> cols2[x].name@ != cols2[y].name@);
    }
    if i == cols.len() - 1 {
        assert(cols2.drop_last() =~= cols.drop_last());
        assert(cols2.last() == nc);
        assert(store_map(cols.drop_last()).insert(cols.last().name@, cols.last().collection@).insert(
            nc.name@,
            nc.collection@,
        ) =~= store_map(cols.drop_last()).insert(nc.name@, nc.collection@));
    } else {
        assert(names_unique(cols.drop_last())) by {
            assert(forall|x: int, y: int|
                0 <= x < y < cols.drop_last().len() ==> cols.drop_last()[x].name@ != cols.drop_last()[y].name@);
        }
        assert(cols2.drop_last() =~= cols.drop_last().update(i, nc));
        lemma_store_map_update(cols.drop_last(), i, nc);
        assert(cols2.last() == cols.last());
        assert(nc.name@ != cols.last().name@);
        assert(store_map(cols.drop_last()).insert(nc.name@, nc.collection@).insert(
            cols.last().name@,
            cols.last().collection@,
        ) =~= store_map(cols.drop_last()).insert(cols.last().name@, cols.last().collection@).insert(
            nc.name@,
            nc.collection@,
        ));
    }
}

proof fn lemma_store_map_remove(cols: Seq<NamedCollection>, i: int)
    requires
        names_unique(cols),
        0 <= i < cols.len(),
    ensures
        store_map(cols.remove(i)) == store_map(cols).remove(cols[i].name@),
        names_unique(cols.remove(i)),
    decreases cols.len(),
{
    let cols2 = cols.remove(i);
    assert(names_unique(cols2)) by {
        assert(forall|x: int, y: int| 0 <= x < y < cols2.len() ==> cols2[x].name@ != cols2[y].name@);
    }
    assert(names_unique(cols.drop_last())) by {
        assert(forall|x: int, y: int|
            0 <= x < y < cols.drop_last().len() ==> cols.drop_last()[x].name@ != cols.drop_last()[y].name@);
    }
    if i == cols.len() - 1 {
        assert(cols2 =~= cols.drop_last());
        lemma_store_map_absent(cols.drop_last(), cols[i].name@);
        assert(store_map(cols.drop_last()) =~= store_map(cols.drop_last()).insert(
            cols.last().name@,
            cols.last().collection@,
        ).remove(cols[i].name@));
    } else {
        assert(cols2.drop_last() =~= cols.drop_last().remove(i));
        lemma_store_map_remove(cols.drop_last(), i);
        assert(cols2.last() == cols.last());
        assert(cols[i].name@ != cols.last().name@);
        assert(store_map(cols.drop_last()).remove(cols[i].name@).insert(
            cols.last().name@,
            cols.last().collection@,
        ) =~= store_map(cols.drop_last()).insert(cols.last().name@, cols.last().collection@).remove(
            cols[i].name@,
        ));
    }
}

impl StoreState {
    /// A store holding no collections.
    pub fn new() -> (r: StoreState)
        ensures
            r@ == Map::<Seq<char>, CollectionAbs>::empty(),
            r.wf(),
    {
        StoreState { collections: Vec::new() }
    }

    /// The position of the collection called `name`, if any.
    fn find_index(&self, name: &String) -> (r: Option<usize>)
        ensures
            match r {
                Some(i) => i < self.collections@.len() && self.collections@[i as int].name@
                    == name@,
                None => forall|j: int|
                    0 <= j < self.collections@.len() ==> (#[trigger] self.collections@[j].name@)
                        != name@,
            },
    {
        let n = self.collections.len();
        for i in 0..n
            invariant
                n == self.collections.len(),
                forall|j: int| 0 <= j < i ==> (#[trigger] self.collections@[j].name@) != name@,
        {
            if self.collections[i].name == *name {
                return Some(i);
            }
        }
        None
    }

    /// Whether a collection called `name` exists.
    pub fn collection_exists(&self, name: &String) -> (r: bool)
        ensures
            r == self@.contains_key(name@),
    {
        match self.find_index(name) {
            Some(i) => {
                proof {
                    lemma_store_map_contains(self.collections@, i as int);
                }
                true
            },
            None => {
                proof {
                    lemma_store_map_absent(self.collections@, name@);
                }
                false
            },
        }
    }

    /// Describes the collection called `name`: its dimensionality and how
    /// many points it holds.  `None` when there is no such collection.
    pub fn get_collection_info(&self, name: &String) -> (r: Option<CollectionInfo>)
        requires
            self.wf(),
        ensures
            match r {
                Some(info) => self@.contains_key(name@) && info.vector_size
                    == self@[name@].vector_size && info.points_count == self@[name@].points.len(),
                None => !self@.contains_key(name@),
            },
    {
        match self.find_index(name) {
            Some(i) => {
                proof {
                    lemma_store_map_index(self.collections@, i as int);
                }
                let c = &self.collections[i].collection;
                Some(CollectionInfo { vector_size: c.vector_size, points_count: c.points.len() as u64 })
            },
            None => {
                proof {
                    lemma_store_map_absent(self.collections@, name@);
                }
                None
            },
        }
    }

    /// Creates the collection called `name` with the given vector
    /// dimensionality.  Not idempotent: a second creation under the same name
    /// is rejected.
    pub fn create_collection(&mut self, name: &String, vector_size: u64) -> (r: Result<
        (),
        StoreError,
    >)
        requires
            old(self).wf(),
        ensures
            final(self).wf(),
            match r {
                Ok(()) => !old(self)@.contains_key(name@) && final(self)@ == old(self)@.insert(
                    name@,
                    CollectionAbs { vector_size, points: Seq::empty() },
                ),
                Err(e) => e == StoreError::CollectionAlreadyExists && old(self)@.contains_key(
                    name@,
                ) && final(self)@ == old(self)@,
            },
    {
        match self.find_index(name) {
            Some(i) => {
                proof {
                    lemma_store_map_contains(self.collections@, i as int);
                }
                Err(StoreError::CollectionAlreadyExists)
            },
            None => {
                proof {
                    lemma_store_map_absent(self.collections@, name@);
                }
                let ghost before = self.collections@;
                let nc = NamedCollection {
                    name: name.clone(),
                    collection: Collection { vector_size, points: Vec::new() },
                };
                self.collections.push(nc);
                proof {
                    assert(self.collections@.drop_last() =~= before);
                    assert(self.collections@[self.collections@.len() - 1].collection@.points
                        =~= Seq::<PointAbs>::empty());
                    assert(final(self)@ =~= old(self)@.insert(
                        name@,
                        CollectionAbs { vector_size, points: Seq::empty() },
                    ));
                    assert forall|x: int, y: int|
                        0 <= x < y < self.collections@.len() implies self.collections@[x].name@
                        != self.collections@[y].name@ by {
                        if y == before.len() {
                            assert(self.collections@[x] == before[x]);
                            assert(self.collections@[y].name@ == name@);
                        } else {
                            assert(self.collections@[x] == before[x]);
                            assert(self.collections@[y] == before[y]);
                        }
                    }
                    assert(forall|x: int|
                        0 <= x < before.len() ==> self.collections@[x] == before[x]);
                }
                Ok(())
            },
        }
    }

    /// Removes the collection called `name`; removing an absent collection
    /// changes nothing.  Transport failures live outside the model, so the
    /// call always succeeds.
    pub fn delete_collection(&mut self, name: &String) -> (r: Result<(), StoreError>)
        requires
            old(self).wf(),
        ensures
            final(self).wf(),
            r is Ok,
            final(self)@ == old(self)@.remove(name@),
    {
        match self.find_index(name) {
            Some(i) => {
                proof {
                    lemma_store_map_remove(self.collections@, i as int);
                }
                let ghost before = self.collections@;
                let _ = self.collections.remove(i);
                proof {
                    assert(forall|x: int|
                        0 <= x < self.collections@.len() ==> self.collections@[x]
                            == before.remove(i as int)[x]);
                }
                Ok(())
            },
            None => {
                proof {
                    lemma_store_map_absent(self.collections@, name@);
                    assert(final(self)@ =~= old(self)@.remove(name@));
                }
                Ok(())
            },
        }
    }
}

proof fn lemma_store_map_contains(cols: Seq<NamedCollection>, i: int)
    requires
        0 <= i < cols.len(),
    ensures
        store_map(cols).contains_key(cols[i].name@),
    decreases cols.len(),
{
    if i == cols.len() - 1 {
    } else {
        lemma_store_map_contains(cols.drop_last(), i);
        assert(cols.drop_last()[i] == cols[i]);
    }
}

/// A topic filter returns no more points than it was given.
pub proof fn lemma_topic_matches_len(points: Seq<PointAbs>, topic: Seq<char>)
    ensures
        topic_matches(points, topic).len() <= points.len(),
    decreases points.len(),
{
    if points.len() > 0 {
        lemma_topic_matches_len(points.drop_first(), topic);
    }
}

/// Every point a topic filter returns carries the requested topic label.
pub proof fn lemma_topic_matches_topical(points: Seq<PointAbs>, topic: Seq<char>)
    ensures
        forall|k: int|
            0 <= k < topic_matches(points, topic).len() ==> point_has_topic(
                #[trigger] topic_matches(points, topic)[k],
                topic,
            ),
    decreases points.len(),
{
    if points.len() > 0 {
        lemma_topic_matches_topical(points.drop_first(), topic);
        let tm = topic_matches(points, topic);
        let tmrest = topic_matches(points.drop_first(), topic);
        if point_has_topic(points[0], topic) {
            assert forall|k: int| 0 <= k < tm.len() implies point_has_topic(tm[k], topic) by {
                if k == 0 {
                    assert(tm[0] == points[0]);
                } else {
                    assert(tm[k] == tmrest[k - 1]);
                }
            }
        }
    }
}

/// A topic filter keeps every point that carries the requested topic label.
pub proof fn lemma_topic_matches_complete(points: Seq<PointAbs>, topic: Seq<char>, i: int)
    requires
        0 <= i < points.len(),
        point_has_topic(points[i], topic),
    ensures
        topic_matches(points, topic).contains(points[i]),
    decreases points.len(),
{
    if i == 0 {
        assert(topic_matches(points, topic)[0] == points[0]);
    } else {
        lemma_topic_matches_complete(points.drop_first(), topic, i - 1);
        let tm = topic_matches(points.drop_first(), topic);
        let k = choose|k: int| 0 <= k < tm.len() && tm[k] == points[i];
        if point_has_topic(points[0], topic) {
            assert(topic_matches(points, topic)[k + 1] == points[i]);
        }
    }
}

proof fn lemma_topic_matches_push(points: Seq<PointAbs>, topic: Seq<char>, x: PointAbs)
    ensures
        topic_matches(points.push(x), topic) == topic_matches(points, topic) + (if point_has_topic(
            x,
            topic,
        ) {
            seq![x]
        } else {
            Seq::empty()
        }),
    decreases points.len(),
{
    let tail = (if point_has_topic(x, topic) {
        seq![x]
    } else {
        Seq::<PointAbs>::empty()
    });
    if points.len() == 0 {
        assert(points.push(x).drop_first() =~= Seq::<PointAbs>::empty());
        assert(topic_matches(Seq::<PointAbs>::empty(), topic) =~= Seq::<PointAbs>::empty());
        assert(topic_matches(points, topic) =~= Seq::<PointAbs>::empty());
        assert(points.push(x)[0] == x);
        assert(topic_matches(points.push(x), topic) =~= topic_matches(points, topic) + tail);
    } else {
        assert(points.push(x).drop_first() =~= points.drop_first().push(x));
        lemma_topic_matches_push(points.drop_first(), topic, x);
        assert(points.push(x)[0] == points[0]);
        if point_has_topic(points[0], topic) {
            assert(seq![points[0]] + (topic_matches(points.drop_first(), topic) + tail)
                =~= (seq![points[0]] + topic_matches(points.drop_first(), topic)) + tail);
        }
    }
}

fn find_point_index(points: &Vec<StoredPoint>, id: u64) -> (r: Option<usize>)
    ensures
        match r {
            Some(j) => j < points@.len() && points@[j as int].id == id,
            None => forall|k: int| 0 <= k < points@.len() ==> (#[trigger] points@[k].id) != id,
        },
{
    let n = points.len();
    for j in 0..n
        invariant
            n == points.len(),
            forall|k: int| 0 <= k < j ==> (#[trigger] points@[k].id) != id,
    {
        if points[j].id == id {
            return Some(j);
        }
    }
    None
}

impl StoreState {
    /// Inserts or overwrites the point carrying `id` in the collection called
    /// `name`.  The vector's length must equal the collection's
    /// dimensionality; the store rejects a mismatch.
    pub fn upsert_point(&mut self, name: &String, id: u64, dim: u64, payload: Payload) -> (r:
        Result<(), StoreError>)
        requires
            old(self).wf(),
        ensures
            final(self).wf(),
            match r {
                Ok(()) => old(self)@.contains_key(name@) && old(self)@[name@].vector_size == dim
                    && final(self)@ == old(self)@.insert(
                    name@,
                    CollectionAbs {
                        vector_size: dim,
                        points: upserted(
                            old(self)@[name@].points,
                            PointAbs { id, payload: payload@ },
                        ),
                    },
                ),
                Err(StoreError::CollectionNotFound) => !old(self)@.contains_key(name@)
                    && final(self)@ == old(self)@,
                Err(StoreError::DimensionMismatch) => old(self)@.contains_key(name@)
                    && old(self)@[name@].vector_size != dim && final(self)@ == old(self)@,
                Err(StoreError::CollectionAlreadyExists) => false,
            },
    {
        let i = match self.find_index(name) {
            Some(i) => i,
            None => {
                proof {
                    lemma_store_map_absent(self.collections@, name@);
                }
                return Err(StoreError::CollectionNotFound);
            },
        };
        proof {
            lemma_store_map_index(self.collections@, i as int);
        }
        if self.collections[i].collection.vector_size != dim {
            return Err(StoreError::DimensionMismatch);
        }
        let ghost before = self.collections@;
        let ghost abs = old(self)@[name@].points;
        let ghost pabs = PointAbs { id, payload: payload@ };
        let mut nc = self.collections.remove(i);
        proof {
            assert(abs == nc.collection@.points);
        }
        let sp = StoredPoint { id, payload };
        match find_point_index(&nc.collection.points, id) {
            Some(j) => {
                proof {
                    assert(abs[j as int].id == id);
                    assert(has_point(abs, id));
                    let j0 = point_index(abs, id);
                    assert(abs[j0].id == id);
                    assert(ids_unique(abs));
                    assert(j0 == j as int);
                }
                nc.collection.points.set(j, sp);
                proof {
                    assert(nc.collection@.points =~= abs.update(j as int, pabs));
                    assert(upserted(abs, pabs) == abs.update(j as int, pabs));
                    assert(ids_unique(nc.collection@.points));
                }
            },
            None => {
                proof {
                    assert(!has_point(abs, id));
                }
                nc.collection.points.push(sp);
                proof {
                    assert(nc.collection@.points =~= abs.push(pabs));
                    assert(ids_unique(nc.collection@.points));
                }
            },
        }
        proof {
            assert(nc.collection@ == CollectionAbs { vector_size: dim, points: upserted(abs, pabs) });
        }
        self.collections.insert(i, nc);
        proof {
            assert(self.collections@ =~= before.update(i as int, nc));
            lemma_store_map_update(before, i as int, nc);
            assert(forall|x: int|
                0 <= x < self.collections@.len() && x != i ==> self.collections@[x] == before[x]);
        }
        Ok(())
    }

    /// Deletes the point carrying `id` from the collection called `name`;
    /// deleting an absent point changes nothing.
    pub fn delete_point(&mut self, name: &String, id: u64) -> (r: Result<(), StoreError>)
        requires
            old(self).wf(),
        ensures
            final(self).wf(),
            match r {
                Ok(()) => old(self)@.contains_key(name@) && final(self)@ == old(self)@.insert(
                    name@,
                    CollectionAbs {
                        vector_size: old(self)@[name@].vector_size,
                        points: without_point(old(self)@[name@].points, id),
                    },
                ),
                Err(e) => e == StoreError::CollectionNotFound && !old(self)@.contains_key(name@)
                    && final(self)@ == old(self)@,
            },
    {
        let i = match self.find_index(name) {
            Some(i) => i,
            None => {
                proof {
                    lemma_store_map_absent(self.collections@, name@);
                }
                return Err(StoreError::CollectionNotFound);
            },
        };
        proof {
            lemma_store_map_index(self.collections@, i as int);
        }
        let ghost before = self.collections@;
        let ghost abs = old(self)@[name@].points;
        let mut nc = self.collections.remove(i);
        proof {
            assert(abs == nc.collection@.points);
        }
        match find_point_index(&nc.collection.points, id) {
            Some(j) => {
                proof {
                    assert(abs[j as int].id == id);
                    assert(has_point(abs, id));
                    let j0 = point_index(abs, id);
                    assert(abs[j0].id == id);
                    assert(ids_unique(abs));
                    assert(j0 == j as int);
                }
                let _ = nc.collection.points.remove(j);
                proof {
                    assert(nc.collection@.points =~= abs.remove(j as int));
                    assert(without_point(abs, id) == abs.remove(j as int));
                    assert(forall|x: int|
                        0 <= x < nc.collection@.points.len() ==> nc.collection@.points[x]
                            == abs.remove(j as int)[x]);
                    assert(ids_unique(nc.collection@.points));
                }
            },
            None => {
                proof {
                    assert(!has_point(abs, id));
                }
            },
        }
        proof {
            assert(nc.collection@ == CollectionAbs {
                vector_size: old(self)@[name@].vector_size,
                points: without_point(abs, id),
            });
        }
        self.collections.insert(i, nc);
        proof {
            assert(self.collections@ =~= before.update(i as int, nc));
            lemma_store_map_update(before, i as int, nc);
            assert(forall|x: int|
                0 <= x < self.collections@.len() && x != i ==> self.collections@[x] == before[x]);
        }
        Ok(())
    }

    /// Similarity search constrained to points labelled with `topic`: every
    /// match, in stored order (the remote service's ranking is abstracted
    /// away).  The query vector's length must equal the collection's
    /// dimensionality.
    pub fn get_points_by_topic(&self, name: &String, topic: &String, query_dim: u64) -> (r: Result<
        Vec<StoredPoint>,
        StoreError,
    >)
        requires
            self.wf(),
        ensures
            match r {
                Ok(v) => self@.contains_key(name@) && self@[name@].vector_size == query_dim
                    && v@.map_values(|p: StoredPoint| p@) == topic_matches(
                    self@[name@].points,
                    topic@,
                ),
                Err(StoreError::CollectionNotFound) => !self@.contains_key(name@),
                Err(StoreError::DimensionMismatch) => self@.contains_key(name@)
                    && self@[name@].vector_size != query_dim,
                Err(StoreError::CollectionAlreadyExists) => false,
            },
    {
        let i = match self.find_index(name) {
            Some(i) => i,
            None => {
                proof {
                    lemma_store_map_absent(self.collections@, name@);
                }
                return Err(StoreError::CollectionNotFound);
            },
        };
        proof {
            lemma_store_map_index(self.collections@, i as int);
        }
        let pts = &self.collections[i].collection.points;
        if self.collections[i].collection.vector_size != query_dim {
            return Err(StoreError::DimensionMismatch);
        }
        let ghost abs = self@[name@].points;
        let name_key = crate::payload::topic_name_key();
        let mut result: Vec<StoredPoint> = Vec::new();
        let n = pts.len();
        proof {
            assert(abs.skip(0) =~= abs);
            assert(result@.map_values(|p: StoredPoint| p@) =~= Seq::<PointAbs>::empty());
        }
        for j in 0..n
            invariant
                n == pts.len(),
                abs == pts@.map_values(|p: StoredPoint| p@),
                name_key@ == spec_topic_name_key(),
                topic_matches(abs, topic@) == result@.map_values(|p: StoredPoint| p@)
                    + topic_matches(abs.skip(j as int), topic@),
        {
            let ghost rsofar = result@.map_values(|p: StoredPoint| p@);
            proof {
                assert(abs.skip(j as int)[0] == abs[j as int]);
                assert(abs.skip(j as int).drop_first() =~= abs.skip(j + 1));
            }
            let matched = match pts[j].payload.get(&name_key) {
                Some(v) => *v == *topic,
                None => false,
            };
            if matched {
                result.push(pts[j].clone());
                proof {
                    assert(point_has_topic(abs[j as int], topic@));
                    assert(result@.map_values(|p: StoredPoint| p@) =~= rsofar.push(abs[j as int]));
                    assert(rsofar.push(abs[j as int]) + topic_matches(abs.skip(j + 1), topic@)
                        =~= rsofar + (seq![abs[j as int]] + topic_matches(abs.skip(j + 1), topic@)));
                }
            } else {
                proof {
                    assert(!point_has_topic(abs[j as int], topic@));
                }
            }
        }
        proof {
            assert(abs.skip(n as int) =~= Seq::<PointAbs>::empty());
            assert(result@.map_values(|p: StoredPoint| p@) + Seq::<PointAbs>::empty()
                =~= result@.map_values(|p: StoredPoint| p@));
        }
        Ok(result)
    }

    /// Unconstrained top-`limit` similarity search: the first `limit` points
    /// in stored order (the remote service's ranking is abstracted away).
    /// The query vector's length must equal the collection's dimensionality.
    pub fn search_points(&self, name: &String, query_dim: u64, limit: u64) -> (r: Result<
        Vec<StoredPoint>,
        StoreError,
    >)
        requires
            self.wf(),
        ensures
            match r {
                Ok(v) => self@.contains_key(name@) && self@[name@].vector_size == query_dim
                    && v@.map_values(|p: StoredPoint| p@) == capped(
                    self@[name@].points,
                    limit as int,
                ),
                Err(StoreError::CollectionNotFound) => !self@.contains_key(name@),
                Err(StoreError::DimensionMismatch) => self@.contains_key(name@)
                    && self@[name@].vector_size != query_dim,
                Err(StoreError::CollectionAlreadyExists) => false,
            },
    {
        let i = match self.find_index(name) {
            Some(i) => i,
            None => {
                proof {
                    lemma_store_map_absent(self.collections@, name@);
                }
                return Err(StoreError::CollectionNotFound);
            },
        };
        proof {
            lemma_store_map_index(self.collections@, i as int);
        }
        let pts = &self.collections[i].collection.points;
        if self.collections[i].collection.vector_size != query_dim {
            return Err(StoreError::DimensionMismatch);
        }
        let ghost abs = self@[name@].points;
        let n = pts.len();
        let k: usize = if (n as u64) <= limit {
            n
        } else {
            limit as usize
        };
        let mut result: Vec<StoredPoint> = Vec::new();
        proof {
            assert(result@.map_values(|p: StoredPoint| p@) =~= abs.take(0));
        }
        for j in 0..k
            invariant
                n == pts.len(),
                k <= n,
                abs == pts@.map_values(|p: StoredPoint| p@),
                result@.map_values(|p: StoredPoint| p@) == abs.take(j as int),
        {
            let ghost rsofar = result@.map_values(|p: StoredPoint| p@);
            result.push(pts[j].clone());
            proof {
                assert(result@.map_values(|p: StoredPoint| p@) =~= rsofar.push(abs[j as int]));
                assert(abs.take(j as int).push(abs[j as int]) =~= abs.take(j + 1));
            }
        }
        proof {
            assert(abs.take(k as int) =~= capped(abs, limit as int));
        }
        Ok(result)
    }

    /// Unranked enumeration of the points labelled with `topic`, capped at
    /// `limit`, in stored order; vectors are never part of the response.
    pub fn list_points_by_topic(&self, name: &String, topic: &String, limit: u32) -> (r: Result<
        Vec<StoredPoint>,
        StoreError,
    >)
        requires
            self.wf(),
        ensures
            match r {
                Ok(v) => self@.contains_key(name@) && v@.map_values(|p: StoredPoint| p@) == capped(
                    topic_matches(self@[name@].points, topic@),
                    limit as int,
                ),
                Err(e) => e == StoreError::CollectionNotFound && !self@.contains_key(name@),
            },
    {
        let i = match self.find_index(name) {
            Some(i) => i,
            None => {
                proof {
                    lemma_store_map_absent(self.collections@, name@);
                }
                return Err(StoreError::CollectionNotFound);
            },
        };
        proof {
            lemma_store_map_index(self.collections@, i as int);
        }
        let pts = &self.collections[i].collection.points;
        let ghost abs = self@[name@].points;
        let name_key = crate::payload::topic_name_key();
        let mut result: Vec<StoredPoint> = Vec::new();
        let n = pts.len();
        proof {
            assert(abs.take(0) =~= Seq::<PointAbs>::empty());
            assert(result@.map_values(|p: StoredPoint| p@) =~= capped(
                topic_matches(abs.take(0), topic@),
                limit as int,
            ));
        }
        for j in 0..n
            invariant
                n == pts.len(),
                abs == pts@.map_values(|p: StoredPoint| p@),
                name_key@ == spec_topic_name_key(),
                result@.len() <= limit,
                result@.map_values(|p: StoredPoint| p@) == capped(
                    topic_matches(abs.take(j as int), topic@),
                    limit as int,
                ),
        {
            let ghost rsofar = result@.map_values(|p: StoredPoint| p@);
            let ghost tmj = topic_matches(abs.take(j as int), topic@);
            proof {
                assert(abs.take(j + 1) =~= abs.take(j as int).push(abs[j as int]));
                lemma_topic_matches_push(abs.take(j as int), topic@, abs[j as int]);
            }
            let matched = match pts[j].payload.get(&name_key) {
                Some(v) => *v == *topic,
                None => false,
            };
            if matched {
                proof {
                    assert(point_has_topic(abs[j as int], topic@));
                    assert(topic_matches(abs.take(j + 1), topic@) =~= tmj.push(abs[j as int]));
                }
                if result.len() < limit as usize {
                    proof {
                        assert(rsofar.len() < limit);
                        assert(tmj.len() == rsofar.len());
                    }
                    result.push(pts[j].clone());
                    proof {
                        assert(result@.map_values(|p: StoredPoint| p@) =~= rsofar.push(
                            abs[j as int],
                        ));
                        assert(tmj.push(abs[j as int]).len() <= limit);
                        assert(capped(tmj.push(abs[j as int]), limit as int) =~= rsofar.push(
                            abs[j as int],
                        ));
                    }
                } else {
                    proof {
                        assert(rsofar.len() == limit);
                        assert(tmj.len() >= limit);
                        assert(capped(tmj.push(abs[j as int]), limit as int) =~= tmj.push(
                            abs[j as int],
                        ).take(limit as int));
                        assert(tmj.push(abs[j as int]).take(limit as int) =~= capped(
                            tmj,
                            limit as int,
                        ));
                    }
                }
            } else {
                proof {
                    assert(!point_has_topic(abs[j as int], topic@));
                    assert(topic_matches(abs.take(j + 1), topic@) =~= tmj);
                }
            }
        }
        proof {
            assert(abs.take(n as int) =~= abs);
        }
        Ok(result)
    }
}

} // verus!
