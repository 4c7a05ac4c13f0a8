//! The topic-storage layer: composes the embedding provider and the vector
//! store.
//!
//! On write, the content is embedded and a point with topic/content payload is
//! upserted; on read, the query is embedded and the store is searched or
//! enumerated, the results projected to their payload fields.  The remote
//! calls themselves are made by the application; each function here takes the
//! embedding call's outcome as an argument and works on the store model.
//!
//! A point's identifier is the 64-bit FNV-1a hash of its topic name's UTF-8
//! bytes: each topic occupies one point slot, so writing a topic again
//! overwrites its idea rather than accumulating copies.

use vstd::prelude::*;
use vstd::string::StrSliceExecFns;
use crate::embedding::{EmbedOutcome, EmbeddingError};
use crate::idea::{Idea, IdeaAbs, PointIdRepr, PointRecord};
use crate::payload::{
    Payload, plookup, spec_topic_content_key, spec_topic_name_key, topic_content_key,
    topic_name_key,
};
use crate::store::{
    CollectionAbs, PointAbs, StoreError, StoreState, StoredPoint, capped, point_has_topic,
    topic_matches, upserted, without_point, lemma_topic_matches_topical,
    lemma_topic_matches_complete, lemma_topic_matches_len,
};

verus! {

/// A topic-storage failure: a store-layer rejection with its description, or
/// an embedding-provider failure.
#[derive(Debug)]
pub enum TopicStorageError {
    QdrantError(String),
    EmbeddingError(EmbeddingError),
}

/// One step of the FNV-1a fold: mix one byte into the hash state.
pub open spec fn fnv1a_step(h: u64, b: u8) -> u64 {
    (h ^ (b as u64)).wrapping_mul(0x100000001b3u64)
}

/// The FNV-1a fold over `bytes` starting from state `h`.
pub open spec fn fnv1a_from(h: u64, bytes: Seq<u8>) -> u64
    decreases bytes.len(),
{
    if bytes.len() == 0 {
        h
    } else {
        fnv1a_from(fnv1a_step(h, bytes[0]), bytes.drop_first())
    }
}

/// The point identifier of a topic: the 64-bit FNV-1a hash of the topic
/// name's UTF-8 bytes.
pub open spec fn spec_point_id(topic: Seq<char>) -> u64 {
    fnv1a_from(0xcbf29ce484222325u64, vstd::utf8::encode_utf8(topic))
}

/// Computes a topic's point identifier.
pub fn point_id_for_topic(topic: &String) -> (r: u64)
    ensures
        r == spec_point_id(topic@),
{
    let bytes = topic.as_str().as_bytes_vec();
    let mut h: u64 = 0xcbf29ce484222325;
    let n = bytes.len();
    proof {
        assert(bytes@.skip(0) =~= bytes@);
    }
    for i in 0..n
        invariant
            n == bytes@.len(),
            bytes@ == vstd::utf8::encode_utf8(topic@),
            spec_point_id(topic@) == fnv1a_from(h, bytes@.skip(i as int)),
    {
        proof {
            assert(bytes@.skip(i as int)[0] == bytes@[i as int]);
            assert(bytes@.skip(i as int).drop_first() =~= bytes@.skip(i + 1));
        }
        h = (h ^ (bytes[i] as u64)).wrapping_mul(0x100000001b3);
    }
    proof {
        assert(bytes@.skip(n as int) =~= Seq::<u8>::empty());
    }
    h
}

/// The payload written for a topic's idea: the topic-name key and the
/// topic-content key.
pub open spec fn topic_payload_abs(topic: Seq<char>, content: Seq<char>) -> Seq<
    (Seq<char>, Seq<char>),
> {
    seq![(spec_topic_name_key(), topic), (spec_topic_content_key(), content)]
}

/// The point written for a topic's idea.
pub open spec fn topic_point_abs(topic: Seq<char>, content: Seq<char>) -> PointAbs {
    PointAbs { id: spec_point_id(topic), payload: topic_payload_abs(topic, content) }
}

/// An update is accepted when the collection exists with the embedding's
/// dimensionality.
pub open spec fn update_allowed(
    store: Map<Seq<char>, CollectionAbs>,
    coll: Seq<char>,
    dim: u64,
) -> bool {
    store.contains_key(coll) && store[coll].vector_size == dim
}

/// The store after a topic's idea is upserted.
pub open spec fn store_after_update(
    store: Map<Seq<char>, CollectionAbs>,
    coll: Seq<char>,
    topic: Seq<char>,
    content: Seq<char>,
    dim: u64,
) -> Map<Seq<char>, CollectionAbs> {
    store.insert(
        coll,
        CollectionAbs {
            vector_size: dim,
            points: upserted(store[coll].points, topic_point_abs(topic, content)),
        },
    )
}

/// The description of the store's rejection of an update.
pub open spec fn update_rejection(
    store: Map<Seq<char>, CollectionAbs>,
    coll: Seq<char>,
) -> Seq<char> {
    if !store.contains_key(coll) {
        StoreError::CollectionNotFound.spec_message()
    } else {
        StoreError::DimensionMismatch.spec_message()
    }
}

/// A topic creation is accepted when the backing collection does not exist
/// yet, or exists with the embedding's dimensionality.
pub open spec fn create_allowed(
    store: Map<Seq<char>, CollectionAbs>,
    coll: Seq<char>,
    dim: u64,
) -> bool {
    !store.contains_key(coll) || store[coll].vector_size == dim
}

/// The store after a topic is created: the collection is created first when
/// it does not exist, sized to the embedding's length.
pub open spec fn store_after_create(
    store: Map<Seq<char>, CollectionAbs>,
    coll: Seq<char>,
    topic: Seq<char>,
    content: Seq<char>,
    dim: u64,
) -> Map<Seq<char>, CollectionAbs> {
    if store.contains_key(coll) {
        store_after_update(store, coll, topic, content, dim)
    } else {
        store_after_update(
            store.insert(coll, CollectionAbs { vector_size: dim, points: Seq::empty() }),
            coll,
            topic,
            content,
            dim,
        )
    }
}

/// The value under a key, or the empty string when the key is absent.
pub open spec fn value_or_empty(o: Option<Seq<char>>) -> Seq<char> {
    match o {
        Some(s) => s,
        None => Seq::empty(),
    }
}

/// The idea a retrieved point projects to.
pub open spec fn idea_of_point(p: PointAbs) -> IdeaAbs {
    IdeaAbs {
        topic_name: value_or_empty(plookup(p.payload, spec_topic_name_key())),
        content: value_or_empty(plookup(p.payload, spec_topic_content_key())),
        id: Some(p.id),
    }
}

/// Every point carries both payload keys the projection reads.
pub open spec fn points_projectable(points: Seq<PointAbs>) -> bool {
    forall|k: int|
        0 <= k < points.len() ==> plookup((#[trigger] points[k]).payload, spec_topic_name_key())
            is Some && plookup(points[k].payload, spec_topic_content_key()) is Some
}

/// The backing collection, if it exists, holds only points the projection can
/// read.  Writes through this layer maintain this.
pub open spec fn collection_projectable(
    store: Map<Seq<char>, CollectionAbs>,
    coll: Seq<char>,
) -> bool {
    store.contains_key(coll) ==> points_projectable(store[coll].points)
}

/// Only the points a search can return need the payload keys the projection
/// reads; a point the search cannot return may lack them.
pub open spec fn search_projectable(
    store: Map<Seq<char>, CollectionAbs>,
    coll: Seq<char>,
    topic: Option<Seq<char>>,
    limit: u64,
) -> bool {
    store.contains_key(coll) ==> points_projectable(search_hits(store, coll, topic, limit))
}

/// Only the points a listing can return need the payload keys the projection
/// reads; a point the listing cannot return may lack them.
pub open spec fn list_projectable(
    store: Map<Seq<char>, CollectionAbs>,
    coll: Seq<char>,
    topic: Seq<char>,
    limit: u32,
) -> bool {
    store.contains_key(coll) ==> points_projectable(
        capped(topic_matches(store[coll].points, topic), limit as int),
    )
}

/// A search is accepted when the collection exists with the query embedding's
/// dimensionality.
pub open spec fn search_allowed(
    store: Map<Seq<char>, CollectionAbs>,
    coll: Seq<char>,
    dim: u64,
) -> bool {
    store.contains_key(coll) && store[coll].vector_size == dim
}

/// What a search returns: with a topic, every point labelled with it; without
/// one, the top `limit` points over all topics (ranking abstracted to stored
/// order).
pub open spec fn search_hits(
    store: Map<Seq<char>, CollectionAbs>,
    coll: Seq<char>,
    topic: Option<Seq<char>>,
    limit: u64,
) -> Seq<PointAbs> {
    match topic {
        Some(t) => topic_matches(store[coll].points, t),
        None => capped(store[coll].points, limit as int),
    }
}

/// The description of the store's rejection of a search.
pub open spec fn search_rejection(
    store: Map<Seq<char>, CollectionAbs>,
    coll: Seq<char>,
) -> Seq<char> {
    if !store.contains_key(coll) {
        StoreError::CollectionNotFound.spec_message()
    } else {
        StoreError::DimensionMismatch.spec_message()
    }
}

/// What a listing returns: the points labelled with the topic, capped at
/// `limit`, projected to their content field.
pub open spec fn list_results(
    store: Map<Seq<char>, CollectionAbs>,
    coll: Seq<char>,
    topic: Seq<char>,
    limit: u32,
) -> Seq<Seq<char>> {
    capped(topic_matches(store[coll].points, topic), limit as int).map_values(
        |p: PointAbs| value_or_empty(plookup(p.payload, spec_topic_content_key())),
    )
}

/// The name of the backing collection.
pub open spec fn spec_default_collection_name() -> Seq<char> {
    "topic_storage"@
}

/// The composition layer: embeds through the configured provider and stores
/// through the vector store.  It holds no state of its own beyond the backing
/// collection's name.
pub struct TopicStorage {
    pub qdrant_collection_name: String,
}

impl TopicStorage {
    /// A topic storage over the default backing collection.
    pub fn new() -> (r: TopicStorage)
        ensures
            r.qdrant_collection_name@ == spec_default_collection_name(),
    {
        TopicStorage { qdrant_collection_name: "topic_storage".to_owned() }
    }

    /// Embeds the content and upserts the topic's point.  The collection must
    /// already exist with the embedding's dimensionality; a failed embed
    /// aborts before any store mutation.
    pub fn update_topic(
        &self,
        store: &mut StoreState,
        topic_name: &String,
        idea: Idea,
        embed: &EmbedOutcome,
    ) -> (r: Result<(), TopicStorageError>)
        requires
            old(store).wf(),
        ensures
            final(store).wf(),
            embed matches EmbedOutcome::Failed { error } ==> r == Err::<(), TopicStorageError>(
                TopicStorageError::EmbeddingError(*error),
            ) && final(store)@ == old(store)@,
            embed matches EmbedOutcome::Embedded { dim } ==> (update_allowed(
                old(store)@,
                self.qdrant_collection_name@,
                *dim,
            ) ==> r is Ok && final(store)@ == store_after_update(
                old(store)@,
                self.qdrant_collection_name@,
                topic_name@,
                idea.content@,
                *dim,
            )),
            embed matches EmbedOutcome::Embedded { dim } ==> (!update_allowed(
                old(store)@,
                self.qdrant_collection_name@,
                *dim,
            ) ==> (r matches Err(TopicStorageError::QdrantError(m)) && m@ == update_rejection(
                old(store)@,
                self.qdrant_collection_name@,
            )) && final(store)@ == old(store)@),
    {
        let dim = match embed {
            EmbedOutcome::Failed { error } => {
                return Err(TopicStorageError::EmbeddingError(error.clone()));
            },
            EmbedOutcome::Embedded { dim } => *dim,
        };
        let mut payload = Payload::new();
        payload.push(topic_name_key(), topic_name.clone());
        payload.push(topic_content_key(), idea.content);
        proof {
            assert(payload@ =~= topic_payload_abs(topic_name@, idea.content@));
        }
        let id = point_id_for_topic(topic_name);
        match store.upsert_point(&self.qdrant_collection_name, id, dim, payload) {
            Ok(()) => Ok(()),
            Err(e) => Err(TopicStorageError::QdrantError(e.message())),
        }
    }

    /// Embeds the content, creates the backing collection sized to the
    /// embedding's length when it does not exist yet, and upserts the topic's
    /// point.  A failed embed aborts before any store mutation, so no
    /// collection is created with a wrong dimensionality.
    pub fn create_topic(
        &self,
        store: &mut StoreState,
        topic_name: &String,
        idea: Idea,
        embed: &EmbedOutcome,
    ) -> (r: Result<(), TopicStorageError>)
        requires
            old(store).wf(),
        ensures
            final(store).wf(),
            embed matches EmbedOutcome::Failed { error } ==> r == Err::<(), TopicStorageError>(
                TopicStorageError::EmbeddingError(*error),
            ) && final(store)@ == old(store)@,
            embed matches EmbedOutcome::Embedded { dim } ==> (create_allowed(
                old(store)@,
                self.qdrant_collection_name@,
                *dim,
            ) ==> r is Ok && final(store)@ == store_after_create(
                old(store)@,
                self.qdrant_collection_name@,
                topic_name@,
                idea.content@,
                *dim,
            )),
            embed matches EmbedOutcome::Embedded { dim } ==> (!create_allowed(
                old(store)@,
                self.qdrant_collection_name@,
                *dim,
            ) ==> (r matches Err(TopicStorageError::QdrantError(m)) && m@
                == StoreError::DimensionMismatch.spec_message()) && final(store)@ == old(store)@),
    {
        match embed {
            EmbedOutcome::Failed { error } => {
                return Err(TopicStorageError::EmbeddingError(error.clone()));
            },
            EmbedOutcome::Embedded { dim } => {
                if !store.collection_exists(&self.qdrant_collection_name) {
                    match store.create_collection(&self.qdrant_collection_name, *dim) {
                        Ok(()) => {},
                        Err(e) => {
                            return Err(TopicStorageError::QdrantError(e.message()));
                        },
                    }
                }
            },
        };
        self.update_topic(store, topic_name, idea, embed)
    }

    /// Embeds the query and searches: within one topic when one is given,
    /// across all topics otherwise; results are projected to ideas.
    pub fn search_topic(
        &self,
        store: &StoreState,
        topic: Option<&String>,
        query: &String,
        limit: u64,
        embed: &EmbedOutcome,
    ) -> (r: Result<Vec<Idea>, TopicStorageError>)
        requires
            store.wf(),
            search_projectable(store@, self.qdrant_collection_name@, spec_topic_of(topic), limit),
        ensures
            embed matches EmbedOutcome::Failed { error } ==> r == Err::<Vec<Idea>, TopicStorageError>(
                TopicStorageError::EmbeddingError(*error),
            ),
            embed matches EmbedOutcome::Embedded { dim } ==> (search_allowed(
                store@,
                self.qdrant_collection_name@,
                *dim,
            ) ==> (r matches Ok(v) && v@.map_values(|i: Idea| i@) == search_hits(
                store@,
                self.qdrant_collection_name@,
                spec_topic_of(topic),
                limit,
            ).map_values(|p: PointAbs| idea_of_point(p)))),
            embed matches EmbedOutcome::Embedded { dim } ==> (!search_allowed(
                store@,
                self.qdrant_collection_name@,
                *dim,
            ) ==> (r matches Err(TopicStorageError::QdrantError(m)) && m@ == search_rejection(
                store@,
                self.qdrant_collection_name@,
            ))),
            r matches Ok(v) ==> (topic is None ==> v@.len() <= limit),
            r matches Ok(v) ==> (topic matches Some(t) ==> forall|k: int|
                0 <= k < v@.len() ==> (#[trigger] v@[k]@).topic_name == t@),
    {
        let dim = match embed {
            EmbedOutcome::Failed { error } => {
                return Err(TopicStorageError::EmbeddingError(error.clone()));
            },
            EmbedOutcome::Embedded { dim } => *dim,
        };
        let hits = match topic {
            Some(t) => store.get_points_by_topic(&self.qdrant_collection_name, t, dim),
            None => store.search_points(&self.qdrant_collection_name, dim, limit),
        };
        let points = match hits {
            Ok(p) => p,
            Err(e) => {
                return Err(TopicStorageError::QdrantError(e.message()));
            },
        };
        let ghost habs = search_hits(store@, self.qdrant_collection_name@, spec_topic_of(topic), limit);
        proof {
            assert(points@.map_values(|p: StoredPoint| p@) == habs);
            match topic {
                Some(t) => {
                    lemma_topic_matches_topical(
                        store@[self.qdrant_collection_name@].points,
                        t@,
                    );
                },
                None => {},
            }
        }
        let mut ideas: Vec<Idea> = Vec::new();
        let n = points.len();
        for j in 0..n
            invariant
                n == points@.len(),
                points@.map_values(|p: StoredPoint| p@) == habs,
                points_projectable(habs),
                ideas@.len() == j,
                forall|k: int| 0 <= k < j ==> (#[trigger] ideas@[k])@ == idea_of_point(habs[k]),
        {
            proof {
                assert(points@[j as int]@ == habs[j as int]);
            }
            let record = PointRecord {
                id: PointIdRepr::Num(points[j].id),
                payload: points[j].payload.clone(),
            };
            let idea = Idea::from_record(&record);
            ideas.push(idea);
        }
        proof {
            assert(ideas@.map_values(|i: Idea| i@) =~= habs.map_values(|p: PointAbs| idea_of_point(p)));
            match topic {
                Some(t) => {
                    assert(forall|k: int|
                        0 <= k < ideas@.len() ==> (#[trigger] ideas@[k])@.topic_name == t@);
                },
                None => {
                    assert(habs.len() <= limit);
                },
            }
        }
        Ok(ideas)
    }

    /// Enumerates a topic's ideas, capped at `limit`, projected to their
    /// content field; not similarity-ranked, and no embedding call is made.
    pub fn list_topic(&self, store: &StoreState, topic: &String, limit: u32) -> (r: Result<
        Vec<String>,
        TopicStorageError,
    >)
        requires
            store.wf(),
            list_projectable(store@, self.qdrant_collection_name@, topic@, limit),
        ensures
            store@.contains_key(self.qdrant_collection_name@) ==> (r matches Ok(v)
                && v@.map_values(|s: String| s@) == list_results(
                store@,
                self.qdrant_collection_name@,
                topic@,
                limit,
            )),
            !store@.contains_key(self.qdrant_collection_name@) ==> (r matches Err(
                TopicStorageError::QdrantError(m),
            ) && m@ == StoreError::CollectionNotFound.spec_message()),
            r matches Ok(v) ==> v@.len() <= limit,
    {
        let points = match store.list_points_by_topic(
            &self.qdrant_collection_name,
            topic,
            limit,
        ) {
            Ok(p) => p,
            Err(e) => {
                return Err(TopicStorageError::QdrantError(e.message()));
            },
        };
        let ghost habs = capped(
            topic_matches(store@[self.qdrant_collection_name@].points, topic@),
            limit as int,
        );
        proof {
            assert(points@.map_values(|p: StoredPoint| p@) == habs);
        }
        let content_key = topic_content_key();
        let mut results: Vec<String> = Vec::new();
        let n = points.len();
        for j in 0..n
            invariant
                n == points@.len(),
                points@.map_values(|p: StoredPoint| p@) == habs,
                points_projectable(habs),
                content_key@ == spec_topic_content_key(),
                results@.len() == j,
                forall|k: int| 0 <= k < j ==> (#[trigger] results@[k])@ == value_or_empty(
                    plookup(habs[k].payload, spec_topic_content_key()),
                ),
        {
            proof {
                assert(points@[j as int]@ == habs[j as int]);
            }
            let content = match points[j].payload.get(&content_key) {
                Some(v) => v.clone(),
                None => String::new(),
            };
            results.push(content);
        }
        proof {
            assert(results@.map_values(|s: String| s@) =~= habs.map_values(
                |p: PointAbs| value_or_empty(plookup(p.payload, spec_topic_content_key())),
            ));
            assert(habs.len() <= limit);
        }
        Ok(results)
    }

    /// Deletes the idea carrying the given identifier from the backing
    /// collection; deleting an absent identifier changes nothing.
    pub fn delete_idea(&self, store: &mut StoreState, idea_id: u64) -> (r: Result<
        (),
        TopicStorageError,
    >)
        requires
            old(store).wf(),
        ensures
            final(store).wf(),
            old(store)@.contains_key(self.qdrant_collection_name@) ==> r is Ok && final(store)@
                == old(store)@.insert(
                self.qdrant_collection_name@,
                CollectionAbs {
                    vector_size: old(store)@[self.qdrant_collection_name@].vector_size,
                    points: without_point(
                        old(store)@[self.qdrant_collection_name@].points,
                        idea_id,
                    ),
                },
            ),
            !old(store)@.contains_key(self.qdrant_collection_name@) ==> (r matches Err(
                TopicStorageError::QdrantError(m),
            ) && m@ == StoreError::CollectionNotFound.spec_message()) && final(store)@ == old(
                store,
            )@,
    {
        match store.delete_point(&self.qdrant_collection_name, idea_id) {
            Ok(()) => Ok(()),
            Err(e) => Err(TopicStorageError::QdrantError(e.message())),
        }
    }
}

/// The topic filter an optional topic argument stands for.
pub open spec fn spec_topic_of(topic: Option<&String>) -> Option<Seq<char>> {
    match topic {
        Some(t) => Some(t@),
        None => None,
    }
}

/// Filtering keeps projectability.
proof fn lemma_topic_matches_projectable(points: Seq<PointAbs>, topic: Seq<char>)
    requires
        points_projectable(points),
    ensures
        points_projectable(topic_matches(points, topic)),
    decreases points.len(),
{
    if points.len() > 0 {
        assert(points_projectable(points.drop_first())) by {
            assert(forall|k: int|
                0 <= k < points.drop_first().len() ==> points.drop_first()[k] == points[k + 1]);
        }
        lemma_topic_matches_projectable(points.drop_first(), topic);
        let tm = topic_matches(points, topic);
        let tmrest = topic_matches(points.drop_first(), topic);
        if point_has_topic(points[0], topic) {
            assert(points_projectable(tm)) by {
                assert(forall|k: int| 1 <= k < tm.len() ==> tm[k] == tmrest[k - 1]);
                assert(tm[0] == points[0]);
            }
        }
    }
}

/// Capping keeps projectability.
proof fn lemma_capped_projectable(points: Seq<PointAbs>, limit: int)
    requires
        0 <= limit,
        points_projectable(points),
    ensures
        points_projectable(capped(points, limit)),
{
    assert(forall|k: int| 0 <= k < capped(points, limit).len() ==> capped(points, limit)[k]
        == points[k]);
}

/// A fully projectable backing collection meets a search's projection
/// condition, whatever the topic or limit.
pub proof fn lemma_collection_projectable_covers_search(
    store: Map<Seq<char>, CollectionAbs>,
    coll: Seq<char>,
    topic: Option<Seq<char>>,
    limit: u64,
)
    requires
        collection_projectable(store, coll),
    ensures
        search_projectable(store, coll, topic, limit),
{
    if store.contains_key(coll) {
        match topic {
            Some(t) => {
                lemma_topic_matches_projectable(store[coll].points, t);
            },
            None => {
                lemma_capped_projectable(store[coll].points, limit as int);
            },
        }
    }
}

/// A fully projectable backing collection meets a listing's projection
/// condition, whatever the topic or limit.
pub proof fn lemma_collection_projectable_covers_list(
    store: Map<Seq<char>, CollectionAbs>,
    coll: Seq<char>,
    topic: Seq<char>,
    limit: u32,
)
    requires
        collection_projectable(store, coll),
    ensures
        list_projectable(store, coll, topic, limit),
{
    if store.contains_key(coll) {
        lemma_topic_matches_projectable(store[coll].points, topic);
        lemma_capped_projectable(topic_matches(store[coll].points, topic), limit as int);
    }
}

/// Writes through this layer keep the backing collection projectable: the
/// payload they upsert always carries both keys the projections read.
pub proof fn lemma_update_keeps_projectable(
    store: Map<Seq<char>, CollectionAbs>,
    coll: Seq<char>,
    topic: Seq<char>,
    content: Seq<char>,
    dim: u64,
)
    requires
        collection_projectable(store, coll),
        update_allowed(store, coll, dim),
    ensures
        collection_projectable(store_after_update(store, coll, topic, content, dim), coll),
{
    let p = topic_point_abs(topic, content);
    assert(plookup(p.payload, spec_topic_name_key()) is Some);
    assert(plookup(p.payload.drop_first(), spec_topic_content_key()) is Some) by {
        assert(p.payload.drop_first()[0] == (spec_topic_content_key(), content));
    }
    lemma_distinct_payload_keys();
    assert(plookup(p.payload, spec_topic_content_key()) is Some);
    let pts = store[coll].points;
    let after = upserted(pts, p);
    assert(points_projectable(after)) by {
        if crate::store::has_point(pts, p.id) {
            assert(forall|k: int|
                0 <= k < after.len() && k != crate::store::point_index(pts, p.id) ==> after[k]
                    == pts[k]);
        } else {
            assert(forall|k: int| 0 <= k < pts.len() ==> after[k] == pts[k]);
        }
    }
}

/// Creating a topic also keeps the backing collection projectable.
pub proof fn lemma_create_keeps_projectable(
    store: Map<Seq<char>, CollectionAbs>,
    coll: Seq<char>,
    topic: Seq<char>,
    content: Seq<char>,
    dim: u64,
)
    requires
        collection_projectable(store, coll),
        create_allowed(store, coll, dim),
    ensures
        collection_projectable(store_after_create(store, coll, topic, content, dim), coll),
{
    if store.contains_key(coll) {
        lemma_update_keeps_projectable(store, coll, topic, content, dim);
    } else {
        let fresh = store.insert(coll, CollectionAbs { vector_size: dim, points: Seq::empty() });
        assert(points_projectable(fresh[coll].points));
        lemma_update_keeps_projectable(fresh, coll, topic, content, dim);
    }
}

/// The two payload keys written for every idea differ.
proof fn lemma_distinct_payload_keys()
    ensures
        spec_topic_name_key() != spec_topic_content_key(),
{
    reveal_strlit("topic_name");
    reveal_strlit("topic_content");
    assert(spec_topic_name_key().len() == 10);
    assert(spec_topic_content_key().len() == 13);
}

/// Creating a topic and then immediately searching the same topic, whatever
/// the query, returns a result set containing that content.
pub proof fn lemma_create_then_search_finds_content(
    store: Map<Seq<char>, CollectionAbs>,
    coll: Seq<char>,
    topic: Seq<char>,
    content: Seq<char>,
    dim: u64,
    limit: u64,
)
    requires
        create_allowed(store, coll, dim),
    ensures
        search_allowed(store_after_create(store, coll, topic, content, dim), coll, dim),
        exists|k: int|
            0 <= k < search_hits(
                store_after_create(store, coll, topic, content, dim),
                coll,
                Some(topic),
                limit,
            ).len() && idea_of_point(
                #[trigger] search_hits(
                    store_after_create(store, coll, topic, content, dim),
                    coll,
                    Some(topic),
                    limit,
                )[k],
            ).content == content,
{
    let s2 = store_after_create(store, coll, topic, content, dim);
    let p = topic_point_abs(topic, content);
    let base = if store.contains_key(coll) {
        store[coll].points
    } else {
        Seq::<PointAbs>::empty()
    };
    assert(s2[coll].points == upserted(base, p));
    let pts = s2[coll].points;
    let i: int = if crate::store::has_point(base, p.id) {
        crate::store::point_index(base, p.id)
    } else {
        base.len() as int
    };
    assert(0 <= i < pts.len() && pts[i] == p);
    assert(point_has_topic(p, topic));
    lemma_topic_matches_complete(pts, topic, i);
    let hits = search_hits(s2, coll, Some(topic), limit);
    let k = choose|k: int| 0 <= k < hits.len() && hits[k] == p;
    lemma_distinct_payload_keys();
    assert(plookup(p.payload, spec_topic_content_key()) == Some(content)) by {
        assert(p.payload[0] == (spec_topic_name_key(), topic));
        assert(p.payload.drop_first()[0] == (spec_topic_content_key(), content));
        assert(plookup(p.payload.drop_first(), spec_topic_content_key()) == Some(content));
    }
    assert(idea_of_point(hits[k]).content == content);
}

/// Creating a topic on a fresh deployment (no pre-existing collection)
/// succeeds and leaves a collection whose dimensionality equals the embedding
/// length returned by the configured provider, holding the one written point.
pub proof fn lemma_create_fresh_sets_dimension(
    store: Map<Seq<char>, CollectionAbs>,
    coll: Seq<char>,
    topic: Seq<char>,
    content: Seq<char>,
    dim: u64,
)
    requires
        !store.contains_key(coll),
    ensures
        create_allowed(store, coll, dim),
        store_after_create(store, coll, topic, content, dim).contains_key(coll),
        store_after_create(store, coll, topic, content, dim)[coll].vector_size == dim,
        store_after_create(store, coll, topic, content, dim)[coll].points == seq![
            topic_point_abs(topic, content),
        ],
{
    let s2 = store_after_create(store, coll, topic, content, dim);
    assert(!crate::store::has_point(Seq::<PointAbs>::empty(), topic_point_abs(topic, content).id));
    assert(s2[coll].points =~= seq![topic_point_abs(topic, content)]);
}

/// Creating the same topic store twice with providers of different embedding
/// dimensionality fails on the second creation: the collection keeps the
/// first dimensionality, which the second write does not match.
pub proof fn lemma_create_dimension_mismatch_rejected(
    store: Map<Seq<char>, CollectionAbs>,
    coll: Seq<char>,
    first_topic: Seq<char>,
    first_content: Seq<char>,
    first_dim: u64,
    second_dim: u64,
)
    requires
        !store.contains_key(coll),
        first_dim != second_dim,
    ensures
        !create_allowed(
            store_after_create(store, coll, first_topic, first_content, first_dim),
            coll,
            second_dim,
        ),
{
}

/// A search without a topic returns no more than `limit` results; a search
/// within a topic returns only points labelled with it.
pub proof fn lemma_search_bounds(
    store: Map<Seq<char>, CollectionAbs>,
    coll: Seq<char>,
    topic: Option<Seq<char>>,
    limit: u64,
)
    requires
        store.contains_key(coll),
    ensures
        topic is None ==> search_hits(store, coll, topic, limit).len() <= limit,
        topic matches Some(t) ==> forall|k: int|
            0 <= k < search_hits(store, coll, topic, limit).len() ==> point_has_topic(
                #[trigger] search_hits(store, coll, topic, limit)[k],
                t,
            ),
{
    match topic {
        Some(t) => {
            lemma_topic_matches_topical(store[coll].points, t);
        },
        None => {
        },
    }
}

/// A listing returns at most `limit` points, all labelled with the requested
/// topic; the listed points never include vectors (points carry none).
pub proof fn lemma_list_respects_topic_and_limit(
    store: Map<Seq<char>, CollectionAbs>,
    coll: Seq<char>,
    topic: Seq<char>,
    limit: u32,
)
    requires
        store.contains_key(coll),
    ensures
        capped(topic_matches(store[coll].points, topic), limit as int).len() <= limit,
        forall|k: int|
            0 <= k < capped(topic_matches(store[coll].points, topic), limit as int).len()
                ==> point_has_topic(
                #[trigger] capped(topic_matches(store[coll].points, topic), limit as int)[k],
                topic,
            ),
{
    lemma_topic_matches_topical(store[coll].points, topic);
    assert(forall|k: int|
        0 <= k < capped(topic_matches(store[coll].points, topic), limit as int).len() ==> capped(
            topic_matches(store[coll].points, topic),
            limit as int,
        )[k] == topic_matches(store[coll].points, topic)[k]);
}

} // verus!
