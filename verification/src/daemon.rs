//! The daemon's dispatch: one decoded request in, one response out.
//!
//! The long-lived process around this (the socket listener, the embedding
//! call it makes for the decoded request, the remote store client) is
//! ordinary I/O and lives in the application; it hands each decoded request
//! and the embedding outcome to [`Daemon::process_request`], which dispatches
//! to topic storage and shapes the response.

use vstd::prelude::*;
use crate::embedding::EmbedOutcome;
use crate::idea::Idea;
use crate::protocol::{
    CreateTopicResponse, ListTopicResponse, Request, RequestAbs, Response, ResponseAbs,
    SearchTopicResponse, UpdateTopicResponse, spec_request_text, strings_abs,
};
use crate::store::{CollectionAbs, PointAbs, StoreError, StoreState};
use crate::topic::{
    TopicStorage, TopicStorageError, create_allowed, idea_of_point, list_projectable,
    list_results, search_allowed, search_hits, search_projectable, store_after_create,
    store_after_update, update_allowed,
};

verus! {

/// The projection condition the request's operation needs: only the points
/// the operation can return must carry the payload keys the projection reads.
pub open spec fn dispatch_projectable(
    req: RequestAbs,
    store: Map<Seq<char>, CollectionAbs>,
    coll: Seq<char>,
) -> bool {
    match req {
        RequestAbs::CreateTopic { .. } => true,
        RequestAbs::UpdateTopic { .. } => true,
        RequestAbs::SearchTopic { topic_name, limit, .. } => search_projectable(
            store,
            coll,
            topic_name,
            limit,
        ),
        RequestAbs::ListTopic { topic_name, limit } => list_projectable(
            store,
            coll,
            topic_name,
            limit,
        ),
    }
}

/// Whether the store accepts the request's operation, given the embedding's
/// dimensionality.
pub open spec fn dispatch_allowed(
    req: RequestAbs,
    store: Map<Seq<char>, CollectionAbs>,
    coll: Seq<char>,
    dim: u64,
) -> bool {
    match req {
        RequestAbs::CreateTopic { .. } => create_allowed(store, coll, dim),
        RequestAbs::UpdateTopic { .. } => update_allowed(store, coll, dim),
        RequestAbs::SearchTopic { .. } => search_allowed(store, coll, dim),
        RequestAbs::ListTopic { .. } => store.contains_key(coll),
    }
}

/// The store after the request's operation.
pub open spec fn store_after_dispatch(
    req: RequestAbs,
    store: Map<Seq<char>, CollectionAbs>,
    coll: Seq<char>,
    dim: u64,
) -> Map<Seq<char>, CollectionAbs> {
    match req {
        RequestAbs::CreateTopic { topic_name, content } => store_after_create(
            store,
            coll,
            topic_name,
            content,
            dim,
        ),
        RequestAbs::UpdateTopic { topic_name, content } => store_after_update(
            store,
            coll,
            topic_name,
            content,
            dim,
        ),
        RequestAbs::SearchTopic { .. } => store,
        RequestAbs::ListTopic { .. } => store,
    }
}

/// The response to a request the store accepted.
pub open spec fn response_of_dispatch(
    req: RequestAbs,
    store: Map<Seq<char>, CollectionAbs>,
    coll: Seq<char>,
    dim: u64,
) -> ResponseAbs {
    match req {
        RequestAbs::CreateTopic { .. } => ResponseAbs::CreateTopic { success: true },
        RequestAbs::UpdateTopic { .. } => ResponseAbs::UpdateTopic { success: true },
        RequestAbs::SearchTopic { topic_name, query, limit } => ResponseAbs::SearchTopic {
            results: search_hits(store, coll, topic_name, limit).map_values(
                |p: PointAbs| idea_of_point(p).content,
            ),
        },
        RequestAbs::ListTopic { topic_name, limit } => ResponseAbs::ListTopic {
            results: list_results(store, coll, topic_name, limit),
        },
    }
}

/// Holds a validated topic storage across connections, so that the embedding
/// provider's session does not have to be re-established on every invocation.
pub struct Daemon {
    pub storage: TopicStorage,
}

impl Daemon {
    pub fn new(storage: TopicStorage) -> (r: Self)
        ensures
            r.storage == storage,
    {
        Self { storage }
    }

    pub fn update_storage(&mut self, storage: TopicStorage)
        ensures
            final(self).storage == storage,
    {
        self.storage = storage;
    }

    /// Dispatches one decoded request against the store and shapes the
    /// response: writes answer with a success flag, reads with their result
    /// contents.  A store rejection or a failed embed aborts the request and
    /// surfaces as the error.
    pub fn process_request(
        &self,
        store: &mut StoreState,
        embed: &EmbedOutcome,
        request: Request,
    ) -> (r: Result<Response, TopicStorageError>)
        requires
            old(store).wf(),
            dispatch_projectable(request@, old(store)@, self.storage.qdrant_collection_name@),
        ensures
            final(store).wf(),
            embed matches EmbedOutcome::Failed { error } ==> (spec_request_text(request@) is Some
                ==> r == Err::<Response, TopicStorageError>(TopicStorageError::EmbeddingError(
                *error,
            )) && final(store)@ == old(store)@),
            embed matches EmbedOutcome::Embedded { dim } ==> (dispatch_allowed(
                request@,
                old(store)@,
                self.storage.qdrant_collection_name@,
                *dim,
            ) ==> (r matches Ok(resp) && resp@ == response_of_dispatch(
                request@,
                old(store)@,
                self.storage.qdrant_collection_name@,
                *dim,
            ) && final(store)@ == store_after_dispatch(
                request@,
                old(store)@,
                self.storage.qdrant_collection_name@,
                *dim,
            ))),
            embed matches EmbedOutcome::Embedded { dim } ==> (!dispatch_allowed(
                request@,
                old(store)@,
                self.storage.qdrant_collection_name@,
                *dim,
            ) ==> (r matches Err(TopicStorageError::QdrantError(m)) && final(store)@ == old(
                store,
            )@)),
            request@ matches RequestAbs::ListTopic { topic_name, limit } ==> final(store)@ == old(
                store,
            )@ && (old(store)@.contains_key(self.storage.qdrant_collection_name@) ==> (r matches Ok(
                resp,
            ) && resp@ == ResponseAbs::ListTopic {
                results: list_results(
                    old(store)@,
                    self.storage.qdrant_collection_name@,
                    topic_name,
                    limit,
                ),
            })) && (!old(store)@.contains_key(self.storage.qdrant_collection_name@) ==> (r matches
            Err(TopicStorageError::QdrantError(m)) && m@
                == StoreError::CollectionNotFound.spec_message())),
    {
        match request {
            Request::CreateTopic(q) => {
                let idea = Idea::new(q.topic_name.clone(), q.content, None);
                match self.storage.create_topic(store, &q.topic_name, idea, embed) {
                    Ok(()) => Ok(Response::CreateTopic(CreateTopicResponse { success: true })),
                    Err(e) => Err(e),
                }
            },
            Request::UpdateTopic(q) => {
                let idea = Idea::new(q.topic_name.clone(), q.content, None);
                match self.storage.update_topic(store, &q.topic_name, idea, embed) {
                    Ok(()) => Ok(Response::UpdateTopic(UpdateTopicResponse { success: true })),
                    Err(e) => Err(e),
                }
            },
            Request::SearchTopic(q) => {
                let topic_ref = match &q.topic_name {
                    Some(t) => Some(t),
                    None => None,
                };
                match self.storage.search_topic(store, topic_ref, &q.query, q.limit, embed) {
                    Ok(ideas) => {
                        let mut results: Vec<String> = Vec::new();
                        let n = ideas.len();
                        for k in 0..n
                            invariant
                                n == ideas@.len(),
                                results@.len() == k,
                                forall|x: int|
                                    0 <= x < k ==> (#[trigger] results@[x])@ == ideas@[x]@.content,
                        {
                            results.push(ideas[k].content.clone());
                        }
                        proof {
                            let ghost habs = search_hits(
                                store@,
                                self.storage.qdrant_collection_name@,
                                crate::topic::spec_topic_of(topic_ref),
                                q.limit,
                            );
                            match *embed {
                                EmbedOutcome::Embedded { dim } => {
                                    assert(search_allowed(
                                        store@,
                                        self.storage.qdrant_collection_name@,
                                        dim,
                                    ));
                                    assert(ideas@.map_values(|i: Idea| i@) == habs.map_values(
                                        |p: PointAbs| idea_of_point(p),
                                    ));
                                    assert(ideas@.map_values(|i: Idea| i@).len() == ideas@.len());
                                    assert(habs.map_values(|p: PointAbs| idea_of_point(p)).len()
                                        == habs.len());
                                    assert(results@.len() == habs.len());
                                    assert forall|x: int|
                                        0 <= x < results@.len() implies strings_abs(results@)[x]
                                        == habs.map_values(
                                        |p: PointAbs| idea_of_point(p).content,
                                    )[x] by {
                                        assert(ideas@[x]@ == ideas@.map_values(|i: Idea| i@)[x]);
                                        assert(ideas@[x]@ == idea_of_point(habs[x]));
                                    }
                                    assert(strings_abs(results@) =~= habs.map_values(
                                        |p: PointAbs| idea_of_point(p).content,
                                    ));
                                },
                                EmbedOutcome::Failed { .. } => {
                                    assert(false);
                                },
                            }
                        }
                        Ok(Response::SearchTopic(SearchTopicResponse { results }))
                    },
                    Err(e) => Err(e),
                }
            },
            Request::ListTopic(q) => {
                match self.storage.list_topic(store, &q.topic_name, q.limit) {
                    Ok(results) => Ok(Response::ListTopic(ListTopicResponse { results })),
                    Err(e) => Err(e),
                }
            },
        }
    }
}

} // verus!
