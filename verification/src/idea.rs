//! The idea data model: a text snippet tagged with a topic name.

use vstd::prelude::*;
use crate::payload::{Payload, plookup, spec_topic_content_key, spec_topic_name_key};

verus! {

/// The mathematical value of an [`Idea`].
pub struct IdeaAbs {
    pub topic_name: Seq<char>,
    pub content: Seq<char>,
    pub id: Option<u64>,
}

/// A text snippet tagged with a topic name.  Identity is assigned by the
/// vector store, not locally; `id` is present only on ideas read back from it.
pub struct Idea {
    pub topic_name: String,
    pub content: String,
    pub id: Option<u64>,
}

impl View for Idea {
    type V = IdeaAbs;

    open spec fn view(&self) -> IdeaAbs {
        IdeaAbs { topic_name: self.topic_name@, content: self.content@, id: self.id }
    }
}

impl Idea {
    pub fn new(topic_name: String, content: String, id: Option<u64>) -> (r: Self)
        ensures
            r.topic_name == topic_name,
            r.content == content,
            r.id == id,
    {
        Self { topic_name, content, id }
    }
}

impl Clone for Idea {
    fn clone(&self) -> (r: Self)
        ensures
            r == *self,
    {
        Idea { topic_name: self.topic_name.clone(), content: self.content.clone(), id: self.id }
    }
}

/// The identifier of a stored point as the vector store hands it back:
/// numeric, a UUID string, or absent.
pub enum PointIdRepr {
    Num(u64),
    Uuid(String),
    Unset,
}

/// The numeric identifier of a point, if the store assigned one.
///
/// The store in this system only ever writes numeric identifiers, so a UUID
/// identifier is outside this function's domain (the caller would have
/// nothing sound to do with one).
pub fn try_extract_u64_id(id: PointIdRepr) -> (r: Option<u64>)
    requires
        !(id is Uuid),
    ensures
        r == match id {
            PointIdRepr::Num(num) => Some(num),
            PointIdRepr::Uuid(_) => None::<u64>,
            PointIdRepr::Unset => None::<u64>,
        },
{
    match id {
        PointIdRepr::Num(num) => Some(num),
        PointIdRepr::Uuid(_) => None,
        PointIdRepr::Unset => None,
    }
}

/// A point as handed back by the vector store: its identifier and its
/// payload, the vector omitted.
pub struct PointRecord {
    pub id: PointIdRepr,
    pub payload: Payload,
}

impl Idea {
    /// Projects a retrieved point to an idea: the topic-name and
    /// topic-content payload fields, and the numeric identifier if one was
    /// assigned.  A point without both payload keys, or with a UUID
    /// identifier, is outside this function's domain.
    pub fn from_record(point: &PointRecord) -> (r: Idea)
        requires
            !(point.id is Uuid),
            plookup(point.payload@, spec_topic_name_key()) is Some,
            plookup(point.payload@, spec_topic_content_key()) is Some,
        ensures
            Some(r.topic_name@) == plookup(point.payload@, spec_topic_name_key()),
            Some(r.content@) == plookup(point.payload@, spec_topic_content_key()),
            r.id == match point.id {
                PointIdRepr::Num(num) => Some(num),
                PointIdRepr::Uuid(_) => None::<u64>,
                PointIdRepr::Unset => None::<u64>,
            },
    {
        let id = match &point.id {
            PointIdRepr::Num(num) => Some(*num),
            PointIdRepr::Uuid(_) => None,
            PointIdRepr::Unset => None,
        };
        let name_key = crate::payload::topic_name_key();
        let content_key = crate::payload::topic_content_key();
        let topic_name = match point.payload.get(&name_key) {
            Some(v) => v.clone(),
            None => String::new(),
        };
        let content = match point.payload.get(&content_key) {
            Some(v) => v.clone(),
            None => String::new(),
        };
        Idea { topic_name, content, id }
    }
}

} // verus!
