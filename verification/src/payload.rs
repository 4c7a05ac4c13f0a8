//! The flat key/value payload attached to each stored vector.
//!
//! A payload is an ordered list of string pairs; a key's value is the value of
//! its first occurrence.  The topic-storage layer always writes exactly two
//! keys: the topic-name key and the topic-content key.

use vstd::prelude::*;

verus! {

/// One key/value pair of a payload.
pub struct PayloadEntry {
    pub key: String,
    pub value: String,
}

impl PayloadEntry {
    pub open spec fn view_pair(self) -> (Seq<char>, Seq<char>) {
        (self.key@, self.value@)
    }
}

impl Clone for PayloadEntry {
    fn clone(&self) -> (r: Self)
        ensures
            r == *self,
    {
        PayloadEntry { key: self.key.clone(), value: self.value.clone() }
    }
}

/// A flat key/value map attached to a stored vector.
pub struct Payload {
    pub entries: Vec<PayloadEntry>,
}

impl View for Payload {
    type V = Seq<(Seq<char>, Seq<char>)>;

    open spec fn view(&self) -> Seq<(Seq<char>, Seq<char>)> {
        self.entries@.map_values(|e: PayloadEntry| e.view_pair())
    }
}

/// The value of `key` in a payload: the value of its first occurrence.
pub open spec fn plookup(entries: Seq<(Seq<char>, Seq<char>)>, key: Seq<char>) -> Option<
    Seq<char>,
>
    decreases entries.len(),
{
    if entries.len() == 0 {
        None
    } else if entries[0].0 == key {
        Some(entries[0].1)
    } else {
        plookup(entries.drop_first(), key)
    }
}

/// The key under which a point's topic name is stored.
pub open spec fn spec_topic_name_key() -> Seq<char> {
    "topic_name"@
}

/// The key under which a point's content is stored.
pub open spec fn spec_topic_content_key() -> Seq<char> {
    "topic_content"@
}

/// The topic-name key as an executable string.
pub fn topic_name_key() -> (r: String)
    ensures
        r@ == spec_topic_name_key(),
{
    "topic_name".to_owned()
}

/// The topic-content key as an executable string.
pub fn topic_content_key() -> (r: String)
    ensures
        r@ == spec_topic_content_key(),
{
    "topic_content".to_owned()
}

impl Payload {
    /// A payload with no entries.
    pub fn new() -> (r: Payload)
        ensures
            r@ == Seq::<(Seq<char>, Seq<char>)>::empty(),
    {
        let r = Payload { entries: Vec::new() };
        proof {
            assert(r@ =~= Seq::<(Seq<char>, Seq<char>)>::empty());
        }
        r
    }

    /// Appends a pair; an earlier occurrence of the same key keeps priority.
    pub fn push(&mut self, key: String, value: String)
        ensures
            final(self)@ == old(self)@.push((key@, value@)),
    {
        let ghost before = self@;
        self.entries.push(PayloadEntry { key, value });
        proof {
            assert(final(self)@ =~= before.push((key@, value@)));
        }
    }

    /// The value stored under `key`, if any.
    pub fn get(&self, key: &String) -> (r: Option<&String>)
        ensures
            match r {
                Some(v) => plookup(self@, key@) == Some(v@),
                None => plookup(self@, key@) is None,
            },
    {
        let n = self.entries.len();
        proof {
            assert(self@.skip(0) =~= self@);
        }
        for i in 0..n
            invariant
                n == self.entries.len(),
                plookup(self@, key@) == plookup(self@.skip(i as int), key@),
        {
            proof {
                assert(self@.skip(i as int)[0] == self@[i as int]);
                assert(self@.skip(i as int).drop_first() =~= self@.skip(i + 1));
            }
            if self.entries[i].key == *key {
                return Some(&self.entries[i].value);
            }
        }
        proof {
            assert(self@.skip(n as int) =~= Seq::<(Seq<char>, Seq<char>)>::empty());
        }
        None
    }
}

impl Clone for Payload {
    fn clone(&self) -> (r: Self)
        ensures
            r.entries@ == self.entries@,
            r@ == self@,
    {
        let r = Payload { entries: self.entries.clone() };
        proof {
            assert(r.entries@ =~= self.entries@);
        }
        r
    }
}

} // verus!
