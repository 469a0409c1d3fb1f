//! Topics: a named channel with a declared message type, and the moment it
//! was last observed.

use vstd::prelude::*;

verus! {

/// The mathematical value of a [`Topic`].
pub struct TopicModel {
    pub name: Seq<char>,
    pub msg_type: Seq<char>,
    pub last_seen: u64,
}

/// The `{name, type}` record handed to clients of the query interface.
pub struct RecordModel {
    pub name: Seq<char>,
    pub msg_type: Seq<char>,
}

/// A topic as the registry stores it.
pub struct Topic {
    pub name: String,
    pub msg_type: String,
    pub last_seen: u64,
}

/// A topic as a client sees it: its name and its declared message type.
pub struct TopicInfo {
    pub name: String,
    pub msg_type: String,
}

impl View for Topic {
    type V = TopicModel;

    open spec fn view(&self) -> TopicModel {
        TopicModel { name: self.name@, msg_type: self.msg_type@, last_seen: self.last_seen }
    }
}

impl View for TopicInfo {
    type V = RecordModel;

    open spec fn view(&self) -> RecordModel {
        RecordModel { name: self.name@, msg_type: self.msg_type@ }
    }
}

/// The record that a client sees of a stored topic.
pub open spec fn record_of(t: TopicModel) -> RecordModel {
    RecordModel { name: t.name, msg_type: t.msg_type }
}

/// The stored topic for a record observed at time `now`.
pub open spec fn stamped(r: RecordModel, now: u64) -> TopicModel {
    TopicModel { name: r.name, msg_type: r.msg_type, last_seen: now }
}

impl Topic {
    pub fn new(name: String, msg_type: String, last_seen: u64) -> (r: Topic)
        ensures
            r@ == (TopicModel { name: name@, msg_type: msg_type@, last_seen }),
    {
        Topic { name, msg_type, last_seen }
    }

    /// A copy of this topic with the same name, type and timestamp.
    pub fn duplicate(&self) -> (r: Topic)
        ensures
            r@ == self@,
    {
        Topic {
            name: self.name.clone(),
            msg_type: self.msg_type.clone(),
            last_seen: self.last_seen,
        }
    }

    /// The client-facing record of this topic.
    pub fn info(&self) -> (r: TopicInfo)
        ensures
            r@ == record_of(self@),
    {
        TopicInfo { name: self.name.clone(), msg_type: self.msg_type.clone() }
    }
}

impl TopicInfo {
    pub fn new(name: String, msg_type: String) -> (r: TopicInfo)
        ensures
            r@ == (RecordModel { name: name@, msg_type: msg_type@ }),
    {
        TopicInfo { name, msg_type }
    }

    /// The stored topic for this record, observed at time `now`.
    pub fn stamp(&self, now: u64) -> (r: Topic)
        ensures
            r@ == stamped(self@, now),
    {
        Topic { name: self.name.clone(), msg_type: self.msg_type.clone(), last_seen: now }
    }
}

} // verus!
