//! Handles for the collections of a durable metadata store, and the errors
//! that working with the store gives.

use std::marker::PhantomData;
use vstd::prelude::*;
use vstd::string::StringExecFns;

verus! {
/// The change in the number of copies of an entry.
pub type Diff = i64;

/// The time of an entry.
pub type Timestamp = i64;

/// The identifier of a collection.
pub type Id = i64;

/// A collection of `(key, value, timestamp, diff)` entries whose state is durable.
///
/// The handle holds the identifier of the collection. The key and value
/// types are chosen by the caller and stay the same for a collection.
pub struct StashCollection<K, V> {
    id: Id,
    _kv: PhantomData<(K, V)>,
}

impl<K, V> StashCollection<K, V> {
    /// The identifier of the collection.
    pub closed spec fn spec_id(&self) -> Id {
        self.id
    }

    /// The handle for the collection with the given identifier.
    pub fn from(id: Id) -> (collection: Self)
        ensures
            collection.spec_id() == id,
    {
        StashCollection { id, _kv: PhantomData }
    }

    /// The identifier of the collection.
    pub fn id(&self) -> (id: Id)
        ensures
            id == self.spec_id(),
    {
        self.id
    }
}

impl<K, V> Clone for StashCollection<K, V> {
    fn clone(&self) -> (copy: Self)
        ensures
            copy.spec_id() == self.spec_id(),
    {
        StashCollection { id: self.id, _kv: PhantomData }
    }
}

impl<K, V> Copy for StashCollection<K, V> {
}

/// A helper struct to prevent mistyping of a [`StashCollection`]'s name and
/// k,v types.
pub struct TypedCollection<K, V> {
    name: &'static str,
    typ: PhantomData<(K, V)>,
}

impl<K, V> TypedCollection<K, V> {
    /// The name of the collection.
    pub closed spec fn spec_name(&self) -> Seq<char> {
        self.name@
    }

    /// The typed handle for the collection with the given name.
    pub fn new(name: &'static str) -> (collection: Self)
        ensures
            collection.spec_name() == name@,
    {
        TypedCollection { name, typ: PhantomData }
    }

    /// The name of the collection.
    pub fn name(&self) -> (name: &'static str)
        ensures
            name@ == self.spec_name(),
    {
        self.name
    }
}

/// What went wrong in the store.
#[derive(Debug)]
pub enum InternalStashError {
    /// Another process has taken over the store.
    Fence(String),
    /// A collection was read whose since frontier is not before its upper frontier.
    PeekSinceUpper(String),
    /// Anything else.
    Other(String),
}

/// An error that can occur while interacting with a stash.
///
/// Stash errors are deliberately opaque. They generally indicate unrecoverable
/// conditions, like running out of disk space.
#[derive(Debug)]
pub struct StashError {
    pub inner: InternalStashError,
}

impl StashError {
    /// Whether the error has the given message and no more specific cause.
    pub open spec fn says(&self, message: Seq<char>) -> bool {
        self.inner matches InternalStashError::Other(text) && text@ == message
    }

    /// Returns whether the error is unrecoverable (retrying will never succeed).
    pub fn is_unrecoverable(&self) -> (unrecoverable: bool)
        ensures
            unrecoverable == (self.inner is Fence),
    {
        match &self.inner {
            InternalStashError::Fence(_) => true,
            _ => false,
        }
    }

    /// Returns whether the error tells of a collection whose since frontier
    /// is not before its upper frontier. Such a read can be tried again once
    /// the upper frontier has been advanced.
    pub fn is_peek_since_upper(&self) -> (since_upper: bool)
        ensures
            since_upper == (self.inner is PeekSinceUpper),
    {
        match &self.inner {
            InternalStashError::PeekSinceUpper(_) => true,
            _ => false,
        }
    }

    /// What the error says: that it comes from the stash, and its message.
    pub fn message(&self) -> (text: String)
        ensures
            text@ == "stash error: "@ + (match self.inner {
                InternalStashError::Fence(e) => e@,
                InternalStashError::PeekSinceUpper(e) => e@,
                InternalStashError::Other(e) => e@,
            }),
    {
        let mut text = String::from_str("stash error: ");
        match &self.inner {
            InternalStashError::Fence(e) => text.append(e.as_str()),
            InternalStashError::PeekSinceUpper(e) => text.append(e.as_str()),
            InternalStashError::Other(e) => text.append(e.as_str()),
        }
        text
    }

    /// The error with the given message and no more specific cause.
    pub fn other(message: &str) -> (error: StashError)
        ensures
            error.says(message@),
    {
        StashError { inner: InternalStashError::Other(message.to_string()) }
    }
}
} // verus!
