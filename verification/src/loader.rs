//! Loader-facing data: byte ranges and fetch messages, shallow expansions,
//! load outcomes, and the `Loader` trait that a format implements.

use std::time::Duration;
use vstd::prelude::*;

verus! {

/// A byte buffer from the `bytes` crate, carried opaquely in fetch responses.
#[verifier::external_type_specification]
#[verifier::external_body]
pub struct ExternalBytes(bytes::Bytes);

/// `Bytes::clone`, which the derived `Clone` of [`FetchResponse`] calls.
///
/// It returns a new handle to the same bytes; since the byte buffer is opaque
/// here, no clause is stated about the result.
pub assume_specification[ <bytes::Bytes as Clone>::clone ](bytes: &bytes::Bytes) -> bytes::Bytes;

/// `Duration::clone`, which the derived `Clone` of [`LoadOutcome`] calls.
///
/// `Duration` is `Copy`: the clone is the same duration.
pub assume_specification[ <Duration as Clone>::clone ](after: &Duration) -> (copy: Duration)
    ensures
        copy == *after,
;

/// A byte range requested from a resource.
#[derive(Debug, Clone, Copy, PartialEq, Eq)]
pub struct ByteRange {
    /// Inclusive zero-based byte offset.
    pub start: u64,
    /// Exclusive byte offset, if the request has an upper bound.
    pub end: Option<u64>,
}

/// Input supplied to a caller-provided fetch callback.
#[derive(Debug, Clone, PartialEq, Eq)]
pub struct FetchRequest {
    /// The resolved resource location.
    pub uri: String,
    /// An optional byte range.
    pub range: Option<ByteRange>,
}

/// Result returned by a caller-provided fetch callback.
#[derive(Debug, Clone, PartialEq, Eq)]
pub struct FetchResponse {
    /// The resource bytes.
    pub bytes: bytes::Bytes,
    /// The response media type, when known.
    pub content_type: Option<String>,
}

/// One shallow expansion of a hierarchy item.
///
/// Expansion is deliberately shallow: it discovers the item's immediate
/// children and content references, but never recursively traverses them.
#[derive(Debug, Clone, PartialEq, Eq)]
pub struct Expansion<I, C> {
    /// The item's immediate children, in source-defined order.
    pub children: Vec<I>,
    /// Content references discovered for the item.
    pub contents: Vec<C>,
}

/// The result of loading one content reference.
#[derive(Debug, Clone, PartialEq, Eq)]
pub enum LoadOutcome<T> {
    /// Content was loaded successfully.
    Ready(T),
    /// The reference identifies content with no payload.
    Empty,
    /// Loading depends on source-local work that has not completed.
    ///
    /// The delay is source data, not a scheduling instruction.
    Retry {
        /// Earliest time at which loading may be retried.
        after: Duration,
    },
}

/// Demand-driven access to a retained hierarchical spatial source.
///
/// A loader owns the source-native item handle, content reference, metadata
/// and error types. Its asynchronous operations (resolving the root,
/// describing, expanding and loading) are performed by the runtime around
/// this library; what the navigation logic needs from a loader is the stable
/// identity of its items.
pub trait Loader: Send + Sync {
    /// Retained handle for one source-native hierarchy item.
    type Item: Clone + Send + Sync + 'static;
    /// Stable identity for a hierarchy item.
    type ItemId: Clone + Eq + std::hash::Hash + Send + Sync + 'static;
    /// Reference to content associated with an item.
    type ContentRef: Clone + Send + Sync + 'static;
    /// Immutable source-native facts about an item.
    type ItemInfo: Send + Sync + 'static;
    /// Decoded or raw content produced by loading a content reference.
    type Content: Send + 'static;
    /// Error produced by source access or format interpretation.
    type Error: Send + Sync + 'static;

    /// Returns the stable identity for an item.
    fn item_id(&self, item: &Self::Item) -> Self::ItemId;
}

/// Whether every loader of type `L` gives each item one identity: any two
/// results that `item_id` may return for the same loader and item agree.
pub open spec fn stable_identity<L: Loader>() -> bool {
    forall|loader: L, item: L::Item, a: L::ItemId, b: L::ItemId|
        #![trigger call_ensures(L::item_id, (&loader, &item), a), call_ensures(L::item_id, (&loader, &item), b)]
        call_ensures(L::item_id, (&loader, &item), a) && call_ensures(
            L::item_id,
            (&loader, &item),
            b,
        ) ==> a == b
}

/// An identity that `loader` gives `item`: one of the results that its
/// `item_id` may return.
pub open spec fn identity_of<L: Loader>(loader: L, item: L::Item) -> L::ItemId {
    choose|id: L::ItemId| call_ensures(L::item_id, (&loader, &item), id)
}

} // verus!
