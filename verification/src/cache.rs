//! Trusted boundary to the bounded result cache. The store itself is the
//! cache_2q crate's two-queue cache; this library reasons about it through
//! one named view — the map of stored pairs — and three wrappers.
use vstd::prelude::*;

verus! {

/// A distance in the engine's output unit, held as a whole number of
/// millionths: the solver's results carry exactly six fractional digits, so
/// this fixed-point form is exact.
#[derive(Clone, Copy, Debug, PartialEq, Eq, Structural)]
pub struct Distance {
    pub micro: u64,
}

impl Distance {
    pub fn from_micro(micro: u64) -> (r: Distance)
        ensures
            r.micro == micro,
    {
        Distance { micro }
    }
}

/// A query exactly as the caller wrote it. Two queries are one cache key
/// only when both texts are identical byte for byte; nothing is normalized.
#[derive(Clone, Debug, PartialEq, Eq, Hash)]
pub struct Query {
    pub src: String,
    pub dst: String,
}

impl Query {
    /// The pair of texts, the cache key.
    pub open spec fn key(self) -> (Seq<char>, Seq<char>) {
        (self.src@, self.dst@)
    }

    pub fn new(src: String, dst: String) -> (q: Query)
        ensures
            q.key() == (src@, dst@),
    {
        Query { src, dst }
    }
}

/// The default query: both texts empty.
impl Default for Query {
    fn default() -> (q: Query)
        ensures
            q.src@ =~= Seq::<char>::empty(),
            q.dst@ =~= Seq::<char>::empty(),
    {
        Query { src: String::new(), dst: String::new() }
    }
}

#[verifier::external_type_specification]
#[verifier::external_body]
#[verifier::reject_recursive_types(K)]
#[verifier::reject_recursive_types(V)]
#[verifier::reject_recursive_types(S)]
pub struct ExCache<K: Eq + core::hash::Hash, V, S: core::hash::BuildHasher>(
    cache_2q::Cache<K, V, S>,
);

/// The pairs a cache holds, keyed by the query's two texts.
pub uninterp spec fn cache_contents(
    c: cache_2q::Cache<Query, Distance>,
) -> Map<(Seq<char>, Seq<char>), Distance>;

/// The view of a cache with nothing stored.
pub open spec fn no_contents() -> Map<(Seq<char>, Seq<char>), Distance> {
    Map::empty()
}

/// Relies on cache_2q::Cache::new: an empty cache with room for `size`
/// recent and `size` frequent entries; it panics when `size` is zero.
#[verifier::external_body]
pub(crate) fn cache_new(size: usize) -> (c: cache_2q::Cache<Query, Distance>)
    requires
        size >= 1,
    ensures
        cache_contents(c) == no_contents(),
{
    cache_2q::Cache::new(size)
}

/// Relies on cache_2q::Cache::get: it returns the entry stored under a key
/// equal to the query — equality on `Query` is equality of the two texts —
/// and moves entries between the internal queues without adding or dropping
/// any pair.
#[verifier::external_body]
pub(crate) fn cache_get(c: &mut cache_2q::Cache<Query, Distance>, q: &Query) -> (r: Option<
    Distance,
>)
    ensures
        cache_contents(*final(c)) == cache_contents(*old(c)),
        match r {
            Some(d) => cache_contents(*old(c)).contains_pair(q.key(), d),
            None => !cache_contents(*old(c)).dom().contains(q.key()),
        },
{
    c.get(q).map(|v| *v)
}

/// Relies on cache_2q::Cache::insert: afterwards the key holds the new
/// value; a vacant insertion may evict other entries to keep the cache
/// within its bounds, an occupied one only replaces the value; the returned
/// value is the evicted one for this key, if it was present.
#[verifier::external_body]
pub(crate) fn cache_insert(
    c: &mut cache_2q::Cache<Query, Distance>,
    q: Query,
    d: Distance,
) -> (r: Option<Distance>)
    ensures
        cache_contents(*final(c)).contains_pair(q.key(), d),
        forall|k: (Seq<char>, Seq<char>)|
            #[trigger] cache_contents(*final(c)).dom().contains(k) ==> k == q.key()
                || cache_contents(*old(c)).contains_pair(k, cache_contents(*final(c))[k]),
        match r {
            Some(v) => cache_contents(*old(c)).contains_pair(q.key(), v),
            None => !cache_contents(*old(c)).dom().contains(q.key()),
        },
{
    c.insert(q, d)
}

} // verus!
