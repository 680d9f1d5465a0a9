//! The query engine: parse both sides, answer from the cache when the raw
//! text pair is stored, and otherwise hand the parsed coordinates out for
//! the solver and store what it returns.
use vstd::prelude::*;

use crate::cache::Distance;
use crate::cache::Query;
use crate::coord::parse_spec;
use crate::coord::GeoCoordinate;

verus! {

/// Which side of a query a coordinate text came from.
#[derive(Clone, Copy, Debug, PartialEq, Eq, Structural)]
pub enum Side {
    Source,
    Destination,
}

/// The engine's failures: a text none of the grammars accepts, or a point
/// pair on which the solver's iteration never settles. Neither is cached.
#[derive(Clone, Debug, PartialEq, Eq)]
pub enum CoreError {
    MalformedCoordinate { input: String, side: Side },
    ConvergenceFailure,
}

/// A fully answered query.
#[derive(Clone, Copy, Debug, PartialEq, Eq, Structural)]
pub struct Answer {
    pub source: GeoCoordinate,
    pub destination: GeoCoordinate,
    pub distance: Distance,
}

/// What a prepared query still needs: nothing, or one solver run.
#[derive(Clone, Copy, Debug, PartialEq, Eq, Structural)]
pub enum Step {
    Done(Answer),
    Solve { source: GeoCoordinate, destination: GeoCoordinate },
}

/// What looking a key up in a cache view yields.
pub open spec fn lookup(
    m: Map<(Seq<char>, Seq<char>), Distance>,
    k: (Seq<char>, Seq<char>),
) -> Option<Distance> {
    if m.dom().contains(k) {
        Some(m[k])
    } else {
        None
    }
}

/// The bounded, shared result store and the operations around it.
pub struct Engine {
    cache: cache_2q::Cache<Query, Distance>,
}

impl Engine {
    /// The pairs currently stored.
    pub closed spec fn cache_view(self) -> Map<(Seq<char>, Seq<char>), Distance> {
        crate::cache::cache_contents(self.cache)
    }

    pub fn new(capacity: usize) -> (e: Engine)
        requires
            capacity >= 1,
        ensures
            e.cache_view() == crate::cache::no_contents(),
    {
        Engine { cache: crate::cache::cache_new(capacity) }
    }

    /// Parses both sides, in source-then-destination order, and looks the
    /// raw text pair up; a stored pair is answered at once, a missing one is
    /// handed out for one solver run.
    pub fn prepare(&mut self, src: &str, dst: &str) -> (r: Result<Step, CoreError>)
        ensures
            final(self).cache_view() == old(self).cache_view(),
            match r {
                Ok(Step::Done(a)) => parse_spec(src@) == Some(a.source) && parse_spec(dst@)
                    == Some(a.destination) && lookup(old(self).cache_view(), (src@, dst@)) == Some(
                    a.distance,
                ),
                Ok(Step::Solve { source, destination }) => parse_spec(src@) == Some(source)
                    && parse_spec(dst@) == Some(destination) && lookup(
                    old(self).cache_view(),
                    (src@, dst@),
                ) is None,
                Err(CoreError::MalformedCoordinate { input, side }) => match side {
                    Side::Source => parse_spec(src@) is None && input@ == src@,
                    Side::Destination => parse_spec(src@) is Some && parse_spec(dst@) is None
                        && input@ == dst@,
                },
                Err(CoreError::ConvergenceFailure) => false,
            },
    {
        let source = match GeoCoordinate::from_text(src) {
            Some(c) => c,
            None => {
                return Err(
                    CoreError::MalformedCoordinate { input: src.to_owned(), side: Side::Source },
                );
            },
        };
        let destination = match GeoCoordinate::from_text(dst) {
            Some(c) => c,
            None => {
                return Err(
                    CoreError::MalformedCoordinate {
                        input: dst.to_owned(),
                        side: Side::Destination,
                    },
                );
            },
        };
        let q = Query::new(src.to_owned(), dst.to_owned());
        match crate::cache::cache_get(&mut self.cache, &q) {
            Some(d) => Ok(Step::Done(Answer { source, destination, distance: d })),
            None => Ok(Step::Solve { source, destination }),
        }
    }

    /// Records one solver outcome for the raw text pair: a distance is
    /// stored and returned, a solver that gave up is a convergence failure,
    /// which is not cached.
    pub fn complete(
        &mut self,
        src: &str,
        dst: &str,
        source: GeoCoordinate,
        destination: GeoCoordinate,
        solved: Option<Distance>,
    ) -> (r: Result<Answer, CoreError>)
        ensures
            match solved {
                Some(d) => {
                    &&& r == Ok::<Answer, CoreError>(Answer { source, destination, distance: d })
                    &&& lookup(final(self).cache_view(), (src@, dst@)) == Some(d)
                    &&& forall|k: (Seq<char>, Seq<char>)|
                        #[trigger] final(self).cache_view().dom().contains(k) ==> k == (src@, dst@)
                            || lookup(old(self).cache_view(), k) == lookup(
                            final(self).cache_view(),
                            k,
                        )
                },
                None => r == Err::<Answer, CoreError>(CoreError::ConvergenceFailure)
                    && final(self).cache_view() == old(self).cache_view(),
            },
    {
        match solved {
            Some(d) => {
                let q = Query::new(src.to_owned(), dst.to_owned());
                let _evicted = crate::cache::cache_insert(&mut self.cache, q, d);
                Ok(Answer { source, destination, distance: d })
            },
            None => Err(CoreError::ConvergenceFailure),
        }
    }
}

/// Law: once a distance stands in the cache for a pair of texts, a lookup of
/// the very same pair yields that distance — a repeated query is answered
/// from the store, not recomputed.
pub proof fn lemma_repeat_query_hits(
    m: Map<(Seq<char>, Seq<char>), Distance>,
    k: (Seq<char>, Seq<char>),
    d: Distance,
)
    requires
        m.contains_pair(k, d),
    ensures
        lookup(m, k) == Some(d),
{
}

} // verus!
