use vstd::prelude::*;

use crate::errors::TickError;
use crate::met::{project_temperatures, Response, Timeseries};

verus! {

/// What parsing an RFC 2822 date string yields: `Some` of the moment the
/// string denotes, as seconds since the Unix epoch, exactly when the string
/// is a well-formed RFC 2822 date. The result depends on the characters
/// alone.
pub uninterp spec fn rfc2822_timestamp(s: Seq<char>) -> Option<i64>;

/// Relies on `chrono::DateTime::parse_from_rfc2822`, which parses the string
/// against the fixed RFC 2822 grammar, and `DateTime::timestamp`, which
/// converts the parsed moment to epoch seconds; both depend on the
/// characters alone.
#[verifier::external_body]
fn parse_rfc2822(s: &str) -> (r: Option<i64>)
    ensures
        r == rfc2822_timestamp(s@),
{
    chrono::DateTime::parse_from_rfc2822(s).ok().map(|d| d.timestamp())
}

/// What one refresh attempt observed at the network edge: either the
/// transport failed outright, or a response arrived, carrying its `expires`
/// header if the server sent one and its decoded body if that body was
/// well-formed.
pub enum FetchOutcome {
    TransportFailed,
    Fetched { expires: Option<String>, document: Option<Response> },
}

/// The error a refresh attempt must report, or `None` when it succeeds: a
/// transport failure is an I/O error, a missing or unparseable `expires`
/// header breaks the upstream protocol, and a response without a decodable
/// body is a decode failure.
pub open spec fn refresh_error(outcome: FetchOutcome) -> Option<TickError> {
    match outcome {
        FetchOutcome::TransportFailed => Some(TickError::IoError),
        FetchOutcome::Fetched { expires, document } => match expires {
            None => Some(TickError::ProtocolError),
            Some(s) => if rfc2822_timestamp(s@) is None {
                Some(TickError::ProtocolError)
            } else if document is None {
                Some(TickError::DecodeError)
            } else {
                None
            },
        },
    }
}

/// The entry a successful refresh stores: the decoded document's samples and
/// the parsed expiry instant. Meaningful only when `refresh_error` is `None`.
pub open spec fn refresh_entry(outcome: FetchOutcome) -> (Seq<Timeseries>, i64) {
    match outcome {
        FetchOutcome::Fetched { expires, document } => (
            document->Some_0.spec_samples(),
            rfc2822_timestamp(expires->Some_0@)->Some_0,
        ),
        FetchOutcome::TransportFailed => (Seq::empty(), 0),
    }
}

struct CacheEntry {
    document: Response,
    expires_at: i64,
}

/// The single-slot forecast cache: at most one entry, holding the last
/// decoded document together with the expiry instant the upstream server
/// asserted for it. The entry is created by the first successful refresh,
/// replaced wholesale by every later one, and only read on cache hits.
pub struct ForecastCache {
    entry: Option<CacheEntry>,
}

impl ForecastCache {
    /// The cache's abstract state: the stored document's samples and its
    /// expiry instant, if an entry is present.
    pub closed spec fn model(&self) -> Option<(Seq<Timeseries>, i64)> {
        match self.entry {
            Some(e) => Some((e.document.spec_samples(), e.expires_at)),
            None => None,
        }
    }

    /// A stored entry is fresh at `now` exactly while `now` precedes its
    /// expiry.
    pub open spec fn is_fresh(&self, now: i64) -> bool {
        match self.model() {
            Some(m) => now < m.1,
            None => false,
        }
    }

    /// A cache that starts cold.
    pub fn new() -> (c: ForecastCache)
        ensures
            c.model() is None,
    {
        ForecastCache { entry: None }
    }

    /// The cache-hit path of `get`: serve the projection of the stored
    /// document exactly when the entry is still fresh at `now`, without any
    /// network traffic. `None` means a fetch is required: there is no entry,
    /// or `now` has reached the expiry.
    pub fn lookup(&self, now: i64) -> (r: Option<Vec<i64>>)
        ensures
            r is Some <==> self.is_fresh(now),
            self.is_fresh(now) ==> r->Some_0@ == project_temperatures(
                self.model()->Some_0.0,
                now,
                48,
            ),
    {
        match &self.entry {
            Some(e) => {
                if now < e.expires_at {
                    Some(e.document.next_n_hours(now, 48))
                } else {
                    None
                }
            },
            None => None,
        }
    }

    /// The refresh path of `get`, applied to what the network edge observed.
    /// On any failure the previous entry is left untouched and the error is
    /// reported for this tick; on success the entry is replaced wholesale and
    /// the new document's projection at `now` is returned.
    pub fn refresh(&mut self, now: i64, outcome: FetchOutcome) -> (r: Result<Vec<i64>, TickError>)
        ensures
            match refresh_error(outcome) {
                Some(e) => r == Err::<Vec<i64>, TickError>(e) && final (self).model() == old(
                    self,
                ).model(),
                None => {
                    &&& r is Ok
                    &&& final (self).model() == Some(refresh_entry(outcome))
                    &&& r->Ok_0@ == project_temperatures(refresh_entry(outcome).0, now, 48)
                },
            },
    {
        match outcome {
            FetchOutcome::TransportFailed => Err(TickError::IoError),
            FetchOutcome::Fetched { expires, document } => match expires {
                None => Err(TickError::ProtocolError),
                Some(s) => match parse_rfc2822(s.as_str()) {
                    None => Err(TickError::ProtocolError),
                    Some(expires_at) => match document {
                        None => Err(TickError::DecodeError),
                        Some(doc) => {
                            let data = doc.next_n_hours(now, 48);
                            self.entry = Some(CacheEntry { document: doc, expires_at });
                            Ok(data)
                        },
                    },
                },
            },
        }
    }
}

/// Expiry respect: a stored entry serves every `now` before its expiry
/// without a fetch, and forces exactly the fetch path from the expiry
/// onward.
pub proof fn lemma_expiry_respect(c: ForecastCache, now1: i64, now2: i64)
    requires
        c.model() is Some,
        now1 < c.model()->Some_0.1,
        c.model()->Some_0.1 <= now2,
    ensures
        c.is_fresh(now1),
        !c.is_fresh(now2),
{
}

/// Cache preservation on failure: a failed refresh leaves the cache's state
/// unchanged (the `refresh` contract), and an unchanged state keeps serving,
/// with the same document, every `now` that the original entry's window
/// covers.
pub proof fn lemma_cache_preserved_on_failure(
    before: ForecastCache,
    after: ForecastCache,
    now: i64,
)
    requires
        after.model() == before.model(),
        before.is_fresh(now),
    ensures
        after.is_fresh(now),
        after.model()->Some_0.0 == before.model()->Some_0.0,
{
}

} // verus!
