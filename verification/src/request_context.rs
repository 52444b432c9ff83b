use vstd::prelude::*;

use crate::blueprint::{Blueprint, Server, Upstream};

verus! {

/// An error of the request cache, with its message.
pub struct CacheErr(pub String);

/// What a request keeps while it is served: the server and the upstream of
/// the blueprint, the smallest `max-age` that its responses allow, and
/// whether its result may be cached publicly.
pub struct RequestContext {
    pub server: Server,
    pub upstream: Upstream,
    pub min_max_age: Option<i32>,
    pub cache_public: Option<bool>,
}

/// The smallest `max-age` after `max_age` is reported: the smaller of the two,
/// or `max_age` when none was reported before.
pub open spec fn min_max_age_after(current: Option<i32>, max_age: i32) -> Option<i32> {
    match current {
        Some(m) => if max_age < m {
            Some(max_age)
        } else {
            Some(m)
        },
        None => Some(max_age),
    }
}

impl RequestContext {
    /// A context with the default server and upstream, and nothing reported.
    pub fn new() -> (r: RequestContext)
        ensures
            r.server.host@ == seq![127u8, 0u8, 0u8, 1u8],
            r.server.port == 8000,
            r.upstream.base_url is None,
            r.upstream.http_cache == 0,
            r.min_max_age is None,
            r.cache_public is None,
    {
        RequestContext {
            server: Server::default(),
            upstream: Upstream::default(),
            min_max_age: None,
            cache_public: None,
        }
    }

    /// The context of a request to the gateway of `blueprint`.
    pub fn from_blueprint(blueprint: &Blueprint) -> (r: RequestContext)
        ensures
            r.server == blueprint.server,
            r.upstream == blueprint.upstream,
            r.min_max_age is None,
            r.cache_public is None,
    {
        RequestContext {
            server: blueprint.server,
            upstream: blueprint.upstream.clone(),
            min_max_age: None,
            cache_public: None,
        }
    }

    /// Records `min_max_age` as the smallest `max-age`.
    fn set_min_max_age_conc(&mut self, min_max_age: i32)
        ensures
            final(self).min_max_age == Some(min_max_age),
            final(self).server == old(self).server,
            final(self).upstream == old(self).upstream,
            final(self).cache_public == old(self).cache_public,
    {
        self.min_max_age = Some(min_max_age);
    }

    /// The smallest `max-age` reported so far.
    pub fn get_min_max_age(&self) -> (r: Option<i32>)
        ensures
            r == self.min_max_age,
    {
        self.min_max_age
    }

    /// Marks the result as not to be cached publicly.
    pub fn set_cache_public_false(&mut self)
        ensures
            final(self).cache_public == Some(false),
            final(self).server == old(self).server,
            final(self).upstream == old(self).upstream,
            final(self).min_max_age == old(self).min_max_age,
    {
        self.cache_public = Some(false);
    }

    /// Whether the result may be cached publicly, once that is known.
    pub fn is_cache_public(&self) -> (r: Option<bool>)
        ensures
            r == self.cache_public,
    {
        self.cache_public
    }

    /// Reports the `max-age` of a response: the smallest one is kept.
    pub fn set_min_max_age(&mut self, max_age: i32)
        ensures
            final(self).min_max_age == min_max_age_after(old(self).min_max_age, max_age),
            final(self).server == old(self).server,
            final(self).upstream == old(self).upstream,
            final(self).cache_public == old(self).cache_public,
    {
        let min_max_age_lock = self.get_min_max_age();
        match min_max_age_lock {
            Some(min_max_age) => {
                if max_age < min_max_age {
                    self.set_min_max_age_conc(max_age);
                }
            },
            None => {
                self.set_min_max_age_conc(max_age);
            },
        }
    }
}

/// Reports of `max-age` may come in any order: the smallest is kept.
pub proof fn lemma_min_max_age_order(current: Option<i32>, a: i32, b: i32)
    ensures
        min_max_age_after(min_max_age_after(current, a), b) == min_max_age_after(
            min_max_age_after(current, b),
            a,
        ),
        min_max_age_after(min_max_age_after(current, a), b) matches Some(m) && m <= a && m <= b
            && (m == a || m == b || current == Some(m)),
{
}

/// Reporting the same `max-age` twice changes nothing more.
pub proof fn lemma_min_max_age_idempotent(current: Option<i32>, a: i32)
    ensures
        min_max_age_after(min_max_age_after(current, a), a) == min_max_age_after(current, a),
{
}

} // verus!
