//! Keyword-based model routing: the first route whose keyword occurs in the
//! message (case-insensitively) wins; otherwise the default model is used.

use vstd::prelude::*;
use crate::config::ModelRoute;
use crate::text::{contains_seq, lower_of};

verus! {

/// The ghost view of one route.
pub struct ModelRouteV {
    pub keywords: Seq<Seq<char>>,
    pub model: Seq<char>,
}

pub open spec fn view_route(r: ModelRoute) -> ModelRouteV {
    ModelRouteV {
        keywords: Seq::new(r.keywords@.len(), |i: int| r.keywords@[i]@),
        model: r.model@,
    }
}

pub open spec fn view_routes(v: Seq<ModelRoute>) -> Seq<ModelRouteV> {
    Seq::new(v.len(), |i: int| view_route(v[i]))
}

/// Whether any keyword of the route occurs, lowercased, in the lowercased
/// message text.
pub open spec fn route_matches(r: ModelRouteV, lowered: Seq<char>) -> bool {
    exists|i: int| 0 <= i < r.keywords.len() && contains_seq(lowered, lower_of(r.keywords[i]))
}

/// The model the router picks: the first matching route's model, or the
/// default.
pub open spec fn resolve_spec(
    routes: Seq<ModelRouteV>,
    default_model: Seq<char>,
    lowered: Seq<char>,
) -> Seq<char>
    decreases routes.len(),
{
    if routes.len() == 0 {
        default_model
    } else if route_matches(routes[0], lowered) {
        routes[0].model
    } else {
        resolve_spec(routes.drop_first(), default_model, lowered)
    }
}

/// Routes messages to the appropriate model based on keyword patterns.
#[derive(Debug, Clone)]
pub struct ModelRouter {
    pub routes: Vec<ModelRoute>,
    pub default_model: String,
}

impl ModelRouter {
    pub fn new(routes: Vec<ModelRoute>, default_model: String) -> (r: ModelRouter)
        ensures
            r.routes@ == routes@,
            r.default_model@ == default_model@,
    {
        ModelRouter { routes, default_model }
    }

    /// Resolve which model to use based on the message content: the first
    /// route one of whose keywords occurs case-insensitively in the
    /// message wins; no match gives the default model.
    #[verifier::loop_isolation(false)]
    pub fn resolve_model<'a>(&'a self, message: &str) -> (r: &'a str)
        ensures
            r@ == resolve_spec(view_routes(self.routes@), self.default_model@, lower_of(message@)),
    {
        let lowered = crate::text::lowercase(message);
        let lv = crate::text::chars_of(lowered.as_str());
        let ghost rs = view_routes(self.routes@);
        proof {
            assert(rs.subrange(0, rs.len() as int) =~= rs);
        }
        let mut n: usize = 0;
        while n < self.routes.len()
            invariant
                n <= self.routes@.len(),
                rs == view_routes(self.routes@),
                lv@ == lower_of(message@),
                resolve_spec(rs, self.default_model@, lv@) == resolve_spec(
                    rs.subrange(n as int, rs.len() as int),
                    self.default_model@,
                    lv@,
                ),
                forall|i: int| 0 <= i < n ==> !route_matches(rs[i], lv@),
            decreases self.routes@.len() - n,
        {
            let route = &self.routes[n];
            let mut m: usize = 0;
            while m < route.keywords.len()
                invariant
                    n < self.routes@.len(),
                    m <= route.keywords@.len(),
                    rs == view_routes(self.routes@),
                    route == self.routes@[n as int],
                    lv@ == lower_of(message@),
                    forall|i: int|
                        0 <= i < m ==> !contains_seq(lv@, lower_of(rs[n as int].keywords[i])),
                decreases route.keywords@.len() - m,
            {
                let kw_lower = crate::text::lowercase(route.keywords[m].as_str());
                let kv = crate::text::chars_of(kw_lower.as_str());
                if crate::text::contains_chars(&lv, &kv) {
                    proof {
                        assert(rs[n as int].keywords[m as int] == route.keywords@[m as int]@);
                        assert(route_matches(rs[n as int], lv@));
                        let tail = rs.subrange(n as int, rs.len() as int);
                        assert(tail[0] == rs[n as int]);
                        assert(resolve_spec(tail, self.default_model@, lv@) == rs[n as int].model);
                    }
                    return route.model.as_str();
                }
                m += 1;
            }
            proof {
                assert(forall|i: int|
                    0 <= i < rs[n as int].keywords.len() ==> !contains_seq(
                        lv@,
                        lower_of(rs[n as int].keywords[i]),
                    ));
                assert(!route_matches(rs[n as int], lv@));
                let tail = rs.subrange(n as int, rs.len() as int);
                assert(tail[0] == rs[n as int]);
                assert(tail.drop_first() =~= rs.subrange(n + 1, rs.len() as int));
            }
            n += 1;
        }
        proof {
            assert(rs.subrange(rs.len() as int, rs.len() as int) =~= Seq::<ModelRouteV>::empty());
        }
        self.default_model.as_str()
    }

    /// Whether routing is enabled: any routes are configured.
    pub fn has_routes(&self) -> (r: bool)
        ensures
            r == (self.routes@.len() > 0),
    {
        self.routes.len() > 0
    }
}

} // verus!
