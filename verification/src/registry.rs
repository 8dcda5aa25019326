//! The endpoint registry: an immutable mapping from literal route path to
//! endpoint definition, built once at startup and then only read.  Lookup
//! is exact string match, with no normalization of any kind.

use vstd::prelude::*;
use crate::json::listing_of;
use crate::json::listing_entries;
use crate::json::entry_of;
use crate::json::escape_string;

verus! {

/// One configured endpoint: the route path it is reachable under, the
/// command and arguments to run, a human-readable description, and the
/// response-header overrides in configuration order.
pub struct Endpoint {
    pub name: String,
    pub command: String,
    pub args: Vec<String>,
    pub description: String,
    pub headers: Vec<(String, String)>,
}

/// The registry of configured endpoints, in registration order.
pub struct Registry {
    endpoints: Vec<Endpoint>,
}

impl Registry {
    /// The registered endpoints, in order.
    pub closed spec fn entries(self) -> Seq<Endpoint> {
        self.endpoints@
    }

    /// Route paths are unique: no two entries share a name.
    pub open spec fn wf(self) -> bool {
        forall|i: int, j: int|
            0 <= i < j < self.entries().len() ==> self.entries()[i].name@
                != self.entries()[j].name@
    }

    /// Every route name paired with its description, in order.
    pub open spec fn pairs(self) -> Seq<(Seq<char>, Seq<char>)> {
        self.entries().map_values(|e: Endpoint| (e.name@, e.description@))
    }

    /// Whether some entry is registered under `path`.
    pub open spec fn has_route(self, path: Seq<char>) -> bool {
        exists|i: int| 0 <= i < self.entries().len() && self.entries()[i].name@ == path
    }

    pub fn new() -> (r: Registry)
        ensures
            r.entries() =~= Seq::<Endpoint>::empty(),
            r.wf(),
    {
        Registry { endpoints: Vec::new() }
    }

    /// Adds `e` unless its route path is already taken; returns whether it
    /// was added.  Uniqueness of route paths is preserved either way.
    pub fn register(&mut self, e: Endpoint) -> (added: bool)
        requires
            old(self).wf(),
        ensures
            added == !old(self).has_route(e.name@),
            added ==> final(self).entries() == old(self).entries().push(e),
            !added ==> final(self).entries() == old(self).entries(),
            final(self).wf(),
    {
        let n = self.endpoints.len();
        let mut i: usize = 0;
        while i < n
            invariant
                i <= n,
                old(self).wf(),
                self.entries() == old(self).entries(),
                n == self.entries().len(),
                forall|k: int| 0 <= k < i ==> self.entries()[k].name@ != e.name@,
            decreases n - i,
        {
            if self.endpoints[i].name.eq(&e.name) {
                proof {
                    assert(self.entries()[i as int].name@ == e.name@);
                    assert(self.has_route(e.name@));
                    assert forall|a: int, b: int|
                        0 <= a < b < self.entries().len() implies self.entries()[a].name@
                        != self.entries()[b].name@ by {
                        assert(self.entries()[a] == old(self).entries()[a]);
                        assert(self.entries()[b] == old(self).entries()[b]);
                    }
                }
                return false;
            }
            i = i + 1;
        }
        self.endpoints.push(e);
        true
    }

    pub fn len(&self) -> (r: usize)
        ensures
            r == self.entries().len(),
    {
        self.endpoints.len()
    }

    pub fn endpoint_at(&self, i: usize) -> (r: &Endpoint)
        requires
            i < self.entries().len(),
        ensures
            *r == self.entries()[i as int],
    {
        &self.endpoints[i]
    }

    /// Exact-match lookup: the index of the entry registered under `path`,
    /// if there is one.
    pub fn resolve(&self, path: &String) -> (r: Option<usize>)
        ensures
            match r {
                Option::Some(i) => i < self.entries().len() && self.entries()[i as int].name@
                    == path@,
                Option::None => !self.has_route(path@),
            },
    {
        let n = self.endpoints.len();
        let mut i: usize = 0;
        while i < n
            invariant
                i <= n,
                n == self.entries().len(),
                forall|k: int| 0 <= k < i ==> self.entries()[k].name@ != path@,
            decreases n - i,
        {
            if self.endpoints[i].name.eq(path) {
                return Option::Some(i);
            }
            i = i + 1;
        }
        Option::None
    }

    /// The introspection body: a JSON object of every route name mapped to
    /// its description, in registration order.
    pub fn listing_body(&self) -> (r: String)
        ensures
            r@ == listing_of(self.pairs()),
    {
        let mut s = String::from_str("{");
        let ghost ps = self.pairs();
        let n = self.endpoints.len();
        let mut i: usize = 0;
        while i < n
            invariant
                i <= n,
                n == self.entries().len(),
                ps == self.pairs(),
                s@ == "{"@ + listing_entries(ps.take(i as int)),
            decreases n - i,
        {
            if i > 0 {
                s.append(",");
            }
            s.append("\"");
            let en = escape_string(&self.endpoints[i].name);
            s.append(en.as_str());
            s.append("\":\"");
            let ed = escape_string(&self.endpoints[i].description);
            s.append(ed.as_str());
            s.append("\"");
            proof {
                assert(ps[i as int] == (self.entries()[i as int].name@,
                self.entries()[i as int].description@));
                if i == 0 {
                    assert(ps.take(1)[0] == ps[0]);
                    assert(listing_entries(ps.take(1)) == entry_of(ps[0].0, ps[0].1));
                    assert(s@ =~= "{"@ + listing_entries(ps.take(1)));
                } else {
                    assert(ps.take(i as int + 1).drop_last() =~= ps.take(i as int));
                    assert(ps.take(i as int + 1).last() == ps[i as int]);
                    assert(s@ =~= "{"@ + listing_entries(ps.take(i as int + 1)));
                }
            }
            i = i + 1;
        }
        proof {
            assert(ps.take(n as int) =~= ps);
        }
        s.append("}");
        proof {
            assert(s@ =~= listing_of(ps));
        }
        s
    }
}

} // verus!
