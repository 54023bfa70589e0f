//! The table that maps a virtual host to the backend that serves it.

use vstd::prelude::*;
use vstd::string::StringSliceAdditionalSpecFns;

verus! {

/// The host name of the fallback route: `*`.
pub open spec fn wildcard_host() -> Seq<u8> {
    seq![0x2au8]
}

/// The backend that a table `m` gives `host`: its own entry, else the
/// fallback entry, else none.
pub open spec fn route_of(m: Map<Seq<u8>, Seq<char>>, host: Seq<u8>) -> Option<Seq<char>> {
    if m.contains_key(host) {
        Some(m[host])
    } else if m.contains_key(wildcard_host()) {
        Some(m[wildcard_host()])
    } else {
        None
    }
}

/// The map that the routes `s` make, a later route for a host replacing an
/// earlier one.
pub open spec fn routes_map(s: Seq<(Seq<u8>, Seq<char>)>) -> Map<Seq<u8>, Seq<char>>
    decreases s.len(),
{
    if s.len() == 0 {
        Map::empty()
    } else {
        routes_map(s.drop_last()).insert(s.last().0, s.last().1)
    }
}

/// Routes added after the first `i` name hosts other than `k`: they leave
/// what the map says of `k` as the first `i` routes have it.
proof fn lemma_routes_after(s: Seq<(Seq<u8>, Seq<char>)>, i: int, k: Seq<u8>)
    requires
        0 <= i <= s.len(),
        forall|j: int| i <= j < s.len() ==> (#[trigger] s[j]).0 != k,
    ensures
        routes_map(s).contains_key(k) == routes_map(s.take(i)).contains_key(k),
        routes_map(s).contains_key(k) ==> routes_map(s)[k] == routes_map(s.take(i))[k],
    decreases s.len(),
{
    if s.len() == i {
        assert(s.take(i) =~= s);
    } else {
        let pre = s.drop_last();
        assert(pre.take(i) =~= s.take(i));
        assert(forall|j: int| i <= j < pre.len() ==> pre[j] == s[j]);
        lemma_routes_after(pre, i, k);
    }
}

/// One route: a host name and the backend address it leads to.
pub struct Route {
    host: Vec<u8>,
    backend: String,
}

/// An immutable-once-built set of routes. A host name maps to one backend;
/// the host `*` is the fallback for names that have no route of their own.
pub struct RouteTable {
    routes: Vec<Route>,
}

impl RouteTable {
    /// The routes as pairs of host bytes and backend address.
    pub closed spec fn pairs(&self) -> Seq<(Seq<u8>, Seq<char>)> {
        self.routes@.map_values(|r: Route| (r.host@, r.backend@))
    }
}

impl View for RouteTable {
    type V = Map<Seq<u8>, Seq<char>>;

    open spec fn view(&self) -> Map<Seq<u8>, Seq<char>> {
        routes_map(self.pairs())
    }
}

/// Whether `a` and `b` hold the same bytes.
fn same_bytes(a: &[u8], b: &[u8]) -> (r: bool)
    ensures
        r == (a@ == b@),
{
    if a.len() != b.len() {
        return false;
    }
    let mut i: usize = 0;
    while i < a.len()
        invariant
            a@.len() == b@.len(),
            i <= a@.len(),
            forall|j: int| 0 <= j < i ==> a@[j] == b@[j],
        decreases a@.len() - i,
    {
        if a[i] != b[i] {
            return false;
        }
        i = i + 1;
    }
    assert(a@ =~= b@);
    true
}

impl RouteTable {
    /// A table with no routes.
    pub fn new() -> (r: RouteTable)
        ensures
            r@ == Map::<Seq<u8>, Seq<char>>::empty(),
    {
        let r = RouteTable { routes: Vec::new() };
        assert(r.pairs() =~= Seq::<(Seq<u8>, Seq<char>)>::empty());
        r
    }

    /// Routes `host` to `backend`, replacing any route it had. The host `*`
    /// sets the fallback.
    pub fn insert(&mut self, host: &str, backend: String)
        ensures
            final(self)@ == old(self)@.insert(host.spec_bytes(), backend@),
    {
        let bytes = host.as_bytes();
        let mut key: Vec<u8> = Vec::new();
        let mut i: usize = 0;
        while i < bytes.len()
            invariant
                i <= bytes@.len(),
                key@ == bytes@.subrange(0, i as int),
            decreases bytes@.len() - i,
        {
            key.push(bytes[i]);
            i = i + 1;
            assert(key@ =~= bytes@.subrange(0, i as int));
        }
        assert(bytes@.subrange(0, i as int) =~= bytes@);
        let ghost before = self.pairs();
        let ghost pair = (key@, backend@);
        self.routes.push(Route { host: key, backend });
        assert(self.pairs().drop_last() =~= before);
        assert(self.pairs().last() == pair);
    }

    /// The backend for `host`: its own route if it has one, else the
    /// fallback route if there is one, else none.
    pub fn route(&self, host: &[u8]) -> (r: Option<String>)
        ensures
            self@.contains_key(host@) ==> r is Some && r->Some_0@ == self@[host@],
            !self@.contains_key(host@) && self@.contains_key(wildcard_host()) ==> r is Some
                && r->Some_0@ == self@[wildcard_host()],
            !self@.contains_key(host@) && !self@.contains_key(wildcard_host()) ==> r is None,
            match (r, route_of(self@, host@)) {
                (Some(b), Some(sb)) => b@ == sb,
                (None, None) => true,
                _ => false,
            },
    {
        match self.find(host) {
            Some(b) => Some(b),
            None => {
                let star: [u8; 1] = [0x2a];
                assert(star@ =~= wildcard_host());
                self.find(star.as_slice())
            },
        }
    }

    /// The backend that `host` itself maps to.
    fn find(&self, host: &[u8]) -> (r: Option<String>)
        ensures
            self@.contains_key(host@) ==> r is Some && r->Some_0@ == self@[host@],
            !self@.contains_key(host@) ==> r is None,
    {
        let ghost s = self.pairs();
        let mut i: usize = self.routes.len();
        while i > 0
            invariant
                i <= self.routes@.len(),
                s == self.pairs(),
                s.len() == self.routes@.len(),
                forall|j: int| i <= j < s.len() ==> (#[trigger] s[j]).0 != host@,
            decreases i,
        {
            let r = &self.routes[i - 1];
            if same_bytes(r.host.as_slice(), host) {
                proof {
                    lemma_routes_after(s, i as int, host@);
                    assert(s.take(i as int).drop_last() =~= s.take(i - 1));
                    assert(s.take(i as int).last() == s[i - 1]);
                }
                return Some(r.backend.clone());
            }
            i = i - 1;
        }
        proof {
            lemma_routes_after(s, 0, host@);
            assert(s.take(0) =~= Seq::<(Seq<u8>, Seq<char>)>::empty());
        }
        None
    }
}

} // verus!
