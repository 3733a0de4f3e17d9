//! The tenant authorization store: for each guild, the ordered list of
//! service names that the guild may operate.

use std::collections::HashMap;
use vstd::prelude::*;

verus! {

broadcast use vstd::std_specs::hash::group_hash_axioms;

/// The names held in a list of service strings.
pub open spec fn names_of(l: Seq<String>) -> Seq<Seq<char>> {
    l.map_values(|s: String| s@)
}

/// Whether guild `tenant` may operate `service` under the allow-lists `m`:
/// an exact, case-sensitive match in the guild's list.
pub open spec fn allowed(m: Map<u64, Seq<Seq<char>>>, tenant: u64, service: Seq<char>) -> bool {
    m.contains_key(tenant) && m[tenant].contains(service)
}

/// The allow-lists after `service` is appended to the list of `tenant`,
/// which is created if absent.
pub open spec fn added(m: Map<u64, Seq<Seq<char>>>, tenant: u64, service: Seq<char>) -> Map<
    u64,
    Seq<Seq<char>>,
> {
    if m.contains_key(tenant) {
        m.insert(tenant, m[tenant].push(service))
    } else {
        m.insert(tenant, seq![service])
    }
}

/// The allow-lists that a run of adds makes from an empty store, in order.
pub open spec fn replayed(adds: Seq<(u64, Seq<char>)>) -> Map<u64, Seq<Seq<char>>>
    decreases adds.len(),
{
    if adds.len() == 0 {
        Map::empty()
    } else {
        added(replayed(adds.drop_last()), adds.last().0, adds.last().1)
    }
}

/// The allow-lists after each of `services` is appended to the list of
/// `tenant`, in order.
pub open spec fn added_all(m: Map<u64, Seq<Seq<char>>>, tenant: u64, services: Seq<Seq<char>>) -> Map<
    u64,
    Seq<Seq<char>>,
>
    decreases services.len(),
{
    if services.len() == 0 {
        m
    } else {
        added(added_all(m, tenant, services.drop_last()), tenant, services.last())
    }
}

/// Once added, a service stays allowed for its guild, and an add grants
/// nothing beyond its own guild and service.
pub proof fn lemma_added_allowed(m: Map<u64, Seq<Seq<char>>>, tenant: u64, service: Seq<char>, t: u64, s: Seq<char>)
    ensures
        allowed(added(m, tenant, service), t, s) <==> (allowed(m, t, s) || (t == tenant && s
            == service)),
{
    if m.contains_key(tenant) {
        let l = m[tenant].push(service);
        if t == tenant && m[tenant].contains(s) {
            let i = choose|i: int| 0 <= i < m[tenant].len() && m[tenant][i] == s;
            assert(l[i] == s);
        }
        if t == tenant && l.contains(s) && s != service {
            let i = choose|i: int| 0 <= i < l.len() && l[i] == s;
            assert(m[tenant][i] == s);
        }
        assert(l[l.len() - 1] == service);
    } else {
        assert(seq![service][0] == service);
    }
}

/// A guild may operate a service exactly when some add gave it that
/// service: never-added services are refused, added ones are allowed.
pub proof fn lemma_allowed_iff_added(adds: Seq<(u64, Seq<char>)>, t: u64, s: Seq<char>)
    ensures
        allowed(replayed(adds), t, s) <==> adds.contains((t, s)),
    decreases adds.len(),
{
    if adds.len() > 0 {
        let p = adds.drop_last();
        lemma_allowed_iff_added(p, t, s);
        lemma_added_allowed(replayed(p), adds.last().0, adds.last().1, t, s);
        if p.contains((t, s)) {
            let i = choose|i: int| 0 <= i < p.len() && p[i] == (t, s);
            assert(adds[i] == (t, s));
        }
        if adds.contains((t, s)) && adds.last() != (t, s) {
            let i = choose|i: int| 0 <= i < adds.len() && adds[i] == (t, s);
            assert(p[i] == (t, s));
        }
        assert(adds[adds.len() - 1] == adds.last());
    }
}

/// After a run of adds to one guild, every service of the run is allowed
/// there, and everything allowed before still is: no add is lost.
pub proof fn lemma_adds_keep_all(m: Map<u64, Seq<Seq<char>>>, tenant: u64, services: Seq<Seq<char>>)
    ensures
        forall|i: int| 0 <= i < services.len() ==> allowed(added_all(m, tenant, services), tenant, #[trigger] services[i]),
        forall|t: u64, s: Seq<char>| allowed(m, t, s) ==> #[trigger] allowed(added_all(m, tenant, services), t, s),
    decreases services.len(),
{
    if services.len() > 0 {
        let p = services.drop_last();
        lemma_adds_keep_all(m, tenant, p);
        let before = added_all(m, tenant, p);
        assert forall|t: u64, s: Seq<char>| allowed(before, t, s) implies #[trigger] allowed(added(before, tenant, services.last()), t, s) by {
            lemma_added_allowed(before, tenant, services.last(), t, s);
        }
        assert forall|i: int| 0 <= i < services.len() implies allowed(added_all(m, tenant, services), tenant, #[trigger] services[i]) by {
            lemma_added_allowed(before, tenant, services.last(), tenant, services[i]);
            if i < p.len() {
                assert(p[i] == services[i]);
            }
        }
    }
}

/// The allow-lists of every guild, kept together with the order in which
/// guilds first received a service.
pub struct ServersCfg {
    servers_services: HashMap<u64, Vec<String>>,
    tenants: Vec<u64>,
}

impl View for ServersCfg {
    type V = Map<u64, Seq<Seq<char>>>;

    closed spec fn view(&self) -> Map<u64, Seq<Seq<char>>> {
        self.servers_services@.map_values(|l: Vec<String>| names_of(l@))
    }
}

impl ServersCfg {
    /// The guilds that hold a list, each once, in the order they were added.
    pub closed spec fn tenant_order(&self) -> Seq<u64> {
        self.tenants@
    }

    /// The guild order lists exactly the guilds of the store, once each.
    pub closed spec fn wf(&self) -> bool {
        &&& self.tenants@.no_duplicates()
        &&& forall|t: u64|
            self.servers_services@.contains_key(t) <==> #[trigger] self.tenants@.contains(t)
    }

    /// Facts that every well-formed store shows through its view.
    pub proof fn lemma_wf_view(&self)
        requires
            self.wf(),
        ensures
            self.tenant_order().no_duplicates(),
            forall|t: u64| self@.contains_key(t) <==> #[trigger] self.tenant_order().contains(t),
    {
    }

    /// An empty store: no guild may operate anything.
    pub fn new() -> (r: Self)
        ensures
            r.wf(),
            r@ == Map::<u64, Seq<Seq<char>>>::empty(),
            r.tenant_order() == Seq::<u64>::empty(),
    {
        let r = ServersCfg { servers_services: HashMap::new(), tenants: Vec::new() };
        assert(r@ =~= Map::<u64, Seq<Seq<char>>>::empty());
        r
    }

    /// Appends `service` to the list of `tenant`, creating the list if the
    /// guild has none. Duplicates are kept. Returns whether the list was
    /// created.
    pub fn add(&mut self, tenant: u64, service: String) -> (created: bool)
        requires
            old(self).wf(),
        ensures
            final(self).wf(),
            final(self)@ == added(old(self)@, tenant, service@),
            created == !old(self)@.contains_key(tenant),
            final(self).tenant_order() == if created {
                old(self).tenant_order().push(tenant)
            } else {
                old(self).tenant_order()
            },
    {
        let created = !self.servers_services.contains_key(&tenant);
        let mut list = match self.servers_services.remove(&tenant) {
            Some(l) => l,
            None => Vec::new(),
        };
        list.push(service);
        self.servers_services.insert(tenant, list);
        if created {
            self.tenants.push(tenant);
        }
        proof {
            let m = old(self)@;
            let n = if created {
                m.insert(tenant, seq![service@])
            } else {
                m.insert(tenant, m[tenant].push(service@))
            };
            assert(names_of(list@) =~= n[tenant]);
            assert(self@ =~= added(m, tenant, service@));
            if created {
                let o = old(self).tenants@;
                assert(!o.contains(tenant));
                assert forall|i: int, j: int|
                    0 <= i < self.tenants@.len() && 0 <= j < self.tenants@.len() && i != j
                        implies self.tenants@[i] != self.tenants@[j] by {
                    if i == o.len() {
                        assert(o[j] == self.tenants@[j]);
                    } else if j == o.len() {
                        assert(o[i] == self.tenants@[i]);
                    }
                }
            }
            assert forall|t: u64|
                self.servers_services@.contains_key(t) <==> #[trigger] self.tenants@.contains(
                    t,
                ) by {
                if created {
                    assert(self.tenants@.last() == tenant);
                    if old(self).tenants@.contains(t) {
                        let i = choose|i: int|
                            0 <= i < old(self).tenants@.len() && old(self).tenants@[i] == t;
                        assert(self.tenants@[i] == t);
                    }
                    if self.tenants@.contains(t) && t != tenant {
                        let i = choose|i: int|
                            0 <= i < self.tenants@.len() && self.tenants@[i] == t;
                        assert(old(self).tenants@[i] == t);
                    }
                }
            }
        }
        created
    }

    /// Gives guild `tenant`, which has no list yet, the list `list`.
    pub(crate) fn insert_new(&mut self, tenant: u64, list: Vec<String>)
        requires
            old(self).wf(),
            !old(self)@.contains_key(tenant),
        ensures
            final(self).wf(),
            final(self)@ == old(self)@.insert(tenant, names_of(list@)),
            final(self).tenant_order() == old(self).tenant_order().push(tenant),
    {
        self.servers_services.insert(tenant, list);
        self.tenants.push(tenant);
        proof {
            let o = old(self).tenants@;
            assert(self@ =~= old(self)@.insert(tenant, names_of(list@)));
            assert(!o.contains(tenant));
            assert forall|i: int, j: int|
                0 <= i < self.tenants@.len() && 0 <= j < self.tenants@.len() && i != j
                    implies self.tenants@[i] != self.tenants@[j] by {
                if i == o.len() {
                    assert(o[j] == self.tenants@[j]);
                } else if j == o.len() {
                    assert(o[i] == self.tenants@[i]);
                }
            }
            assert forall|t: u64|
                self.servers_services@.contains_key(t) <==> #[trigger] self.tenants@.contains(
                    t,
                ) by {
                if o.contains(t) {
                    let i = choose|i: int| 0 <= i < o.len() && o[i] == t;
                    assert(self.tenants@[i] == t);
                }
                if self.tenants@.contains(t) && t != tenant {
                    let i = choose|i: int| 0 <= i < self.tenants@.len() && self.tenants@[i] == t;
                    assert(o[i] == t);
                }
                if t == tenant {
                    assert(self.tenants@[o.len() as int] == t);
                }
            }
        }
    }

    /// Takes back the last service appended to the list of `tenant`; where
    /// that append created the list (`created`), the list goes with it.
    pub fn retract(&mut self, tenant: u64, created: bool)
        requires
            old(self).wf(),
            old(self)@.contains_key(tenant),
            old(self)@[tenant].len() > 0,
            created ==> old(self)@[tenant].len() == 1,
            created ==> old(self).tenant_order().len() > 0 && old(self).tenant_order().last()
                == tenant,
        ensures
            final(self).wf(),
            final(self)@ == if created {
                old(self)@.remove(tenant)
            } else {
                old(self)@.insert(tenant, old(self)@[tenant].drop_last())
            },
            final(self).tenant_order() == if created {
                old(self).tenant_order().drop_last()
            } else {
                old(self).tenant_order()
            },
    {
        let ghost m = self@;
        let ghost order = self.tenants@;
        match self.servers_services.remove(&tenant) {
            Some(mut list) => {
                assert(names_of(list@) == m[tenant]);
                if created {
                    self.tenants.pop();
                    proof {
                        assert(self@ =~= m.remove(tenant));
                        assert forall|t: u64|
                            self.servers_services@.contains_key(t)
                                <==> #[trigger] self.tenants@.contains(t) by {
                            assert(order =~= self.tenants@.push(tenant));
                            if order.contains(t) && t != tenant {
                                let i = choose|i: int| 0 <= i < order.len() && order[i] == t;
                                assert(self.tenants@[i] == t);
                            }
                            if t == tenant {
                                assert(!self.tenants@.contains(t)) by {
                                    if self.tenants@.contains(t) {
                                        let i = choose|i: int|
                                            0 <= i < self.tenants@.len() && self.tenants@[i] == t;
                                        assert(order[i] == order[order.len() - 1]);
                                    }
                                }
                            }
                        }
                    }
                } else {
                    list.pop();
                    self.servers_services.insert(tenant, list);
                    assert(names_of(list@) =~= m[tenant].drop_last());
                    assert(self@ =~= m.insert(tenant, m[tenant].drop_last()));
                }
            },
            None => {},
        }
    }

    /// The list of `tenant`, in the order its services were added, or
    /// `None` where the guild has no list.
    pub fn services_of(&self, tenant: u64) -> (r: Option<&Vec<String>>)
        ensures
            r is Some <==> self@.contains_key(tenant),
            r matches Some(l) ==> names_of(l@) == self@[tenant],
    {
        self.servers_services.get(&tenant)
    }

    /// The guilds that hold a list, each once, in the order they were added.
    pub fn tenant_ids(&self) -> (r: &Vec<u64>)
        ensures
            r@ == self.tenant_order(),
    {
        &self.tenants
    }
}

/// Whether guild `id` may operate `service`.
pub fn allowed_service(cfg: &ServersCfg, id: u64, service: &str) -> (r: bool)
    ensures
        r == allowed(cfg@, id, service@),
{
    let want = service.to_owned();
    match cfg.services_of(id) {
        None => false,
        Some(list) => {
            let mut i: usize = 0;
            while i < list.len()
                invariant
                    0 <= i <= list@.len(),
                    cfg@.contains_key(id),
                    names_of(list@) == cfg@[id],
                    want@ == service@,
                    forall|j: int| 0 <= j < i ==> list@[j]@ != service@,
                decreases list@.len() - i,
            {
                if list[i] == want {
                    assert(cfg@[id][i as int] == service@);
                    return true;
                }
                i = i + 1;
            }
            assert(!cfg@[id].contains(service@)) by {
                if cfg@[id].contains(service@) {
                    let j = choose|j: int| 0 <= j < cfg@[id].len() && cfg@[id][j] == service@;
                    assert(list@[j]@ == service@);
                }
            }
            false
        },
    }
}

} // verus!
