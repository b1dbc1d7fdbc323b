//! The service registry: every cluster under its id, and the operations of
//! the discovery protocol on it. One lock held by the caller guards the whole
//! registry; every operation here runs under it.

use vstd::prelude::*;

use crate::affiliate::{record_of, AffiliateModel};
use vstd::string::StringExecFns;

use crate::cluster::{
    expiration_for, full_state, lemma_members_from_listing, lemma_records_to_infos,
    lists_exactly, lists_records, live_at, members_from, records_of, records_of_vec, swept,
    ttl_accepted, ClusterSnapshot, Subscription, TalosCluster,
};
use crate::protocol::{
    check_update_limits, identifier_fits, identifier_within_limit, infos_of, within_limits,
    AffiliateDeleteRequest, AffiliateUpdateRequest, Code, EventModel, HelloResponse,
    ListRequest, ListResponse, Status, WatchRequest,
};
use crate::time::{now, Timestamp};

verus! {

/// `s` holds the clusters of `m`: each once, under its own id, each well
/// formed.
pub open spec fn lists_clusters(s: Seq<TalosCluster>, m: Map<Seq<char>, TalosCluster>) -> bool {
    &&& forall|i: int|
        0 <= i < s.len() ==> #[trigger] m.contains_key(s[i].cluster_id()) && m[s[i].cluster_id()]
            == s[i] && s[i].wf()
    &&& forall|k: Seq<char>| #[trigger]
        m.contains_key(k) ==> exists|i: int| 0 <= i < s.len() && (#[trigger] s[i]).cluster_id() == k
    &&& forall|i: int, j: int|
        0 <= i < j < s.len() ==> (#[trigger] s[i]).cluster_id() != (#[trigger] s[j]).cluster_id()
}

/// Each cluster of `m` is well formed and stored under its own id.
pub open spec fn keyed_by_id(m: Map<Seq<char>, TalosCluster>) -> bool {
    forall|k: Seq<char>| #[trigger] m.contains_key(k) ==> m[k].cluster_id() == k && m[k].wf()
}

/// The membership of cluster `k` in `m`, empty where there is no such cluster.
pub open spec fn members_or_empty(m: Map<Seq<char>, TalosCluster>, k: Seq<char>) -> Map<
    Seq<char>,
    AffiliateModel,
> {
    if m.contains_key(k) {
        m[k].members()
    } else {
        Map::empty()
    }
}

/// The events published by cluster `k` of `m`, none where there is no such
/// cluster.
pub open spec fn published_or_none(m: Map<Seq<char>, TalosCluster>, k: Seq<char>) -> Seq<
    crate::protocol::EventModel,
> {
    if m.contains_key(k) {
        m[k].published()
    } else {
        Seq::empty()
    }
}

/// `after` is `before` with the update `request` applied, its record
/// expiring at `expiration`: the cluster exists (created if it did not), the
/// record is stored under its id, one full-state event was published on that
/// cluster, and no other cluster changed.
pub open spec fn update_applied(
    before: Map<Seq<char>, TalosCluster>,
    after: Map<Seq<char>, TalosCluster>,
    request: &AffiliateUpdateRequest,
    expiration: Timestamp,
) -> bool {
    let cid = request.cluster_id@;
    &&& after.dom() == before.dom().insert(cid)
    &&& forall|k: Seq<char>| #[trigger] before.contains_key(k) && k != cid ==> after[k] == before[k]
    &&& after[cid].members() == members_or_empty(before, cid).insert(
        request.affiliate_id@,
        record_of(request, expiration),
    )
    &&& after[cid].published().len() == published_or_none(before, cid).len() + 1
    &&& after[cid].published().drop_last() == published_or_none(before, cid)
    &&& full_state(after[cid].published().last(), after[cid].members())
}

/// Replacing a cluster of a listing by one with the same id keeps it a
/// listing.
proof fn lemma_replace_cluster(
    s: Seq<TalosCluster>,
    m: Map<Seq<char>, TalosCluster>,
    i: int,
    c: TalosCluster,
)
    requires
        lists_clusters(s, m),
        0 <= i < s.len(),
        c.cluster_id() == s[i].cluster_id(),
        c.wf(),
    ensures
        lists_clusters(s.update(i, c), m.insert(c.cluster_id(), c)),
{
    let t = s.update(i, c);
    let n = m.insert(c.cluster_id(), c);
    assert forall|j: int| 0 <= j < t.len() && j != i implies (#[trigger] t[j]).cluster_id()
        != c.cluster_id() && t[j] == s[j] by {
        if j < i {
            assert(s[j].cluster_id() != s[i].cluster_id());
        } else {
            assert(s[i].cluster_id() != s[j].cluster_id());
        }
    }
    assert forall|k: Seq<char>| #[trigger] n.contains_key(k) implies exists|j: int|
        0 <= j < t.len() && (#[trigger] t[j]).cluster_id() == k by {
        if k == c.cluster_id() {
            assert(t[i].cluster_id() == k);
        } else {
            let j = choose|j: int| 0 <= j < s.len() && (#[trigger] s[j]).cluster_id() == k;
            assert(t[j].cluster_id() == k);
        }
    }
    assert forall|a: int, b: int| 0 <= a < b < t.len() implies (#[trigger] t[a]).cluster_id() != (
    #[trigger] t[b]).cluster_id() by {
        if a != i && b != i {
            assert(s[a].cluster_id() != s[b].cluster_id());
        }
    }
}

/// Appending a cluster with a new id to a listing keeps it a listing.
proof fn lemma_push_cluster(s: Seq<TalosCluster>, m: Map<Seq<char>, TalosCluster>, c: TalosCluster)
    requires
        lists_clusters(s, m),
        !m.contains_key(c.cluster_id()),
        c.wf(),
    ensures
        lists_clusters(s.push(c), m.insert(c.cluster_id(), c)),
{
    let t = s.push(c);
    let n = m.insert(c.cluster_id(), c);
    assert forall|j: int| 0 <= j < s.len() implies (#[trigger] t[j]).cluster_id() != c.cluster_id()
        && t[j] == s[j] by {
        assert(m.contains_key(s[j].cluster_id()));
    }
    assert forall|k: Seq<char>| #[trigger] n.contains_key(k) implies exists|j: int|
        0 <= j < t.len() && (#[trigger] t[j]).cluster_id() == k by {
        if k == c.cluster_id() {
            assert(t[s.len() as int].cluster_id() == k);
        } else {
            let j = choose|j: int| 0 <= j < s.len() && (#[trigger] s[j]).cluster_id() == k;
            assert(t[j].cluster_id() == k);
        }
    }
    assert forall|a: int, b: int| 0 <= a < b < t.len() implies (#[trigger] t[a]).cluster_id() != (
    #[trigger] t[b]).cluster_id() by {
        if b < s.len() {
            assert(s[a].cluster_id() != s[b].cluster_id());
        }
    }
}

/// `after` is `before` with affiliate `aid` deleted from cluster `cid`,
/// which exists: if the affiliate was there, it is gone and one full-state
/// event was published on the cluster; otherwise nothing changed.
pub open spec fn delete_applied(
    before: Map<Seq<char>, TalosCluster>,
    after: Map<Seq<char>, TalosCluster>,
    cid: Seq<char>,
    aid: Seq<char>,
) -> bool {
    &&& after.dom() == before.dom()
    &&& forall|k: Seq<char>| #[trigger] before.contains_key(k) && k != cid ==> after[k] == before[k]
    &&& before[cid].members().contains_key(aid) ==> {
        &&& after[cid].members() == before[cid].members().remove(aid)
        &&& after[cid].published().len() == before[cid].published().len() + 1
        &&& after[cid].published().drop_last() == before[cid].published()
        &&& full_state(after[cid].published().last(), after[cid].members())
    }
    &&& !before[cid].members().contains_key(aid) ==> after[cid] == before[cid]
}

/// `after` is `before` after one collection at `now`: every cluster was
/// swept, and exactly those left with no live member were dropped.
pub open spec fn gc_applied(
    before: Map<Seq<char>, TalosCluster>,
    after: Map<Seq<char>, TalosCluster>,
    now: Timestamp,
) -> bool {
    &&& forall|k: Seq<char>| #[trigger]
        after.contains_key(k) <==> before.contains_key(k) && live_at(before[k].members(), now)
            != Map::<Seq<char>, AffiliateModel>::empty()
    &&& forall|k: Seq<char>| #[trigger] after.contains_key(k) ==> swept(before[k], after[k], now)
}

/// The membership of every cluster of `m`.
pub open spec fn memberships(m: Map<Seq<char>, TalosCluster>) -> Map<
    Seq<char>,
    Map<Seq<char>, AffiliateModel>,
> {
    Map::new(|k: Seq<char>| m.contains_key(k), |k: Seq<char>| m[k].members())
}

/// `s` is a snapshot of `m`: each cluster once, with the records of its
/// members.
pub open spec fn snapshot_lists(s: Seq<ClusterSnapshot>, m: Map<Seq<char>, TalosCluster>) -> bool {
    &&& forall|i: int|
        0 <= i < s.len() ==> #[trigger] m.contains_key(s[i].id@) && lists_records(
            records_of_vec(s[i].affiliates@),
            m[s[i].id@].members(),
        )
    &&& forall|k: Seq<char>| #[trigger]
        m.contains_key(k) ==> exists|i: int| 0 <= i < s.len() && (#[trigger] s[i]).id@ == k
    &&& forall|i: int, j: int| 0 <= i < j < s.len() ==> (#[trigger] s[i]).id@ != (#[trigger] s[j]).id@
}

/// The memberships that restoring the clusters of `s`, in order, over
/// `base` gives; a later cluster replaces an earlier one with the same id.
pub open spec fn restored(
    base: Map<Seq<char>, Map<Seq<char>, AffiliateModel>>,
    s: Seq<ClusterSnapshot>,
) -> Map<Seq<char>, Map<Seq<char>, AffiliateModel>>
    decreases s.len(),
{
    if s.len() == 0 {
        base
    } else {
        restored(base, s.drop_last()).insert(
            s.last().id@,
            members_from(records_of_vec(s.last().affiliates@)),
        )
    }
}

/// Restoring into an empty registry a snapshot of a registry gives back the
/// membership of each of its clusters: the same clusters, and in each the
/// same records (ids, payloads, endpoints and expirations).
pub proof fn lemma_backup_round_trip(s: Seq<ClusterSnapshot>, m: Map<Seq<char>, TalosCluster>)
    requires
        snapshot_lists(s, m),
    ensures
        restored(Map::empty(), s) == memberships(m),
    decreases s.len(),
{
    if s.len() == 0 {
        assert forall|k: Seq<char>| !#[trigger] m.contains_key(k) by {
            if m.contains_key(k) {
                let i = choose|i: int| 0 <= i < s.len() && (#[trigger] s[i]).id@ == k;
            }
        }
        assert(memberships(m) =~= Map::empty());
    } else {
        let d = s.drop_last();
        let x = s.last();
        let md = m.remove(x.id@);
        assert(m.contains_key(s[s.len() - 1].id@));
        assert forall|i: int| 0 <= i < d.len() implies #[trigger] md.contains_key(d[i].id@)
            && lists_records(records_of_vec(d[i].affiliates@), md[d[i].id@].members()) by {
            assert(d[i] == s[i]);
            assert(s[i].id@ != s[s.len() - 1].id@);
            assert(m.contains_key(s[i].id@));
        }
        assert forall|k: Seq<char>| #[trigger] md.contains_key(k) implies exists|i: int|
            0 <= i < d.len() && (#[trigger] d[i]).id@ == k by {
            let i = choose|i: int| 0 <= i < s.len() && (#[trigger] s[i]).id@ == k;
            assert(i != s.len() - 1);
            assert(d[i] == s[i]);
        }
        assert forall|i: int, j: int| 0 <= i < j < d.len() implies (#[trigger] d[i]).id@ != (
        #[trigger] d[j]).id@ by {
            assert(d[i] == s[i] && d[j] == s[j]);
        }
        lemma_backup_round_trip(d, md);
        lemma_members_from_listing(records_of_vec(x.affiliates@), m[x.id@].members());
        assert(memberships(md).insert(x.id@, members_from(records_of_vec(x.affiliates@)))
            =~= memberships(m));
    }
}

/// A collection at `now` leaves no record that had expired by `now`. With
/// collections one interval apart, a record is therefore gone at most one
/// interval after its expiration (unless an update stored it again, with a
/// later expiration).
pub proof fn lemma_collection_removes_expired(
    before: Map<Seq<char>, TalosCluster>,
    after: Map<Seq<char>, TalosCluster>,
    now: Timestamp,
)
    requires
        gc_applied(before, after, now),
    ensures
        forall|k: Seq<char>, id: Seq<char>|
            after.contains_key(k) && #[trigger] after[k].members().contains_key(id)
                ==> !after[k].members()[id].expired_at(now),
        forall|k: Seq<char>, id: Seq<char>|
            before.contains_key(k) && #[trigger] before[k].members().contains_key(id)
                && before[k].members()[id].expired_at(now) ==> !(after.contains_key(k)
                && after[k].members().contains_key(id)),
{
    assert forall|k: Seq<char>, id: Seq<char>|
        after.contains_key(k) && #[trigger] after[k].members().contains_key(id) implies !after[k].members()[id].expired_at(
        now,
    ) by {
        assert(swept(before[k], after[k], now));
    }
    assert forall|k: Seq<char>, id: Seq<char>|
        before.contains_key(k) && #[trigger] before[k].members().contains_key(id)
            && before[k].members()[id].expired_at(now) implies !(after.contains_key(k)
        && after[k].members().contains_key(id)) by {
        if after.contains_key(k) {
            assert(swept(before[k], after[k], now));
        }
    }
}

/// After a collection every cluster left in the registry has a member: a
/// cluster that the collection left empty is gone.
pub proof fn lemma_collection_drops_empty_clusters(
    before: Map<Seq<char>, TalosCluster>,
    after: Map<Seq<char>, TalosCluster>,
    now: Timestamp,
)
    requires
        gc_applied(before, after, now),
    ensures
        forall|k: Seq<char>| #[trigger] after.contains_key(k) ==> after[k].members() != Map::<
            Seq<char>,
            AffiliateModel,
        >::empty(),
        forall|k: Seq<char>|
            before.contains_key(k) && live_at(#[trigger] before[k].members(), now) == Map::<
                Seq<char>,
                AffiliateModel,
            >::empty() ==> !after.contains_key(k),
{
    assert forall|k: Seq<char>| #[trigger] after.contains_key(k) implies after[k].members() != Map::<
        Seq<char>,
        AffiliateModel,
    >::empty() by {
        assert(swept(before[k], after[k], now));
    }
}

/// An accepted update publishes exactly one event on its cluster: a
/// full-state event that holds the new record.
pub proof fn lemma_update_publishes_record(
    before: Map<Seq<char>, TalosCluster>,
    after: Map<Seq<char>, TalosCluster>,
    request: &AffiliateUpdateRequest,
    expiration: Timestamp,
)
    requires
        update_applied(before, after, request, expiration),
    ensures
        after[request.cluster_id@].published().len() == published_or_none(
            before,
            request.cluster_id@,
        ).len() + 1,
        after[request.cluster_id@].published().drop_last() == published_or_none(
            before,
            request.cluster_id@,
        ),
        !after[request.cluster_id@].published().last().deleted,
        exists|i: int|
            0 <= i < after[request.cluster_id@].published().last().affiliates.len()
                && after[request.cluster_id@].published().last().affiliates[i] == record_of(
                request,
                expiration,
            ).info(),
{
    let c = after[request.cluster_id@];
    let e = c.published().last();
    let aid = request.affiliate_id@;
    assert(c.members().contains_key(aid));
    let i = choose|i: int| 0 <= i < e.affiliates.len() && (#[trigger] e.affiliates[i]).id == aid;
    assert(c.members().contains_key(e.affiliates[i].id));
}

/// The message of the error for a cluster that does not exist.
fn cluster_not_found(cluster_id: &String) -> (r: Status)
    ensures
        r.code == Code::NotFound,
{
    let mut message = "Cluster ID ".to_owned();
    message.append(cluster_id.as_str());
    message.append(" not found");
    Status::not_found(message)
}

/// Answers a greeting with the address the caller was seen from, as 4 or 16
/// bytes in network order; fails where that address is unknown.
pub fn hello(peer_ip: Option<Vec<u8>>) -> (r: Result<HelloResponse, Status>)
    ensures
        r is Err <==> peer_ip is None,
        r matches Err(e) ==> e.code == Code::InvalidArgument,
        r matches Ok(resp) ==> resp.redirect is None && resp.client_ip@ == peer_ip->0@,
{
    match peer_ip {
        Some(ip) => Ok(HelloResponse { redirect: None, client_ip: ip }),
        None => Err(Status::invalid_argument("Couldn't parse IP address")),
    }
}

/// Every cluster of the service under its id.
pub struct Registry {
    clusters: Vec<TalosCluster>,
    index: Ghost<Map<Seq<char>, TalosCluster>>,
}

impl Registry {
    /// The clusters, each under its id.
    pub closed spec fn clusters(&self) -> Map<Seq<char>, TalosCluster> {
        self.index@
    }

    pub closed spec fn wf(&self) -> bool {
        lists_clusters(self.clusters@, self.index@)
    }

    /// In a well-formed registry every cluster is well formed and stored
    /// under its own id.
    pub proof fn lemma_keyed_by_id(&self)
        requires
            self.wf(),
        ensures
            keyed_by_id(self.clusters()),
    {
        assert forall|k: Seq<char>| #[trigger] self.index@.contains_key(k) implies self.index@[k].cluster_id()
            == k && self.index@[k].wf() by {
            let i = choose|i: int|
                0 <= i < self.clusters@.len() && (#[trigger] self.clusters@[i]).cluster_id() == k;
        }
    }

    pub fn new() -> (r: Registry)
        ensures
            r.wf(),
            r.clusters() == Map::<Seq<char>, TalosCluster>::empty(),
    {
        Registry { clusters: Vec::new(), index: Ghost(Map::empty()) }
    }

    fn position_of(&self, cluster_id: &String) -> (r: Option<usize>)
        requires
            self.wf(),
        ensures
            r matches Some(i) ==> i < self.clusters@.len() && self.clusters@[i as int].cluster_id()
                == cluster_id@ && self.clusters()[cluster_id@] == self.clusters@[i as int]
                && self.clusters().contains_key(cluster_id@),
            r is None ==> !self.clusters().contains_key(cluster_id@),
    {
        let n = self.clusters.len();
        let mut i: usize = 0;
        while i < n
            invariant
                self.wf(),
                n == self.clusters@.len(),
                i <= n,
                forall|j: int| 0 <= j < i ==> (#[trigger] self.clusters@[j]).cluster_id()
                    != cluster_id@,
            decreases n - i,
        {
            if *self.clusters[i].id() == *cluster_id {
                assert(self.index@.contains_key(self.clusters@[i as int].cluster_id()));
                return Some(i);
            }
            i = i + 1;
        }
        proof {
            if self.index@.contains_key(cluster_id@) {
                let j = choose|j: int|
                    0 <= j < self.clusters@.len() && (#[trigger] self.clusters@[j]).cluster_id()
                        == cluster_id@;
            }
        }
        None
    }

    /// The cluster stored under `cluster_id`, if any.
    pub fn get_cluster(&self, cluster_id: &String) -> (r: Option<&TalosCluster>)
        requires
            self.wf(),
        ensures
            r is Some <==> self.clusters().contains_key(cluster_id@),
            r matches Some(c) ==> *c == self.clusters()[cluster_id@],
    {
        match self.position_of(cluster_id) {
            Some(i) => Some(&self.clusters[i]),
            None => None,
        }
    }

    /// The position of the cluster stored under `cluster_id`, created empty
    /// if there is none.
    fn get_or_create_cluster(&mut self, cluster_id: String) -> (r: usize)
        requires
            old(self).wf(),
        ensures
            final(self).wf(),
            r < final(self).clusters@.len(),
            final(self).clusters@[r as int].cluster_id() == cluster_id@,
            old(self).clusters().contains_key(cluster_id@) ==> final(self).clusters() == old(self).clusters(),
            !old(self).clusters().contains_key(cluster_id@) ==> final(self).clusters() == old(self).clusters().insert(cluster_id@, final(self).clusters@[r as int])
                && final(self).clusters@[r as int].members() == Map::<
                Seq<char>,
                AffiliateModel,
            >::empty() && final(self).clusters@[r as int].published() == Seq::<
                crate::protocol::EventModel,
            >::empty(),
            final(self).clusters().contains_key(cluster_id@),
            final(self).clusters()[cluster_id@] == final(self).clusters@[r as int],
    {
        match self.position_of(&cluster_id) {
            Some(i) => i,
            None => {
                let cluster = TalosCluster::new(cluster_id);
                let ghost c = cluster;
                proof {
                    lemma_push_cluster(self.clusters@, self.index@, c);
                }
                self.clusters.push(cluster);
                self.index = Ghost(self.index@.insert(c.cluster_id(), c));
                self.clusters.len() - 1
            },
        }
    }

    /// Stores the record of `request`, received at `now`, in its cluster,
    /// creating the cluster if it does not exist yet. Where the update fails
    /// nothing changes: a cluster that did not exist is not created.
    fn update_clusters_at(&mut self, request: &AffiliateUpdateRequest, now: Timestamp) -> (r:
        Result<(), Status>)
        requires
            old(self).wf(),
        ensures
            final(self).wf(),
            r is Ok <==> ttl_accepted(request.ttl, now),
            r is Ok ==> update_applied(
                old(self).clusters(),
                final(self).clusters(),
                request,
                expiration_for(now, request.ttl->0),
            ),
            r is Err ==> final(self).clusters() == old(self).clusters() && r->Err_0.code
                == Code::InvalidArgument,
    {
        let ghost before = self.index@;
        let ghost cid = request.cluster_id@;
        match self.position_of(&request.cluster_id) {
            Some(i) => {
                let ghost s = self.clusters@;
                let r = self.clusters[i].add_affiliate_at(request, now);
                proof {
                    let c = self.clusters@[i as int];
                    if r is Ok {
                        lemma_replace_cluster(s, before, i as int, c);
                        assert(self.clusters@ == s.update(i as int, c));
                    } else {
                        assert(self.clusters@ =~= s);
                    }
                }
                if r.is_ok() {
                    self.index = Ghost(self.index@.insert(cid, self.clusters@[i as int]));
                    assert(self.index@.dom() =~= before.dom().insert(cid));
                }
                r
            },
            None => {
                let mut cluster = TalosCluster::new(request.cluster_id.clone());
                match cluster.add_affiliate_at(request, now) {
                    Ok(()) => {},
                    Err(e) => {
                        return Err(e);
                    },
                }
                let ghost c = cluster;
                proof {
                    lemma_push_cluster(self.clusters@, self.index@, c);
                }
                self.clusters.push(cluster);
                self.index = Ghost(self.index@.insert(cid, c));
                assert(self.index@.dom() =~= before.dom().insert(cid));
                assert(Seq::<crate::protocol::EventModel>::empty().push(c.published().last())
                    =~= c.published());
                Ok(())
            },
        }
    }

    /// Handles an affiliate update received at `now`: checks the size and TTL
    /// caps, then stores the record and publishes the new membership of its
    /// cluster.
    pub fn affiliate_update_at(&mut self, request: AffiliateUpdateRequest, now: Timestamp) -> (r:
        Result<(), Status>)
        requires
            old(self).wf(),
        ensures
            final(self).wf(),
            r is Ok <==> within_limits(&request) && ttl_accepted(request.ttl, now),
            r is Ok ==> update_applied(
                old(self).clusters(),
                final(self).clusters(),
                &request,
                expiration_for(now, request.ttl->0),
            ),
            r is Err ==> final(self).clusters() == old(self).clusters() && r->Err_0.code
                == Code::InvalidArgument,
    {
        check_update_limits(&request)?;
        self.update_clusters_at(&request, now)
    }

    /// Handles an affiliate update at the current wall-clock time.
    pub fn affiliate_update(&mut self, request: AffiliateUpdateRequest) -> (r: Result<(), Status>)
        requires
            old(self).wf(),
        ensures
            final(self).wf(),
            !within_limits(&request) ==> r is Err,
            !(request.ttl matches Some(t) && crate::protocol::ttl_acceptable(t)) ==> r is Err,
            r is Ok ==> exists|now: Timestamp|
                now.wf() && ttl_accepted(request.ttl, now) && update_applied(
                    old(self).clusters(),
                    final(self).clusters(),
                    &request,
                    expiration_for(now, request.ttl->0),
                ),
            r is Err ==> final(self).clusters() == old(self).clusters() && r->Err_0.code
                == Code::InvalidArgument,
    {
        match now() {
            Some(t) => self.affiliate_update_at(request, t),
            None => {
                check_update_limits(&request)?;
                Err(Status::invalid_argument("system clock reads before the Unix epoch"))
            },
        }
    }

    /// Handles an affiliate deletion: the cluster must exist; the affiliate
    /// need not. Where it was there, the remaining membership is published.
    /// The cluster stays even if it is now empty.
    pub fn affiliate_delete(&mut self, request: AffiliateDeleteRequest) -> (r: Result<(), Status>)
        requires
            old(self).wf(),
        ensures
            final(self).wf(),
            r is Err <==> !old(self).clusters().contains_key(request.cluster_id@),
            r is Err ==> final(self).clusters() == old(self).clusters() && r->Err_0.code
                == Code::NotFound,
            r is Ok ==> delete_applied(
                old(self).clusters(),
                final(self).clusters(),
                request.cluster_id@,
                request.affiliate_id@,
            ),
    {
        let ghost before = self.index@;
        let ghost cid = request.cluster_id@;
        match self.position_of(&request.cluster_id) {
            None => Err(cluster_not_found(&request.cluster_id)),
            Some(i) => {
                let ghost s = self.clusters@;
                let present = self.clusters[i].get_affiliate(&request.affiliate_id).is_some();
                if present {
                    let _ = self.clusters[i].delete_affiliate(&request.affiliate_id);
                    self.clusters[i].broadcast_affiliate_states();
                    let ghost c = self.clusters@[i as int];
                    proof {
                        assert(self.clusters@ =~= s.update(i as int, c));
                        lemma_replace_cluster(s, before, i as int, c);
                    }
                    self.index = Ghost(self.index@.insert(cid, c));
                    assert(self.index@.dom() =~= before.dom());
                } else {
                    assert(self.index@.dom() =~= before.dom());
                }
                Ok(())
            },
        }
    }

    /// Handles a listing: the membership of one existing cluster, in no
    /// particular order.
    pub fn list(&self, request: ListRequest) -> (r: Result<ListResponse, Status>)
        requires
            self.wf(),
        ensures
            !identifier_fits(request.cluster_id@) ==> (r matches Err(e) && e.code
                == Code::InvalidArgument),
            identifier_fits(request.cluster_id@) && !self.clusters().contains_key(
                request.cluster_id@,
            ) ==> (r matches Err(e) && e.code == Code::NotFound),
            identifier_fits(request.cluster_id@) && self.clusters().contains_key(
                request.cluster_id@,
            ) ==> (r matches Ok(resp) && lists_exactly(
                infos_of(resp.affiliates@),
                self.clusters()[request.cluster_id@].members(),
            )),
    {
        if !identifier_within_limit(&request.cluster_id) {
            return Err(Status::invalid_argument("maximum identifier length exceeded"));
        }
        match self.position_of(&request.cluster_id) {
            None => Err(cluster_not_found(&request.cluster_id)),
            Some(i) => {
                let cluster = &self.clusters[i];
                let affiliates = cluster.get_affiliates();
                let response = cluster.convert_watch_response(affiliates);
                proof {
                    lemma_records_to_infos(records_of(affiliates@), cluster.members());
                }
                Ok(ListResponse { affiliates: response.affiliates })
            },
        }
    }

    /// Handles a watch: creates the cluster if needed and subscribes to it.
    /// The first event is the membership at this moment; later events follow
    /// in the order they are published.
    pub fn watch(&mut self, request: WatchRequest) -> (r: Result<Subscription, Status>)
        requires
            old(self).wf(),
        ensures
            final(self).wf(),
            r is Err <==> !identifier_fits(request.cluster_id@),
            r is Err ==> final(self).clusters() == old(self).clusters() && r->Err_0.code
                == Code::InvalidArgument,
            r is Ok ==> final(self).clusters().contains_key(request.cluster_id@),
            r is Ok && old(self).clusters().contains_key(request.cluster_id@) ==> final(self).clusters() == old(self).clusters(),
            r is Ok && !old(self).clusters().contains_key(request.cluster_id@) ==> final(self).clusters() == old(self).clusters().insert(
                request.cluster_id@,
                final(self).clusters()[request.cluster_id@],
            ) && final(self).clusters()[request.cluster_id@].members() == Map::<
                Seq<char>,
                AffiliateModel,
            >::empty() && final(self).clusters()[request.cluster_id@].published() == Seq::<
                EventModel,
            >::empty(),
            r matches Ok(sub) ==> full_state(
                sub.initial@,
                final(self).clusters()[request.cluster_id@].members(),
            ),
    {
        if !identifier_within_limit(&request.cluster_id) {
            return Err(Status::invalid_argument("maximum identifier length exceeded"));
        }
        let i = self.get_or_create_cluster(request.cluster_id);
        Ok(self.clusters[i].subscribe())
    }

    /// One collection at `now`: sweeps every cluster, then drops the clusters
    /// left with no member.
    pub fn run_gc_at(&mut self, now: Timestamp)
        requires
            old(self).wf(),
        ensures
            final(self).wf(),
            gc_applied(old(self).clusters(), final(self).clusters(), now),
    {
        let ghost m0 = self.index@;
        let ghost orig = self.clusters@;
        let mut pending: Vec<TalosCluster> = Vec::new();
        std::mem::swap(&mut self.clusters, &mut pending);
        self.index = Ghost(Map::empty());
        let n = pending.len();
        assert(pending@.take(n as int) =~= orig);
        while pending.len() > 0
            invariant
                n == orig.len(),
                pending@.len() <= n,
                pending@ == orig.take(pending@.len() as int),
                lists_clusters(orig, m0),
                lists_clusters(self.clusters@, self.index@),
                forall|k: Seq<char>| #[trigger]
                    self.index@.contains_key(k) ==> exists|j: int|
                        pending@.len() <= j < n && (#[trigger] orig[j]).cluster_id() == k,
                forall|k: Seq<char>| #[trigger]
                    self.index@.contains_key(k) ==> m0.contains_key(k) && live_at(
                        m0[k].members(),
                        now,
                    ) != Map::<Seq<char>, AffiliateModel>::empty() && swept(
                        m0[k],
                        self.index@[k],
                        now,
                    ),
                forall|j: int|
                    pending@.len() <= j < n && live_at((#[trigger] orig[j]).members(), now)
                        != Map::<Seq<char>, AffiliateModel>::empty() ==> self.index@.contains_key(
                        orig[j].cluster_id(),
                    ),
            decreases pending@.len(),
        {
            let ghost j = pending@.len() - 1;
            let ghost rest = pending@.drop_last();
            let mut c = pending.pop().unwrap();
            assert(c == orig[j]);
            assert(rest =~= orig.take(j));
            assert(m0.contains_key(orig[j].cluster_id()));
            let ghost k = orig[j].cluster_id();
            c.run_gc_at(now);
            if !c.has_affiliates() {
                proof {
                    if self.index@.contains_key(k) {
                        let j2 = choose|j2: int|
                            pending@.len() + 1 <= j2 < n && (#[trigger] orig[j2]).cluster_id()
                                == k;
                        assert(orig[j].cluster_id() != orig[j2].cluster_id());
                    }
                    lemma_push_cluster(self.clusters@, self.index@, c);
                }
                self.index = Ghost(self.index@.insert(k, c));
                self.clusters.push(c);
            }
            proof {
                assert forall|k2: Seq<char>| #[trigger] self.index@.contains_key(k2) implies exists|j2: int|
                    pending@.len() <= j2 < n && (#[trigger] orig[j2]).cluster_id() == k2 by {
                    if k2 == k {
                        assert(orig[j].cluster_id() == k2);
                    }
                }
            }
        }
        proof {
            assert forall|k: Seq<char>| #[trigger] m0.contains_key(k) && live_at(m0[k].members(), now)
                != Map::<Seq<char>, AffiliateModel>::empty() implies self.index@.contains_key(k) by {
                let j = choose|j: int| 0 <= j < orig.len() && (#[trigger] orig[j]).cluster_id() == k;
                assert(m0.contains_key(orig[j].cluster_id()));
            }
        }
    }

    /// One collection at the current wall-clock time; nothing changes while
    /// the clock reads before the Unix epoch.
    pub fn run_gc(&mut self)
        requires
            old(self).wf(),
        ensures
            final(self).wf(),
            final(self).clusters() == old(self).clusters() || exists|now: Timestamp|
                gc_applied(old(self).clusters(), final(self).clusters(), now),
    {
        match now() {
            Some(t) => self.run_gc_at(t),
            None => {},
        }
    }

    /// Every cluster in its persisted form.
    pub fn snapshot(&self) -> (r: Vec<ClusterSnapshot>)
        requires
            self.wf(),
        ensures
            snapshot_lists(r@, self.clusters()),
    {
        let mut out: Vec<ClusterSnapshot> = Vec::with_capacity(self.clusters.len());
        let n = self.clusters.len();
        let mut i: usize = 0;
        while i < n
            invariant
                self.wf(),
                n == self.clusters@.len(),
                i <= n,
                out@.len() == i,
                forall|j: int|
                    0 <= j < i ==> (#[trigger] out@[j]).id@ == self.clusters@[j].cluster_id()
                        && lists_records(
                        records_of_vec(out@[j].affiliates@),
                        self.clusters@[j].members(),
                    ),
            decreases n - i,
        {
            assert(self.index@.contains_key(self.clusters@[i as int].cluster_id()));
            out.push(self.clusters[i].to_snapshot());
            i = i + 1;
        }
        proof {
            let s = self.clusters@;
            let m = self.index@;
            assert forall|j: int| 0 <= j < out@.len() implies #[trigger] m.contains_key(out@[j].id@)
                && lists_records(records_of_vec(out@[j].affiliates@), m[out@[j].id@].members()) by {
                assert(m.contains_key(s[j].cluster_id()));
            }
            assert forall|k: Seq<char>| #[trigger] m.contains_key(k) implies exists|j: int|
                0 <= j < out@.len() && (#[trigger] out@[j]).id@ == k by {
                let j = choose|j: int| 0 <= j < s.len() && (#[trigger] s[j]).cluster_id() == k;
                assert(out@[j].id@ == k);
            }
            assert forall|a: int, b: int| 0 <= a < b < out@.len() implies (#[trigger] out@[a]).id@
                != (#[trigger] out@[b]).id@ by {
                assert(s[a].cluster_id() != s[b].cluster_id());
            }
        }
        out
    }

    /// Stores `cluster` under its id, replacing any cluster stored there.
    fn insert_cluster(&mut self, cluster: TalosCluster)
        requires
            old(self).wf(),
            cluster.wf(),
        ensures
            final(self).wf(),
            final(self).clusters() == old(self).clusters().insert(cluster.cluster_id(), cluster),
    {
        let ghost c = cluster;
        match self.position_of(cluster.id()) {
            Some(i) => {
                let ghost s = self.clusters@;
                proof {
                    lemma_replace_cluster(s, self.index@, i as int, c);
                }
                self.clusters[i] = cluster;
            },
            None => {
                proof {
                    lemma_push_cluster(self.clusters@, self.index@, c);
                }
                self.clusters.push(cluster);
            },
        }
        self.index = Ghost(self.index@.insert(c.cluster_id(), c));
    }

    /// Restores persisted clusters, each under its own id, replacing any
    /// cluster already there. Records are taken as they are: expired ones
    /// are left for the next collection.
    pub fn import_backup(&mut self, clusters: Vec<ClusterSnapshot>)
        requires
            old(self).wf(),
        ensures
            final(self).wf(),
            memberships(final(self).clusters()) == restored(
                memberships(old(self).clusters()),
                clusters@,
            ),
    {
        let ghost base = memberships(self.index@);
        let n = clusters.len();
        let mut i: usize = 0;
        while i < n
            invariant
                n == clusters@.len(),
                i <= n,
                self.wf(),
                memberships(self.index@) == restored(base, clusters@.take(i as int)),
            decreases n - i,
        {
            let cluster = TalosCluster::from_snapshot(&clusters[i]);
            let ghost before = self.index@;
            self.insert_cluster(cluster);
            proof {
                let t = clusters@.take(i as int + 1);
                assert(t.drop_last() =~= clusters@.take(i as int));
                assert(t.last() == clusters@[i as int]);
                assert(memberships(self.index@) =~= memberships(before).insert(
                    clusters@[i as int].id@,
                    members_from(records_of_vec(clusters@[i as int].affiliates@)),
                ));
            }
            i = i + 1;
        }
        assert(clusters@.take(n as int) =~= clusters@);
    }
}

} // verus!
