//! One cluster: its affiliates keyed by id, and the hub that feeds its
//! watchers.

use tokio::sync::broadcast::{Receiver, Sender};
use vstd::prelude::*;

use crate::affiliate::{record_of, Affiliate, AffiliateModel};
use crate::dump::{cluster_text, describe_cluster};
use crate::hub::{hub_send, hub_subscribe, new_hub};
use crate::protocol::{
    infos_of, ttl_acceptable, AffiliateInfo, AffiliateUpdateRequest, Code, EventModel, InfoModel,
    Status, Ttl, WatchResponse, MAX_TTL_SECONDS,
};
use crate::time::{now, Timestamp};

verus! {

/// Capacity of a cluster's hub and of each watcher's queue, in events.
pub const BUFFER_SIZE: usize = 64;

/// `s` lists the records of `m`: each member once, under its own id.
pub open spec fn lists_records(s: Seq<AffiliateModel>, m: Map<Seq<char>, AffiliateModel>) -> bool {
    &&& forall|i: int| 0 <= i < s.len() ==> #[trigger] m.contains_key(s[i].id) && m[s[i].id] == s[i]
    &&& forall|k: Seq<char>| #[trigger]
        m.contains_key(k) ==> exists|i: int| 0 <= i < s.len() && (#[trigger] s[i]).id == k
    &&& forall|i: int, j: int| 0 <= i < j < s.len() ==> (#[trigger] s[i]).id != (#[trigger] s[j]).id
}

/// `infos` lists the membership `m` as clients see it: each member once.
pub open spec fn lists_exactly(infos: Seq<InfoModel>, m: Map<Seq<char>, AffiliateModel>) -> bool {
    &&& forall|i: int|
        0 <= i < infos.len() ==> #[trigger] m.contains_key(infos[i].id) && m[infos[i].id].info()
            == infos[i]
    &&& forall|k: Seq<char>| #[trigger]
        m.contains_key(k) ==> exists|i: int| 0 <= i < infos.len() && (#[trigger] infos[i]).id == k
    &&& forall|i: int, j: int|
        0 <= i < j < infos.len() ==> (#[trigger] infos[i]).id != (#[trigger] infos[j]).id
}

/// A full-state event: the whole membership `m`, not a deletion.
pub open spec fn full_state(e: EventModel, m: Map<Seq<char>, AffiliateModel>) -> bool {
    !e.deleted && lists_exactly(e.affiliates, m)
}

pub open spec fn records_of(v: Seq<&Affiliate>) -> Seq<AffiliateModel> {
    v.map_values(|a: &Affiliate| a@)
}

pub open spec fn infos_of_records(s: Seq<AffiliateModel>) -> Seq<InfoModel> {
    s.map_values(|a: AffiliateModel| a.info())
}

/// An update with this TTL, received at `now`, is accepted.
pub open spec fn ttl_accepted(ttl: Option<Ttl>, now: Timestamp) -> bool {
    ttl matches Some(t) && ttl_acceptable(t) && now.can_add(t.seconds as u64, t.nanos as u32)
}

/// When a record whose update carried `t` and arrived at `now` expires.
pub open spec fn expiration_for(now: Timestamp, t: Ttl) -> Timestamp {
    now.plus(t.seconds as int, t.nanos as int)
}

/// The members of `m` that have not expired at `now`.
pub open spec fn live_at(m: Map<Seq<char>, AffiliateModel>, now: Timestamp) -> Map<
    Seq<char>,
    AffiliateModel,
> {
    Map::new(|k: Seq<char>| m.contains_key(k) && !m[k].expired_at(now), |k: Seq<char>| m[k])
}

/// The members of `m` that have expired at `now`.
pub open spec fn expired_members(m: Map<Seq<char>, AffiliateModel>, now: Timestamp) -> Map<
    Seq<char>,
    AffiliateModel,
> {
    Map::new(|k: Seq<char>| m.contains_key(k) && m[k].expired_at(now), |k: Seq<char>| m[k])
}

pub open spec fn records_of_vec(v: Seq<Affiliate>) -> Seq<AffiliateModel> {
    v.map_values(|a: Affiliate| a@)
}

/// Records that list a membership, written as clients see them, list it
/// exactly.
pub proof fn lemma_records_to_infos(s: Seq<AffiliateModel>, m: Map<Seq<char>, AffiliateModel>)
    requires
        lists_records(s, m),
    ensures
        lists_exactly(infos_of_records(s), m),
{
    let infos = infos_of_records(s);
    assert forall|k: Seq<char>| #[trigger] m.contains_key(k) implies exists|i: int|
        0 <= i < infos.len() && (#[trigger] infos[i]).id == k by {
        let i = choose|i: int| 0 <= i < s.len() && (#[trigger] s[i]).id == k;
        assert(infos[i].id == k);
    }
    assert forall|i: int, j: int| 0 <= i < j < infos.len() implies (#[trigger] infos[i]).id != (
    #[trigger] infos[j]).id by {
        assert(s[i].id != s[j].id);
    }
}

/// Whether a record is still live at `now`.
pub open spec fn is_live(now: Timestamp) -> spec_fn(AffiliateModel) -> bool {
    |a: AffiliateModel| !a.expired_at(now)
}

/// Whether a record has expired at `now`.
pub open spec fn is_expired(now: Timestamp) -> spec_fn(AffiliateModel) -> bool {
    |a: AffiliateModel| a.expired_at(now)
}

/// Keeping some records of a sequence with distinct ids keeps the ids
/// distinct.
proof fn lemma_filter_distinct_ids(s: Seq<AffiliateModel>, p: spec_fn(AffiliateModel) -> bool)
    requires
        forall|i: int, j: int| 0 <= i < j < s.len() ==> (#[trigger] s[i]).id != (#[trigger] s[j]).id,
    ensures
        forall|i: int, j: int|
            0 <= i < j < s.filter(p).len() ==> (#[trigger] s.filter(p)[i]).id != (
            #[trigger] s.filter(p)[j]).id,
    decreases s.len(),
{
    if s.len() > 0 {
        let d = s.drop_last();
        let x = s.last();
        assert forall|i: int, j: int| 0 <= i < j < d.len() implies (#[trigger] d[i]).id != (
        #[trigger] d[j]).id by {
            assert(d[i] == s[i] && d[j] == s[j]);
        }
        lemma_filter_distinct_ids(d, p);
        let fd = d.filter(p);
        reveal(Seq::filter);
        assert(s.filter(p) == if p(x) {
            fd.push(x)
        } else {
            fd
        });
        if p(x) {
            let f = fd.push(x);
            assert forall|j: int| 0 <= j < fd.len() implies (#[trigger] fd[j]).id != x.id by {
                assert(fd.contains(fd[j]));
                d.lemma_filter_contains_rev(p, fd[j]);
                let k = choose|k: int| 0 <= k < d.len() && d[k] == fd[j];
                assert(s[k] == d[k]);
                assert(s[k].id != s[s.len() - 1].id);
            }
            assert forall|i: int, j: int| 0 <= i < j < f.len() implies (#[trigger] f[i]).id != (
            #[trigger] f[j]).id by {
                assert(f[i] == fd[i]);
                if j < fd.len() {
                    assert(f[j] == fd[j]);
                }
            }
        }
    }
}

/// Keeping the records of `m` that satisfy `p` lists the members of `m`
/// that satisfy it.
proof fn lemma_filter_lists_records(
    s: Seq<AffiliateModel>,
    m: Map<Seq<char>, AffiliateModel>,
    p: spec_fn(AffiliateModel) -> bool,
)
    requires
        lists_records(s, m),
    ensures
        lists_records(
            s.filter(p),
            Map::new(|k: Seq<char>| m.contains_key(k) && p(m[k]), |k: Seq<char>| m[k]),
        ),
{
    broadcast use Seq::lemma_filter_pred, Seq::lemma_filter_contains;

    let f = s.filter(p);
    let sub = Map::new(|k: Seq<char>| m.contains_key(k) && p(m[k]), |k: Seq<char>| m[k]);
    lemma_filter_distinct_ids(s, p);
    assert forall|j: int| 0 <= j < f.len() implies #[trigger] sub.contains_key(f[j].id) && sub[f[j].id]
        == f[j] by {
        assert(f.contains(f[j]));
        s.lemma_filter_contains_rev(p, f[j]);
        let k = choose|k: int| 0 <= k < s.len() && s[k] == f[j];
        assert(m.contains_key(s[k].id));
        assert(p(f[j]));
    }
    assert forall|key: Seq<char>| #[trigger] sub.contains_key(key) implies exists|j: int|
        0 <= j < f.len() && (#[trigger] f[j]).id == key by {
        let k = choose|k: int| 0 <= k < s.len() && (#[trigger] s[k]).id == key;
        assert(m.contains_key(s[k].id));
        assert(f.contains(s[k]));
        let j = choose|j: int| 0 <= j < f.len() && f[j] == s[k];
        assert(f[j].id == key);
    }
}

/// `after` is `before` swept at `now`: the expired members are gone and,
/// if there were any, one deletion event listing exactly them was published.
pub open spec fn swept(before: TalosCluster, after: TalosCluster, now: Timestamp) -> bool {
    &&& after.wf()
    &&& after.cluster_id() == before.cluster_id()
    &&& after.members() == live_at(before.members(), now)
    &&& expired_members(before.members(), now) == Map::<Seq<char>, AffiliateModel>::empty()
        ==> after.published() == before.published()
    &&& expired_members(before.members(), now) != Map::<Seq<char>, AffiliateModel>::empty() ==> {
        &&& after.published().len() == before.published().len() + 1
        &&& after.published().drop_last() == before.published()
        &&& after.published().last().deleted
        &&& lists_exactly(after.published().last().affiliates, expired_members(before.members(), now))
    }
}

/// The members that inserting the records of `s` in order gives; a later
/// record replaces an earlier one with the same id.
pub open spec fn members_from(s: Seq<AffiliateModel>) -> Map<Seq<char>, AffiliateModel>
    decreases s.len(),
{
    if s.len() == 0 {
        Map::empty()
    } else {
        members_from(s.drop_last()).insert(s.last().id, s.last())
    }
}

/// Inserting, in order, records that list `m` gives back `m`.
pub proof fn lemma_members_from_listing(s: Seq<AffiliateModel>, m: Map<Seq<char>, AffiliateModel>)
    requires
        lists_records(s, m),
    ensures
        members_from(s) == m,
    decreases s.len(),
{
    if s.len() == 0 {
        assert forall|k: Seq<char>| !#[trigger] m.contains_key(k) by {
            if m.contains_key(k) {
                let i = choose|i: int| 0 <= i < s.len() && (#[trigger] s[i]).id == k;
            }
        }
        assert(m =~= Map::empty());
    } else {
        let d = s.drop_last();
        let x = s.last();
        let md = m.remove(x.id);
        assert(m.contains_key(s[s.len() - 1].id));
        assert forall|i: int| 0 <= i < d.len() implies #[trigger] md.contains_key(d[i].id) && md[d[i].id]
            == d[i] by {
            assert(d[i] == s[i]);
            assert(s[i].id != s[s.len() - 1].id);
            assert(m.contains_key(s[i].id));
        }
        assert forall|k: Seq<char>| #[trigger] md.contains_key(k) implies exists|i: int|
            0 <= i < d.len() && (#[trigger] d[i]).id == k by {
            let i = choose|i: int| 0 <= i < s.len() && (#[trigger] s[i]).id == k;
            assert(i != s.len() - 1);
            assert(d[i] == s[i]);
        }
        assert forall|i: int, j: int| 0 <= i < j < d.len() implies (#[trigger] d[i]).id != (
        #[trigger] d[j]).id by {
            assert(d[i] == s[i] && d[j] == s[j]);
        }
        lemma_members_from_listing(d, md);
        assert(md.insert(x.id, x) =~= m);
    }
}

/// A cluster as persisted: its id and its records. Its hub is not part of
/// it.
pub struct ClusterSnapshot {
    pub id: String,
    pub affiliates: Vec<Affiliate>,
}

/// The value handed to a new watcher: its receiver of live events, and the
/// full-state event it gets first.
pub struct Subscription {
    pub receiver: Receiver<WatchResponse>,
    pub initial: WatchResponse,
}

/// A cluster of affiliates with its watch hub.
pub struct TalosCluster {
    id: String,
    affiliates: Vec<Affiliate>,
    watch_broadcaster: Sender<WatchResponse>,
    members: Ghost<Map<Seq<char>, AffiliateModel>>,
    published: Ghost<Seq<EventModel>>,
}

impl TalosCluster {
    pub closed spec fn cluster_id(&self) -> Seq<char> {
        self.id@
    }

    /// The membership: each affiliate under its id.
    pub closed spec fn members(&self) -> Map<Seq<char>, AffiliateModel> {
        self.members@
    }

    /// Every event handed to the hub so far, oldest first.
    pub closed spec fn published(&self) -> Seq<EventModel> {
        self.published@
    }

    closed spec fn records(&self) -> Seq<AffiliateModel> {
        records_of_vec(self.affiliates@)
    }

    pub closed spec fn wf(&self) -> bool {
        lists_records(self.records(), self.members@)
    }

    pub fn new(cluster_id: String) -> (r: TalosCluster)
        ensures
            r.wf(),
            r.cluster_id() == cluster_id@,
            r.members() == Map::<Seq<char>, AffiliateModel>::empty(),
            r.published() == Seq::<EventModel>::empty(),
    {
        let r = TalosCluster {
            id: cluster_id,
            affiliates: Vec::new(),
            watch_broadcaster: new_hub(BUFFER_SIZE),
            members: Ghost(Map::empty()),
            published: Ghost(Seq::empty()),
        };
        assert(r.records() =~= Seq::<AffiliateModel>::empty());
        r
    }

    pub fn id(&self) -> (r: &String)
        ensures
            r@ == self.cluster_id(),
    {
        &self.id
    }

    fn position_of(&self, affiliate_id: &String) -> (r: Option<usize>)
        requires
            self.wf(),
        ensures
            r matches Some(i) ==> i < self.affiliates@.len() && self.affiliates@[i as int].id@
                == affiliate_id@,
            r is None ==> !self.members().contains_key(affiliate_id@),
    {
        let n = self.affiliates.len();
        let mut i: usize = 0;
        while i < n
            invariant
                n == self.affiliates@.len(),
                i <= n,
                forall|j: int| 0 <= j < i ==> (#[trigger] self.affiliates@[j]).id@ != affiliate_id@,
            decreases n - i,
        {
            if self.affiliates[i].id == *affiliate_id {
                return Some(i);
            }
            i = i + 1;
        }
        proof {
            if self.members@.contains_key(affiliate_id@) {
                let j = choose|j: int|
                    0 <= j < self.records().len() && (#[trigger] self.records()[j]).id
                        == affiliate_id@;
                assert(self.affiliates@[j].id@ == affiliate_id@);
            }
        }
        None
    }

    /// Inserts `a`, replacing the record with the same id if there is one.
    fn upsert(&mut self, a: Affiliate)
        requires
            old(self).wf(),
        ensures
            final(self).wf(),
            final(self).cluster_id() == old(self).cluster_id(),
            final(self).members() == old(self).members().insert(a@.id, a@),
            final(self).published() == old(self).published(),
    {
        let ghost av = a@;
        let ghost old_records = self.records();
        let ghost old_members = self.members@;
        let ghost mut pos: int = 0;
        let ghost mut replaced = false;
        match self.position_of(&a.id) {
            Some(i) => {
                proof {
                    assert(old_records[i as int].id == av.id);
                    replaced = true;
                }
                self.affiliates[i] = a;
                proof {
                    pos = i as int;
                    assert(self.records() =~= old_records.update(pos, av));
                }
            },
            None => {
                assert(!old_members.contains_key(av.id));
                self.affiliates.push(a);
                proof {
                    pos = old_records.len() as int;
                    assert(self.records() =~= old_records.push(av));
                }
            },
        }
        self.members = Ghost(self.members@.insert(av.id, av));
        proof {
            let s = self.records();
            let m = self.members@;
            assert(s[pos] == av);
            assert forall|i: int| 0 <= i < s.len() && i != pos implies s[i] == old_records[i]
                && (#[trigger] s[i]).id != av.id by {
                assert(old_members.contains_key(old_records[i].id));
                if replaced {
                    if i < pos {
                        assert(old_records[i].id != old_records[pos].id);
                    } else {
                        assert(old_records[pos].id != old_records[i].id);
                    }
                }
            }
            assert forall|i: int| 0 <= i < s.len() implies #[trigger] m.contains_key(s[i].id)
                && m[s[i].id] == s[i] by {
                if i != pos {
                    assert(s[i] == old_records[i]);
                }
            }
            assert forall|k: Seq<char>| #[trigger] m.contains_key(k) implies exists|i: int|
                0 <= i < s.len() && (#[trigger] s[i]).id == k by {
                if k == av.id {
                    assert(s[pos].id == k);
                } else {
                    let i = choose|i: int|
                        0 <= i < old_records.len() && (#[trigger] old_records[i]).id == k;
                    assert(s[i].id == k);
                }
            }
            assert forall|i: int, j: int| 0 <= i < j < s.len() implies (#[trigger] s[i]).id != (
            #[trigger] s[j]).id by {
                if i != pos && j != pos {
                    assert(old_records[i].id != old_records[j].id);
                }
            }
        }
    }

    /// The whole membership, in storage order.
    pub fn get_affiliates(&self) -> (r: Vec<&Affiliate>)
        requires
            self.wf(),
        ensures
            lists_records(records_of(r@), self.members()),
    {
        let mut r: Vec<&Affiliate> = Vec::with_capacity(self.affiliates.len());
        let n = self.affiliates.len();
        let mut i: usize = 0;
        while i < n
            invariant
                n == self.affiliates@.len(),
                i <= n,
                r@.len() == i,
                forall|j: int| 0 <= j < i ==> (#[trigger] r@[j])@ == self.affiliates@[j]@,
            decreases n - i,
        {
            r.push(&self.affiliates[i]);
            i = i + 1;
        }
        assert(records_of(r@) =~= self.records());
        r
    }

    /// A full-state event listing `affiliates`.
    pub fn convert_watch_response(&self, affiliates: Vec<&Affiliate>) -> (r: WatchResponse)
        ensures
            !r.deleted,
            infos_of(r.affiliates@) == infos_of_records(records_of(affiliates@)),
    {
        let mut out: Vec<AffiliateInfo> = Vec::with_capacity(affiliates.len());
        let n = affiliates.len();
        let mut i: usize = 0;
        while i < n
            invariant
                n == affiliates@.len(),
                i <= n,
                out@.len() == i,
                forall|j: int| 0 <= j < i ==> (#[trigger] out@[j])@ == affiliates@[j]@.info(),
            decreases n - i,
        {
            out.push(affiliates[i].to_info());
            i = i + 1;
        }
        assert(infos_of(out@) =~= infos_of_records(records_of(affiliates@)));
        WatchResponse { affiliates: out, deleted: false }
    }

    fn send_affiliate_update(&mut self, response: WatchResponse)
        ensures
            final(self).published() == old(self).published().push(response@),
            final(self).members() == old(self).members(),
            final(self).cluster_id() == old(self).cluster_id(),
            final(self).records() == old(self).records(),
    {
        let ghost e = response@;
        hub_send(&self.watch_broadcaster, response);
        self.published = Ghost(self.published@.push(e));
    }

    /// Publishes the whole membership as one full-state event.
    pub fn broadcast_affiliate_states(&mut self)
        requires
            old(self).wf(),
        ensures
            final(self).wf(),
            final(self).cluster_id() == old(self).cluster_id(),
            final(self).members() == old(self).members(),
            final(self).published().len() == old(self).published().len() + 1,
            final(self).published().drop_last() == old(self).published(),
            full_state(final(self).published().last(), final(self).members()),
    {
        let affiliates = self.get_affiliates();
        let response = self.convert_watch_response(affiliates);
        proof {
            lemma_records_to_infos(records_of(affiliates@), self.members@);
        }
        self.send_affiliate_update(response);
        assert(self.published@.drop_last() =~= old(self).published@);
    }

    /// Whether the cluster has no affiliate left.
    pub fn has_affiliates(&self) -> (r: bool)
        requires
            self.wf(),
        ensures
            r == (self.members() == Map::<Seq<char>, AffiliateModel>::empty()),
    {
        let r = self.affiliates.len() == 0;
        proof {
            if r {
                assert forall|k: Seq<char>| !#[trigger] self.members@.contains_key(k) by {
                    if self.members@.contains_key(k) {
                        let i = choose|i: int|
                            0 <= i < self.records().len() && (#[trigger] self.records()[i]).id
                                == k;
                    }
                }
                assert(self.members@ =~= Map::<Seq<char>, AffiliateModel>::empty());
            } else {
                assert(self.members@.contains_key(self.records()[0].id));
            }
        }
        r
    }

    /// Records the update `request` received at `now`, expiring its TTL
    /// later, then publishes the new membership.
    pub fn add_affiliate_at(&mut self, request: &AffiliateUpdateRequest, now: Timestamp) -> (r:
        Result<(), Status>)
        requires
            old(self).wf(),
        ensures
            final(self).wf(),
            final(self).cluster_id() == old(self).cluster_id(),
            r is Ok <==> ttl_accepted(request.ttl, now),
            r is Ok ==> final(self).members() == old(self).members().insert(
                request.affiliate_id@,
                record_of(request, expiration_for(now, request.ttl->0)),
            ),
            r is Ok ==> final(self).published().len() == old(self).published().len() + 1
                && final(self).published().drop_last() == old(self).published() && full_state(
                final(self).published().last(),
                final(self).members(),
            ),
            r is Err ==> *final(self) == *old(self) && r->Err_0.code == Code::InvalidArgument,
    {
        let t = match request.ttl {
            Some(t) => t,
            None => {
                return Err(Status::invalid_argument("Invalid TTL"));
            },
        };
        if t.seconds <= 0 || t.seconds > MAX_TTL_SECONDS {
            return Err(Status::invalid_argument("maximum TTL exceeded"));
        }
        if t.nanos < 0 {
            return Err(Status::invalid_argument("out of range integral type conversion attempted"));
        }
        let expiration = match now.checked_add(t.seconds as u64, t.nanos as u32) {
            Some(e) => e,
            None => {
                return Err(Status::invalid_argument("expiration out of the clock's range"));
            },
        };
        let affiliate = Affiliate::from_request(request, expiration);
        self.upsert(affiliate);
        self.broadcast_affiliate_states();
        Ok(())
    }

    /// Records the update `request` at the current wall-clock time.
    pub fn add_affiliate(&mut self, request: &AffiliateUpdateRequest) -> (r: Result<(), Status>)
        requires
            old(self).wf(),
        ensures
            final(self).wf(),
            final(self).cluster_id() == old(self).cluster_id(),
            r is Ok ==> exists|now: Timestamp|
                now.wf() && ttl_accepted(request.ttl, now) && final(self).members() == old(self).members().insert(
                    request.affiliate_id@,
                    record_of(request, expiration_for(now, request.ttl->0)),
                ),
            r is Ok ==> final(self).published().len() == old(self).published().len() + 1
                && final(self).published().drop_last() == old(self).published() && full_state(
                final(self).published().last(),
                final(self).members(),
            ),
            !(request.ttl matches Some(t) && ttl_acceptable(t)) ==> r is Err,
            r is Err ==> final(self).members() == old(self).members() && final(self).published()
                == old(self).published() && r->Err_0.code == Code::InvalidArgument,
    {
        match now() {
            Some(t) => self.add_affiliate_at(request, t),
            None => Err(Status::invalid_argument("system clock reads before the Unix epoch")),
        }
    }

    /// The record stored under `affiliate_id`, if any.
    pub fn get_affiliate(&self, affiliate_id: &String) -> (r: Option<&Affiliate>)
        requires
            self.wf(),
        ensures
            r is Some <==> self.members().contains_key(affiliate_id@),
            r matches Some(a) ==> a@ == self.members()[affiliate_id@],
    {
        match self.position_of(affiliate_id) {
            Some(i) => {
                assert(self.records()[i as int] == self.affiliates@[i as int]@);
                assert(self.members@.contains_key(self.records()[i as int].id));
                Some(&self.affiliates[i])
            },
            None => None,
        }
    }

    /// Removes the record stored under `affiliate_id` and returns it. Nothing
    /// is published.
    pub fn delete_affiliate(&mut self, affiliate_id: &String) -> (r: Option<Affiliate>)
        requires
            old(self).wf(),
        ensures
            final(self).wf(),
            final(self).cluster_id() == old(self).cluster_id(),
            final(self).published() == old(self).published(),
            final(self).members() == old(self).members().remove(affiliate_id@),
            r is Some <==> old(self).members().contains_key(affiliate_id@),
            r matches Some(a) ==> a@ == old(self).members()[affiliate_id@],
    {
        let ghost old_records = self.records();
        let ghost old_members = self.members@;
        let ghost key = affiliate_id@;
        match self.position_of(affiliate_id) {
            None => {
                assert(self.members@.remove(key) =~= self.members@);
                None
            },
            Some(i) => {
                assert(old_records[i as int] == self.affiliates@[i as int]@);
                assert(old_records[i as int].id == key);
                assert(old_members.contains_key(old_records[i as int].id));
                let a = self.affiliates.remove(i);
                self.members = Ghost(self.members@.remove(key));
                proof {
                    let s = self.records();
                    let m = self.members@;
                    assert(s =~= old_records.remove(i as int));
                    assert forall|j: int| 0 <= j < old_records.len() && j != i implies (
                    #[trigger] old_records[j]).id != key by {
                        if j < i {
                            assert(old_records[j].id != old_records[i as int].id);
                        } else {
                            assert(old_records[i as int].id != old_records[j].id);
                        }
                    }
                    assert forall|j: int| 0 <= j < s.len() implies #[trigger] m.contains_key(
                        s[j].id,
                    ) && m[s[j].id] == s[j] by {
                        if j < i {
                            assert(s[j] == old_records[j]);
                        } else {
                            assert(s[j] == old_records[j + 1]);
                        }
                    }
                    assert forall|k: Seq<char>| #[trigger] m.contains_key(k) implies exists|j: int|
                        0 <= j < s.len() && (#[trigger] s[j]).id == k by {
                        let j = choose|j: int|
                            0 <= j < old_records.len() && (#[trigger] old_records[j]).id == k;
                        if j < i {
                            assert(s[j].id == k);
                        } else {
                            assert(s[j - 1].id == k);
                        }
                    }
                    assert forall|j1: int, j2: int| 0 <= j1 < j2 < s.len() implies (
                    #[trigger] s[j1]).id != (#[trigger] s[j2]).id by {
                        let o1 = if j1 < i { j1 } else { j1 + 1 };
                        let o2 = if j2 < i { j2 } else { j2 + 1 };
                        assert(s[j1] == old_records[o1]);
                        assert(s[j2] == old_records[o2]);
                        assert(old_records[o1].id != old_records[o2].id);
                    }
                }
                Some(a)
            },
        }
    }

    /// A new watcher: a receiver of every event published from now on, and a
    /// full-state event of the current membership to deliver first.
    pub fn subscribe(&self) -> (r: Subscription)
        requires
            self.wf(),
        ensures
            full_state(r.initial@, self.members()),
    {
        let receiver = hub_subscribe(&self.watch_broadcaster);
        let snapshot = self.get_affiliates();
        let initial = self.convert_watch_response(snapshot);
        proof {
            lemma_records_to_infos(records_of(snapshot@), self.members@);
        }
        Subscription { receiver, initial }
    }

    /// Publishes one deletion event listing `expired`, unless it is empty.
    fn broadcast_deleted_affiliates(&mut self, expired: Vec<Affiliate>)
        ensures
            final(self).members() == old(self).members(),
            final(self).cluster_id() == old(self).cluster_id(),
            final(self).records() == old(self).records(),
            expired@.len() == 0 ==> final(self).published() == old(self).published(),
            expired@.len() > 0 ==> final(self).published() == old(self).published().push(
                EventModel { affiliates: infos_of_records(records_of_vec(expired@)), deleted: true },
            ),
    {
        if expired.len() == 0 {
            return;
        }
        let mut deleted_affiliates: Vec<AffiliateInfo> = Vec::with_capacity(expired.len());
        let n = expired.len();
        let mut i: usize = 0;
        while i < n
            invariant
                n == expired@.len(),
                i <= n,
                deleted_affiliates@.len() == i,
                forall|j: int| 0 <= j < i ==> (#[trigger] deleted_affiliates@[j])@ == expired@[j]@.info(),
            decreases n - i,
        {
            deleted_affiliates.push(expired[i].to_info());
            i = i + 1;
        }
        assert(infos_of(deleted_affiliates@) =~= infos_of_records(records_of_vec(expired@)));
        let response = WatchResponse { affiliates: deleted_affiliates, deleted: true };
        self.send_affiliate_update(response);
    }

    /// Removes every affiliate that has expired at `now` and publishes them
    /// as one deletion event, unless there are none.
    pub fn run_gc_at(&mut self, now: Timestamp)
        requires
            old(self).wf(),
        ensures
            swept(*old(self), *final(self), now),
    {
        let ghost old_records = self.records();
        let ghost old_members = self.members@;
        let mut kept: Vec<Affiliate> = Vec::new();
        let mut expired: Vec<Affiliate> = Vec::new();
        let n = self.affiliates.len();
        let mut i: usize = 0;
        while i < n
            invariant
                n == self.affiliates@.len(),
                i <= n,
                old_records == self.records(),
                records_of_vec(kept@) == old_records.take(i as int).filter(is_live(now)),
                records_of_vec(expired@) == old_records.take(i as int).filter(is_expired(now)),
            decreases n - i,
        {
            let a = self.affiliates[i].deep_clone();
            let ghost prefix = old_records.take(i as int + 1);
            assert(prefix.drop_last() =~= old_records.take(i as int));
            assert(prefix.last() == a@);
            proof {
                reveal(Seq::filter);
            }
            if a.expiration.is_at_or_before(now) {
                let ghost before = expired@;
                expired.push(a);
                assert(records_of_vec(expired@) =~= records_of_vec(before).push(a@));
            } else {
                let ghost before = kept@;
                kept.push(a);
                assert(records_of_vec(kept@) =~= records_of_vec(before).push(a@));
            }
            i = i + 1;
        }
        assert(old_records.take(n as int) =~= old_records);
        let ghost live = live_at(old_members, now);
        let ghost gone = expired_members(old_members, now);
        proof {
            lemma_filter_lists_records(old_records, old_members, is_live(now));
            lemma_filter_lists_records(old_records, old_members, is_expired(now));
            assert(live =~= Map::new(
                |k: Seq<char>| old_members.contains_key(k) && is_live(now)(old_members[k]),
                |k: Seq<char>| old_members[k],
            ));
            assert(gone =~= Map::new(
                |k: Seq<char>| old_members.contains_key(k) && is_expired(now)(old_members[k]),
                |k: Seq<char>| old_members[k],
            ));
        }
        self.affiliates = kept;
        self.members = Ghost(live);
        self.broadcast_deleted_affiliates(expired);
        proof {
            lemma_records_to_infos(records_of_vec(expired@), gone);
            if expired@.len() == 0 {
                assert forall|k: Seq<char>| !#[trigger] gone.contains_key(k) by {
                    if gone.contains_key(k) {
                        let j = choose|j: int|
                            0 <= j < records_of_vec(expired@).len() && (#[trigger] records_of_vec(
                                expired@,
                            )[j]).id == k;
                    }
                }
                assert(gone =~= Map::<Seq<char>, AffiliateModel>::empty());
            } else {
                assert(gone.contains_key(records_of_vec(expired@)[0].id));
                assert(self.published@.drop_last() =~= old(self).published@);
            }
        }
    }

    /// Removes every affiliate that has expired by the current wall-clock
    /// time, publishing them as one deletion event.
    pub fn run_gc(&mut self)
        requires
            old(self).wf(),
        ensures
            final(self).wf(),
            final(self).cluster_id() == old(self).cluster_id(),
            (final(self).members() == old(self).members() && final(self).published() == old(self).published()) || exists|now: Timestamp| swept(*old(self), *final(self), now),
    {
        match now() {
            Some(t) => self.run_gc_at(t),
            None => {},
        }
    }

    /// The persisted form of the cluster.
    pub fn to_snapshot(&self) -> (r: ClusterSnapshot)
        requires
            self.wf(),
        ensures
            r.id@ == self.cluster_id(),
            lists_records(records_of_vec(r.affiliates@), self.members()),
    {
        let mut out: Vec<Affiliate> = Vec::with_capacity(self.affiliates.len());
        let n = self.affiliates.len();
        let mut i: usize = 0;
        while i < n
            invariant
                n == self.affiliates@.len(),
                i <= n,
                out@.len() == i,
                forall|j: int| 0 <= j < i ==> (#[trigger] out@[j])@ == self.affiliates@[j]@,
            decreases n - i,
        {
            out.push(self.affiliates[i].deep_clone());
            i = i + 1;
        }
        assert(records_of_vec(out@) =~= self.records());
        ClusterSnapshot { id: self.id.clone(), affiliates: out }
    }

    /// A cluster rebuilt from its persisted form, with a new hub and no
    /// event published. Records are taken as they are, expired ones too.
    pub fn from_snapshot(snapshot: &ClusterSnapshot) -> (r: TalosCluster)
        ensures
            r.wf(),
            r.cluster_id() == snapshot.id@,
            r.members() == members_from(records_of_vec(snapshot.affiliates@)),
            r.published() == Seq::<EventModel>::empty(),
    {
        let affiliates = &snapshot.affiliates;
        let ghost s = records_of_vec(affiliates@);
        let mut cluster = TalosCluster::new(snapshot.id.clone());
        let n = affiliates.len();
        let mut i: usize = 0;
        while i < n
            invariant
                n == affiliates@.len(),
                i <= n,
                s == records_of_vec(affiliates@),
                cluster.wf(),
                cluster.cluster_id() == snapshot.id@,
                cluster.members() == members_from(s.take(i as int)),
                cluster.published() == Seq::<EventModel>::empty(),
            decreases n - i,
        {
            let a = affiliates[i].deep_clone();
            cluster.upsert(a);
            proof {
                let t = s.take(i as int + 1);
                assert(t.drop_last() =~= s.take(i as int));
                assert(t.last() == s[i as int]);
            }
            i = i + 1;
        }
        assert(s.take(n as int) =~= s);
        cluster
    }

    /// The one-line text of the cluster for debug logs, its records in
    /// storage order.
    pub fn describe(&self) -> (r: String)
        requires
            self.wf(),
        ensures
            exists|s: Seq<AffiliateModel>|
                lists_records(s, self.members()) && r@ == cluster_text(self.cluster_id(), s),
    {
        let r = describe_cluster(&self.id, &self.affiliates);
        assert(lists_records(self.records(), self.members()));
        r
    }
}

} // verus!
