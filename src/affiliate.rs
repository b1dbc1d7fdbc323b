//! The affiliate record: one member of a cluster with its expiration.

use vstd::prelude::*;

use crate::protocol::{bytes_of_all, AffiliateInfo, AffiliateUpdateRequest, InfoModel};
use crate::time::Timestamp;

verus! {

/// A member of a cluster: opaque id, payload and endpoints, and the instant
/// at which it expires.
#[derive(Debug)]
pub struct Affiliate {
    pub id: String,
    pub data: Vec<u8>,
    pub endpoints: Vec<Vec<u8>>,
    pub expiration: Timestamp,
}

/// Mathematical value of an [`Affiliate`].
pub struct AffiliateModel {
    pub id: Seq<char>,
    pub data: Seq<u8>,
    pub endpoints: Seq<Seq<u8>>,
    pub expiration: Timestamp,
}

impl AffiliateModel {
    /// What clients see of the record.
    pub open spec fn info(self) -> InfoModel {
        InfoModel { id: self.id, data: self.data, endpoints: self.endpoints }
    }

    /// The record has expired at `now`: it expires at or before it.
    pub open spec fn expired_at(self, now: Timestamp) -> bool {
        self.expiration.le(now)
    }
}

impl View for Affiliate {
    type V = AffiliateModel;

    open spec fn view(&self) -> AffiliateModel {
        AffiliateModel {
            id: self.id@,
            data: self.data@,
            endpoints: bytes_of_all(self.endpoints@),
            expiration: self.expiration,
        }
    }
}

/// The payload an update carries; an absent payload is empty.
pub open spec fn request_data(req: &AffiliateUpdateRequest) -> Seq<u8> {
    match req.affiliate_data {
        Some(d) => d@,
        None => Seq::empty(),
    }
}

/// The record an update creates when it expires at `expiration`.
pub open spec fn record_of(req: &AffiliateUpdateRequest, expiration: Timestamp) -> AffiliateModel {
    AffiliateModel {
        id: req.affiliate_id@,
        data: request_data(req),
        endpoints: bytes_of_all(req.affiliate_endpoints@),
        expiration,
    }
}

/// An independent copy of a byte string.
pub fn copy_bytes(v: &Vec<u8>) -> (r: Vec<u8>)
    ensures
        r@ == v@,
{
    let mut r: Vec<u8> = Vec::with_capacity(v.len());
    let n = v.len();
    let mut i: usize = 0;
    while i < n
        invariant
            n == v@.len(),
            i <= n,
            r@ == v@.subrange(0, i as int),
        decreases n - i,
    {
        r.push(v[i]);
        i = i + 1;
        assert(r@ =~= v@.subrange(0, i as int));
    }
    assert(r@ =~= v@);
    r
}

/// An independent copy of a list of byte strings.
pub fn copy_byte_lists(v: &Vec<Vec<u8>>) -> (r: Vec<Vec<u8>>)
    ensures
        bytes_of_all(r@) == bytes_of_all(v@),
{
    let mut r: Vec<Vec<u8>> = Vec::with_capacity(v.len());
    let n = v.len();
    let mut i: usize = 0;
    while i < n
        invariant
            n == v@.len(),
            i <= n,
            r@.len() == i,
            forall|j: int| 0 <= j < i ==> #[trigger] r@[j]@ == v@[j]@,
        decreases n - i,
    {
        let e = copy_bytes(&v[i]);
        r.push(e);
        i = i + 1;
    }
    assert(bytes_of_all(r@) =~= bytes_of_all(v@));
    r
}

impl Affiliate {
    /// The record that `req` creates, expiring at `expiration`.
    pub fn from_request(req: &AffiliateUpdateRequest, expiration: Timestamp) -> (r: Affiliate)
        ensures
            r@ == record_of(req, expiration),
    {
        let data = match &req.affiliate_data {
            Some(d) => copy_bytes(d),
            None => Vec::new(),
        };
        proof {
            if req.affiliate_data is None {
                assert(data@ =~= Seq::<u8>::empty());
            }
        }
        Affiliate {
            id: req.affiliate_id.clone(),
            data,
            endpoints: copy_byte_lists(&req.affiliate_endpoints),
            expiration,
        }
    }

    /// An independent copy of the record.
    pub fn deep_clone(&self) -> (r: Affiliate)
        ensures
            r@ == self@,
    {
        Affiliate {
            id: self.id.clone(),
            data: copy_bytes(&self.data),
            endpoints: copy_byte_lists(&self.endpoints),
            expiration: self.expiration,
        }
    }

    /// The record in the shape clients see.
    pub fn to_info(&self) -> (r: AffiliateInfo)
        ensures
            r@ == self@.info(),
    {
        AffiliateInfo::from(self.deep_clone())
    }
}

impl From<Affiliate> for AffiliateInfo {
    fn from(val: Affiliate) -> (r: AffiliateInfo)
        ensures
            r@ == val@.info(),
    {
        AffiliateInfo { id: val.id, data: val.data, endpoints: val.endpoints }
    }
}

impl vstd::std_specs::convert::FromSpecImpl<Affiliate> for AffiliateInfo {
    open spec fn obeys_from_spec() -> bool {
        true
    }

    open spec fn from_spec(val: Affiliate) -> AffiliateInfo {
        AffiliateInfo { id: val.id, data: val.data, endpoints: val.endpoints }
    }
}

} // verus!
