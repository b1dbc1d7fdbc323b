//! Request and response shapes of the discovery protocol, the status values
//! returned to clients, and the limits enforced on requests.

use vstd::prelude::*;
use vstd::utf8::encode_utf8;

verus! {

/// Longest cluster or affiliate identifier accepted, in bytes.
pub const MAX_IDENTIFIER_LENGTH: usize = 256;

/// Largest affiliate payload or endpoint accepted, in bytes (512 KiB).
pub const MAX_PAYLOAD_LENGTH: usize = 524288;

/// Longest TTL accepted, in seconds (two hours).
pub const MAX_TTL_SECONDS: i64 = 7200;

/// Kind of a failed request.
#[derive(Clone, Copy, Debug, PartialEq, Eq, Structural)]
pub enum Code {
    InvalidArgument,
    NotFound,
}

/// A failed request: its kind and a human-readable message.
#[derive(Clone, Debug)]
pub struct Status {
    pub code: Code,
    pub message: String,
}

impl Status {
    pub fn invalid_argument(message: &str) -> (r: Status)
        ensures
            r.code == Code::InvalidArgument,
            r.message@ == message@,
    {
        Status { code: Code::InvalidArgument, message: message.to_owned() }
    }

    pub fn not_found(message: String) -> (r: Status)
        ensures
            r.code == Code::NotFound,
            r.message == message,
    {
        Status { code: Code::NotFound, message }
    }
}

/// A protocol duration: whole seconds and a nanosecond part, both signed.
#[derive(Clone, Copy, Debug, PartialEq, Eq, Structural)]
pub struct Ttl {
    pub seconds: i64,
    pub nanos: i32,
}

/// Publish or refresh one affiliate of a cluster.
#[derive(Clone, Debug)]
pub struct AffiliateUpdateRequest {
    pub cluster_id: String,
    pub affiliate_id: String,
    pub affiliate_data: Option<Vec<u8>>,
    pub affiliate_endpoints: Vec<Vec<u8>>,
    pub ttl: Option<Ttl>,
}

/// An affiliate as clients see it: no expiration.
#[derive(Clone, Debug)]
pub struct AffiliateInfo {
    pub id: String,
    pub data: Vec<u8>,
    pub endpoints: Vec<Vec<u8>>,
}

/// Mathematical value of an [`AffiliateInfo`].
pub struct InfoModel {
    pub id: Seq<char>,
    pub data: Seq<u8>,
    pub endpoints: Seq<Seq<u8>>,
}

pub open spec fn bytes_of_all(v: Seq<Vec<u8>>) -> Seq<Seq<u8>> {
    v.map_values(|e: Vec<u8>| e@)
}

impl View for AffiliateInfo {
    type V = InfoModel;

    open spec fn view(&self) -> InfoModel {
        InfoModel { id: self.id@, data: self.data@, endpoints: bytes_of_all(self.endpoints@) }
    }
}

/// One event of a watch feed. With `deleted` false the affiliates are the
/// whole membership of the cluster; with `deleted` true they are the ones
/// that were just removed.
#[derive(Clone, Debug)]
pub struct WatchResponse {
    pub affiliates: Vec<AffiliateInfo>,
    pub deleted: bool,
}

/// Mathematical value of a [`WatchResponse`].
pub struct EventModel {
    pub affiliates: Seq<InfoModel>,
    pub deleted: bool,
}

pub open spec fn infos_of(v: Seq<AffiliateInfo>) -> Seq<InfoModel> {
    v.map_values(|a: AffiliateInfo| a@)
}

impl View for WatchResponse {
    type V = EventModel;

    open spec fn view(&self) -> EventModel {
        EventModel { affiliates: infos_of(self.affiliates@), deleted: self.deleted }
    }
}

/// Greeting from a client.
#[derive(Clone, Debug)]
pub struct HelloRequest {
    pub cluster_id: String,
    pub client_version: String,
}

/// Subscribe to the events of one cluster.
#[derive(Clone, Debug)]
pub struct WatchRequest {
    pub cluster_id: String,
}

/// Remove one affiliate of a cluster.
#[derive(Clone, Debug)]
pub struct AffiliateDeleteRequest {
    pub cluster_id: String,
    pub affiliate_id: String,
}

/// Ask for the membership of one cluster.
#[derive(Clone, Debug)]
pub struct ListRequest {
    pub cluster_id: String,
}

/// Where a client is told to go instead; never set by this service.
#[derive(Clone, Debug)]
pub struct RedirectMessage {
    pub endpoint: String,
}

/// Answer to a greeting: the address the caller was seen from.
#[derive(Clone, Debug)]
pub struct HelloResponse {
    pub redirect: Option<RedirectMessage>,
    pub client_ip: Vec<u8>,
}

/// The membership of one cluster.
#[derive(Clone, Debug)]
pub struct ListResponse {
    pub affiliates: Vec<AffiliateInfo>,
}

/// Length of the UTF-8 encoding of `s`.
pub open spec fn byte_len(s: Seq<char>) -> nat {
    encode_utf8(s).len()
}

pub open spec fn identifier_fits(s: Seq<char>) -> bool {
    byte_len(s) <= MAX_IDENTIFIER_LENGTH
}

pub open spec fn payload_fits(req: &AffiliateUpdateRequest) -> bool {
    &&& req.affiliate_data matches Some(d) ==> d@.len() <= MAX_PAYLOAD_LENGTH
    &&& forall|i: int|
        0 <= i < req.affiliate_endpoints@.len() ==> #[trigger] req.affiliate_endpoints@[i]@.len()
            <= MAX_PAYLOAD_LENGTH
}

/// Strictly positive whole seconds, at most the cap.
pub open spec fn ttl_in_range(t: Ttl) -> bool {
    0 < t.seconds <= MAX_TTL_SECONDS
}

/// A TTL a cluster accepts: in range, with a nanosecond part that is not
/// negative.
pub open spec fn ttl_acceptable(t: Ttl) -> bool {
    ttl_in_range(t) && t.nanos >= 0
}

/// What an affiliate update must satisfy before it reaches a cluster.
pub open spec fn within_limits(req: &AffiliateUpdateRequest) -> bool {
    &&& identifier_fits(req.cluster_id@)
    &&& identifier_fits(req.affiliate_id@)
    &&& payload_fits(req)
    &&& req.ttl matches Some(t) ==> ttl_in_range(t)
}

pub fn identifier_within_limit(id: &String) -> (r: bool)
    ensures
        r == identifier_fits(id@),
{
    id.as_str().as_bytes().len() <= MAX_IDENTIFIER_LENGTH
}

/// Checks the size and TTL caps of an affiliate update.
pub fn check_update_limits(req: &AffiliateUpdateRequest) -> (r: Result<(), Status>)
    ensures
        r is Ok <==> within_limits(req),
        r matches Err(e) ==> e.code == Code::InvalidArgument,
{
    if !identifier_within_limit(&req.cluster_id) || !identifier_within_limit(&req.affiliate_id) {
        return Err(Status::invalid_argument("maximum identifier length exceeded"));
    }
    match &req.affiliate_data {
        Some(data) => {
            if data.len() > MAX_PAYLOAD_LENGTH {
                return Err(Status::invalid_argument("maximum payload length exceeded"));
            }
        },
        None => {},
    }
    let n = req.affiliate_endpoints.len();
    let mut i: usize = 0;
    while i < n
        invariant
            n == req.affiliate_endpoints@.len(),
            i <= n,
            forall|j: int| 0 <= j < i ==> #[trigger] req.affiliate_endpoints@[j]@.len()
                <= MAX_PAYLOAD_LENGTH,
        decreases n - i,
    {
        if req.affiliate_endpoints[i].len() > MAX_PAYLOAD_LENGTH {
            return Err(Status::invalid_argument("maximum payload length exceeded"));
        }
        i = i + 1;
    }
    match req.ttl {
        Some(t) => {
            if t.seconds <= 0 || t.seconds > MAX_TTL_SECONDS {
                return Err(Status::invalid_argument("maximum TTL exceeded"));
            }
        },
        None => {},
    }
    Ok(())
}

} // verus!
