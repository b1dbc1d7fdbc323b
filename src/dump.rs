//! The one-line text of a cluster written to debug logs: ids, expirations,
//! and the first bytes of each payload in hex.

use vstd::prelude::*;
use vstd::string::StringExecFns;

use crate::affiliate::{Affiliate, AffiliateModel};
use crate::cluster::records_of_vec;
use crate::protocol::bytes_of_all;
use crate::time::Timestamp;

verus! {

/// The date and time `secs` seconds after the Unix epoch as chrono writes a
/// UTC instant ("2015-05-15 00:00:00 UTC"); `None` where its calendar does
/// not reach.
pub uninterp spec fn utc_text(secs: int) -> Option<Seq<char>>;

pub open spec fn text_of(r: Option<String>) -> Option<Seq<char>> {
    match r {
        Some(s) => Some(s@),
        None => None,
    }
}

/// Relies on chrono's `DateTime::<Utc>::from_timestamp(secs, 0)` and its
/// `Display`: the instant `secs` seconds after the epoch, with no sub-second
/// part, as text; `None` where chrono returns `None`.
#[verifier::external_body]
fn utc_datetime(secs: i64) -> (r: Option<String>)
    ensures
        text_of(r) == utc_text(secs as int),
{
    match chrono::DateTime::<chrono::Utc>::from_timestamp(secs, 0) {
        Some(d) => Some(d.to_string()),
        None => None,
    }
}

/// The lowercase hex digit of `n`.
pub open spec fn hex_digit_text(n: u8) -> Seq<char> {
    if n == 0 { "0"@ } else if n == 1 { "1"@ } else if n == 2 { "2"@ } else if n == 3 { "3"@ }
    else if n == 4 { "4"@ } else if n == 5 { "5"@ } else if n == 6 { "6"@ } else if n == 7 { "7"@ }
    else if n == 8 { "8"@ } else if n == 9 { "9"@ } else if n == 10 { "a"@ } else if n == 11 { "b"@ }
    else if n == 12 { "c"@ } else if n == 13 { "d"@ } else if n == 14 { "e"@ } else { "f"@ }
}

/// Two lowercase hex digits for each byte of `b`.
pub open spec fn hex_of(b: Seq<u8>) -> Seq<char>
    decreases b.len(),
{
    if b.len() == 0 {
        Seq::empty()
    } else {
        hex_of(b.drop_last()) + hex_digit_text(b.last() / 16) + hex_digit_text(b.last() % 16)
    }
}

/// At most the first four bytes of `b` in hex, then "..".
pub open spec fn preview(b: Seq<u8>) -> Seq<char> {
    hex_of(
        if b.len() > 4 {
            b.take(4)
        } else {
            b
        },
    ) + ".."@
}

/// How an expiration is written: its whole seconds as a UTC date and time.
pub open spec fn expiration_text(t: Timestamp) -> Seq<char> {
    if t.secs_since_epoch <= i64::MAX {
        match utc_text(t.secs_since_epoch as int) {
            Some(s) => s,
            None => "(out of range)"@,
        }
    } else {
        "(out of range)"@
    }
}

pub open spec fn endpoints_text(e: Seq<Seq<u8>>) -> Seq<char>
    decreases e.len(),
{
    if e.len() == 0 {
        Seq::empty()
    } else {
        endpoints_text(e.drop_last()) + ", Encrypted Endpoint: "@ + preview(e.last())
    }
}

pub open spec fn affiliate_text(a: AffiliateModel) -> Seq<char> {
    ", Affiliate id: "@ + a.id + ", Expiration: "@ + expiration_text(a.expiration)
        + ", Encrypted data: "@ + preview(a.data) + endpoints_text(a.endpoints)
}

pub open spec fn records_text(s: Seq<AffiliateModel>) -> Seq<char>
    decreases s.len(),
{
    if s.len() == 0 {
        Seq::empty()
    } else {
        records_text(s.drop_last()) + affiliate_text(s.last())
    }
}

/// The text of cluster `id` whose records, in order, are `s`.
pub open spec fn cluster_text(id: Seq<char>, s: Seq<AffiliateModel>) -> Seq<char> {
    "{ Cluster: "@ + id + records_text(s) + "}"@
}

fn hex_digit(n: u8) -> (r: &'static str)
    requires
        n < 16,
    ensures
        r@ == hex_digit_text(n),
{
    if n == 0 { "0" } else if n == 1 { "1" } else if n == 2 { "2" } else if n == 3 { "3" }
    else if n == 4 { "4" } else if n == 5 { "5" } else if n == 6 { "6" } else if n == 7 { "7" }
    else if n == 8 { "8" } else if n == 9 { "9" } else if n == 10 { "a" } else if n == 11 { "b" }
    else if n == 12 { "c" } else if n == 13 { "d" } else if n == 14 { "e" } else { "f" }
}

fn push_preview(out: &mut String, b: &Vec<u8>)
    ensures
        final(out)@ == old(out)@ + preview(b@),
{
    let n: usize = if b.len() > 4 { 4 } else { b.len() };
    let ghost shown = if b@.len() > 4 { b@.take(4) } else { b@ };
    let ghost start = out@;
    let mut i: usize = 0;
    while i < n
        invariant
            n == shown.len(),
            i <= n,
            shown == if b@.len() > 4 { b@.take(4) } else { b@ },
            out@ == start + hex_of(shown.take(i as int)),
        decreases n - i,
    {
        let byte = b[i];
        assert(byte == shown[i as int]);
        out.append(hex_digit(byte / 16));
        out.append(hex_digit(byte % 16));
        proof {
            let t = shown.take(i as int + 1);
            assert(t.drop_last() =~= shown.take(i as int));
            assert(t.last() == byte);
        }
        i = i + 1;
        assert(out@ =~= start + hex_of(shown.take(i as int)));
    }
    assert(shown.take(n as int) =~= shown);
    out.append("..");
    assert(out@ =~= start + preview(b@));
}

fn push_affiliate(out: &mut String, a: &Affiliate)
    ensures
        final(out)@ == old(out)@ + affiliate_text(a@),
{
    let ghost start = out@;
    out.append(", Affiliate id: ");
    out.append(a.id.as_str());
    out.append(", Expiration: ");
    let ghost after_label = out@;
    let secs = a.expiration.secs_since_epoch;
    if secs <= i64::MAX as u64 {
        match utc_datetime(secs as i64) {
            Some(text) => out.append(text.as_str()),
            None => out.append("(out of range)"),
        }
    } else {
        out.append("(out of range)");
    }
    assert(out@ =~= after_label + expiration_text(a.expiration));
    out.append(", Encrypted data: ");
    push_preview(out, &a.data);
    let ghost before_endpoints = out@;
    let eps = &a.endpoints;
    let n = eps.len();
    let mut i: usize = 0;
    while i < n
        invariant
            n == eps@.len(),
            i <= n,
            out@ == before_endpoints + endpoints_text(bytes_of_all(eps@).take(i as int)),
        decreases n - i,
    {
        out.append(", Encrypted Endpoint: ");
        push_preview(out, &eps[i]);
        proof {
            let t = bytes_of_all(eps@).take(i as int + 1);
            assert(t.drop_last() =~= bytes_of_all(eps@).take(i as int));
            assert(t.last() == eps@[i as int]@);
        }
        i = i + 1;
        assert(out@ =~= before_endpoints + endpoints_text(bytes_of_all(eps@).take(i as int)));
    }
    assert(bytes_of_all(eps@).take(n as int) =~= bytes_of_all(eps@));
    assert(out@ =~= start + affiliate_text(a@));
}

/// The text of cluster `id` with the records `affiliates`, in order.
pub fn describe_cluster(id: &String, affiliates: &Vec<Affiliate>) -> (r: String)
    ensures
        r@ == cluster_text(id@, records_of_vec(affiliates@)),
{
    let ghost s = records_of_vec(affiliates@);
    let mut out = "{ Cluster: ".to_owned();
    out.append(id.as_str());
    let ghost start = out@;
    let n = affiliates.len();
    let mut i: usize = 0;
    while i < n
        invariant
            n == affiliates@.len(),
            i <= n,
            s == records_of_vec(affiliates@),
            out@ == start + records_text(s.take(i as int)),
        decreases n - i,
    {
        push_affiliate(&mut out, &affiliates[i]);
        proof {
            let t = s.take(i as int + 1);
            assert(t.drop_last() =~= s.take(i as int));
            assert(t.last() == affiliates@[i as int]@);
        }
        i = i + 1;
        assert(out@ =~= start + records_text(s.take(i as int)));
    }
    assert(s.take(n as int) =~= s);
    out.append("}");
    assert(out@ =~= cluster_text(id@, s));
    out
}

} // verus!
