use vstd::prelude::*;
use x509_parser::prelude::FromDer;
use crate::auth::{UtcTime, time_le};

verus! {

/// What x509-parser reads as the end of validity of a DER certificate
/// (`X509Certificate::from_der`, then `validity().not_after`), as seconds
/// and nanoseconds since the epoch; `None` when the bytes are not a
/// certificate.
pub uninterp spec fn spec_certificate_not_after(der: Seq<u8>) -> Option<UtcTime>;

/// The end of validity of a DER certificate.
#[verifier::external_body]
fn certificate_not_after(der: &[u8]) -> (res: Option<UtcTime>)
    ensures
        res == spec_certificate_not_after(der@),
{
    match x509_parser::certificate::X509Certificate::from_der(der) {
        Ok((_, cert)) => {
            let t = cert.validity().not_after.to_datetime();
            Some(UtcTime { secs: t.unix_timestamp(), nanos: t.nanosecond() })
        },
        Err(_) => None,
    }
}

/// The current time as x509-parser reads it (`ASN1Time::now`). Nothing is
/// stated of it: it is the clock's.
#[verifier::external_body]
fn asn1_now() -> UtcTime {
    let t = x509_parser::time::ASN1Time::now().to_datetime();
    UtcTime { secs: t.unix_timestamp(), nanos: t.nanosecond() }
}

/// Whether a certificate valid until `not_after` is usable at `now`, and
/// until when: the whole seconds of its end of validity, or `None` once
/// that has passed.
pub open spec fn spec_expiration(not_after: UtcTime, now: UtcTime) -> Option<i64> {
    if time_le(now, not_after) {
        Some(not_after.secs)
    } else {
        None
    }
}

/// Whether a certificate valid until `not_after` is usable at `now`.
pub fn expiration_at(not_after: UtcTime, now: UtcTime) -> (res: Option<i64>)
    ensures
        res == spec_expiration(not_after, now),
{
    if now.secs < not_after.secs || (now.secs == not_after.secs && now.nanos <= not_after.nanos) {
        Some(not_after.secs)
    } else {
        None
    }
}

/// Reads the clock and tells until when the DER certificate `cert` is
/// usable: `None` when it is not a certificate; otherwise its expiration
/// at some instant of the call.
pub fn calculate_certificate_expiration(cert: &[u8]) -> (res: Option<Option<i64>>)
    ensures
        match spec_certificate_not_after(cert@) {
            None => res is None,
            Some(t) => exists|now: UtcTime| res == Some(#[trigger] spec_expiration(t, now)),
        },
{
    let not_after = match certificate_not_after(cert) {
        Some(t) => t,
        None => return None,
    };
    let now = asn1_now();
    Some(expiration_at(not_after, now))
}

/// What the server does with a certificate whose expiration is known:
/// wait for another when it has expired, refuse it when its end of
/// validity lies before the epoch, or serve it until its end of validity.
#[derive(PartialEq, Eq, Structural, Clone, Copy, Debug)]
pub enum TlsPlan {
    Expired,
    BeforeEpoch,
    Serve(i64),
}

/// What the server does with a certificate of the given expiration.
pub fn plan_tls(expiration: Option<i64>) -> (res: TlsPlan)
    ensures
        res == match expiration {
            None => TlsPlan::Expired,
            Some(t) => if t < 0 {
                TlsPlan::BeforeEpoch
            } else {
                TlsPlan::Serve(t)
            },
        },
{
    match expiration {
        None => TlsPlan::Expired,
        Some(t) => if t < 0 {
            TlsPlan::BeforeEpoch
        } else {
            TlsPlan::Serve(t)
        },
    }
}

} // verus!
