//! When a certificate is due for renewal.
use vstd::prelude::*;
use x509_parser::prelude::{FromDer, X509Certificate};

verus! {

/// Seconds in a day.
pub const SECONDS_PER_DAY: u64 = 86400;

/// A certificate with this many days left, or fewer, is renewed.
pub const RENEWAL_DAYS: i64 = 30;

/// The whole days between two points in time, counted towards zero.
pub open spec fn days_left_spec(not_after: int, now: int) -> int {
    let seconds = not_after - now;
    if seconds >= 0 {
        seconds / 86400
    } else {
        -((-seconds) / 86400)
    }
}

/// Whether a certificate that expires then is due for renewal.
pub open spec fn renewal_due_spec(not_after: int, now: int) -> bool {
    days_left_spec(not_after, now) <= RENEWAL_DAYS
}

/// The whole days between two points in time, in seconds since the Unix epoch.
pub fn days_left(not_after: i64, now: i64) -> (r: i64)
    ensures
        r == days_left_spec(not_after as int, now as int),
{
    let seconds: i128 = not_after as i128 - now as i128;
    if seconds >= 0 {
        (seconds as u128 / 86400) as i64
    } else {
        -(((-seconds) as u128 / 86400) as i64)
    }
}

/// Tells whether a certificate that expires then is due for renewal.
pub fn renewal_due(not_after: i64, now: i64) -> (r: bool)
    ensures
        r == renewal_due_spec(not_after as int, now as int),
{
    days_left(not_after, now) <= RENEWAL_DAYS
}

/// A certificate is due exactly if it has less than a day over the renewal days left.
pub proof fn due_within_a_month(not_after: int, now: int)
    ensures
        renewal_due_spec(not_after, now) <==> not_after - now < (RENEWAL_DAYS + 1) * 86400,
{
}

/// A certificate that is due stays due, and one that is expired is due.
pub proof fn due_stays_due(not_after: int, now: int, later: int)
    requires
        now <= later,
    ensures
        renewal_due_spec(not_after, now) ==> renewal_due_spec(not_after, later),
        not_after <= now ==> renewal_due_spec(not_after, now),
{
    due_within_a_month(not_after, now);
    due_within_a_month(not_after, later);
}

/// Why the expiry of a certificate is not known.
#[derive(Debug)]
pub enum ExpiryError {
    /// The file is no PEM.
    Pem(String),
    /// The PEM is no certificate.
    Certificate(String),
}

impl ExpiryError {
    /// Says why the expiry is not known.
    pub fn message(&self) -> (r: String)
        ensures
            r@ == match self {
                ExpiryError::Pem(e) => "PEM parse error: "@ + e@,
                ExpiryError::Certificate(e) => "X509 parse error: "@ + e@,
            },
    {
        match self {
            ExpiryError::Pem(e) => {
                let mut s = "PEM parse error: ".to_owned();
                s.append(e.as_str());
                s
            },
            ExpiryError::Certificate(e) => {
                let mut s = "X509 parse error: ".to_owned();
                s.append(e.as_str());
                s
            },
        }
    }
}

/// The contents of the first block that `x509_parser::pem::parse_x509_pem` finds in PEM
/// data, or its complaint.
pub uninterp spec fn pem_block(data: Seq<u8>) -> Result<Seq<u8>, Seq<char>>;

/// The expiry of the certificate that `x509_parser`'s `X509Certificate::from_der` reads,
/// in seconds since the Unix epoch, or its complaint.
pub uninterp spec fn certificate_expiry(der: Seq<u8>) -> Result<i64, Seq<char>>;

/// The contents, or the complaint.
pub open spec fn block_view(r: Result<Vec<u8>, String>) -> Result<Seq<u8>, Seq<char>> {
    match r {
        Ok(v) => Ok(v@),
        Err(e) => Err(e@),
    }
}

/// The expiry, or the complaint.
pub open spec fn expiry_view(r: Result<i64, String>) -> Result<i64, Seq<char>> {
    match r {
        Ok(t) => Ok(t),
        Err(e) => Err(e@),
    }
}

/// `x509_parser::pem::parse_x509_pem`: the contents of the first PEM block. They depend
/// on the data alone.
#[verifier::external_body]
fn read_pem(data: &[u8]) -> (r: Result<Vec<u8>, String>)
    ensures
        block_view(r) == pem_block(data@),
{
    x509_parser::pem::parse_x509_pem(data).map(|(_, pem)| pem.contents).map_err(|e| e.to_string())
}

/// `X509Certificate::from_der`: the end of the validity of a certificate. It depends on
/// the data alone.
#[verifier::external_body]
fn read_expiry(der: &[u8]) -> (r: Result<i64, String>)
    ensures
        expiry_view(r) == certificate_expiry(der@),
{
    X509Certificate::from_der(der)
        .map(|(_, cert)| cert.validity().not_after.timestamp())
        .map_err(|e| e.to_string())
}

/// Tells whether the certificate in PEM data is due for renewal.
pub fn needs_renewal(pem_data: &[u8], now: i64) -> (r: Result<bool, ExpiryError>)
    ensures
        match pem_block(pem_data@) {
            Err(e) => r matches Err(ExpiryError::Pem(why)) && why@ == e,
            Ok(der) => match certificate_expiry(der) {
                Err(e) => r matches Err(ExpiryError::Certificate(why)) && why@ == e,
                Ok(not_after) => r == Ok::<bool, ExpiryError>(
                    renewal_due_spec(not_after as int, now as int),
                ),
            },
        },
{
    match read_pem(pem_data) {
        Err(e) => Err(ExpiryError::Pem(e)),
        Ok(der) => match read_expiry(der.as_slice()) {
            Err(e) => Err(ExpiryError::Certificate(e)),
            Ok(not_after) => Ok(renewal_due(not_after, now)),
        },
    }
}

/// Days left are whole days, counted towards zero: what is left over is less than a day, on
/// the same side.
pub proof fn days_are_counted_towards_zero(not_after: int, now: int)
    ensures
        not_after >= now ==> 0 <= not_after - now - days_left_spec(not_after, now) * 86400 < 86400,
        not_after < now ==> -86400 < not_after - now - days_left_spec(not_after, now) * 86400 <= 0,
        days_left_spec(now, not_after) == -days_left_spec(not_after, now),
{
}

/// A certificate is due exactly from 31 days before it expires on, which is when it has 30
/// whole days left or fewer.
pub proof fn due_from_thirty_one_days_on(not_after: int, now: int)
    ensures
        renewal_due_spec(not_after, now) <==> not_after - now < 31 * 86400,
        renewal_due_spec(not_after, now) <==> days_left_spec(not_after, now) <= 30,
{
}

/// What is said of a reading is all that is in it.
pub proof fn expiry_readings_keep_everything(block: Vec<u8>, t: i64, why: String)
    ensures
        block_view(Ok(block)) == Ok::<Seq<u8>, Seq<char>>(block@),
        block_view(Err(why)) == Err::<Seq<u8>, Seq<char>>(why@),
        expiry_view(Ok(t)) == Ok::<i64, Seq<char>>(t),
        expiry_view(Err(why)) == Err::<i64, Seq<char>>(why@),
{
}

} // verus!
