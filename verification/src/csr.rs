//! Keys and certificate signing requests.
use crate::ip_addr::{IpAddr, ip_spec};
use crate::text::texts;
use rcgen::{CertificateParams, KeyPair};
use vstd::prelude::*;
use vstd::utf8::is_ascii_chars;

verus! {

/// A key pair of `rcgen`.
#[verifier::external_type_specification]
#[verifier::external_body]
pub struct ExKeyPair(rcgen::KeyPair);

/// What `rcgen` makes a signing request from.
#[verifier::external_type_specification]
#[verifier::external_body]
pub struct ExCertificateParams(rcgen::CertificateParams);

/// The first name that is not ASCII.
pub open spec fn first_foreign(names: Seq<Seq<char>>) -> Option<Seq<char>>
    decreases names.len(),
{
    if names.len() == 0 {
        None
    } else if !is_ascii_chars(names[0]) {
        Some(names[0])
    } else {
        first_foreign(names.skip(1))
    }
}

/// A subject alternative name.
pub enum AltName {
    Address(IpAddr),
    Dns(Seq<char>),
}

/// What a name stands for in a certificate: an IP address where it reads as one, else a DNS
/// name.
pub open spec fn alt_name(name: Seq<char>) -> AltName {
    match ip_spec(name) {
        Some(ip) => AltName::Address(ip),
        None => AltName::Dns(name),
    }
}

/// What the names stand for in a certificate.
pub open spec fn alt_names(names: Seq<Seq<char>>) -> Seq<AltName> {
    names.map_values(|name: Seq<char>| alt_name(name))
}

/// The private key of a key pair in PEM, as `KeyPair::serialize_pem` writes it; a key pair
/// that does not hold its private key has none.
pub uninterp spec fn private_pem(key: KeyPair) -> Option<Seq<char>>;

/// Whether `KeyPair::generate_for` made the key pair for `PKCS_ECDSA_P256_SHA256`, which is
/// then its algorithm.
pub uninterp spec fn is_p256(key: KeyPair) -> bool;

/// The subject alternative names in the parameters, as `CertificateParams::new` puts them
/// there.
pub uninterp spec fn names_in(params: CertificateParams) -> Seq<AltName>;

/// Whether the subject in the parameters has any attribute, which one made by
/// `DistinguishedName::new` has not.
pub uninterp spec fn has_subject(params: CertificateParams) -> bool;

/// Whether these bytes are a signing request that `CertificateParams::serialize_request`
/// makes for parameters with those alternative names, with or without a subject, and the key
/// with that private key in PEM.
pub uninterp spec fn is_request(
    der: Seq<u8>,
    names: Seq<AltName>,
    subject: bool,
    private_pem: Seq<char>,
) -> bool;

/// `rcgen::KeyPair::generate_for` at `PKCS_ECDSA_P256_SHA256`: a new key pair for that
/// algorithm, which holds its private key, or why there is none. Which key it is and whether
/// there is one rest on chance.
#[verifier::external_body]
fn generate_key() -> (r: Result<KeyPair, String>)
    ensures
        r matches Ok(key) ==> private_pem(key) is Some && is_p256(key),
{
    KeyPair::generate_for(&rcgen::PKCS_ECDSA_P256_SHA256).map_err(|e| e.to_string())
}

/// `rcgen::CertificateParams::new`: parameters for the names, with a default subject. A name
/// that reads as an IP address is put down as that address, any other as a DNS name. A name
/// that is not ASCII is refused, and nothing else is.
#[verifier::external_body]
fn request_params(names: &Vec<String>) -> (r: Result<CertificateParams, String>)
    ensures
        match (first_foreign(texts(names@)), r) {
            (None, Ok(params)) => names_in(params) == alt_names(texts(names@)) && has_subject(
                params,
            ),
            (Some(name), Err(e)) => e@ == "Invalid IA5String: '"@ + name + "'"@,
            _ => false,
        },
{
    CertificateParams::new(names.clone()).map_err(|e| e.to_string())
}

/// `rcgen::DistinguishedName::new`: the parameters with an empty subject.
#[verifier::external_body]
fn without_subject(params: CertificateParams) -> (r: CertificateParams)
    ensures
        names_in(r) == names_in(params),
        !has_subject(r),
{
    let mut params = params;
    params.distinguished_name = rcgen::DistinguishedName::new();
    params
}

/// `rcgen::CertificateParams::serialize_request`: a signing request in DER for the
/// parameters, signed with the key, or why there is none. The signature rests on chance.
#[verifier::external_body]
fn sign_request(params: &CertificateParams, key: &KeyPair) -> (r: Result<Vec<u8>, String>)
    requires
        private_pem(*key) is Some,
    ensures
        r matches Ok(der) ==> is_request(
            der@,
            names_in(*params),
            has_subject(*params),
            private_pem(*key)->0,
        ),
{
    params.serialize_request(key).map(|csr| csr.der().to_vec()).map_err(|e| e.to_string())
}

/// `rcgen::KeyPair::serialize_pem`: the private key in PEM. It panics on a key pair that does
/// not hold its private key.
#[verifier::external_body]
fn key_to_pem(key: &KeyPair) -> (r: String)
    requires
        private_pem(*key) is Some,
    ensures
        Some(r@) == private_pem(*key),
{
    key.serialize_pem()
}

/// A new key, and the request for a certificate for it.
pub struct SigningRequest {
    /// The request in DER.
    pub der: Vec<u8>,
    /// The private key in PEM.
    pub key_pem: String,
}

/// Why there is no signing request.
#[derive(Debug)]
pub enum RequestError {
    /// No key could be made.
    Key(String),
    /// A name cannot stand in a certificate.
    Names(String),
    /// The request could not be signed.
    Signing(String),
}

/// Makes a request for a certificate for these names, with an empty subject, signed with
/// `key`. A name that is not ASCII is refused, and nothing else is refused as a name.
pub fn request_with(key: &KeyPair, names: &Vec<String>) -> (r: Result<SigningRequest, RequestError>)
    requires
        private_pem(*key) is Some,
    ensures
        match r {
            Ok(made) => first_foreign(texts(names@)) is None && Some(made.key_pem@) == private_pem(
                *key,
            ) && is_request(made.der@, alt_names(texts(names@)), false, made.key_pem@),
            Err(RequestError::Key(_)) => false,
            Err(RequestError::Names(e)) => first_foreign(texts(names@)) matches Some(name) && e@
                == "Invalid IA5String: '"@ + name + "'"@,
            Err(RequestError::Signing(_)) => first_foreign(texts(names@)) is None,
        },
{
    let params = match request_params(names) {
        Ok(params) => without_subject(params),
        Err(e) => {
            return Err(RequestError::Names(e));
        },
    };
    match sign_request(&params, key) {
        Ok(der) => Ok(SigningRequest { der, key_pem: key_to_pem(key) }),
        Err(e) => Err(RequestError::Signing(e)),
    }
}

/// Makes a new key on the P-256 curve and a request for a certificate for these names, with
/// an empty subject, signed with that key. Whether there is a key rests on chance; what
/// follows with it is that of [`request_with`].
pub fn signing_request(names: &Vec<String>) -> (r: Result<SigningRequest, RequestError>)
    ensures
        match r {
            Ok(made) => first_foreign(texts(names@)) is None && is_request(
                made.der@,
                alt_names(texts(names@)),
                false,
                made.key_pem@,
            ) && exists|key: KeyPair| #[trigger]
                is_p256(key) && private_pem(key) == Some(made.key_pem@),
            Err(RequestError::Key(_)) => true,
            Err(RequestError::Names(e)) => first_foreign(texts(names@)) matches Some(name) && e@
                == "Invalid IA5String: '"@ + name + "'"@,
            Err(RequestError::Signing(_)) => first_foreign(texts(names@)) is None,
        },
{
    match generate_key() {
        Ok(key) => request_with(&key, names),
        Err(e) => Err(RequestError::Key(e)),
    }
}

impl RequestError {
    /// Says why there is no signing request.
    pub fn message(&self) -> (r: String)
        ensures
            r@ == match self {
                RequestError::Key(e) => e@,
                RequestError::Names(e) => e@,
                RequestError::Signing(e) => e@,
            },
    {
        match self {
            RequestError::Key(e) => e.clone(),
            RequestError::Names(e) => e.clone(),
            RequestError::Signing(e) => e.clone(),
        }
    }
}

/// The name that is refused is the first that is not ASCII, and none is refused exactly if
/// all are ASCII.
pub proof fn first_foreign_name_is_refused(names: Seq<Seq<char>>)
    ensures
        first_foreign(names) is None <==> forall|i: int|
            0 <= i < names.len() ==> is_ascii_chars(#[trigger] names[i]),
        first_foreign(names) matches Some(name) ==> exists|i: int|
            0 <= i < names.len() && #[trigger] names[i] == name && !is_ascii_chars(name) && forall|
                j: int,
            |
                0 <= j < i ==> is_ascii_chars(#[trigger] names[j]),
    decreases names.len(),
{
    if names.len() > 0 && is_ascii_chars(names[0]) {
        let rest = names.skip(1);
        first_foreign_name_is_refused(rest);
        assert forall|k: int| 0 < k < names.len() implies #[trigger] names[k] == rest[k - 1] by {}
        assert forall|k: int| 0 <= k < rest.len() implies #[trigger] rest[k] == names[k + 1] by {}
        if first_foreign(rest) is Some {
            let name = first_foreign(rest)->0;
            let i = choose|i: int|
                0 <= i < rest.len() && #[trigger] rest[i] == name && !is_ascii_chars(name)
                    && forall|j: int| 0 <= j < i ==> is_ascii_chars(#[trigger] rest[j]);
            assert(names[i + 1] == name);
            assert forall|j: int| 0 <= j < i + 1 implies is_ascii_chars(#[trigger] names[j]) by {
                if j > 0 {
                    assert(is_ascii_chars(rest[j - 1]));
                }
            }
        }
    }
}

/// Every name has its place in the request, in its order: as the address that it reads as, or
/// as it stands.
pub proof fn every_name_is_asked_for(names: Seq<Seq<char>>, i: int)
    requires
        0 <= i < names.len(),
    ensures
        alt_names(names).len() == names.len(),
        ip_spec(names[i]) matches Some(ip) ==> alt_names(names)[i] == AltName::Address(ip),
        ip_spec(names[i]) is None ==> alt_names(names)[i] == AltName::Dns(names[i]),
{
}

} // verus!
