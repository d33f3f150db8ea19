//! Certificates and keys in PEM files, and serving TLS with them.
use rustls::ServerConfig;
use rustls::pki_types::{CertificateDer, PrivateKeyDer};
use std::sync::Arc;
use vstd::prelude::*;

verus! {

/// The encoding of a private key.
#[derive(Debug, Clone, Copy, PartialEq, Eq, Structural)]
pub enum KeyKind {
    Pkcs1,
    Sec1,
    Pkcs8,
    Other,
}

/// A private key in DER.
pub struct PrivateKey {
    pub kind: KeyKind,
    pub der: Vec<u8>,
}

/// What a TLS server needs: its certificate chain in DER, and the key.
pub struct TlsMaterial {
    pub chain: Vec<Vec<u8>>,
    pub key: PrivateKey,
}

/// Why there is nothing to serve TLS with.
#[derive(Debug)]
pub enum TlsError {
    /// The certificate file is malformed.
    Certificates(String),
    /// The key file is malformed.
    Key(String),
    /// There is no private key in the file at this path.
    NoKey(String),
    /// The certificates and the key are not fit to serve with.
    Config(String),
}

/// The contents of each certificate, or the complaint.
pub open spec fn certificates_view(r: Result<Vec<Vec<u8>>, String>) -> Result<
    Seq<Seq<u8>>,
    Seq<char>,
> {
    match r {
        Ok(v) => Ok(v@.map_values(|c: Vec<u8>| c@)),
        Err(e) => Err(e@),
    }
}

/// The encoding and contents of the key, or the complaint.
pub open spec fn key_view(r: Result<Option<PrivateKey>, String>) -> Result<
    Option<(KeyKind, Seq<u8>)>,
    Seq<char>,
> {
    match r {
        Ok(Some(k)) => Ok(Some((k.kind, k.der@))),
        Ok(None) => Ok(None),
        Err(e) => Err(e@),
    }
}

/// The certificates that `rustls_pemfile::certs` finds in PEM data, or its complaint.
pub uninterp spec fn pem_certificates(pem: Seq<u8>) -> Result<Seq<Seq<u8>>, Seq<char>>;

/// The private key that `rustls_pemfile::private_key` finds in PEM data, if it finds
/// one, or its complaint.
pub uninterp spec fn pem_private_key(pem: Seq<u8>) -> Result<
    Option<(KeyKind, Seq<u8>)>,
    Seq<char>,
>;

/// `rustls_pemfile::certs`: the certificates in PEM data up to the first malformed
/// section, which makes the whole an error. They depend on the data alone.
#[verifier::external_body]
fn read_certificates(pem: &[u8]) -> (r: Result<Vec<Vec<u8>>, String>)
    ensures
        certificates_view(r) == pem_certificates(pem@),
{
    let mut reader: &[u8] = pem;
    rustls_pemfile::certs(&mut reader)
        .map(|c| c.map(|c| c.as_ref().to_vec()).map_err(|e| e.to_string()))
        .collect()
}

/// `rustls_pemfile::private_key`: the first private key in PEM data, in one of the three
/// encodings that have a name. It depends on the data alone.
#[verifier::external_body]
fn read_private_key(pem: &[u8]) -> (r: Result<Option<PrivateKey>, String>)
    ensures
        key_view(r) == pem_private_key(pem@),
        r matches Ok(Some(k)) ==> k.kind != KeyKind::Other,
{
    let mut reader: &[u8] = pem;
    let key = rustls_pemfile::private_key(&mut reader).map_err(|e| e.to_string())?;
    Ok(key.map(|k| PrivateKey {
        kind: match &k {
            PrivateKeyDer::Pkcs1(_) => KeyKind::Pkcs1,
            PrivateKeyDer::Sec1(_) => KeyKind::Sec1,
            PrivateKeyDer::Pkcs8(_) => KeyKind::Pkcs8,
            _ => KeyKind::Other,
        },
        der: k.secret_der().to_vec(),
    }))
}

/// Puts together what was found in the two files.
pub fn combine(
    certificates: Result<Vec<Vec<u8>>, String>,
    key: Result<Option<PrivateKey>, String>,
    key_path: &str,
) -> (r: Result<TlsMaterial, TlsError>)
    ensures
        match (certificates, key) {
            (Err(e), _) => r == Err::<TlsMaterial, TlsError>(TlsError::Certificates(e)),
            (Ok(_), Err(e)) => r == Err::<TlsMaterial, TlsError>(TlsError::Key(e)),
            (Ok(_), Ok(None)) => r matches Err(TlsError::NoKey(path)) && path@ == key_path@,
            (Ok(chain), Ok(Some(key))) => r == Ok::<TlsMaterial, TlsError>(
                TlsMaterial { chain, key },
            ),
        },
{
    match certificates {
        Err(e) => Err(TlsError::Certificates(e)),
        Ok(chain) => match key {
            Err(e) => Err(TlsError::Key(e)),
            Ok(None) => Err(TlsError::NoKey(key_path.to_owned())),
            Ok(Some(key)) => Ok(TlsMaterial { chain, key }),
        },
    }
}

/// Reads the certificate chain and the key of a TLS server from the contents of their
/// files.
pub fn load_tls_material(crt: &[u8], key: &[u8], key_path: &str) -> (r: Result<
    TlsMaterial,
    TlsError,
>)
    ensures
        match (pem_certificates(crt@), pem_private_key(key@)) {
            (Err(e), _) => r matches Err(TlsError::Certificates(why)) && why@ == e,
            (Ok(_), Err(e)) => r matches Err(TlsError::Key(why)) && why@ == e,
            (Ok(_), Ok(None)) => r matches Err(TlsError::NoKey(path)) && path@ == key_path@,
            (Ok(chain), Ok(Some((kind, der)))) => r matches Ok(m) && m.chain@.map_values(
                |c: Vec<u8>| c@,
            ) == chain && m.key.kind == kind && m.key.der@ == der && kind != KeyKind::Other,
        },
{
    combine(read_certificates(crt), read_private_key(key), key_path)
}

/// What TLS connections are served with.
#[verifier::external_type_specification]
#[verifier::external_body]
pub struct ExServerConfig(rustls::ServerConfig);

/// Whether a configuration is one that `with_single_cert` makes for that certificate chain
/// and that key.
pub uninterp spec fn serves(
    config: ServerConfig,
    chain: Seq<Seq<u8>>,
    kind: KeyKind,
    key: Seq<u8>,
) -> bool;

/// `with_single_cert` on a builder of `rustls::ServerConfig` with the `ring` provider, the
/// default protocol versions and no client authentication: a configuration that serves with
/// the chain and the key, or why there is none. An empty chain gives none. Whether any other
/// does is not stated: loading a key draws on the machine's random numbers.
#[verifier::external_body]
fn server_config(material: TlsMaterial) -> (r: Result<ServerConfig, String>)
    requires
        material.key.kind != KeyKind::Other,
    ensures
        r matches Ok(config) ==> material.chain@.len() > 0 && serves(
            config,
            material.chain@.map_values(|c: Vec<u8>| c@),
            material.key.kind,
            material.key.der@,
        ),
{
    let chain = material.chain.into_iter().map(CertificateDer::from).collect();
    let key = match material.key.kind {
        KeyKind::Pkcs1 => PrivateKeyDer::Pkcs1(material.key.der.into()),
        KeyKind::Sec1 => PrivateKeyDer::Sec1(material.key.der.into()),
        _ => PrivateKeyDer::Pkcs8(material.key.der.into()),
    };
    ServerConfig::builder_with_provider(Arc::new(rustls::crypto::ring::default_provider()))
        .with_safe_default_protocol_versions()
        .and_then(|b| b.with_no_client_auth().with_single_cert(chain, key))
        .map_err(|e| e.to_string())
}

/// What the making of a configuration comes to.
pub fn config_of(made: Result<ServerConfig, String>) -> (r: Result<Arc<ServerConfig>, TlsError>)
    ensures
        match made {
            Ok(config) => r matches Ok(shared) && *shared == config,
            Err(e) => r == Err::<Arc<ServerConfig>, TlsError>(TlsError::Config(e)),
        },
{
    match made {
        Ok(config) => Ok(Arc::new(config)),
        Err(e) => Err(TlsError::Config(e)),
    }
}

/// Makes what a TLS server serves with from the contents of its certificate and key files.
pub fn load_tls_config(crt: &[u8], key: &[u8], key_path: &str) -> (r: Result<
    Arc<ServerConfig>,
    TlsError,
>)
    ensures
        match (pem_certificates(crt@), pem_private_key(key@)) {
            (Err(e), _) => r matches Err(TlsError::Certificates(why)) && why@ == e,
            (Ok(_), Err(e)) => r matches Err(TlsError::Key(why)) && why@ == e,
            (Ok(_), Ok(None)) => r matches Err(TlsError::NoKey(path)) && path@ == key_path@,
            (Ok(chain), Ok(Some((kind, der)))) => match r {
                Ok(config) => chain.len() > 0 && serves(*config, chain, kind, der),
                Err(e) => e is Config,
            },
        },
{
    match load_tls_material(crt, key, key_path) {
        Ok(material) => config_of(server_config(material)),
        Err(e) => Err(e),
    }
}

impl TlsError {
    /// Says why there is nothing to serve TLS with.
    pub fn message(&self) -> (r: String)
        ensures
            r@ == match self {
                TlsError::Certificates(e) => e@,
                TlsError::Key(e) => e@,
                TlsError::Config(e) => e@,
                TlsError::NoKey(path) => "no private key found in "@ + path@,
            },
    {
        match self {
            TlsError::Certificates(e) => e.clone(),
            TlsError::Key(e) => e.clone(),
            TlsError::Config(e) => e.clone(),
            TlsError::NoKey(path) => {
                let mut s = "no private key found in ".to_owned();
                s.append(path.as_str());
                s
            },
        }
    }
}

/// What is said of certificates and keys that were read is all that is in them.
pub proof fn readings_keep_everything(
    chain: Vec<Vec<u8>>,
    key: PrivateKey,
    why: String,
    i: int,
)
    ensures
        certificates_view(Ok(chain)) == Ok::<Seq<Seq<u8>>, Seq<char>>(
            chain@.map_values(|c: Vec<u8>| c@),
        ),
        0 <= i < chain@.len() ==> certificates_view(Ok(chain))->Ok_0[i] == chain@[i]@,
        certificates_view(Err(why)) == Err::<Seq<Seq<u8>>, Seq<char>>(why@),
        key_view(Ok(Some(key))) == Ok::<Option<(KeyKind, Seq<u8>)>, Seq<char>>(
            Some((key.kind, key.der@)),
        ),
        key_view(Ok(None)) == Ok::<Option<(KeyKind, Seq<u8>)>, Seq<char>>(None),
        key_view(Err(why)) == Err::<Option<(KeyKind, Seq<u8>)>, Seq<char>>(why@),
{
}

} // verus!
