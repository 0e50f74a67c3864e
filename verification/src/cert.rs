//! The certificate that the server presents.

use crate::bytes::vec_views;
use vstd::prelude::*;

verus! {

/// The name that the certificate is issued for.
pub const CERT_NAME: &'static str = "localhost";

/// The error of certificate generation (`rcgen::Error`).
#[verifier::external_type_specification]
#[verifier::external_body]
pub struct ExRcgenError(rcgen::Error);

/// Why there is no certificate.
#[derive(Debug)]
pub enum CertError {
    /// Generation failed.
    Generate(rcgen::Error),
}

/// The contents of each string in `v`.
pub open spec fn string_views(v: Seq<String>) -> Seq<Seq<char>> {
    Seq::new(v.len(), |i: int| v[i]@)
}

/// Whether `cert` is the DER encoding of a certificate for `names` that is signed
/// with its own key, and `key` the PKCS#8 encoding of that key.
pub uninterp spec fn self_signed_for(
    names: Seq<Seq<char>>,
    cert: Seq<u8>,
    key: Seq<u8>,
) -> bool;

/// Trusted: `rcgen::generate_simple_self_signed` makes a fresh key pair and a
/// certificate for `names` signed with it, or fails. Which key pair comes out is
/// left to chance, and when generation fails is not described.
#[verifier::external_body]
fn self_signed(names: Vec<String>) -> (issued: Result<(Vec<u8>, Vec<u8>), rcgen::Error>)
    ensures
        issued matches Ok((cert, key)) ==> self_signed_for(string_views(names@), cert@, key@),
{
    let issued = rcgen::generate_simple_self_signed(names)?;
    Ok((issued.cert.der().to_vec(), issued.key_pair.serialize_der()))
}

/// Whether a call of the generator for `names` has come out at `issued`. Only such a
/// call shows it.
pub closed spec fn was_issued(
    names: Seq<Seq<char>>,
    issued: Result<(Vec<u8>, Vec<u8>), rcgen::Error>,
) -> bool {
    exists|v: Vec<String>|
        string_views(v@) == names && #[trigger] call_ensures(self_signed, (v,), issued)
}

/// The chain to present, the private key, and the certificate itself, from a
/// certificate and its key. The chain is the certificate alone.
pub fn identity_from(issued: Result<(Vec<u8>, Vec<u8>), rcgen::Error>) -> (identity: Result<
    (Vec<Vec<u8>>, Vec<u8>, Vec<u8>),
    CertError,
>)
    ensures
        match issued {
            Ok((cert, key)) => {
                &&& identity matches Ok((chain, priv_key, cert_der))
                &&& vec_views(chain@) == seq![cert@]
                &&& priv_key@ == key@
                &&& cert_der@ == cert@
            },
            Err(e) => identity == Err::<(Vec<Vec<u8>>, Vec<u8>, Vec<u8>), CertError>(
                CertError::Generate(e),
            ),
        },
{
    match issued {
        Ok((cert, key)) => {
            let mut chain: Vec<Vec<u8>> = Vec::new();
            chain.push(vstd::slice::slice_to_vec(cert.as_slice()));
            proof {
                assert(vec_views(chain@) =~= seq![cert@]);
            }
            Ok((chain, key, cert))
        },
        Err(e) => Err(CertError::Generate(e)),
    }
}

/// Generates a self-signed certificate for `CERT_NAME`: the chain to present, the
/// private key, and the certificate itself, each in DER.
pub fn generate_cert() -> (identity: Result<(Vec<Vec<u8>>, Vec<u8>, Vec<u8>), CertError>)
    ensures
        identity matches Ok((chain, priv_key, cert_der)) ==> {
            &&& vec_views(chain@) == seq![cert_der@]
            &&& self_signed_for(seq![CERT_NAME@], cert_der@, priv_key@)
        },
        exists|issued: Result<(Vec<u8>, Vec<u8>), rcgen::Error>|
            #[trigger] was_issued(seq![CERT_NAME@], issued) && match issued {
                Ok((cert, key)) => {
                    &&& identity matches Ok((chain, priv_key, cert_der))
                    &&& vec_views(chain@) == seq![cert@]
                    &&& priv_key@ == key@
                    &&& cert_der@ == cert@
                },
                Err(e) => identity == Err::<(Vec<Vec<u8>>, Vec<u8>, Vec<u8>), CertError>(
                    CertError::Generate(e),
                ),
            },
{
    let mut names: Vec<String> = Vec::new();
    names.push(CERT_NAME.to_owned());
    proof {
        assert(string_views(names@) =~= seq![CERT_NAME@]);
    }
    let issued = self_signed(names);
    proof {
        assert(was_issued(seq![CERT_NAME@], issued));
    }
    identity_from(issued)
}

/// The contents of strings stand one for one, in their order.
pub proof fn law_string_views(v: Seq<String>, i: int)
    ensures
        string_views(v).len() == v.len(),
        0 <= i < v.len() ==> string_views(v)[i] == v[i]@,
{
}

/// The chain holds the certificate and nothing else, the key is the one that came
/// with it, and a failure to issue is passed on.
pub proof fn law_identity_from(
    cert: Vec<u8>,
    key: Vec<u8>,
    error: rcgen::Error,
    identity: Result<(Vec<Vec<u8>>, Vec<u8>, Vec<u8>), CertError>,
)
    ensures
        call_ensures(identity_from, (Ok((cert, key)),), identity) ==> (identity matches Ok(
            (chain, priv_key, cert_der),
        ) && chain@.len() == 1 && chain@[0]@ == cert@ && priv_key@ == key@ && cert_der@ == cert@),
        call_ensures(identity_from, (Err(error),), identity) ==> (identity matches Err(
            CertError::Generate(e),
        ) && e == error),
{
    if call_ensures(identity_from, (Ok((cert, key)),), identity) {
        let chain = identity.unwrap().0;
        assert(vec_views(chain@).len() == chain@.len());
        assert(vec_views(chain@)[0] == chain@[0]@);
    }
}

/// The certificate is issued for `localhost` and no other name, with the key that is
/// handed out, and it alone makes up the chain.
pub proof fn law_generated_for_localhost(
    chain: Vec<Vec<u8>>,
    priv_key: Vec<u8>,
    cert_der: Vec<u8>,
)
    requires
        call_ensures(
            generate_cert,
            (),
            Ok::<(Vec<Vec<u8>>, Vec<u8>, Vec<u8>), CertError>((chain, priv_key, cert_der)),
        ),
    ensures
        self_signed_for(seq!["localhost"@], cert_der@, priv_key@),
        chain@.len() == 1,
        chain@[0]@ == cert_der@,
{
    assert(vec_views(chain@).len() == chain@.len());
    assert(vec_views(chain@)[0] == chain@[0]@);
}

/// What was issued for names is what a call of the generator for exactly those names
/// came out at.
proof fn law_was_issued_is_outcome(
    names: Seq<Seq<char>>,
    issued: Result<(Vec<u8>, Vec<u8>), rcgen::Error>,
)
    requires
        was_issued(names, issued),
    ensures
        exists|v: Vec<String>| #[trigger]
            call_ensures(self_signed, (v,), issued) && v@.len() == names.len() && forall|i: int|
                0 <= i < names.len() ==> (#[trigger] v@[i])@ == names[i],
        issued matches Ok((cert, key)) ==> self_signed_for(names, cert@, key@),
{
    let v = choose|v: Vec<String>|
        string_views(v@) == names && #[trigger] call_ensures(self_signed, (v,), issued);
    assert forall|i: int| 0 <= i < names.len() implies (#[trigger] v@[i])@ == names[i] by {
        assert(string_views(v@)[i] == v@[i]@);
    }
    assert(call_ensures(self_signed, (v,), issued));
}

/// There is an identity exactly where the generator issued a certificate for
/// `localhost`: a failure is the generator's own, on that name.
pub proof fn law_failure_is_generators(
    identity: Result<(Vec<Vec<u8>>, Vec<u8>, Vec<u8>), CertError>,
)
    requires
        call_ensures(generate_cert, (), identity),
    ensures
        exists|issued: Result<(Vec<u8>, Vec<u8>), rcgen::Error>| #[trigger]
            was_issued(seq!["localhost"@], issued) && (identity is Ok <==> issued is Ok) && (
            identity matches Err(CertError::Generate(e)) ==> issued == Err::<
                (Vec<u8>, Vec<u8>),
                rcgen::Error,
            >(e)),
{
}

} // verus!
