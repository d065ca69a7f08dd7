//! Presigned download links: an HMAC-SHA256 signature over the path and the expiry time.
use vstd::prelude::*;
use vstd::string::{StringExecFns, StringSliceAdditionalSpecFns};
use vstd::utf8::encode_utf8;
use crate::system::{os_random_bytes, system_clock};
use crate::text::{decimal, decimal_string, owned};
use hmac::Mac;

verus! {

broadcast use vstd::utf8::encode_utf8_decode_utf8;

/// Seconds a presigned link stays valid.
pub const DEFAULT_TTL_SECS: u64 = 900;

/// The HMAC-SHA256 tag of `message` under `key`.
pub uninterp spec fn hmac_sha256(key: Seq<u8>, message: Seq<u8>) -> Seq<u8>;

/// HMAC-SHA256 of `message` under `key` (`Hmac::<Sha256>::new_from_slice`, `Mac::update`,
/// `Mac::finalize`). HMAC takes keys of any length, so the key is always accepted; the
/// tag is 32 bytes long.
#[verifier::external_body]
fn mac_sha256(key: &[u8], message: &[u8]) -> (r: Vec<u8>)
    ensures
        r@ == hmac_sha256(key@, message@),
        r@.len() == 32,
{
    let mut mac = <hmac::Hmac<sha2::Sha256> as Mac>::new_from_slice(key).unwrap();
    mac.update(message);
    mac.finalize().into_bytes().to_vec()
}

/// The lowercase hexadecimal digit for `n < 16`.
pub open spec fn hex_digit_lower(n: int) -> char {
    if n < 10 {
        (48 + n) as char
    } else {
        (87 + n) as char
    }
}

/// Bytes as lowercase hexadecimal, two digits per byte.
pub open spec fn hex_lower(bytes: Seq<u8>) -> Seq<char>
    decreases bytes.len(),
{
    if bytes.len() == 0 {
        Seq::empty()
    } else {
        hex_lower(bytes.drop_last()) + seq![
            hex_digit_lower(bytes.last() as int / 16),
            hex_digit_lower(bytes.last() as int % 16),
        ]
    }
}

/// Bytes as lowercase hexadecimal (`hex::encode`).
#[verifier::external_body]
pub(crate) fn hex_encode(bytes: &[u8]) -> (r: String)
    ensures
        r@ == hex_lower(bytes@),
{
    hex::encode(bytes)
}

/// Bytes that URL encoding leaves as they are: ASCII letters and digits, '-', '.', '_', '~'.
pub open spec fn url_unreserved(b: u8) -> bool {
    (48 <= b <= 57) || (65 <= b <= 90) || (97 <= b <= 122) || b == 45 || b == 46 || b == 95 || b == 126
}

/// The uppercase hexadecimal digit for `n < 16`.
pub open spec fn hex_digit_upper(n: int) -> char {
    if n < 10 {
        (48 + n) as char
    } else {
        (55 + n) as char
    }
}

/// Bytes percent-encoded: unreserved bytes kept, every other byte as '%' and two
/// uppercase hexadecimal digits.
pub open spec fn percent_encoded(bytes: Seq<u8>) -> Seq<char>
    decreases bytes.len(),
{
    if bytes.len() == 0 {
        Seq::empty()
    } else {
        percent_encoded(bytes.drop_last()) + if url_unreserved(bytes.last()) {
            seq![bytes.last() as char]
        } else {
            seq!['%', hex_digit_upper(bytes.last() as int / 16), hex_digit_upper(bytes.last() as int % 16)]
        }
    }
}

/// The UTF-8 bytes of a string, percent-encoded (`urlencoding::encode`).
#[verifier::external_body]
pub(crate) fn url_encode(s: &str) -> (r: String)
    ensures
        r@ == percent_encoded(s.spec_bytes()),
{
    urlencoding::encode(s).into_owned()
}

/// Whole seconds since the Unix epoch on the wall clock; `None` when the clock is set
/// before the epoch.
pub(crate) fn unix_time_secs() -> Option<u64> {
    match system_clock() {
        Ok((s, _)) => Some(s),
        Err(_) => None,
    }
}

/// Whether two byte strings are equal. Every byte pair is examined, whatever the
/// outcome, so the time taken does not reveal where they differ.
pub fn constant_time_eq(a: &[u8], b: &[u8]) -> (r: bool)
    ensures
        r == (a@ == b@),
{
    if a.len() != b.len() {
        return false;
    }
    let n = a.len();
    let mut acc: u8 = 0;
    let mut i: usize = 0;
    while i < n
        invariant
            n == a@.len(),
            n == b@.len(),
            i <= n,
            (acc == 0) <==> forall|k: int| 0 <= k < i ==> a@[k] == b@[k],
        decreases n - i,
    {
        let x = a[i];
        let y = b[i];
        let d = x ^ y;
        let next = acc | d;
        assert((d == 0) <==> (x == y)) by (bit_vector)
            requires
                d == x ^ y,
        ;
        assert((next == 0) <==> (acc == 0 && d == 0)) by (bit_vector)
            requires
                next == acc | d,
        ;
        acc = next;
        i = i + 1;
        assert((acc == 0) <==> forall|k: int| 0 <= k < i ==> a@[k] == b@[k]) by {
            if acc == 0 {
                assert forall|k: int| 0 <= k < i implies a@[k] == b@[k] by {
                    if k < i - 1 {
                    } else {
                        assert(k == i - 1);
                    }
                }
            }
        }
    }
    let r = acc == 0;
    assert(r ==> a@ =~= b@);
    r
}

/// The text a link's signature covers: the path, '|', and the expiry in decimal.
pub open spec fn signed_text(path: Seq<char>, exp: u64) -> Seq<char> {
    path + "|"@ + decimal(exp as nat)
}

/// The signature of a link to `path` expiring at `exp`, under `key`.
pub open spec fn signature_for(key: Seq<u8>, path: Seq<char>, exp: u64) -> Seq<char> {
    hex_lower(hmac_sha256(key, encode_utf8(signed_text(path, exp))))
}

/// Why a link is refused, or `None` when it is accepted; `now` is absent when the clock
/// reads before the epoch, which no expiry time has yet passed.
pub open spec fn verdict(key: Seq<u8>, path: Seq<char>, exp: u64, sig: Seq<char>, now: Option<u64>) -> Option<Seq<char>> {
    if now matches Some(t) && t > exp {
        Some("Token expired"@)
    } else if sig != signature_for(key, path, exp) {
        Some("Invalid signature"@)
    } else {
        None
    }
}

/// The link to `path` expiring at `exp`, as handed to clients.
pub open spec fn link_for(base: Seq<char>, key: Seq<u8>, path: Seq<char>, exp: u64) -> Seq<char> {
    base + "/api/dl?path="@ + percent_encoded(encode_utf8(path)) + "&exp="@ + decimal(exp as nat) + "&sig="@
        + signature_for(key, path, exp)
}

/// The view of an optional string.
pub open spec fn opt_view(s: Option<String>) -> Option<Seq<char>> {
    match s {
        Some(x) => Some(x@),
        None => None,
    }
}

/// The link to `path` handed out at clock reading `now`: it expires 15 minutes later.
/// There is none when the clock reads before the epoch or the expiry time does not fit.
pub open spec fn link_at(base: Seq<char>, key: Seq<u8>, path: Seq<char>, now: Option<u64>) -> Option<Seq<char>> {
    match now {
        Some(t) => if t + DEFAULT_TTL_SECS <= u64::MAX {
            Some(link_for(base, key, path, (t + DEFAULT_TTL_SECS) as u64))
        } else {
            None
        },
        None => None,
    }
}

/// Signs and checks download links with a secret key.
#[derive(Clone, Debug)]
pub struct DownloadSigner {
    key: Vec<u8>,
    base_url: String,
}

impl DownloadSigner {
    /// The signing key.
    pub closed spec fn key(&self) -> Seq<u8> {
        self.key@
    }

    /// The URL prefix of links.
    pub closed spec fn base(&self) -> Seq<char> {
        self.base_url@
    }

    /// A signer with a fresh 32-byte key from the operating system's random source;
    /// `None` when that source fails.
    pub fn new(base_url: String) -> (r: Option<DownloadSigner>)
        ensures
            r matches Some(s) ==> s.key().len() == 32 && s.base() == base_url@,
    {
        match os_random_bytes(32) {
            Some(key) => Some(DownloadSigner { key, base_url }),
            None => None,
        }
    }

    /// A copy with the same key and base URL: links it signs verify at `self` and back.
    pub fn duplicate(&self) -> (r: DownloadSigner)
        ensures
            r.key() == self.key(),
            r.base() == self.base(),
    {
        DownloadSigner { key: self.key.clone(), base_url: self.base_url.clone() }
    }

    /// A signer with the given key.
    pub fn with_key(key: Vec<u8>, base_url: String) -> (r: DownloadSigner)
        ensures
            r.key() == key@,
            r.base() == base_url@,
    {
        DownloadSigner { key, base_url }
    }

    /// The signature of a link to `path` expiring at `exp`.
    pub fn compute_sig(&self, path: &str, exp: u64) -> (r: String)
        ensures
            r@ == signature_for(self.key(), path@, exp),
    {
        let mut text = owned(path);
        text.append("|");
        let e = decimal_string(exp);
        text.append(e.as_str());
        let tag = mac_sha256(self.key.as_slice(), text.as_str().as_bytes());
        hex_encode(tag.as_slice())
    }

    /// The link to `path` expiring at `exp`.
    pub fn sign_at(&self, path: &str, exp: u64) -> (r: String)
        ensures
            r@ == link_for(self.base(), self.key(), path@, exp),
    {
        let sig = self.compute_sig(path, exp);
        let encoded = url_encode(path);
        let mut url = self.base_url.clone();
        url.append("/api/dl?path=");
        url.append(encoded.as_str());
        url.append("&exp=");
        let e = decimal_string(exp);
        url.append(e.as_str());
        url.append("&sig=");
        url.append(sig.as_str());
        url
    }

    /// The link to `path` for a clock reading of `now` seconds: valid for 15 minutes from
    /// then; `None` when the expiry time cannot be represented.
    pub fn sign_from(&self, path: &str, now: u64) -> (r: Option<String>)
        ensures
            opt_view(r) == link_at(self.base(), self.key(), path@, Some(now)),
    {
        match now.checked_add(DEFAULT_TTL_SECS) {
            Some(exp) => Some(self.sign_at(path, exp)),
            None => None,
        }
    }

    /// A link to `path` valid for 15 minutes from now (see `sign_from`); `None` when the
    /// clock reads before the epoch or the expiry time cannot be represented.
    pub fn sign(&self, path: &str) -> (r: Option<String>)
        ensures
            exists|now: Option<u64>| opt_view(r) == #[trigger] link_at(self.base(), self.key(), path@, now),
    {
        let now = unix_time_secs();
        let r = match now {
            Some(t) => self.sign_from(path, t),
            None => None,
        };
        assert(opt_view(r) == link_at(self.base(), self.key(), path@, now));
        r
    }

    /// Checks a link against the clock reading `now`: refused as expired once `now` is
    /// past `exp`, refused when the signature is not the one for `path` and `exp`;
    /// otherwise the path the link grants.
    pub fn verify_at(&self, path: &str, exp: u64, sig: &str, now: Option<u64>) -> (r: Result<String, &'static str>)
        ensures
            match verdict(self.key(), path@, exp, sig@, now) {
                None => r matches Ok(p) && p@ == path@,
                Some(msg) => r matches Err(e) && e@ == msg,
            },
    {
        match now {
            Some(t) => {
                if t > exp {
                    return Err("Token expired");
                }
            },
            None => {},
        }
        let expected = self.compute_sig(path, exp);
        let expected_str = expected.as_str();
        if !constant_time_eq(sig.as_bytes(), expected_str.as_bytes()) {
            assert(sig@ != expected@) by {
                if sig@ == expected@ {
                    assert(sig.spec_bytes() == expected_str.spec_bytes());
                }
            }
            return Err("Invalid signature");
        }
        assert(sig@ == expected@) by {
            assert(vstd::utf8::decode_utf8(encode_utf8(sig@)) == sig@);
            assert(vstd::utf8::decode_utf8(encode_utf8(expected@)) == expected@);
        }
        Ok(owned(path))
    }

    /// Checks a link against the current time (see `verify_at`); returns the path it
    /// grants.
    pub fn verify(&self, path: &str, exp: u64, sig: &str) -> (r: Result<String, &'static str>)
        ensures
            exists|now: Option<u64>| #![trigger verdict(self.key(), path@, exp, sig@, now)] match verdict(self.key(), path@, exp, sig@, now) {
                None => r matches Ok(p) && p@ == path@,
                Some(msg) => r matches Err(e) && e@ == msg,
            },
    {
        let now = unix_time_secs();
        let r = self.verify_at(path, exp, sig, now);
        // The clock reading `now` is the one the link was judged at.
        assert(match verdict(self.key(), path@, exp, sig@, now) {
            None => r matches Ok(p) && p@ == path@,
            Some(msg) => r matches Err(e) && e@ == msg,
        });
        r
    }
}

/// Law: a link's own signature is accepted until it expires.
pub proof fn law_fresh_link_accepted(key: Seq<u8>, path: Seq<char>, exp: u64, now: u64)
    requires
        now <= exp,
    ensures
        verdict(key, path, exp, signature_for(key, path, exp), Some(now)) is None,
{
}

/// Law: once past its expiry a link is refused, whatever its signature.
pub proof fn law_expired_link_refused(key: Seq<u8>, path: Seq<char>, exp: u64, sig: Seq<char>, now: u64)
    requires
        now > exp,
    ensures
        verdict(key, path, exp, sig, Some(now)) == Some("Token expired"@),
{
}

/// Law: a signature other than the link's own is refused.
pub proof fn law_wrong_signature_refused(key: Seq<u8>, path: Seq<char>, exp: u64, sig: Seq<char>, now: Option<u64>)
    requires
        sig != signature_for(key, path, exp),
    ensures
        verdict(key, path, exp, sig, now) is Some,
{
}

/// Law: a link handed out at clock reading `now` is accepted, with its own signature,
/// at any reading up to 15 minutes later.
pub proof fn law_signed_link_accepted(base: Seq<char>, key: Seq<u8>, path: Seq<char>, now: u64, later: u64)
    requires
        link_at(base, key, path, Some(now)) is Some,
        later <= now + DEFAULT_TTL_SECS,
    ensures
        ({
            let exp = (now + DEFAULT_TTL_SECS) as u64;
            &&& link_at(base, key, path, Some(now)) == Some(link_for(base, key, path, exp))
            &&& verdict(key, path, exp, signature_for(key, path, exp), Some(later)) is None
        }),
{
}

} // verus!
