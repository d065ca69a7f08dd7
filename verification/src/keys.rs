//! API keys: an administrator key made at start-up, keys from the configuration, and
//! revocable keys generated for clients. Keys are found by their secret.
use vstd::prelude::*;
use vstd::string::{StringExecFns, StringSliceAdditionalSpecFns};
use vstd::utf8::{decode_utf8, encode_utf8, is_char_boundary};
use crate::config::ApiKeyEntry;
use crate::download::{constant_time_eq, hex_encode, hex_lower};
use crate::models::{Timestamp, now};
use crate::system::os_random_bytes;
use crate::order::{Ranked, ranked_sort, sort_ranked, first_match, lemma_first_match, lemma_first_match_at, lemma_first_match_none};
use crate::text::{owned, str_equal};

verus! {

broadcast use vstd::utf8::encode_utf8_decode_utf8;

/// A key and who it belongs to.
#[derive(Clone, Debug)]
pub struct ApiKey {
    pub name: String,
    pub key: String,
    pub created_at: Timestamp,
    /// Keys generated for clients can be revoked; the administrator's and configured keys cannot.
    pub revocable: bool,
}

impl ApiKey {
    /// A copy equal to `self`.
    pub fn duplicate(&self) -> (r: ApiKey)
        ensures
            r == *self,
    {
        ApiKey { name: self.name.clone(), key: self.key.clone(), created_at: self.created_at, revocable: self.revocable }
    }
}

/// What a key listing shows of a key: its secret is cut to a short prefix.
#[derive(Clone, Debug)]
pub struct ApiKeyInfo {
    pub name: String,
    pub created_at: Timestamp,
    pub revocable: bool,
    pub key_prefix: String,
}

impl Ranked for ApiKeyInfo {
    /// Oldest first.
    open spec fn rank(&self) -> (int, int) {
        (self.created_at.ord_key(), 0)
    }

    fn ranks_before(&self, other: &ApiKeyInfo) -> (r: bool) {
        self.created_at.is_before(&other.created_at)
    }
}

/// The key's secret is `secret`.
pub open spec fn secret_is(secret: Seq<char>) -> spec_fn(ApiKey) -> bool {
    |k: ApiKey| k.key@ == secret
}

/// The key's name is `name`.
pub open spec fn named(name: Seq<char>) -> spec_fn(ApiKey) -> bool {
    |k: ApiKey| k.name@ == name
}

/// No two keys share a secret.
pub open spec fn distinct_secrets(keys: Seq<ApiKey>) -> bool {
    forall|i: int, j: int| 0 <= i < j < keys.len() ==> (#[trigger] keys[i]).key@ != (#[trigger] keys[j]).key@
}

/// `keys` with `k` stored under its secret: replacing the key with that secret, or added
/// at the end.
pub open spec fn stored(keys: Seq<ApiKey>, k: ApiKey) -> Seq<ApiKey> {
    match first_match(keys, secret_is(k.key@)) {
        Some(i) => keys.update(i, k),
        None => keys.push(k),
    }
}

/// The name of the key with secret `secret`, if any.
pub open spec fn owner(keys: Seq<ApiKey>, secret: Seq<char>) -> Option<Seq<char>> {
    match first_match(keys, secret_is(secret)) {
        Some(i) => Some(keys[i].name@),
        None => None,
    }
}

/// No entry after `i`, up to `n`, has the secret of entry `i`: entry `i` is the last
/// with its secret, so its name is the one kept.
pub open spec fn last_with_key(entries: Seq<ApiKeyEntry>, i: int, n: int) -> bool {
    forall|j: int| i < j < n ==> entries[j].key@ != entries[i].key@
}

/// The listing prefix of a secret: its first 8 bytes (all of it when shorter), then "...".
pub open spec fn secret_prefix(key: Seq<char>) -> Seq<char> {
    if encode_utf8(key).len() <= 8 {
        key + "..."@
    } else {
        decode_utf8(encode_utf8(key).take(8)) + "..."@
    }
}

/// A secret can be cut after its 8th byte (or is no longer than that).
pub open spec fn prefixable(key: Seq<char>) -> bool {
    encode_utf8(key).len() <= 8 || is_char_boundary(encode_utf8(key), 8)
}

/// `info` describes `k`.
pub open spec fn describes(info: ApiKeyInfo, k: ApiKey) -> bool {
    &&& info.name@ == k.name@
    &&& info.created_at == k.created_at
    &&& info.revocable == k.revocable
    &&& info.key_prefix@ == secret_prefix(k.key@)
}

/// Hex text is twice as long as its bytes.
pub proof fn lemma_hex_len(bytes: Seq<u8>)
    ensures
        hex_lower(bytes).len() == 2 * bytes.len(),
    decreases bytes.len(),
{
    if bytes.len() > 0 {
        lemma_hex_len(bytes.drop_last());
    }
}

/// A fresh secret: 32 bytes from the operating system's random source, in hexadecimal;
/// `None` when that source fails.
pub fn generate_secret() -> (r: Option<String>)
    ensures
        r matches Some(k) ==> k@.len() == 64 && exists|bytes: Seq<u8>| bytes.len() == 32 && k@ == #[trigger] hex_lower(bytes),
{
    match os_random_bytes(32) {
        Some(bytes) => {
            let r = hex_encode(bytes.as_slice());
            proof {
                lemma_hex_len(bytes@);
            }
            Some(r)
        },
        None => None,
    }
}

/// The listing prefix of a secret.
pub fn key_prefix(key: &str) -> (r: String)
    requires
        prefixable(key@),
    ensures
        r@ == secret_prefix(key@),
{
    if key.as_bytes().len() <= 8 {
        let mut s = owned(key);
        s.append("...");
        s
    } else {
        let (head, _rest) = key.split_at(8);
        proof {
            assert(head.spec_bytes() =~= encode_utf8(key@).take(8));
            assert(head@ == decode_utf8(encode_utf8(head@)));
        }
        let mut s = owned(head);
        s.append("...");
        s
    }
}

/// The key store.
#[derive(Clone, Debug)]
pub struct KeyStore {
    keys: Vec<ApiKey>,
}

impl View for KeyStore {
    type V = Seq<ApiKey>;

    closed spec fn view(&self) -> Seq<ApiKey> {
        self.keys@
    }
}

impl KeyStore {
    /// The store's invariant: secrets are distinct.
    pub open spec fn wf(&self) -> bool {
        distinct_secrets(self@)
    }

    /// Position of the key with a given secret.
    fn find_secret(&self, secret: &String) -> (r: Option<usize>)
        ensures
            r matches Some(i) ==> i < self@.len() && first_match(self@, secret_is(secret@)) == Some(i as int),
            r is None ==> first_match(self@, secret_is(secret@)) is None,
    {
        let n = self.keys.len();
        let mut i: usize = 0;
        while i < n
            invariant
                n == self.keys@.len(),
                i <= n,
                forall|k: int| 0 <= k < i ==> !secret_is(secret@)(#[trigger] self.keys@[k]),
            decreases n - i,
        {
            if self.keys[i].key == *secret {
                proof {
                    lemma_first_match_at(self.keys@, secret_is(secret@), i as int);
                }
                return Some(i);
            }
            i = i + 1;
        }
        proof {
            lemma_first_match_none(self.keys@, secret_is(secret@));
        }
        None
    }

    /// Stores a key under its secret, replacing any key with the same secret.
    pub fn store(&mut self, k: ApiKey)
        requires
            old(self).wf(),
        ensures
            final(self).wf(),
            final(self)@ == stored(old(self)@, k),
    {
        match self.find_secret(&k.key) {
            Some(i) => {
                self.keys.set(i, k);
                proof {
                    lemma_first_match(old(self)@, secret_is(k.key@));
                    let s = self.keys@;
                    assert forall|a: int, b: int| 0 <= a < b < s.len() implies (#[trigger] s[a]).key@ != (#[trigger] s[b]).key@ by {
                        if a == i {
                            assert(old(self)@[b].key@ != old(self)@[a].key@);
                        } else if b == i {
                            assert(old(self)@[b].key@ != old(self)@[a].key@);
                        }
                    }
                }
            },
            None => {
                self.keys.push(k);
                proof {
                    lemma_first_match(old(self)@, secret_is(k.key@));
                    let s = self.keys@;
                    assert forall|a: int, b: int| 0 <= a < b < s.len() implies (#[trigger] s[a]).key@ != (#[trigger] s[b]).key@ by {
                        if b == s.len() - 1 {
                            assert(!secret_is(k.key@)(old(self)@[a]));
                        }
                    }
                }
            },
        }
    }

    /// A store holding the administrator key `admin_secret`, then the configured keys in
    /// order, all created at `at` and none revocable. Returns the store and the
    /// administrator secret.
    pub fn new_with(admin_secret: String, at: Timestamp, config_keys: Vec<ApiKeyEntry>) -> (r: (KeyStore, String))
        ensures
            r.0.wf(),
            r.1@ == admin_secret@,
            forall|i: int| 0 <= i < r.0@.len() ==> !(#[trigger] r.0@[i]).revocable && r.0@[i].created_at == at,
            forall|i: int| 0 <= i < config_keys@.len() ==> owner(r.0@, (#[trigger] config_keys@[i]).key@) is Some,
            (forall|i: int| 0 <= i < config_keys@.len() ==> (#[trigger] config_keys@[i]).key@ != admin_secret@)
                ==> owner(r.0@, admin_secret@) == Some("admin"@),
            forall|i: int|
                0 <= i < config_keys@.len() && #[trigger] last_with_key(config_keys@, i, config_keys@.len() as int)
                    ==> owner(r.0@, config_keys@[i].key@) == Some(config_keys@[i].name@),
    {
        let mut store = KeyStore { keys: Vec::new() };
        let admin = ApiKey { name: owned("admin"), key: admin_secret.clone(), created_at: at, revocable: false };
        store.store(admin);
        let n = config_keys.len();
        let mut i: usize = 0;
        while i < n
            invariant
                n == config_keys@.len(),
                i <= n,
                store.wf(),
                forall|k: int| 0 <= k < store@.len() ==> !(#[trigger] store@[k]).revocable && store@[k].created_at == at,
                forall|k: int| 0 <= k < i ==> owner(store@, (#[trigger] config_keys@[k]).key@) is Some,
                (forall|k: int| 0 <= k < i ==> (#[trigger] config_keys@[k]).key@ != admin_secret@)
                    ==> owner(store@, admin_secret@) == Some("admin"@),
                forall|k: int|
                    0 <= k < i && #[trigger] last_with_key(config_keys@, k, i as int) ==> owner(store@, config_keys@[k].key@)
                        == Some(config_keys@[k].name@),
            decreases n - i,
        {
            let entry = &config_keys[i];
            let k = ApiKey { name: entry.name.clone(), key: entry.key.clone(), created_at: at, revocable: false };
            let ghost before = store@;
            store.store(k);
            proof {
                lemma_store_owner(before, k);
                assert forall|m: int|
                    0 <= m < i + 1 && #[trigger] last_with_key(config_keys@, m, i + 1) implies owner(store@, config_keys@[m].key@)
                        == Some(config_keys@[m].name@) by {
                    if m < i {
                        assert(config_keys@[i as int].key@ != config_keys@[m].key@);
                        assert(last_with_key(config_keys@, m, i as int));
                        lemma_store_other_owner(before, k, config_keys@[m].key@);
                    }
                }
                assert forall|m: int| 0 <= m < i + 1 implies owner(store@, (#[trigger] config_keys@[m]).key@) is Some by {
                    if m < i && config_keys@[m].key@ != k.key@ {
                        lemma_store_other_owner(before, k, config_keys@[m].key@);
                    }
                }
                if forall|m: int| 0 <= m < i + 1 ==> (#[trigger] config_keys@[m]).key@ != admin_secret@ {
                    assert(config_keys@[i as int].key@ != admin_secret@);
                    lemma_store_other_owner(before, k, admin_secret@);
                }
                let s = store@;
                assert forall|m: int| 0 <= m < s.len() implies !(#[trigger] s[m]).revocable && s[m].created_at == at by {
                    lemma_first_match(before, secret_is(k.key@));
                }
            }
            i = i + 1;
        }
        (store, admin_secret)
    }

    /// A store with a fresh administrator key and the configured keys, all created now
    /// (see `new_with`); `None` when the operating system's random source fails.
    pub fn new(config_keys: Vec<ApiKeyEntry>) -> (res: Option<(KeyStore, String)>)
        ensures
            res matches Some(r) ==> {
            &&& r.0.wf()
            &&& r.1@.len() == 64
            &&& exists|bytes: Seq<u8>| bytes.len() == 32 && r.1@ == #[trigger] hex_lower(bytes)
            &&& forall|i: int| 0 <= i < r.0@.len() ==> !(#[trigger] r.0@[i]).revocable
            &&& forall|i: int, j: int|
                0 <= i < r.0@.len() && 0 <= j < r.0@.len() ==> (#[trigger] r.0@[i]).created_at == (#[trigger] r.0@[j]).created_at
            &&& forall|i: int| 0 <= i < config_keys@.len() ==> owner(r.0@, (#[trigger] config_keys@[i]).key@) is Some
            &&& (forall|i: int| 0 <= i < config_keys@.len() ==> (#[trigger] config_keys@[i]).key@ != r.1@)
                ==> owner(r.0@, r.1@) == Some("admin"@)
            &&& forall|i: int|
                0 <= i < config_keys@.len() && #[trigger] last_with_key(config_keys@, i, config_keys@.len() as int)
                    ==> owner(r.0@, config_keys@[i].key@) == Some(config_keys@[i].name@)
            },
    {
        match generate_secret() {
            Some(secret) => {
                let at = now();
                Some(KeyStore::new_with(secret, at, config_keys))
            },
            None => None,
        }
    }

    /// The name of the key whose secret is `secret`. Every key is compared, whether or
    /// not one matched already.
    pub fn validate(&self, secret: &str) -> (r: Option<String>)
        requires
            self.wf(),
        ensures
            match owner(self@, secret@) {
                Some(name) => r matches Some(n) && n@ == name,
                None => r is None,
            },
    {
        let mut matched: Option<String> = None;
        let n = self.keys.len();
        let mut i: usize = 0;
        while i < n
            invariant
                n == self.keys@.len(),
                i <= n,
                self.wf(),
                matched is None <==> forall|k: int| 0 <= k < i ==> !secret_is(secret@)(#[trigger] self.keys@[k]),
                matched matches Some(m) ==> exists|k: int| 0 <= k < i && secret_is(secret@)(#[trigger] self.keys@[k]) && self.keys@[k].name@ == m@,
            decreases n - i,
        {
            let entry = &self.keys[i];
            let entry_str = entry.key.as_str();
            if constant_time_eq(entry_str.as_bytes(), secret.as_bytes()) {
                proof {
                    assert(entry.key@ == secret@) by {
                        assert(vstd::utf8::decode_utf8(encode_utf8(entry.key@)) == entry.key@);
                        assert(vstd::utf8::decode_utf8(encode_utf8(secret@)) == secret@);
                    }
                }
                matched = Some(entry.name.clone());
            } else {
                proof {
                    if entry.key@ == secret@ {
                        assert(entry_str.spec_bytes() == secret.spec_bytes());
                    }
                }
            }
            i = i + 1;
        }
        proof {
            lemma_first_match(self.keys@, secret_is(secret@));
            if matched is Some {
                let k = choose|k: int| 0 <= k < n && secret_is(secret@)(#[trigger] self.keys@[k]) && self.keys@[k].name@ == matched->0@;
                let f = first_match(self.keys@, secret_is(secret@))->0;
                if f != k {
                    if f < k {
                        assert(self.keys@[f].key@ != self.keys@[k].key@);
                    } else {
                        assert(self.keys@[k].key@ != self.keys@[f].key@);
                    }
                }
            }
        }
        matched
    }

    /// Makes a revocable key named `name` with secret `secret`, created at `at`, and
    /// returns it.
    pub fn generate_with(&mut self, name: String, secret: String, at: Timestamp) -> (r: ApiKey)
        requires
            old(self).wf(),
        ensures
            final(self).wf(),
            r.name@ == name@,
            r.key@ == secret@,
            r.created_at == at,
            r.revocable,
            final(self)@ == stored(old(self)@, r),
    {
        let k = ApiKey { name, key: secret, created_at: at, revocable: true };
        let copy = k.duplicate();
        self.store(k);
        copy
    }

    /// Makes a revocable key named `name` with a fresh secret; `None`, with the store
    /// unchanged, when the operating system's random source fails.
    pub fn generate(&mut self, name: String) -> (res: Option<ApiKey>)
        requires
            old(self).wf(),
        ensures
            final(self).wf(),
            res is None ==> final(self)@ == old(self)@,
            res matches Some(r) ==> {
                &&& r.name@ == name@
                &&& r.key@.len() == 64
                &&& exists|bytes: Seq<u8>| bytes.len() == 32 && r.key@ == #[trigger] hex_lower(bytes)
                &&& r.revocable
                &&& final(self)@ == stored(old(self)@, r)
            },
    {
        match generate_secret() {
            Some(secret) => {
                let at = now();
                Some(self.generate_with(name, secret, at))
            },
            None => None,
        }
    }

    /// Revokes the first key named `name`: refused for the administrator's and configured
    /// keys, `Ok(false)` when no key has that name.
    pub fn revoke(&mut self, name: &str) -> (r: Result<bool, &'static str>)
        requires
            old(self).wf(),
        ensures
            final(self).wf(),
            match first_match(old(self)@, named(name@)) {
                None => r == Ok::<bool, &'static str>(false) && final(self)@ == old(self)@,
                Some(i) => if old(self)@[i].revocable {
                    r == Ok::<bool, &'static str>(true) && final(self)@ == old(self)@.remove(i)
                } else {
                    (r matches Err(e) && e@ == "Cannot revoke admin or config key"@) && final(self)@ == old(self)@
                },
            },
    {
        let n = self.keys.len();
        let mut i: usize = 0;
        while i < n
            invariant
                n == self.keys@.len(),
                i <= n,
                self.keys@ == old(self)@,
                distinct_secrets(self.keys@),
                forall|k: int| 0 <= k < i ==> !named(name@)(#[trigger] self.keys@[k]),
            decreases n - i,
        {
            if str_equal(self.keys[i].name.as_str(), name) {
                proof {
                    lemma_first_match_at(self.keys@, named(name@), i as int);
                }
                if self.keys[i].revocable {
                    self.keys.remove(i);
                    proof {
                        let s = self.keys@;
                        let o = old(self)@;
                        assert forall|a: int, b: int| 0 <= a < b < s.len() implies (#[trigger] s[a]).key@ != (#[trigger] s[b]).key@ by {
                            let a0 = if a < i { a } else { a + 1 };
                            let b0 = if b < i { b } else { b + 1 };
                            assert(s[a] == o[a0] && s[b] == o[b0]);
                        }
                    }
                    return Ok(true);
                } else {
                    return Err("Cannot revoke admin or config key");
                }
            }
            i = i + 1;
        }
        proof {
            lemma_first_match_none(self.keys@, named(name@));
        }
        Ok(false)
    }

    /// Every key, oldest first, with secrets cut to a prefix. Each secret must be
    /// cuttable after its 8th byte (or be no longer).
    pub fn list(&self) -> (r: Vec<ApiKeyInfo>)
        requires
            forall|i: int| 0 <= i < self@.len() ==> prefixable((#[trigger] self@[i]).key@),
        ensures
            exists|infos: Seq<ApiKeyInfo>| infos.len() == self@.len() && (forall|i: int|
                0 <= i < self@.len() ==> describes(#[trigger] infos[i], self@[i])) && r@ == ranked_sort(infos),
    {
        let mut infos: Vec<ApiKeyInfo> = Vec::new();
        let n = self.keys.len();
        let mut i: usize = 0;
        while i < n
            invariant
                n == self.keys@.len(),
                i <= n,
                forall|k: int| 0 <= k < self@.len() ==> prefixable((#[trigger] self@[k]).key@),
                infos@.len() == i,
                forall|k: int| 0 <= k < i ==> describes(#[trigger] infos@[k], self.keys@[k]),
            decreases n - i,
        {
            let k = &self.keys[i];
            assert(prefixable(self@[i as int].key@));
            infos.push(
                ApiKeyInfo {
                    name: k.name.clone(),
                    created_at: k.created_at,
                    revocable: k.revocable,
                    key_prefix: key_prefix(k.key.as_str()),
                },
            );
            i = i + 1;
        }
        sort_ranked(infos)
    }

    /// Whether every secret can be listed (see `list`).
    pub fn listable(&self) -> (r: bool)
        ensures
            r == forall|i: int| 0 <= i < self@.len() ==> prefixable((#[trigger] self@[i]).key@),
    {
        let n = self.keys.len();
        let mut i: usize = 0;
        while i < n
            invariant
                n == self.keys@.len(),
                i <= n,
                forall|k: int| 0 <= k < i ==> prefixable((#[trigger] self@[k]).key@),
            decreases n - i,
        {
            let s = self.keys[i].key.as_str();
            let bytes = s.as_bytes();
            if bytes.len() > 8 && !s.is_char_boundary(8) {
                assert(s@ == self@[i as int].key@);
                assert(!prefixable(self@[i as int].key@));
                return false;
            }
            i = i + 1;
        }
        true
    }
}

/// After storing a key, its secret belongs to it.
pub proof fn lemma_store_owner(keys: Seq<ApiKey>, k: ApiKey)
    requires
        distinct_secrets(keys),
    ensures
        owner(stored(keys, k), k.key@) == Some(k.name@),
{
    lemma_first_match(keys, secret_is(k.key@));
    let s = stored(keys, k);
    match first_match(keys, secret_is(k.key@)) {
        Some(i) => {
            assert forall|m: int| 0 <= m < i implies !secret_is(k.key@)(#[trigger] s[m]) by {
                assert(s[m] == keys[m]);
            }
            lemma_first_match_at(s, secret_is(k.key@), i);
        },
        None => {
            assert forall|m: int| 0 <= m < keys.len() implies !secret_is(k.key@)(#[trigger] s[m]) by {
                assert(s[m] == keys[m]);
            }
            lemma_first_match_at(s, secret_is(k.key@), keys.len() as int);
        },
    }
}

/// Storing a key leaves the owners of other secrets as they were.
pub proof fn lemma_store_other_owner(keys: Seq<ApiKey>, k: ApiKey, secret: Seq<char>)
    requires
        distinct_secrets(keys),
        secret != k.key@,
    ensures
        owner(stored(keys, k), secret) == owner(keys, secret),
{
    lemma_first_match(keys, secret_is(k.key@));
    lemma_first_match(keys, secret_is(secret));
    let s = stored(keys, k);
    match first_match(keys, secret_is(secret)) {
        Some(j) => {
            assert forall|m: int| 0 <= m < j implies !secret_is(secret)(#[trigger] s[m]) by {
                if first_match(keys, secret_is(k.key@)) is Some && m == first_match(keys, secret_is(k.key@))->0 {
                } else {
                    assert(s[m] == keys[m]);
                }
            }
            if first_match(keys, secret_is(k.key@)) is Some {
                assert(j != first_match(keys, secret_is(k.key@))->0);
            }
            assert(s[j] == keys[j]);
            lemma_first_match_at(s, secret_is(secret), j);
        },
        None => {
            assert forall|m: int| 0 <= m < s.len() implies !secret_is(secret)(#[trigger] s[m]) by {
                if m < keys.len() && !(first_match(keys, secret_is(k.key@)) is Some && m == first_match(
                    keys,
                    secret_is(k.key@),
                )->0) {
                    assert(s[m] == keys[m]);
                }
            }
            lemma_first_match_none(s, secret_is(secret));
        },
    }
}

/// Law: a key just generated or stored is the one its secret validates as.
pub proof fn law_stored_key_validates(keys: Seq<ApiKey>, k: ApiKey)
    requires
        distinct_secrets(keys),
    ensures
        owner(stored(keys, k), k.key@) == Some(k.name@),
{
    lemma_store_owner(keys, k);
}

/// Law: a revoked key no longer validates.
pub proof fn law_revoked_key_rejected(keys: Seq<ApiKey>, i: int)
    requires
        distinct_secrets(keys),
        0 <= i < keys.len(),
    ensures
        owner(keys.remove(i), keys[i].key@) is None,
{
    let s = keys.remove(i);
    assert forall|m: int| 0 <= m < s.len() implies !secret_is(keys[i].key@)(#[trigger] s[m]) by {
        if m < i {
            assert(s[m] == keys[m]);
        } else {
            assert(s[m] == keys[m + 1]);
        }
    }
    lemma_first_match_none(s, secret_is(keys[i].key@));
}

/// Law: revoking one key leaves every other secret validating as before; with
/// `law_store_keeps_other_keys`, a key keeps validating as its name until it is itself
/// revoked or replaced.
pub proof fn law_revoke_keeps_other_keys(keys: Seq<ApiKey>, j: int, secret: Seq<char>)
    requires
        distinct_secrets(keys),
        0 <= j < keys.len(),
        keys[j].key@ != secret,
    ensures
        owner(keys.remove(j), secret) == owner(keys, secret),
{
    let s = keys.remove(j);
    lemma_first_match(keys, secret_is(secret));
    assert forall|m: int| 0 <= m < s.len() implies #[trigger] s[m] == (if m < j { keys[m] } else { keys[m + 1] }) by {}
    match first_match(keys, secret_is(secret)) {
        Some(f) => {
            let g = if f < j { f } else { f - 1 };
            assert(s[g] == keys[f]);
            assert forall|m: int| 0 <= m < g implies !secret_is(secret)(#[trigger] s[m]) by {
                if m >= j {
                    assert(s[m] == keys[m + 1]);
                }
            }
            lemma_first_match_at(s, secret_is(secret), g);
        },
        None => {
            assert forall|m: int| 0 <= m < s.len() implies !secret_is(secret)(#[trigger] s[m]) by {
                if m >= j {
                    assert(s[m] == keys[m + 1]);
                }
            }
            lemma_first_match_none(s, secret_is(secret));
        },
    }
}

/// Law: storing a key under one secret leaves every other secret validating as before.
pub proof fn law_store_keeps_other_keys(keys: Seq<ApiKey>, k: ApiKey, secret: Seq<char>)
    requires
        distinct_secrets(keys),
        secret != k.key@,
    ensures
        owner(stored(keys, k), secret) == owner(keys, secret),
{
    lemma_store_other_owner(keys, k, secret);
}

} // verus!
