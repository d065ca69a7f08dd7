//! Request authentication: finding the key a request presents, checking it, and keeping
//! track of the clients seen.
use vstd::prelude::*;
use crate::keys::{KeyStore, owner};
use crate::models::Timestamp;
use crate::order::{Ranked, ranked_sort, sort_ranked, first_match, lemma_first_match, lemma_first_match_at, lemma_first_match_none};
use crate::text::{chars_of, chars_range, char_views, has_prefix, pieces_between, split_on, starts_with_chars, string_of};

verus! {

/// Unicode white space (the White_Space property, as `char::is_whitespace` uses it).
pub open spec fn is_white(c: char) -> bool {
    c == '\t' || c == '\n' || c == '\u{b}' || c == '\u{c}' || c == '\r' || c == ' ' || c == '\u{85}'
        || c == '\u{a0}' || c == '\u{1680}' || ('\u{2000}' <= c && c <= '\u{200a}') || c == '\u{2028}'
        || c == '\u{2029}' || c == '\u{202f}' || c == '\u{205f}' || c == '\u{3000}'
}

/// Whether a character is white space.
pub fn is_white_char(c: char) -> (r: bool)
    ensures
        r == is_white(c),
{
    c == '\t' || c == '\n' || c == '\u{b}' || c == '\u{c}' || c == '\r' || c == ' ' || c == '\u{85}'
        || c == '\u{a0}' || c == '\u{1680}' || ('\u{2000}' <= c && c <= '\u{200a}') || c == '\u{2028}'
        || c == '\u{2029}' || c == '\u{202f}' || c == '\u{205f}' || c == '\u{3000}'
}

/// `s` without leading white space.
pub open spec fn trim_start(s: Seq<char>) -> Seq<char>
    decreases s.len(),
{
    if s.len() > 0 && is_white(s[0]) {
        trim_start(s.drop_first())
    } else {
        s
    }
}

/// `s` without trailing white space.
pub open spec fn trim_end(s: Seq<char>) -> Seq<char>
    decreases s.len(),
{
    if s.len() > 0 && is_white(s.last()) {
        trim_end(s.drop_last())
    } else {
        s
    }
}

/// `s` without leading or trailing white space.
pub open spec fn trimmed(s: Seq<char>) -> Seq<char> {
    trim_end(trim_start(s))
}

/// Removes leading and trailing white space.
pub fn trim(s: &[char]) -> (r: Vec<char>)
    ensures
        r@ == trimmed(s@),
{
    let n = s.len();
    let mut a: usize = 0;
    assert(s@.skip(0) =~= s@);
    while a < n && is_white_char(s[a])
        invariant
            a <= n,
            n == s@.len(),
            trim_start(s@.skip(a as int)) == trim_start(s@),
        decreases n - a,
    {
        assert(s@.skip(a as int).drop_first() =~= s@.skip(a + 1));
        a = a + 1;
    }
    let ghost front = s@.skip(a as int);
    assert(trim_start(front) == front);
    let mut b: usize = n;
    assert(front.take((b - a) as int) =~= front);
    while b > a && is_white_char(s[b - 1])
        invariant
            a <= b <= n,
            n == s@.len(),
            front == s@.skip(a as int),
            trim_end(front.take((b - a) as int)) == trim_end(front),
        decreases b,
    {
        assert(front.take((b - a) as int).drop_last() =~= front.take((b - 1 - a) as int));
        assert(front.take((b - a) as int).last() == s@[b - 1]);
        b = b - 1;
    }
    let r = chars_range(s, a, b);
    assert(r@ =~= front.take((b - a) as int));
    r
}

/// The trimmed pieces of every cookie header, in order.
pub open spec fn cookie_pieces(values: Seq<Seq<char>>) -> Seq<Seq<char>>
    decreases values.len(),
{
    if values.len() == 0 {
        Seq::empty()
    } else {
        cookie_pieces(values.drop_last()) + pieces_between(';', Seq::empty(), values.last()).map_values(
            |p: Seq<char>| trimmed(p),
        )
    }
}

/// The prefix of the session cookie.
pub open spec fn session_prefix() -> Seq<char> {
    "wartable_session="@
}

/// The value of the first session cookie among `pieces`.
pub open spec fn session_value(pieces: Seq<Seq<char>>) -> Option<Seq<char>>
    decreases pieces.len(),
{
    if pieces.len() == 0 {
        None
    } else if has_prefix(pieces[0], session_prefix()) {
        Some(pieces[0].skip(session_prefix().len() as int))
    } else {
        session_value(pieces.drop_first())
    }
}

/// The key a request presents: a bearer token in the Authorization header, else the
/// X-API-Key header, else the session cookie.
pub open spec fn presented_key(
    authorization: Option<Seq<char>>,
    x_api_key: Option<Seq<char>>,
    cookies: Seq<Seq<char>>,
) -> Option<Seq<char>> {
    if authorization matches Some(a) && has_prefix(a, "Bearer "@) {
        Some(authorization->0.skip(7))
    } else if x_api_key is Some {
        x_api_key
    } else {
        session_value(cookie_pieces(cookies))
    }
}

/// Appends to `out` the trimmed pieces of `value` between semicolons.
fn push_cookie_pieces(value: &[char], out: &mut Vec<Vec<char>>)
    ensures
        char_views(final(out)@) == char_views(old(out)@) + pieces_between(';', Seq::empty(), value@).map_values(
            |p: Seq<char>| trimmed(p),
        ),
{
    let n = value.len();
    let mut start: usize = 0;
    let mut i: usize = 0;
    let ghost base = char_views(old(out)@);
    assert(value@.skip(0) =~= value@);
    assert(value@.subrange(0, 0) =~= Seq::<char>::empty());
    while i < n
        invariant
            n == value@.len(),
            start <= i <= n,
            char_views(out@) + pieces_between(';', value@.subrange(start as int, i as int), value@.skip(i as int)).map_values(
                |p: Seq<char>| trimmed(p),
            ) == base + pieces_between(';', Seq::empty(), value@).map_values(|p: Seq<char>| trimmed(p)),
        decreases n - i,
    {
        let ghost rest = value@.skip(i as int);
        assert(rest[0] == value@[i as int]);
        assert(rest.drop_first() =~= value@.skip(i + 1));
        if value[i] == ';' {
            let piece = chars_range(value, start, i);
            let t = trim(piece.as_slice());
            let ghost tv = t@;
            out.push(t);
            assert(char_views(out@) =~= char_views(out@.drop_last()).push(tv));
            assert(value@.subrange(i + 1, i + 1) =~= Seq::<char>::empty());
            start = i + 1;
            i = i + 1;
            let ghost cur = value@.subrange(start as int, i as int);
            assert(seq![piece@] + pieces_between(';', Seq::empty(), rest.drop_first()) == pieces_between(';', piece@, rest));
            assert((seq![piece@] + pieces_between(';', Seq::empty(), rest.drop_first())).map_values(|p: Seq<char>| trimmed(p))
                =~= seq![trimmed(piece@)] + pieces_between(';', cur, value@.skip(i as int)).map_values(|p: Seq<char>| trimmed(p)));
            assert(char_views(out@) + pieces_between(';', cur, value@.skip(i as int)).map_values(|p: Seq<char>| trimmed(p))
                =~= char_views(out@.drop_last()) + (seq![trimmed(piece@)] + pieces_between(';', cur, value@.skip(i as int)).map_values(|p: Seq<char>| trimmed(p))));
        } else {
            assert(value@.subrange(start as int, i as int).push(value@[i as int]) =~= value@.subrange(start as int, i + 1));
            i = i + 1;
        }
    }
    let piece = chars_range(value, start, n);
    let t = trim(piece.as_slice());
    let ghost tv = t@;
    out.push(t);
    assert(char_views(out@) =~= char_views(out@.drop_last()).push(tv));
    assert(pieces_between(';', piece@, value@.skip(n as int)) == seq![piece@]);
    assert(seq![piece@].map_values(|p: Seq<char>| trimmed(p)) =~= seq![tv]);
}

/// Finds the first session cookie value among trimmed pieces.
fn find_session(pieces: &Vec<Vec<char>>) -> (r: Option<String>)
    ensures
        match session_value(char_views(pieces@)) {
            Some(v) => r matches Some(s) && s@ == v,
            None => r is None,
        },
{
    let prefix = chars_of("wartable_session=");
    let n = pieces.len();
    let mut i: usize = 0;
    assert(char_views(pieces@).skip(0) =~= char_views(pieces@));
    while i < n
        invariant
            n == pieces@.len(),
            i <= n,
            prefix@ == session_prefix(),
            session_value(char_views(pieces@).skip(i as int)) == session_value(char_views(pieces@)),
        decreases n - i,
    {
        let ghost rest = char_views(pieces@).skip(i as int);
        assert(rest[0] == pieces@[i as int]@);
        assert(rest.drop_first() =~= char_views(pieces@).skip(i + 1));
        if starts_with_chars(pieces[i].as_slice(), prefix.as_slice()) {
            let v = chars_range(pieces[i].as_slice(), prefix.len(), pieces[i].len());
            assert(v@ =~= pieces@[i as int]@.skip(session_prefix().len() as int));
            return Some(string_of(v.as_slice()));
        }
        i = i + 1;
    }
    assert(char_views(pieces@).skip(n as int) =~= Seq::<Seq<char>>::empty());
    None
}

/// The key a request presents (see `presented_key`), from its Authorization header, its
/// X-API-Key header and its Cookie headers.
pub fn extract_api_key(authorization: Option<&str>, x_api_key: Option<&str>, cookies: &Vec<String>) -> (r: Option<String>)
    ensures
        match presented_key(
            match authorization {
                Some(a) => Some(a@),
                None => None,
            },
            match x_api_key {
                Some(x) => Some(x@),
                None => None,
            },
            cookies@.map_values(|c: String| c@),
        ) {
            Some(k) => r matches Some(s) && s@ == k,
            None => r is None,
        },
{
    match authorization {
        Some(a) => {
            let chars = chars_of(a);
            let bearer = chars_of("Bearer ");
            if starts_with_chars(chars.as_slice(), bearer.as_slice()) {
                proof {
                    reveal_strlit("Bearer ");
                }
                let rest = chars_range(chars.as_slice(), 7, chars.len());
                assert(rest@ =~= a@.skip(7));
                return Some(string_of(rest.as_slice()));
            }
        },
        None => {},
    }
    match x_api_key {
        Some(x) => {
            return Some(crate::text::owned(x));
        },
        None => {},
    }
    let ghost values = cookies@.map_values(|c: String| c@);
    let mut pieces: Vec<Vec<char>> = Vec::new();
    let n = cookies.len();
    let mut i: usize = 0;
    while i < n
        invariant
            n == cookies@.len(),
            i <= n,
            values == cookies@.map_values(|c: String| c@),
            char_views(pieces@) == cookie_pieces(values.take(i as int)),
        decreases n - i,
    {
        let chars = chars_of(cookies[i].as_str());
        push_cookie_pieces(chars.as_slice(), &mut pieces);
        proof {
            assert(values.take(i + 1).drop_last() =~= values.take(i as int));
            assert(values.take(i + 1).last() == chars@);
        }
        i = i + 1;
    }
    assert(values.take(n as int) =~= values);
    find_session(&pieces)
}

/// A client seen by the server, by key name.
#[derive(Clone, Debug)]
pub struct ClientInfo {
    pub name: String,
    pub last_seen: Timestamp,
    pub request_count: u64,
}

impl Ranked for ClientInfo {
    /// Most recently seen first.
    open spec fn rank(&self) -> (int, int) {
        (-self.last_seen.ord_key(), 0)
    }

    fn ranks_before(&self, other: &ClientInfo) -> (r: bool) {
        other.last_seen.is_before(&self.last_seen)
    }
}

/// The client's name is `name`.
pub open spec fn client_named(name: Seq<char>) -> spec_fn(ClientInfo) -> bool {
    |c: ClientInfo| c.name@ == name
}

/// `after` is `before` with a request by the client `name` at `at` counted: its entry
/// is seen at `at` with one more request (the count stays at its maximum), or a new entry
/// with one request is added at the end; every other entry is unchanged.
pub open spec fn recorded(before: Seq<ClientInfo>, after: Seq<ClientInfo>, name: Seq<char>, at: Timestamp) -> bool {
    match first_match(before, client_named(name)) {
        Some(i) => after.len() == before.len() && after[i].name@ == name && after[i].last_seen == at
            && after[i].request_count == (if before[i].request_count < u64::MAX {
            before[i].request_count + 1
        } else {
            u64::MAX as int
        }) && forall|k: int| 0 <= k < before.len() && k != i ==> #[trigger] after[k] == before[k],
        None => after.len() == before.len() + 1 && after.drop_last() == before && after.last().name@ == name
            && after.last().last_seen == at && after.last().request_count == 1,
    }
}

/// The clients seen, one entry per key name.
#[derive(Clone, Debug)]
pub struct ClientTracker {
    clients: Vec<ClientInfo>,
}

impl View for ClientTracker {
    type V = Seq<ClientInfo>;

    closed spec fn view(&self) -> Seq<ClientInfo> {
        self.clients@
    }
}

impl ClientTracker {
    /// No client seen yet.
    pub fn new() -> (r: ClientTracker)
        ensures
            r@.len() == 0,
    {
        ClientTracker { clients: Vec::new() }
    }

    /// Records a request by the client `name` at `at`: a new client starts at one request.
    pub fn record(&mut self, name: String, at: Timestamp)
        ensures
            recorded(old(self)@, final(self)@, name@, at),
    {
        let n = self.clients.len();
        let mut i: usize = 0;
        while i < n
            invariant
                n == self.clients@.len(),
                i <= n,
                self.clients@ == old(self)@,
                forall|k: int| 0 <= k < i ==> !client_named(name@)(#[trigger] self.clients@[k]),
            decreases n - i,
        {
            if self.clients[i].name == name {
                proof {
                    lemma_first_match_at(self.clients@, client_named(name@), i as int);
                }
                let c = ClientInfo {
                    name: self.clients[i].name.clone(),
                    last_seen: at,
                    request_count: self.clients[i].request_count.saturating_add(1),
                };
                self.clients.set(i, c);
                return;
            }
            i = i + 1;
        }
        proof {
            lemma_first_match_none(self.clients@, client_named(name@));
        }
        self.clients.push(ClientInfo { name, last_seen: at, request_count: 1 });
        assert(self.clients@.drop_last() =~= old(self)@);
    }

    /// The clients, most recently seen first.
    pub fn list(&self) -> (r: Vec<ClientInfo>)
        ensures
            r@.len() == self@.len(),
            exists|copies: Seq<ClientInfo>| copies.len() == self@.len() && (forall|i: int|
                0 <= i < copies.len() ==> (#[trigger] copies[i]).name@ == self@[i].name@ && copies[i].last_seen
                    == self@[i].last_seen && copies[i].request_count == self@[i].request_count) && r@ == ranked_sort(copies),
    {
        let mut copies: Vec<ClientInfo> = Vec::new();
        let n = self.clients.len();
        let mut i: usize = 0;
        while i < n
            invariant
                n == self.clients@.len(),
                i <= n,
                copies@.len() == i,
                forall|k: int| 0 <= k < i ==> (#[trigger] copies@[k]).name@ == self@[k].name@ && copies@[k].last_seen
                    == self@[k].last_seen && copies@[k].request_count == self@[k].request_count,
            decreases n - i,
        {
            let c = &self.clients[i];
            copies.push(ClientInfo { name: c.name.clone(), last_seen: c.last_seen, request_count: c.request_count });
            i = i + 1;
        }
        let r = sort_ranked(copies);
        proof {
            crate::order::lemma_ranked_sort(copies@);
        }
        r
    }
}

/// Whether a request may go on: always when authentication is off; otherwise only with
/// a key the store knows, and then the key's client is recorded as seen at `at`.
pub fn authorize(
    enabled: bool,
    keys: &KeyStore,
    tracker: &mut ClientTracker,
    presented: Option<String>,
    at: Timestamp,
) -> (r: bool)
    requires
        keys.wf(),
    ensures
        !enabled ==> r && final(tracker)@ == old(tracker)@,
        enabled ==> (r <==> (presented matches Some(p) && owner(keys@, p@) is Some)),
        !r ==> final(tracker)@ == old(tracker)@,
        enabled && r ==> recorded(old(tracker)@, final(tracker)@, owner(keys@, presented->0@)->0, at),
{
    if !enabled {
        return true;
    }
    match presented {
        Some(secret) => match keys.validate(secret.as_str()) {
            Some(name) => {
                tracker.record(name, at);
                true
            },
            None => false,
        },
        None => false,
    }
}

} // verus!
