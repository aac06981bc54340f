//! The endpoints of the cache, and what they answer.

use crate::guarded::ShardState;
use crate::model::{EntryView, Key};
use crate::payload::{bytes_from_vec, empty_bytes};
use crate::storage::Storage;
use crate::text::{chars_of, decimal};
use bytes::Bytes;
use hyper::header::{HeaderValue, InvalidHeaderValue};
use std::time::Duration;
use tokio::time::Instant;
use vstd::prelude::*;

verus! {

/// What a request asks for.
pub enum Route {
    /// The value of a key.
    GetKey(Key),
    /// To associate the payload of the request to a key.
    SetKey(Key),
    /// Nothing that there is an endpoint for.
    NotAllowed,
}

/// A path without its leading slash.
pub open spec fn relative(path: Seq<char>) -> Seq<char> {
    if path.len() > 0 && path[0] == '/' {
        path.skip(1)
    } else {
        path
    }
}

/// Whether the first two segments of a path are an endpoint and a key. A key is not empty, and what
/// follows it does not matter.
pub open spec fn addresses(path: Seq<char>, endpoint: Seq<char>, key: Seq<char>) -> bool {
    &&& key.len() > 0
    &&& !key.contains('/')
    &&& exists|tail: Seq<char>|
        {
            &&& relative(path) == #[trigger] (endpoint + seq!['/'] + key + tail)
            &&& tail.len() == 0 || tail[0] == '/'
        }
}

/// Whether a request is for the value of a key: `GET /get/<key>`.
pub open spec fn gets(method: Seq<char>, path: Seq<char>, key: Seq<char>) -> bool {
    method == "GET"@ && addresses(path, "get"@, key)
}

/// Whether a request is to set a key: `POST /set/<key>`.
pub open spec fn sets(method: Seq<char>, path: Seq<char>, key: Seq<char>) -> bool {
    method == "POST"@ && addresses(path, "set"@, key)
}

/// Whether there is an endpoint for a request.
pub open spec fn is_routed(method: Seq<char>, path: Seq<char>) -> bool {
    ||| exists|key: Seq<char>| gets(method, path, key)
    ||| exists|key: Seq<char>| sets(method, path, key)
}

/// A request is for one key at most, and for one endpoint at most.
pub proof fn lemma_one_request(
    method: Seq<char>,
    path: Seq<char>,
    a: Seq<char>,
    b: Seq<char>,
)
    ensures
        gets(method, path, a) && gets(method, path, b) ==> a == b,
        sets(method, path, a) && sets(method, path, b) ==> a == b,
        !(gets(method, path, a) && sets(method, path, b)),
{
    reveal_strlit("GET");
    reveal_strlit("POST");
    if gets(method, path, a) && gets(method, path, b) {
        lemma_same_key(relative(path), "get"@, a, b);
    }
    if sets(method, path, a) && sets(method, path, b) {
        lemma_same_key(relative(path), "set"@, a, b);
    }
    assert("GET"@.len() != "POST"@.len());
}

/// Whether the characters at the indices from `from` to `to` are those of a word.
fn is_word(chars: &Vec<char>, from: usize, to: usize, word: &str) -> (same: bool)
    requires
        from <= to <= chars@.len(),
    ensures
        same == (chars@.subrange(from as int, to as int) == word@),
{
    let mut at: usize = from;
    for c in iter: word.chars()
        invariant
            iter.seq() == word@,
            from <= at <= to <= chars@.len(),
            at == from + iter.index(),
            chars@.subrange(from as int, at as int) == word@.take(iter.index() as int),
    {
        if at == to || chars[at] != c {
            return false;
        }
        at += 1;
    }
    assert(word@.take(word@.len() as int) =~= word@);
    assert(at < to ==> chars@.subrange(from as int, to as int).len() != word@.len());
    at == to
}

/// The index of the first slash at or after `from`, or the number of characters.
fn segment_end(chars: &Vec<char>, from: usize) -> (end: usize)
    requires
        from <= chars@.len(),
    ensures
        from <= end <= chars@.len(),
        forall|i: int| from <= i < end ==> #[trigger] chars@[i] != '/',
        end < chars@.len() ==> chars@[end as int] == '/',
{
    let mut end: usize = from;
    while end < chars.len() && chars[end] != '/'
        invariant
            from <= end <= chars@.len(),
            forall|i: int| from <= i < end ==> #[trigger] chars@[i] != '/',
        decreases chars@.len() - end,
    {
        end += 1;
    }
    end
}

/// The key that a path addresses at an endpoint, if it does.
fn addressed_key(path: &str, endpoint: &str) -> (key: Option<Key>)
    requires
        !endpoint@.contains('/'),
    ensures
        match key {
            Some(key) => addresses(path@, endpoint@, key@),
            None => forall|key: Seq<char>| !(#[trigger] addresses(path@, endpoint@, key)),
        },
{
    let chars = chars_of(path);
    let start: usize = if chars.len() > 0 && chars[0] == '/' {
        1
    } else {
        0
    };
    let middle = segment_end(&chars, start);
    let ghost rest = relative(path@);
    assert(rest =~= chars@.skip(start as int));
    proof {
        assert forall|key: Seq<char>| #[trigger]
            addresses(path@, endpoint@, key) implies {
            &&& middle < chars@.len()
            &&& chars@.subrange(start as int, middle as int) == endpoint@
        } by {
            lemma_first_segment(rest, endpoint@, key, middle - start);
            assert(chars@.subrange(start as int, middle as int) =~= rest.take(middle - start));
        }
    }
    if middle == chars.len() || !is_word(&chars, start, middle, endpoint) {
        return None;
    }
    let end = segment_end(&chars, middle + 1);
    let ghost name = chars@.subrange(middle + 1, end as int);
    let ghost tail = chars@.skip(end as int);
    proof {
        assert(rest =~= endpoint@ + seq!['/'] + name + tail);
        assert forall|key: Seq<char>| #[trigger] addresses(path@, endpoint@, key) implies key
            == name by {
            lemma_same_key(rest, endpoint@, key, name);
        }
    }
    if end == middle + 1 {
        return None;
    }
    Some(path.substring_char(middle + 1, end).to_owned())
}

/// Whether a relative path is an endpoint, a slash, a key without slashes, and then nothing or a
/// slash.
spec fn splits(rest: Seq<char>, endpoint: Seq<char>, key: Seq<char>) -> bool {
    &&& !key.contains('/')
    &&& exists|tail: Seq<char>|
        {
            &&& rest == #[trigger] (endpoint + seq!['/'] + key + tail)
            &&& tail.len() == 0 || tail[0] == '/'
        }
}

/// The first slash of such a path stands right after the endpoint.
proof fn lemma_first_segment(rest: Seq<char>, endpoint: Seq<char>, key: Seq<char>, end: int)
    requires
        splits(rest, endpoint, key),
        !endpoint.contains('/'),
        0 <= end <= rest.len(),
        forall|i: int| 0 <= i < end ==> #[trigger] rest[i] != '/',
        end < rest.len() ==> rest[end] == '/',
    ensures
        end < rest.len(),
        rest.take(end) == endpoint,
{
    let tail = choose|tail: Seq<char>|
        {
            &&& rest == #[trigger] (endpoint + seq!['/'] + key + tail)
            &&& tail.len() == 0 || tail[0] == '/'
        };
    assert(rest[endpoint.len() as int] == '/');
    if end < endpoint.len() {
        assert(rest[end] == endpoint[end]);
        assert(endpoint.contains('/'));
    }
    assert(rest.take(end) =~= endpoint);
}

/// There is only one way to split such a path.
proof fn lemma_same_key(rest: Seq<char>, endpoint: Seq<char>, a: Seq<char>, b: Seq<char>)
    requires
        splits(rest, endpoint, a),
        splits(rest, endpoint, b),
    ensures
        a == b,
{
    let s = choose|tail: Seq<char>|
        {
            &&& rest == #[trigger] (endpoint + seq!['/'] + a + tail)
            &&& tail.len() == 0 || tail[0] == '/'
        };
    let t = choose|tail: Seq<char>|
        {
            &&& rest == #[trigger] (endpoint + seq!['/'] + b + tail)
            &&& tail.len() == 0 || tail[0] == '/'
        };
    let n = endpoint.len() as int + 1;
    assert(a =~= rest.subrange(n, n + a.len()));
    assert(b =~= rest.subrange(n, n + b.len()));
    if a.len() < b.len() {
        assert(rest[n + a.len()] == s[0]);
        assert(b[a.len() as int] == '/');
    } else if b.len() < a.len() {
        assert(rest[n + b.len()] == t[0]);
        assert(a[b.len() as int] == '/');
    }
}

/// Finds the endpoint of a request, and the key that the request is for.
pub fn route(method: &str, path: &str) -> (route: Route)
    ensures
        match route {
            Route::GetKey(key) => gets(method@, path@, key@),
            Route::SetKey(key) => sets(method@, path@, key@),
            Route::NotAllowed => !is_routed(method@, path@),
        },
{
    proof {
        reveal_strlit("GET");
        reveal_strlit("POST");
        reveal_strlit("get");
        reveal_strlit("set");
    }
    let method_chars = chars_of(method);
    let n = method_chars.len();
    assert(method_chars@.subrange(0, n as int) =~= method@);
    if is_word(&method_chars, 0, n, "GET") {
        match addressed_key(path, "get") {
            Some(key) => Route::GetKey(key),
            None => Route::NotAllowed,
        }
    } else if is_word(&method_chars, 0, n, "POST") {
        match addressed_key(path, "set") {
            Some(key) => Route::SetKey(key),
            None => Route::NotAllowed,
        }
    } else {
        Route::NotAllowed
    }
}

/// The header value type of the `http` crate: a string of bytes.
#[verifier::external_type_specification]
#[verifier::external_body]
pub struct ExHeaderValue(hyper::header::HeaderValue);

/// The error of the `http` crate for text that cannot be a header value.
#[verifier::external_type_specification]
#[verifier::external_body]
pub struct ExInvalidHeaderValue(hyper::header::InvalidHeaderValue);

/// The bytes of a header value.
pub uninterp spec fn header_bytes(value: HeaderValue) -> Seq<u8>;

/// Whether a header value can hold a byte: any but the control characters other than the tab.
pub open spec fn is_header_byte(byte: u8) -> bool {
    byte >= 32 && byte != 127 || byte == 9
}

/// Turns text into a header value with the bytes of the text. It fails if and only if one of them
/// is a byte that a header value cannot hold.
pub assume_specification[ HeaderValue::from_str ](src: &str) -> (value: Result<
    HeaderValue,
    InvalidHeaderValue,
>)
    ensures
        value is Ok <==> forall|i: int|
            0 <= i < vstd::utf8::encode_utf8(src@).len() ==> is_header_byte(
                #[trigger] vstd::utf8::encode_utf8(src@)[i],
            ),
        value is Ok ==> header_bytes(value->Ok_0) == vstd::utf8::encode_utf8(src@),
;

/// A text of ASCII characters as bytes.
pub open spec fn ascii(text: Seq<char>) -> Seq<u8> {
    Seq::new(text.len(), |i: int| text[i] as u8)
}

/// Digits have the same value as bytes.
proof fn lemma_ascii_value(text: Seq<char>)
    requires
        forall|i: int| 0 <= i < text.len() ==> '0' <= #[trigger] text[i] <= '9',
    ensures
        ascii(text).fold_left(0int, |acc: int, byte: u8| acc * 10 + (byte - 48)) == text.fold_left(
            0int,
            |acc: int, c: char| acc * 10 + (c as int - 48),
        ),
    decreases text.len(),
{
    let f = |acc: int, byte: u8| acc * 10 + (byte - 48);
    let g = |acc: int, c: char| acc * 10 + (c as int - 48);
    let bytes = ascii(text);
    if text.len() > 0 {
        lemma_ascii_value(text.drop_last());
        assert(bytes.drop_last() =~= ascii(text.drop_last()));
        assert('0' <= text[text.len() - 1] <= '9');
        assert(bytes.fold_left(0int, f) == f(bytes.drop_last().fold_left(0int, f), bytes.last()));
        assert(text.fold_left(0int, g) == g(text.drop_last().fold_left(0int, g), text.last()));
    }
}

/// The `Content-Length` of a response whose body has the given size, if its size is known.
pub fn response_content_length(exact_size: Option<u64>) -> (length: Option<HeaderValue>)
    ensures
        match exact_size {
            Some(size) => {
                &&& length is Some
                &&& header_bytes(length->0) == ascii(crate::text::decimal_digits(size as nat))
            },
            None => length is None,
        },
        exact_size matches Some(size) ==> {
            let bytes = header_bytes(length->0);
            &&& bytes.len() > 0
            &&& forall|i: int| 0 <= i < bytes.len() ==> 48 <= #[trigger] bytes[i] <= 57
            &&& size > 0 ==> bytes[0] != 48
            &&& bytes.fold_left(0int, |acc: int, byte: u8| acc * 10 + (byte - 48)) == size
        },
{
    match exact_size {
        Some(size) => {
            let text = decimal(size);
            proof {
                crate::text::lemma_decimal_digits(size as nat);
                assert(vstd::utf8::is_ascii_chars(text@));
                vstd::utf8::is_ascii_chars_encode_utf8(text@);
                assert(vstd::utf8::encode_utf8(text@) =~= ascii(text@));
                crate::laws::law_decimal_notation(size as nat);
                lemma_ascii_value(text@);
            }
            Some(HeaderValue::from_str(text.as_str()).unwrap())
        },
        None => None,
    }
}

/// The response to a request: its status code and its body.
pub struct Response {
    pub status: u16,
    pub body: Bytes,
}

/// The status code and the bytes of the body of a response.
#[verifier::ext_equal]
pub struct ResponseView {
    pub status: u16,
    pub body: Seq<u8>,
}

impl View for Response {
    type V = ResponseView;

    open spec fn view(&self) -> ResponseView {
        ResponseView { status: self.status, body: crate::payload::contents(self.body) }
    }
}

/// The response to a request for a key, given the value of the key: the value, or 404 if the key
/// is not present.
pub open spec fn get_answer(value: Option<Seq<u8>>) -> ResponseView {
    match value {
        Some(value) => ResponseView { status: 200, body: value },
        None => ResponseView { status: 404, body: Seq::empty() },
    }
}

/// The response to a request to set a key.
pub open spec fn set_answer() -> ResponseView {
    ResponseView { status: 200, body: Seq::empty() }
}

/// The response to a request that there is no endpoint for.
pub open spec fn not_allowed_answer() -> ResponseView {
    ResponseView { status: 405, body: ascii("HTTP method not allowed"@) }
}

/// The response to a request for a key that has the given value, if it is present.
pub fn value_response(value: Option<Bytes>) -> (response: Response)
    ensures
        response@ == get_answer(crate::payload::contents_of(value)),
        value is Some ==> response.status == 200 && crate::payload::contents(response.body)
            == crate::payload::contents(value->0),
        value is None ==> response.status == 404 && crate::payload::contents(response.body).len()
            == 0,
    opens_invariants none
{
    match value {
        Some(value) => Response { status: 200, body: value },
        None => Response { status: 404, body: empty_bytes() },
    }
}

/// Answers a request for a key. This changes no shard.
pub fn get_handler(key: Key, storage: &Storage) -> (response: Response)
    ensures
        exists|value: Option<Seq<u8>>|
            {
                &&& #[trigger] storage.reads(key@, value)
                &&& response@ == get_answer(value)
            },
        exists|states: Seq<ShardState>|
            {
                &&& #[trigger] storage.shard_reads(storage.shard_of(key@)).contains(states)
                &&& states.len() > 0
                &&& if states.last().entries.contains_key(key@) {
                    &&& response.status == 200
                    &&& crate::payload::contents(response.body) == states.last().entries[key@].value
                } else {
                    &&& response.status == 404
                    &&& crate::payload::contents(response.body).len() == 0
                }
            },
    opens_invariants none
{
    value_response(storage.get(&key))
}

/// Answers a request to set a key: associates the payload of the request to the key. This changes
/// no shard but that of the key.
pub fn set_handler(key: Key, body: Bytes, storage: &Storage) -> (response: Response)
    ensures
        response@ == set_answer(),
        storage.stores(key@, crate::payload::contents(body)),
        response.status == 200,
        crate::payload::contents(response.body).len() == 0,
        exists|before: ShardState, after: ShardState, elapsed: Duration|
            {
                &&& #[trigger] storage.shard_changes(storage.shard_of(key@)).contains(
                    (before, after),
                )
                &&& #[trigger] call_ensures(Instant::elapsed, (&storage.start(),), elapsed)
                &&& after.entries == before.entries.insert(
                    key@,
                    EntryView {
                        value: crate::payload::contents(body),
                        expiration_time: crate::clock::duration_nanos(elapsed) + storage.ttl(),
                    },
                )
            },
    opens_invariants [storage.shard_of(key@)]
{
    storage.insert(key, body);
    Response { status: 200, body: empty_bytes() }
}

/// Answers a request that there is no endpoint for.
pub fn method_not_allowed() -> (response: Response)
    ensures
        response@ == not_allowed_answer(),
        response.status == 405,
        crate::payload::contents(response.body).len() == "HTTP method not allowed"@.len(),
        forall|i: int|
            0 <= i < "HTTP method not allowed"@.len()
                ==> #[trigger] crate::payload::contents(response.body)[i]
                == "HTTP method not allowed"@[i] as u8,
{
    let text = "HTTP method not allowed";
    proof {
        reveal_strlit("HTTP method not allowed");
        assert(vstd::utf8::is_ascii_chars(text@));
        vstd::utf8::is_ascii_chars_encode_utf8(text@);
        assert(vstd::utf8::encode_utf8(text@) =~= ascii(text@));
    }
    Response { status: 405, body: bytes_from_vec(text.as_bytes_vec()) }
}

/// Answers a request: routes it, and hands it to the endpoint if there is one.
pub fn handle(method: &str, path: &str, body: Bytes, storage: &Storage) -> (response:
    Response)
    ensures
        forall|key: Seq<char>| #[trigger]
            gets(method@, path@, key) ==> exists|value: Option<Seq<u8>>|
                {
                    &&& #[trigger] storage.reads(key, value)
                    &&& response@ == get_answer(value)
                },
        forall|key: Seq<char>| #[trigger]
            sets(method@, path@, key) ==> {
                &&& response@ == set_answer()
                &&& storage.stores(key, crate::payload::contents(body))
            },
        !is_routed(method@, path@) ==> response@ == not_allowed_answer(),
{
    match route(method, path) {
        Route::GetKey(key) => {
            proof {
                assert forall|other: Seq<char>| #[trigger]
                    gets(method@, path@, other) implies other == key@ by {
                    lemma_one_request(method@, path@, key@, other);
                }
                assert forall|other: Seq<char>| !(#[trigger] sets(method@, path@, other)) by {
                    lemma_one_request(method@, path@, key@, other);
                }
            }
            get_handler(key, storage)
        },
        Route::SetKey(key) => {
            proof {
                assert forall|other: Seq<char>| #[trigger]
                    sets(method@, path@, other) implies other == key@ by {
                    lemma_one_request(method@, path@, key@, other);
                }
                assert forall|other: Seq<char>| !(#[trigger] gets(method@, path@, other)) by {
                    lemma_one_request(method@, path@, other, key@);
                }
            }
            set_handler(key, body, storage)
        },
        Route::NotAllowed => method_not_allowed(),
    }
}

} // verus!
