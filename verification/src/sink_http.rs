//! What the Moogsoft sinks share: the framing of JSON records into a batch, the HTTP
//! request that carries a batch, and the request and batch settings.
use vstd::prelude::*;
use crate::text::opt_text;

verus! {

/// A record: the JSON encoding of one item followed by a comma.
pub open spec fn record_bytes(json: Seq<u8>) -> Seq<u8> {
    json.push(44u8)
}

/// The body of a batch request from the concatenated records: an opening bracket,
/// the records without the last byte (the trailing comma), a closing bracket. An
/// empty batch gives the closing bracket alone.
pub open spec fn batch_body(records: Seq<u8>) -> Seq<u8> {
    if records.len() == 0 {
        seq![93u8]
    } else {
        seq![91u8] + records.drop_last() + seq![93u8]
    }
}

/// The concatenation of the records of `items`.
pub open spec fn concat_records(items: Seq<Seq<u8>>) -> Seq<u8>
    decreases items.len(),
{
    if items.len() == 0 {
        Seq::empty()
    } else {
        concat_records(items.drop_last()) + record_bytes(items.last())
    }
}

/// The items joined by commas.
pub open spec fn join_commas(items: Seq<Seq<u8>>) -> Seq<u8>
    decreases items.len(),
{
    if items.len() == 0 {
        Seq::empty()
    } else if items.len() == 1 {
        items[0]
    } else {
        join_commas(items.drop_last()) + seq![44u8] + items.last()
    }
}

/// Appends the comma that ends a record.
pub fn frame_record(json: Vec<u8>) -> (r: Vec<u8>)
    ensures
        r@ == record_bytes(json@),
{
    let mut body = json;
    body.push(44u8);
    body
}

/// Turns concatenated records into the body of a request: a JSON array.
pub fn frame_batch(records: Vec<u8>) -> (r: Vec<u8>)
    ensures
        r@ == batch_body(records@),
{
    let mut body = records;
    body.insert(0, 91u8);
    body.pop();
    body.push(93u8);
    proof {
        if records@.len() == 0 {
            assert(body@ =~= seq![93u8]);
        } else {
            assert(body@ =~= seq![91u8] + records@.drop_last() + seq![93u8]);
        }
    }
    body
}

/// A batch of one or more records framed for a request is the JSON array of the
/// items.
pub proof fn lemma_batch_is_json_array(items: Seq<Seq<u8>>)
    requires
        items.len() > 0,
    ensures
        batch_body(concat_records(items)) == seq![91u8] + join_commas(items) + seq![93u8],
    decreases items.len(),
{
    lemma_records_end_with_comma(items);
    assert(concat_records(items).drop_last() =~= join_commas(items)) by {
        lemma_records_drop_last(items);
    }
}

/// The concatenated records of a non-empty batch end with a comma.
proof fn lemma_records_end_with_comma(items: Seq<Seq<u8>>)
    requires
        items.len() > 0,
    ensures
        concat_records(items).len() > 0,
        concat_records(items).last() == 44u8,
{
}

/// Without its last byte, the concatenated records are the items joined by commas.
proof fn lemma_records_drop_last(items: Seq<Seq<u8>>)
    requires
        items.len() > 0,
    ensures
        concat_records(items).drop_last() == join_commas(items),
    decreases items.len(),
{
    let init = items.drop_last();
    if items.len() == 1 {
        assert(init.len() == 0);
        assert(concat_records(init) =~= Seq::<u8>::empty());
        assert(concat_records(items) =~= items[0].push(44u8));
        assert(concat_records(items).drop_last() =~= items[0]);
    } else {
        lemma_records_drop_last(init);
        lemma_records_end_with_comma(init);
        let c = concat_records(init);
        assert(c =~= c.drop_last().push(44u8));
        assert(concat_records(items) =~= c + items.last().push(44u8));
        assert(concat_records(items).drop_last() =~= c.drop_last() + seq![44u8] + items.last());
    }
}

/// The text of the URI that `http` builds with scheme `http`, the given authority and
/// path (`Uri::builder()`), or none where `http` refuses the parts.
pub uninterp spec fn http_uri_text(authority: Seq<char>, path: Seq<char>) -> Option<Seq<char>>;

/// A character of a plain host name: a lower-case ASCII letter, a digit, a dot or a
/// hyphen.
pub open spec fn plain_host_char(c: char) -> bool {
    ('a' <= c <= 'z') || ('0' <= c <= '9') || c == '.' || c == '-'
}

/// A plain host name: not empty, of plain characters only.
pub open spec fn plain_host(s: Seq<char>) -> bool {
    s.len() > 0 && forall|i: int| 0 <= i < s.len() ==> plain_host_char(#[trigger] s[i])
}

/// A port: one or more ASCII digits.
pub open spec fn port_digits(s: Seq<char>) -> bool {
    s.len() > 0 && forall|i: int| 0 <= i < s.len() ==> '0' <= #[trigger] s[i] <= '9'
}

/// A plain authority: a plain host name, alone or followed by a colon and a port.
pub open spec fn plain_authority(s: Seq<char>) -> bool {
    ||| plain_host(s)
    ||| exists|i: int|
        0 < i < s.len() && s[i] == ':' && plain_host(#[trigger] s.take(i)) && port_digits(s.skip(i + 1))
}

/// A plain path: a slash, then plain host characters, slashes and underscores.
pub open spec fn plain_path(s: Seq<char>) -> bool {
    &&& s.len() > 0
    &&& s[0] == '/'
    &&& forall|i: int| 0 <= i < s.len() ==> (plain_host_char(#[trigger] s[i]) || s[i] == '/' || s[i] == '_')
}

/// `http::Uri::builder().scheme("http").authority(authority).path_and_query(path)
/// .build()`, rendered with `Display`. A plain authority (a plain host, with or without
/// a colon and a port) and a plain path are accepted, and then the text is `http://`,
/// the authority and the path.
#[verifier::external_body]
fn build_http_uri(authority: &str, path: &str) -> (r: Option<String>)
    ensures
        opt_text(r) == http_uri_text(authority@, path@),
        plain_authority(authority@) && plain_path(path@) ==> opt_text(r) == Some("http://"@ + authority@ + path@),
{
    match http::Uri::builder().scheme("http").authority(authority).path_and_query(path).build() {
        Ok(uri) => Some(uri.to_string()),
        Err(_) => None,
    }
}

/// A URI, held as the text that `http` renders for it.
#[derive(Debug)]
pub struct UriSerde {
    pub uri: String,
}

/// The URI of `path` on the host (and port) `authority`, over HTTP, where `http`
/// accepts them.
pub fn try_uri(authority: &str, path: &str) -> (r: Option<UriSerde>)
    ensures
        r is Some <==> http_uri_text(authority@, path@) is Some,
        r matches Some(u) ==> Some(u.uri@) == http_uri_text(authority@, path@),
        plain_authority(authority@) && plain_path(path@) ==> (r matches Some(u) && u.uri@ == "http://"@ + authority@ + path@),
{
    match build_http_uri(authority, path) {
        Some(uri) => Some(UriSerde { uri }),
        None => None,
    }
}

/// An HTTP request as plain values.
#[derive(Debug)]
pub struct HttpRequest {
    pub method: String,
    pub uri: String,
    pub headers: Vec<(String, String)>,
    pub body: Vec<u8>,
}

/// The headers of a request: names and values as texts.
pub open spec fn header_texts(h: Seq<(String, String)>) -> Seq<(Seq<char>, Seq<char>)> {
    h.map_values(|p: (String, String)| (p.0@, p.1@))
}

/// A JSON POST of the framed batch to `uri`, authenticated by `api_key`.
pub fn json_post(uri: &String, api_key: &String, records: Vec<u8>) -> (r: HttpRequest)
    ensures
        r.method@ == "POST"@,
        r.uri@ == uri@,
        header_texts(r.headers@) == seq![("Content-Type"@, "application/json"@), ("apikey"@, api_key@)],
        r.body@ == batch_body(records@),
{
    let body = frame_batch(records);
    let mut headers: Vec<(String, String)> = Vec::new();
    headers.push((String::from_str("Content-Type"), String::from_str("application/json")));
    headers.push((String::from_str("apikey"), api_key.clone()));
    proof {
        assert(header_texts(headers@) =~= seq![("Content-Type"@, "application/json"@), ("apikey"@, api_key@)]);
    }
    HttpRequest { method: String::from_str("POST"), uri: uri.clone(), headers, body }
}

/// The kinds of events a sink accepts.
#[derive(Clone, Copy, Debug, PartialEq, Eq, Structural)]
pub enum DataType {
    Any,
    Log,
    Metric,
}

/// How requests are sent: at most `concurrency` at a time, each given up after
/// `timeout_secs` seconds, at most `rate_limit_num` per rate-limit window.
#[derive(Clone, Copy, Debug)]
pub struct RequestSettings {
    pub concurrency: usize,
    pub timeout_secs: u64,
    pub rate_limit_num: u64,
}

/// How records are batched: at most `max_bytes` bytes, flushed after `timeout_secs`.
#[derive(Clone, Copy, Debug)]
pub struct BatchSettings {
    pub max_bytes: u64,
    pub timeout_secs: u64,
}

/// `bytesize::mib`: `size` mebibytes in bytes.
#[verifier::external_body]
fn mebibytes(size: u64) -> (r: u64)
    requires
        size * 1048576 <= u64::MAX,
    ensures
        r == size * 1048576,
{
    bytesize::mib(size)
}

/// The request settings of the Moogsoft sinks: ten concurrent requests, thirty
/// seconds each, no rate limit to speak of.
pub fn request_defaults() -> (r: RequestSettings)
    ensures
        r.concurrency == 10,
        r.timeout_secs == 30,
        r.rate_limit_num == u64::MAX,
{
    RequestSettings { concurrency: 10, timeout_secs: 30, rate_limit_num: u64::MAX }
}

/// The batch settings of the Moogsoft sinks: ten mebibytes, flushed every second.
pub fn batch_defaults() -> (r: BatchSettings)
    ensures
        r.max_bytes == 10 * 1048576,
        r.timeout_secs == 1,
{
    BatchSettings { max_bytes: mebibytes(10), timeout_secs: 1 }
}

} // verus!
