//! The blob store behind an HTTP endpoint: where each blob lives, and what a
//! reply from the endpoint means.

use vstd::prelude::*;
use vstd::string::StrSliceExecFns;
use vstd::string::StringExecFns;
use crate::blob::BlobId;
use crate::blob_store::copy_bytes;
use crate::error::BlobError;

verus! {

/// A parsed URL of the `url` crate, which `reqwest` hands on. Nothing of its
/// inside is seen here; it is carried from the parser to the join.
#[verifier::external_type_specification]
#[verifier::external_body]
pub struct ExUrl(reqwest::Url);

/// The text that a parsed URL is written as.
pub uninterp spec fn url_serialization(url: reqwest::Url) -> Seq<char>;

/// The text of the absolute URL that `text` parses to; `None` where it does
/// not parse.
pub uninterp spec fn url_parse(text: Seq<char>) -> Option<Seq<char>>;

/// The text of the URL that `reference` resolves to against `base`; `None`
/// where it does not resolve.
pub uninterp spec fn url_join(base: reqwest::Url, reference: Seq<char>) -> Option<Seq<char>>;

/// Calls `reqwest::Url::parse`. Claims only that whether the text parses,
/// and what the parsed URL is written as, is a function of the text.
#[verifier::external_body]
fn parse_url(text: &str) -> (r: Option<reqwest::Url>)
    ensures
        r is Some <==> url_parse(text@) is Some,
        r matches Some(u) ==> url_parse(text@) == Some(url_serialization(u)),
{
    reqwest::Url::parse(text).ok()
}

/// Calls `reqwest::Url::join`. Claims only that whether the reference
/// resolves, and what the resolved URL is written as, is a function of the
/// base and the reference.
#[verifier::external_body]
fn join_url(base: &reqwest::Url, reference: &str) -> (r: Option<reqwest::Url>)
    ensures
        r is Some <==> url_join(*base, reference@) is Some,
        r matches Some(u) ==> url_join(*base, reference@) == Some(url_serialization(u)),
{
    base.join(reference).ok()
}

/// Calls `reqwest::Url::as_str`: the text that the URL is written as.
#[verifier::external_body]
fn url_text(url: &reqwest::Url) -> (s: &str)
    ensures
        s@ == url_serialization(*url),
{
    url.as_str()
}

/// `text` with a slash at its end, added where it had none.
pub open spec fn with_trailing_slash(text: Seq<char>) -> Seq<char> {
    if text.len() > 0 && text.last() == '/' {
        text
    } else {
        text.push('/')
    }
}

/// Why a request to the blob endpoint failed.
#[derive(Debug)]
pub enum NetworkBlobStoreError {
    /// No reply came, or the reply was a failure other than a missing blob.
    /// A retry is safe.
    NetworkError(String),
    /// The endpoint answered that it has no blob under the id.
    NotFound,
}

/// A failure of the blob endpoint as contracts speak of it.
pub enum NetworkFault {
    Network(Seq<char>),
    NotFound,
}

impl View for NetworkBlobStoreError {
    type V = NetworkFault;

    open spec fn view(&self) -> NetworkFault {
        match self {
            NetworkBlobStoreError::NetworkError(m) => NetworkFault::Network(m@),
            NetworkBlobStoreError::NotFound => NetworkFault::NotFound,
        }
    }
}

impl NetworkBlobStoreError {
    /// The failure as a line for a person to read.
    pub fn message(&self) -> (s: String)
        ensures
            s@ == (match self@ {
                NetworkFault::Network(m) => "Network error: "@ + m,
                NetworkFault::NotFound => "Blob not found"@,
            }),
    {
        match self {
            NetworkBlobStoreError::NetworkError(m) => String::from_str("Network error: ").concat(
                m.as_str(),
            ),
            NetworkBlobStoreError::NotFound => String::from_str("Blob not found"),
        }
    }

    /// The failure as the engine counts it: a missing blob, or a transport
    /// failure that may be tried again.
    pub fn kind(&self) -> (e: BlobError)
        ensures
            e == (match self@ {
                NetworkFault::Network(_) => BlobError::TransportError,
                NetworkFault::NotFound => BlobError::NotFound,
            }),
    {
        match self {
            NetworkBlobStoreError::NetworkError(_) => BlobError::TransportError,
            NetworkBlobStoreError::NotFound => BlobError::NotFound,
        }
    }
}

/// The ways of asking that the endpoints are asked in.
#[derive(Clone, Copy, Debug, PartialEq, Eq, Structural)]
pub enum HttpMethod {
    Get,
    Head,
    Post,
}

/// A request as a plain value: what to ask, where, and with what.
#[derive(Debug)]
pub struct HttpRequest {
    pub method: HttpMethod,
    pub url: String,
    /// The `Content-Type` header, where the request has a body.
    pub content_type: Option<String>,
    pub body: Vec<u8>,
}

/// A request as contracts speak of it.
pub struct RequestView {
    pub method: HttpMethod,
    pub url: Seq<char>,
    pub content_type: Option<Seq<char>>,
    pub body: Seq<u8>,
}

impl View for HttpRequest {
    type V = RequestView;

    open spec fn view(&self) -> RequestView {
        RequestView {
            method: self.method,
            url: self.url@,
            content_type: match self.content_type {
                Some(t) => Some(t@),
                None => None,
            },
            body: self.body@,
        }
    }
}

/// What the endpoint answered: the status code and the status line's text.
#[derive(Debug)]
pub struct HttpReply {
    pub status: u16,
    pub status_text: String,
}

/// A status code in the range that HTTP calls success.
pub open spec fn is_success(status: u16) -> bool {
    200 <= status < 300
}

/// Whether `status` is in the range that HTTP calls success.
pub fn succeeded(status: u16) -> (b: bool)
    ensures
        b == is_success(status),
{
    200 <= status && status < 300
}

/// The status code with which an endpoint says that it has no such thing.
pub const NOT_FOUND: u16 = 404;

/// The sixteen hexadecimal digits, lower case.
pub open spec fn hex_digit(d: int) -> char {
    if d == 0 {
        '0'
    } else if d == 1 {
        '1'
    } else if d == 2 {
        '2'
    } else if d == 3 {
        '3'
    } else if d == 4 {
        '4'
    } else if d == 5 {
        '5'
    } else if d == 6 {
        '6'
    } else if d == 7 {
        '7'
    } else if d == 8 {
        '8'
    } else if d == 9 {
        '9'
    } else if d == 10 {
        'a'
    } else if d == 11 {
        'b'
    } else if d == 12 {
        'c'
    } else if d == 13 {
        'd'
    } else if d == 14 {
        'e'
    } else {
        'f'
    }
}

/// The hexadecimal digit of `n` at position `j` of 32, most significant first.
pub open spec fn hex_digit_at(n: u128, j: int) -> char {
    hex_digit(((n >> ((4 * (31 - j)) as u128)) & 0xf) as int)
}

/// `n` as 32 hexadecimal digits, most significant first.
pub open spec fn hex_text(n: u128) -> Seq<char> {
    Seq::new(32, |j: int| hex_digit_at(n, j))
}

fn digit_text(d: u8) -> (s: &'static str)
    requires
        d < 16,
    ensures
        s@ == seq![hex_digit(d as int)],
{
    proof {
        reveal_strlit("0");
        reveal_strlit("1");
        reveal_strlit("2");
        reveal_strlit("3");
        reveal_strlit("4");
        reveal_strlit("5");
        reveal_strlit("6");
        reveal_strlit("7");
        reveal_strlit("8");
        reveal_strlit("9");
        reveal_strlit("a");
        reveal_strlit("b");
        reveal_strlit("c");
        reveal_strlit("d");
        reveal_strlit("e");
        reveal_strlit("f");
    }
    let s = if d == 0 {
        "0"
    } else if d == 1 {
        "1"
    } else if d == 2 {
        "2"
    } else if d == 3 {
        "3"
    } else if d == 4 {
        "4"
    } else if d == 5 {
        "5"
    } else if d == 6 {
        "6"
    } else if d == 7 {
        "7"
    } else if d == 8 {
        "8"
    } else if d == 9 {
        "9"
    } else if d == 10 {
        "a"
    } else if d == 11 {
        "b"
    } else if d == 12 {
        "c"
    } else if d == 13 {
        "d"
    } else if d == 14 {
        "e"
    } else {
        "f"
    };
    assert(s@ =~= seq![hex_digit(d as int)]);
    s
}

/// The name under which the endpoint keeps the blob `id`: its number as 32
/// hexadecimal digits.
pub fn blob_name(id: &BlobId) -> (s: String)
    ensures
        s@ == hex_text(id.0),
{
    id_text(id.0)
}

/// `n` as 32 hexadecimal digits, most significant first: the form in which
/// ids are written.
pub fn id_text(n: u128) -> (s: String)
    ensures
        s@ == hex_text(n),
{
    let mut s = String::from_str("");
    proof {
        reveal_strlit("");
    }
    let mut i: u128 = 0;
    while i < 32
        invariant
            i <= 32,
            s@.len() == i,
            forall|j: int| 0 <= j < i ==> s@[j] == hex_digit_at(n, j),
        decreases 32 - i,
    {
        let shift: u128 = 4 * (31 - i);
        let d: u128 = (n >> shift) & 0xf;
        assert(d < 16) by (bit_vector)
            requires
                d == (n >> shift) & 0xf,
        ;
        let piece = digit_text(d as u8);
        let ghost before = s@;
        s.append(piece);
        assert(s@[i as int] == hex_digit_at(n, i as int));
        assert forall|j: int| 0 <= j < i implies s@[j] == hex_digit_at(n, j) by {
            assert(s@[j] == before[j]);
        }
        i += 1;
    }
    assert(s@ =~= hex_text(n));
    s
}

/// `remote_url` with a slash at its end, added where it had none.
pub fn add_trailing_slash(remote_url: String) -> (s: String)
    ensures
        s@ == with_trailing_slash(remote_url@),
{
    let n = remote_url.as_str().unicode_len();
    if n > 0 && remote_url.as_str().get_char(n - 1) == '/' {
        remote_url
    } else {
        proof {
            reveal_strlit("/");
        }
        let s = remote_url.concat("/");
        assert(s@ =~= with_trailing_slash(remote_url@));
        s
    }
}

/// A blob store reached over HTTP: the URL below which its blobs live.
#[derive(Debug)]
pub struct NetworkBlobStore {
    remote_url: reqwest::Url,
}

impl NetworkBlobStore {
    /// The URL below which the blobs live.
    pub closed spec fn remote(&self) -> reqwest::Url {
        self.remote_url
    }

    /// The text of the URL below which the blobs live.
    pub open spec fn base(&self) -> Seq<char> {
        url_serialization(self.remote())
    }

    /// The request for the blob `id`, as far as all requests agree: its URL
    /// is the blob's name resolved against the store's URL.
    pub open spec fn request(
        &self,
        method: HttpMethod,
        id: BlobId,
        content_type: Option<Seq<char>>,
        body: Seq<u8>,
    ) -> Option<RequestView> {
        match url_join(self.remote(), hex_text(id.0)) {
            Some(url) => Some(RequestView { method, url, content_type, body }),
            None => None,
        }
    }

    /// The store below `remote_url`, which gets a slash at its end where it
    /// has none. The text must parse as an absolute URL.
    pub fn new(remote_url: String) -> (store: NetworkBlobStore)
        requires
            url_parse(with_trailing_slash(remote_url@)) is Some,
        ensures
            Some(store.base()) == url_parse(with_trailing_slash(remote_url@)),
    {
        let normalized = add_trailing_slash(remote_url);
        let parsed = parse_url(normalized.as_str());
        NetworkBlobStore { remote_url: parsed.unwrap() }
    }

    /// The store below `remote_url`, or nothing where the text does not
    /// parse as an absolute URL.
    pub fn try_new(remote_url: String) -> (r: Option<NetworkBlobStore>)
        ensures
            match r {
                Some(store) => Some(store.base()) == url_parse(with_trailing_slash(remote_url@)),
                None => url_parse(with_trailing_slash(remote_url@)) is None,
            },
    {
        let normalized = add_trailing_slash(remote_url.clone());
        if parse_url(normalized.as_str()).is_some() {
            Some(NetworkBlobStore::new(remote_url))
        } else {
            None
        }
    }

    /// The text of the URL below which the blobs live.
    pub fn remote_url(&self) -> (s: &str)
        ensures
            s@ == self.base(),
    {
        url_text(&self.remote_url)
    }

    /// The URL of the blob `id`: its name resolved against the store's URL.
    /// Nothing where the two do not join.
    pub fn blob_url(&self, id: &BlobId) -> (r: Option<String>)
        ensures
            r is Some <==> url_join(self.remote(), hex_text(id.0)) is Some,
            r matches Some(s) ==> url_join(self.remote(), hex_text(id.0)) == Some(s@),
    {
        let name = blob_name(id);
        match join_url(&self.remote_url, name.as_str()) {
            Some(url) => Some(url_text(&url).to_owned()),
            None => None,
        }
    }

    fn make_request(
        &self,
        method: HttpMethod,
        id: &BlobId,
        content_type: Option<String>,
        body: Vec<u8>,
    ) -> (r: Option<HttpRequest>)
        ensures
            match r {
                Some(q) => Some(q@) == self.request(
                    method,
                    *id,
                    match content_type {
                        Some(t) => Some(t@),
                        None => None,
                    },
                    body@,
                ),
                None => url_join(self.remote(), hex_text(id.0)) is None,
            },
    {
        match self.blob_url(id) {
            Some(url) => Some(HttpRequest { method, url, content_type, body }),
            None => None,
        }
    }

    /// The request that uploads `data` as the blob `id`: a POST to the
    /// blob's URL with the bytes as its body, declared as an octet stream.
    /// Nothing where the blob's name does not join the store's URL.
    pub fn upload_request(&self, id: &BlobId, data: &[u8]) -> (r: Option<HttpRequest>)
        ensures
            match r {
                Some(q) => Some(q@) == self.request(
                    HttpMethod::Post,
                    *id,
                    Some("application/octet-stream"@),
                    data@,
                ),
                None => url_join(self.remote(), hex_text(id.0)) is None,
            },
    {
        self.make_request(
            HttpMethod::Post,
            id,
            Some(String::from_str("application/octet-stream")),
            copy_bytes(data),
        )
    }

    /// The request that downloads the blob `id`: a GET of the blob's URL.
    pub fn download_request(&self, id: &BlobId) -> (r: Option<HttpRequest>)
        ensures
            match r {
                Some(q) => Some(q@) == self.request(HttpMethod::Get, *id, None, Seq::empty()),
                None => url_join(self.remote(), hex_text(id.0)) is None,
            },
    {
        self.make_request(HttpMethod::Get, id, None, Vec::new())
    }

    /// The request that asks whether the endpoint has the blob `id`: a HEAD
    /// of the blob's URL.
    pub fn exists_request(&self, id: &BlobId) -> (r: Option<HttpRequest>)
        ensures
            match r {
                Some(q) => Some(q@) == self.request(HttpMethod::Head, *id, None, Seq::empty()),
                None => url_join(self.remote(), hex_text(id.0)) is None,
            },
    {
        self.make_request(HttpMethod::Head, id, None, Vec::new())
    }

    /// What an upload came to: done where the endpoint answered with a
    /// success status, else the failure that names the status or the
    /// transport's complaint.
    pub fn upload(outcome: Result<HttpReply, String>) -> (r: Result<(), NetworkBlobStoreError>)
        ensures
            match outcome {
                Ok(reply) => if is_success(reply.status) {
                    r is Ok
                } else {
                    r matches Err(e) && e@ == NetworkFault::Network(
                        "upload failed with status code: "@ + reply.status_text@,
                    )
                },
                Err(complaint) => r matches Err(e) && e@ == NetworkFault::Network(
                    "upload failed: "@ + complaint@,
                ),
            },
    {
        match outcome {
            Ok(reply) => {
                if succeeded(reply.status) {
                    Ok(())
                } else {
                    Err(
                        NetworkBlobStoreError::NetworkError(
                            String::from_str("upload failed with status code: ").concat(
                                reply.status_text.as_str(),
                            ),
                        ),
                    )
                }
            },
            Err(complaint) => Err(
                NetworkBlobStoreError::NetworkError(
                    String::from_str("upload failed: ").concat(complaint.as_str()),
                ),
            ),
        }
    }

    /// Whether the body of a reply to a download is to be read: only where
    /// the endpoint answered with a success status.
    pub fn wants_body(reply: &HttpReply) -> (b: bool)
        ensures
            b == is_success(reply.status),
    {
        succeeded(reply.status)
    }

    /// What a download came to. A success status gives the body, or a
    /// network failure where the body could not be read. The status for a
    /// thing that is not there gives `NotFound`: the store has no blob under
    /// the id. Any other status, and no reply at all, is a network failure
    /// that may be tried again.
    pub fn download(outcome: Result<HttpReply, String>, body: Option<Vec<u8>>) -> (r: Result<
        Vec<u8>,
        NetworkBlobStoreError,
    >)
        ensures
            match outcome {
                Ok(reply) => if is_success(reply.status) {
                    match body {
                        Some(bytes) => r == Ok::<Vec<u8>, NetworkBlobStoreError>(bytes),
                        None => r matches Err(e) && e@ == NetworkFault::Network(
                            "Failed to read response bytes"@,
                        ),
                    }
                } else if reply.status == NOT_FOUND {
                    r matches Err(e) && e@ == NetworkFault::NotFound
                } else {
                    r matches Err(e) && e@ == NetworkFault::Network("Failed to download blob"@)
                },
                Err(_) => r matches Err(e) && e@ == NetworkFault::Network(
                    "Failed to download blob"@,
                ),
            },
    {
        match outcome {
            Ok(reply) => {
                if succeeded(reply.status) {
                    match body {
                        Some(bytes) => Ok(bytes),
                        None => Err(
                            NetworkBlobStoreError::NetworkError(
                                String::from_str("Failed to read response bytes"),
                            ),
                        ),
                    }
                } else if reply.status == NOT_FOUND {
                    Err(NetworkBlobStoreError::NotFound)
                } else {
                    Err(
                        NetworkBlobStoreError::NetworkError(
                            String::from_str("Failed to download blob"),
                        ),
                    )
                }
            },
            Err(_) => Err(
                NetworkBlobStoreError::NetworkError(String::from_str("Failed to download blob")),
            ),
        }
    }

    /// What an existence check came to: whether the endpoint answered with a
    /// success status, or the transport's complaint.
    pub fn check_exists(outcome: Result<HttpReply, String>) -> (r: Result<bool, NetworkBlobStoreError>)
        ensures
            match outcome {
                Ok(reply) => r == Ok::<bool, NetworkBlobStoreError>(is_success(reply.status)),
                Err(complaint) => r matches Err(e) && e@ == NetworkFault::Network(
                    "check_exists failed: "@ + complaint@,
                ),
            },
    {
        match outcome {
            Ok(reply) => Ok(succeeded(reply.status)),
            Err(complaint) => Err(
                NetworkBlobStoreError::NetworkError(
                    String::from_str("check_exists failed: ").concat(complaint.as_str()),
                ),
            ),
        }
    }
}

} // verus!
