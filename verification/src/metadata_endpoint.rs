//! The remote metadata authority behind an HTTP endpoint: the requests that
//! a push and a pull make, and what a reply means.

use vstd::prelude::*;
use vstd::string::StringExecFns;
use crate::error::RepoError;
use crate::ids::ClientId;
use crate::network_blob_store::{
    add_trailing_slash, hex_text, id_text, is_success, succeeded, with_trailing_slash, HttpMethod,
    HttpReply, HttpRequest, RequestView,
};

verus! {

/// A status code with which an endpoint says that the request itself was
/// at fault.
pub open spec fn is_client_error(status: u16) -> bool {
    400 <= status < 500
}

/// Where the authority is reached: the address below which its resources
/// live, ending in a slash.
#[derive(Debug)]
pub struct MetadataEndpoint {
    base: String,
}

impl MetadataEndpoint {
    /// The address below which the authority's resources live.
    pub closed spec fn base(&self) -> Seq<char> {
        self.base@
    }

    /// What a push asks: a POST of the events, as JSON, to `events`.
    pub open spec fn push_view(&self, body: Seq<u8>) -> RequestView {
        RequestView {
            method: HttpMethod::Post,
            url: self.base() + "events"@,
            content_type: Some("application/json"@),
            body,
        }
    }

    /// What a pull asks: a GET of `events/`, the replica's id, and the
    /// watermark above which its events are wanted, both as 32 hexadecimal
    /// digits.
    pub open spec fn pull_view(&self, client: ClientId, after: u64) -> RequestView {
        RequestView {
            method: HttpMethod::Get,
            url: self.base() + "events/"@ + hex_text(client.0) + "?after="@ + hex_text(
                after as u128,
            ),
            content_type: None,
            body: Seq::empty(),
        }
    }

    /// What asking for the known replicas asks: a GET of `clients`.
    pub open spec fn clients_view(&self) -> RequestView {
        RequestView {
            method: HttpMethod::Get,
            url: self.base() + "clients"@,
            content_type: None,
            body: Seq::empty(),
        }
    }

    /// The endpoint at `metadata_server_url`, which gets a slash at its end
    /// where it has none.
    pub fn new(metadata_server_url: String) -> (endpoint: MetadataEndpoint)
        ensures
            endpoint.base() == with_trailing_slash(metadata_server_url@),
    {
        MetadataEndpoint { base: add_trailing_slash(metadata_server_url) }
    }

    /// The request that pushes events, whose JSON text is `body`.
    pub fn push_request(&self, body: Vec<u8>) -> (q: HttpRequest)
        ensures
            q@ == self.push_view(body@),
    {
        HttpRequest {
            method: HttpMethod::Post,
            url: self.base.clone().concat("events"),
            content_type: Some(String::from_str("application/json")),
            body,
        }
    }

    /// The request that pulls the events of `client` above `after`.
    pub fn pull_request(&self, client: ClientId, after: u64) -> (q: HttpRequest)
        ensures
            q@ == self.pull_view(client, after),
    {
        let who = id_text(client.0);
        let mark = id_text(after as u128);
        let url = self.base.clone().concat("events/").concat(who.as_str()).concat("?after=").concat(
            mark.as_str(),
        );
        HttpRequest { method: HttpMethod::Get, url, content_type: None, body: Vec::new() }
    }

    /// The request that asks which replicas the authority knows.
    pub fn clients_request(&self) -> (q: HttpRequest)
        ensures
            q@ == self.clients_view(),
    {
        HttpRequest {
            method: HttpMethod::Get,
            url: self.base.clone().concat("clients"),
            content_type: None,
            body: Vec::new(),
        }
    }

    /// The replicas that the authority named, provided every name could be
    /// read as an id; a name that could not stands as `None` and makes the
    /// whole answer a `ProtocolError`.
    pub fn read_clients(names: Vec<Option<ClientId>>) -> (r: Result<Vec<ClientId>, RepoError>)
        ensures
            match r {
                Ok(clients) => {
                    &&& clients@.len() == names@.len()
                    &&& forall|i: int|
                        0 <= i < names@.len() ==> (#[trigger] names@[i]) == Some(clients@[i])
                },
                Err(e) => e == RepoError::ProtocolError && exists|i: int|
                    0 <= i < names@.len() && (#[trigger] names@[i]) is None,
            },
    {
        let mut clients: Vec<ClientId> = Vec::new();
        let mut i: usize = 0;
        while i < names.len()
            invariant
                i <= names@.len(),
                clients@.len() == i,
                forall|j: int| 0 <= j < i ==> (#[trigger] names@[j]) == Some(clients@[j]),
            decreases names@.len() - i,
        {
            match names[i] {
                Some(client) => clients.push(client),
                None => {
                    return Err(RepoError::ProtocolError);
                },
            }
            i += 1;
        }
        Ok(clients)
    }

    /// What a push came to: done on a success status; a `ProtocolError`
    /// where the authority faults the request; `SyncUnavailable` on any
    /// other status and where no reply came.
    pub fn push_reply(outcome: Result<HttpReply, String>) -> (r: Result<(), RepoError>)
        ensures
            r == (match outcome {
                Ok(reply) => if is_success(reply.status) {
                    Ok::<(), RepoError>(())
                } else if is_client_error(reply.status) {
                    Err(RepoError::ProtocolError)
                } else {
                    Err(RepoError::SyncUnavailable)
                },
                Err(_) => Err(RepoError::SyncUnavailable),
            }),
    {
        match outcome {
            Ok(reply) => {
                if succeeded(reply.status) {
                    Ok(())
                } else if 400 <= reply.status && reply.status < 500 {
                    Err(RepoError::ProtocolError)
                } else {
                    Err(RepoError::SyncUnavailable)
                }
            },
            Err(_) => Err(RepoError::SyncUnavailable),
        }
    }

    /// What a pull, or asking for the known replicas, came to: done on a
    /// success status whose body could be read as a list; a `ProtocolError`
    /// on a success status whose body could not; `SyncUnavailable` on any
    /// other status and where no reply came.
    pub fn fetch_reply(outcome: Result<HttpReply, String>, body_is_list: bool) -> (r: Result<
        (),
        RepoError,
    >)
        ensures
            r == (match outcome {
                Ok(reply) => if !is_success(reply.status) {
                    Err::<(), RepoError>(RepoError::SyncUnavailable)
                } else if body_is_list {
                    Ok(())
                } else {
                    Err(RepoError::ProtocolError)
                },
                Err(_) => Err(RepoError::SyncUnavailable),
            }),
    {
        match outcome {
            Ok(reply) => {
                if !succeeded(reply.status) {
                    Err(RepoError::SyncUnavailable)
                } else if body_is_list {
                    Ok(())
                } else {
                    Err(RepoError::ProtocolError)
                }
            },
            Err(_) => Err(RepoError::SyncUnavailable),
        }
    }
}

} // verus!
