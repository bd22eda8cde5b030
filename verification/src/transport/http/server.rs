//! Request routing and authentication of the unidirectional HTTP transport
//! used by clients that can't run a full libp2p transport.
use vstd::prelude::*;
use crate::transport::{str_eq, ServiceType};
use crate::transport::http::requests::RequestID;

verus! {

/// Type of an incoming HTTP request.
#[derive(Debug, Clone, Copy, PartialEq, Eq, Structural)]
pub enum RequestType {
    EntitiesQuery,
    EntitiesMutation,
}

/// Request related error.
#[derive(Debug, Clone, PartialEq, Eq)]
pub enum RequestError {
    InvalidRequestType,
    Unauthorized,
    Query,
    /// Internal server error, with its message.
    Server(String),
    /// Error of the transport, with its message.
    Transport(String),
    /// Error in capnp serialization, with its message.
    Serialization(String),
    /// Error from the HTTP server, with its message.
    Hyper(String),
}

pub open spec fn path_entities_query() -> Seq<char> {
    seq!['/', 'e', 'n', 't', 'i', 't', 'i', 'e', 's', '/', 'q', 'u', 'e', 'r', 'y']
}

pub open spec fn path_entities_mutate() -> Seq<char> {
    seq!['/', 'e', 'n', 't', 'i', 't', 'i', 'e', 's', '/', 'm', 'u', 't', 'a', 't', 'e']
}

pub open spec fn query_token_key() -> Seq<char> {
    seq!['t', 'o', 'k', 'e', 'n']
}

impl RequestType {
    /// Routes a request by the path of its URL.
    pub fn from_url_path(path: &str) -> (res: Result<RequestType, RequestError>)
        ensures
            path@ == path_entities_query() ==> res == Ok::<RequestType, RequestError>(RequestType::EntitiesQuery),
            path@ == path_entities_mutate() ==> res == Ok::<RequestType, RequestError>(RequestType::EntitiesMutation),
            path@ != path_entities_query() && path@ != path_entities_mutate()
                ==> res == Err::<RequestType, RequestError>(RequestError::InvalidRequestType),
    {
        proof {
            reveal_strlit("/entities/query");
            reveal_strlit("/entities/mutate");
            assert("/entities/query"@ =~= path_entities_query());
            assert("/entities/mutate"@ =~= path_entities_mutate());
        }
        if str_eq(path, "/entities/query") {
            Ok(RequestType::EntitiesQuery)
        } else if str_eq(path, "/entities/mutate") {
            Ok(RequestType::EntitiesMutation)
        } else {
            Err(RequestError::InvalidRequestType)
        }
    }

    /// Service to which requests of this type are sent.
    pub fn service_type(&self) -> (res: ServiceType)
        ensures
            res == ServiceType::Store,
    {
        match self {
            RequestType::EntitiesQuery => ServiceType::Store,
            RequestType::EntitiesMutation => ServiceType::Store,
        }
    }
}

/// Host that the server listens on when a listen URL has no domain: every
/// interface.
pub open spec fn default_listen_host() -> Seq<char> {
    "0.0.0.0"@
}

/// Host and port that the server listens on for a listen URL, given the
/// URL's domain and port: every interface when it has no domain, and port 80
/// when it has no port.
pub fn listen_host_port(domain: Option<String>, port: Option<u16>) -> (res: (String, u16))
    ensures
        res.0@ == match domain {
            Some(d) => d@,
            None => default_listen_host(),
        },
        res.1 == match port {
            Some(p) => p,
            None => 80u16,
        },
{
    let host = match domain {
        Some(d) => d,
        None => "0.0.0.0".to_string(),
    };
    let port: u16 = match port {
        Some(p) => p,
        None => 80,
    };
    (host, port)
}

/// Connection through which a message came in, which a reply to it goes back
/// through.
#[derive(Debug, Copy, Clone, PartialEq, Eq, Structural)]
pub enum ConnectionKind {
    /// A request to the HTTP server, by the id under which it is tracked.
    HttpServer(RequestID),
    /// A libp2p connection, by its id.
    Libp2p(u64),
}

/// Tracked request that a message of a service replies to: the one of the
/// message's HTTP connection. A message with no HTTP connection can't be
/// replied through the HTTP server and gets dropped (`None`).
pub fn http_reply_target(connection: Option<ConnectionKind>) -> (res: Option<RequestID>)
    ensures
        res == match connection {
            Some(ConnectionKind::HttpServer(id)) => Some(id),
            _ => None::<RequestID>,
        },
{
    match connection {
        Some(ConnectionKind::HttpServer(id)) => Some(id),
        _ => None,
    }
}

/// HTTP status code answered for each request error.
pub open spec fn error_status(err: RequestError) -> u16 {
    match err {
        RequestError::InvalidRequestType => 404,
        RequestError::Unauthorized => 401,
        RequestError::Query => 400,
        _ => 500,
    }
}

impl RequestError {
    /// HTTP status code of the response sent back for this error.
    pub fn to_response_status(&self) -> (status: u16)
        ensures
            status == error_status(*self),
    {
        match self {
            RequestError::InvalidRequestType => 404,
            RequestError::Unauthorized => 401,
            RequestError::Query => 400,
            _ => 500,
        }
    }
}

/// Name/value pairs decoded from an `application/x-www-form-urlencoded`
/// byte string, in order.
pub uninterp spec fn form_urlencoded_pairs(input: Seq<u8>) -> Seq<(Seq<char>, Seq<char>)>;

/// Views of a sequence of name/value string pairs.
pub open spec fn pairs_view(pairs: Seq<(String, String)>) -> Seq<(Seq<char>, Seq<char>)> {
    pairs.map_values(|p: (String, String)| (p.0@, p.1@))
}

/// Decodes the name/value pairs of a URL query
/// (`url::form_urlencoded::parse`, collected with each name and value owned).
#[verifier::external_body]
fn parse_form_urlencoded(input: &[u8]) -> (pairs: Vec<(String, String)>)
    ensures
        pairs_view(pairs@) == form_urlencoded_pairs(input@),
{
    url::form_urlencoded::parse(input).map(|(k, v)| (k.into_owned(), v.into_owned())).collect()
}

/// Position of the first pair named `token`, if any.
pub open spec fn first_token_index(pairs: Seq<(Seq<char>, Seq<char>)>) -> Option<int> {
    if exists|k: int| 0 <= k < pairs.len() && pairs[k].0 == query_token_key() {
        Some(choose|k: int|
            0 <= k < pairs.len() && pairs[k].0 == query_token_key()
                && forall|l: int| 0 <= l < k ==> pairs[l].0 != query_token_key())
    } else {
        None
    }
}

/// Value of the first pair named `token`, if any.
pub open spec fn query_token(pairs: Seq<(Seq<char>, Seq<char>)>) -> Option<Seq<char>> {
    match first_token_index(pairs) {
        Some(k) => Some(pairs[k].1),
        None => None,
    }
}

/// Returns the value of the first query parameter named `token`.
pub fn get_query_token(pairs: &Vec<(String, String)>) -> (res: Option<String>)
    ensures
        match res {
            Some(token) => query_token(pairs_view(pairs@)) == Some(token@),
            None => query_token(pairs_view(pairs@)) is None,
        },
{
    broadcast use vstd::string::group_string_axioms;
    proof {
        reveal_strlit("token");
        assert("token"@ =~= query_token_key());
    }
    let key = "token".to_string();
    let ghost view = pairs_view(pairs@);
    let mut k: usize = 0;
    while k < pairs.len()
        invariant
            k <= pairs@.len(),
            view == pairs_view(pairs@),
            key@ == query_token_key(),
            forall|l: int| 0 <= l < k ==> #[trigger] view[l].0 != query_token_key(),
        decreases pairs@.len() - k,
    {
        if pairs[k].0 == key {
            proof {
                let kk = k as int;
                assert(view[kk].0 == query_token_key());
                assert(exists|j: int| 0 <= j < view.len() && view[j].0 == query_token_key());
                let c = choose|j: int|
                    0 <= j < view.len() && view[j].0 == query_token_key()
                        && forall|l: int| 0 <= l < j ==> view[l].0 != query_token_key();
                assert(c == kk) by {
                    if c < kk {
                        assert(view[c].0 != query_token_key());
                    } else if c > kk {
                        assert(view[kk].0 != query_token_key());
                    }
                }
            }
            return Some(pairs[k].1.clone());
        }
        k = k + 1;
    }
    None
}

/// Extracts the authentication token from the query string of a request URL.
pub fn read_authorization_token(query: Option<&str>) -> (res: Result<String, RequestError>)
    ensures
        match query {
            None => res == Err::<String, RequestError>(RequestError::Unauthorized),
            Some(q) => match query_token(form_urlencoded_pairs(vstd::string::StringSliceAdditionalSpecFns::spec_bytes(q))) {
                Some(token) => res is Ok && res->Ok_0@ == token,
                None => res == Err::<String, RequestError>(RequestError::Unauthorized),
            },
        },
{
    match query {
        None => Err(RequestError::Unauthorized),
        Some(q) => {
            let pairs = parse_form_urlencoded(q.as_bytes());
            match get_query_token(&pairs) {
                Some(token) => Ok(token),
                None => Err(RequestError::Unauthorized),
            }
        },
    }
}

} // verus!
