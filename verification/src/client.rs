//! The exchange client's pure parts: how a response status maps to an error,
//! the authorization header and the path form of a pair symbol. The HTTP
//! exchange itself runs outside this library.
use vstd::prelude::*;
use vstd::string::{StrSliceExecFns, StringExecFns};

verus! {

/// Why an exchange call failed.
#[derive(Debug)]
pub enum ClientError {
    /// The session is not (or no longer) authorized.
    Unauthorized,
    /// The exchange asks to wait this many seconds.
    RateLimited(u64),
    /// Any other failure, with its message.
    Other(String),
    /// The request did not reach the exchange or its answer did not arrive.
    Network(String),
    /// The answer could not be read.
    Parse(String),
}

/// The message of a failed request.
pub open spec fn failure_message(status_text: Seq<char>, body: Seq<char>) -> Seq<char> {
    "Request failed with status "@ + status_text + ": "@ + body
}

/// A status in 200..=299 is a success.
pub open spec fn is_success(status: u16) -> bool {
    200 <= status <= 299
}

impl ClientError {
    /// The error's message.
    pub fn to_string(&self) -> (s: String)
        ensures
            match self {
                ClientError::Unauthorized => s@ == "Unauthorized"@,
                ClientError::RateLimited(_) => s@ == "Rate limited"@,
                ClientError::Other(m) => s@ == m@,
                ClientError::Network(m) => s@ == m@,
                ClientError::Parse(m) => s@ == m@,
            },
    {
        match self {
            ClientError::Unauthorized => String::from_str("Unauthorized"),
            ClientError::RateLimited(_) => String::from_str("Rate limited"),
            ClientError::Other(m) => m.clone(),
            ClientError::Network(m) => m.clone(),
            ClientError::Parse(m) => m.clone(),
        }
    }
}

/// The error a response status stands for: none for a success, `Unauthorized`
/// for 401, `RateLimited` with the seconds to wait for 429, and otherwise a
/// message with the status (as `status_text` writes it) and the response body.
pub fn status_error(status: u16, retry_after_secs: u64, status_text: &str, body: &str) -> (r: Option<
    ClientError,
>)
    ensures
        is_success(status) ==> r is None,
        !is_success(status) && status == 401 ==> r matches Some(ClientError::Unauthorized),
        !is_success(status) && status == 429 ==> (r matches Some(ClientError::RateLimited(secs))
            && secs == retry_after_secs),
        !is_success(status) && status != 401 && status != 429 ==> (r matches Some(
            ClientError::Other(m),
        ) && m@ == failure_message(status_text@, body@)),
{
    if 200 <= status && status <= 299 {
        None
    } else if status == 401 {
        Some(ClientError::Unauthorized)
    } else if status == 429 {
        Some(ClientError::RateLimited(retry_after_secs))
    } else {
        let mut m = String::from_str("Request failed with status ");
        m.append(status_text);
        m.append(": ");
        m.append(body);
        Some(ClientError::Other(m))
    }
}

/// The authorization header for a session token: `Bearer <token>`, or
/// `Unauthorized` without a token.
pub fn auth_header(access_token: &Option<String>) -> (r: Result<String, ClientError>)
    ensures
        match access_token {
            Some(t) => r matches Ok(h) && h@ == "Bearer "@ + t@,
            None => r matches Err(ClientError::Unauthorized),
        },
{
    match access_token {
        Some(t) => {
            let mut h = String::from_str("Bearer ");
            h.append(t.as_str());
            Ok(h)
        },
        None => Err(ClientError::Unauthorized),
    }
}

/// A pair symbol as it appears in a path: each `/` becomes `-`.
pub open spec fn path_symbol(symbol: Seq<char>) -> Seq<char> {
    symbol.map_values(|c: char| if c == '/' { '-' } else { c })
}

/// A pair symbol as it appears in a path: `BTC/USDT` becomes `BTC-USDT`.
pub fn to_path_symbol(symbol: &str) -> (r: String)
    ensures
        r@ == path_symbol(symbol@),
{
    let n = symbol.unicode_len();
    let mut r = String::from_str("");
    proof {
        reveal_strlit("");
        reveal_strlit("-");
    }
    let mut i: usize = 0;
    while i < n
        invariant
            n == symbol@.len(),
            i <= n,
            r@ == path_symbol(symbol@.subrange(0, i as int)),
        decreases n - i,
    {
        let c = symbol.get_char(i);
        if c == '/' {
            proof {
                reveal_strlit("-");
            }
            assert("-"@ =~= seq!['-']);
            r.append("-");
        } else {
            let one = symbol.substring_char(i, i + 1);
            assert(one@ =~= seq![c]);
            r.append(one);
        }
        assert(symbol@.subrange(0, i + 1) =~= symbol@.subrange(0, i as int).push(c));
        assert(path_symbol(symbol@.subrange(0, i + 1)) =~= path_symbol(
            symbol@.subrange(0, i as int),
        ).push(if c == '/' { '-' } else { c }));
        i = i + 1;
    }
    assert(symbol@.subrange(0, n as int) =~= symbol@);
    r
}

} // verus!
