use vstd::prelude::*;
use vstd::string::StringExecFns;

verus! {

/// Payload length used by a benchmark run: every request carries this many
/// characters.
pub const DEFAULT_PAYLOAD_LEN: usize = 2048;

/// One benchmark request: a monotonically increasing identifier, unique
/// per run, and the fixed payload. Immutable once created.
#[derive(Clone, Debug)]
pub struct Request {
    pub id: i64,
    pub payload: String,
}

/// One reply: the identifier of the request it answers and a payload
/// derived from the request's payload.
#[derive(Clone, Debug)]
pub struct Reply {
    pub id: i64,
    pub payload: String,
}

/// The payload the echo peer derives from a request payload: the fixed
/// prefix followed by the request payload itself.
pub open spec fn echo_payload(msg: Seq<char>) -> Seq<char> {
    "pong: "@ + msg
}

/// Builds the request for one slot of a run, carrying the run's fixed
/// payload.
pub fn make_request(id: i64, payload: &String) -> (r: Request)
    ensures
        r.id == id,
        r.payload@ == payload@,
{
    Request { id, payload: payload.clone() }
}

/// The constant payload sent with every request: `len` repetitions of the
/// letter `x`.
pub fn fixed_payload(len: usize) -> (p: String)
    ensures
        p@.len() == len,
        forall|i: int| 0 <= i < len ==> p@[i] == 'x',
{
    proof {
        reveal_strlit("x");
    }
    let mut p = String::new();
    let mut i: usize = 0;
    while i < len
        invariant
            i <= len,
            p@.len() == i,
            forall|j: int| 0 <= j < i ==> p@[j] == 'x',
        decreases len - i,
    {
        proof {
            reveal_strlit("x");
        }
        p.append("x");
        i += 1;
    }
    p
}

/// The echo responder: answers every request with a reply tagged with the
/// same identifier and carrying the derived payload.
pub struct MyBenchrpc {}

impl Default for MyBenchrpc {
    fn default() -> (s: Self)
        ensures
            s == (MyBenchrpc {  }),
    {
        MyBenchrpc {  }
    }
}

impl MyBenchrpc {
    /// The reply owed for one request: identifier copied verbatim, payload
    /// derived by prefixing.
    pub fn reply_to(&self, req: &Request) -> (r: Reply)
        ensures
            r.id == req.id,
            r.payload@ == echo_payload(req.payload@),
    {
        let prefix: String = String::from_str("pong: ");
        let payload = prefix.concat(req.payload.as_str());
        Reply { id: req.id, payload }
    }
}

} // verus!
