use vstd::prelude::*;
use vstd::string::StringSliceAdditionalSpecFns;

verus! {

/// The bytes of an HTTP/1.1 GET request for `path` to localhost, asking the server to close
/// the connection once it has answered.
pub open spec fn request_bytes(path: Seq<u8>) -> Seq<u8> {
    "GET ".spec_bytes() + path + " HTTP/1.1\r\nHost: localhost\r\nConnection: close\r\n\r\n".spec_bytes()
}

/// The request that a GET of `path` writes to its connection.
pub fn get_req(path: &str) -> (req: Vec<u8>)
    ensures
        req@ == request_bytes(path.spec_bytes()),
{
    let mut req: Vec<u8> = Vec::new();
    req.extend_from_slice("GET ".as_bytes());
    req.extend_from_slice(path.as_bytes());
    req.extend_from_slice(" HTTP/1.1\r\nHost: localhost\r\nConnection: close\r\n\r\n".as_bytes());
    proof {
        assert(req@ =~= request_bytes(path.spec_bytes()));
    }
    req
}

} // verus!
