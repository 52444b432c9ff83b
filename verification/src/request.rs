use vstd::prelude::*;

verus! {

/// The query text of a GraphQL request body, as `serde_json` reads it into
/// an `async_graphql::Request` (an absent query is empty); nothing when the
/// body is not such a request.
pub uninterp spec fn request_query(body: Seq<u8>) -> Option<Seq<char>>;

/// Reads a GraphQL request body with `serde_json::from_slice` into an
/// `async_graphql::Request` and gives its query text; the error is the
/// reader's message.
#[verifier::external_body]
fn parse_request(body: &[u8]) -> (r: Result<String, String>)
    ensures
        match r {
            Ok(q) => request_query(body@) == Some(q@),
            Err(_) => request_query(body@) is None,
        },
{
    serde_json::from_slice::<async_graphql::Request>(body).map(|r| r.query).map_err(|e| e.to_string())
}

/// The query text of a GraphQL request body; fails when the body is not a
/// GraphQL request.
pub fn request_query_text(body: &[u8]) -> (r: Result<String, String>)
    ensures
        r is Ok <==> request_query(body@) is Some,
        r matches Ok(q) ==> request_query(body@) == Some(q@),
{
    parse_request(body)
}

} // verus!
