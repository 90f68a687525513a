use vstd::prelude::*;
use crate::router::{header_index, header_text, Headers};

verus! {

/// Is this the shape of a hyphenated version-4 UUID as `Uuid::to_string` writes it:
/// 36 characters, hyphens at 8, 13, 18 and 23, and the version digit `4` at 14.
pub open spec fn uuid_v4_shaped(s: Seq<char>) -> bool {
    &&& s.len() == 36
    &&& s[8] == '-'
    &&& s[13] == '-'
    &&& s[18] == '-'
    &&& s[23] == '-'
    &&& s[14] == '4'
}

/// `uuid::Uuid::new_v4().to_string()`: a fresh random id in hyphenated form. Only its
/// shape is stated; the value is random.
#[verifier::external_body]
fn new_request_id() -> (r: String)
    ensures
        uuid_v4_shaped(r@),
{
    uuid::Uuid::new_v4().to_string()
}

/// Makes sure every request has an `X-Request-ID`: when the header is present nothing is
/// added (`None`); otherwise a fresh UUID v4 is returned to be inserted. A present header
/// must be text, as the header's value is read as a string.
pub fn request_id_to_insert(headers: &Headers) -> (r: Option<String>)
    requires
        header_index(headers.entries@, "x-request-id"@) matches Some(i) ==> headers.entries@[i].value is Some,
    ensures
        header_index(headers.entries@, "x-request-id"@) is Some ==> r is None,
        header_index(headers.entries@, "x-request-id"@) is None ==> (r matches Some(id) && uuid_v4_shaped(id@)),
{
    match headers.index_of("x-request-id") {
        Some(_) => None,
        None => Some(new_request_id()),
    }
}

/// The request id a request carries: the text of `X-Request-ID`, or `unknown`.
pub fn request_id_of(headers: &Headers) -> (r: String)
    ensures
        r@ == match header_text(headers.entries@, "x-request-id"@) {
            Some(v) => v,
            None => "unknown"@,
        },
{
    match headers.text("x-request-id") {
        Some(v) => v,
        None => String::from_str("unknown"),
    }
}

} // verus!
