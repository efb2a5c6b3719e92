//! HTTP Basic authentication and the access-level order.
//!
//! The server holds a list of users, each with an access level. Levels form
//! a total order `Get < Put < Delete`: a higher level may do everything a
//! lower one may. A request is authorized when some user's expected
//! `Basic` token equals the Authorization header and that user's level
//! reaches the operation's required level.

use vstd::prelude::*;

use crate::ident::str_eq;
use crate::AccessType;

verus! {

/// One server-side user entry.
pub struct User {
    pub name: String,
    pub password: String,
    pub access_level: AccessType,
}

/// The rank of an access level in the order `Get < Put < Delete`.
pub open spec fn level_rank(l: AccessType) -> int {
    match l {
        AccessType::Get => 0,
        AccessType::Put => 1,
        AccessType::Delete => 2,
    }
}

/// A level grants an operation that requires another level.
pub fn access_ge(a: AccessType, b: AccessType) -> (r: bool)
    ensures
        r == (level_rank(a) >= level_rank(b)),
{
    let ra: u8 = match a {
        AccessType::Get => 0,
        AccessType::Put => 1,
        AccessType::Delete => 2,
    };
    let rb: u8 = match b {
        AccessType::Get => 0,
        AccessType::Put => 1,
        AccessType::Delete => 2,
    };
    ra >= rb
}

/// The base64 rendering of a byte string, standard alphabet with padding.
/// It depends on the input bytes alone.
pub uninterp spec fn base64_of(data: Seq<u8>) -> Seq<char>;

/// Relies on base64::encode: the standard alphabet with padding, four
/// output characters for every started group of three input bytes.
#[verifier::external_body]
fn base64_encode(data: &[u8]) -> (r: String)
    ensures
        r@ == base64_of(data@),
        r@.len() == 4 * ((data@.len() + 2) / 3),
{
    base64::encode(data)
}

/// The credential bytes a user presents: `name:password` in UTF-8.
pub open spec fn cred_bytes(u: User) -> Seq<u8> {
    vstd::utf8::encode_utf8(u.name@) + seq![58u8] + vstd::utf8::encode_utf8(u.password@)
}

/// The Authorization header value expected of a user.
pub open spec fn auth_token_chars(u: User) -> Seq<char> {
    "Basic "@ + base64_of(cred_bytes(u))
}

/// A request with this header is granted an operation of the required
/// level: some user's token matches and that user's level suffices.
pub open spec fn spec_authorized(users: Seq<User>, header: Seq<char>, level: AccessType) -> bool {
    exists|i: int|
        0 <= i < users.len() && auth_token_chars(#[trigger] users[i]) == header && level_rank(
            users[i].access_level,
        ) >= level_rank(level)
}

/// Check HTTP Basic authorization: a missing header denies; otherwise the
/// header must equal some user's expected token, and that user's access
/// level must reach the required level.
pub fn check_auth(users: &Vec<User>, header: Option<&String>, level: AccessType) -> (r: bool)
    ensures
        header is None ==> !r,
        header matches Some(h) ==> r == spec_authorized(users@, h@, level),
{
    match header {
        None => false,
        Some(h) => {
            let mut i: usize = 0;
            while i < users.len()
                invariant
                    header == Some(h),
                    0 <= i <= users@.len(),
                    forall|j: int|
                        0 <= j < i ==> !(auth_token_chars(#[trigger] users@[j]) == h@
                            && level_rank(users@[j].access_level) >= level_rank(level)),
                decreases users@.len() - i,
            {
                let u = &users[i];
                let mut cred: Vec<u8> = u.name.as_str().as_bytes_vec();
                cred.push(58);
                let mut pw: Vec<u8> = u.password.as_str().as_bytes_vec();
                cred.append(&mut pw);
                proof {
                    assert(cred@ =~= cred_bytes(users@[i as int]));
                }
                let encoded = base64_encode(cred.as_slice());
                let mut token = String::from_str("Basic ");
                token.append(encoded.as_str());
                proof {
                    assert(token@ == auth_token_chars(users@[i as int]));
                }
                if str_eq(token.as_str(), h.as_str()) && access_ge(u.access_level, level) {
                    proof {
                        assert(auth_token_chars(users@[i as int]) == h@ && level_rank(
                            users@[i as int].access_level,
                        ) >= level_rank(level));
                    }
                    return true;
                }
                i += 1;
            }
            false
        },
    }
}

} // verus!
