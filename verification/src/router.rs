//! Method and path dispatch over the fixed URL grammar.
//!
//! Paths split on `/`; the first non-empty segment names the resource
//! family (`chunks`, `roots`, `status`), the next is always the bucket.
//! Identifiers are validated by the handlers, never here.

use vstd::prelude::*;

use crate::ident::str_eq;

verus! {

/// The request methods the server distinguishes.
#[derive(Clone, Copy, PartialEq, Eq, Structural, Debug)]
pub enum Method {
    Get,
    Put,
    Delete,
    Head,
    Other,
}

/// The selected handler and its path arguments.
pub enum Route {
    GetStatus { bucket: String },
    GetChunk { bucket: String, chunk: String },
    PutChunk { bucket: String, chunk: String },
    HeadChunk { bucket: String, chunk: String },
    DeleteChunk { bucket: String, chunk: String },
    DeleteChunks { bucket: String },
    ListChunks { bucket: String },
    GetRoots { bucket: String },
    PutRoot { bucket: String, host: String },
    DeleteRoot { bucket: String, id: String },
    NotFound,
}

/// Dispatch a request. The segments are the path split on `/`; a path
/// starting with `/` makes the first segment empty, so the family is the
/// second segment and the bucket the third.
pub fn route(method: Method, segments: &Vec<String>) -> (r: Route)
    ensures
        method == Method::Get && segments@.len() == 3 && segments@[1]@ == "status"@ ==> (r matches
            Route::GetStatus { bucket } && bucket@ == segments@[2]@),
        method == Method::Get && segments@.len() == 4 && segments@[1]@ == "chunks"@ ==> (r matches
            Route::GetChunk { bucket, chunk } && bucket@ == segments@[2]@ && chunk@
            == segments@[3]@),
        method == Method::Put && segments@.len() == 4 && segments@[1]@ == "chunks"@ ==> (r matches
            Route::PutChunk { bucket, chunk } && bucket@ == segments@[2]@ && chunk@
            == segments@[3]@),
        method == Method::Delete && segments@.len() == 3 && segments@[1]@ == "chunks"@
            ==> (r matches Route::DeleteChunks { bucket } && bucket@ == segments@[2]@),
        method == Method::Delete && segments@.len() == 4 && segments@[1]@ == "chunks"@
            ==> (r matches Route::DeleteChunk { bucket, chunk } && bucket@ == segments@[2]@
            && chunk@ == segments@[3]@),
        method == Method::Head && segments@.len() == 4 && segments@[1]@ == "chunks"@ ==> (r matches
            Route::HeadChunk { bucket, chunk } && bucket@ == segments@[2]@ && chunk@
            == segments@[3]@),
        method == Method::Get && segments@.len() == 3 && segments@[1]@ == "chunks"@ ==> (r matches
            Route::ListChunks { bucket } && bucket@ == segments@[2]@),
        method == Method::Get && segments@.len() == 3 && segments@[1]@ == "roots"@ ==> (r matches
            Route::GetRoots { bucket } && bucket@ == segments@[2]@),
        method == Method::Put && segments@.len() == 4 && segments@[1]@ == "roots"@ ==> (r matches
            Route::PutRoot { bucket, host } && bucket@ == segments@[2]@ && host@ == segments@[3]@),
        method == Method::Delete && segments@.len() == 4 && segments@[1]@ == "roots"@ ==> (r matches
            Route::DeleteRoot { bucket, id } && bucket@ == segments@[2]@ && id@ == segments@[3]@),
        !(segments@.len() == 3 && (segments@[1]@ == "status"@ && method == Method::Get
            || segments@[1]@ == "chunks"@ && (method == Method::Get || method == Method::Delete)
            || segments@[1]@ == "roots"@ && method == Method::Get) || segments@.len() == 4 && (
        segments@[1]@ == "chunks"@ && (method == Method::Get || method == Method::Put || method
            == Method::Delete || method == Method::Head) || segments@[1]@ == "roots"@ && (method
            == Method::Put || method == Method::Delete))) ==> r is NotFound,
{
    proof {
        reveal_strlit("status");
        reveal_strlit("chunks");
        reveal_strlit("roots");
        assert("status"@[0] == 's' && "chunks"@[0] == 'c' && "roots"@[0] == 'r');
        assert("status"@ != "chunks"@);
        assert("status"@ != "roots"@);
        assert("chunks"@ != "roots"@);
    }
    let n = segments.len();
    if n == 3 && method == Method::Get && str_eq(segments[1].as_str(), "status") {
        Route::GetStatus { bucket: segments[2].as_str().to_owned() }
    } else if n == 4 && method == Method::Get && str_eq(segments[1].as_str(), "chunks") {
        Route::GetChunk {
            bucket: segments[2].as_str().to_owned(),
            chunk: segments[3].as_str().to_owned(),
        }
    } else if n == 4 && method == Method::Put && str_eq(segments[1].as_str(), "chunks") {
        Route::PutChunk {
            bucket: segments[2].as_str().to_owned(),
            chunk: segments[3].as_str().to_owned(),
        }
    } else if n == 3 && method == Method::Delete && str_eq(segments[1].as_str(), "chunks") {
        Route::DeleteChunks { bucket: segments[2].as_str().to_owned() }
    } else if n == 4 && method == Method::Delete && str_eq(segments[1].as_str(), "chunks") {
        Route::DeleteChunk {
            bucket: segments[2].as_str().to_owned(),
            chunk: segments[3].as_str().to_owned(),
        }
    } else if n == 4 && method == Method::Head && str_eq(segments[1].as_str(), "chunks") {
        Route::HeadChunk {
            bucket: segments[2].as_str().to_owned(),
            chunk: segments[3].as_str().to_owned(),
        }
    } else if n == 3 && method == Method::Get && str_eq(segments[1].as_str(), "chunks") {
        Route::ListChunks { bucket: segments[2].as_str().to_owned() }
    } else if n == 3 && method == Method::Get && str_eq(segments[1].as_str(), "roots") {
        Route::GetRoots { bucket: segments[2].as_str().to_owned() }
    } else if n == 4 && method == Method::Put && str_eq(segments[1].as_str(), "roots") {
        Route::PutRoot {
            bucket: segments[2].as_str().to_owned(),
            host: segments[3].as_str().to_owned(),
        }
    } else if n == 4 && method == Method::Delete && str_eq(segments[1].as_str(), "roots") {
        Route::DeleteRoot {
            bucket: segments[2].as_str().to_owned(),
            id: segments[3].as_str().to_owned(),
        }
    } else {
        Route::NotFound
    }
}

} // verus!
