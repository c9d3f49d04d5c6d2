//! The HTTP method vocabulary the router speaks. The router itself is an
//! external collaborator; the engine only needs the method names.

use vstd::prelude::*;

verus! {

use vstd::utf8::encode_utf8_decode_utf8;
use vstd::string::StringSliceAdditionalSpecFns;

#[derive(Clone, Copy, Debug, PartialEq, Eq, Structural)]
pub enum Method {
    Get,
    Post,
    Delete,
    Patch,
    Put,
}

/// Whether two pieces of text are the same characters.
pub fn str_eq(a: &str, b: &str) -> (r: bool)
    ensures
        r == (a@ == b@),
{
    proof {
        broadcast use encode_utf8_decode_utf8;

    }
    let ab = a.as_bytes();
    let bb = b.as_bytes();
    if ab.len() != bb.len() {
        proof {
            assert(a@ != b@);
        }
        return false;
    }
    let mut i: usize = 0;
    while i < ab.len()
        invariant
            i <= ab@.len(),
            ab@.len() == bb@.len(),
            ab@ == a.spec_bytes(),
            bb@ == b.spec_bytes(),
            forall|j: int| 0 <= j < i ==> ab@[j] == bb@[j],
        decreases ab@.len() - i,
    {
        if ab[i] != bb[i] {
            proof {
                assert(a.spec_bytes() != b.spec_bytes());
                assert(a@ != b@);
            }
            return false;
        }
        i += 1;
    }
    proof {
        broadcast use encode_utf8_decode_utf8;

        assert(ab@ =~= bb@);
        assert(vstd::utf8::decode_utf8(vstd::utf8::encode_utf8(a@)) == vstd::utf8::decode_utf8(
            vstd::utf8::encode_utf8(b@),
        ));
    }
    true
}

/// The method a request line names, read as the original wire words;
/// anything unknown is a plain fetch.
pub open spec fn spec_method_of(value: Seq<char>) -> Method {
    if value == "POST"@ {
        Method::Post
    } else if value == "DELETE"@ {
        Method::Delete
    } else if value == "PATCH"@ {
        Method::Patch
    } else if value == "PUT"@ {
        Method::Put
    } else {
        Method::Get
    }
}

impl Method {
    /// Parses a method name.
    pub fn from_name(value: &str) -> (r: Method)
        ensures
            r == spec_method_of(value@),
    {
        if str_eq(value, "POST") {
            Method::Post
        } else if str_eq(value, "DELETE") {
            Method::Delete
        } else if str_eq(value, "PATCH") {
            Method::Patch
        } else if str_eq(value, "PUT") {
            Method::Put
        } else {
            Method::Get
        }
    }
}

} // verus!
