//! Where the key of a served endpoint is kept.

use vstd::prelude::*;
use crate::text::{ends_with, occurs_at};

verus! {

/// The name of the file that holds a service's endpoint key.
pub open spec fn key_file(service_id: Seq<char>) -> Seq<char> {
    service_id + ".endpoint-key"@
}

pub fn endpoint_key_file_name(service_id: &str) -> (r: String)
    ensures
        r@ == key_file(service_id@),
{
    let mut name = service_id.to_owned();
    name.push_str(".endpoint-key");
    name
}

/// No two services share a key file.
pub proof fn law_every_service_has_its_own_key(a: Seq<char>, b: Seq<char>)
    requires
        key_file(a) == key_file(b),
    ensures
        a == b,
{
    let x = key_file(a);
    assert(a =~= x.subrange(0, x.len() - ".endpoint-key"@.len()));
    assert(b =~= x.subrange(0, x.len() - ".endpoint-key"@.len()));
}

/// A key file is named after its service, with an ending that tells what it is.
pub proof fn law_a_key_file_is_named_after_its_service(service_id: Seq<char>)
    ensures
        occurs_at(key_file(service_id), service_id, 0),
        ends_with(key_file(service_id), ".endpoint-key"@),
        key_file(service_id).len() == service_id.len() + ".endpoint-key"@.len(),
{
    let name = key_file(service_id);
    assert(name.subrange(0, service_id.len() as int) =~= service_id);
    assert(name.subrange(service_id.len() as int, name.len() as int) =~= ".endpoint-key"@);
}

} // verus!
