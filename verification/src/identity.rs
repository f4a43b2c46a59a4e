//! Node identity: deterministic identifiers from `(ingestion_id, path)`.
//!
//! A node's identifier is the version-5 UUID of `ingestion_id + "/" + path`
//! under a fixed namespace, carried here as its 128-bit value.

use vstd::prelude::*;

verus! {

/// The fixed namespace for name-based node identifiers:
/// eight `0xff` bytes followed by eight zero bytes.
pub const NAMESPACE: u128 = 0xffffffffffffffff0000000000000000;

/// The 128-bit value of the version-5 (name-based, SHA-1) UUID of `name`
/// under the namespace UUID whose 128-bit value is `ns`.
pub uninterp spec fn uuid_v5_of(ns: u128, name: Seq<char>) -> u128;

/// Relies on `uuid::Uuid::new_v5`: the version-5 UUID of a name under a
/// namespace is a pure function of the namespace and the name bytes.
#[verifier::external_body]
fn new_v5(ns: u128, name: &str) -> (r: u128)
    ensures
        r == uuid_v5_of(ns, name@),
{
    uuid::Uuid::new_v5(&uuid::Uuid::from_u128(ns), name.as_bytes()).as_u128()
}

/// The identifier of the node at `path` within the ingestion batch
/// `ingestion_id`.
pub open spec fn spec_node_id(ingestion_id: Seq<char>, path: Seq<char>) -> u128 {
    uuid_v5_of(NAMESPACE, ingestion_id + "/"@ + path)
}

/// Appends `name` to `path` with a `/` separator.
pub fn path_from_name(path: &str, name: &str) -> (r: String)
    ensures
        r@ == path@ + "/"@ + name@,
{
    let mut r = path.to_owned();
    r.append("/");
    r.append(name);
    r
}

/// The deterministic identifier of `(ingestion_id, path)`.
pub fn path_to_uuid(ingestion_id: &str, path: &str) -> (r: u128)
    ensures
        r == spec_node_id(ingestion_id@, path@),
{
    let unique_id = path_from_name(ingestion_id, path);
    new_v5(NAMESPACE, unique_id.as_str())
}

/// The deterministic identifier of `(ingestion_id, url)`; the same derivation
/// as [`path_to_uuid`], for callers that hold owned strings.
pub fn url_to_uuid(ingestion_id: String, url: String) -> (r: u128)
    ensures
        r == spec_node_id(ingestion_id@, url@),
{
    path_to_uuid(ingestion_id.as_str(), url.as_str())
}

/// Identifier determinism: the identifier depends on the ingestion id and the
/// path alone, so equal pairs always map to equal identifiers, across calls
/// and across processes.
pub proof fn lemma_id_deterministic(i1: Seq<char>, p1: Seq<char>, i2: Seq<char>, p2: Seq<char>)
    requires
        i1 == i2,
        p1 == p2,
    ensures
        spec_node_id(i1, p1) == spec_node_id(i2, p2),
{
}

} // verus!
