//! The one piece of worker logic the verified core performs itself: building
//! the destination URI for an output file. The worker's process spawning,
//! output teeing and storage transfers happen outside the core.

use vstd::prelude::*;

use crate::inputs::spec_normalize_dir_uri;

verus! {

/// The URI to which an output file found at `rel_path` under the local
/// output directory is uploaded: the job's egress URI, normalized to end
/// with a slash, followed by the relative path.
pub fn upload_uri(egress_uri: &str, rel_path: &str) -> (r: String)
    ensures
        r@ == spec_normalize_dir_uri(egress_uri@) + rel_path@,
{
    let len = egress_uri.unicode_len();
    let mut uri = egress_uri.to_owned();
    if !(len > 0 && egress_uri.get_char(len - 1) == '/') {
        uri.append("/");
    }
    uri.append(rel_path);
    uri
}

} // verus!
