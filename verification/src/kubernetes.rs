//! The one piece of cluster interaction the verified core performs itself:
//! generating random resource tags. Everything else the cluster adapter does
//! (applying manifests, listing pods and jobs, fetching secrets) happens
//! outside the core, which receives the results as plain values.

use rand::Rng;

use vstd::prelude::*;

verus! {

/// An ASCII letter or digit.
pub open spec fn is_ascii_alphanumeric_char(c: char) -> bool {
    ||| 'a' as u32 <= c as u32 <= 'z' as u32
    ||| 'A' as u32 <= c as u32 <= 'Z' as u32
    ||| '0' as u32 <= c as u32 <= '9' as u32
}

/// Generate a hopefully unique tag for a Kubernetes resource.
///
/// Relies on `rand`'s thread-local generator sampling the `Alphanumeric`
/// distribution, which yields only ASCII letters and digits; five are drawn.
/// Note that the distribution is biased once the tag is lowercased later;
/// this is acceptable for a uniqueness tag.
#[verifier::external_body]
pub fn resource_tag() -> (r: String)
    ensures
        r@.len() == 5,
        forall|i: int| 0 <= i < r@.len() ==> is_ascii_alphanumeric_char(#[trigger] r@[i]),
{
    let mut rng = rand::thread_rng();
    let bytes = std::iter::repeat(())
        .map(|()| rng.sample(rand::distributions::Alphanumeric))
        .take(5)
        .collect::<Vec<u8>>();
    String::from_utf8_lossy(&bytes).into_owned()
}

} // verus!
