//! Where a submission is compiled, and when an earlier build can be reused.
use vstd::prelude::*;
use vstd::string::StringExecFns;
use vstd::string::StringSliceAdditionalSpecFns;

verus! {

/// What `md5::compute` gives for the bytes: their MD5 digest.
pub uninterp spec fn md5_digest(data: Seq<u8>) -> Seq<u8>;

/// `md5::compute`: the sixteen bytes of the MD5 digest of `data`.
#[verifier::external_body]
fn md5_compute(data: &[u8]) -> (r: Vec<u8>)
    ensures
        r@ == md5_digest(data@),
        r@.len() == 16,
{
    md5::compute(data).0.to_vec()
}

fn same_bytes(a: &Vec<u8>, b: &Vec<u8>) -> (r: bool)
    ensures
        r == (a@ == b@),
{
    if a.len() != b.len() {
        return false;
    }
    let mut i: usize = 0;
    while i < a.len()
        invariant
            a@.len() == b@.len(),
            i <= a@.len(),
            forall|j: int| 0 <= j < i ==> a@[j] == b@[j],
        decreases a@.len() - i,
    {
        if a[i] != b[i] {
            return false;
        }
        i = i + 1;
    }
    assert(a@ =~= b@);
    true
}

/// Whether the build from an earlier submission can be used as it is: its
/// WebAssembly file exists, the source it was built from could be read, and
/// that source has the same MD5 digest as the new one.
pub fn can_reuse_build(wasm_exists: bool, previous_source: Option<&[u8]>, implementation: &str) -> (r: bool)
    ensures
        r == (wasm_exists && (previous_source matches Some(old) && md5_digest(old@) == md5_digest(
            implementation.spec_bytes(),
        ))),
{
    if !wasm_exists {
        return false;
    }
    match previous_source {
        Some(old) => {
            let old_hash = md5_compute(old);
            let new_hash = md5_compute(implementation.as_bytes());
            same_bytes(&old_hash, &new_hash)
        },
        None => false,
    }
}

/// The files of a build in the directory `prefix`: the WebAssembly module and
/// the C++ source.
pub fn build_paths(prefix: &str) -> (r: (String, String))
    ensures
        r.0@ == prefix@ + "/out.wasm"@,
        r.1@ == prefix@ + "/implementation.cpp"@,
{
    let mut wasm = String::from_str(prefix);
    wasm.append("/out.wasm");
    let mut source = String::from_str(prefix);
    source.append("/implementation.cpp");
    (wasm, source)
}

} // verus!
