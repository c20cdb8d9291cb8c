//! Where a sticker's converted image lives in the cache store.

use vstd::prelude::*;
use vstd::string::*;

verus! {

/// Directory prefix of every cache entry.
pub open spec fn cache_prefix() -> Seq<char> {
    "./cache/"@
}

/// Fixed raster extension of every cache entry.
pub open spec fn cache_suffix() -> Seq<char> {
    ".png"@
}

/// The cache path of an identifier: prefix, identifier, extension.
pub open spec fn cache_path(id: Seq<char>) -> Seq<char> {
    cache_prefix() + id + cache_suffix()
}

/// Computes the cache path of `sticker`. It depends on the identifier alone
/// and touches nothing.
pub fn path_from_sticker(sticker: &str) -> (path: String)
    ensures
        path@ == cache_path(sticker@),
{
    let mut path = String::from_str("./cache/");
    path.append(sticker);
    path.append(".png");
    path
}

/// Distinct identifiers never share a cache path.
pub proof fn lemma_cache_path_injective(a: Seq<char>, b: Seq<char>)
    requires
        cache_path(a) == cache_path(b),
    ensures
        a == b,
{
    let p = cache_prefix();
    let s = cache_suffix();
    assert(cache_path(a).len() == p.len() + a.len() + s.len());
    assert(cache_path(b).len() == p.len() + b.len() + s.len());
    assert(a.len() == b.len());
    assert forall|i: int| 0 <= i < a.len() implies a[i] == b[i] by {
        assert(cache_path(a)[p.len() + i] == a[i]);
        assert(cache_path(b)[p.len() + i] == b[i]);
    }
    assert(a =~= b);
}

} // verus!
