use vstd::prelude::*;

verus! {

/// Where the archive points for an attachment; the attachment id follows it.
pub const ATTACHMENT_URL_PREFIX: &'static str = "https://cohost.org/rc/attachment-redirect/";

/// The site's origin; a profile lives at the origin followed by the handle.
pub const COHOST_ORIGIN: &'static str = "https://cohost.org/";

pub open spec fn spec_attachment_url_to_id(url: Seq<char>) -> Option<Seq<char>> {
    if ATTACHMENT_URL_PREFIX@.is_prefix_of(url) {
        Some(url.subrange(ATTACHMENT_URL_PREFIX@.len() as int, url.len() as int))
    } else {
        None
    }
}

pub open spec fn spec_attachment_id_to_url(id: Seq<char>) -> Seq<char> {
    ATTACHMENT_URL_PREFIX@ + id
}

pub open spec fn spec_profile_url(handle: Seq<char>) -> Seq<char> {
    COHOST_ORIGIN@ + handle
}

/// Whether `s` begins with `p`.
pub fn starts_with(s: &str, p: &str) -> (r: bool)
    ensures
        r == p@.is_prefix_of(s@),
{
    let n = s.unicode_len();
    let m = p.unicode_len();
    if m > n {
        return false;
    }
    let mut i: usize = 0;
    while i < m
        invariant
            m == p@.len(),
            n == s@.len(),
            m <= n,
            i <= m,
            forall|j: int| 0 <= j < i ==> s@[j] == p@[j],
        decreases m - i,
    {
        if s.get_char(i) != p.get_char(i) {
            assert(s@.subrange(0, m as int)[i as int] != p@[i as int]);
            return false;
        }
        i = i + 1;
    }
    assert(p@ =~= s@.subrange(0, m as int));
    true
}

/// Whether `a` and `b` hold the same characters.
pub fn str_eq(a: &str, b: &str) -> (r: bool)
    ensures
        r == (a@ == b@),
{
    if a.unicode_len() != b.unicode_len() {
        return false;
    }
    let r = starts_with(a, b);
    proof {
        if r {
            assert(a@ =~= a@.subrange(0, a@.len() as int));
        }
    }
    r
}

/// The attachment id that an attachment URL names, if `url` is one.
pub fn attachment_url_to_id(url: &str) -> (r: Option<String>)
    ensures
        r matches Some(id) ==> spec_attachment_url_to_id(url@) == Some(id@),
        r is None ==> spec_attachment_url_to_id(url@) is None,
{
    if starts_with(url, ATTACHMENT_URL_PREFIX) {
        let id = url.substring_char(ATTACHMENT_URL_PREFIX.unicode_len(), url.unicode_len());
        Some(String::from_str(id))
    } else {
        None
    }
}

/// The attachment URL for attachment `id`.
pub fn attachment_id_to_url(id: &str) -> (r: String)
    ensures
        r@ == spec_attachment_id_to_url(id@),
{
    String::from_str(ATTACHMENT_URL_PREFIX).concat(id)
}

/// The profile page of the project with handle `handle`.
pub fn profile_url(handle: &str) -> (r: String)
    ensures
        r@ == spec_profile_url(handle@),
{
    String::from_str(COHOST_ORIGIN).concat(handle)
}

/// An attachment URL names back the id that it was made from.
pub proof fn lemma_attachment_url_round_trip(id: Seq<char>)
    ensures
        spec_attachment_url_to_id(spec_attachment_id_to_url(id)) == Some(id),
{
    let url = spec_attachment_id_to_url(id);
    assert(ATTACHMENT_URL_PREFIX@ =~= url.subrange(0, ATTACHMENT_URL_PREFIX@.len() as int));
    assert(url.subrange(ATTACHMENT_URL_PREFIX@.len() as int, url.len() as int) =~= id);
}

} // verus!
