use vstd::prelude::*;
use crate::cohost::{attachment_id_to_url, spec_attachment_id_to_url};
use crate::text::{last_index_of, rfind_char};

verus! {

/// Which form of an attachment is cached: the file itself or its thumbnail.
#[derive(Clone, Copy, Debug, PartialEq, Eq, Structural)]
pub enum Variant {
    Full,
    Thumbnail,
}

/// Why an attachment could not be fetched.
#[derive(Clone, Copy, Debug, PartialEq, Eq, Structural)]
pub enum CacheError {
    /// The probe of the attachment URL was answered without a `Location` header.
    NoRedirect,
    /// The redirect target has no `/`, so it names no file.
    NoSlash,
    /// The redirect target's file name is not valid percent-encoded UTF-8.
    BadFilename,
}

/// What to do for an attachment.
pub enum CacheStep {
    /// It is cached: this is its local URL.
    Hit { url: String },
    /// It is not: probe `probe_url`, without following the redirect, for its location.
    Fetch { probe_url: String },
}

/// Where to download an attachment from, and the name to store it under.
pub struct Download {
    pub url: String,
    pub filename: String,
}

pub open spec fn variant_root(v: Variant) -> Seq<char> {
    match v {
        Variant::Full => "attachments/"@,
        Variant::Thumbnail => "attachments/thumbs/"@,
    }
}

/// The local URL of cached file `filename` of attachment `id`.
pub open spec fn spec_cached_url(v: Variant, id: Seq<char>, filename: Seq<char>) -> Seq<char> {
    variant_root(v) + id + "/"@ + filename
}

pub open spec fn name_view(o: Option<&str>) -> Option<Seq<char>> {
    match o {
        Some(f) => Some(f@),
        None => None,
    }
}

/// The local URL, if the attachment is cached under `existing`; `None` when it must be
/// fetched.
pub open spec fn spec_cache_hit(v: Variant, id: Seq<char>, existing: Option<Seq<char>>) -> Option<
    Seq<char>,
> {
    match existing {
        Some(f) => Some(spec_cached_url(v, id, f)),
        None => None,
    }
}

/// What the download of a variant fetches, given the redirect target: the thumbnail asks
/// for a fixed width.
pub open spec fn spec_download_url(v: Variant, location: Seq<char>) -> Seq<char> {
    match v {
        Variant::Full => location,
        Variant::Thumbnail => location + "?width=675"@,
    }
}

/// The last path segment of a redirect target.
pub open spec fn last_segment(location: Seq<char>) -> Option<Seq<char>> {
    let k = last_index_of(location, '/', location.len() as int);
    if k >= 0 {
        Some(location.subrange(k + 1, location.len() as int))
    } else {
        None
    }
}

/// What percent-decoding gives for a text: `None` where the bytes it gives are not UTF-8.
pub uninterp spec fn percent_decoded(s: Seq<char>) -> Option<Seq<char>>;

/// Relies on urlencoding::decode: decodes `%XX` escapes, fails where the result is not
/// UTF-8, and gives back a text without `%` as it is.
#[verifier::external_body]
fn percent_decode(s: &str) -> (r: Option<String>)
    ensures
        r is Some ==> percent_decoded(s@) == Some(r->0@),
        r is None ==> percent_decoded(s@) is None,
        r is None ==> s@.contains('%'),
        r is Some ==> (s@.contains('%') || r->0@ == s@),
{
    match urlencoding::decode(s) {
        Ok(d) => Some(d.into_owned()),
        Err(_) => None,
    }
}

/// The local URL of cached file `filename` of attachment `id`.
pub fn cached_attachment_url(v: Variant, id: &str, filename: &str) -> (r: String)
    ensures
        r@ == spec_cached_url(v, id@, filename@),
{
    let root = match v {
        Variant::Full => String::from_str("attachments/"),
        Variant::Thumbnail => String::from_str("attachments/thumbs/"),
    };
    root.concat(id).concat("/").concat(filename)
}

/// Decides, from the name of the file found in the attachment's directory if any,
/// whether the attachment is cached; a cached one is never fetched again.
pub fn cache_step(v: Variant, id: &str, existing: Option<&str>) -> (r: CacheStep)
    ensures
        r is Hit <==> spec_cache_hit(v, id@, name_view(existing)) is Some,
        r matches CacheStep::Hit { url } ==> spec_cache_hit(v, id@, name_view(existing))
            == Some(url@),
        r matches CacheStep::Fetch { probe_url } ==> probe_url@ == spec_attachment_id_to_url(id@),
{
    match existing {
        Some(f) => CacheStep::Hit { url: cached_attachment_url(v, id, f) },
        None => CacheStep::Fetch { probe_url: attachment_id_to_url(id) },
    }
}

/// From the answer to the probe (its `Location` header, if any), what to download and
/// the name to store it under: the redirect target's last segment, percent-decoded.
pub fn download_target(v: Variant, location: Option<&str>) -> (r: Result<Download, CacheError>)
    ensures
        location is None ==> r == Err::<Download, CacheError>(CacheError::NoRedirect),
        location matches Some(l) ==> match last_segment(l@) {
            None => r == Err::<Download, CacheError>(CacheError::NoSlash),
            Some(seg) => match percent_decoded(seg) {
                None => r == Err::<Download, CacheError>(CacheError::BadFilename),
                Some(name) => r matches Ok(d) && d.filename@ == name && d.url@
                    == spec_download_url(v, l@),
            },
        },
{
    let l = match location {
        Some(l) => l,
        None => {
            return Err(CacheError::NoRedirect);
        },
    };
    let k = match rfind_char(l, '/') {
        Some(k) => k,
        None => {
            return Err(CacheError::NoSlash);
        },
    };
    let n = l.unicode_len();
    let seg = l.substring_char(k + 1, n);
    let name = match percent_decode(seg) {
        Some(n) => n,
        None => {
            return Err(CacheError::BadFilename);
        },
    };
    let url = match v {
        Variant::Full => String::from_str(l),
        Variant::Thumbnail => String::from_str(l).concat("?width=675"),
    };
    Ok(Download { url, filename: name })
}

/// Caching is idempotent: once an attachment is stored under the name that its redirect
/// target gives, a later lookup of it is a hit, so it makes no request, and gives the
/// local URL made from that name, as often as it is asked.
pub proof fn lemma_cache_idempotent(v: Variant, id: Seq<char>, location: Seq<char>, name: Seq<char>)
    requires
        last_segment(location) matches Some(seg) && percent_decoded(seg) == Some(name),
    ensures
        spec_cache_hit(v, id, Some(name)) == Some(spec_cached_url(v, id, name)),
{
}

} // verus!
