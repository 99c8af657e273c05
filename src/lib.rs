use vstd::prelude::*;

pub mod ast;
pub mod cache;
pub mod cohost;
pub mod convert;
pub mod html;
pub mod merge;
pub mod text;

verus! {

/// Who wrote a post.
#[derive(Clone, Debug)]
pub struct Author {
    pub href: String,
    pub name: String,
    pub display_name: String,
    pub display_handle: String,
}

/// The header of one output document.
#[derive(Clone, Debug)]
pub struct PostMeta {
    pub archived: Option<String>,
    pub references: Vec<String>,
    pub title: Option<String>,
    pub published: Option<String>,
    pub author: Option<Author>,
    pub tags: Vec<String>,
    pub is_transparent_share: bool,
}

/// A post's HTML, not yet sanitised, with the header read from it.
#[derive(Debug)]
pub struct ExtractedPost {
    pub unsafe_html: String,
    pub meta: PostMeta,
}

/// A page that lists groups of posts.
#[derive(Clone, Debug)]
pub struct PostsPageTemplate {
    pub post_groups: Vec<PostGroup>,
}

#[derive(Clone, Debug)]
pub struct PostGroup {
    pub posts: Vec<TemplatedPost>,
    pub meta: PostMeta,
}

/// A post ready to be placed in a page: sanitised content and its own page's name.
#[derive(Clone, Debug)]
pub struct TemplatedPost {
    pub post_page_filename: Option<String>,
    pub post_page_href: Option<String>,
    pub meta: PostMeta,
    pub content: String,
}

/// What comrak renders from a markdown text with tables, autolinks and hard line
/// breaks on, and raw HTML let through.
pub uninterp spec fn markdown_html(markdown: Seq<char>) -> Seq<char>;

/// What the sanitiser leaves of an HTML text.
pub uninterp spec fn sanitized_html(html: Seq<char>) -> Seq<char>;

/// Relies on comrak::markdown_to_html, with the options named on `markdown_html`:
/// the HTML depends on the markdown alone.
#[verifier::external_body]
pub fn render_markdown(markdown: &str) -> (r: String)
    ensures
        r@ == markdown_html(markdown@),
{
    let mut options = comrak::Options::default();
    options.render.unsafe_ = true;
    options.extension.table = true;
    options.extension.autolink = true;
    options.render.hardbreaks = true;
    comrak::markdown_to_html(markdown, &options)
}

/// Relies on ammonia::Builder::clean, with the tags and attributes that the archive's
/// HTML needs allowed: the result depends on the HTML alone.
#[verifier::external_body]
fn sanitize(unsafe_html: &str) -> (r: String)
    ensures
        r@ == sanitized_html(unsafe_html@),
{
    ammonia::Builder::default().add_generic_attributes(["style", "id"]).add_generic_attributes(
        ["data-cohost-href", "data-cohost-src"],
    ).add_tag_attributes("details", ["open"]).add_tag_attributes("img", ["loading"]).add_tags(
        ["meta"],
    ).add_tag_attributes("meta", ["name", "content"]).id_prefix(Some("user-content-")).clean(
        unsafe_html,
    ).to_string()
}

/// The name of a post's own page: its file name with the last extension, if any,
/// replaced by `.html`.
pub open spec fn spec_page_filename(name: Seq<char>) -> Seq<char> {
    let d = crate::text::last_index_of(name, '.', name.len() as int);
    if d >= 0 {
        name.subrange(0, d) + ".html"@
    } else {
        name + ".html"@
    }
}

impl TemplatedPost {
    /// A post from its file name, its header and its HTML: the HTML is sanitised, and the
    /// page is named after the file.
    pub fn from_extracted(file_name: &str, post: ExtractedPost) -> (r: TemplatedPost)
        ensures
            r.post_page_filename matches Some(f) && f@ == spec_page_filename(file_name@),
            r.post_page_href matches Some(h) && h@ == spec_page_filename(file_name@),
            r.content@ == sanitized_html(post.unsafe_html@),
            r.meta == post.meta,
    {
        let d = crate::text::rfind_char(file_name, '.');
        let stem = match d {
            Some(i) => file_name.substring_char(0, i),
            None => file_name,
        };
        let page = String::from_str(stem).concat(".html");
        let href = String::from_str(stem).concat(".html");
        TemplatedPost {
            post_page_filename: Some(page),
            post_page_href: Some(href),
            meta: post.meta,
            content: sanitize(post.unsafe_html.as_str()),
        }
    }
}

} // verus!
