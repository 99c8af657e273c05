use vstd::prelude::*;
use crate::cohost::{profile_url, spec_profile_url};
use crate::merge::BlockStep;
use crate::text::{decimal, u64_to_decimal};
use crate::{Author, PostMeta};

verus! {

/// The project that a post was posted from.
pub struct Project {
    pub handle: String,
    pub display_name: String,
}

/// An attachment of a post.
pub enum Attachment {
    Image { attachment_id: String, alt_text: String, width: usize, height: usize },
    /// A kind of attachment this library does not know, with its raw fields.
    Unknown { fields: String },
}

/// The project that asked an ask, if it was not anonymous.
pub struct AskingProject {
    pub handle: String,
    pub display_name: String,
}

/// One content block of a post.
pub enum Block {
    Markdown { content: String },
    Attachment { attachment: Attachment },
    Ask { asking_project: Option<AskingProject>, content: String },
    AttachmentRow { attachments: Vec<Block> },
    /// A kind of block this library does not know, with its raw fields.
    Unknown { fields: String },
}

/// An entry of a post's AST map: the AST, as JSON, for blocks `start_index..end_index`.
pub struct AstSpan {
    pub ast: String,
    pub start_index: usize,
    pub end_index: usize,
}

/// One post of the archive.
pub struct Post {
    pub post_id: u64,
    pub posting_project: Project,
    pub headline: String,
    pub published_at: String,
    pub tags: Vec<String>,
    pub blocks: Vec<Block>,
    pub spans: Vec<AstSpan>,
    pub share_tree: Vec<Post>,
    pub transparent_share_of_post_id: Option<u64>,
    pub filename: String,
}

/// One file to write: where, under the output directory, which post, and which files
/// its header refers to.
pub struct OutputDoc {
    pub path: String,
    pub post: Post,
    pub references: Vec<String>,
}

pub open spec fn spec_shared_filename(post_id: u64, shared_id: u64) -> Seq<char> {
    decimal(post_id as nat) + "/"@ + decimal(shared_id as nat) + ".html"@
}

pub open spec fn spec_top_filename(post_id: u64) -> Seq<char> {
    decimal(post_id as nat) + ".html"@
}

pub open spec fn strs_view(v: Seq<String>) -> Seq<Seq<char>> {
    v.map_values(|s: String| s@)
}

/// The file names of the posts of a share tree, in its order, under the directory of
/// post `post_id`.
pub open spec fn spec_shared_filenames(post_id: u64, shared: Seq<Post>) -> Seq<Seq<char>> {
    shared.map_values(|p: Post| spec_shared_filename(post_id, p.post_id))
}

/// The file name of a post of the share tree of post `post_id`.
pub fn shared_filename(post_id: u64, shared_id: u64) -> (r: String)
    ensures
        r@ == spec_shared_filename(post_id, shared_id),
{
    u64_to_decimal(post_id).concat("/").concat(u64_to_decimal(shared_id).as_str()).concat(".html")
}

/// The file names of the posts of `shared`, under the directory of post `post_id`.
pub fn shared_post_filenames(post_id: u64, shared: &Vec<Post>) -> (r: Vec<String>)
    ensures
        strs_view(r@) == spec_shared_filenames(post_id, shared@),
{
    let mut out: Vec<String> = Vec::new();
    let mut i: usize = 0;
    while i < shared.len()
        invariant
            i <= shared@.len(),
            strs_view(out@) == spec_shared_filenames(post_id, shared@).subrange(0, i as int),
        decreases shared@.len() - i,
    {
        let f = shared_filename(post_id, shared[i].post_id);
        let ghost before = out@;
        out.push(f);
        assert(strs_view(out@) =~= strs_view(before).push(spec_shared_filename(post_id, shared@[i as int].post_id)));
        assert(strs_view(out@) =~= spec_shared_filenames(post_id, shared@).subrange(0, i + 1));
        i = i + 1;
    }
    assert(spec_shared_filenames(post_id, shared@).subrange(0, shared@.len() as int) =~= spec_shared_filenames(post_id, shared@));
    out
}

/// The files that a post becomes: each post of its share tree, in order, under the
/// post's own directory and with no references, then the post itself, with its share
/// tree taken out and the shared files as its references.
pub fn plan_outputs(post: Post) -> (r: Vec<OutputDoc>)
    ensures
        r@.len() == 1 + post.share_tree@.len(),
        forall|k: int| 0 <= k < post.share_tree@.len() ==> {
            &&& (#[trigger] r@[k]).path@ == spec_shared_filename(post.post_id, post.share_tree@[k].post_id)
            &&& r@[k].post == post.share_tree@[k]
            &&& r@[k].references@.len() == 0
        },
        r@.last().path@ == spec_top_filename(post.post_id),
        strs_view(r@.last().references@) == spec_shared_filenames(post.post_id, post.share_tree@),
        r@.last().post.share_tree@.len() == 0,
        r@.last().post.post_id == post.post_id,
        r@.last().post.posting_project == post.posting_project,
        r@.last().post.headline == post.headline,
        r@.last().post.published_at == post.published_at,
        r@.last().post.tags == post.tags,
        r@.last().post.blocks == post.blocks,
        r@.last().post.spans == post.spans,
        r@.last().post.transparent_share_of_post_id == post.transparent_share_of_post_id,
        r@.last().post.filename == post.filename,
{
    let ghost old_post = post;
    let mut post = post;
    let mut shared: Vec<Post> = Vec::new();
    core::mem::swap(&mut shared, &mut post.share_tree);
    let references = shared_post_filenames(post.post_id, &shared);
    let ghost tree = shared@;
    let n = shared.len();
    let mut out: Vec<OutputDoc> = Vec::new();
    let mut k: usize = 0;
    while shared.len() > 0
        invariant
            k + shared@.len() == tree.len(),
            tree.len() == n,
            shared@ == tree.subrange(k as int, tree.len() as int),
            out@.len() == k,
            forall|j: int| 0 <= j < k ==> {
                &&& (#[trigger] out@[j]).path@ == spec_shared_filename(post.post_id, tree[j].post_id)
                &&& out@[j].post == tree[j]
                &&& out@[j].references@.len() == 0
            },
        decreases shared@.len(),
    {
        let p = shared.remove(0);
        let path = shared_filename(post.post_id, p.post_id);
        out.push(OutputDoc { path, post: p, references: Vec::new() });
        k = k + 1;
        assert(shared@ =~= tree.subrange(k as int, tree.len() as int));
    }
    let path = u64_to_decimal(post.post_id).concat(".html");
    out.push(OutputDoc { path, post, references });
    out
}

/// The header of a post's file, with `references` as the files it refers to.
pub fn build_post_meta(post: &Post, references: Vec<String>) -> (r: PostMeta)
    ensures
        r.archived matches Some(a) && a@ == spec_profile_url(post.posting_project.handle@)
            + "/post/"@ + post.filename@,
        r.references == references,
        r.title matches Some(t) && t@ == post.headline@,
        r.published matches Some(p) && p@ == post.published_at@,
        r.author matches Some(a) && {
            &&& a.href@ == spec_profile_url(post.posting_project.handle@)
            &&& a.name@ == post.posting_project.display_name@ + " (@"@
                + post.posting_project.handle@ + ")"@
            &&& a.display_name@ == post.posting_project.display_name@
            &&& a.display_handle@ == "@"@ + post.posting_project.handle@
        },
        strs_view(r.tags@) == strs_view(post.tags@),
        r.is_transparent_share == post.transparent_share_of_post_id is Some,
{
    let handle = post.posting_project.handle.as_str();
    let display_name = post.posting_project.display_name.as_str();
    let archived = profile_url(handle).concat("/post/").concat(post.filename.as_str());
    let author = Author {
        href: profile_url(handle),
        name: String::from_str(display_name).concat(" (@").concat(handle).concat(")"),
        display_name: String::from_str(display_name),
        display_handle: String::from_str("@").concat(handle),
    };
    let mut tags: Vec<String> = Vec::new();
    let mut i: usize = 0;
    while i < post.tags.len()
        invariant
            i <= post.tags@.len(),
            strs_view(tags@) == strs_view(post.tags@).subrange(0, i as int),
        decreases post.tags@.len() - i,
    {
        let ghost before = tags@;
        tags.push(post.tags[i].clone());
        assert(strs_view(tags@) =~= strs_view(before).push(post.tags@[i as int]@));
        assert(strs_view(tags@) =~= strs_view(post.tags@).subrange(0, i + 1));
        i = i + 1;
    }
    assert(strs_view(post.tags@).subrange(0, post.tags@.len() as int) =~= strs_view(post.tags@));
    PostMeta {
        archived: Some(archived),
        references,
        title: Some(post.headline.clone()),
        published: Some(post.published_at.clone()),
        author: Some(author),
        tags,
        is_transparent_share: post.transparent_share_of_post_id.is_some(),
    }
}

/// The text of a post's file: the header, a blank line, then for each block the HTML
/// that it gives (`fragments[i]` for block `i`): a block rendered natively is followed
/// by a blank line, one replaced by an AST is not, and a skipped block gives nothing.
pub open spec fn spec_document(header: Seq<char>, steps: Seq<BlockStep>, fragments: Seq<Seq<char>>) -> Seq<char>
    decreases steps.len(),
{
    if steps.len() == 0 {
        header + "\n\n"@
    } else {
        let i = steps.len() - 1;
        let prev = spec_document(header, steps.drop_last(), fragments);
        match steps[i] {
            BlockStep::Native => prev + fragments[i] + "\n\n"@,
            BlockStep::Override { .. } => prev + fragments[i],
            BlockStep::Skip { .. } => prev,
        }
    }
}

/// Puts a post's file together from its header and the HTML of its blocks.
pub fn assemble_document(header: &str, steps: &Vec<BlockStep>, fragments: &Vec<String>) -> (r: String)
    requires
        fragments@.len() == steps@.len(),
    ensures
        r@ == spec_document(header@, steps@, strs_view(fragments@)),
{
    let mut out = String::from_str(header).concat("\n\n");
    let mut i: usize = 0;
    while i < steps.len()
        invariant
            i <= steps@.len(),
            fragments@.len() == steps@.len(),
            out@ == spec_document(header@, steps@.subrange(0, i as int), strs_view(fragments@)),
        decreases steps@.len() - i,
    {
        assert(steps@.subrange(0, i + 1).drop_last() =~= steps@.subrange(0, i as int));
        match steps[i] {
            BlockStep::Native => {
                out = out.concat(fragments[i].as_str()).concat("\n\n");
            },
            BlockStep::Override { .. } => {
                out = out.concat(fragments[i].as_str());
            },
            BlockStep::Skip { .. } => {},
        }
        i = i + 1;
    }
    assert(steps@.subrange(0, steps@.len() as int) =~= steps@);
    out
}

/// An image to show: attachment id, alt text, width and height.
pub type ImageView = (Seq<char>, Seq<char>, usize, usize);

/// The image of a block that is an image attachment.
pub open spec fn attachment_image(b: Block) -> Seq<ImageView> {
    match b {
        Block::Attachment { attachment: Attachment::Image { attachment_id, alt_text, width, height } } => seq![
            (attachment_id@, alt_text@, width, height),
        ],
        _ => Seq::empty(),
    }
}

pub open spec fn row_images(s: Seq<Block>) -> Seq<ImageView>
    decreases s.len(),
{
    if s.len() == 0 {
        Seq::empty()
    } else {
        row_images(s.drop_last()) + attachment_image(s.last())
    }
}

/// The images that a block shows, in order: an image attachment its image, a row of
/// attachments the images of its image attachments (anything else in a row, and an
/// attachment of a kind not known, shows nothing); other blocks none.
pub open spec fn block_images(b: Block) -> Seq<ImageView> {
    match b {
        Block::AttachmentRow { attachments } => row_images(attachments@),
        _ => attachment_image(b),
    }
}

/// An image that a block shows.
pub struct Image {
    pub attachment_id: String,
    pub alt_text: String,
    pub width: usize,
    pub height: usize,
}

pub open spec fn image_view(i: Image) -> ImageView {
    (i.attachment_id@, i.alt_text@, i.width, i.height)
}

fn push_attachment_image(b: &Block, out: &mut Vec<Image>)
    ensures
        final(out)@.map_values(|i: Image| image_view(i)) == old(out)@.map_values(
            |i: Image| image_view(i),
        ) + attachment_image(*b),
{
    let ghost before = out@.map_values(|i: Image| image_view(i));
    match b {
        Block::Attachment { attachment: Attachment::Image { attachment_id, alt_text, width, height } } => {
            out.push(
                Image {
                    attachment_id: attachment_id.clone(),
                    alt_text: alt_text.clone(),
                    width: *width,
                    height: *height,
                },
            );
        },
        _ => {},
    }
    assert(out@.map_values(|i: Image| image_view(i)) =~= before + attachment_image(*b));
}

/// The images that `b` shows, as `block_images` has them.
pub fn images_of_block(b: &Block) -> (r: Vec<Image>)
    ensures
        r@.map_values(|i: Image| image_view(i)) == block_images(*b),
{
    let mut out: Vec<Image> = Vec::new();
    match b {
        Block::AttachmentRow { attachments } => {
            let mut k: usize = 0;
            assert(out@.map_values(|i: Image| image_view(i)) =~= row_images(attachments@.subrange(0, 0)));
            while k < attachments.len()
                invariant
                    k <= attachments@.len(),
                    out@.map_values(|i: Image| image_view(i)) == row_images(attachments@.subrange(0, k as int)),
                decreases attachments@.len() - k,
            {
                assert(attachments@.subrange(0, k + 1).drop_last() =~= attachments@.subrange(0, k as int));
                push_attachment_image(&attachments[k], &mut out);
                k = k + 1;
            }
            assert(attachments@.subrange(0, attachments@.len() as int) =~= attachments@);
        },
        _ => {
            assert(out@.map_values(|i: Image| image_view(i)) =~= Seq::<ImageView>::empty());
            push_attachment_image(b, &mut out);
        },
    }
    out
}

/// Every post gives one file for itself and one for each post of its share tree.
pub proof fn lemma_output_count(post_id: u64, shared: Seq<Post>)
    ensures
        spec_shared_filenames(post_id, shared).push(spec_top_filename(post_id)).len() == 1
            + shared.len(),
{
}

} // verus!
