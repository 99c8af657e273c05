use autost::ast::{compile, sorted_properties, str_lt, Ast, IdlValue, Property};
use autost::cache::{
    cache_step, cached_attachment_url, download_target, CacheError, CacheStep, Variant,
};
use autost::cohost::{attachment_id_to_url, attachment_url_to_id, profile_url, starts_with, str_eq};
use autost::convert::{
    assemble_document, build_post_meta, images_of_block, plan_outputs, shared_filename,
    shared_post_filenames, Attachment, Block, Post, Project,
};
use autost::html::{attachment_ids, expand_node, rewrite_fragment, Attr, HtmlNode};
use autost::merge::{plan_blocks, sort_spans, BlockStep, SpanRef};
use autost::text::u64_to_decimal;
use autost::{render_markdown, ExtractedPost, PostMeta, TemplatedPost};

const ID: &str = "44444444-4444-4444-4444-444444444444";

fn attachment_url() -> String {
    format!("https://cohost.org/rc/attachment-redirect/{ID}")
}

fn el(name: &str, attrs: &[(&str, &str)], children: Vec<HtmlNode>) -> HtmlNode {
    HtmlNode::Element {
        name: name.to_string(),
        attrs: attrs
            .iter()
            .map(|(n, v)| Attr { name: n.to_string(), value: v.to_string() })
            .collect(),
        children,
    }
}

fn text(s: &str) -> HtmlNode {
    HtmlNode::Text { contents: s.to_string() }
}

fn attrs_of(n: &HtmlNode) -> Vec<(String, String)> {
    match n {
        HtmlNode::Element { attrs, .. } => {
            attrs.iter().map(|a| (a.name.clone(), a.value.clone())).collect()
        }
        _ => panic!("not an element"),
    }
}

fn pairs(v: &[(&str, &str)]) -> Vec<(String, String)> {
    v.iter().map(|(a, b)| (a.to_string(), b.to_string())).collect()
}

fn resolved() -> Vec<(String, String)> {
    vec![(ID.to_string(), format!("images/{ID}"))]
}

fn post(id: u64, shared: Vec<Post>) -> Post {
    Post {
        post_id: id,
        posting_project: Project { handle: "rc".to_string(), display_name: "RC".to_string() },
        headline: format!("headline {id}"),
        published_at: "2024-01-01T00:00:00Z".to_string(),
        tags: vec!["a".to_string(), "b".to_string()],
        blocks: vec![Block::Markdown { content: "text".to_string() }],
        spans: vec![],
        share_tree: shared,
        transparent_share_of_post_id: None,
        filename: format!("{id}-post"),
    }
}

fn kinds(steps: &[BlockStep]) -> String {
    steps
        .iter()
        .map(|s| match s {
            BlockStep::Native => 'N',
            BlockStep::Skip { .. } => 'S',
            BlockStep::Override { .. } => 'O',
        })
        .collect()
}

#[test]
fn test_render_markdown() {
    assert_eq!(render_markdown("first\nsecond"), "<p>first<br />\nsecond</p>\n");
}

#[test]
fn markdown_text_paragraph() {
    assert_eq!(render_markdown("text"), "<p>text</p>\n");
}

#[test]
fn span_covering_two_to_five() {
    let queue = sort_spans(&vec![(2, 5)]);
    let steps = plan_blocks(6, &queue);
    assert_eq!(kinds(&steps), "NNSSON");
    match steps[4] {
        BlockStep::Override { span } => assert_eq!((span.start, span.end, span.index), (2, 5, 0)),
        _ => panic!("block 4 is not replaced"),
    }
    let overrides = steps.iter().filter(|s| matches!(s, BlockStep::Override { .. })).count();
    assert_eq!(overrides, 1);
}

#[test]
fn spans_sorted_by_start_then_end_then_input_order() {
    let queue = sort_spans(&vec![(3, 4), (0, 2), (0, 1), (3, 4)]);
    let order: Vec<(usize, usize, usize)> = queue.iter().map(|s| (s.start, s.end, s.index)).collect();
    assert_eq!(order, vec![(0, 1, 2), (0, 2, 1), (3, 4, 0), (3, 4, 3)]);
}

#[test]
fn passed_and_overlapping_spans_are_skipped() {
    // (0, 1) sorts first and replaces block 0; (0, 2) replaces block 1; (1, 2) has
    // ended by block 2 and is dropped.
    let queue = sort_spans(&vec![(0, 2), (1, 2), (0, 1)]);
    let steps = plan_blocks(3, &queue);
    assert_eq!(kinds(&steps), "OON");
    match steps[0] {
        BlockStep::Override { span } => assert_eq!(span.index, 2),
        _ => panic!(),
    }
    match steps[1] {
        BlockStep::Override { span } => assert_eq!(span.index, 0),
        _ => panic!(),
    }
    let q = vec![SpanRef { start: 5, end: 9, index: 0 }];
    assert_eq!(kinds(&plan_blocks(4, &q)), "NNNN");
    assert_eq!(plan_blocks(0, &q).len(), 0);
}

#[test]
fn two_shared_posts_give_three_files() {
    let top = post(3, vec![post(1, vec![]), post(2, vec![])]);
    let docs = plan_outputs(top);
    assert_eq!(docs.len(), 3);
    assert_eq!(docs[0].path, "3/1.html");
    assert_eq!(docs[1].path, "3/2.html");
    assert_eq!(docs[2].path, "3.html");
    assert_eq!(docs[2].references, vec!["3/1.html".to_string(), "3/2.html".to_string()]);
    assert!(docs[0].references.is_empty());
    assert_eq!(docs[0].post.post_id, 1);
    assert!(docs[2].post.share_tree.is_empty());
}

#[test]
fn post_without_share_tree_gives_one_file() {
    let docs = plan_outputs(post(12, vec![]));
    assert_eq!(docs.len(), 1);
    assert_eq!(docs[0].path, "12.html");
    assert!(docs[0].references.is_empty());
}

#[test]
fn shared_file_names() {
    assert_eq!(shared_filename(10, 7), "10/7.html");
    let names = shared_post_filenames(5, &vec![post(1, vec![]), post(9, vec![])]);
    assert_eq!(names, vec!["5/1.html".to_string(), "5/9.html".to_string()]);
}

#[test]
fn post_meta_fields() {
    let mut p = post(4, vec![]);
    p.transparent_share_of_post_id = Some(2);
    let meta: PostMeta = build_post_meta(&p, vec!["4/1.html".to_string()]);
    assert_eq!(meta.archived.as_deref(), Some("https://cohost.org/rc/post/4-post"));
    assert_eq!(meta.references, vec!["4/1.html".to_string()]);
    assert_eq!(meta.title.as_deref(), Some("headline 4"));
    assert_eq!(meta.published.as_deref(), Some("2024-01-01T00:00:00Z"));
    let author = meta.author.unwrap();
    assert_eq!(author.href, "https://cohost.org/rc");
    assert_eq!(author.name, "RC (@rc)");
    assert_eq!(author.display_name, "RC");
    assert_eq!(author.display_handle, "@rc");
    assert_eq!(meta.tags, vec!["a".to_string(), "b".to_string()]);
    assert!(meta.is_transparent_share);
    assert!(!build_post_meta(&post(1, vec![]), vec![]).is_transparent_share);
}

#[test]
fn document_spacing() {
    let steps = vec![
        BlockStep::Native,
        BlockStep::Skip { span: SpanRef { start: 1, end: 3, index: 0 } },
        BlockStep::Override { span: SpanRef { start: 1, end: 3, index: 0 } },
        BlockStep::Native,
    ];
    let frags: Vec<String> = vec!["<p>a</p>\n".into(), "unused".into(), "<p>b</p>\n".into(), "<img>".into()];
    assert_eq!(
        assemble_document("<meta>", &steps, &frags),
        "<meta>\n\n<p>a</p>\n\n\n<p>b</p>\n<img>\n\n"
    );
    assert_eq!(assemble_document("h", &vec![], &vec![]), "h\n\n");
}

#[test]
fn image_attachment_url_is_made_local() {
    let url = attachment_url();
    let frag = vec![el("p", &[], vec![el("img", &[("src", &url), ("alt", "text")], vec![])])];
    assert_eq!(attachment_ids(&frag), vec![ID.to_string()]);
    let out = rewrite_fragment(&frag, &resolved()).unwrap();
    let img = match &out[0] {
        HtmlNode::Element { children, .. } => &children[0],
        _ => panic!(),
    };
    assert_eq!(
        attrs_of(img),
        pairs(&[
            ("src", &format!("images/{ID}")),
            ("alt", "text"),
            ("data-cohost-src", &url),
            ("loading", "lazy"),
        ])
    );
}

#[test]
fn anchor_attachment_url_is_made_local() {
    let url = attachment_url();
    let frag = vec![el("a", &[("href", &url)], vec![text("text")])];
    let out = rewrite_fragment(&frag, &resolved()).unwrap();
    assert_eq!(
        attrs_of(&out[0]),
        pairs(&[("href", &format!("images/{ID}")), ("data-cohost-href", &url)])
    );
}

#[test]
fn other_urls_pass_through() {
    let frag = vec![
        el("img", &[("src", "https://example.com/a.png")], vec![]),
        el("a", &[("href", "https://cohost.org/rc")], vec![]),
        el("video", &[("src", &attachment_url())], vec![]),
    ];
    assert!(attachment_ids(&frag).is_empty());
    let out = rewrite_fragment(&frag, &vec![]).unwrap();
    assert_eq!(attrs_of(&out[0]), pairs(&[("src", "https://example.com/a.png"), ("loading", "lazy")]));
    assert_eq!(attrs_of(&out[1]), pairs(&[("href", "https://cohost.org/rc")]));
    assert_eq!(attrs_of(&out[2]), pairs(&[("src", &attachment_url())]));
}

#[test]
fn unresolved_attachment_is_refused() {
    let frag = vec![el("img", &[("src", &attachment_url())], vec![])];
    assert!(rewrite_fragment(&frag, &vec![]).is_none());
}

#[test]
fn mention_becomes_profile_link() {
    let frag = vec![el(
        "div",
        &[],
        vec![
            text("hi "),
            el("Mention", &[("handle", "rc")], vec![el("Mention", &[("handle", "x")], vec![text("@x")])]),
            el("Mention", &[("other", "y")], vec![]),
        ],
    )];
    let out = rewrite_fragment(&frag, &vec![]).unwrap();
    let kids = match &out[0] {
        HtmlNode::Element { children, .. } => children,
        _ => panic!(),
    };
    assert_eq!(kids.len(), 3);
    assert!(matches!(&kids[0], HtmlNode::Text { contents } if contents == "hi "));
    match &kids[1] {
        HtmlNode::Element { name, attrs, children } => {
            assert_eq!(name, "a");
            assert_eq!(attrs[0].value, "https://cohost.org/rc");
            assert!(matches!(&children[0], HtmlNode::Element { name, .. } if name == "a"));
            assert_eq!(attrs_of(&children[0]), pairs(&[("href", "https://cohost.org/x")]));
        }
        _ => panic!(),
    }
    match &kids[2] {
        HtmlNode::Element { name, .. } => assert_eq!(name, "Mention"),
        _ => panic!(),
    }
    match expand_node(&text("t")) {
        HtmlNode::Text { contents } => assert_eq!(contents, "t"),
        _ => panic!(),
    }
}

fn prop(name: &str, value: IdlValue) -> Property {
    Property { name: name.to_string(), value }
}

#[test]
fn ast_compiles_to_sorted_content_attributes() {
    let ast = Ast::Root {
        children: vec![Ast::Element {
            tag_name: "details".to_string(),
            properties: vec![
                prop("open", IdlValue::Bool { value: true }),
                prop("className", IdlValue::Text { value: "c".to_string() }),
                prop("hidden", IdlValue::Bool { value: false }),
                prop("data", IdlValue::Other),
            ],
            children: vec![Ast::Text { value: "x".to_string() }],
        }],
    };
    let out = compile(&ast);
    assert_eq!(out.len(), 1);
    assert_eq!(attrs_of(&out[0]), pairs(&[("class", "c"), ("open", "")]));
    match &out[0] {
        HtmlNode::Element { name, children, .. } => {
            assert_eq!(name, "details");
            assert!(matches!(&children[0], HtmlNode::Text { contents } if contents == "x"));
        }
        _ => panic!(),
    }
}

#[test]
fn ast_number_property() {
    let ast = Ast::Element {
        tag_name: "ol".to_string(),
        properties: vec![prop("start", IdlValue::Number { value: 2 })],
        children: vec![],
    };
    assert_eq!(attrs_of(&compile(&ast)[0]), pairs(&[("start", "2")]));
}

#[test]
fn property_order_does_not_matter() {
    let make = |order: &[usize]| {
        let all = [
            ("start", IdlValue::Number { value: 10 }),
            ("reversed", IdlValue::Bool { value: true }),
            ("title", IdlValue::Text { value: "t".to_string() }),
        ];
        let props = order
            .iter()
            .map(|&i| {
                let (n, v) = &all[i];
                let v = match v {
                    IdlValue::Number { value } => IdlValue::Number { value: *value },
                    IdlValue::Bool { value } => IdlValue::Bool { value: *value },
                    IdlValue::Text { value } => IdlValue::Text { value: value.clone() },
                    IdlValue::Other => IdlValue::Other,
                };
                prop(n, v)
            })
            .collect();
        attrs_of(&compile(&Ast::Element { tag_name: "ol".to_string(), properties: props, children: vec![] })[0])
    };
    let expected = pairs(&[("reversed", ""), ("start", "10"), ("title", "t")]);
    assert_eq!(make(&[0, 1, 2]), expected);
    assert_eq!(make(&[2, 1, 0]), expected);
    assert_eq!(make(&[1, 2, 0]), expected);
}

#[test]
fn equal_names_keep_their_order() {
    let sorted = sorted_properties(&vec![
        prop("b", IdlValue::Other),
        prop("a", IdlValue::Number { value: 1 }),
        prop("a", IdlValue::Number { value: 2 }),
    ]);
    let names: Vec<String> = sorted.iter().map(|p| p.name.clone()).collect();
    assert_eq!(names, vec!["a", "a", "b"]);
    assert!(matches!(sorted[0].value, IdlValue::Number { value: 1 }));
    assert!(str_lt("a", "b"));
    assert!(str_lt("ab", "abc"));
    assert!(!str_lt("abc", "abc"));
    assert!(str_lt("Z", "a"));
}

#[test]
fn attachment_urls_and_ids() {
    assert_eq!(attachment_id_to_url(ID), attachment_url());
    assert_eq!(attachment_url_to_id(&attachment_url()), Some(ID.to_string()));
    assert_eq!(attachment_url_to_id("https://cohost.org/rc/post/1"), None);
    assert_eq!(profile_url("rc"), "https://cohost.org/rc");
    assert!(starts_with("abc", "ab"));
    assert!(!starts_with("a", "ab"));
    assert!(str_eq("x", "x"));
    assert!(!str_eq("x", "xy"));
    assert_eq!(u64_to_decimal(0), "0");
    assert_eq!(u64_to_decimal(1234567890), "1234567890");
    assert_eq!(u64_to_decimal(u64::MAX), "18446744073709551615");
}

#[test]
fn cache_urls_and_steps() {
    assert_eq!(cached_attachment_url(Variant::Full, "i", "a.png"), "attachments/i/a.png");
    assert_eq!(cached_attachment_url(Variant::Thumbnail, "i", "a.png"), "attachments/thumbs/i/a.png");
    match cache_step(Variant::Thumbnail, "i", Some("a.png")) {
        CacheStep::Hit { url } => assert_eq!(url, "attachments/thumbs/i/a.png"),
        _ => panic!("a cached file must be a hit"),
    }
    let first = match cache_step(Variant::Full, "i", Some("a.png")) {
        CacheStep::Hit { url } => url,
        _ => panic!(),
    };
    let second = match cache_step(Variant::Full, "i", Some("a.png")) {
        CacheStep::Hit { url } => url,
        _ => panic!(),
    };
    assert_eq!(first, second);
    match cache_step(Variant::Full, ID, None) {
        CacheStep::Fetch { probe_url } => assert_eq!(probe_url, attachment_url()),
        _ => panic!("an empty cache must fetch"),
    }
}

#[test]
fn redirect_targets() {
    let loc = "https://staging.cohostcdn.org/attachment/x/my%20file.png";
    let full = download_target(Variant::Full, Some(loc)).unwrap();
    assert_eq!(full.url, loc);
    assert_eq!(full.filename, "my file.png");
    let thumb = download_target(Variant::Thumbnail, Some(loc)).unwrap();
    assert_eq!(thumb.url, format!("{loc}?width=675"));
    assert_eq!(thumb.filename, "my file.png");
    assert!(matches!(download_target(Variant::Full, None), Err(CacheError::NoRedirect)));
    assert!(matches!(download_target(Variant::Full, Some("no-slash")), Err(CacheError::NoSlash)));
    assert!(matches!(download_target(Variant::Full, Some("a/%FF")), Err(CacheError::BadFilename)));
}

#[test]
fn templated_post_names_its_page() {
    let meta = build_post_meta(&post(1, vec![]), vec![]);
    let t = TemplatedPost::from_extracted(
        "hello.world.md",
        ExtractedPost { unsafe_html: "<p>hi</p><script>alert(1)</script>".to_string(), meta },
    );
    assert_eq!(t.post_page_filename.as_deref(), Some("hello.world.html"));
    assert_eq!(t.post_page_href.as_deref(), Some("hello.world.html"));
    assert_eq!(t.content, "<p>hi</p>");
    let meta = build_post_meta(&post(1, vec![]), vec![]);
    let u = TemplatedPost::from_extracted("plain", ExtractedPost { unsafe_html: String::new(), meta });
    assert_eq!(u.post_page_filename.as_deref(), Some("plain.html"));
}

fn image_block(id: &str) -> Block {
    Block::Attachment {
        attachment: Attachment::Image {
            attachment_id: id.to_string(),
            alt_text: format!("alt {id}"),
            width: 10,
            height: 20,
        },
    }
}

#[test]
fn images_of_attachment_blocks() {
    let one = images_of_block(&image_block("a"));
    assert_eq!(one.len(), 1);
    assert_eq!((one[0].attachment_id.as_str(), one[0].alt_text.as_str(), one[0].width, one[0].height), ("a", "alt a", 10, 20));
    let row = Block::AttachmentRow {
        attachments: vec![
            image_block("x"),
            Block::Markdown { content: "no".to_string() },
            Block::Attachment { attachment: Attachment::Unknown { fields: "{}".to_string() } },
            image_block("y"),
        ],
    };
    let ids: Vec<String> = images_of_block(&row).into_iter().map(|i| i.attachment_id).collect();
    assert_eq!(ids, vec!["x".to_string(), "y".to_string()]);
    assert!(images_of_block(&Block::Markdown { content: "m".to_string() }).is_empty());
    assert!(images_of_block(&Block::Unknown { fields: "{}".to_string() }).is_empty());
}
