use std::cell::RefCell;

use autost::html::{attachment_ids, rewrite_fragment, Attr, HtmlNode};
use autost::render_markdown;
use html5ever::{
    serialize::{SerializeOpts, TraversalScope},
    tendril::TendrilSink,
    Attribute, LocalName, Namespace, QualName,
};
use markup5ever_rcdom::{Handle, Node, NodeData, RcDom, SerializableHandle};

fn html_ns() -> Namespace {
    Namespace::from("http://www.w3.org/1999/xhtml")
}

fn from_handle(node: &Handle) -> Option<HtmlNode> {
    match &node.data {
        NodeData::Element { name, attrs, .. } => Some(HtmlNode::Element {
            name: name.local.to_string(),
            attrs: attrs
                .borrow()
                .iter()
                .map(|a| Attr { name: a.name.local.to_string(), value: a.value.to_string() })
                .collect(),
            children: node.children.borrow().iter().filter_map(from_handle).collect(),
        }),
        NodeData::Text { contents } => {
            Some(HtmlNode::Text { contents: contents.borrow().to_string() })
        }
        NodeData::Comment { contents } => Some(HtmlNode::Comment { contents: contents.to_string() }),
        _ => None,
    }
}

fn parse(html: &str) -> Vec<HtmlNode> {
    let dom = html5ever::parse_fragment(
        RcDom::default(),
        Default::default(),
        QualName::new(None, html_ns(), LocalName::from("body")),
        vec![],
        false,
    )
    .one(html);
    let mut out = vec![];
    for child in dom.document.children.borrow().iter() {
        if let NodeData::Element { name, .. } = &child.data {
            if &*name.local == "html" {
                out.extend(child.children.borrow().iter().filter_map(from_handle));
                continue;
            }
        }
        out.extend(from_handle(child));
    }
    out
}

fn to_handle(node: &HtmlNode) -> Handle {
    match node {
        HtmlNode::Element { name, attrs, children } => {
            let element = Node::new(NodeData::Element {
                name: QualName::new(None, html_ns(), LocalName::from(name.as_str())),
                attrs: RefCell::new(
                    attrs
                        .iter()
                        .map(|a| Attribute {
                            name: QualName::new(None, Namespace::from(""), LocalName::from(a.name.as_str())),
                            value: a.value.as_str().into(),
                        })
                        .collect(),
                ),
                template_contents: RefCell::new(None),
                mathml_annotation_xml_integration_point: false,
            });
            element.children.borrow_mut().extend(children.iter().map(to_handle));
            element
        }
        HtmlNode::Text { contents } => {
            Node::new(NodeData::Text { contents: RefCell::new(contents.as_str().into()) })
        }
        HtmlNode::Comment { contents } => {
            Node::new(NodeData::Comment { contents: contents.as_str().into() })
        }
    }
}

fn serialize(nodes: &[HtmlNode]) -> String {
    let root = Node::new(NodeData::Document);
    root.children.borrow_mut().extend(nodes.iter().map(to_handle));
    let mut out = vec![];
    html5ever::serialize(
        &mut out,
        &SerializableHandle::from(root),
        SerializeOpts { traversal_scope: TraversalScope::ChildrenOnly(None), ..Default::default() },
    )
    .unwrap();
    String::from_utf8(out).unwrap()
}

/// Renders a markdown block with every attachment cached at `images/<id>`.
fn render_markdown_block(markdown: &str) -> String {
    let nodes = parse(&render_markdown(markdown));
    let table: Vec<(String, String)> =
        attachment_ids(&nodes).into_iter().map(|id| (id.clone(), format!("images/{id}"))).collect();
    serialize(&rewrite_fragment(&nodes, &table).unwrap())
}

#[test]
fn test_render_markdown_block() {
    let n = "\n";
    assert_eq!(render_markdown_block("text"), format!(r#"<p>text</p>{n}"#));
    assert_eq!(render_markdown_block("![text](https://cohost.org/rc/attachment-redirect/44444444-4444-4444-4444-444444444444)"),
        format!(r#"<p><img src="images/44444444-4444-4444-4444-444444444444" alt="text" data-cohost-src="https://cohost.org/rc/attachment-redirect/44444444-4444-4444-4444-444444444444" loading="lazy"></p>{n}"#));
    assert_eq!(render_markdown_block("<img src=https://cohost.org/rc/attachment-redirect/44444444-4444-4444-4444-444444444444>"),
        format!(r#"<img src="images/44444444-4444-4444-4444-444444444444" data-cohost-src="https://cohost.org/rc/attachment-redirect/44444444-4444-4444-4444-444444444444" loading="lazy">{n}"#));
    assert_eq!(render_markdown_block("[text](https://cohost.org/rc/attachment-redirect/44444444-4444-4444-4444-444444444444)"),
        format!(r#"<p><a href="images/44444444-4444-4444-4444-444444444444" data-cohost-href="https://cohost.org/rc/attachment-redirect/44444444-4444-4444-4444-444444444444">text</a></p>{n}"#));
    assert_eq!(render_markdown_block("<a href=https://cohost.org/rc/attachment-redirect/44444444-4444-4444-4444-444444444444>text</a>"),
        format!(r#"<p><a href="images/44444444-4444-4444-4444-444444444444" data-cohost-href="https://cohost.org/rc/attachment-redirect/44444444-4444-4444-4444-444444444444">text</a></p>{n}"#));
}
