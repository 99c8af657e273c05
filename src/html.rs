use vstd::prelude::*;
use crate::cohost::{
    attachment_url_to_id, profile_url, spec_attachment_url_to_id, spec_profile_url, str_eq,
};

verus! {

/// An attribute of an element: name and value.
pub struct Attr {
    pub name: String,
    pub value: String,
}

/// A node of an HTML fragment.
pub enum HtmlNode {
    Element { name: String, attrs: Vec<Attr>, children: Vec<HtmlNode> },
    Text { contents: String },
    Comment { contents: String },
}

/// The mathematical model of an `HtmlNode`.
pub enum HtmlTree {
    Element {
        name: Seq<char>,
        attrs: Seq<(Seq<char>, Seq<char>)>,
        children: Seq<HtmlTree>,
    },
    Text { contents: Seq<char> },
    Comment { contents: Seq<char> },
}

/// A table from attachment id to the local URL of its cached file.
pub type Resolved = Seq<(Seq<char>, Seq<char>)>;

pub open spec fn attrs_view(a: Seq<Attr>) -> Seq<(Seq<char>, Seq<char>)> {
    a.map_values(|x: Attr| (x.name@, x.value@))
}

pub open spec fn pairs_view(a: Seq<(String, String)>) -> Resolved {
    a.map_values(|x: (String, String)| (x.0@, x.1@))
}

pub open spec fn node_view(n: HtmlNode) -> HtmlTree
    decreases n,
{
    match n {
        HtmlNode::Element { name, attrs, children } => HtmlTree::Element {
            name: name@,
            attrs: attrs_view(attrs@),
            children: nodes_view(children@),
        },
        HtmlNode::Text { contents } => HtmlTree::Text { contents: contents@ },
        HtmlNode::Comment { contents } => HtmlTree::Comment { contents: contents@ },
    }
}

pub open spec fn nodes_view(s: Seq<HtmlNode>) -> Seq<HtmlTree>
    decreases s,
{
    if s.len() == 0 {
        Seq::empty()
    } else {
        nodes_view(s.drop_last()).push(node_view(s.last()))
    }
}

/// The place of the first attribute of `attrs` from `i` on that is named `key`, or the
/// length of `attrs` if there is none.
pub open spec fn find_attr_from(attrs: Seq<(Seq<char>, Seq<char>)>, key: Seq<char>, i: int) -> int
    decreases attrs.len() - i,
{
    if i >= attrs.len() {
        attrs.len() as int
    } else if attrs[i].0 == key {
        i
    } else {
        find_attr_from(attrs, key, i + 1)
    }
}

pub open spec fn find_attr(attrs: Seq<(Seq<char>, Seq<char>)>, key: Seq<char>) -> int {
    find_attr_from(attrs, key, 0)
}

/// The attribute of an element that may hold an attachment URL.
pub open spec fn url_attr(name: Seq<char>) -> Option<Seq<char>> {
    if name == "img"@ {
        Some("src"@)
    } else if name == "a"@ {
        Some("href"@)
    } else {
        None
    }
}

/// The attachment id that an element refers to, if any.
pub open spec fn element_attachment(name: Seq<char>, attrs: Seq<(Seq<char>, Seq<char>)>) -> Option<
    Seq<char>,
> {
    match url_attr(name) {
        Some(key) => {
            let j = find_attr(attrs, key);
            if j < attrs.len() {
                spec_attachment_url_to_id(attrs[j].1)
            } else {
                None
            }
        },
        None => None,
    }
}

/// The local URL that `t` gives for `id`: its first entry for that id.
pub open spec fn lookup(t: Resolved, id: Seq<char>) -> Option<Seq<char>>
    decreases t.len(),
{
    if t.len() == 0 {
        None
    } else if t[0].0 == id {
        Some(t[0].1)
    } else {
        lookup(t.drop_first(), id)
    }
}

/// The attachment ids that a tree refers to, in document order.
pub open spec fn tree_attachments(n: HtmlTree) -> Seq<Seq<char>>
    decreases n,
{
    match n {
        HtmlTree::Element { name, attrs, children } => {
            let own = match element_attachment(name, attrs) {
                Some(id) => seq![id],
                None => Seq::empty(),
            };
            own + trees_attachments(children)
        },
        _ => Seq::empty(),
    }
}

pub open spec fn trees_attachments(s: Seq<HtmlTree>) -> Seq<Seq<char>>
    decreases s,
{
    if s.len() == 0 {
        Seq::empty()
    } else {
        trees_attachments(s.drop_last()) + tree_attachments(s.last())
    }
}

/// Every attachment that `s` refers to has a local URL in `t`.
pub open spec fn all_resolved(s: Seq<HtmlTree>, t: Resolved) -> bool {
    forall|k: int|
        0 <= k < trees_attachments(s).len() ==> #[trigger] lookup(t, trees_attachments(s)[k]) is Some
}

/// An element's attributes after its attachment URL, if it has one, is made local.
pub open spec fn rewrite_attrs(name: Seq<char>, attrs: Seq<(Seq<char>, Seq<char>)>, t: Resolved) -> Seq<
    (Seq<char>, Seq<char>),
> {
    match url_attr(name) {
        Some(key) => {
            let j = find_attr(attrs, key);
            let kept = match element_attachment(name, attrs) {
                Some(id) => attrs.update(j, (attrs[j].0, lookup(t, id)->0)).push(
                    ("data-cohost-"@ + key, attrs[j].1),
                ),
                None => attrs,
            };
            if name == "img"@ {
                kept.push(("loading"@, "lazy"@))
            } else {
                kept
            }
        },
        None => attrs,
    }
}

pub open spec fn rewrite_tree(n: HtmlTree, t: Resolved) -> HtmlTree
    decreases n,
{
    match n {
        HtmlTree::Element { name, attrs, children } => HtmlTree::Element {
            name,
            attrs: rewrite_attrs(name, attrs, t),
            children: rewrite_trees(children, t),
        },
        _ => n,
    }
}

pub open spec fn rewrite_trees(s: Seq<HtmlTree>, t: Resolved) -> Seq<HtmlTree>
    decreases s,
{
    if s.len() == 0 {
        Seq::empty()
    } else {
        rewrite_trees(s.drop_last(), t).push(rewrite_tree(s.last(), t))
    }
}

/// A `Mention` element with a `handle` attribute becomes a link to that profile.
pub open spec fn expand_tree(n: HtmlTree) -> HtmlTree
    decreases n,
{
    match n {
        HtmlTree::Element { name, attrs, children } => {
            let j = find_attr(attrs, "handle"@);
            if name == "Mention"@ && j < attrs.len() {
                HtmlTree::Element {
                    name: "a"@,
                    attrs: seq![("href"@, spec_profile_url(attrs[j].1))],
                    children: expand_trees(children),
                }
            } else {
                HtmlTree::Element { name, attrs, children: expand_trees(children) }
            }
        },
        _ => n,
    }
}

pub open spec fn expand_trees(s: Seq<HtmlTree>) -> Seq<HtmlTree>
    decreases s,
{
    if s.len() == 0 {
        Seq::empty()
    } else {
        expand_trees(s.drop_last()).push(expand_tree(s.last()))
    }
}

proof fn lemma_find_attr_bounds(attrs: Seq<(Seq<char>, Seq<char>)>, key: Seq<char>, i: int)
    requires
        0 <= i,
    ensures
        i <= find_attr_from(attrs, key, i) <= attrs.len() || (i > attrs.len() && find_attr_from(attrs, key, i) == attrs.len()),
    decreases attrs.len() - i,
{
    if i < attrs.len() && attrs[i].0 != key {
        lemma_find_attr_bounds(attrs, key, i + 1);
    }
}

proof fn lemma_child_decreases(n: HtmlNode, i: int)
    requires
        n is Element,
        0 <= i < n->Element_children@.len(),
    ensures
        decreases_to!(n => n->Element_children@[i]),
{
    assert(decreases_to!(n => n->Element_children));
    assert(decreases_to!(n->Element_children => n->Element_children@));
    assert(decreases_to!(n->Element_children@ => n->Element_children@[i]));
}

proof fn lemma_prefix_push<A>(s: Seq<A>, i: int)
    requires
        0 <= i < s.len(),
    ensures
        s.subrange(0, i + 1).drop_last() == s.subrange(0, i),
        s.subrange(0, i + 1).last() == s[i],
{
    assert(s.subrange(0, i + 1).drop_last() =~= s.subrange(0, i));
}

fn copy_str(s: &String) -> (r: String)
    ensures
        r@ == s@,
{
    s.clone()
}

/// The place of the first attribute named `key`, or the number of attributes.
pub fn find_attr_exec(attrs: &Vec<Attr>, key: &str) -> (r: usize)
    ensures
        r as int == find_attr(attrs_view(attrs@), key@),
{
    let mut i: usize = 0;
    while i < attrs.len()
        invariant
            i <= attrs@.len(),
            find_attr(attrs_view(attrs@), key@) == find_attr_from(attrs_view(attrs@), key@, i as int),
        decreases attrs@.len() - i,
    {
        if str_eq(attrs[i].name.as_str(), key) {
            return i;
        }
        i = i + 1;
    }
    i
}

/// The local URL that `t` gives for `id`.
pub fn lookup_exec(t: &Vec<(String, String)>, id: &str) -> (r: Option<String>)
    ensures
        r matches Some(u) ==> lookup(pairs_view(t@), id@) == Some(u@),
        r is None ==> lookup(pairs_view(t@), id@) is None,
{
    let ghost tv = pairs_view(t@);
    let mut i: usize = 0;
    assert(tv.subrange(0, tv.len() as int) =~= tv);
    while i < t.len()
        invariant
            i <= t@.len(),
            tv == pairs_view(t@),
            lookup(tv, id@) == lookup(tv.subrange(i as int, tv.len() as int), id@),
        decreases t@.len() - i,
    {
        assert(tv.subrange(i as int, tv.len() as int).drop_first() =~= tv.subrange(
            i + 1,
            tv.len() as int,
        ));
        if str_eq(t[i].0.as_str(), id) {
            return Some(copy_str(&t[i].1));
        }
        i = i + 1;
    }
    None
}

/// Every id of `ids` has a local URL in `t`.
pub open spec fn resolves(ids: Seq<Seq<char>>, t: Resolved) -> bool {
    forall|k: int| 0 <= k < ids.len() ==> #[trigger] lookup(t, ids[k]) is Some
}

pub open spec fn strs_view(v: Seq<String>) -> Seq<Seq<char>> {
    v.map_values(|s: String| s@)
}

proof fn lemma_resolves_concat(a: Seq<Seq<char>>, b: Seq<Seq<char>>, t: Resolved)
    ensures
        resolves(a + b, t) <==> (resolves(a, t) && resolves(b, t)),
{
    if resolves(a + b, t) {
        assert forall|k: int| 0 <= k < a.len() implies #[trigger] lookup(t, a[k]) is Some by {
            assert((a + b)[k] == a[k]);
        }
        assert forall|k: int| 0 <= k < b.len() implies #[trigger] lookup(t, b[k]) is Some by {
            assert((a + b)[a.len() + k] == b[k]);
        }
    }
    if resolves(a, t) && resolves(b, t) {
        assert forall|k: int| 0 <= k < (a + b).len() implies #[trigger] lookup(t, (a + b)[k]) is Some by {
            if k < a.len() {
                assert((a + b)[k] == a[k]);
            } else {
                assert((a + b)[k] == b[k - a.len()]);
            }
        }
    }
}

proof fn lemma_resolves_prefix(s: Seq<HtmlNode>, j: int, t: Resolved)
    requires
        resolves(trees_attachments(nodes_view(s)), t),
        0 <= j <= s.len(),
    ensures
        resolves(trees_attachments(nodes_view(s.subrange(0, j))), t),
    decreases s.len(),
{
    if j == s.len() {
        assert(s.subrange(0, j) =~= s);
    } else {
        lemma_resolves_concat(
            trees_attachments(nodes_view(s.drop_last())),
            tree_attachments(node_view(s.last())),
            t,
        );
        assert(nodes_view(s).drop_last() =~= nodes_view(s.drop_last()));
        assert(s.drop_last().subrange(0, j) =~= s.subrange(0, j));
        lemma_resolves_prefix(s.drop_last(), j, t);
    }
}

/// The attributes of element `name` once its attachment URL, if any, is made local.
fn rewrite_attrs_exec(name: &str, attrs: &Vec<Attr>, t: &Vec<(String, String)>) -> (r: Vec<Attr>)
    requires
        element_attachment(name@, attrs_view(attrs@)) matches Some(id) ==> lookup(
            pairs_view(t@),
            id,
        ) is Some,
    ensures
        attrs_view(r@) == rewrite_attrs(name@, attrs_view(attrs@), pairs_view(t@)),
{
    let ghost av = attrs_view(attrs@);
    let ghost tv = pairs_view(t@);
    let is_img = str_eq(name, "img");
    let key: Option<&str> = if is_img {
        Some("src")
    } else if str_eq(name, "a") {
        Some("href")
    } else {
        None
    };
    assert(key matches Some(k) ==> url_attr(name@) == Some(k@));
    assert(key is None ==> url_attr(name@) is None);
    let mut j: usize = attrs.len();
    let mut local: Option<String> = None;
    if let Some(k) = key {
        j = find_attr_exec(attrs, k);
        if j < attrs.len() {
            if let Some(id) = attachment_url_to_id(attrs[j].value.as_str()) {
                local = lookup_exec(t, id.as_str());
                assert(local is Some);
            }
        }
    }
    let ghost target = if local is Some {
        av.update(j as int, (av[j as int].0, local->0@))
    } else {
        av
    };
    let mut out: Vec<Attr> = Vec::new();
    let mut i: usize = 0;
    while i < attrs.len()
        invariant
            i <= attrs@.len(),
            av == attrs_view(attrs@),
            target.len() == av.len(),
            local is Some ==> j < attrs@.len(),
            target == if local is Some {
                av.update(j as int, (av[j as int].0, local->0@))
            } else {
                av
            },
            attrs_view(out@) == target.subrange(0, i as int),
        decreases attrs@.len() - i,
    {
        let a = if i == j && local.is_some() {
            match &local {
                Some(u) => Attr { name: copy_str(&attrs[i].name), value: copy_str(u) },
                None => Attr { name: copy_str(&attrs[i].name), value: copy_str(&attrs[i].value) },
            }
        } else {
            Attr { name: copy_str(&attrs[i].name), value: copy_str(&attrs[i].value) }
        };
        let ghost va = (a.name@, a.value@);
        assert(va == target[i as int]);
        let ghost before = out@;
        out.push(a);
        assert(attrs_view(out@) =~= attrs_view(before).push(va));
        assert(attrs_view(out@) =~= target.subrange(0, i + 1));
        i = i + 1;
    }
    assert(target.subrange(0, attrs@.len() as int) =~= target);
    if let Some(k) = key {
        if local.is_some() {
            let ghost before = attrs_view(out@);
            out.push(
                Attr {
                    name: String::from_str("data-cohost-").concat(k),
                    value: copy_str(&attrs[j].value),
                },
            );
            assert(attrs_view(out@) =~= before.push(("data-cohost-"@ + k@, av[j as int].1)));
        }
        if is_img {
            let ghost before = attrs_view(out@);
            out.push(Attr { name: String::from_str("loading"), value: String::from_str("lazy") });
            assert(attrs_view(out@) =~= before.push(("loading"@, "lazy"@)));
        }
    }
    out
}

/// The node with every attachment URL in it made local.
pub fn rewrite_node(n: &HtmlNode, t: &Vec<(String, String)>) -> (r: HtmlNode)
    requires
        resolves(tree_attachments(node_view(*n)), pairs_view(t@)),
    ensures
        node_view(r) == rewrite_tree(node_view(*n), pairs_view(t@)),
    decreases n,
{
    match n {
        HtmlNode::Element { name, attrs, children } => {
            let ghost tv = pairs_view(t@);
            let ghost own = match element_attachment(name@, attrs_view(attrs@)) {
                Some(id) => seq![id],
                None => Seq::<Seq<char>>::empty(),
            };
            proof {
                lemma_resolves_concat(own, trees_attachments(nodes_view(children@)), tv);
                if element_attachment(name@, attrs_view(attrs@)) is Some {
                    assert(lookup(tv, own[0]) is Some);
                }
            }
            let new_attrs = rewrite_attrs_exec(name.as_str(), attrs, t);
            let mut out: Vec<HtmlNode> = Vec::new();
            let mut i: usize = 0;
            while i < children.len()
                invariant
                    i <= children@.len(),
                    n is Element,
                    n->Element_children == *children,
                    tv == pairs_view(t@),
                    resolves(trees_attachments(nodes_view(children@)), tv),
                    nodes_view(out@) == rewrite_trees(nodes_view(children@.subrange(0, i as int)), tv),
                decreases children@.len() - i,
            {
                proof {
                    lemma_child_decreases(*n, i as int);
                    lemma_prefix_push(children@, i as int);
                    lemma_resolves_prefix(children@, i + 1, tv);
                    lemma_resolves_concat(
                        trees_attachments(nodes_view(children@.subrange(0, i as int))),
                        tree_attachments(node_view(children@[i as int])),
                        tv,
                    );
                    assert(nodes_view(children@.subrange(0, i + 1)).drop_last() =~= nodes_view(children@.subrange(0, i as int)));
                }
                let c = rewrite_node(&children[i], t);
                let ghost before = out@;
                out.push(c);
                proof {
                    assert(out@.drop_last() =~= before);
                    let pv = nodes_view(children@.subrange(0, i + 1));
                    assert(pv.last() == node_view(children@[i as int]));
                }
                i = i + 1;
            }
            assert(children@.subrange(0, children@.len() as int) =~= children@);
            HtmlNode::Element { name: copy_str(name), attrs: new_attrs, children: out }
        },
        HtmlNode::Text { contents } => HtmlNode::Text { contents: copy_str(contents) },
        HtmlNode::Comment { contents } => HtmlNode::Comment { contents: copy_str(contents) },
    }
}

/// The node with every `Mention` element that has a `handle` made a link to the profile.
pub fn expand_node(n: &HtmlNode) -> (r: HtmlNode)
    ensures
        node_view(r) == expand_tree(node_view(*n)),
    decreases n,
{
    match n {
        HtmlNode::Element { name, attrs, children } => {
            let mut out: Vec<HtmlNode> = Vec::new();
            let mut i: usize = 0;
            while i < children.len()
                invariant
                    i <= children@.len(),
                    n is Element,
                    n->Element_children == *children,
                    nodes_view(out@) == expand_trees(nodes_view(children@.subrange(0, i as int))),
                decreases children@.len() - i,
            {
                proof {
                    lemma_child_decreases(*n, i as int);
                    lemma_prefix_push(children@, i as int);
                    assert(nodes_view(children@.subrange(0, i + 1)).drop_last() =~= nodes_view(children@.subrange(0, i as int)));
                }
                let c = expand_node(&children[i]);
                let ghost before = out@;
                out.push(c);
                proof {
                    assert(out@.drop_last() =~= before);
                    let pv = nodes_view(children@.subrange(0, i + 1));
                    assert(pv.last() == node_view(children@[i as int]));
                }
                i = i + 1;
            }
            assert(children@.subrange(0, children@.len() as int) =~= children@);
            let j = find_attr_exec(attrs, "handle");
            if j < attrs.len() && str_eq(name.as_str(), "Mention") {
                let mut new_attrs: Vec<Attr> = Vec::new();
                new_attrs.push(
                    Attr { name: String::from_str("href"), value: profile_url(attrs[j].value.as_str()) },
                );
                assert(attrs_view(new_attrs@) =~= seq![("href"@, spec_profile_url(attrs@[j as int].value@))]);
                HtmlNode::Element { name: String::from_str("a"), attrs: new_attrs, children: out }
            } else {
                let mut new_attrs: Vec<Attr> = Vec::new();
                let mut k: usize = 0;
                while k < attrs.len()
                    invariant
                        k <= attrs@.len(),
                        attrs_view(new_attrs@) == attrs_view(attrs@).subrange(0, k as int),
                    decreases attrs@.len() - k,
                {
                    let ghost before = new_attrs@;
                    new_attrs.push(Attr { name: copy_str(&attrs[k].name), value: copy_str(&attrs[k].value) });
                    assert(attrs_view(new_attrs@) =~= attrs_view(before).push((attrs@[k as int].name@, attrs@[k as int].value@)));
                    assert(attrs_view(new_attrs@) =~= attrs_view(attrs@).subrange(0, k + 1));
                    k = k + 1;
                }
                assert(attrs_view(attrs@).subrange(0, attrs@.len() as int) =~= attrs_view(attrs@));
                HtmlNode::Element { name: copy_str(name), attrs: new_attrs, children: out }
            }
        },
        HtmlNode::Text { contents } => HtmlNode::Text { contents: copy_str(contents) },
        HtmlNode::Comment { contents } => HtmlNode::Comment { contents: copy_str(contents) },
    }
}

/// Appends to `out` the attachment ids that `n` refers to, in document order.
fn collect_attachments(n: &HtmlNode, out: &mut Vec<String>)
    ensures
        strs_view(final(out)@) == strs_view(old(out)@) + tree_attachments(node_view(*n)),
    decreases n,
{
    match n {
        HtmlNode::Element { name, attrs, children } => {
            let ghost start = strs_view(out@);
            let found = match url_attr_exec(name.as_str()) {
                Some(k) => {
                    let j = find_attr_exec(attrs, k);
                    if j < attrs.len() {
                        attachment_url_to_id(attrs[j].value.as_str())
                    } else {
                        None
                    }
                },
                None => None,
            };
            let ghost own = match element_attachment(name@, attrs_view(attrs@)) {
                Some(id) => seq![id],
                None => Seq::<Seq<char>>::empty(),
            };
            if let Some(id) = found {
                let ghost before = out@;
                out.push(id);
                assert(strs_view(out@) =~= strs_view(before) + own);
            } else {
                assert(strs_view(out@) =~= start + own);
            }
            let mut i: usize = 0;
            while i < children.len()
                invariant
                    i <= children@.len(),
                    n is Element,
                    n->Element_children == *children,
                    strs_view(out@) == start + own + trees_attachments(nodes_view(children@.subrange(0, i as int))),
                decreases children@.len() - i,
            {
                proof {
                    lemma_child_decreases(*n, i as int);
                    lemma_prefix_push(children@, i as int);
                    assert(nodes_view(children@.subrange(0, i + 1)).drop_last() =~= nodes_view(children@.subrange(0, i as int)));
                    let pv = nodes_view(children@.subrange(0, i + 1));
                    assert(pv.last() == node_view(children@[i as int]));
                }
                collect_attachments(&children[i], out);
                assert(strs_view(out@) =~= start + own + trees_attachments(nodes_view(children@.subrange(0, i + 1))));
                i = i + 1;
            }
            assert(children@.subrange(0, children@.len() as int) =~= children@);
            assert(strs_view(out@) =~= start + tree_attachments(node_view(*n)));
        },
        _ => {
            assert(strs_view(out@) =~= strs_view(out@) + Seq::<Seq<char>>::empty());
        },
    }
}

fn url_attr_exec(name: &str) -> (r: Option<&'static str>)
    ensures
        r matches Some(k) ==> url_attr(name@) == Some(k@),
        r is None ==> url_attr(name@) is None,
{
    if str_eq(name, "img") {
        Some("src")
    } else if str_eq(name, "a") {
        Some("href")
    } else {
        None
    }
}

/// The attachment ids that `nodes` refer to, in document order: each needs a local URL
/// before `rewrite_fragment` can rewrite `nodes`.
pub fn attachment_ids(nodes: &Vec<HtmlNode>) -> (r: Vec<String>)
    ensures
        strs_view(r@) == trees_attachments(nodes_view(nodes@)),
{
    let mut out: Vec<String> = Vec::new();
    let mut i: usize = 0;
    assert(strs_view(out@) =~= trees_attachments(nodes_view(nodes@.subrange(0, 0))));
    while i < nodes.len()
        invariant
            i <= nodes@.len(),
            strs_view(out@) == trees_attachments(nodes_view(nodes@.subrange(0, i as int))),
        decreases nodes@.len() - i,
    {
        proof {
            lemma_prefix_push(nodes@, i as int);
            assert(nodes_view(nodes@.subrange(0, i + 1)).drop_last() =~= nodes_view(nodes@.subrange(0, i as int)));
        }
        collect_attachments(&nodes[i], &mut out);
        i = i + 1;
    }
    assert(nodes@.subrange(0, nodes@.len() as int) =~= nodes@);
    out
}

/// Whether every id of `ids` has a local URL in `t`.
pub fn all_ids_resolved(ids: &Vec<String>, t: &Vec<(String, String)>) -> (r: bool)
    ensures
        r == resolves(strs_view(ids@), pairs_view(t@)),
{
    let mut i: usize = 0;
    while i < ids.len()
        invariant
            i <= ids@.len(),
            forall|k: int| 0 <= k < i ==> #[trigger] lookup(pairs_view(t@), strs_view(ids@)[k]) is Some,
        decreases ids@.len() - i,
    {
        if lookup_exec(t, ids[i].as_str()).is_none() {
            assert(lookup(pairs_view(t@), strs_view(ids@)[i as int]) is None);
            return false;
        }
        i = i + 1;
    }
    true
}

/// Rewrites an HTML fragment: attachment URLs in `<img src>` and `<a href>` become the
/// local URLs that `t` gives, keeping the remote URL in a `data-cohost-*` attribute,
/// every `<img>` loads lazily, and each `Mention` element with a `handle` becomes a
/// link to that profile. `None` when an attachment of the fragment has no entry in `t`.
pub fn rewrite_fragment(nodes: &Vec<HtmlNode>, t: &Vec<(String, String)>) -> (r: Option<Vec<HtmlNode>>)
    ensures
        r is Some <==> resolves(trees_attachments(nodes_view(nodes@)), pairs_view(t@)),
        r matches Some(out) ==> nodes_view(out@) == expand_trees(
            rewrite_trees(nodes_view(nodes@), pairs_view(t@)),
        ),
{
    let ids = attachment_ids(nodes);
    if !all_ids_resolved(&ids, t) {
        return None;
    }
    let ghost tv = pairs_view(t@);
    let mut out: Vec<HtmlNode> = Vec::new();
    let mut i: usize = 0;
    while i < nodes.len()
        invariant
            i <= nodes@.len(),
            tv == pairs_view(t@),
            resolves(trees_attachments(nodes_view(nodes@)), tv),
            nodes_view(out@) == expand_trees(rewrite_trees(nodes_view(nodes@.subrange(0, i as int)), tv)),
        decreases nodes@.len() - i,
    {
        proof {
            lemma_prefix_push(nodes@, i as int);
            lemma_resolves_prefix(nodes@, i + 1, tv);
            lemma_resolves_concat(
                trees_attachments(nodes_view(nodes@.subrange(0, i as int))),
                tree_attachments(node_view(nodes@[i as int])),
                tv,
            );
            assert(nodes_view(nodes@.subrange(0, i + 1)).drop_last() =~= nodes_view(nodes@.subrange(0, i as int)));
            let pv = nodes_view(nodes@.subrange(0, i + 1));
            assert(pv.last() == node_view(nodes@[i as int]));
            let rv = rewrite_trees(pv, tv);
            assert(rv.drop_last() =~= rewrite_trees(nodes_view(nodes@.subrange(0, i as int)), tv));
        }
        let c = rewrite_node(&nodes[i], t);
        let e = expand_node(&c);
        let ghost before = out@;
        out.push(e);
        assert(out@.drop_last() =~= before);
        i = i + 1;
    }
    assert(nodes@.subrange(0, nodes@.len() as int) =~= nodes@);
    Some(out)
}

/// Only an attachment URL is rewritten: an element whose `src` or `href` is no
/// attachment URL keeps its attributes as they were (an `<img>` gains `loading` after
/// them), and one whose URL is an attachment URL has that attribute's value replaced
/// and nothing else of what it had.
pub proof fn lemma_rewrite_only_attachment_urls(
    name: Seq<char>,
    attrs: Seq<(Seq<char>, Seq<char>)>,
    t: Resolved,
)
    ensures
        element_attachment(name, attrs) is None ==> rewrite_attrs(name, attrs, t).subrange(
            0,
            attrs.len() as int,
        ) == attrs,
        forall|k: int|
            0 <= k < attrs.len() && k != find_attr(attrs, url_attr(name)->0) ==> #[trigger] rewrite_attrs(
                name,
                attrs,
                t,
            )[k] == attrs[k],
{
    let r = rewrite_attrs(name, attrs, t);
    if url_attr(name) is Some {
        lemma_find_attr_bounds(attrs, url_attr(name)->0, 0);
        let key = url_attr(name)->0;
        let j = find_attr(attrs, key);
        let kept = match element_attachment(name, attrs) {
            Some(id) => attrs.update(j, (attrs[j].0, lookup(t, id)->0)).push(
                ("data-cohost-"@ + key, attrs[j].1),
            ),
            None => attrs,
        };
        assert(r.len() >= kept.len() >= attrs.len());
        assert forall|k: int| 0 <= k < attrs.len() && k != j implies #[trigger] r[k] == attrs[k] by {
            assert(r[k] == kept[k]);
        }
    }
    if element_attachment(name, attrs) is None {
        assert(r.subrange(0, attrs.len() as int) =~= attrs);
    }
}

} // verus!
