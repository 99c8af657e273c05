use vstd::prelude::*;
use vstd::multiset::Multiset;
use vstd::seq_lib::group_to_multiset_ensures;
use crate::html::{nodes_view, Attr, HtmlNode, HtmlTree, attrs_view, node_view};
use crate::cohost::str_eq;
use crate::text::{decimal, u64_to_decimal};

verus! {

broadcast use group_to_multiset_ensures;

/// The value of an object-model property.
#[allow(inconsistent_fields)]
pub enum IdlValue {
    Bool { value: bool },
    Number { value: u64 },
    Text { value: String },
    /// A value with no content-attribute form (an object, a list, a negative number...).
    Other,
}

/// A property of an element, as the object model names it.
pub struct Property {
    pub name: String,
    pub value: IdlValue,
}

/// A snapshot of a rendered tree.
pub enum Ast {
    Root { children: Vec<Ast> },
    Element { tag_name: String, properties: Vec<Property>, children: Vec<Ast> },
    Text { value: String },
}

pub enum IdlView {
    Bool(bool),
    Number(u64),
    Text(Seq<char>),
    Other,
}

pub type PropView = (Seq<char>, IdlView);

pub open spec fn idl_view(v: IdlValue) -> IdlView {
    match v {
        IdlValue::Bool { value } => IdlView::Bool(value),
        IdlValue::Number { value } => IdlView::Number(value),
        IdlValue::Text { value } => IdlView::Text(value@),
        IdlValue::Other => IdlView::Other,
    }
}

pub open spec fn props_view(p: Seq<Property>) -> Seq<PropView> {
    p.map_values(|x: Property| (x.name@, idl_view(x.value)))
}

/// Code-point order on texts, as `str`'s `Ord` has it.
pub open spec fn lex_lt(a: Seq<char>, b: Seq<char>) -> bool
    decreases a.len(),
{
    if a.len() == 0 {
        b.len() > 0
    } else if b.len() == 0 {
        false
    } else if a[0] != b[0] {
        a[0] < b[0]
    } else {
        lex_lt(a.drop_first(), b.drop_first())
    }
}

proof fn lemma_lex_asym(a: Seq<char>, b: Seq<char>)
    ensures
        !(lex_lt(a, b) && lex_lt(b, a)),
    decreases a.len(),
{
    if a.len() > 0 && b.len() > 0 && a[0] == b[0] {
        lemma_lex_asym(a.drop_first(), b.drop_first());
    }
}

proof fn lemma_lex_total(a: Seq<char>, b: Seq<char>)
    ensures
        a == b || lex_lt(a, b) || lex_lt(b, a),
    decreases a.len(),
{
    if a.len() > 0 && b.len() > 0 && a[0] == b[0] {
        lemma_lex_total(a.drop_first(), b.drop_first());
        if a.drop_first() == b.drop_first() {
            assert(a =~= seq![a[0]] + a.drop_first());
            assert(b =~= seq![b[0]] + b.drop_first());
        }
    } else if a.len() == 0 && b.len() == 0 {
        assert(a =~= b);
    } else if a.len() > 0 && b.len() > 0 {
    }
}

proof fn lemma_lex_trans(a: Seq<char>, b: Seq<char>, c: Seq<char>)
    requires
        lex_lt(a, b),
        lex_lt(b, c),
    ensures
        lex_lt(a, c),
    decreases a.len(),
{
    if a.len() > 0 && b.len() > 0 && c.len() > 0 && a[0] == b[0] && b[0] == c[0] {
        lemma_lex_trans(a.drop_first(), b.drop_first(), c.drop_first());
    }
}

/// Whether `a` comes before `b` in code-point order.
pub fn str_lt(a: &str, b: &str) -> (r: bool)
    ensures
        r == lex_lt(a@, b@),
{
    let n = a.unicode_len();
    let m = b.unicode_len();
    let mut i: usize = 0;
    assert(a@.subrange(0, n as int) =~= a@);
    assert(b@.subrange(0, m as int) =~= b@);
    while i < n && i < m
        invariant
            n == a@.len(),
            m == b@.len(),
            i <= n,
            i <= m,
            lex_lt(a@, b@) == lex_lt(a@.subrange(i as int, n as int), b@.subrange(i as int, m as int)),
        decreases n - i,
    {
        let x = a.get_char(i);
        let y = b.get_char(i);
        if x != y {
            return x < y;
        }
        assert(a@.subrange(i as int, n as int).drop_first() =~= a@.subrange(i + 1, n as int));
        assert(b@.subrange(i as int, m as int).drop_first() =~= b@.subrange(i + 1, m as int));
        i = i + 1;
    }
    i == n && i < m
}

/// The content-attribute name of a property.
pub open spec fn attr_name(name: Seq<char>) -> Seq<char> {
    if name == "className"@ {
        "class"@
    } else if name == "htmlFor"@ {
        "for"@
    } else {
        name
    }
}

/// The content attribute for a property: a boolean gives a bare attribute when true and
/// none when false, a number its decimal form, a text itself; other values give none.
pub open spec fn content_attr(p: PropView) -> Option<(Seq<char>, Seq<char>)> {
    match p.1 {
        IdlView::Bool(b) => if b {
            Some((attr_name(p.0), Seq::empty()))
        } else {
            None
        },
        IdlView::Number(n) => Some((attr_name(p.0), decimal(n as nat))),
        IdlView::Text(s) => Some((attr_name(p.0), s)),
        IdlView::Other => None,
    }
}

pub open spec fn convert_props(s: Seq<PropView>) -> Seq<(Seq<char>, Seq<char>)>
    decreases s.len(),
{
    if s.len() == 0 {
        Seq::empty()
    } else {
        convert_props(s.drop_last()) + match content_attr(s.last()) {
            Some(a) => seq![a],
            None => Seq::empty(),
        }
    }
}

/// Where `x` goes in `s`: after every property whose name is not after its own.
pub open spec fn ins_pos(s: Seq<PropView>, x: PropView, k: int) -> int
    decreases s.len() - k,
{
    if k >= s.len() {
        s.len() as int
    } else if lex_lt(x.0, s[k].0) {
        k
    } else {
        ins_pos(s, x, k + 1)
    }
}

/// The properties sorted by name; properties of the same name keep their order.
pub open spec fn sort_props(s: Seq<PropView>) -> Seq<PropView>
    decreases s.len(),
{
    if s.len() == 0 {
        Seq::empty()
    } else {
        let r = sort_props(s.drop_last());
        r.insert(ins_pos(r, s.last(), 0), s.last())
    }
}

pub open spec fn compile_ast(a: Ast) -> Seq<HtmlTree>
    decreases a,
{
    match a {
        Ast::Root { children } => compile_asts(children@),
        Ast::Element { tag_name, properties, children } => seq![
            HtmlTree::Element {
                name: tag_name@,
                attrs: convert_props(sort_props(props_view(properties@))),
                children: compile_asts(children@),
            },
        ],
        Ast::Text { value } => seq![HtmlTree::Text { contents: value@ }],
    }
}

pub open spec fn compile_asts(s: Seq<Ast>) -> Seq<HtmlTree>
    decreases s,
{
    if s.len() == 0 {
        Seq::empty()
    } else {
        compile_asts(s.drop_last()) + compile_ast(s.last())
    }
}

fn copy_property(p: &Property) -> (r: Property)
    ensures
        r.name@ == p.name@,
        idl_view(r.value) == idl_view(p.value),
{
    let value = match &p.value {
        IdlValue::Bool { value } => IdlValue::Bool { value: *value },
        IdlValue::Number { value } => IdlValue::Number { value: *value },
        IdlValue::Text { value } => IdlValue::Text { value: value.clone() },
        IdlValue::Other => IdlValue::Other,
    };
    Property { name: p.name.clone(), value }
}

/// The properties sorted by name, as `sort_props` has it.
pub fn sorted_properties(props: &Vec<Property>) -> (r: Vec<Property>)
    ensures
        props_view(r@) == sort_props(props_view(props@)),
{
    let ghost pv = props_view(props@);
    let mut out: Vec<Property> = Vec::new();
    let mut i: usize = 0;
    while i < props.len()
        invariant
            i <= props@.len(),
            pv == props_view(props@),
            props_view(out@) == sort_props(pv.subrange(0, i as int)),
        decreases props@.len() - i,
    {
        let x = copy_property(&props[i]);
        let ghost xv = (x.name@, idl_view(x.value));
        let ghost ov = props_view(out@);
        let mut k: usize = 0;
        while k < out.len() && !str_lt(x.name.as_str(), out[k].name.as_str())
            invariant
                k <= out@.len(),
                ov == props_view(out@),
                ins_pos(ov, xv, 0) == ins_pos(ov, xv, k as int),
                xv == (x.name@, idl_view(x.value)),
            decreases out@.len() - k,
        {
            k = k + 1;
        }
        proof {
            assert(pv.subrange(0, i + 1).drop_last() =~= pv.subrange(0, i as int));
            assert(pv.subrange(0, i + 1).last() == xv);
        }
        out.insert(k, x);
        assert(props_view(out@) =~= ov.insert(k as int, xv));
        i = i + 1;
    }
    assert(pv.subrange(0, props@.len() as int) =~= pv);
    out
}

/// The content attributes of sorted properties, in their order.
fn convert_properties(props: &Vec<Property>) -> (r: Vec<Attr>)
    ensures
        attrs_view(r@) == convert_props(props_view(props@)),
{
    let ghost pv = props_view(props@);
    let mut out: Vec<Attr> = Vec::new();
    let mut i: usize = 0;
    while i < props.len()
        invariant
            i <= props@.len(),
            pv == props_view(props@),
            attrs_view(out@) == convert_props(pv.subrange(0, i as int)),
        decreases props@.len() - i,
    {
        let p = &props[i];
        let n = if str_eq(p.name.as_str(), "className") {
            String::from_str("class")
        } else if str_eq(p.name.as_str(), "htmlFor") {
            String::from_str("for")
        } else {
            p.name.clone()
        };
        assert(n@ == attr_name(p.name@));
        proof {
            assert(pv.subrange(0, i + 1).drop_last() =~= pv.subrange(0, i as int));
        }
        let ghost before = attrs_view(out@);
        match &p.value {
            IdlValue::Bool { value } => {
                if *value {
                    out.push(Attr { name: n, value: String::new() });
                    assert(attrs_view(out@) =~= before + seq![(attr_name(p.name@), Seq::<char>::empty())]);
                } else {
                    assert(attrs_view(out@) =~= before + Seq::empty());
                }
            },
            IdlValue::Number { value } => {
                out.push(Attr { name: n, value: u64_to_decimal(*value) });
                assert(attrs_view(out@) =~= before + seq![(attr_name(p.name@), decimal(*value as nat))]);
            },
            IdlValue::Text { value } => {
                out.push(Attr { name: n, value: value.clone() });
                assert(attrs_view(out@) =~= before + seq![(attr_name(p.name@), value@)]);
            },
            IdlValue::Other => {
                assert(attrs_view(out@) =~= before + Seq::empty());
            },
        }
        i = i + 1;
    }
    assert(pv.subrange(0, props@.len() as int) =~= pv);
    out
}

proof fn lemma_child_decreases(a: Ast, i: int)
    requires
        a is Root || a is Element,
        0 <= i < (if a is Root { a->Root_children@.len() } else { a->Element_children@.len() }),
    ensures
        a is Root ==> decreases_to!(a => a->Root_children@[i]),
        a is Element ==> decreases_to!(a => a->Element_children@[i]),
{
    if a is Root {
        assert(decreases_to!(a => a->Root_children));
        assert(decreases_to!(a->Root_children => a->Root_children@));
        assert(decreases_to!(a->Root_children@ => a->Root_children@[i]));
    } else {
        assert(decreases_to!(a => a->Element_children));
        assert(decreases_to!(a->Element_children => a->Element_children@));
        assert(decreases_to!(a->Element_children@ => a->Element_children@[i]));
    }
}

proof fn lemma_nodes_view_push(s: Seq<HtmlNode>, x: HtmlNode)
    ensures
        nodes_view(s.push(x)) == nodes_view(s).push(node_view(x)),
{
    assert(s.push(x).drop_last() =~= s);
}

/// Appends to `out` the HTML nodes that the children `children` of an AST give.
fn compile_children(a: &Ast, children: &Vec<Ast>, out: &mut Vec<HtmlNode>)
    requires
        (a is Root && a->Root_children == *children) || (a is Element && a->Element_children == *children),
    ensures
        nodes_view(final(out)@) == nodes_view(old(out)@) + compile_asts(children@),
    decreases a, 0nat,
{
    let mut i: usize = 0;
    let ghost start = nodes_view(out@);
    assert(start =~= start + compile_asts(children@.subrange(0, 0)));
    while i < children.len()
        invariant
            i <= children@.len(),
            (a is Root && a->Root_children == *children) || (a is Element && a->Element_children == *children),
            nodes_view(out@) == start + compile_asts(children@.subrange(0, i as int)),
        decreases children@.len() - i,
    {
        proof {
            lemma_child_decreases(*a, i as int);
            assert(children@.subrange(0, i + 1).drop_last() =~= children@.subrange(0, i as int));
        }
        compile_into(&children[i], out);
        assert(nodes_view(out@) =~= start + compile_asts(children@.subrange(0, i + 1)));
        i = i + 1;
    }
    assert(children@.subrange(0, children@.len() as int) =~= children@);
}

/// Appends to `out` the HTML nodes that `a` gives.
fn compile_into(a: &Ast, out: &mut Vec<HtmlNode>)
    ensures
        nodes_view(final(out)@) == nodes_view(old(out)@) + compile_ast(*a),
    decreases a, 1nat,
{
    match a {
        Ast::Root { children } => {
            compile_children(a, children, out);
        },
        Ast::Element { tag_name, properties, children } => {
            let sorted = sorted_properties(properties);
            let attrs = convert_properties(&sorted);
            let mut kids: Vec<HtmlNode> = Vec::new();
            compile_children(a, children, &mut kids);
            assert(nodes_view(kids@) =~= nodes_view(Seq::<HtmlNode>::empty()) + compile_asts(children@));
            let ghost before = out@;
            let e = HtmlNode::Element { name: tag_name.clone(), attrs, children: kids };
            out.push(e);
            proof {
                lemma_nodes_view_push(before, e);
            }
            assert(nodes_view(out@) =~= nodes_view(before) + compile_ast(*a));
        },
        Ast::Text { value } => {
            let ghost before = out@;
            let e = HtmlNode::Text { contents: value.clone() };
            out.push(e);
            proof {
                lemma_nodes_view_push(before, e);
            }
            assert(nodes_view(out@) =~= nodes_view(before) + compile_ast(*a));
        },
    }
}

/// The HTML fragment that an AST gives: a root gives its children's nodes, an element an
/// element of the same tag with its properties, sorted by name, made content attributes,
/// and a text a text.
pub fn compile(a: &Ast) -> (r: Vec<HtmlNode>)
    ensures
        nodes_view(r@) == compile_ast(*a),
{
    let mut out: Vec<HtmlNode> = Vec::new();
    compile_into(a, &mut out);
    assert(nodes_view(Seq::<HtmlNode>::empty()) =~= Seq::empty());
    assert(nodes_view(out@) =~= compile_ast(*a));
    out
}

pub open spec fn props_sorted(s: Seq<PropView>) -> bool {
    forall|i: int, j: int| 0 <= i < j < s.len() ==> !lex_lt(#[trigger] s[j].0, #[trigger] s[i].0)
}

/// No two properties of `s` have the same name.
pub open spec fn distinct_names(s: Seq<PropView>) -> bool {
    forall|i: int, j: int| 0 <= i < j < s.len() ==> #[trigger] s[i].0 != #[trigger] s[j].0
}

pub open spec fn names_determine(m: Multiset<PropView>) -> bool {
    forall|x: PropView, y: PropView|
        #[trigger] m.contains(x) && #[trigger] m.contains(y) && x.0 == y.0 ==> x == y
}

proof fn lemma_ins_pos_facts(s: Seq<PropView>, x: PropView, k: int)
    requires
        0 <= k <= s.len(),
    ensures
        k <= ins_pos(s, x, k) <= s.len(),
        forall|j: int| k <= j < ins_pos(s, x, k) ==> !lex_lt(x.0, #[trigger] s[j].0),
        ins_pos(s, x, k) < s.len() ==> lex_lt(x.0, s[ins_pos(s, x, k)].0),
    decreases s.len() - k,
{
    if k < s.len() && !lex_lt(x.0, s[k].0) {
        lemma_ins_pos_facts(s, x, k + 1);
    }
}

proof fn lemma_sort_props_sorted(s: Seq<PropView>)
    ensures
        props_sorted(sort_props(s)),
        sort_props(s).to_multiset() == s.to_multiset(),
    decreases s.len(),
{
    if s.len() > 0 {
        let r = sort_props(s.drop_last());
        lemma_sort_props_sorted(s.drop_last());
        let x = s.last();
        let p = ins_pos(r, x, 0);
        lemma_ins_pos_facts(r, x, 0);
        let t = r.insert(p, x);
        assert(s =~= s.drop_last().push(x));
        assert forall|i: int, j: int| 0 <= i < j < t.len() implies !lex_lt(#[trigger] t[j].0, #[trigger] t[i].0) by {
            if i < p && j < p {
                assert(t[i] == r[i] && t[j] == r[j]);
            } else if i < p && j == p {
                assert(t[i] == r[i] && t[j] == x);
            } else if i < p && j > p {
                assert(t[i] == r[i] && t[j] == r[j - 1]);
            } else if i == p {
                assert(t[i] == x && t[j] == r[j - 1]);
                if lex_lt(r[j - 1].0, x.0) {
                    if j - 1 > p {
                        lemma_lex_trans(r[j - 1].0, x.0, r[p].0);
                    } else {
                        lemma_lex_asym(r[p].0, x.0);
                    }
                }
            } else {
                assert(t[i] == r[i - 1] && t[j] == r[j - 1]);
            }
        }
    }
}

proof fn lemma_sorted_unique(a: Seq<PropView>, b: Seq<PropView>)
    requires
        props_sorted(a),
        props_sorted(b),
        a.to_multiset() == b.to_multiset(),
        names_determine(a.to_multiset()),
    ensures
        a == b,
    decreases a.len(),
{
    vstd::seq_lib::to_multiset_len(a);
    vstd::seq_lib::to_multiset_len(b);
    assert(a.len() == b.len());
    if a.len() == 0 {
        assert(a =~= b);
    } else {
        assert(a.to_multiset().contains(a[0]));
        assert(b.to_multiset().contains(a[0]));
        let k = choose|k: int| 0 <= k < b.len() && b[k] == a[0];
        assert(a.to_multiset().contains(b[0]));
        let m = choose|m: int| 0 <= m < a.len() && a[m] == b[0];
        if a[0] != b[0] {
            assert(k > 0 && m > 0);
            assert(!lex_lt(b[k].0, b[0].0));
            assert(!lex_lt(a[m].0, a[0].0));
            lemma_lex_total(a[0].0, b[0].0);
            assert(false);
        }
        let a1 = a.drop_first();
        let b1 = b.drop_first();
        assert(a =~= seq![a[0]] + a1);
        assert(b =~= seq![b[0]] + b1);
        vstd::seq_lib::to_multiset_remove(a, 0);
        vstd::seq_lib::to_multiset_remove(b, 0);
        assert(a.remove(0) =~= a1);
        assert(b.remove(0) =~= b1);
        assert forall|x: PropView, y: PropView|
            #[trigger] a1.to_multiset().contains(x) && #[trigger] a1.to_multiset().contains(y) && x.0 == y.0 implies x == y by {
            assert(a.to_multiset().contains(x));
            assert(a.to_multiset().contains(y));
        }
        assert(props_sorted(a1));
        assert(props_sorted(b1));
        lemma_sorted_unique(a1, b1);
    }
}

/// The order in which an element's properties come has no effect on what it compiles
/// to: properties with distinct names, in any two orders, give the same attributes.
pub proof fn lemma_property_order_irrelevant(p: Seq<PropView>, q: Seq<PropView>)
    requires
        distinct_names(p),
        p.to_multiset() == q.to_multiset(),
    ensures
        sort_props(p) == sort_props(q),
        convert_props(sort_props(p)) == convert_props(sort_props(q)),
{
    lemma_sort_props_sorted(p);
    lemma_sort_props_sorted(q);
    assert forall|x: PropView, y: PropView|
        #[trigger] p.to_multiset().contains(x) && #[trigger] p.to_multiset().contains(y) && x.0 == y.0 implies x == y by {
        let i = choose|i: int| 0 <= i < p.len() && p[i] == x;
        let j = choose|j: int| 0 <= j < p.len() && p[j] == y;
        if i < j {
            assert(p[i].0 != p[j].0);
        } else if j < i {
            assert(p[j].0 != p[i].0);
        }
    }
    lemma_sorted_unique(sort_props(p), sort_props(q));
}

/// Compiling an element whose properties are listed in another order gives the same
/// HTML.
pub proof fn lemma_compile_ignores_property_order(a: Ast, b: Ast)
    requires
        a is Element,
        b is Element,
        a->Element_tag_name@ == b->Element_tag_name@,
        compile_asts(a->Element_children@) == compile_asts(b->Element_children@),
        distinct_names(props_view(a->Element_properties@)),
        props_view(a->Element_properties@).to_multiset() == props_view(
            b->Element_properties@,
        ).to_multiset(),
    ensures
        compile_ast(a) == compile_ast(b),
{
    lemma_property_order_irrelevant(
        props_view(a->Element_properties@),
        props_view(b->Element_properties@),
    );
}

} // verus!
