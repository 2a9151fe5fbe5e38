//! The generic XML element tree: named elements with attributes, ordered
//! children and optional text content, together with the indenting
//! serializer.

use vstd::prelude::*;
use vstd::string::StringExecFns;

verus! {

/// Mathematical shape of an XML element: the element name, the attribute
/// pairs in insertion order, the child elements in document order, whether
/// the element renders self-closing, and its optional text payload.
pub ghost struct NodeView {
    pub name: Seq<char>,
    pub attrs: Seq<(Seq<char>, Seq<char>)>,
    pub children: Seq<NodeView>,
    pub closed: bool,
    pub content: Option<Seq<char>>,
}

/// A generic XML element. Attributes are kept as a vector of pairs whose
/// keys are unique; inserting an existing key overwrites its value in
/// place, so iteration order is the order of first insertion.
pub struct Node {
    pub name: String,
    pub attributes: Vec<(String, String)>,
    pub children: Vec<Node>,
    pub closed: bool,
    pub content: Option<String>,
}

/// Views of a sequence of nodes, in order.
pub open spec fn views_of(s: Seq<Node>) -> Seq<NodeView>
    decreases s,
{
    if s.len() == 0 {
        Seq::empty()
    } else {
        seq![s[0]@] + views_of(s.subrange(1, s.len() as int))
    }
}

/// Views of the attribute pairs, in order.
pub open spec fn views_of_attrs(s: Seq<(String, String)>) -> Seq<(Seq<char>, Seq<char>)> {
    Seq::new(s.len(), |i: int| (s[i].0@, s[i].1@))
}

impl View for Node {
    type V = NodeView;

    open spec fn view(&self) -> NodeView
        decreases *self,
    {
        NodeView {
            name: self.name@,
            attrs: views_of_attrs(self.attributes@),
            children: views_of(self.children@),
            closed: self.closed,
            content: match self.content {
                Some(s) => Some(s@),
                None => None,
            },
        }
    }
}

/// `views_of` maps the sequence element by element.
pub proof fn lemma_views_of(s: Seq<Node>)
    ensures
        views_of(s).len() == s.len(),
        forall|i: int| 0 <= i < s.len() ==> #[trigger] views_of(s)[i] == s[i]@,
    decreases s,
{
    if s.len() == 0 {
        assert(views_of(s) == Seq::<NodeView>::empty());
    } else {
        let t = s.subrange(1, s.len() as int);
        assert(views_of(s) == seq![s[0]@] + views_of(t));
        lemma_views_of(t);
        assert forall|i: int| 0 <= i < s.len() implies #[trigger] views_of(s)[i] == s[i]@ by {
            if i > 0 {
                assert(t[i - 1] == s[i]);
                assert(views_of(s)[i] == views_of(t)[i - 1]);
            }
        }
    }
}

/// No two attribute pairs share a key.
pub open spec fn attrs_wf(attrs: Seq<(Seq<char>, Seq<char>)>) -> bool {
    forall|i: int, j: int| 0 <= i < j < attrs.len() ==> attrs[i].0 != attrs[j].0
}

/// Attribute keys are unique, here and in every descendant.
pub open spec fn node_wf(n: NodeView) -> bool
    decreases n,
{
    attrs_wf(n.attrs) && nodes_wf(n.children)
}

pub open spec fn nodes_wf(s: Seq<NodeView>) -> bool
    decreases s,
{
    if s.len() == 0 {
        true
    } else {
        node_wf(s[0]) && nodes_wf(s.subrange(1, s.len() as int))
    }
}

/// `nodes_wf` holds exactly when every element is well-formed.
pub proof fn lemma_nodes_wf(s: Seq<NodeView>)
    ensures
        nodes_wf(s) <==> (forall|i: int| 0 <= i < s.len() ==> node_wf(#[trigger] s[i])),
    decreases s,
{
    if s.len() > 0 {
        let t = s.subrange(1, s.len() as int);
        lemma_nodes_wf(t);
        if node_wf(s[0]) && nodes_wf(t) {
            assert forall|i: int| 0 <= i < s.len() implies node_wf(#[trigger] s[i]) by {
                if i > 0 {
                    assert(s[i] == t[i - 1]);
                }
            }
        }
        if forall|i: int| 0 <= i < s.len() ==> node_wf(#[trigger] s[i]) {
            assert forall|i: int| 0 <= i < t.len() implies node_wf(#[trigger] t[i]) by {
                assert(t[i] == s[i + 1]);
            }
        }
    }
}

/// Index of the first attribute pair with the given key, or -1.
pub open spec fn attr_find(attrs: Seq<(Seq<char>, Seq<char>)>, key: Seq<char>) -> int
    decreases attrs.len(),
{
    if attrs.len() == 0 {
        -1
    } else if attrs[0].0 == key {
        0
    } else {
        let r = attr_find(attrs.subrange(1, attrs.len() as int), key);
        if r == -1 {
            -1
        } else {
            r + 1
        }
    }
}

/// `attr_find` returns the first index holding the key, or -1 when the key
/// is absent.
pub proof fn lemma_attr_find(attrs: Seq<(Seq<char>, Seq<char>)>, key: Seq<char>)
    ensures
        attr_find(attrs, key) == -1 ==> (forall|i: int|
            0 <= i < attrs.len() ==> (#[trigger] attrs[i]).0 != key),
        attr_find(attrs, key) != -1 ==> {
            let f = attr_find(attrs, key);
            &&& 0 <= f < attrs.len()
            &&& attrs[f].0 == key
            &&& forall|i: int| 0 <= i < f ==> (#[trigger] attrs[i]).0 != key
        },
    decreases attrs.len(),
{
    if attrs.len() > 0 && attrs[0].0 != key {
        let t = attrs.subrange(1, attrs.len() as int);
        lemma_attr_find(t, key);
        if attr_find(attrs, key) == -1 {
            assert forall|i: int| 0 <= i < attrs.len() implies (#[trigger] attrs[i]).0
                != key by {
                if i > 0 {
                    assert(attrs[i] == t[i - 1]);
                }
            }
        } else {
            let f = attr_find(attrs, key);
            assert(f == attr_find(t, key) + 1);
            assert(attrs[f] == t[f - 1]);
            assert forall|i: int| 0 <= i < f implies (#[trigger] attrs[i]).0 != key by {
                if i > 0 {
                    assert(attrs[i] == t[i - 1]);
                }
            }
        }
    }
}

/// Index of the first child element with the given name, or -1.
pub open spec fn find_child(children: Seq<NodeView>, name: Seq<char>) -> int
    decreases children.len(),
{
    if children.len() == 0 {
        -1
    } else if children[0].name == name {
        0
    } else {
        let r = find_child(children.subrange(1, children.len() as int), name);
        if r == -1 {
            -1
        } else {
            r + 1
        }
    }
}

/// `find_child` returns the first index holding the name, or -1 when no
/// child has it.
pub proof fn lemma_find_child(children: Seq<NodeView>, name: Seq<char>)
    ensures
        find_child(children, name) == -1 ==> (forall|i: int|
            0 <= i < children.len() ==> (#[trigger] children[i]).name != name),
        find_child(children, name) != -1 ==> {
            let f = find_child(children, name);
            &&& 0 <= f < children.len()
            &&& children[f].name == name
            &&& forall|i: int| 0 <= i < f ==> (#[trigger] children[i]).name != name
        },
    decreases children.len(),
{
    if children.len() > 0 && children[0].name != name {
        let t = children.subrange(1, children.len() as int);
        lemma_find_child(t, name);
        if find_child(children, name) == -1 {
            assert forall|i: int| 0 <= i < children.len() implies (#[trigger] children[i]).name
                != name by {
                if i > 0 {
                    assert(children[i] == t[i - 1]);
                }
            }
        } else {
            let f = find_child(children, name);
            assert(f == find_child(t, name) + 1);
            assert(children[f] == t[f - 1]);
            assert forall|i: int| 0 <= i < f implies (#[trigger] children[i]).name != name by {
                if i > 0 {
                    assert(children[i] == t[i - 1]);
                }
            }
        }
    }
}

/// Insert-or-overwrite: the attribute mapping after setting `key` to
/// `value`.
pub open spec fn attrs_set(
    attrs: Seq<(Seq<char>, Seq<char>)>,
    key: Seq<char>,
    value: Seq<char>,
) -> Seq<(Seq<char>, Seq<char>)> {
    let f = attr_find(attrs, key);
    if f == -1 {
        attrs.push((key, value))
    } else {
        attrs.update(f, (key, value))
    }
}

/// The trailing part of an attribute list rendering: a space before each
/// `key="value"` item.
pub open spec fn attrs_text_rest(attrs: Seq<(Seq<char>, Seq<char>)>) -> Seq<char>
    decreases attrs.len(),
{
    if attrs.len() == 0 {
        Seq::empty()
    } else {
        attrs_text_rest(attrs.drop_last()) + seq![' '] + attr_text(attrs.last())
    }
}

/// One `key="value"` item.
pub open spec fn attr_text(attr: (Seq<char>, Seq<char>)) -> Seq<char> {
    attr.0 + seq!['=', '"'] + attr.1 + seq!['"']
}

/// The attribute list as rendered inside a tag: items separated by single
/// spaces.
pub open spec fn attrs_text(attrs: Seq<(Seq<char>, Seq<char>)>) -> Seq<char> {
    if attrs.len() == 0 {
        Seq::empty()
    } else {
        attr_text(attrs[0]) + attrs_text_rest(attrs.subrange(1, attrs.len() as int))
    }
}

/// Four spaces for each indentation level.
pub open spec fn indent_text(level: nat) -> Seq<char>
    decreases level,
{
    if level == 0 {
        Seq::empty()
    } else {
        indent_text((level - 1) as nat) + seq![' ', ' ', ' ', ' ']
    }
}

/// The indentation level used for the children of an element at `level`;
/// saturates at the machine limit.
pub open spec fn next_level(level: nat) -> nat {
    if level + 1 <= usize::MAX as nat {
        level + 1
    } else {
        level
    }
}

/// The attribute list as rendered inside a tag that shows it only when it
/// is non-empty: nothing, or a space followed by the items.
pub open spec fn attrs_text_opt(attrs: Seq<(Seq<char>, Seq<char>)>) -> Seq<char> {
    if attrs.len() == 0 {
        Seq::empty()
    } else {
        seq![' '] + attrs_text(attrs)
    }
}

/// The serialized text of one element at the given indentation level.
///
/// A self-closing element is one line and has no closing tag; an element
/// with text content is one line: the opening tag with the attributes
/// (shown only when there are any), exactly that text, and the closing
/// tag; otherwise an opening tag, each child at the next level, and a
/// closing tag.
pub open spec fn ser_node(n: NodeView, level: nat) -> Seq<char>
    decreases n,
{
    let indent = indent_text(level);
    if n.closed {
        indent + seq!['<'] + n.name + seq![' '] + attrs_text(n.attrs) + seq!['/', '>', '\n']
    } else if n.content is Some {
        indent + seq!['<'] + n.name + attrs_text_opt(n.attrs) + seq!['>'] + n.content->0 + seq![
            '<',
            '/',
        ] + n.name + seq!['>', '\n']
    } else {
        indent + seq!['<'] + n.name + seq![' '] + attrs_text(n.attrs) + seq!['>', '\n']
            + ser_children(n.children, next_level(level)) + indent + seq!['<', '/'] + n.name
            + seq!['>', '\n']
    }
}

/// The concatenated serialized text of a sequence of elements.
pub open spec fn ser_children(s: Seq<NodeView>, level: nat) -> Seq<char>
    decreases s,
{
    if s.len() == 0 {
        Seq::empty()
    } else {
        ser_children(s.drop_last(), level) + ser_node(s.last(), level)
    }
}

/// A fresh element with the given name.
pub open spec fn element(name: Seq<char>) -> NodeView {
    NodeView {
        name,
        attrs: Seq::empty(),
        children: Seq::empty(),
        closed: false,
        content: None,
    }
}

/// The element with one attribute inserted or overwritten.
pub open spec fn with_attr(n: NodeView, key: Seq<char>, value: Seq<char>) -> NodeView {
    NodeView { attrs: attrs_set(n.attrs, key, value), ..n }
}

/// The element with one more child appended.
pub open spec fn with_child(n: NodeView, c: NodeView) -> NodeView {
    NodeView { children: n.children.push(c), ..n }
}

/// The element with the given children appended in order.
pub open spec fn with_children(n: NodeView, cs: Seq<NodeView>) -> NodeView {
    NodeView { children: n.children + cs, ..n }
}

/// The element with its text content set.
pub open spec fn with_content(n: NodeView, s: Seq<char>) -> NodeView {
    NodeView { content: Some(s), ..n }
}

/// The element marked self-closing.
pub open spec fn as_closed(n: NodeView) -> NodeView {
    NodeView { closed: true, ..n }
}

/// A self-closing element serializes to exactly one line: the indent, the
/// opening angle bracket, the name, a space, the attribute items, and a
/// final `/>`. No separate closing tag appears, and neither children nor
/// attributes are rendered as nested elements.
pub proof fn lemma_serialize_closed(n: NodeView, level: nat)
    requires
        n.closed,
    ensures
        ser_node(n, level) == indent_text(level) + seq!['<'] + n.name + seq![' '] + attrs_text(
            n.attrs,
        ) + seq!['/', '>', '\n'],
{
}

/// An element with text content that is not self-closing serializes to
/// exactly one line holding the single text payload between its two tags:
/// the opening tag carries the attribute items when there are any, and no
/// nested tags are rendered, whatever the element's children hold.
pub proof fn lemma_serialize_content(n: NodeView, level: nat)
    requires
        !n.closed,
        n.content is Some,
    ensures
        ser_node(n, level) == indent_text(level) + seq!['<'] + n.name + attrs_text_opt(n.attrs)
            + seq!['>'] + n.content->0 + seq!['<', '/'] + n.name + seq!['>', '\n'],
{
}

/// Anything with a canonical element representation that can be folded
/// into a parent node.
pub trait IntoNode {
    /// The element this value stands for.
    spec fn node_view(&self) -> NodeView;

    /// A fresh copy of the element; later mutation of `self` cannot affect
    /// it.
    fn inner(&self) -> (n: Node)
        ensures
            n@ == self.node_view(),
    ;
}

impl IntoNode for Node {
    open spec fn node_view(&self) -> NodeView {
        self@
    }

    fn inner(&self) -> (n: Node) {
        self.deep_clone()
    }
}

impl Node {
    /// A fresh element: no attributes, no children, not self-closing, no
    /// text content.
    pub fn new(name: String) -> (r: Node)
        ensures
            r@ == (NodeView {
                name: name@,
                attrs: Seq::<(Seq<char>, Seq<char>)>::empty(),
                children: Seq::<NodeView>::empty(),
                closed: false,
                content: None,
            }),
            node_wf(r@),
    {
        let r = Node {
            name,
            attributes: Vec::new(),
            children: Vec::new(),
            closed: false,
            content: None,
        };
        proof {
            assert(r@.attrs =~= Seq::<(Seq<char>, Seq<char>)>::empty());
            assert(r@.children =~= Seq::<NodeView>::empty());
        }
        r
    }

    pub fn new_str(name: &'static str) -> (r: Node)
        ensures
            r@ == (NodeView {
                name: name@,
                attrs: Seq::<(Seq<char>, Seq<char>)>::empty(),
                children: Seq::<NodeView>::empty(),
                closed: false,
                content: None,
            }),
            node_wf(r@),
    {
        Node::new(name.to_owned())
    }

    /// A structurally identical copy.
    pub fn deep_clone(&self) -> (r: Node)
        ensures
            r@ == self@,
        decreases *self,
    {
        let mut attributes: Vec<(String, String)> = Vec::new();
        let mut i: usize = 0;
        while i < self.attributes.len()
            invariant
                i <= self.attributes.len(),
                attributes@.len() == i as int,
                forall|j: int|
                    0 <= j < i as int ==> (#[trigger] attributes@[j]).0@
                        == self.attributes@[j].0@ && attributes@[j].1@ == self.attributes@[j].1@,
            decreases self.attributes.len() - i,
        {
            let pair = &self.attributes[i];
            attributes.push((pair.0.clone(), pair.1.clone()));
            i += 1;
        }
        let mut children: Vec<Node> = Vec::new();
        let mut i: usize = 0;
        while i < self.children.len()
            invariant
                i <= self.children.len(),
                children@.len() == i as int,
                forall|j: int| 0 <= j < i as int ==> (#[trigger] children@[j])@
                    == self.children@[j]@,
            decreases self.children.len() - i,
        {
            let c = self.children[i].deep_clone();
            children.push(c);
            i += 1;
        }
        let r = Node {
            name: self.name.clone(),
            attributes,
            children,
            closed: self.closed,
            content: match &self.content {
                Some(s) => Some(s.clone()),
                None => None,
            },
        };
        proof {
            assert(r@.attrs =~= self@.attrs);
            lemma_views_of(r.children@);
            lemma_views_of(self.children@);
            assert(r@.children =~= self@.children);
        }
        r
    }

    /// Attach the given text content.
    pub fn content_borrowed(self, input: String) -> (r: Node)
        ensures
            r@ == (NodeView { content: Some(input@), ..self@ }),
    {
        Node { content: Some(input), ..self }
    }

    /// Insert or overwrite one attribute; the last write for a key wins
    /// and the key keeps its original position.
    pub fn attribute(self, key: String, value: String) -> (r: Node)
        ensures
            r@ == (NodeView { attrs: attrs_set(self@.attrs, key@, value@), ..self@ }),
            node_wf(self@) ==> node_wf(r@),
    {
        let mut this = self;
        let ghost old_self = this;
        let mut i: usize = 0;
        let mut found: bool = false;
        while i < this.attributes.len() && !found
            invariant
                i <= this.attributes.len(),
                forall|j: int|
                    0 <= j < i as int ==> (#[trigger] this.attributes@[j]).0@ != key@,
                found ==> i < this.attributes.len() && this.attributes@[i as int].0@ == key@,
                this == old_self,
            decreases this.attributes.len() - i - (if found { 1int } else { 0int }),
        {
            if this.attributes[i].0 == key {
                found = true;
            } else {
                i += 1;
            }
        }
        proof {
            lemma_attr_find(old_self@.attrs, key@);
            assert(views_of_attrs(this.attributes@).len() == this.attributes@.len());
        }
        let ghost attrs = old_self@.attrs;
        proof {
            assert(forall|j: int|
                0 <= j < attrs.len() ==> (#[trigger] attrs[j]) == (
                old_self.attributes@[j].0@,
                old_self.attributes@[j].1@,
                ));
        }
        if found {
            proof {
                let f = attr_find(attrs, key@);
                assert(attrs[i as int].0 == key@);
                if f == -1 {
                    assert(attrs[i as int].0 != key@);
                } else if f < i as int {
                    assert(this.attributes@[f].0@ != key@);
                    assert(attrs[f].0 == key@);
                } else if f > i as int {
                    assert(attrs[i as int].0 != key@);
                }
                assert(f == i as int);
            }
            let pair = this.attributes.remove(i);
            this.attributes.insert(i, (pair.0, value));
            proof {
                assert(this@.attrs =~= attrs_set(attrs, key@, value@));
                assert(this@.children == old_self@.children);
                if node_wf(old_self@) {
                    assert(attrs_wf(this@.attrs));
                    assert(nodes_wf(this@.children));
                }
            }
        } else {
            proof {
                let f = attr_find(attrs, key@);
                if f != -1 {
                    assert(attrs[f].0 == key@);
                    assert(this.attributes@[f].0@ != key@);
                }
                assert(f == -1);
            }
            this.attributes.push((key, value));
            proof {
                assert(this@.attrs =~= attrs_set(attrs, key@, value@));
                assert(this@.children == old_self@.children);
                if node_wf(old_self@) {
                    assert forall|a: int, b: int|
                        0 <= a < b < this@.attrs.len() implies this@.attrs[a].0
                        != this@.attrs[b].0 by {
                        if b == this@.attrs.len() - 1 {
                            assert(this@.attrs[a] == attrs[a]);
                            assert(attrs[a].0 != key@);
                        } else {
                            assert(this@.attrs[a] == attrs[a]);
                            assert(this@.attrs[b] == attrs[b]);
                        }
                    }
                    assert(attrs_wf(this@.attrs));
                    assert(nodes_wf(this@.children));
                }
            }
        }
        this
    }

    pub fn attribute_str(self, key: &'static str, value: &'static str) -> (r: Node)
        ensures
            r@ == (NodeView { attrs: attrs_set(self@.attrs, key@, value@), ..self@ }),
            node_wf(self@) ==> node_wf(r@),
    {
        self.attribute(key.to_owned(), value.to_owned())
    }

    /// Append a snapshot of the given element as the last child.
    pub fn child<T: IntoNode>(self, node: &T) -> (r: Node)
        ensures
            r@ == (NodeView { children: self@.children.push(node.node_view()), ..self@ }),
            node_wf(self@) && node_wf(node.node_view()) ==> node_wf(r@),
    {
        let mut this = self;
        let ghost old_self = this;
        let n = node.inner();
        this.children.push(n);
        proof {
            lemma_views_of(this.children@);
            lemma_views_of(old_self.children@);
            assert(this@.children =~= old_self@.children.push(node.node_view()));
            if node_wf(old_self@) && node_wf(node.node_view()) {
                lemma_nodes_wf(old_self@.children);
                lemma_nodes_wf(this@.children);
                assert forall|i: int| 0 <= i < this@.children.len() implies node_wf(
                    #[trigger] this@.children[i],
                ) by {
                    if i < old_self@.children.len() {
                        assert(this@.children[i] == old_self@.children[i]);
                    }
                }
            }
        }
        this
    }

    /// Append a snapshot of the given element as the last child, in place.
    pub fn child_borrowed<T: IntoNode>(&mut self, node: &T)
        ensures
            final(self)@ == (NodeView {
                children: old(self)@.children.push(node.node_view()),
                ..old(self)@
            }),
            node_wf(old(self)@) && node_wf(node.node_view()) ==> node_wf(final(self)@),
    {
        let ghost old_self = *self;
        let n = node.inner();
        self.children.push(n);
        proof {
            lemma_views_of(self.children@);
            lemma_views_of(old_self.children@);
            assert(self@.children =~= old_self@.children.push(node.node_view()));
            if node_wf(old_self@) && node_wf(node.node_view()) {
                lemma_nodes_wf(old_self@.children);
                lemma_nodes_wf(self@.children);
                assert forall|i: int| 0 <= i < self@.children.len() implies node_wf(
                    #[trigger] self@.children[i],
                ) by {
                    if i < old_self@.children.len() {
                        assert(self@.children[i] == old_self@.children[i]);
                    }
                }
            }
        }
    }

    /// Append the given elements as children, preserving their order.
    pub fn children(self, nodes: Vec<Node>) -> (r: Node)
        ensures
            r@ == (NodeView { children: self@.children + views_of(nodes@), ..self@ }),
            node_wf(self@) && nodes_wf(views_of(nodes@)) ==> node_wf(r@),
    {
        let mut this = self;
        let ghost old_self = this;
        let ghost old_nodes = nodes@;
        let nodes = nodes;
        let mut i: usize = 0;
        while i < nodes.len()
            invariant
                i <= nodes.len(),
                nodes@ == old_nodes,
                this.name@ == old_self.name@,
                this.attributes@ == old_self.attributes@,
                this.closed == old_self.closed,
                this.content == old_self.content,
                this.children@.len() == old_self.children@.len() + i as int,
                forall|j: int|
                    0 <= j < old_self.children@.len() ==> #[trigger] this.children@[j]
                        == old_self.children@[j],
                forall|j: int|
                    0 <= j < i as int ==> #[trigger] this.children@[old_self.children@.len()
                        + j]@ == old_nodes[j]@,
            decreases nodes.len() - i,
        {
            let n = nodes[i].deep_clone();
            this.children.push(n);
            i += 1;
        }
        proof {
            lemma_views_of(this.children@);
            lemma_views_of(old_self.children@);
            lemma_views_of(old_nodes);
            assert forall|j: int| 0 <= j < this.children@.len() implies #[trigger] views_of(
                this.children@,
            )[j] == (old_self@.children + views_of(old_nodes))[j] by {
                let base = old_self.children@.len() as int;
                if j < base {
                    assert(this.children@[j] == old_self.children@[j]);
                } else {
                    assert(this.children@[base + (j - base)]@ == old_nodes[j - base]@);
                }
            }
            assert(this@.children =~= old_self@.children + views_of(old_nodes));
            assert(this@ == (NodeView {
                children: old_self@.children + views_of(old_nodes),
                ..old_self@
            }));
            if node_wf(old_self@) && nodes_wf(views_of(old_nodes)) {
                lemma_nodes_wf(old_self@.children);
                lemma_nodes_wf(views_of(old_nodes));
                lemma_nodes_wf(this@.children);
                assert forall|i: int| 0 <= i < this@.children.len() implies node_wf(
                    #[trigger] this@.children[i],
                ) by {
                    if i < old_self@.children.len() {
                        assert(this@.children[i] == old_self@.children[i]);
                    } else {
                        assert(this@.children[i] == views_of(old_nodes)[i
                            - old_self@.children.len()]);
                    }
                }
            }
        }
        this
    }

    /// The index of the first child element with the given name.
    pub fn find_child_index(&self, name: &String) -> (r: Option<usize>)
        ensures
            match r {
                Some(i) => i < self.children@.len() && find_child(self@.children, name@)
                    == i as int,
                None => find_child(self@.children, name@) == -1,
            },
    {
        proof {
            lemma_views_of(self.children@);
            lemma_find_child(self@.children, name@);
        }
        let mut i: usize = 0;
        while i < self.children.len()
            invariant
                i <= self.children.len(),
                forall|j: int|
                    0 <= j < i as int ==> (#[trigger] self.children@[j])@.name != name@,
            decreases self.children.len() - i,
        {
            if self.children[i].name.eq(name) {
                proof {
                    lemma_views_of(self.children@);
                    lemma_find_child(self@.children, name@);
                    let f = find_child(self@.children, name@);
                    assert(self@.children[i as int].name == name@);
                    if f == -1 {
                        assert(self@.children[i as int].name != name@);
                    } else if f < i as int {
                        assert(self.children@[f]@.name != name@);
                        assert(self@.children[f] == self.children@[f]@);
                    } else if f > i as int {
                        assert(self@.children[i as int].name != name@);
                    }
                    assert(f == i as int);
                }
                return Some(i);
            }
            proof {
                lemma_views_of(self.children@);
                assert(self.children@[i as int]@.name == self.children@[i as int].name@);
            }
            i += 1;
        }
        proof {
            lemma_views_of(self.children@);
            lemma_find_child(self@.children, name@);
            let f = find_child(self@.children, name@);
            if f != -1 {
                assert(self@.children[f] == self.children@[f]@);
                assert(self.children@[f]@.name != name@);
            }
        }
        None
    }

    /// Append the given elements as children, in place, preserving their
    /// order.
    pub fn append_children(&mut self, nodes: Vec<Node>)
        ensures
            final(self)@ == (NodeView {
                children: old(self)@.children + views_of(nodes@),
                ..old(self)@
            }),
    {
        let ghost old_self = *self;
        let ghost old_nodes = nodes@;
        let mut nodes = nodes;
        self.children.append(&mut nodes);
        proof {
            lemma_views_of(self.children@);
            lemma_views_of(old_self.children@);
            lemma_views_of(old_nodes);
            assert forall|j: int| 0 <= j < self.children@.len() implies #[trigger] views_of(
                self.children@,
            )[j] == (old_self@.children + views_of(old_nodes))[j] by {
                let base = old_self.children@.len() as int;
                if j < base {
                    assert(self.children@[j] == old_self.children@[j]);
                } else {
                    assert(self.children@[j] == old_nodes[j - base]);
                }
            }
            assert(self@.children =~= old_self@.children + views_of(old_nodes));
        }
    }

    /// Mark the element self-closing.
    pub fn close(self) -> (r: Node)
        ensures
            r@ == (NodeView { closed: true, ..self@ }),
    {
        Node { closed: true, ..self }
    }

    /// Four spaces per indentation level.
    pub fn indent(level: usize) -> (r: String)
        ensures
            r@ == indent_text(level as nat),
    {
        let mut r = String::new();
        let mut i: usize = 0;
        while i < level
            invariant
                i <= level,
                r@ == indent_text(i as nat),
            decreases level - i,
        {
            r.append("    ");
            proof {
                reveal_strlit("    ");
                assert(r@ =~= indent_text((i + 1) as nat));
            }
            i += 1;
        }
        r
    }

    /// Render the element as indented XML text; the exact shape is given
    /// by `ser_node`.
    pub fn serialize(&self, level: usize) -> (r: String)
        ensures
            r@ == ser_node(self@, level as nat),
        decreases *self,
    {
        let indent = Node::indent(level);
        let attrs_str = attrs_to_text(&self.attributes);
        let mut r = String::new();
        r.append(indent.as_str());
        r.append("<");
        r.append(self.name.as_str());
        if self.closed {
            r.append(" ");
            r.append(attrs_str.as_str());
            r.append("/>\n");
            proof {
                reveal_strlit("<");
                reveal_strlit(" ");
                reveal_strlit("/>\n");
                assert("<"@ =~= seq!['<']);
                assert(" "@ =~= seq![' ']);
                assert("/>\n"@ =~= seq!['/', '>', '\n']);
                assert(r@ =~= ser_node(self@, level as nat));
            }
            return r;
        }
        if let Some(content) = &self.content {
            if self.attributes.len() > 0 {
                r.append(" ");
                r.append(attrs_str.as_str());
            }
            r.append(">");
            r.append(content.as_str());
            r.append("</");
            r.append(self.name.as_str());
            r.append(">\n");
            proof {
                reveal_strlit("<");
                reveal_strlit(" ");
                reveal_strlit(">");
                reveal_strlit("</");
                reveal_strlit(">\n");
                assert("<"@ =~= seq!['<']);
                assert(" "@ =~= seq![' ']);
                assert(">"@ =~= seq!['>']);
                assert("</"@ =~= seq!['<', '/']);
                assert(">\n"@ =~= seq!['>', '\n']);
                assert(r@ =~= ser_node(self@, level as nat));
            }
            return r;
        }
        r.append(" ");
        r.append(attrs_str.as_str());
        r.append(">\n");
        let child_level = if level < usize::MAX { level + 1 } else { level };
        let ghost open_part = r@;
        let mut i: usize = 0;
        while i < self.children.len()
            invariant
                i <= self.children.len(),
                r@ == open_part + ser_children(
                    views_of(self.children@).subrange(0, i as int),
                    child_level as nat,
                ),
            decreases self.children.len() - i,
        {
            proof {
                lemma_views_of(self.children@);
            }
            let ghost pre = r@;
            let part = self.children[i].serialize(child_level);
            r.append(part.as_str());
            proof {
                let cs = views_of(self.children@);
                assert(cs.subrange(0, i as int + 1).drop_last() =~= cs.subrange(0, i as int));
                assert(cs.subrange(0, i as int + 1).last() == cs[i as int]);
                assert(r@ =~= open_part + ser_children(
                    cs.subrange(0, i as int + 1),
                    child_level as nat,
                ));
            }
            i += 1;
        }
        r.append(indent.as_str());
        r.append("</");
        r.append(self.name.as_str());
        r.append(">\n");
        proof {
            lemma_views_of(self.children@);
            let cs = views_of(self.children@);
            assert(cs.subrange(0, cs.len() as int) =~= cs);
            reveal_strlit("<");
            reveal_strlit(" ");
            reveal_strlit(">\n");
            reveal_strlit("</");
            assert("<"@ =~= seq!['<']);
            assert(" "@ =~= seq![' ']);
            assert(">\n"@ =~= seq!['>', '\n']);
            assert("</"@ =~= seq!['<', '/']);
            assert(child_level as nat == next_level(level as nat));
            assert(r@ =~= ser_node(self@, level as nat));
        }
        r
    }
}

/// Render an attribute list as space-separated `key="value"` items.
fn attrs_to_text(attrs: &Vec<(String, String)>) -> (r: String)
    ensures
        r@ == attrs_text(views_of_attrs(attrs@)),
{
    let mut r = String::new();
    let mut i: usize = 0;
    while i < attrs.len()
        invariant
            i <= attrs.len(),
            r@ == attrs_text(views_of_attrs(attrs@).subrange(0, i as int)),
        decreases attrs.len() - i,
    {
        if i > 0 {
            r.append(" ");
        }
        r.append(attrs[i].0.as_str());
        r.append("=\"");
        r.append(attrs[i].1.as_str());
        r.append("\"");
        proof {
            reveal_strlit(" ");
            reveal_strlit("=\"");
            reveal_strlit("\"");
            assert(" "@ =~= seq![' ']);
            assert("=\""@ =~= seq!['=', '"']);
            assert("\""@ =~= seq!['"']);
            let vs = views_of_attrs(attrs@);
            let prev = vs.subrange(0, i as int);
            let cur = vs.subrange(0, i as int + 1);
            if i == 0 {
                assert(cur.len() == 1);
                assert(attrs_text(cur) == attr_text(cur[0]) + attrs_text_rest(
                    cur.subrange(1, 1),
                ));
                assert(cur.subrange(1, 1) =~= Seq::<(Seq<char>, Seq<char>)>::empty());
                assert(r@ =~= attrs_text(cur));
            } else {
                lemma_attrs_text_step(vs, i as int);
                assert(r@ =~= attrs_text(cur));
            }
        }
        i += 1;
    }
    proof {
        assert(views_of_attrs(attrs@).subrange(0, attrs@.len() as int) =~= views_of_attrs(
            attrs@,
        ));
    }
    r
}

/// Extending a rendered attribute prefix by one item appends a space and
/// that item.
proof fn lemma_attrs_text_step(vs: Seq<(Seq<char>, Seq<char>)>, i: int)
    requires
        1 <= i < vs.len(),
    ensures
        attrs_text(vs.subrange(0, i + 1)) == attrs_text(vs.subrange(0, i)) + seq![' ']
            + attr_text(vs[i]),
{
    let prev = vs.subrange(0, i);
    let cur = vs.subrange(0, i + 1);
    assert(cur[0] == prev[0]);
    let prev_rest = prev.subrange(1, prev.len() as int);
    let cur_rest = cur.subrange(1, cur.len() as int);
    assert(cur_rest.drop_last() =~= prev_rest);
    assert(cur_rest.last() == vs[i]);
    assert(attrs_text_rest(cur_rest) == attrs_text_rest(prev_rest) + seq![' '] + attr_text(
        vs[i],
    ));
    assert(attrs_text(cur) =~= attrs_text(prev) + seq![' '] + attr_text(vs[i]));
}

} // verus!
