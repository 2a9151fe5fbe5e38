//! Typed element builders: one named wrapper type per schema element,
//! each binding its fixed tag to the generic node and offering the
//! element-specific construction helpers the schema calls for.

use vstd::prelude::*;

use crate::node::IntoNode;
use crate::node::Node;
use crate::node::NodeView;
use crate::node::as_closed;
use crate::node::element;
use crate::node::views_of;
use crate::node::with_attr;
use crate::node::with_child;
use crate::node::with_children;
use crate::node::with_content;
use crate::numtext::int_dec;
use crate::numtext::i32_to_dec;

verus! {

/// A marker for element types that stand for sized variables.
pub trait SizedVariable: IntoNode + Sized {

}

/// A `connection` element referring to another element by its local id.
pub open spec fn connection_view(ref_id: int) -> NodeView {
    with_attr(element("connection"@), "refLocalId"@, int_dec(ref_id))
}

/// A `connectionPointIn` holding one `connection`, self-closing when
/// asked.
pub open spec fn connection_point_in_view(ref_id: int, closed: bool) -> NodeView {
    with_child(
        element("connectionPointIn"@),
        if closed {
            as_closed(connection_view(ref_id))
        } else {
            connection_view(ref_id)
        },
    )
}

/// A `connectionPointIn` whose connection also names its formal
/// parameter.
pub open spec fn connection_point_in_named_view(ref_id: int, name: Seq<char>) -> NodeView {
    with_child(
        element("connectionPointIn"@),
        as_closed(with_attr(connection_view(ref_id), "formalParameter"@, name)),
    )
}

/// A `connectionPointOut` holding one self-closing `connection`.
pub open spec fn connection_point_out_view(ref_id: int) -> NodeView {
    with_child(element("connectionPointOut"@), as_closed(connection_view(ref_id)))
}

/// An `expression` element whose content is the expression text.
pub open spec fn expression_view(text: Seq<char>) -> NodeView {
    with_content(element("expression"@), text)
}

/// The `addData/data/negated` scaffold carrying a negation flag.
pub open spec fn negation_view(value: Seq<char>) -> NodeView {
    with_child(
        element("addData"@),
        with_child(
            element("data"@),
            as_closed(with_attr(element("negated"@), "value"@, value)),
        ),
    )
}

pub open spec fn bool_text(b: bool) -> Seq<char> {
    if b {
        "true"@
    } else {
        "false"@
    }
}

fn connection_node(ref_id: i32) -> (r: Node)
    ensures
        r@ == connection_view(ref_id as int),
{
    Node::new_str("connection").attribute("refLocalId".to_owned(), i32_to_dec(ref_id))
}

fn connection_point_in_node(ref_id: i32, closed: bool) -> (r: Node)
    ensures
        r@ == connection_point_in_view(ref_id as int, closed),
{
    let conn = connection_node(ref_id);
    let conn = if closed {
        conn.close()
    } else {
        conn
    };
    Node::new_str("connectionPointIn").child(&conn)
}

fn connection_point_out_node(ref_id: i32) -> (r: Node)
    ensures
        r@ == connection_point_out_view(ref_id as int),
{
    let conn = connection_node(ref_id).close();
    Node::new_str("connectionPointOut").child(&conn)
}

fn expression_node(text: String) -> (r: Node)
    ensures
        r@ == expression_view(text@),
{
    Node::new_str("expression").content_borrowed(text)
}

fn negation_node(value: bool) -> (r: Node)
    ensures
        r@ == negation_view(bool_text(value)),
{
    let text: &'static str = if value {
        "true"
    } else {
        "false"
    };
    let negated = Node::new_str("negated").attribute(
        "value".to_owned(),
        text.to_owned(),
    ).close();
    let data = Node::new_str("data").child(&negated);
    Node::new_str("addData").child(&data)
}

/// An `inVariable` element; negatable, so it starts with
/// `negated="false"`.
pub struct SInVariable(pub Node);

impl IntoNode for SInVariable {
    open spec fn node_view(&self) -> NodeView {
        self.0@
    }

    fn inner(&self) -> (n: Node) {
        self.0.deep_clone()
    }
}

impl SInVariable {
    pub open spec fn base_view() -> NodeView {
        with_attr(element("inVariable"@), "negated"@, "false"@)
    }

    pub fn new() -> (r: Self)
        ensures
            r.node_view() == Self::base_view(),
    {
        SInVariable(Node::new_str("inVariable").attribute_str("negated", "false"))
    }

    pub fn with_id(self, id: i32) -> (r: Self)
        ensures
            r.node_view() == with_attr(self.node_view(), "localId"@, int_dec(id as int)),
    {
        SInVariable(self.0.attribute("localId".to_owned(), i32_to_dec(id)))
    }

    /// Wire this variable to the element with the given local id.
    pub fn connect(self, ref_local_id: i32) -> (r: Self)
        ensures
            r.node_view() == with_child(
                self.node_view(),
                connection_point_in_view(ref_local_id as int, false),
            ),
    {
        let cpi = connection_point_in_node(ref_local_id, false);
        SInVariable(self.0.child(&cpi))
    }

    /// Attach the expression this variable carries.
    pub fn with_expression(self, expression: String) -> (r: Self)
        ensures
            r.node_view() == with_child(self.node_view(), expression_view(expression@)),
    {
        let e = expression_node(expression);
        SInVariable(self.0.child(&e))
    }

    pub fn with_expression_str(self, expression: &'static str) -> (r: Self)
        ensures
            r.node_view() == with_child(self.node_view(), expression_view(expression@)),
    {
        self.with_expression(expression.to_owned())
    }
}

/// An `outVariable` element; negatable, so it starts with
/// `negated="false"`.
pub struct SOutVariable(pub Node);

impl IntoNode for SOutVariable {
    open spec fn node_view(&self) -> NodeView {
        self.0@
    }

    fn inner(&self) -> (n: Node) {
        self.0.deep_clone()
    }
}

impl SOutVariable {
    pub open spec fn base_view() -> NodeView {
        with_attr(element("outVariable"@), "negated"@, "false"@)
    }

    pub fn new() -> (r: Self)
        ensures
            r.node_view() == Self::base_view(),
    {
        SOutVariable(Node::new_str("outVariable").attribute_str("negated", "false"))
    }

    /// Wire this variable to the element with the given local id.
    pub fn connect(self, ref_local_id: i32) -> (r: Self)
        ensures
            r.node_view() == with_child(
                self.node_view(),
                connection_point_in_view(ref_local_id as int, true),
            ),
    {
        let cpi = connection_point_in_node(ref_local_id, true);
        SOutVariable(self.0.child(&cpi))
    }

    /// Wire this variable to a named formal parameter of the element with
    /// the given local id.
    pub fn connect_name(self, ref_local_id: i32, name: String) -> (r: Self)
        ensures
            r.node_view() == with_child(
                self.node_view(),
                connection_point_in_named_view(ref_local_id as int, name@),
            ),
    {
        let conn = connection_node(ref_local_id).attribute(
            "formalParameter".to_owned(),
            name,
        ).close();
        let cpi = Node::new_str("connectionPointIn").child(&conn);
        SOutVariable(self.0.child(&cpi))
    }

    pub fn connect_name_str(self, ref_local_id: i32, name: &'static str) -> (r: Self)
        ensures
            r.node_view() == with_child(
                self.node_view(),
                connection_point_in_named_view(ref_local_id as int, name@),
            ),
    {
        self.connect_name(ref_local_id, name.to_owned())
    }

    /// Attach the expression this variable carries.
    pub fn with_expression(self, expression: String) -> (r: Self)
        ensures
            r.node_view() == with_child(self.node_view(), expression_view(expression@)),
    {
        let e = expression_node(expression);
        SOutVariable(self.0.child(&e))
    }

    pub fn with_expression_str(self, expression: &'static str) -> (r: Self)
        ensures
            r.node_view() == with_child(self.node_view(), expression_view(expression@)),
    {
        self.with_expression(expression.to_owned())
    }
}

/// An `inOutVariable` element; negatable, so it starts with
/// `negated="false"`.
pub struct SInOutVariable(pub Node);

impl IntoNode for SInOutVariable {
    open spec fn node_view(&self) -> NodeView {
        self.0@
    }

    fn inner(&self) -> (n: Node) {
        self.0.deep_clone()
    }
}

impl SInOutVariable {
    pub open spec fn base_view() -> NodeView {
        with_attr(element("inOutVariable"@), "negated"@, "false"@)
    }

    pub fn new() -> (r: Self)
        ensures
            r.node_view() == Self::base_view(),
    {
        SInOutVariable(Node::new_str("inOutVariable").attribute_str("negated", "false"))
    }

    /// Attach the expression this variable carries.
    pub fn with_expression(self, expression: String) -> (r: Self)
        ensures
            r.node_view() == with_child(self.node_view(), expression_view(expression@)),
    {
        let e = expression_node(expression);
        SInOutVariable(self.0.child(&e))
    }

    pub fn with_expression_str(self, expression: &'static str) -> (r: Self)
        ensures
            r.node_view() == with_child(self.node_view(), expression_view(expression@)),
    {
        self.with_expression(expression.to_owned())
    }
}

/// A `return` element.
pub struct SReturn(pub Node);

impl IntoNode for SReturn {
    open spec fn node_view(&self) -> NodeView {
        self.0@
    }

    fn inner(&self) -> (n: Node) {
        self.0.deep_clone()
    }
}

impl SReturn {
    pub open spec fn base_view() -> NodeView {
        element("return"@)
    }

    pub fn new() -> (r: Self)
        ensures
            r.node_view() == Self::base_view(),
    {
        SReturn(Node::new_str("return"))
    }

    /// A `return` carrying its local id and execution order.
    pub fn init(local_id: i32, execution_order: i32) -> (r: Self)
        ensures
            r.node_view() == with_attr(
                with_attr(Self::base_view(), "localId"@, int_dec(local_id as int)),
                "executionOrderId"@,
                int_dec(execution_order as int),
            ),
    {
        SReturn(
            Node::new_str("return").attribute("localId".to_owned(), i32_to_dec(local_id))
                .attribute("executionOrderId".to_owned(), i32_to_dec(execution_order)),
        )
    }

    /// Wire the return to the element with the given local id.
    pub fn connect(self, ref_local_id: i32) -> (r: Self)
        ensures
            r.node_view() == with_child(
                self.node_view(),
                connection_point_in_view(ref_local_id as int, false),
            ),
    {
        let cpi = connection_point_in_node(ref_local_id, false);
        SReturn(self.0.child(&cpi))
    }

    /// Record whether the return is negated.
    pub fn negate(self, value: bool) -> (r: Self)
        ensures
            r.node_view() == with_child(self.node_view(), negation_view(bool_text(value))),
    {
        let n = negation_node(value);
        SReturn(self.0.child(&n))
    }
}

/// A `content` element holding a textual declaration.
pub struct SContent(pub Node);

impl IntoNode for SContent {
    open spec fn node_view(&self) -> NodeView {
        self.0@
    }

    fn inner(&self) -> (n: Node) {
        self.0.deep_clone()
    }
}

impl SContent {
    pub open spec fn base_view() -> NodeView {
        element("content"@)
    }

    pub fn new() -> (r: Self)
        ensures
            r.node_view() == Self::base_view(),
    {
        SContent(Node::new_str("content"))
    }

    /// Set the declaration text this element carries.
    pub fn with_declaration(self, content: String) -> (r: Self)
        ensures
            r.node_view() == with_content(self.node_view(), content@),
    {
        SContent(self.0.content_borrowed(content))
    }
}

/// An `expression` element.
pub struct SExpression(pub Node);

impl IntoNode for SExpression {
    open spec fn node_view(&self) -> NodeView {
        self.0@
    }

    fn inner(&self) -> (n: Node) {
        self.0.deep_clone()
    }
}

impl SExpression {
    pub open spec fn base_view() -> NodeView {
        element("expression"@)
    }

    pub fn new() -> (r: Self)
        ensures
            r.node_view() == Self::base_view(),
    {
        SExpression(Node::new_str("expression"))
    }

    /// An `expression` whose content is the given text.
    pub fn expression(input: String) -> (r: Self)
        ensures
            r.node_view() == expression_view(input@),
    {
        SExpression(expression_node(input))
    }

    pub fn expression_str(input: &'static str) -> (r: Self)
        ensures
            r.node_view() == expression_view(input@),
    {
        Self::expression(input.to_owned())
    }
}

/// A `variable` element inside a block's variable lists; negatable.
pub struct SVariable(pub Node);

impl IntoNode for SVariable {
    open spec fn node_view(&self) -> NodeView {
        self.0@
    }

    fn inner(&self) -> (n: Node) {
        self.0.deep_clone()
    }
}

impl SVariable {
    pub open spec fn base_view() -> NodeView {
        with_attr(element("variable"@), "negated"@, "false"@)
    }

    pub fn new() -> (r: Self)
        ensures
            r.node_view() == Self::base_view(),
    {
        SVariable(Node::new_str("variable").attribute_str("negated", "false"))
    }

    /// Name the formal parameter this variable stands for.
    pub fn with_name(self, name: String) -> (r: Self)
        ensures
            r.node_view() == with_attr(self.node_view(), "formalParameter"@, name@),
    {
        SVariable(self.0.attribute("formalParameter".to_owned(), name))
    }

    pub fn with_name_str(self, name: &'static str) -> (r: Self)
        ensures
            r.node_view() == with_attr(self.node_view(), "formalParameter"@, name@),
    {
        self.with_name(name.to_owned())
    }

    /// Wire the variable's input to the element with the given local id.
    pub fn connect(self, ref_local_id: i32) -> (r: Self)
        ensures
            r.node_view() == with_child(
                self.node_view(),
                connection_point_in_view(ref_local_id as int, true),
            ),
    {
        let cpi = connection_point_in_node(ref_local_id, true);
        SVariable(self.0.child(&cpi))
    }

    /// Wire the variable's output to the element with the given local id.
    pub fn connect_out(self, ref_local_id: i32) -> (r: Self)
        ensures
            r.node_view() == with_child(
                self.node_view(),
                connection_point_out_view(ref_local_id as int),
            ),
    {
        let cpo = connection_point_out_node(ref_local_id);
        SVariable(self.0.child(&cpo))
    }
}

/// A `connector` element.
pub struct SConnector(pub Node);

impl IntoNode for SConnector {
    open spec fn node_view(&self) -> NodeView {
        self.0@
    }

    fn inner(&self) -> (n: Node) {
        self.0.deep_clone()
    }
}

impl SConnector {
    pub open spec fn base_view() -> NodeView {
        element("connector"@)
    }

    pub fn new() -> (r: Self)
        ensures
            r.node_view() == Self::base_view(),
    {
        SConnector(Node::new_str("connector"))
    }

    pub fn with_name(self, name: String) -> (r: Self)
        ensures
            r.node_view() == with_attr(self.node_view(), "name"@, name@),
    {
        SConnector(self.0.attribute("name".to_owned(), name))
    }

    pub fn with_name_str(self, name: &'static str) -> (r: Self)
        ensures
            r.node_view() == with_attr(self.node_view(), "name"@, name@),
    {
        self.with_name(name.to_owned())
    }

    pub fn connect(self, ref_local_id: i32) -> (r: Self)
        ensures
            r.node_view() == with_child(
                self.node_view(),
                connection_point_in_view(ref_local_id as int, true),
            ),
    {
        let cpi = connection_point_in_node(ref_local_id, true);
        SConnector(self.0.child(&cpi))
    }
}

/// A `continuation` element.
pub struct SContinuation(pub Node);

impl IntoNode for SContinuation {
    open spec fn node_view(&self) -> NodeView {
        self.0@
    }

    fn inner(&self) -> (n: Node) {
        self.0.deep_clone()
    }
}

impl SContinuation {
    pub open spec fn base_view() -> NodeView {
        element("continuation"@)
    }

    pub fn new() -> (r: Self)
        ensures
            r.node_view() == Self::base_view(),
    {
        SContinuation(Node::new_str("continuation"))
    }

    pub fn with_name(self, name: String) -> (r: Self)
        ensures
            r.node_view() == with_attr(self.node_view(), "name"@, name@),
    {
        SContinuation(self.0.attribute("name".to_owned(), name))
    }

    pub fn with_name_str(self, name: &'static str) -> (r: Self)
        ensures
            r.node_view() == with_attr(self.node_view(), "name"@, name@),
    {
        self.with_name(name.to_owned())
    }

    pub fn connect_out(self, ref_local_id: i32) -> (r: Self)
        ensures
            r.node_view() == with_child(
                self.node_view(),
                connection_point_out_view(ref_local_id as int),
            ),
    {
        let cpo = connection_point_out_node(ref_local_id);
        SContinuation(self.0.child(&cpo))
    }
}

/// A `label` element.
pub struct SLabel(pub Node);

impl IntoNode for SLabel {
    open spec fn node_view(&self) -> NodeView {
        self.0@
    }

    fn inner(&self) -> (n: Node) {
        self.0.deep_clone()
    }
}

impl SLabel {
    pub open spec fn base_view() -> NodeView {
        element("label"@)
    }

    pub fn new() -> (r: Self)
        ensures
            r.node_view() == Self::base_view(),
    {
        SLabel(Node::new_str("label"))
    }

    pub fn with_name(self, name: String) -> (r: Self)
        ensures
            r.node_view() == with_attr(self.node_view(), "label"@, name@),
    {
        SLabel(self.0.attribute("label".to_owned(), name))
    }

    pub fn with_name_str(self, name: &'static str) -> (r: Self)
        ensures
            r.node_view() == with_attr(self.node_view(), "label"@, name@),
    {
        self.with_name(name.to_owned())
    }
}

/// A `jump` element.
pub struct SJump(pub Node);

impl IntoNode for SJump {
    open spec fn node_view(&self) -> NodeView {
        self.0@
    }

    fn inner(&self) -> (n: Node) {
        self.0.deep_clone()
    }
}

impl SJump {
    pub open spec fn base_view() -> NodeView {
        element("jump"@)
    }

    pub fn new() -> (r: Self)
        ensures
            r.node_view() == Self::base_view(),
    {
        SJump(Node::new_str("jump"))
    }

    pub fn with_name(self, name: String) -> (r: Self)
        ensures
            r.node_view() == with_attr(self.node_view(), "label"@, name@),
    {
        SJump(self.0.attribute("label".to_owned(), name))
    }

    pub fn with_name_str(self, name: &'static str) -> (r: Self)
        ensures
            r.node_view() == with_attr(self.node_view(), "label"@, name@),
    {
        self.with_name(name.to_owned())
    }

    pub fn connect(self, ref_local_id: i32) -> (r: Self)
        ensures
            r.node_view() == with_child(
                self.node_view(),
                connection_point_in_view(ref_local_id as int, true),
            ),
    {
        let cpi = connection_point_in_node(ref_local_id, true);
        SJump(self.0.child(&cpi))
    }

    /// Mark the jump condition negated.
    pub fn negate(self) -> (r: Self)
        ensures
            r.node_view() == with_child(self.node_view(), negation_view("true"@)),
    {
        let n = negation_node(true);
        proof {
            reveal_strlit("true");
        }
        SJump(self.0.child(&n))
    }
}

/// An `FBD` element wrapping a network's elements.
pub open spec fn fbd_view(cs: Seq<NodeView>) -> NodeView {
    with_children(element("FBD"@), cs)
}

/// A `body` holding one `FBD` network.
pub open spec fn body_fbd_view(cs: Seq<NodeView>) -> NodeView {
    with_child(element("body"@), fbd_view(cs))
}

fn body_fbd_node(children: Vec<Node>) -> (r: Node)
    ensures
        r@ == body_fbd_view(views_of(children@)),
{
    let fbd = Node::new_str("FBD").children(children);
    Node::new_str("body").child(&fbd)
}

/// An `action` element.
pub struct SAction(pub Node);

impl IntoNode for SAction {
    open spec fn node_view(&self) -> NodeView {
        self.0@
    }

    fn inner(&self) -> (n: Node) {
        self.0.deep_clone()
    }
}

impl SAction {
    pub open spec fn base_view() -> NodeView {
        element("action"@)
    }

    pub fn new() -> (r: Self)
        ensures
            r.node_view() == Self::base_view(),
    {
        SAction(Node::new_str("action"))
    }

    /// An `action` with its name attribute.
    pub fn name(name: String) -> (r: Self)
        ensures
            r.node_view() == with_attr(Self::base_view(), "name"@, name@),
    {
        SAction(Node::new_str("action").attribute("name".to_owned(), name))
    }

    pub fn name_str(name: &'static str) -> (r: Self)
        ensures
            r.node_view() == with_attr(Self::base_view(), "name"@, name@),
    {
        Self::name(name.to_owned())
    }

    /// Attach the action's body as one `body/FBD` network.
    pub fn with_fbd(self, children: Vec<Node>) -> (r: Self)
        ensures
            r.node_view() == with_child(self.node_view(), body_fbd_view(views_of(children@))),
    {
        let body = body_fbd_node(children);
        SAction(self.0.child(&body))
    }
}

/// A vendor `Variable` element.
pub struct SOmronVariable(pub Node);

impl IntoNode for SOmronVariable {
    open spec fn node_view(&self) -> NodeView {
        self.0@
    }

    fn inner(&self) -> (n: Node) {
        self.0.deep_clone()
    }
}

impl SOmronVariable {
    pub open spec fn base_view() -> NodeView {
        element("Variable"@)
    }

    pub fn new() -> (r: Self)
        ensures
            r.node_view() == Self::base_view(),
    {
        SOmronVariable(Node::new_str("Variable"))
    }

    pub fn with_name(self, name: String) -> (r: Self)
        ensures
            r.node_view() == with_attr(self.node_view(), "name"@, name@),
    {
        SOmronVariable(self.0.attribute("name".to_owned(), name))
    }
}

/// The `interface` subtree a `pou` starts with: closed `localVars` and
/// the declaration text behind `addData/data/textDeclaration/content`.
pub open spec fn pou_interface_view(declaration: Seq<char>) -> NodeView {
    with_children(
        element("interface"@),
        seq![
            as_closed(element("localVars"@)),
            with_child(
                element("addData"@),
                with_child(
                    with_attr(
                        with_attr(element("data"@), "name"@, "www.bachmann.at/plc/plcopenxml"@),
                        "handleUnknown"@,
                        "implementation"@,
                    ),
                    with_child(
                        element("textDeclaration"@),
                        with_content(element("content"@), declaration),
                    ),
                ),
            ),
        ],
    )
}

/// A `pou` element with its name, kind and declaration text.
pub open spec fn pou_init_view(
    name: Seq<char>,
    kind: Seq<char>,
    declaration: Seq<char>,
) -> NodeView {
    with_child(
        with_attr(
            with_attr(
                with_attr(element("pou"@), "xmlns"@, "http://www.plcopen.org/xml/tc6_0201"@),
                "name"@,
                name,
            ),
            "pouType"@,
            kind,
        ),
        pou_interface_view(declaration),
    )
}

/// A `pou` element.
pub struct SPou(pub Node);

impl IntoNode for SPou {
    open spec fn node_view(&self) -> NodeView {
        self.0@
    }

    fn inner(&self) -> (n: Node) {
        self.0.deep_clone()
    }
}

impl SPou {
    pub open spec fn base_view() -> NodeView {
        element("pou"@)
    }

    pub fn new() -> (r: Self)
        ensures
            r.node_view() == Self::base_view(),
    {
        SPou(Node::new_str("pou"))
    }

    /// A `pou` carrying its name, kind and textual declaration inside the
    /// schema's interface scaffold.
    pub fn init(name: String, kind: String, declaration: String) -> (r: Self)
        ensures
            r.node_view() == pou_init_view(name@, kind@, declaration@),
    {
        let content = Node::new_str("content").content_borrowed(declaration);
        let text_decl = Node::new_str("textDeclaration").child(&content);
        let data = Node::new_str("data").attribute_str(
            "name",
            "www.bachmann.at/plc/plcopenxml",
        ).attribute_str("handleUnknown", "implementation").child(&text_decl);
        let add_data = Node::new_str("addData").child(&data);
        let local_vars = Node::new_str("localVars").close();
        let ghost lv = local_vars@;
        let ghost ad = add_data@;
        let mut interface_children: Vec<Node> = Vec::new();
        interface_children.push(local_vars);
        interface_children.push(add_data);
        let ghost gv = interface_children@;
        let interface = Node::new_str("interface").children(interface_children);
        let pou = Node::new_str("pou").attribute_str(
            "xmlns",
            "http://www.plcopen.org/xml/tc6_0201",
        ).attribute("name".to_owned(), name).attribute("pouType".to_owned(), kind).child(
            &interface,
        );
        proof {
            crate::node::lemma_views_of(gv);
            assert(views_of(gv) =~= seq![lv, ad]);
            assert(interface@.children =~= seq![lv, ad]);
            assert(interface@ == pou_interface_view(declaration@));
        }
        SPou(pou)
    }

    pub fn init_str(name: &'static str, kind: &'static str, declaration: &'static str) -> (r:
        Self)
        ensures
            r.node_view() == pou_init_view(name@, kind@, declaration@),
    {
        Self::init(name.to_owned(), kind.to_owned(), declaration.to_owned())
    }

    /// Attach a `body/FBD` network holding the given elements.
    pub fn with_fbd(self, children: Vec<Node>) -> (r: Self)
        ensures
            r.node_view() == with_child(self.node_view(), body_fbd_view(views_of(children@))),
    {
        let body = body_fbd_node(children);
        SPou(self.0.child(&body))
    }

    /// Attach an `actions` container holding the given elements.
    pub fn with_actions(self, children: Vec<Node>) -> (r: Self)
        ensures
            r.node_view() == with_child(
                self.node_view(),
                with_children(element("actions"@), views_of(children@)),
            ),
    {
        let actions = Node::new_str("actions").children(children);
        SPou(self.0.child(&actions))
    }
}

/// A `block` element.
pub struct SBlock(pub Node);

impl IntoNode for SBlock {
    open spec fn node_view(&self) -> NodeView {
        self.0@
    }

    fn inner(&self) -> (n: Node) {
        self.0.deep_clone()
    }
}

impl SBlock {
    pub open spec fn base_view() -> NodeView {
        element("block"@)
    }

    pub fn new() -> (r: Self)
        ensures
            r.node_view() == Self::base_view(),
    {
        SBlock(Node::new_str("block"))
    }

    /// A `block` with its type name, local id and execution order.
    pub fn init(name: String, local_id: i32, execution_order_id: i32) -> (r: Self)
        ensures
            r.node_view() == with_attr(
                with_attr(
                    with_attr(Self::base_view(), "typeName"@, name@),
                    "localId"@,
                    int_dec(local_id as int),
                ),
                "executionOrderId"@,
                int_dec(execution_order_id as int),
            ),
    {
        SBlock(
            Node::new_str("block").attribute("typeName".to_owned(), name).attribute(
                "localId".to_owned(),
                i32_to_dec(local_id),
            ).attribute("executionOrderId".to_owned(), i32_to_dec(execution_order_id)),
        )
    }

    pub fn init_str(name: &'static str, local_id: i32, execution_order_id: i32) -> (r: Self)
        ensures
            r.node_view() == with_attr(
                with_attr(
                    with_attr(Self::base_view(), "typeName"@, name@),
                    "localId"@,
                    int_dec(local_id as int),
                ),
                "executionOrderId"@,
                int_dec(execution_order_id as int),
            ),
    {
        Self::init(name.to_owned(), local_id, execution_order_id)
    }

    pub fn with_name(self, name: String) -> (r: Self)
        ensures
            r.node_view() == with_attr(self.node_view(), "typeName"@, name@),
    {
        SBlock(self.0.attribute("typeName".to_owned(), name))
    }

    pub fn with_name_str(self, name: &'static str) -> (r: Self)
        ensures
            r.node_view() == with_attr(self.node_view(), "typeName"@, name@),
    {
        self.with_name(name.to_owned())
    }

    /// Attach the block's input variable list.
    pub fn with_input(self, variables: Vec<Node>) -> (r: Self)
        ensures
            r.node_view() == with_child(
                self.node_view(),
                with_children(element("inputVariables"@), views_of(variables@)),
            ),
    {
        let vars = Node::new_str("inputVariables").children(variables);
        SBlock(self.0.child(&vars))
    }

    /// Attach the block's output variable list.
    pub fn with_output(self, variables: Vec<Node>) -> (r: Self)
        ensures
            r.node_view() == with_child(
                self.node_view(),
                with_children(element("outputVariables"@), views_of(variables@)),
            ),
    {
        let vars = Node::new_str("outputVariables").children(variables);
        SBlock(self.0.child(&vars))
    }

    /// Attach the block's in-out variable list.
    pub fn with_inout(self, variables: Vec<Node>) -> (r: Self)
        ensures
            r.node_view() == with_child(
                self.node_view(),
                with_children(element("inOutVariables"@), views_of(variables@)),
            ),
    {
        let vars = Node::new_str("inOutVariables").children(variables);
        SBlock(self.0.child(&vars))
    }
}

/// A `body` element.
pub struct SBody(pub Node);

impl IntoNode for SBody {
    open spec fn node_view(&self) -> NodeView {
        self.0@
    }

    fn inner(&self) -> (n: Node) {
        self.0.deep_clone()
    }
}

impl SBody {
    pub open spec fn base_view() -> NodeView {
        element("body"@)
    }

    pub fn new() -> (r: Self)
        ensures
            r.node_view() == Self::base_view(),
    {
        SBody(Node::new_str("body"))
    }

    /// A fresh `body` holding one `FBD` network with the given elements.
    pub fn with_fbd(self, children: Vec<Node>) -> (r: Self)
        ensures
            r.node_view() == body_fbd_view(views_of(children@)),
    {
        SBody(body_fbd_node(children))
    }
}

/// An `inputVariables` element.
pub struct SInputVariables(pub Node);

impl IntoNode for SInputVariables {
    open spec fn node_view(&self) -> NodeView {
        self.0@
    }

    fn inner(&self) -> (n: Node) {
        self.0.deep_clone()
    }
}

impl SInputVariables {
    pub open spec fn base_view() -> NodeView {
        element("inputVariables"@)
    }

    pub fn new() -> (r: Self)
        ensures
            r.node_view() == Self::base_view(),
    {
        SInputVariables(Node::new_str("inputVariables"))
    }

    /// An `inputVariables` list holding the given variables.
    pub fn with_variables(variables: Vec<Node>) -> (r: Self)
        ensures
            r.node_view() == with_children(Self::base_view(), views_of(variables@)),
    {
        SInputVariables(Node::new_str("inputVariables").children(variables))
    }
}

/// An `outputVariables` element.
pub struct SOutputVariables(pub Node);

impl IntoNode for SOutputVariables {
    open spec fn node_view(&self) -> NodeView {
        self.0@
    }

    fn inner(&self) -> (n: Node) {
        self.0.deep_clone()
    }
}

impl SOutputVariables {
    pub open spec fn base_view() -> NodeView {
        element("outputVariables"@)
    }

    pub fn new() -> (r: Self)
        ensures
            r.node_view() == Self::base_view(),
    {
        SOutputVariables(Node::new_str("outputVariables"))
    }

    /// An `outputVariables` list holding the given variables.
    pub fn with_variables(variables: Vec<Node>) -> (r: Self)
        ensures
            r.node_view() == with_children(Self::base_view(), views_of(variables@)),
    {
        SOutputVariables(Node::new_str("outputVariables").children(variables))
    }
}

/// A vendor `Type` element.
pub struct SType(pub Node);

impl IntoNode for SType {
    open spec fn node_view(&self) -> NodeView {
        self.0@
    }

    fn inner(&self) -> (n: Node) {
        self.0.deep_clone()
    }
}

impl SType {
    pub open spec fn base_view() -> NodeView {
        element("Type"@)
    }

    pub fn new() -> (r: Self)
        ensures
            r.node_view() == Self::base_view(),
    {
        SType(Node::new_str("Type"))
    }

    pub fn child<T: IntoNode>(self, node: &T) -> (r: Self)
        ensures
            r.node_view() == with_child(self.node_view(), node.node_view()),
    {
        SType(self.0.child(node))
    }
}

/// A vendor `TypeName` element.
pub struct STypeName(pub Node);

impl IntoNode for STypeName {
    open spec fn node_view(&self) -> NodeView {
        self.0@
    }

    fn inner(&self) -> (n: Node) {
        self.0.deep_clone()
    }
}

impl STypeName {
    pub open spec fn base_view() -> NodeView {
        element("TypeName"@)
    }

    pub fn new() -> (r: Self)
        ensures
            r.node_view() == Self::base_view(),
    {
        STypeName(Node::new_str("TypeName"))
    }

    pub fn content(self, input: String) -> (r: Self)
        ensures
            r.node_view() == with_content(self.node_view(), input@),
    {
        STypeName(self.0.content_borrowed(input))
    }
}

/// A vendor `Member` element.
pub struct SMember(pub Node);

impl IntoNode for SMember {
    open spec fn node_view(&self) -> NodeView {
        self.0@
    }

    fn inner(&self) -> (n: Node) {
        self.0.deep_clone()
    }
}

impl SMember {
    pub open spec fn base_view() -> NodeView {
        element("Member"@)
    }

    pub fn new() -> (r: Self)
        ensures
            r.node_view() == Self::base_view(),
    {
        SMember(Node::new_str("Member"))
    }

    pub fn attribute(self, key: String, value: String) -> (r: Self)
        ensures
            r.node_view() == with_attr(self.node_view(), key@, value@),
    {
        SMember(self.0.attribute(key, value))
    }

    pub fn attribute_str(self, key: &'static str, value: &'static str) -> (r: Self)
        ensures
            r.node_view() == with_attr(self.node_view(), key@, value@),
    {
        SMember(self.0.attribute_str(key, value))
    }

    pub fn child<T: IntoNode>(self, node: &T) -> (r: Self)
        ensures
            r.node_view() == with_child(self.node_view(), node.node_view()),
    {
        SMember(self.0.child(node))
    }
}

} // verus!

