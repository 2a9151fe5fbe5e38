//! The program-unit translator: it builds the vendor-flavored skeleton
//! document and appends the subtrees for each compiled unit's global
//! variables, user-defined types and procedural units.

use vstd::prelude::*;
use vstd::string::StrSliceExecFns;
use vstd::string::StringExecFns;

use crate::GenError;
use crate::model::CompilationUnit;
use crate::model::Expr;
use crate::model::Implementation;
use crate::model::LinkageType;
use crate::model::Pou;
use crate::model::PouType;
use crate::model::PlcVariable;
use crate::model::UserTypeData;
use crate::model::UserTypeDeclaration;
use crate::model::VarBlock;
use crate::model::VarBlockKind;
use crate::numtext::is_dec_i32;
use crate::resolver::NameAndInitialValue;
use crate::resolver::enumerator_view;
use crate::resolver::format_enum_initials;
use crate::resolver::resolve_values;
use crate::resolver::values_of;
use crate::node::Node;
use crate::node::NodeView;
use crate::node::element;
use crate::node::find_child;
use crate::node::lemma_views_of;
use crate::node::views_of;
use crate::node::with_attr;
use crate::node::with_child;
use crate::node::with_children;
use crate::node::with_content;
use crate::node::as_closed;
use crate::numtext::int_dec;
use crate::numtext::usize_to_dec;
use crate::order::OrderTracker;
use crate::order::spec_claim;
use crate::writer::document_events;
use crate::writer::rendered_bytes;
use crate::writer::write_xml_document;

verus! {

/// The vendor schema location the skeleton's root element declares.
pub const OMRON_SCHEMA: &'static str =
    "https://www.ia.omron.com/Smc IEC61131_10_Ed1_0_SmcExt1_0_Spc1_0.xsd";

pub const FILE_HEADER: &'static str = "FileHeader";

pub const CONTENT_HEADER: &'static str = "ContentHeader";

pub const TYPES: &'static str = "Types";

pub const GLOBAL_NAMESPACE: &'static str = "GlobalNamespace";

pub const INSTANCES: &'static str = "Instances";

pub const CONFIGURATION: &'static str = "Configuration";

pub const RESOURCE: &'static str = "Resource";

/// Per-run configuration of the generator.
pub struct GenerationParameters {
    /// Switch vendor-specific quirks on, such as coercing oversized
    /// string types to a fixed-width placeholder type name.
    pub output_xml_omron: bool,
}

impl GenerationParameters {
    /// The default configuration: vendor quirks off.
    pub fn new() -> (r: GenerationParameters)
        ensures
            r.output_xml_omron == false,
    {
        GenerationParameters { output_xml_omron: false }
    }
}

/// Relies on chrono's `Local::now` and `DateTime::to_rfc3339`: the
/// current local time rendered in RFC 3339 form. The rendering always
/// holds at least the nineteen characters of the date and the time of
/// day before any subseconds and the offset; nothing more is stated, as
/// the value depends on the clock.
#[verifier::external_body]
fn current_timestamp() -> (r: String)
    ensures
        r@.len() >= 19,
{
    chrono::Local::now().to_rfc3339()
}

/// The skeleton document: the `Project` root with its fixed namespace
/// attributes, a `FileHeader` with fixed vendor metadata, a
/// `ContentHeader` carrying the generation timestamp, a
/// `Types/GlobalNamespace` anchor and an `Instances` anchor.
pub open spec fn omron_template_view(ts: Seq<char>) -> NodeView {
    let project = with_attr(
        with_attr(
            with_attr(
                with_attr(
                    with_attr(
                        element("Project"@),
                        "xmlns:xsi"@,
                        "http://www.w3.org/2001/XMLSchema-instance"@,
                    ),
                    "xmlns:smcext"@,
                    "https://www.ia.omron.com/Smc"@,
                ),
                "xsi:schemaLocation"@,
                "https://www.ia.omron.com/Smc IEC61131_10_Ed1_0_SmcExt1_0_Spc1_0.xsd"@,
            ),
            "schemaVersion"@,
            "1"@,
        ),
        "xmlns"@,
        "www.iec.ch/public/TC65SC65BWG7TF10"@,
    );
    let file_header = with_attr(
        with_attr(
            with_attr(element("FileHeader"@), "companyName"@, "OMRON Corporation"@),
            "productName"@,
            "Sysmac Studio"@,
        ),
        "productVersion"@,
        "1.30.0.0"@,
    );
    let content_header = with_attr(
        with_attr(element("ContentHeader"@), "name"@, "Sample"@),
        "creationDateTime"@,
        ts,
    );
    let types = with_child(element("Types"@), element("GlobalNamespace"@));
    let instances = element("Instances"@);
    with_child(with_child(with_child(with_child(project, file_header), content_header), types), instances)
}

/// Build the skeleton document, stamped with the current time.
pub fn get_omron_template() -> (r: Node)
    ensures
        exists|ts: Seq<char>| r@ == omron_template_view(ts) && ts.len() > 0,
{
    let ts = current_timestamp();
    let ghost tsv = ts@;
    let file_header = Node::new_str("FileHeader").attribute_str(
        "companyName",
        "OMRON Corporation",
    ).attribute_str("productName", "Sysmac Studio").attribute_str(
        "productVersion",
        "1.30.0.0",
    );
    let content_header = Node::new_str("ContentHeader").attribute_str("name", "Sample")
        .attribute("creationDateTime".to_owned(), ts);
    let global_namespace = Node::new_str("GlobalNamespace");
    let types = Node::new_str("Types").child(&global_namespace);
    let instances = Node::new_str("Instances");
    let r = Node::new_str("Project").attribute_str(
        "xmlns:xsi",
        "http://www.w3.org/2001/XMLSchema-instance",
    ).attribute_str("xmlns:smcext", "https://www.ia.omron.com/Smc").attribute_str(
        "xsi:schemaLocation",
        OMRON_SCHEMA,
    ).attribute_str("schemaVersion", "1").attribute_str(
        "xmlns",
        "www.iec.ch/public/TC65SC65BWG7TF10",
    ).child(&file_header).child(&content_header).child(&types).child(&instances);
    proof {
        assert(r@ == omron_template_view(tsv));
    }
    r
}

/// Case-insensitive match of one character against a lower-case letter.
pub open spec fn ci_eq(c: char, lower: char) -> bool {
    c == lower || c as int == lower as int - 32
}

/// Whether the text contains the word "string", ignoring letter case.
pub open spec fn has_string_ci(s: Seq<char>) -> bool {
    exists|i: int|
        0 <= i && i + 6 <= s.len() && ci_eq(#[trigger] s[i], 's') && ci_eq(s[i + 1], 't')
            && ci_eq(s[i + 2], 'r') && ci_eq(s[i + 3], 'i') && ci_eq(s[i + 4], 'n') && ci_eq(
            s[i + 5],
            'g',
        )
}

/// The type name actually emitted: string-like types are coerced to a
/// fixed-width placeholder when the vendor quirk is on.
pub open spec fn effective_type_name(t: Seq<char>, omron: bool) -> Seq<char> {
    if omron && has_string_ci(t) {
        "String[1986]"@
    } else {
        t
    }
}

fn char_ci_eq(c: char, lower: char, upper: char) -> (r: bool)
    requires
        upper as int == lower as int - 32,
    ensures
        r == ci_eq(c, lower),
{
    c == lower || c == upper
}

/// Whether the text contains the word "string", ignoring letter case.
fn text_has_string_ci(s: &str) -> (r: bool)
    ensures
        r == has_string_ci(s@),
{
    let len = s.unicode_len();
    if len < 6 {
        return false;
    }
    let mut i: usize = 0;
    while i <= len - 6
        invariant
            len == s@.len(),
            6 <= len,
            i <= len - 5,
            forall|j: int|
                0 <= j < i as int ==> !(ci_eq(#[trigger] s@[j], 's') && ci_eq(s@[j + 1], 't')
                    && ci_eq(s@[j + 2], 'r') && ci_eq(s@[j + 3], 'i') && ci_eq(s@[j + 4], 'n')
                    && ci_eq(s@[j + 5], 'g')),
        decreases len - i,
    {
        let hit = char_ci_eq(s.get_char(i), 's', 'S') && char_ci_eq(s.get_char(i + 1), 't', 'T')
            && char_ci_eq(s.get_char(i + 2), 'r', 'R') && char_ci_eq(s.get_char(i + 3), 'i', 'I')
            && char_ci_eq(s.get_char(i + 4), 'n', 'N') && char_ci_eq(
            s.get_char(i + 5),
            'g',
            'G',
        );
        if hit {
            return true;
        }
        i += 1;
    }
    false
}

/// The type name actually emitted for a declared type.
fn emitted_type_name(t: &String, omron: bool) -> (r: String)
    ensures
        r@ == effective_type_name(t@, omron),
{
    if omron && text_has_string_ci(t.as_str()) {
        proof {
            reveal_strlit("String[1986]");
        }
        "String[1986]".to_owned()
    } else {
        t.clone()
    }
}

/// The `AddData/Data/GlobalVariableAdditionalProperties` subtree
/// recording a variable's network publish mode.
pub open spec fn publish_mode_view(schema: Seq<char>, publish: Seq<char>) -> NodeView {
    with_child(
        element("AddData"@),
        with_child(
            with_attr(
                with_attr(element("Data"@), "name"@, schema),
                "handleUnknown"@,
                "discard"@,
            ),
            with_attr(element("GlobalVariableAdditionalProperties"@), "networkPublish"@, publish),
        ),
    )
}

/// The `Type/TypeName` subtree naming a variable's type.
pub open spec fn type_name_view(t: Seq<char>) -> NodeView {
    with_child(element("Type"@), with_content(element("TypeName"@), t))
}

/// The `InitialValue/SimpleValue` subtree carrying a literal initializer.
pub open spec fn initial_value_view(text: Seq<char>) -> NodeView {
    with_child(
        element("InitialValue"@),
        as_closed(with_attr(element("SimpleValue"@), "value"@, text)),
    )
}

/// The `Address` element carrying a literal address.
pub open spec fn address_view(text: Seq<char>) -> NodeView {
    with_attr(element("Address"@), "address"@, text)
}

/// The `Variable` element one declaration becomes: name, publish-mode
/// subtree, type subtree, then the optional order attribute, optional
/// initial value and optional address. Meaningful only when the
/// declaration has a resolvable type name.
pub open spec fn var_element_view(
    v: PlcVariable,
    omron: bool,
    schema: Seq<char>,
    publish: Seq<char>,
    order: Option<int>,
) -> NodeView {
    let base = with_attr(element("Variable"@), "name"@, v.name@);
    let base = with_child(base, publish_mode_view(schema, publish));
    let base = with_child(
        base,
        type_name_view(effective_type_name(v.declared_type->0@, omron)),
    );
    let base = match order {
        Some(o) => with_attr(base, "orderWithinParamSet"@, int_dec(o)),
        None => base,
    };
    let base = match v.initial_value {
        Some(t) => with_child(base, initial_value_view(t@)),
        None => base,
    };
    match v.address {
        Some(a) => with_child(base, address_view(a@)),
        None => base,
    }
}

/// Shape one declared variable as a `Variable` element, skipping
/// declarations without a resolvable type name.
///
/// When `add_order` is set, the smallest free order number at or above
/// the declaration index is claimed for the unit and rendered as the
/// `orderWithinParamSet` attribute; the error comes exactly when no free
/// number is left. Without `add_order` the tracker is untouched.
pub fn generate_variable_element(
    current_variable: &PlcVariable,
    generation_parameters: &GenerationParameters,
    pou_name: &String,
    schema_path: &str,
    network_publish: &String,
    preused_order: &mut OrderTracker,
    order: usize,
    add_order: bool,
) -> (r: Result<Option<Node>, GenError>)
    ensures
        ({
            let omron = generation_parameters.output_xml_omron;
            match r {
                Ok(opt) => match opt {
                    Some(n) => {
                        &&& current_variable.declared_type is Some
                        &&& if add_order {
                            let picked = spec_claim(
                                old(preused_order).claim_set(),
                                pou_name@,
                                order as int,
                            );
                            &&& picked is Some
                            &&& n@ == var_element_view(
                                *current_variable,
                                omron,
                                schema_path@,
                                network_publish@,
                                Some(picked->0),
                            )
                            &&& final(preused_order).claim_set() == old(
                                preused_order,
                            ).claim_set().insert((pou_name@, picked->0))
                        } else {
                            &&& n@ == var_element_view(
                                *current_variable,
                                omron,
                                schema_path@,
                                network_publish@,
                                None,
                            )
                            &&& *final(preused_order) == *old(preused_order)
                        }
                    },
                    None => {
                        &&& current_variable.declared_type is None
                        &&& *final(preused_order) == *old(preused_order)
                    },
                },
                Err(e) => {
                    &&& e == GenError::OrderExhausted
                    &&& add_order
                    &&& current_variable.declared_type is Some
                    &&& spec_claim(old(preused_order).claim_set(), pou_name@, order as int)
                        is None
                    &&& *final(preused_order) == *old(preused_order)
                },
            }
        }),
{
    let omron = generation_parameters.output_xml_omron;
    let mut variable_node = Node::new_str("Variable").attribute(
        "name".to_owned(),
        current_variable.name.clone(),
    );
    let additional_property_node = Node::new_str("GlobalVariableAdditionalProperties")
        .attribute("networkPublish".to_owned(), network_publish.clone());
    let data_node = Node::new_str("Data").attribute(
        "name".to_owned(),
        schema_path.to_owned(),
    ).attribute_str("handleUnknown", "discard").child(&additional_property_node);
    let adddata_node = Node::new_str("AddData").child(&data_node);
    variable_node = variable_node.child(&adddata_node);
    let declared = match &current_variable.declared_type {
        Some(t) => t,
        None => {
            return Ok(None);
        },
    };
    let typename = emitted_type_name(declared, omron);
    let typename_node = Node::new_str("TypeName").content_borrowed(typename);
    let typenode = Node::new_str("Type").child(&typename_node);
    variable_node = variable_node.child(&typenode);
    if add_order {
        let picked = match preused_order.claim(pou_name, order) {
            Ok(picked) => picked,
            Err(e) => {
                return Err(e);
            },
        };
        variable_node = variable_node.attribute(
            "orderWithinParamSet".to_owned(),
            usize_to_dec(picked),
        );
    }
    if let Some(text) = &current_variable.initial_value {
        let simple_node = Node::new_str("SimpleValue").attribute(
            "value".to_owned(),
            text.clone(),
        ).close();
        let initial_node = Node::new_str("InitialValue").child(&simple_node);
        variable_node = variable_node.child(&initial_node);
    }
    if let Some(address) = &current_variable.address {
        let address_node = Node::new_str("Address").attribute(
            "address".to_owned(),
            address.clone(),
        );
        variable_node = variable_node.child(&address_node);
    }
    Ok(Some(variable_node))
}

/// Whether a global declaration is emitted: it must carry a source
/// location and a resolvable type name.
pub open spec fn global_var_eligible(v: PlcVariable) -> bool {
    v.has_location && v.declared_type is Some
}

/// The `Variable` elements of one global block's declarations, in order,
/// with the ineligible ones omitted.
pub open spec fn global_var_views(
    vars: Seq<PlcVariable>,
    publish: Seq<char>,
    omron: bool,
    schema: Seq<char>,
) -> Seq<NodeView>
    decreases vars.len(),
{
    if vars.len() == 0 {
        Seq::empty()
    } else {
        let head = if global_var_eligible(vars[0]) {
            seq![var_element_view(vars[0], omron, schema, publish, None)]
        } else {
            Seq::empty()
        };
        head + global_var_views(vars.subrange(1, vars.len() as int), publish, omron, schema)
    }
}

/// The elements one block contributes: only global blocks contribute,
/// under their network publish mode.
pub open spec fn block_global_views(b: VarBlock, omron: bool, schema: Seq<char>) -> Seq<
    NodeView,
> {
    match b.kind {
        VarBlockKind::Global(p) => global_var_views(b.variables@, p@, omron, schema),
        _ => Seq::empty(),
    }
}

/// The elements that land in the bucket for one (constant, retain)
/// combination: the contributions of the blocks with exactly those
/// flags, in block order.
pub open spec fn bucket_views(
    blocks: Seq<VarBlock>,
    constant: bool,
    retain: bool,
    omron: bool,
    schema: Seq<char>,
) -> Seq<NodeView>
    decreases blocks.len(),
{
    if blocks.len() == 0 {
        Seq::empty()
    } else {
        let head = if blocks[0].constant == constant && blocks[0].retain == retain {
            block_global_views(blocks[0], omron, schema)
        } else {
            Seq::empty()
        };
        head + bucket_views(
            blocks.subrange(1, blocks.len() as int),
            constant,
            retain,
            omron,
            schema,
        )
    }
}

/// One `GlobalVars` container: its flag attributes and its bucket's
/// elements.
pub open spec fn global_vars_view(
    blocks: Seq<VarBlock>,
    constant: bool,
    retain: bool,
    omron: bool,
    schema: Seq<char>,
) -> NodeView {
    let base = element("GlobalVars"@);
    let base = if constant {
        with_attr(base, "constant"@, "true"@)
    } else {
        base
    };
    let base = if retain {
        with_attr(base, "retain"@, "true"@)
    } else {
        base
    };
    with_children(base, bucket_views(blocks, constant, retain, omron, schema))
}

/// The `Resource` element of one unit: its name, an empty resource type,
/// and the four `GlobalVars` buckets in the fixed order constant+retain,
/// constant, retain, neither.
pub open spec fn resource_view(
    unit_name: Seq<char>,
    blocks: Seq<VarBlock>,
    omron: bool,
    schema: Seq<char>,
) -> NodeView {
    let base = with_attr(
        with_attr(element("Resource"@), "name"@, unit_name + "_Resource"@),
        "resourceTypeName"@,
        ""@,
    );
    let base = with_child(base, global_vars_view(blocks, true, true, omron, schema));
    let base = with_child(base, global_vars_view(blocks, true, false, omron, schema));
    let base = with_child(base, global_vars_view(blocks, false, true, omron, schema));
    with_child(base, global_vars_view(blocks, false, false, omron, schema))
}

/// The `Configuration` element of one unit, holding its `Resource`.
pub open spec fn configuration_view(
    unit_name: Seq<char>,
    blocks: Seq<VarBlock>,
    omron: bool,
    schema: Seq<char>,
) -> NodeView {
    with_child(
        with_attr(element("Configuration"@), "name"@, unit_name + "_Configuration"@),
        resource_view(unit_name, blocks, omron, schema),
    )
}

/// The nodes of one bucket, built in block order.
#[verifier::loop_isolation(false)]
fn bucket_nodes(
    generation_parameters: &GenerationParameters,
    current_unit: &CompilationUnit,
    constant: bool,
    retain: bool,
    schema_path: &str,
    preused_order: &mut OrderTracker,
) -> (r: Vec<Node>)
    ensures
        *final(preused_order) == *old(preused_order),
        views_of(r@) == bucket_views(
            current_unit.global_vars@,
            constant,
            retain,
            generation_parameters.output_xml_omron,
            schema_path@,
        ),
{
    let ghost omron = generation_parameters.output_xml_omron;
    let ghost blocks = current_unit.global_vars@;
    let mut out: Vec<Node> = Vec::new();
    let empty_name = String::new();
    let mut a: usize = 0;
    proof {
        lemma_views_of(out@);
        assert(views_of(out@) =~= bucket_views(
            blocks.subrange(0, 0),
            constant,
            retain,
            omron,
            schema_path@,
        ));
    }
    while a < current_unit.global_vars.len()
        invariant
            a <= current_unit.global_vars.len(),
            *preused_order == *old(preused_order),
            views_of(out@) == bucket_views(
                blocks.subrange(0, a as int),
                constant,
                retain,
                omron,
                schema_path@,
            ),
        decreases current_unit.global_vars.len() - a,
    {
        let current_global = &current_unit.global_vars[a];
        let ghost pre_out = out@;
        if current_global.constant == constant && current_global.retain == retain {
            match &current_global.kind {
                VarBlockKind::Global(publish) => {
                    let ghost vars = current_global.variables@;
                    let mut b: usize = 0;
                    while b < current_global.variables.len()
                        invariant
                            b <= current_global.variables.len(),
                            *preused_order == *old(preused_order),
                            views_of(out@) == views_of(pre_out) + global_var_views(
                                vars.subrange(0, b as int),
                                publish@,
                                omron,
                                schema_path@,
                            ),
                        decreases current_global.variables.len() - b,
                    {
                        let current_variable = &current_global.variables[b];
                        let ghost pre_inner = out@;
                        if current_variable.has_location {
                            let maybe = generate_variable_element(
                                current_variable,
                                generation_parameters,
                                &empty_name,
                                schema_path,
                                publish,
                                preused_order,
                                b,
                                false,
                            );
                            match maybe {
                                Ok(Some(node)) => {
                                    let ghost nv = node@;
                                    out.push(node);
                                    proof {
                                        lemma_views_of(out@);
                                        lemma_views_of(pre_inner);
                                        assert(views_of(out@) =~= views_of(pre_inner).push(
                                            nv,
                                        ));
                                    }
                                },
                                Ok(None) => {
                                },
                                Err(_) => {
                                },
                            }
                        }
                        proof {
                            let prev = global_var_views(
                                vars.subrange(0, b as int),
                                publish@,
                                omron,
                                schema_path@,
                            );
                            let cur = global_var_views(
                                vars.subrange(0, b as int + 1),
                                publish@,
                                omron,
                                schema_path@,
                            );
                            lemma_global_var_views_step(
                                vars,
                                b as int,
                                publish@,
                                omron,
                                schema_path@,
                            );
                            if global_var_eligible(vars[b as int]) {
                                let nv = var_element_view(
                                    vars[b as int],
                                    omron,
                                    schema_path@,
                                    publish@,
                                    None,
                                );
                                assert(cur =~= prev.push(nv));
                                assert(views_of(out@) =~= views_of(pre_out) + cur);
                            } else {
                                assert(cur =~= prev);
                                assert(views_of(out@) =~= views_of(pre_out) + cur);
                            }
                        }
                        b += 1;
                    }
                    proof {
                        assert(vars.subrange(0, vars.len() as int) =~= vars);
                    }
                },
                _ => {
                },
            }
        }
        proof {
            lemma_bucket_views_step(blocks, a as int, constant, retain, omron, schema_path@);
            assert(views_of(out@) =~= bucket_views(
                blocks.subrange(0, a as int + 1),
                constant,
                retain,
                omron,
                schema_path@,
            ));
        }
        a += 1;
    }
    proof {
        assert(blocks.subrange(0, blocks.len() as int) =~= blocks);
    }
    out
}

/// Extending a variable prefix by one appends that variable's element
/// when it is eligible.
proof fn lemma_global_var_views_step(
    vars: Seq<PlcVariable>,
    i: int,
    publish: Seq<char>,
    omron: bool,
    schema: Seq<char>,
)
    requires
        0 <= i < vars.len(),
    ensures
        global_var_views(vars.subrange(0, i + 1), publish, omron, schema) == global_var_views(
            vars.subrange(0, i),
            publish,
            omron,
            schema,
        ) + (if global_var_eligible(vars[i]) {
            seq![var_element_view(vars[i], omron, schema, publish, None)]
        } else {
            Seq::<NodeView>::empty()
        }),
    decreases i,
{
    let a = vars.subrange(0, i);
    let b = vars.subrange(0, i + 1);
    if i == 0 {
        assert(b.subrange(1, b.len() as int) =~= Seq::<PlcVariable>::empty());
        assert(global_var_views(Seq::<PlcVariable>::empty(), publish, omron, schema)
            =~= Seq::<NodeView>::empty());
        assert(global_var_views(a, publish, omron, schema) =~= Seq::<NodeView>::empty());
        assert(global_var_views(b, publish, omron, schema) =~= (if global_var_eligible(
            vars[0],
        ) {
            seq![var_element_view(vars[0], omron, schema, publish, None)]
        } else {
            Seq::<NodeView>::empty()
        }));
    } else {
        let vt = vars.subrange(1, vars.len() as int);
        assert(a.subrange(1, a.len() as int) =~= vt.subrange(0, i - 1));
        assert(b.subrange(1, b.len() as int) =~= vt.subrange(0, i));
        assert(a[0] == vars[0] && b[0] == vars[0]);
        assert(vt[i - 1] == vars[i]);
        lemma_global_var_views_step(vt, i - 1, publish, omron, schema);
        assert(global_var_views(b, publish, omron, schema) =~= global_var_views(
            a,
            publish,
            omron,
            schema,
        ) + (if global_var_eligible(vars[i]) {
            seq![var_element_view(vars[i], omron, schema, publish, None)]
        } else {
            Seq::<NodeView>::empty()
        }));
    }
}

/// Extending a block prefix by one appends that block's contribution
/// when it falls in the bucket.
proof fn lemma_bucket_views_step(
    blocks: Seq<VarBlock>,
    i: int,
    constant: bool,
    retain: bool,
    omron: bool,
    schema: Seq<char>,
)
    requires
        0 <= i < blocks.len(),
    ensures
        bucket_views(blocks.subrange(0, i + 1), constant, retain, omron, schema)
            == bucket_views(blocks.subrange(0, i), constant, retain, omron, schema) + (if
        blocks[i].constant == constant && blocks[i].retain == retain {
            block_global_views(blocks[i], omron, schema)
        } else {
            Seq::<NodeView>::empty()
        }),
    decreases i,
{
    let a = blocks.subrange(0, i);
    let b = blocks.subrange(0, i + 1);
    if i == 0 {
        assert(b.subrange(1, b.len() as int) =~= Seq::<VarBlock>::empty());
        assert(bucket_views(Seq::<VarBlock>::empty(), constant, retain, omron, schema)
            =~= Seq::<NodeView>::empty());
        assert(bucket_views(a, constant, retain, omron, schema) =~= Seq::<NodeView>::empty());
        assert(bucket_views(b, constant, retain, omron, schema) =~= (if blocks[0].constant
            == constant && blocks[0].retain == retain {
            block_global_views(blocks[0], omron, schema)
        } else {
            Seq::<NodeView>::empty()
        }));
    } else {
        let bt = blocks.subrange(1, blocks.len() as int);
        assert(a.subrange(1, a.len() as int) =~= bt.subrange(0, i - 1));
        assert(b.subrange(1, b.len() as int) =~= bt.subrange(0, i));
        assert(a[0] == blocks[0] && b[0] == blocks[0]);
        assert(bt[i - 1] == blocks[i]);
        lemma_bucket_views_step(bt, i - 1, constant, retain, omron, schema);
        assert(bucket_views(b, constant, retain, omron, schema) =~= bucket_views(
            a,
            constant,
            retain,
            omron,
            schema,
        ) + (if blocks[i].constant == constant && blocks[i].retain == retain {
            block_global_views(blocks[i], omron, schema)
        } else {
            Seq::<NodeView>::empty()
        }));
    }
}

/// Whether an expression has the shape of one enum variant assignment:
/// a member reference to an identifier on the left, and on the right a
/// literal, or a binary expression whose right side is a literal.
pub open spec fn enum_assign_wf(e: Expr) -> bool {
    match e {
        Expr::Assignment { left, right } => {
            &&& match *left {
                Expr::MemberReference(m) => *m is Identifier,
                _ => false,
            }
            &&& match *right {
                Expr::Literal(_) => true,
                Expr::BinaryExpression { right: tail } => *tail is Literal,
                _ => false,
            }
        },
        _ => false,
    }
}

/// The variant name of an enum variant assignment.
pub open spec fn assign_name(e: Expr) -> Seq<char> {
    match e {
        Expr::Assignment { left, .. } => match *left {
            Expr::MemberReference(m) => match *m {
                Expr::Identifier(s) => s@,
                _ => arbitrary(),
            },
            _ => arbitrary(),
        },
        _ => arbitrary(),
    }
}

/// The literal initial-value text of an enum variant assignment: the
/// right side's literal, or the literal at the tail of its binary
/// expression.
pub open spec fn assign_value(e: Expr) -> Seq<char> {
    match e {
        Expr::Assignment { right, .. } => match *right {
            Expr::Literal(s) => s@,
            Expr::BinaryExpression { right: tail } => match *tail {
                Expr::Literal(s) => s@,
                _ => arbitrary(),
            },
            _ => arbitrary(),
        },
        _ => arbitrary(),
    }
}

/// Whether an enum initializer expression is well-formed: a list of
/// variant assignments, or a single one.
pub open spec fn enum_elements_wf(e: Expr) -> bool {
    match e {
        Expr::ExpressionList(list) => forall|i: int|
            0 <= i < list@.len() ==> enum_assign_wf(#[trigger] list@[i]),
        Expr::Assignment { .. } => enum_assign_wf(e),
        _ => false,
    }
}

/// The (variant name, initial value text) pairs of a list of variant
/// assignments, in order.
pub open spec fn candidates_of(s: Seq<Expr>) -> Seq<(Seq<char>, Seq<char>)> {
    Seq::new(s.len(), |i: int| (assign_name(s[i]), assign_value(s[i])))
}

/// The candidate pairs an enum initializer expression denotes.
pub open spec fn enum_candidates(e: Expr) -> Seq<(Seq<char>, Seq<char>)> {
    match e {
        Expr::ExpressionList(list) => candidates_of(list@),
        _ => seq![(assign_name(e), assign_value(e))],
    }
}

/// Read one enum variant assignment into its (name, initial value) pair.
pub fn parse_enum_expression(input: &Expr) -> (r: NameAndInitialValue)
    requires
        enum_assign_wf(*input),
    ensures
        r.name@ == assign_name(*input),
        r.initial_value@ == assign_value(*input),
{
    match input {
        Expr::Assignment { left, right } => {
            let name: String = match &**left {
                Expr::MemberReference(m) => match &**m {
                    Expr::Identifier(s) => s.clone(),
                    _ => {
                        proof {
                            assert(false);
                        }
                        String::new()
                    },
                },
                _ => {
                    proof {
                        assert(false);
                    }
                    String::new()
                },
            };
            let value: String = match &**right {
                Expr::Literal(s) => s.clone(),
                Expr::BinaryExpression { right: tail } => match &**tail {
                    Expr::Literal(s) => s.clone(),
                    _ => {
                        proof {
                            assert(false);
                        }
                        String::new()
                    },
                },
                _ => {
                    proof {
                        assert(false);
                    }
                    String::new()
                },
            };
            NameAndInitialValue { name, initial_value: value }
        },
        _ => {
            proof {
                assert(false);
            }
            NameAndInitialValue { name: String::new(), initial_value: String::new() }
        },
    }
}

/// One struct field's `Member` element.
pub open spec fn member_view(v: PlcVariable, omron: bool) -> NodeView {
    with_child(
        with_attr(element("Member"@), "name"@, v.name@),
        type_name_view(effective_type_name(v.declared_type->0@, omron)),
    )
}

/// The `Member` elements of a struct's fields: one per field with a
/// resolvable type name, in field order.
pub open spec fn struct_member_views(vars: Seq<PlcVariable>, omron: bool) -> Seq<NodeView>
    decreases vars.len(),
{
    if vars.len() == 0 {
        Seq::empty()
    } else {
        let head = if vars[0].declared_type is Some {
            seq![member_view(vars[0], omron)]
        } else {
            Seq::empty()
        };
        head + struct_member_views(vars.subrange(1, vars.len() as int), omron)
    }
}

/// The `DataTypeDecl` of one struct type, or nothing when no field has a
/// resolvable type name.
pub open spec fn struct_decl_view(
    name: Seq<char>,
    vars: Seq<PlcVariable>,
    omron: bool,
) -> Option<NodeView> {
    let ms = struct_member_views(vars, omron);
    if ms.len() == 0 {
        None
    } else {
        Some(
            with_child(
                with_attr(element("DataTypeDecl"@), "name"@, name),
                with_children(
                    with_attr(element("UserDefinedTypeSpec"@), "xsi:type"@, "StructTypeSpec"@),
                    ms,
                ),
            ),
        )
    }
}

/// The `DataTypeDecl` of one enum type: its resolved enumerators followed
/// by the `BaseType`, which the schema demands last. The error comes
/// exactly when conflict resolution runs out of representable values.
pub open spec fn enum_decl_view(
    name: Seq<char>,
    numeric_type: Seq<char>,
    elements: Expr,
) -> Result<NodeView, GenError> {
    let cands = enum_candidates(elements);
    let vals = Seq::new(cands.len(), |i: int| cands[i].1);
    match resolve_values(vals, Seq::empty()) {
        None => Err(GenError::ValueExhausted),
        Some(rs) => Ok(
            with_child(
                with_attr(element("DataTypeDecl"@), "name"@, name),
                with_child(
                    with_children(
                        with_attr(
                            element("UserDefinedTypeSpec"@),
                            "xsi:type"@,
                            "EnumTypeWithNamedValueSpec"@,
                        ),
                        Seq::new(cands.len(), |i: int| enumerator_view(cands[i].0, rs[i])),
                    ),
                    with_content(element("BaseType"@), numeric_type),
                ),
            ),
        ),
    }
}

/// What one user-defined type declaration contributes: nothing for
/// synthesized, anonymous, empty-struct or unsupported declarations, one
/// `DataTypeDecl` otherwise; fatal only when enum resolution runs out of
/// values.
pub open spec fn type_decl_of(t: UserTypeDeclaration, omron: bool) -> Result<
    Option<NodeView>,
    GenError,
> {
    if !t.has_location {
        Ok(None)
    } else {
        match t.data_type {
            UserTypeData::Struct { name, variables } => match name {
                Some(n) => Ok(struct_decl_view(n@, variables@, omron)),
                None => Ok(None),
            },
            UserTypeData::Enum { name, numeric_type, elements } => match name {
                Some(n) => match enum_decl_view(n@, numeric_type@, elements) {
                    Ok(d) => Ok(Some(d)),
                    Err(e) => Err(e),
                },
                None => Ok(None),
            },
            UserTypeData::Other => Ok(None),
        }
    }
}

/// The `DataTypeDecl` elements of a unit's type declarations, in order;
/// fatal at the first enum whose resolution runs out of values.
pub open spec fn type_decls_of(ts: Seq<UserTypeDeclaration>, omron: bool) -> Result<
    Seq<NodeView>,
    GenError,
>
    decreases ts.len(),
{
    if ts.len() == 0 {
        Ok(Seq::empty())
    } else {
        match type_decl_of(ts[0], omron) {
            Err(e) => Err(e),
            Ok(head) => match type_decls_of(ts.subrange(1, ts.len() as int), omron) {
                Err(e) => Err(e),
                Ok(rest) => Ok(
                    (match head {
                        Some(d) => seq![d],
                        None => Seq::empty(),
                    }) + rest,
                ),
            },
        }
    }
}

/// A well-formed type declaration: an emitted enum's initializer has the
/// expected assignment shape and its values are decimal 32-bit integers.
pub open spec fn user_type_wf(t: UserTypeDeclaration) -> bool {
    match t.data_type {
        UserTypeData::Enum { name, elements, .. } => {
            t.has_location && name is Some ==> {
                &&& enum_elements_wf(elements)
                &&& forall|j: int|
                    0 <= j < enum_candidates(elements).len() ==> is_dec_i32(
                        (#[trigger] enum_candidates(elements)[j]).1,
                    )
            }
        },
        _ => true,
    }
}

/// The variable containers accumulated while classifying one procedural
/// unit's declarations, together with the run-wide claim set.
#[verifier::ext_equal]
pub ghost struct PouVars {
    pub input: Seq<NodeView>,
    pub output: Seq<NodeView>,
    pub inout: Seq<NodeView>,
    pub externals: Seq<NodeView>,
    pub constant_externals: Seq<NodeView>,
    pub vars: Seq<NodeView>,
    pub constant_vars: Seq<NodeView>,
    pub retain_vars: Seq<NodeView>,
    pub constant_retain_vars: Seq<NodeView>,
    pub temp: Seq<NodeView>,
    pub constant_temp: Seq<NodeView>,
    pub claims: Set<(Seq<char>, int)>,
}

/// Empty containers over the given claim set.
pub open spec fn pou_vars_init(claims: Set<(Seq<char>, int)>) -> PouVars {
    PouVars {
        input: Seq::empty(),
        output: Seq::empty(),
        inout: Seq::empty(),
        externals: Seq::empty(),
        constant_externals: Seq::empty(),
        vars: Seq::empty(),
        constant_vars: Seq::empty(),
        retain_vars: Seq::empty(),
        constant_retain_vars: Seq::empty(),
        temp: Seq::empty(),
        constant_temp: Seq::empty(),
        claims,
    }
}

/// Classify one declared variable into its container.
///
/// Input, output and in-out variables are order-sensitive: the smallest
/// free order number at or above the declaration index is claimed for
/// the unit, and exhaustion of the representable range is fatal. Local,
/// temp and external variables carry no order number, and variables of
/// any other role, without a source location or without a resolvable
/// type name are dropped.
pub open spec fn pou_var_step(
    acc: PouVars,
    v: PlcVariable,
    block: VarBlock,
    idx: int,
    pou: Seq<char>,
    omron: bool,
    schema: Seq<char>,
) -> Result<PouVars, GenError> {
    if !v.has_location || !(v.declared_type is Some) {
        Ok(acc)
    } else {
        let publish = "DoNotPublish"@;
        match block.kind {
            VarBlockKind::Input | VarBlockKind::Output | VarBlockKind::InOut => {
                match spec_claim(acc.claims, pou, idx) {
                    None => Err(GenError::OrderExhausted),
                    Some(o) => {
                        let e = var_element_view(v, omron, schema, publish, Some(o));
                        let acc = PouVars { claims: acc.claims.insert((pou, o)), ..acc };
                        Ok(
                            match block.kind {
                                VarBlockKind::Input => PouVars {
                                    input: acc.input.push(e),
                                    ..acc
                                },
                                VarBlockKind::Output => PouVars {
                                    output: acc.output.push(e),
                                    ..acc
                                },
                                _ => PouVars { inout: acc.inout.push(e), ..acc },
                            },
                        )
                    },
                }
            },
            VarBlockKind::Local => {
                let e = var_element_view(v, omron, schema, publish, None);
                Ok(
                    if block.constant && block.retain {
                        PouVars { constant_retain_vars: acc.constant_retain_vars.push(e), ..acc }
                    } else if block.constant {
                        PouVars { constant_vars: acc.constant_vars.push(e), ..acc }
                    } else if block.retain {
                        PouVars { retain_vars: acc.retain_vars.push(e), ..acc }
                    } else {
                        PouVars { vars: acc.vars.push(e), ..acc }
                    },
                )
            },
            VarBlockKind::Temp => {
                let e = var_element_view(v, omron, schema, publish, None);
                Ok(
                    if block.constant {
                        PouVars { constant_temp: acc.constant_temp.push(e), ..acc }
                    } else {
                        PouVars { temp: acc.temp.push(e), ..acc }
                    },
                )
            },
            VarBlockKind::External => {
                let e = var_element_view(v, omron, schema, publish, None);
                Ok(
                    if block.constant {
                        PouVars { constant_externals: acc.constant_externals.push(e), ..acc }
                    } else {
                        PouVars { externals: acc.externals.push(e), ..acc }
                    },
                )
            },
            VarBlockKind::Global(_) => Ok(acc),
        }
    }
}

/// Classify a block's variables from `idx` on, in declaration order.
pub open spec fn pou_vars_fold(
    acc: Result<PouVars, GenError>,
    block: VarBlock,
    vars: Seq<PlcVariable>,
    idx: int,
    pou: Seq<char>,
    omron: bool,
    schema: Seq<char>,
) -> Result<PouVars, GenError>
    decreases vars.len(),
{
    match acc {
        Err(e) => Err(e),
        Ok(a) => {
            if vars.len() == 0 {
                Ok(a)
            } else {
                pou_vars_fold(
                    pou_var_step(a, vars[0], block, idx, pou, omron, schema),
                    block,
                    vars.subrange(1, vars.len() as int),
                    idx + 1,
                    pou,
                    omron,
                    schema,
                )
            }
        },
    }
}

/// Classify every block of a procedural unit, in block order.
pub open spec fn pou_blocks_fold(
    acc: Result<PouVars, GenError>,
    blocks: Seq<VarBlock>,
    pou: Seq<char>,
    omron: bool,
    schema: Seq<char>,
) -> Result<PouVars, GenError>
    decreases blocks.len(),
{
    if blocks.len() == 0 {
        acc
    } else {
        pou_blocks_fold(
            pou_vars_fold(acc, blocks[0], blocks[0].variables@, 0, pou, omron, schema),
            blocks.subrange(1, blocks.len() as int),
            pou,
            omron,
            schema,
        )
    }
}

/// The `AddData/Data/PouInfo` subtree carrying the vendor metadata of a
/// procedural unit: a version placeholder and the creation timestamp.
pub open spec fn pou_info_view(schema: Seq<char>, ts: Seq<char>) -> NodeView {
    with_child(
        element("AddData"@),
        with_child(
            with_attr(
                with_attr(element("Data"@), "name"@, schema),
                "handleUnknown"@,
                "discard"@,
            ),
            with_attr(
                with_attr(element("PouInfo"@), "version"@, "0.0.0"@),
                "creationDateTime"@,
                ts,
            ),
        ),
    )
}

/// The `ResultType` of a function or function block: its declared return
/// type's name, or a boolean type name when absent or not applicable.
pub open spec fn result_type_view(kind: PouType, rt: Option<Seq<char>>) -> NodeView {
    let name = if (kind is Function || kind is FunctionBlock) && rt is Some {
        rt->0
    } else {
        "BOOL"@
    };
    with_child(element("ResultType"@), with_content(element("TypeName"@), name))
}

/// The `MainBody` of a procedural unit: one statement-text leaf inside
/// the schema's body scaffold; an empty body leaves the leaf empty.
pub open spec fn main_body_view(body: Seq<char>) -> NodeView {
    let st = if body.len() > 0 {
        with_content(element("ST"@), body)
    } else {
        element("ST"@)
    };
    with_child(
        element("MainBody"@),
        with_child(with_attr(element("BodyContent"@), "xsi:type"@, "ST"@), st),
    )
}

/// The `Parameters` container: input, in-out and output lists, in that
/// order.
pub open spec fn parameters_view(pv: PouVars) -> NodeView {
    with_child(
        with_child(
            with_child(element("Parameters"@), with_children(element("InputVars"@), pv.input)),
            with_children(element("InoutVars"@), pv.inout),
        ),
        with_children(element("OutputVars"@), pv.output),
    )
}

pub open spec fn externals_view(pv: PouVars) -> NodeView {
    with_children(element("ExternalVars"@), pv.externals)
}

pub open spec fn constant_externals_view(pv: PouVars) -> NodeView {
    with_children(
        with_attr(element("ExternalVars"@), "constant"@, "true"@),
        pv.constant_externals,
    )
}

pub open spec fn local_vars_view(pv: PouVars) -> NodeView {
    with_children(with_attr(element("SVars"@), "accessSpecifier"@, "private"@), pv.vars)
}

pub open spec fn constant_vars_view(pv: PouVars) -> NodeView {
    with_children(
        with_attr(
            with_attr(element("SVars"@), "accessSpecifier"@, "private"@),
            "constant"@,
            "true"@,
        ),
        pv.constant_vars,
    )
}

pub open spec fn retain_vars_view(pv: PouVars) -> NodeView {
    with_children(
        with_attr(
            with_attr(element("SVars"@), "accessSpecifier"@, "private"@),
            "retain"@,
            "true"@,
        ),
        pv.retain_vars,
    )
}

pub open spec fn constant_retain_vars_view(pv: PouVars) -> NodeView {
    with_children(
        with_attr(
            with_attr(
                with_attr(element("SVars"@), "accessSpecifier"@, "private"@),
                "constant"@,
                "true"@,
            ),
            "retain"@,
            "true"@,
        ),
        pv.constant_retain_vars,
    )
}

pub open spec fn temp_vars_view(pv: PouVars) -> NodeView {
    with_children(element("TempVars"@), pv.temp)
}

pub open spec fn constant_temp_vars_view(pv: PouVars) -> NodeView {
    with_children(with_attr(element("TempVars"@), "constant"@, "true"@), pv.constant_temp)
}

/// The finished element of one procedural unit: `Program`, `Function` or
/// `FunctionBlock` by kind, with its name, vendor metadata, result type
/// where applicable, variable containers in schema-mandated order, and
/// its body.
pub open spec fn pou_element_view(
    kind: PouType,
    name: Seq<char>,
    rt: Option<Seq<char>>,
    pv: PouVars,
    body: Seq<char>,
    omron: bool,
    schema: Seq<char>,
    ts: Seq<char>,
) -> NodeView {
    let adddata = pou_info_view(schema, ts);
    let mb = main_body_view(body);
    match kind {
        PouType::Program => {
            let base = with_attr(element("Program"@), "name"@, name);
            let base = with_child(base, adddata);
            let base = with_child(base, externals_view(pv));
            let base = with_child(base, constant_externals_view(pv));
            let base = with_child(base, local_vars_view(pv));
            let base = with_child(base, constant_vars_view(pv));
            let base = with_child(base, retain_vars_view(pv));
            let base = with_child(base, constant_retain_vars_view(pv));
            with_child(base, mb)
        },
        PouType::Function => {
            let base = with_attr(element("Function"@), "name"@, name);
            let base = with_child(base, adddata);
            let base = with_child(base, result_type_view(kind, rt));
            let base = with_child(base, parameters_view(pv));
            let base = with_child(base, externals_view(pv));
            let base = with_child(base, constant_externals_view(pv));
            let base = with_child(base, temp_vars_view(pv));
            let base = with_child(base, constant_temp_vars_view(pv));
            with_child(base, mb)
        },
        _ => {
            let base = with_attr(element("FunctionBlock"@), "name"@, name);
            let base = with_child(base, adddata);
            let base = with_child(base, result_type_view(kind, rt));
            let base = with_child(base, parameters_view(pv));
            let base = with_child(base, externals_view(pv));
            let base = with_child(base, constant_externals_view(pv));
            let base = with_child(base, local_vars_view(pv));
            with_child(base, mb)
        },
    }
}

/// Index of the first declared unit with the given name, or -1.
pub open spec fn find_pou(pous: Seq<Pou>, name: Seq<char>) -> int
    decreases pous.len(),
{
    if pous.len() == 0 {
        -1
    } else if pous[0].name@ == name {
        0
    } else {
        let r = find_pou(pous.subrange(1, pous.len() as int), name);
        if r == -1 {
            -1
        } else {
            r + 1
        }
    }
}

/// Whether one implementation is translated at all: its kind is one of
/// the three generated kinds, it is not externally linked, and its body
/// text was resolved.
pub open spec fn pou_eligible(imp: Implementation) -> bool {
    &&& imp.pou_type.is_generated()
    &&& !(imp.linkage is External)
    &&& imp.body is Some
}

/// What one implementation contributes, given the containers' fold.
pub open spec fn pou_step(
    imp: Implementation,
    pous: Seq<Pou>,
    acc: Seq<NodeView>,
    claims: Set<(Seq<char>, int)>,
    omron: bool,
    schema: Seq<char>,
    ts: Seq<char>,
) -> Result<(Seq<NodeView>, Set<(Seq<char>, int)>), GenError> {
    if !pou_eligible(imp) {
        Ok((acc, claims))
    } else {
        let meta = pous[find_pou(pous, imp.name@)];
        match pou_blocks_fold(
            Ok(pou_vars_init(claims)),
            meta.variable_blocks@,
            meta.name@,
            omron,
            schema,
        ) {
            Err(e) => Err(e),
            Ok(pv) => {
                let rt = match meta.return_type_name {
                    Some(t) => Some(t@),
                    None => None,
                };
                Ok(
                    (
                        acc.push(
                            pou_element_view(
                                imp.pou_type,
                                imp.name@,
                                rt,
                                pv,
                                imp.body->0@,
                                omron,
                                schema,
                                ts,
                            ),
                        ),
                        pv.claims,
                    ),
                )
            },
        }
    }
}

/// The elements of a unit's implementations from the front, threading
/// the accumulated elements and the run-wide claim set; each element is
/// stamped with its own timestamp from `tss`.
pub open spec fn pous_fold(
    imps: Seq<Implementation>,
    pous: Seq<Pou>,
    acc: Seq<NodeView>,
    claims: Set<(Seq<char>, int)>,
    omron: bool,
    schema: Seq<char>,
    tss: Seq<Seq<char>>,
) -> Result<(Seq<NodeView>, Set<(Seq<char>, int)>), GenError>
    decreases imps.len(),
{
    if imps.len() == 0 {
        Ok((acc, claims))
    } else {
        match pou_step(imps[0], pous, acc, claims, omron, schema, tss[0]) {
            Err(e) => Err(e),
            Ok((acc2, claims2)) => pous_fold(
                imps.subrange(1, imps.len() as int),
                pous,
                acc2,
                claims2,
                omron,
                schema,
                tss.subrange(1, tss.len() as int),
            ),
        }
    }
}

/// Processing a prefix first and the rest after gives the same fold.
proof fn lemma_pous_fold_split(
    imps: Seq<Implementation>,
    pous: Seq<Pou>,
    acc: Seq<NodeView>,
    claims: Set<(Seq<char>, int)>,
    omron: bool,
    schema: Seq<char>,
    tss: Seq<Seq<char>>,
    i: int,
)
    requires
        0 <= i <= imps.len(),
        imps.len() <= tss.len(),
    ensures
        pous_fold(imps, pous, acc, claims, omron, schema, tss) == (match pous_fold(
            imps.subrange(0, i),
            pous,
            acc,
            claims,
            omron,
            schema,
            tss.subrange(0, i),
        ) {
            Err(e) => Err(e),
            Ok((a2, c2)) => pous_fold(
                imps.subrange(i, imps.len() as int),
                pous,
                a2,
                c2,
                omron,
                schema,
                tss.subrange(i, tss.len() as int),
            ),
        }),
    decreases i,
{
    if i == 0 {
        assert(imps.subrange(0, 0) =~= Seq::<Implementation>::empty());
        assert(imps.subrange(0, imps.len() as int) =~= imps);
        assert(tss.subrange(0, tss.len() as int) =~= tss);
    } else {
        let it = imps.subrange(1, imps.len() as int);
        let tt = tss.subrange(1, tss.len() as int);
        assert(imps.subrange(0, i)[0] == imps[0]);
        assert(imps.subrange(0, i).subrange(1, i) =~= it.subrange(0, i - 1));
        assert(tss.subrange(0, i).subrange(1, i) =~= tt.subrange(0, i - 1));
        assert(imps.subrange(i, imps.len() as int) =~= it.subrange(i - 1, it.len() as int));
        assert(tss.subrange(i, tss.len() as int) =~= tt.subrange(i - 1, tt.len() as int));
        match pou_step(imps[0], pous, acc, claims, omron, schema, tss[0]) {
            Err(_) => {
            },
            Ok((a2, c2)) => {
                lemma_pous_fold_split(it, pous, a2, c2, omron, schema, tt, i - 1);
            },
        }
    }
}

/// A failed classification stays failed through the remaining blocks.
proof fn lemma_blocks_fold_err(
    e: GenError,
    blocks: Seq<VarBlock>,
    pou: Seq<char>,
    omron: bool,
    schema: Seq<char>,
)
    ensures
        pou_blocks_fold(Err(e), blocks, pou, omron, schema) == Err::<PouVars, GenError>(e),
    decreases blocks.len(),
{
    if blocks.len() > 0 {
        lemma_blocks_fold_err(e, blocks.subrange(1, blocks.len() as int), pou, omron, schema);
    }
}

/// `find_pou` returns the first index whose unit has the name, or -1
/// when none has it.
proof fn lemma_find_pou(pous: Seq<Pou>, name: Seq<char>)
    ensures
        find_pou(pous, name) == -1 ==> (forall|i: int|
            0 <= i < pous.len() ==> (#[trigger] pous[i]).name@ != name),
        find_pou(pous, name) != -1 ==> {
            let f = find_pou(pous, name);
            &&& 0 <= f < pous.len()
            &&& pous[f].name@ == name
            &&& forall|i: int| 0 <= i < f ==> (#[trigger] pous[i]).name@ != name
        },
    decreases pous.len(),
{
    if pous.len() > 0 && pous[0].name@ != name {
        let t = pous.subrange(1, pous.len() as int);
        lemma_find_pou(t, name);
        if find_pou(pous, name) == -1 {
            assert forall|i: int| 0 <= i < pous.len() implies (#[trigger] pous[i]).name@
                != name by {
                if i > 0 {
                    assert(pous[i] == t[i - 1]);
                }
            }
        } else {
            let f = find_pou(pous, name);
            assert(f == find_pou(t, name) + 1);
            assert(pous[f] == t[f - 1]);
            assert forall|i: int| 0 <= i < f implies (#[trigger] pous[i]).name@ != name by {
                if i > 0 {
                    assert(pous[i] == t[i - 1]);
                }
            }
        }
    }
}

/// The index of the first declared unit with the given name.
fn find_pou_index(pous: &Vec<Pou>, name: &String) -> (r: Option<usize>)
    ensures
        match r {
            Some(i) => i < pous@.len() && find_pou(pous@, name@) == i as int,
            None => find_pou(pous@, name@) == -1,
        },
{
    proof {
        lemma_find_pou(pous@, name@);
    }
    let mut i: usize = 0;
    while i < pous.len()
        invariant
            i <= pous.len(),
            forall|j: int| 0 <= j < i as int ==> (#[trigger] pous@[j]).name@ != name@,
        decreases pous.len() - i,
    {
        if pous[i].name.eq(name) {
            proof {
                lemma_find_pou(pous@, name@);
                let f = find_pou(pous@, name@);
                if f == -1 {
                    assert(pous@[i as int].name@ != name@);
                } else if f < i as int {
                    assert(pous@[f].name@ != name@);
                } else if f > i as int {
                    assert(pous@[i as int].name@ != name@);
                }
            }
            return Some(i);
        }
        i += 1;
    }
    proof {
        lemma_find_pou(pous@, name@);
        let f = find_pou(pous@, name@);
        if f != -1 {
            assert(pous@[f].name@ != name@);
        }
    }
    None
}

/// The container state the given node vectors stand for.
pub open spec fn pv_state(
    input: Seq<Node>,
    output: Seq<Node>,
    inout: Seq<Node>,
    externals: Seq<Node>,
    constant_externals: Seq<Node>,
    vars: Seq<Node>,
    constant_vars: Seq<Node>,
    retain_vars: Seq<Node>,
    constant_retain_vars: Seq<Node>,
    temp: Seq<Node>,
    constant_temp: Seq<Node>,
    claims: Set<(Seq<char>, int)>,
) -> PouVars {
    PouVars {
        input: views_of(input),
        output: views_of(output),
        inout: views_of(inout),
        externals: views_of(externals),
        constant_externals: views_of(constant_externals),
        vars: views_of(vars),
        constant_vars: views_of(constant_vars),
        retain_vars: views_of(retain_vars),
        constant_retain_vars: views_of(constant_retain_vars),
        temp: views_of(temp),
        constant_temp: views_of(constant_temp),
        claims,
    }
}

/// Extending a field prefix by one appends that field's `Member` when it
/// has a resolvable type name.
proof fn lemma_struct_members_step(vars: Seq<PlcVariable>, i: int, omron: bool)
    requires
        0 <= i < vars.len(),
    ensures
        struct_member_views(vars.subrange(0, i + 1), omron) == struct_member_views(
            vars.subrange(0, i),
            omron,
        ) + (if vars[i].declared_type is Some {
            seq![member_view(vars[i], omron)]
        } else {
            Seq::<NodeView>::empty()
        }),
    decreases i,
{
    let a = vars.subrange(0, i);
    let b = vars.subrange(0, i + 1);
    if i == 0 {
        assert(b.subrange(1, b.len() as int) =~= Seq::<PlcVariable>::empty());
        assert(struct_member_views(Seq::<PlcVariable>::empty(), omron)
            =~= Seq::<NodeView>::empty());
        assert(struct_member_views(a, omron) =~= Seq::<NodeView>::empty());
        assert(struct_member_views(b, omron) =~= (if vars[0].declared_type is Some {
            seq![member_view(vars[0], omron)]
        } else {
            Seq::<NodeView>::empty()
        }));
    } else {
        let vt = vars.subrange(1, vars.len() as int);
        assert(a.subrange(1, a.len() as int) =~= vt.subrange(0, i - 1));
        assert(b.subrange(1, b.len() as int) =~= vt.subrange(0, i));
        assert(a[0] == vars[0] && b[0] == vars[0]);
        assert(vt[i - 1] == vars[i]);
        lemma_struct_members_step(vt, i - 1, omron);
        assert(struct_member_views(b, omron) =~= struct_member_views(a, omron) + (if
        vars[i].declared_type is Some {
            seq![member_view(vars[i], omron)]
        } else {
            Seq::<NodeView>::empty()
        }));
    }
}

/// The `Member` nodes of a struct's fields.
#[verifier::loop_isolation(false)]
fn struct_member_nodes(
    variables: &Vec<PlcVariable>,
    generation_parameters: &GenerationParameters,
) -> (r: Vec<Node>)
    ensures
        views_of(r@) == struct_member_views(
            variables@,
            generation_parameters.output_xml_omron,
        ),
{
    let ghost omron = generation_parameters.output_xml_omron;
    let ghost vars = variables@;
    let mut members: Vec<Node> = Vec::new();
    proof {
        lemma_views_of(members@);
        assert(views_of(members@) =~= struct_member_views(vars.subrange(0, 0), omron));
    }
    let mut b: usize = 0;
    while b < variables.len()
        invariant
            b <= variables.len(),
            views_of(members@) == struct_member_views(vars.subrange(0, b as int), omron),
        decreases variables.len() - b,
    {
        let current_variable = &variables[b];
        let ghost pre = members@;
        if let Some(declared) = &current_variable.declared_type {
            let typename = emitted_type_name(declared, generation_parameters.output_xml_omron);
            let typename_node = Node::new_str("TypeName").content_borrowed(typename);
            let type_node = Node::new_str("Type").child(&typename_node);
            let member_node = Node::new_str("Member").attribute(
                "name".to_owned(),
                current_variable.name.clone(),
            ).child(&type_node);
            let ghost mv = member_node@;
            members.push(member_node);
            proof {
                lemma_views_of(members@);
                lemma_views_of(pre);
                assert(views_of(members@) =~= views_of(pre).push(mv));
            }
        }
        proof {
            lemma_struct_members_step(vars, b as int, omron);
            if vars[b as int].declared_type is Some {
                assert(struct_member_views(vars.subrange(0, b as int + 1), omron)
                    =~= struct_member_views(vars.subrange(0, b as int), omron).push(
                    member_view(vars[b as int], omron),
                ));
            } else {
                assert(struct_member_views(vars.subrange(0, b as int + 1), omron)
                    =~= struct_member_views(vars.subrange(0, b as int), omron));
            }
            assert(views_of(members@) =~= struct_member_views(
                vars.subrange(0, b as int + 1),
                omron,
            ));
        }
        b += 1;
    }
    proof {
        assert(vars.subrange(0, vars.len() as int) =~= vars);
    }
    members
}

/// The enumerator candidates of a well-formed enum initializer.
#[verifier::loop_isolation(false)]
fn extract_enum_candidates(elements: &Expr) -> (r: Vec<NameAndInitialValue>)
    requires
        enum_elements_wf(*elements),
    ensures
        r@.len() == enum_candidates(*elements).len(),
        forall|j: int|
            0 <= j < r@.len() ==> (#[trigger] r@[j]).name@ == enum_candidates(*elements)[j].0
                && r@[j].initial_value@ == enum_candidates(*elements)[j].1,
{
    let ghost cands = enum_candidates(*elements);
    match elements {
        Expr::ExpressionList(list) => {
            let mut variants: Vec<NameAndInitialValue> = Vec::new();
            let mut j: usize = 0;
            while j < list.len()
                invariant
                    j <= list.len(),
                    variants@.len() == j as int,
                    forall|k: int|
                        0 <= k < j as int ==> (#[trigger] variants@[k]).name@ == cands[k].0
                            && variants@[k].initial_value@ == cands[k].1,
                decreases list.len() - j,
            {
                let v = parse_enum_expression(&list[j]);
                variants.push(v);
                j += 1;
            }
            variants
        },
        Expr::Assignment { .. } => {
            let mut variants: Vec<NameAndInitialValue> = Vec::new();
            let v = parse_enum_expression(elements);
            variants.push(v);
            variants
        },
        _ => {
            proof {
                assert(false);
            }
            Vec::new()
        },
    }
}

/// A struct type declaration with no resolvable-typed field produces no
/// `DataTypeDecl` output at all.
pub proof fn lemma_empty_struct_dropped(name: Seq<char>, vars: Seq<PlcVariable>, omron: bool)
    requires
        forall|i: int|
            0 <= i < vars.len() ==> !((#[trigger] vars[i]).declared_type is Some),
    ensures
        struct_decl_view(name, vars, omron) is None,
    decreases vars.len(),
{
    if vars.len() > 0 {
        let t = vars.subrange(1, vars.len() as int);
        assert forall|i: int| 0 <= i < t.len() implies !((#[trigger] t[i]).declared_type
            is Some) by {
            assert(t[i] == vars[i + 1]);
        }
        lemma_empty_struct_dropped(name, t, omron);
    }
}

/// A global declaration without a resolvable type name is absent from
/// the generated containers, and removing it changes nothing else: its
/// siblings are still emitted exactly as before.
pub proof fn lemma_unresolved_global_omitted(
    vars: Seq<PlcVariable>,
    i: int,
    publish: Seq<char>,
    omron: bool,
    schema: Seq<char>,
)
    requires
        0 <= i < vars.len(),
        !global_var_eligible(vars[i]),
    ensures
        global_var_views(vars, publish, omron, schema) == global_var_views(
            vars.remove(i),
            publish,
            omron,
            schema,
        ),
    decreases vars.len(),
{
    let rem = vars.remove(i);
    if i == 0 {
        assert(rem =~= vars.subrange(1, vars.len() as int));
    } else {
        let t = vars.subrange(1, vars.len() as int);
        assert(t[i - 1] == vars[i]);
        lemma_unresolved_global_omitted(t, i - 1, publish, omron, schema);
        assert(rem[0] == vars[0]);
        assert(rem.subrange(1, rem.len() as int) =~= t.remove(i - 1));
    }
}

/// Append one unit's `DataTypeDecl` elements under the skeleton's
/// `Types/GlobalNamespace` anchor.
///
/// Synthesized and anonymous declarations are skipped, a struct with no
/// resolvable-typed field is dropped whole, and an enum's enumerators are
/// conflict-resolved and followed by its `BaseType`. A missing anchor
/// aborts the pass with the document unchanged; an enum that exhausts
/// the representable values is fatal, also with the document unchanged.
#[verifier::loop_isolation(false)]
pub fn generate_custom_types(
    generation_parameters: &GenerationParameters,
    current_unit: &CompilationUnit,
    output_root: &mut Node,
) -> (r: Result<(), GenError>)
    requires
        forall|i: int|
            0 <= i < current_unit.user_types@.len() ==> user_type_wf(
                #[trigger] current_unit.user_types@[i],
            ),
    ensures
        ({
            let omron = generation_parameters.output_xml_omron;
            let ts = current_unit.user_types@;
            let f1 = find_child(old(output_root)@.children, "Types"@);
            let anchors_ok = f1 >= 0 && find_child(
                old(output_root)@.children[f1].children,
                "GlobalNamespace"@,
            ) >= 0;
            match r {
                Ok(()) => {
                    let f2 = find_child(old(output_root)@.children[f1].children, "GlobalNamespace"@);
                    &&& anchors_ok
                    &&& type_decls_of(ts, omron) is Ok
                    &&& final(output_root)@ == (NodeView {
                        children: old(output_root)@.children.update(
                            f1,
                            NodeView {
                                children: old(output_root)@.children[f1].children.update(
                                    f2,
                                    with_children(
                                        old(output_root)@.children[f1].children[f2],
                                        type_decls_of(ts, omron)->Ok_0,
                                    ),
                                ),
                                ..old(output_root)@.children[f1]
                            },
                        ),
                        ..old(output_root)@
                    })
                },
                Err(e) => {
                    &&& *final(output_root) == *old(output_root)
                    &&& if e == GenError::AnchorNotFound {
                        !anchors_ok
                    } else {
                        e == GenError::ValueExhausted && anchors_ok && type_decls_of(ts, omron)
                            == Err::<Seq<NodeView>, GenError>(GenError::ValueExhausted)
                    }
                },
            }
        }),
{
    let ghost omron = generation_parameters.output_xml_omron;
    let ghost ts = current_unit.user_types@;
    let types_anchor = TYPES.to_owned();
    let gn_anchor = GLOBAL_NAMESPACE.to_owned();
    let idx1 = match output_root.find_child_index(&types_anchor) {
        Some(idx1) => idx1,
        None => {
            return Err(GenError::AnchorNotFound);
        },
    };
    let idx2 = match output_root.children[idx1].find_child_index(&gn_anchor) {
        Some(idx2) => idx2,
        None => {
            proof {
                lemma_views_of(output_root.children@);
                assert(old(output_root)@.children[idx1 as int] == output_root.children@[idx1
                    as int]@);
            }
            return Err(GenError::AnchorNotFound);
        },
    };
    proof {
        lemma_views_of(output_root.children@);
        assert(output_root@.children[idx1 as int] == output_root.children@[idx1 as int]@);
    }
    let mut decls: Vec<Node> = Vec::new();
    let mut i: usize = 0;
    proof {
        lemma_views_of(decls@);
        assert(ts.subrange(0, ts.len() as int) =~= ts);
        assert(views_of(decls@) =~= Seq::<NodeView>::empty());
    }
    while i < current_unit.user_types.len()
        invariant
            i <= current_unit.user_types.len(),
            *output_root == *old(output_root),
            match type_decls_of(ts.subrange(i as int, ts.len() as int), omron) {
                Err(e) => type_decls_of(ts, omron) == Err::<Seq<NodeView>, GenError>(e),
                Ok(rest) => type_decls_of(ts, omron) == Ok::<Seq<NodeView>, GenError>(
                    views_of(decls@) + rest,
                ),
            },
        decreases current_unit.user_types.len() - i,
    {
        let ghost suffix = ts.subrange(i as int, ts.len() as int);
        proof {
            assert(suffix[0] == ts[i as int]);
            assert(suffix.subrange(1, suffix.len() as int) =~= ts.subrange(
                i as int + 1,
                ts.len() as int,
            ));
        }
        let current_usertype = &current_unit.user_types[i];
        let ghost pre_decls = decls@;
        if current_usertype.has_location {
            match &current_usertype.data_type {
                UserTypeData::Struct { name, variables } => {
                    if let Some(unwrapped_name) = name {
                        let members = struct_member_nodes(variables, generation_parameters);
                        if members.len() > 0 {
                            proof {
                                lemma_views_of(members@);
                            }
                            let spec_node = Node::new_str("UserDefinedTypeSpec").attribute_str(
                                "xsi:type",
                                "StructTypeSpec",
                            ).children(members);
                            let decl_node = Node::new_str("DataTypeDecl").attribute(
                                "name".to_owned(),
                                unwrapped_name.clone(),
                            ).child(&spec_node);
                            let ghost dv = decl_node@;
                            proof {
                                assert(Seq::<NodeView>::empty() + struct_member_views(
                                    variables@,
                                    omron,
                                ) =~= struct_member_views(variables@, omron));
                                assert(dv == struct_decl_view(
                                    name->0@,
                                    variables@,
                                    omron,
                                )->0);
                            }
                            decls.push(decl_node);
                            proof {
                                lemma_views_of(decls@);
                                lemma_views_of(pre_decls);
                                assert(views_of(decls@) =~= views_of(pre_decls).push(dv));
                            }
                        } else {
                            proof {
                                lemma_views_of(members@);
                                assert(struct_member_views(variables@, omron).len() == 0);
                            }
                        }
                    }
                },
                UserTypeData::Enum { name, numeric_type, elements } => {
                    if let Some(unwrapped_name) = name {
                        let variants = extract_enum_candidates(elements);
                        let ghost vv = variants@;
                        let ghost cands = enum_candidates(*elements);
                        let ghost vals = Seq::new(cands.len(), |k: int| cands[k].1);
                        proof {
                            assert(values_of(vv) =~= vals);
                        }
                        match format_enum_initials(variants) {
                            Err(_) => {
                                proof {
                                    assert(resolve_values(vals, Seq::empty()) is None);
                                    assert(type_decl_of(ts[i as int], omron) == Err::<
                                        Option<NodeView>,
                                        GenError,
                                    >(GenError::ValueExhausted));
                                    assert(type_decls_of(suffix, omron) == Err::<
                                        Seq<NodeView>,
                                        GenError,
                                    >(GenError::ValueExhausted));
                                }
                                return Err(GenError::ValueExhausted);
                            },
                            Ok(enum_nodes) => {
                                let ghost rs = resolve_values(vals, Seq::empty())->0;
                                proof {
                                    let resolved = choose|resolved: Seq<NameAndInitialValue>|
                                        {
                                            &&& resolve_values(values_of(vv), Seq::empty())
                                                == Some(values_of(resolved))
                                            &&& resolved.len() == vv.len()
                                            &&& forall|k: int|
                                                0 <= k < enum_nodes@.len() ==> (
                                                #[trigger] enum_nodes@[k])@ == enumerator_view(
                                                    vv[k].name@,
                                                    resolved[k].initial_value@,
                                                )
                                        };
                                    assert(resolve_values(vals, Seq::empty()) == Some(
                                        values_of(resolved),
                                    ));
                                    assert(rs == values_of(resolved));
                                    lemma_views_of(enum_nodes@);
                                    assert forall|k: int|
                                        0 <= k < enum_nodes@.len() implies #[trigger] views_of(
                                        enum_nodes@,
                                    )[k] == enumerator_view(cands[k].0, rs[k]) by {
                                        assert(enum_nodes@[k]@ == enumerator_view(
                                            vv[k].name@,
                                            resolved[k].initial_value@,
                                        ));
                                        assert(values_of(resolved)[k]
                                            == resolved[k].initial_value@);
                                    }
                                    assert(views_of(enum_nodes@) =~= Seq::new(
                                        cands.len(),
                                        |k: int| enumerator_view(cands[k].0, rs[k]),
                                    ));
                                }
                                let base_node = Node::new_str("BaseType").content_borrowed(
                                    numeric_type.clone(),
                                );
                                let spec_node = Node::new_str("UserDefinedTypeSpec")
                                    .attribute_str("xsi:type", "EnumTypeWithNamedValueSpec")
                                    .children(enum_nodes).child(&base_node);
                                let decl_node = Node::new_str("DataTypeDecl").attribute(
                                    "name".to_owned(),
                                    unwrapped_name.clone(),
                                ).child(&spec_node);
                                let ghost dv = decl_node@;
                                proof {
                                    assert(Seq::<NodeView>::empty() + Seq::new(
                                        cands.len(),
                                        |k: int| enumerator_view(cands[k].0, rs[k]),
                                    ) =~= Seq::new(
                                        cands.len(),
                                        |k: int| enumerator_view(cands[k].0, rs[k]),
                                    ));
                                    assert(dv == enum_decl_view(
                                        name->0@,
                                        numeric_type@,
                                        *elements,
                                    )->Ok_0);
                                }
                                decls.push(decl_node);
                                proof {
                                    lemma_views_of(decls@);
                                    lemma_views_of(pre_decls);
                                    assert(views_of(decls@) =~= views_of(pre_decls).push(dv));
                                }
                            },
                        }
                    }
                },
                UserTypeData::Other => {
                },
            }
        }
        proof {
            let next_suffix = ts.subrange(i as int + 1, ts.len() as int);
            match type_decl_of(ts[i as int], omron) {
                Err(_) => {
                    assert(false);
                },
                Ok(head) => {
                    match type_decls_of(next_suffix, omron) {
                        Err(e) => {
                        },
                        Ok(rest) => {
                            match head {
                                Some(d) => {
                                    assert(views_of(decls@) + rest =~= views_of(pre_decls) + (
                                    seq![d] + rest));
                                },
                                None => {
                                    assert(views_of(decls@) + rest =~= views_of(pre_decls) + (
                                    Seq::<NodeView>::empty() + rest));
                                },
                            }
                        },
                    }
                },
            }
        }
        i += 1;
    }
    proof {
        assert(ts.subrange(i as int, ts.len() as int).len() == 0);
        assert(type_decls_of(ts.subrange(i as int, ts.len() as int), omron) == Ok::<
            Seq<NodeView>,
            GenError,
        >(Seq::empty()));
        assert(views_of(decls@) + Seq::<NodeView>::empty() =~= views_of(decls@));
    }
    let ghost pre_root = *output_root;
    let ghost decl_views = views_of(decls@);
    let types_node = &mut output_root.children[idx1];
    let ghost pre_types = *types_node;
    let gn_node = &mut types_node.children[idx2];
    gn_node.append_children(decls);
    proof {
        lemma_views_of(types_node.children@);
        lemma_views_of(pre_types.children@);
        let inner_expected = pre_types@.children.update(
            idx2 as int,
            with_children(pre_types@.children[idx2 as int], decl_views),
        );
        assert forall|j: int| 0 <= j < types_node.children@.len() implies #[trigger] views_of(
            types_node.children@,
        )[j] == inner_expected[j] by {
            if j != idx2 as int {
                assert(types_node.children@[j] == pre_types.children@[j]);
            }
        }
        assert(types_node@.children =~= inner_expected);
    }
    proof {
        lemma_views_of(output_root.children@);
        lemma_views_of(pre_root.children@);
        let f1 = idx1 as int;
        let f2 = idx2 as int;
        let expected = pre_root@.children.update(
            f1,
            NodeView {
                children: pre_root@.children[f1].children.update(
                    f2,
                    with_children(pre_root@.children[f1].children[f2], decl_views),
                ),
                ..pre_root@.children[f1]
            },
        );
        assert forall|j: int| 0 <= j < output_root.children@.len() implies #[trigger] views_of(
            output_root.children@,
        )[j] == expected[j] by {
            if j != f1 {
                assert(output_root.children@[j] == pre_root.children@[j]);
            }
        }
        assert(final(output_root)@.children =~= expected);
    }
    Ok(())
}

/// Append one unit's global-variable configuration under the skeleton's
/// `Instances` anchor.
///
/// The four flag buckets are appended even when empty, inside one
/// `Resource` inside one `Configuration` named after the unit. The error
/// comes exactly when the anchor is absent, and then the document is
/// unchanged. The order tracker is never touched by this pass.
pub fn generate_globals(
    generation_parameters: &GenerationParameters,
    current_unit: &CompilationUnit,
    unit_name: &str,
    schema_path: &str,
    preused_order: &mut OrderTracker,
    output_root: &mut Node) -> (r: Result<(), GenError>)
    ensures
        *final(preused_order) == *old(preused_order),
        ({
            let f = find_child(old(output_root)@.children, "Instances"@);
            let config = configuration_view(
                unit_name@,
                current_unit.global_vars@,
                generation_parameters.output_xml_omron,
                schema_path@,
            );
            match r {
                Ok(()) => f >= 0 && final(output_root)@ == (NodeView {
                    children: old(output_root)@.children.update(
                        f,
                        with_child(old(output_root)@.children[f], config),
                    ),
                    ..old(output_root)@
                }),
                Err(e) => {
                    &&& e == GenError::AnchorNotFound
                    &&& f == -1
                    &&& *final(output_root) == *old(output_root)
                },
            }
        }),
{
    let anchor = INSTANCES.to_owned();
    let idx = match output_root.find_child_index(&anchor) {
        Some(idx) => idx,
        None => {
            return Err(GenError::AnchorNotFound);
        },
    };
    let constant_retain_globals = Node::new_str("GlobalVars").attribute_str(
        "constant",
        "true",
    ).attribute_str("retain", "true").children(
        bucket_nodes(
            generation_parameters,
            current_unit,
            true,
            true,
            schema_path,
            preused_order,
        ),
    );
    let constant_globals = Node::new_str("GlobalVars").attribute_str(
        "constant",
        "true",
    ).children(
        bucket_nodes(
            generation_parameters,
            current_unit,
            true,
            false,
            schema_path,
            preused_order,
        ),
    );
    let retain_globals = Node::new_str("GlobalVars").attribute_str("retain", "true").children(
        bucket_nodes(
            generation_parameters,
            current_unit,
            false,
            true,
            schema_path,
            preused_order,
        ),
    );
    let normal_globals = Node::new_str("GlobalVars").children(
        bucket_nodes(
            generation_parameters,
            current_unit,
            false,
            false,
            schema_path,
            preused_order,
        ),
    );
    let mut resources_name = unit_name.to_owned();
    resources_name.append("_");
    resources_name.append(RESOURCE);
    let resource_node = Node::new_str("Resource").attribute(
        "name".to_owned(),
        resources_name,
    ).attribute_str("resourceTypeName", "").child(&constant_retain_globals).child(
        &constant_globals,
    ).child(&retain_globals).child(&normal_globals);
    let mut config_name = unit_name.to_owned();
    config_name.append("_");
    config_name.append(CONFIGURATION);
    let configuration_node = Node::new_str("Configuration").attribute(
        "name".to_owned(),
        config_name,
    ).child(&resource_node);
    proof {
        reveal_strlit("_");
        reveal_strlit("Resource");
        reveal_strlit("_Resource");
        reveal_strlit("Configuration");
        reveal_strlit("_Configuration");
        assert(unit_name@ + "_"@ + "Resource"@ =~= unit_name@ + "_Resource"@);
        assert(unit_name@ + "_"@ + "Configuration"@ =~= unit_name@ + "_Configuration"@);
        assert(configuration_node@ == configuration_view(
            unit_name@,
            current_unit.global_vars@,
            generation_parameters.output_xml_omron,
            schema_path@,
        ));
    }
    let ghost pre_root = *output_root;
    let anchor_node = &mut output_root.children[idx];
    anchor_node.child_borrowed(&configuration_node);
    proof {
        lemma_views_of(output_root.children@);
        lemma_views_of(pre_root.children@);
        let config = configuration_view(
            unit_name@,
            current_unit.global_vars@,
            generation_parameters.output_xml_omron,
            schema_path@,
        );
        let expected = pre_root@.children.update(
            idx as int,
            with_child(pre_root@.children[idx as int], config),
        );
        assert forall|j: int| 0 <= j < output_root.children@.len() implies #[trigger] views_of(
            output_root.children@,
        )[j] == expected[j] by {
            if j != idx as int {
                assert(output_root.children@[j] == pre_root.children@[j]);
            }
        }
        assert(final(output_root)@.children =~= expected);
    }
    Ok(())
}

/// Append the elements of one unit's procedural implementations under
/// the skeleton's `Types/GlobalNamespace` anchor.
///
/// Implementations of other kinds, externally linked ones and those
/// whose body text could not be resolved are skipped. Input, output and
/// in-out variables receive collision-free `orderWithinParamSet`
/// numbers from the run-wide tracker. A missing anchor aborts the pass
/// with the document unchanged; exhaustion of the order numbers is
/// fatal, also with the document unchanged, though claims made before
/// the failure stay in the tracker.
#[verifier::loop_isolation(false)]
#[verifier::rlimit(100)]
pub fn generate_pous(
    generation_parameters: &GenerationParameters,
    current_unit: &CompilationUnit,
    schema_path: &str,
    param_order: &mut OrderTracker,
    output_root: &mut Node,
) -> (r: Result<(), GenError>)
    requires
        forall|i: int|
            0 <= i < current_unit.implementations@.len() ==> find_pou(
                current_unit.pous@,
                (#[trigger] current_unit.implementations@[i]).name@,
            ) >= 0,
    ensures
        ({
            let omron = generation_parameters.output_xml_omron;
            let imps = current_unit.implementations@;
            let pous = current_unit.pous@;
            let f1 = find_child(old(output_root)@.children, "Types"@);
            let anchors_ok = f1 >= 0 && find_child(
                old(output_root)@.children[f1].children,
                "GlobalNamespace"@,
            ) >= 0;
            match r {
                Ok(()) => {
                    let f2 = find_child(
                        old(output_root)@.children[f1].children,
                        "GlobalNamespace"@,
                    );
                    &&& anchors_ok
                    &&& exists|tss: Seq<Seq<char>>|
                        {
                            let fold = #[trigger] pous_fold(
                                imps,
                                pous,
                                Seq::empty(),
                                old(param_order).claim_set(),
                                omron,
                                schema_path@,
                                tss,
                            );
                            &&& tss.len() == imps.len()
                            &&& fold is Ok
                            &&& final(param_order).claim_set() == fold->Ok_0.1
                            &&& final(output_root)@ == (NodeView {
                                children: old(output_root)@.children.update(
                                    f1,
                                    NodeView {
                                        children: old(
                                            output_root,
                                        )@.children[f1].children.update(
                                            f2,
                                            with_children(
                                                old(output_root)@.children[f1].children[f2],
                                                fold->Ok_0.0,
                                            ),
                                        ),
                                        ..old(output_root)@.children[f1]
                                    },
                                ),
                                ..old(output_root)@
                            })
                        }
                },
                Err(e) => {
                    &&& *final(output_root) == *old(output_root)
                    &&& if e == GenError::AnchorNotFound {
                        &&& !anchors_ok
                        &&& *final(param_order) == *old(param_order)
                    } else {
                        &&& e == GenError::OrderExhausted
                        &&& anchors_ok
                        &&& exists|tss: Seq<Seq<char>>|
                            pous_fold(
                                imps,
                                pous,
                                Seq::empty(),
                                old(param_order).claim_set(),
                                omron,
                                schema_path@,
                                tss,
                            ) == Err::<(Seq<NodeView>, Set<(Seq<char>, int)>), GenError>(
                                GenError::OrderExhausted,
                            )
                    }
                },
            }
        }),
{
    let ghost omron = generation_parameters.output_xml_omron;
    let ghost imps = current_unit.implementations@;
    let ghost pous_seq = current_unit.pous@;
    let ghost claims0 = param_order.claim_set();
    let types_anchor = TYPES.to_owned();
    let gn_anchor = GLOBAL_NAMESPACE.to_owned();
    let idx1 = match output_root.find_child_index(&types_anchor) {
        Some(idx1) => idx1,
        None => {
            return Err(GenError::AnchorNotFound);
        },
    };
    let idx2 = match output_root.children[idx1].find_child_index(&gn_anchor) {
        Some(idx2) => idx2,
        None => {
            proof {
                lemma_views_of(output_root.children@);
                assert(old(output_root)@.children[idx1 as int] == output_root.children@[idx1
                    as int]@);
            }
            return Err(GenError::AnchorNotFound);
        },
    };
    proof {
        lemma_views_of(output_root.children@);
        assert(old(output_root)@.children[idx1 as int] == output_root.children@[idx1 as int]@);
    }
    let publish = "DoNotPublish".to_owned();
    let mut pou_elements: Vec<Node> = Vec::new();
    let ghost mut tss_done: Seq<Seq<char>> = Seq::empty();
    let mut i: usize = 0;
    proof {
        lemma_views_of(pou_elements@);
        assert(imps.subrange(0, 0) =~= Seq::<Implementation>::empty());
        assert(tss_done.subrange(0, 0) =~= tss_done);
        assert(views_of(pou_elements@) =~= Seq::<NodeView>::empty());
    }
    while i < current_unit.implementations.len()
        invariant
            i <= current_unit.implementations.len(),
            *output_root == *old(output_root),
            publish@ == "DoNotPublish"@,
            tss_done.len() == i as int,
            pous_fold(
                imps.subrange(0, i as int),
                pous_seq,
                Seq::empty(),
                claims0,
                omron,
                schema_path@,
                tss_done,
            ) == Ok::<(Seq<NodeView>, Set<(Seq<char>, int)>), GenError>(
                (views_of(pou_elements@), param_order.claim_set()),
            ),
        decreases current_unit.implementations.len() - i,
    {
        let ghost claims_entry = param_order.claim_set();
        let ghost elems_entry = views_of(pou_elements@);
        let current_impl = &current_unit.implementations[i];
        let kind_ok = match current_impl.pou_type {
            PouType::Program => true,
            PouType::Function => true,
            PouType::FunctionBlock => true,
            PouType::Other => false,
        };
        let linkage_ok = match current_impl.linkage {
            LinkageType::Internal => true,
            LinkageType::External => false,
        };
        let mut chosen: Option<Node> = None;
        let ghost mut tsv: Seq<char> = Seq::empty();
        if kind_ok && linkage_ok && current_impl.body.is_some() {
            proof {
                assert(pou_eligible(imps[i as int]));
            }
            let procedure_text = match &current_impl.body {
                Some(t) => t,
                None => {
                    proof {
                        assert(false);
                    }
                    &current_impl.name
                },
            };
            let mi = match find_pou_index(&current_unit.pous, &current_impl.name) {
                Some(mi) => mi,
                None => {
                    proof {
                        assert(false);
                    }
                    return Err(GenError::AnchorNotFound);
                },
            };
            let matching_metadata = &current_unit.pous[mi];
            let ghost pou_name = matching_metadata.name@;
            let ghost blocks = matching_metadata.variable_blocks@;
            let ghost goal = pou_blocks_fold(
                Ok(pou_vars_init(claims_entry)),
                blocks,
                pou_name,
                omron,
                schema_path@,
            );
            let ts = current_timestamp();
            proof {
                tsv = ts@;
            }
            let mut input_vars: Vec<Node> = Vec::new();
            let mut output_vars: Vec<Node> = Vec::new();
            let mut inout_vars: Vec<Node> = Vec::new();
            let mut externals: Vec<Node> = Vec::new();
            let mut constant_externals: Vec<Node> = Vec::new();
            let mut local_vars: Vec<Node> = Vec::new();
            let mut constant_vars: Vec<Node> = Vec::new();
            let mut retain_vars: Vec<Node> = Vec::new();
            let mut constant_retain_vars: Vec<Node> = Vec::new();
            let mut temp_vars: Vec<Node> = Vec::new();
            let mut constant_temp_vars: Vec<Node> = Vec::new();
            proof {
                lemma_views_of(input_vars@);
                assert(pv_state(
                    input_vars@,
                    output_vars@,
                    inout_vars@,
                    externals@,
                    constant_externals@,
                    local_vars@,
                    constant_vars@,
                    retain_vars@,
                    constant_retain_vars@,
                    temp_vars@,
                    constant_temp_vars@,
                    param_order.claim_set(),
                ) =~= pou_vars_init(claims_entry));
                assert(blocks.subrange(0, blocks.len() as int) =~= blocks);
            }
            let mut b: usize = 0;
            while b < matching_metadata.variable_blocks.len()
                invariant
                    b <= matching_metadata.variable_blocks.len(),
                    *output_root == *old(output_root),
                    publish@ == "DoNotPublish"@,
                    pou_blocks_fold(
                        Ok(
                            pv_state(
                                input_vars@,
                                output_vars@,
                                inout_vars@,
                                externals@,
                                constant_externals@,
                                local_vars@,
                                constant_vars@,
                                retain_vars@,
                                constant_retain_vars@,
                                temp_vars@,
                                constant_temp_vars@,
                                param_order.claim_set(),
                            ),
                        ),
                        blocks.subrange(b as int, blocks.len() as int),
                        pou_name,
                        omron,
                        schema_path@,
                    ) == goal,
                decreases matching_metadata.variable_blocks.len() - b,
            {
                let current_block = &matching_metadata.variable_blocks[b];
                let ghost block_entry_pv = pv_state(
                    input_vars@,
                    output_vars@,
                    inout_vars@,
                    externals@,
                    constant_externals@,
                    local_vars@,
                    constant_vars@,
                    retain_vars@,
                    constant_retain_vars@,
                    temp_vars@,
                    constant_temp_vars@,
                    param_order.claim_set(),
                );
                let ghost bvars = current_block.variables@;
                let ghost block_goal = pou_vars_fold(
                    Ok(block_entry_pv),
                    *current_block,
                    bvars,
                    0,
                    pou_name,
                    omron,
                    schema_path@,
                );
                proof {
                    assert(blocks.subrange(b as int, blocks.len() as int)[0]
                        == blocks[b as int]);
                    assert(blocks.subrange(b as int, blocks.len() as int).subrange(
                        1,
                        blocks.len() as int - b as int,
                    ) =~= blocks.subrange(b as int + 1, blocks.len() as int));
                    assert(bvars.subrange(0, bvars.len() as int) =~= bvars);
                    assert(pou_blocks_fold(
                        block_goal,
                        blocks.subrange(b as int + 1, blocks.len() as int),
                        pou_name,
                        omron,
                        schema_path@,
                    ) == goal);
                }
                let mut c: usize = 0;
                while c < current_block.variables.len()
                    invariant
                        c <= current_block.variables.len(),
                        *output_root == *old(output_root),
                        publish@ == "DoNotPublish"@,
                        pou_vars_fold(
                            Ok(
                                pv_state(
                                    input_vars@,
                                    output_vars@,
                                    inout_vars@,
                                    externals@,
                                    constant_externals@,
                                    local_vars@,
                                    constant_vars@,
                                    retain_vars@,
                                    constant_retain_vars@,
                                    temp_vars@,
                                    constant_temp_vars@,
                                    param_order.claim_set(),
                                ),
                            ),
                            *current_block,
                            bvars.subrange(c as int, bvars.len() as int),
                            c as int,
                            pou_name,
                            omron,
                            schema_path@,
                        ) == block_goal,
                    decreases current_block.variables.len() - c,
                {
                    let current_variable = &current_block.variables[c];
                    let ghost pre_pv = pv_state(
                        input_vars@,
                        output_vars@,
                        inout_vars@,
                        externals@,
                        constant_externals@,
                        local_vars@,
                        constant_vars@,
                        retain_vars@,
                        constant_retain_vars@,
                        temp_vars@,
                        constant_temp_vars@,
                        param_order.claim_set(),
                    );
                    let ghost step = pou_var_step(
                        pre_pv,
                        bvars[c as int],
                        *current_block,
                        c as int,
                        pou_name,
                        omron,
                        schema_path@,
                    );
                    proof {
                        assert(bvars.subrange(c as int, bvars.len() as int)[0]
                            == bvars[c as int]);
                        assert(bvars.subrange(c as int, bvars.len() as int).subrange(
                            1,
                            bvars.len() as int - c as int,
                        ) =~= bvars.subrange(c as int + 1, bvars.len() as int));
                    }
                    let use_order = match current_block.kind {
                        VarBlockKind::Input => true,
                        VarBlockKind::Output => true,
                        VarBlockKind::InOut => true,
                        _ => false,
                    };
                    let keep = match current_block.kind {
                        VarBlockKind::Global(_) => false,
                        _ => true,
                    };
                    if current_variable.has_location && keep {
                        let maybe = generate_variable_element(
                            current_variable,
                            generation_parameters,
                            &matching_metadata.name,
                            schema_path,
                            &publish,
                            param_order,
                            c,
                            use_order,
                        );
                        match maybe {
                            Ok(Some(node)) => {
                                let ghost nv = node@;
                                match current_block.kind {
                                    VarBlockKind::Input => {
                                        let ghost pre = input_vars@;
                                        input_vars.push(node);
                                        proof {
                                            lemma_views_of(input_vars@);
                                            lemma_views_of(pre);
                                            assert(views_of(input_vars@) =~= views_of(
                                                pre,
                                            ).push(nv));
                                        }
                                    },
                                    VarBlockKind::Output => {
                                        let ghost pre = output_vars@;
                                        output_vars.push(node);
                                        proof {
                                            lemma_views_of(output_vars@);
                                            lemma_views_of(pre);
                                            assert(views_of(output_vars@) =~= views_of(
                                                pre,
                                            ).push(nv));
                                        }
                                    },
                                    VarBlockKind::InOut => {
                                        let ghost pre = inout_vars@;
                                        inout_vars.push(node);
                                        proof {
                                            lemma_views_of(inout_vars@);
                                            lemma_views_of(pre);
                                            assert(views_of(inout_vars@) =~= views_of(
                                                pre,
                                            ).push(nv));
                                        }
                                    },
                                    VarBlockKind::Local => {
                                        if current_block.constant && current_block.retain {
                                            let ghost pre = constant_retain_vars@;
                                            constant_retain_vars.push(node);
                                            proof {
                                                lemma_views_of(constant_retain_vars@);
                                                lemma_views_of(pre);
                                                assert(views_of(constant_retain_vars@)
                                                    =~= views_of(pre).push(nv));
                                            }
                                        } else if current_block.constant {
                                            let ghost pre = constant_vars@;
                                            constant_vars.push(node);
                                            proof {
                                                lemma_views_of(constant_vars@);
                                                lemma_views_of(pre);
                                                assert(views_of(constant_vars@) =~= views_of(
                                                    pre,
                                                ).push(nv));
                                            }
                                        } else if current_block.retain {
                                            let ghost pre = retain_vars@;
                                            retain_vars.push(node);
                                            proof {
                                                lemma_views_of(retain_vars@);
                                                lemma_views_of(pre);
                                                assert(views_of(retain_vars@) =~= views_of(
                                                    pre,
                                                ).push(nv));
                                            }
                                        } else {
                                            let ghost pre = local_vars@;
                                            local_vars.push(node);
                                            proof {
                                                lemma_views_of(local_vars@);
                                                lemma_views_of(pre);
                                                assert(views_of(local_vars@) =~= views_of(
                                                    pre,
                                                ).push(nv));
                                            }
                                        }
                                    },
                                    VarBlockKind::Temp => {
                                        if current_block.constant {
                                            let ghost pre = constant_temp_vars@;
                                            constant_temp_vars.push(node);
                                            proof {
                                                lemma_views_of(constant_temp_vars@);
                                                lemma_views_of(pre);
                                                assert(views_of(constant_temp_vars@)
                                                    =~= views_of(pre).push(nv));
                                            }
                                        } else {
                                            let ghost pre = temp_vars@;
                                            temp_vars.push(node);
                                            proof {
                                                lemma_views_of(temp_vars@);
                                                lemma_views_of(pre);
                                                assert(views_of(temp_vars@) =~= views_of(
                                                    pre,
                                                ).push(nv));
                                            }
                                        }
                                    },
                                    VarBlockKind::External => {
                                        if current_block.constant {
                                            let ghost pre = constant_externals@;
                                            constant_externals.push(node);
                                            proof {
                                                lemma_views_of(constant_externals@);
                                                lemma_views_of(pre);
                                                assert(views_of(constant_externals@)
                                                    =~= views_of(pre).push(nv));
                                            }
                                        } else {
                                            let ghost pre = externals@;
                                            externals.push(node);
                                            proof {
                                                lemma_views_of(externals@);
                                                lemma_views_of(pre);
                                                assert(views_of(externals@) =~= views_of(
                                                    pre,
                                                ).push(nv));
                                            }
                                        }
                                    },
                                    VarBlockKind::Global(_) => {
                                        proof {
                                            assert(false);
                                        }
                                    },
                                }
                                proof {
                                    assert(step == Ok::<PouVars, GenError>(
                                        pv_state(
                                            input_vars@,
                                            output_vars@,
                                            inout_vars@,
                                            externals@,
                                            constant_externals@,
                                            local_vars@,
                                            constant_vars@,
                                            retain_vars@,
                                            constant_retain_vars@,
                                            temp_vars@,
                                            constant_temp_vars@,
                                            param_order.claim_set(),
                                        ),
                                    ));
                                }
                            },
                            Ok(None) => {
                                proof {
                                    assert(step == Ok::<PouVars, GenError>(pre_pv));
                                }
                            },
                            Err(_) => {
                                proof {
                                    assert(step == Err::<PouVars, GenError>(
                                        GenError::OrderExhausted,
                                    ));
                                    assert(pou_vars_fold(
                                        step,
                                        *current_block,
                                        bvars.subrange(c as int + 1, bvars.len() as int),
                                        c as int + 1,
                                        pou_name,
                                        omron,
                                        schema_path@,
                                    ) == Err::<PouVars, GenError>(GenError::OrderExhausted));
                                    assert(block_goal == Err::<PouVars, GenError>(
                                        GenError::OrderExhausted,
                                    ));
                                    lemma_blocks_fold_err(
                                        GenError::OrderExhausted,
                                        blocks.subrange(b as int + 1, blocks.len() as int),
                                        pou_name,
                                        omron,
                                        schema_path@,
                                    );
                                    assert(goal == Err::<PouVars, GenError>(
                                        GenError::OrderExhausted,
                                    ));
                                }
                                let ghost pad = Seq::new(
                                    (imps.len() - i as int - 1) as nat,
                                    |_j: int| Seq::<char>::empty(),
                                );
                                let ghost tss_err = tss_done.push(tsv) + pad;
                                proof {
                                    lemma_pous_fold_split(
                                        imps,
                                        pous_seq,
                                        Seq::empty(),
                                        claims0,
                                        omron,
                                        schema_path@,
                                        tss_err,
                                        i as int,
                                    );
                                    assert(tss_err.subrange(0, i as int) =~= tss_done);
                                    assert(imps.subrange(0, i as int) =~= imps.subrange(
                                        0,
                                        i as int,
                                    ));
                                    let suffix = imps.subrange(i as int, imps.len() as int);
                                    let tss_suffix = tss_err.subrange(
                                        i as int,
                                        tss_err.len() as int,
                                    );
                                    assert(suffix[0] == imps[i as int]);
                                    assert(tss_suffix[0] == tsv);
                                    assert(pou_step(
                                        imps[i as int],
                                        pous_seq,
                                        elems_entry,
                                        claims_entry,
                                        omron,
                                        schema_path@,
                                        tsv,
                                    ) == Err::<(Seq<NodeView>, Set<(Seq<char>, int)>), GenError>(
                                        GenError::OrderExhausted,
                                    ));
                                    assert(pous_fold(
                                        imps,
                                        pous_seq,
                                        Seq::empty(),
                                        claims0,
                                        omron,
                                        schema_path@,
                                        tss_err,
                                    ) == Err::<(Seq<NodeView>, Set<(Seq<char>, int)>), GenError>(
                                        GenError::OrderExhausted,
                                    ));
                                }
                                return Err(GenError::OrderExhausted);
                            },
                        }
                    } else {
                        proof {
                            assert(step == Ok::<PouVars, GenError>(pre_pv));
                        }
                    }
                    c += 1;
                }
                proof {
                    assert(bvars.subrange(c as int, bvars.len() as int).len() == 0);
                }
                b += 1;
            }
            let ghost pv_final = pv_state(
                input_vars@,
                output_vars@,
                inout_vars@,
                externals@,
                constant_externals@,
                local_vars@,
                constant_vars@,
                retain_vars@,
                constant_retain_vars@,
                temp_vars@,
                constant_temp_vars@,
                param_order.claim_set(),
            );
            proof {
                assert(blocks.subrange(b as int, blocks.len() as int).len() == 0);
                assert(goal == Ok::<PouVars, GenError>(pv_final));
            }
            let info_node = Node::new_str("PouInfo").attribute_str("version", "0.0.0")
                .attribute("creationDateTime".to_owned(), ts);
            let data_node = Node::new_str("Data").attribute(
                "name".to_owned(),
                schema_path.to_owned(),
            ).attribute_str("handleUnknown", "discard").child(&info_node);
            let adddata_node = Node::new_str("AddData").child(&data_node);
            let use_result_type = match current_impl.pou_type {
                PouType::Function => true,
                PouType::FunctionBlock => true,
                _ => false,
            };
            let result_name: String = if use_result_type
                && matching_metadata.return_type_name.is_some() {
                match &matching_metadata.return_type_name {
                    Some(t) => t.clone(),
                    None => {
                        proof {
                            assert(false);
                        }
                        String::new()
                    },
                }
            } else {
                "BOOL".to_owned()
            };
            let result_typename_node = Node::new_str("TypeName").content_borrowed(result_name);
            let resulttype_node = Node::new_str("ResultType").child(&result_typename_node);
            let st_element = if !procedure_text.as_str().is_empty() {
                Node::new_str("ST").content_borrowed(procedure_text.clone())
            } else {
                Node::new_str("ST")
            };
            let body_content = Node::new_str("BodyContent").attribute_str("xsi:type", "ST")
                .child(&st_element);
            let main_body = Node::new_str("MainBody").child(&body_content);
            let input_node = Node::new_str("InputVars").children(input_vars);
            let inout_node = Node::new_str("InoutVars").children(inout_vars);
            let output_node = Node::new_str("OutputVars").children(output_vars);
            let parameters_node = Node::new_str("Parameters").child(&input_node).child(
                &inout_node,
            ).child(&output_node);
            let externals_node = Node::new_str("ExternalVars").children(externals);
            let constant_externals_node = Node::new_str("ExternalVars").attribute_str(
                "constant",
                "true",
            ).children(constant_externals);
            let vars_node = Node::new_str("SVars").attribute_str(
                "accessSpecifier",
                "private",
            ).children(local_vars);
            let constant_vars_node = Node::new_str("SVars").attribute_str(
                "accessSpecifier",
                "private",
            ).attribute_str("constant", "true").children(constant_vars);
            let retain_vars_node = Node::new_str("SVars").attribute_str(
                "accessSpecifier",
                "private",
            ).attribute_str("retain", "true").children(retain_vars);
            let constant_retain_vars_node = Node::new_str("SVars").attribute_str(
                "accessSpecifier",
                "private",
            ).attribute_str("constant", "true").attribute_str("retain", "true").children(
                constant_retain_vars,
            );
            let temp_vars_node = Node::new_str("TempVars").children(temp_vars);
            let constant_temp_vars_node = Node::new_str("TempVars").attribute_str(
                "constant",
                "true",
            ).children(constant_temp_vars);
            let chosen_element: Node = match current_impl.pou_type {
                PouType::Program => {
                    Node::new_str("Program").attribute(
                        "name".to_owned(),
                        current_impl.name.clone(),
                    ).child(&adddata_node).child(&externals_node).child(
                        &constant_externals_node,
                    ).child(&vars_node).child(&constant_vars_node).child(
                        &retain_vars_node,
                    ).child(&constant_retain_vars_node).child(&main_body)
                },
                PouType::Function => {
                    Node::new_str("Function").attribute(
                        "name".to_owned(),
                        current_impl.name.clone(),
                    ).child(&adddata_node).child(&resulttype_node).child(
                        &parameters_node,
                    ).child(&externals_node).child(&constant_externals_node).child(
                        &temp_vars_node,
                    ).child(&constant_temp_vars_node).child(&main_body)
                },
                PouType::FunctionBlock => {
                    Node::new_str("FunctionBlock").attribute(
                        "name".to_owned(),
                        current_impl.name.clone(),
                    ).child(&adddata_node).child(&resulttype_node).child(
                        &parameters_node,
                    ).child(&externals_node).child(&constant_externals_node).child(
                        &vars_node,
                    ).child(&main_body)
                },
                PouType::Other => {
                    proof {
                        assert(false);
                    }
                    Node::new_str("Program")
                },
            };
            proof {
                let rt = match &matching_metadata.return_type_name {
                    Some(t) => Some(t@),
                    None => None::<Seq<char>>,
                };
                assert(chosen_element@ == pou_element_view(
                    current_impl.pou_type,
                    current_impl.name@,
                    rt,
                    pv_final,
                    current_impl.body->0@,
                    omron,
                    schema_path@,
                    tsv,
                ));
            }
            chosen = Some(chosen_element);
        }
        let ghost claims_now = param_order.claim_set();
        match chosen {
            Some(node) => {
                let ghost nv = node@;
                let ghost pre_elems = pou_elements@;
                pou_elements.push(node);
                proof {
                    lemma_views_of(pou_elements@);
                    lemma_views_of(pre_elems);
                    assert(views_of(pou_elements@) =~= views_of(pre_elems).push(nv));
                    assert(pou_step(
                        imps[i as int],
                        pous_seq,
                        elems_entry,
                        claims_entry,
                        omron,
                        schema_path@,
                        tsv,
                    ) == Ok::<(Seq<NodeView>, Set<(Seq<char>, int)>), GenError>(
                        (views_of(pou_elements@), claims_now),
                    ));
                }
            },
            None => {
                proof {
                    assert(!pou_eligible(imps[i as int]));
                    assert(pou_step(
                        imps[i as int],
                        pous_seq,
                        elems_entry,
                        claims_entry,
                        omron,
                        schema_path@,
                        tsv,
                    ) == Ok::<(Seq<NodeView>, Set<(Seq<char>, int)>), GenError>(
                        (views_of(pou_elements@), claims_now),
                    ));
                }
            },
        }
        proof {
            let tss_new = tss_done.push(tsv);
            lemma_pous_fold_split(
                imps.subrange(0, i as int + 1),
                pous_seq,
                Seq::empty(),
                claims0,
                omron,
                schema_path@,
                tss_new,
                i as int,
            );
            assert(imps.subrange(0, i as int + 1).subrange(0, i as int) =~= imps.subrange(
                0,
                i as int,
            ));
            assert(tss_new.subrange(0, i as int) =~= tss_done);
            let single = imps.subrange(0, i as int + 1).subrange(i as int, i as int + 1);
            let tss_single = tss_new.subrange(i as int, i as int + 1);
            assert(single[0] == imps[i as int]);
            assert(tss_single[0] == tsv);
            assert(single.subrange(1, 1) =~= Seq::<Implementation>::empty());
            assert(pous_fold(
                single.subrange(1, 1),
                pous_seq,
                views_of(pou_elements@),
                claims_now,
                omron,
                schema_path@,
                tss_single.subrange(1, 1),
            ) == Ok::<(Seq<NodeView>, Set<(Seq<char>, int)>), GenError>(
                (views_of(pou_elements@), claims_now),
            ));
            assert(pous_fold(
                single,
                pous_seq,
                elems_entry,
                claims_entry,
                omron,
                schema_path@,
                tss_single,
            ) == Ok::<(Seq<NodeView>, Set<(Seq<char>, int)>), GenError>(
                (views_of(pou_elements@), claims_now),
            ));
            assert(pous_fold(
                imps.subrange(0, i as int + 1),
                pous_seq,
                Seq::empty(),
                claims0,
                omron,
                schema_path@,
                tss_new,
            ) == Ok::<(Seq<NodeView>, Set<(Seq<char>, int)>), GenError>(
                (views_of(pou_elements@), param_order.claim_set()),
            ));
            tss_done = tss_new;
        }
        i += 1;
    }
    proof {
        assert(imps.subrange(0, i as int) =~= imps);
    }
    let ghost pre_root = *output_root;
    let ghost elem_views = views_of(pou_elements@);
    let types_node = &mut output_root.children[idx1];
    let ghost pre_types = *types_node;
    let gn_node = &mut types_node.children[idx2];
    gn_node.append_children(pou_elements);
    proof {
        lemma_views_of(types_node.children@);
        lemma_views_of(pre_types.children@);
        let inner_expected = pre_types@.children.update(
            idx2 as int,
            with_children(pre_types@.children[idx2 as int], elem_views),
        );
        assert forall|j: int| 0 <= j < types_node.children@.len() implies #[trigger] views_of(
            types_node.children@,
        )[j] == inner_expected[j] by {
            if j != idx2 as int {
                assert(types_node.children@[j] == pre_types.children@[j]);
            }
        }
        assert(types_node@.children =~= inner_expected);
    }
    proof {
        lemma_views_of(output_root.children@);
        lemma_views_of(pre_root.children@);
        let f1 = idx1 as int;
        let f2 = idx2 as int;
        let expected = pre_root@.children.update(
            f1,
            NodeView {
                children: pre_root@.children[f1].children.update(
                    f2,
                    with_children(pre_root@.children[f1].children[f2], elem_views),
                ),
                ..pre_root@.children[f1]
            },
        );
        assert forall|j: int| 0 <= j < output_root.children@.len() implies #[trigger] views_of(
            output_root.children@,
        )[j] == expected[j] by {
            if j != f1 {
                assert(output_root.children@[j] == pre_root.children@[j]);
            }
        }
        assert(final(output_root)@.children =~= expected);
    }
    Ok(())
}


/// Whether a unit's file name ends in the source-language extension,
/// ignoring letter case: only such units come from the user's source
/// code; others are internally generated and are skipped whole.
pub open spec fn is_st_name(s: Seq<char>) -> bool {
    s.len() >= 3 && s[s.len() - 3] == '.' && ci_eq(s[s.len() - 2], 's') && ci_eq(
        s[s.len() - 1],
        't',
    )
}

/// Whether a file name ends in the source-language extension, ignoring
/// letter case.
fn has_st_extension(name: &str) -> (r: bool)
    ensures
        r == is_st_name(name@),
{
    let len = name.unicode_len();
    if len < 3 {
        return false;
    }
    name.get_char(len - 3) == '.' && char_ci_eq(name.get_char(len - 2), 's', 'S')
        && char_ci_eq(name.get_char(len - 1), 't', 'T')
}

/// The document after one unit's globals pass: unchanged when the
/// `Instances` anchor is absent.
pub open spec fn apply_globals(
    root: NodeView,
    unit: CompilationUnit,
    omron: bool,
    schema: Seq<char>,
) -> NodeView {
    let f = find_child(root.children, "Instances"@);
    if f == -1 {
        root
    } else {
        NodeView {
            children: root.children.update(
                f,
                with_child(
                    root.children[f],
                    configuration_view(unit.file_name@, unit.global_vars@, omron, schema),
                ),
            ),
            ..root
        }
    }
}

/// The document after one unit's custom-types pass: unchanged when an
/// anchor is absent; fatal when an enum exhausts the representable
/// values.
pub open spec fn apply_types(root: NodeView, unit: CompilationUnit, omron: bool) -> Result<
    NodeView,
    GenError,
> {
    let f1 = find_child(root.children, "Types"@);
    if f1 == -1 {
        Ok(root)
    } else {
        let f2 = find_child(root.children[f1].children, "GlobalNamespace"@);
        if f2 == -1 {
            Ok(root)
        } else {
            match type_decls_of(unit.user_types@, omron) {
                Err(e) => Err(e),
                Ok(ds) => Ok(
                    NodeView {
                        children: root.children.update(
                            f1,
                            NodeView {
                                children: root.children[f1].children.update(
                                    f2,
                                    with_children(root.children[f1].children[f2], ds),
                                ),
                                ..root.children[f1]
                            },
                        ),
                        ..root
                    },
                ),
            }
        }
    }
}

/// The document and claim set after one unit's procedural-units pass:
/// unchanged when an anchor is absent; fatal when the order numbers run
/// out.
pub open spec fn apply_pous(
    root: NodeView,
    unit: CompilationUnit,
    claims: Set<(Seq<char>, int)>,
    omron: bool,
    schema: Seq<char>,
    tss: Seq<Seq<char>>,
) -> Result<(NodeView, Set<(Seq<char>, int)>), GenError> {
    let f1 = find_child(root.children, "Types"@);
    if f1 == -1 {
        Ok((root, claims))
    } else {
        let f2 = find_child(root.children[f1].children, "GlobalNamespace"@);
        if f2 == -1 {
            Ok((root, claims))
        } else {
            match pous_fold(
                unit.implementations@,
                unit.pous@,
                Seq::empty(),
                claims,
                omron,
                schema,
                tss,
            ) {
                Err(e) => Err(e),
                Ok((elems, cl)) => Ok(
                    (
                        NodeView {
                            children: root.children.update(
                                f1,
                                NodeView {
                                    children: root.children[f1].children.update(
                                        f2,
                                        with_children(root.children[f1].children[f2], elems),
                                    ),
                                    ..root.children[f1]
                                },
                            ),
                            ..root
                        },
                        cl,
                    ),
                ),
            }
        }
    }
}

/// What one unit does to the document and the claim set: nothing for
/// units that are not user source files, else its three passes in order,
/// with anchor failures swallowed and fatal conditions propagated.
pub open spec fn unit_step(
    u: CompilationUnit,
    root: NodeView,
    claims: Set<(Seq<char>, int)>,
    omron: bool,
    schema: Seq<char>,
    tss: Seq<Seq<char>>,
) -> Result<(NodeView, Set<(Seq<char>, int)>), GenError> {
    if !is_st_name(u.file_name@) {
        Ok((root, claims))
    } else {
        let root1 = apply_globals(root, u, omron, schema);
        match apply_types(root1, u, omron) {
            Err(e) => Err(e),
            Ok(root2) => apply_pous(root2, u, claims, omron, schema, tss),
        }
    }
}

/// The whole generation run over a unit list, unit by unit; `tsss`
/// holds one timestamp sequence per unit.
pub open spec fn run_units(
    units: Seq<CompilationUnit>,
    root: NodeView,
    claims: Set<(Seq<char>, int)>,
    omron: bool,
    schema: Seq<char>,
    tsss: Seq<Seq<Seq<char>>>,
) -> Result<(NodeView, Set<(Seq<char>, int)>), GenError>
    decreases units.len(),
{
    if units.len() == 0 {
        Ok((root, claims))
    } else {
        match unit_step(units[0], root, claims, omron, schema, tsss[0]) {
            Err(e) => Err(e),
            Ok((r2, c2)) => run_units(
                units.subrange(1, units.len() as int),
                r2,
                c2,
                omron,
                schema,
                tsss.subrange(1, tsss.len() as int),
            ),
        }
    }
}

/// Processing a prefix of the units first and the rest after gives the
/// same run.
proof fn lemma_run_units_split(
    units: Seq<CompilationUnit>,
    root: NodeView,
    claims: Set<(Seq<char>, int)>,
    omron: bool,
    schema: Seq<char>,
    tsss: Seq<Seq<Seq<char>>>,
    i: int,
)
    requires
        0 <= i <= units.len(),
        units.len() <= tsss.len(),
    ensures
        run_units(units, root, claims, omron, schema, tsss) == (match run_units(
            units.subrange(0, i),
            root,
            claims,
            omron,
            schema,
            tsss.subrange(0, i),
        ) {
            Err(e) => Err(e),
            Ok((r2, c2)) => run_units(
                units.subrange(i, units.len() as int),
                r2,
                c2,
                omron,
                schema,
                tsss.subrange(i, tsss.len() as int),
            ),
        }),
    decreases i,
{
    if i == 0 {
        assert(units.subrange(0, 0) =~= Seq::<CompilationUnit>::empty());
        assert(units.subrange(0, units.len() as int) =~= units);
        assert(tsss.subrange(0, tsss.len() as int) =~= tsss);
    } else {
        let ut = units.subrange(1, units.len() as int);
        let tt = tsss.subrange(1, tsss.len() as int);
        assert(units.subrange(0, i)[0] == units[0]);
        assert(units.subrange(0, i).subrange(1, i) =~= ut.subrange(0, i - 1));
        assert(tsss.subrange(0, i).subrange(1, i) =~= tt.subrange(0, i - 1));
        assert(units.subrange(i, units.len() as int) =~= ut.subrange(i - 1, ut.len() as int));
        assert(tsss.subrange(i, tsss.len() as int) =~= tt.subrange(i - 1, tt.len() as int));
        match unit_step(units[0], root, claims, omron, schema, tsss[0]) {
            Err(_) => {
            },
            Ok((r2, c2)) => {
                lemma_run_units_split(ut, r2, c2, omron, schema, tt, i - 1);
            },
        }
    }
}

/// Translate every unit into the skeleton document and serialize the
/// finished tree to XML document bytes.
///
/// Units whose file name lacks the source-language extension are
/// skipped whole. An anchor missing from the skeleton silently skips
/// only the affected sub-pass of the affected unit; exhaustion of enum
/// values or of order numbers is fatal and ends the run.
///
/// The representation is assumed validated by the front end: every
/// implementation has declared metadata under its name, and the
/// initializer of every emitted enum is made of variant assignments
/// whose values are decimal 32-bit integers.
#[verifier::loop_isolation(false)]
#[verifier::rlimit(60)]
pub fn parse_project_into_nodetree(
    generation_parameters: &GenerationParameters,
    units: &Vec<CompilationUnit>,
    schema_path: &str,
    output_root: Node,
) -> (r: Result<Vec<u8>, GenError>)
    requires
        forall|ui: int, tj: int|
            0 <= ui < units@.len() && 0 <= tj < (#[trigger] units@[ui]).user_types@.len()
                ==> user_type_wf(#[trigger] units@[ui].user_types@[tj]),
        forall|ui: int, ij: int|
            0 <= ui < units@.len() && 0 <= ij < (#[trigger] units@[ui]).implementations@.len()
                ==> find_pou(
                units@[ui].pous@,
                (#[trigger] units@[ui].implementations@[ij]).name@,
            ) >= 0,
    ensures
        ({
            let omron = generation_parameters.output_xml_omron;
            let empty_claims = Set::<(Seq<char>, int)>::empty();
            match r {
                Ok(bytes) => exists|tsss: Seq<Seq<Seq<char>>>|
                    {
                        let run = #[trigger] run_units(
                            units@,
                            output_root@,
                            empty_claims,
                            omron,
                            schema_path@,
                            tsss,
                        );
                        &&& tsss.len() == units@.len()
                        &&& run is Ok
                        &&& bytes@ == rendered_bytes(document_events(run->Ok_0.0))
                    },
                Err(e) => {
                    &&& (e == GenError::ValueExhausted || e == GenError::OrderExhausted)
                    &&& exists|tsss: Seq<Seq<Seq<char>>>|
                        #[trigger] run_units(
                            units@,
                            output_root@,
                            empty_claims,
                            omron,
                            schema_path@,
                            tsss,
                        ) == Err::<(NodeView, Set<(Seq<char>, int)>), GenError>(e)
                },
            }
        }),
{
    let ghost omron = generation_parameters.output_xml_omron;
    let ghost units_seq = units@;
    let ghost root0 = output_root@;
    let ghost empty_claims = Set::<(Seq<char>, int)>::empty();
    let mut output_root = output_root;
    let mut param_order = OrderTracker::new();
    let ghost mut tsss_done: Seq<Seq<Seq<char>>> = Seq::empty();
    let mut a: usize = 0;
    proof {
        assert(units_seq.subrange(0, 0) =~= Seq::<CompilationUnit>::empty());
    }
    while a < units.len()
        invariant
            a <= units.len(),
            units_seq == units@,
            tsss_done.len() == a as int,
            run_units(
                units_seq.subrange(0, a as int),
                root0,
                empty_claims,
                omron,
                schema_path@,
                tsss_done,
            ) == Ok::<(NodeView, Set<(Seq<char>, int)>), GenError>(
                (output_root@, param_order.claim_set()),
            ),
        decreases units.len() - a,
    {
        let ghost root_entry = output_root@;
        let ghost claims_entry = param_order.claim_set();
        let current_unit = &units[a];
        let ghost mut unit_tss: Seq<Seq<char>> = Seq::empty();
        if has_st_extension(current_unit.file_name.as_str()) {
            let r1 = generate_globals(
                generation_parameters,
                current_unit,
                current_unit.file_name.as_str(),
                schema_path,
                &mut param_order,
                &mut output_root,
            );
            proof {
                assert(output_root@ == apply_globals(
                    root_entry,
                    units_seq[a as int],
                    omron,
                    schema_path@,
                ));
            }
            let ghost root1 = output_root@;
            let r2 = generate_custom_types(generation_parameters, current_unit, &mut output_root);
            match r2 {
                Ok(()) => {
                    proof {
                        assert(apply_types(root1, units_seq[a as int], omron) == Ok::<
                            NodeView,
                            GenError,
                        >(output_root@));
                    }
                },
                Err(GenError::AnchorNotFound) => {
                    proof {
                        crate::node::lemma_find_child(root1.children, "Types"@);
                        let f1 = find_child(root1.children, "Types"@);
                        if f1 != -1 {
                            crate::node::lemma_find_child(
                                root1.children[f1].children,
                                "GlobalNamespace"@,
                            );
                        }
                        assert(apply_types(root1, units_seq[a as int], omron) == Ok::<
                            NodeView,
                            GenError,
                        >(output_root@));
                    }
                },
                Err(e) => {
                    {
                        proof {
                            assert(e == GenError::ValueExhausted);
                            assert(apply_types(root1, units_seq[a as int], omron) == Err::<
                                NodeView,
                                GenError,
                            >(e));
                            assert(unit_step(
                                units_seq[a as int],
                                root_entry,
                                claims_entry,
                                omron,
                                schema_path@,
                                unit_tss,
                            ) == Err::<(NodeView, Set<(Seq<char>, int)>), GenError>(e));
                            let pad = Seq::new(
                                (units_seq.len() - a as int - 1) as nat,
                                |_j: int| Seq::<Seq<char>>::empty(),
                            );
                            let tsss_err = tsss_done.push(unit_tss) + pad;
                            lemma_run_units_split(
                                units_seq,
                                root0,
                                empty_claims,
                                omron,
                                schema_path@,
                                tsss_err,
                                a as int,
                            );
                            assert(tsss_err.subrange(0, a as int) =~= tsss_done);
                            let suffix = units_seq.subrange(a as int, units_seq.len() as int);
                            let tsss_suffix = tsss_err.subrange(
                                a as int,
                                tsss_err.len() as int,
                            );
                            assert(suffix[0] == units_seq[a as int]);
                            assert(tsss_suffix[0] == unit_tss);
                            assert(run_units(
                                units_seq,
                                root0,
                                empty_claims,
                                omron,
                                schema_path@,
                                tsss_err,
                            ) == Err::<(NodeView, Set<(Seq<char>, int)>), GenError>(e));
                        }
                        return Err(e);
                    }
                },
            }
            let ghost root2 = output_root@;
            let ghost claims2 = param_order.claim_set();
            let r3 = generate_pous(
                generation_parameters,
                current_unit,
                schema_path,
                &mut param_order,
                &mut output_root,
            );
            match r3 {
                Ok(()) => {
                    proof {
                        let tss = choose|tss: Seq<Seq<char>>|
                            {
                                let fold = #[trigger] pous_fold(
                                    units_seq[a as int].implementations@,
                                    units_seq[a as int].pous@,
                                    Seq::empty(),
                                    claims2,
                                    omron,
                                    schema_path@,
                                    tss,
                                );
                                &&& tss.len() == units_seq[a as int].implementations@.len()
                                &&& fold is Ok
                                &&& param_order.claim_set() == fold->Ok_0.1
                                &&& output_root@ == (NodeView {
                                    children: root2.children.update(
                                        find_child(root2.children, "Types"@),
                                        NodeView {
                                            children: root2.children[find_child(
                                                root2.children,
                                                "Types"@,
                                            )].children.update(
                                                find_child(
                                                    root2.children[find_child(
                                                        root2.children,
                                                        "Types"@,
                                                    )].children,
                                                    "GlobalNamespace"@,
                                                ),
                                                with_children(
                                                    root2.children[find_child(
                                                        root2.children,
                                                        "Types"@,
                                                    )].children[find_child(
                                                        root2.children[find_child(
                                                            root2.children,
                                                            "Types"@,
                                                        )].children,
                                                        "GlobalNamespace"@,
                                                    )],
                                                    fold->Ok_0.0,
                                                ),
                                            ),
                                            ..root2.children[find_child(
                                                root2.children,
                                                "Types"@,
                                            )]
                                        },
                                    ),
                                    ..root2
                                })
                            };
                        unit_tss = tss;
                        assert(apply_pous(
                            root2,
                            units_seq[a as int],
                            claims2,
                            omron,
                            schema_path@,
                            tss,
                        ) == Ok::<(NodeView, Set<(Seq<char>, int)>), GenError>(
                            (output_root@, param_order.claim_set()),
                        ));
                    }
                },
                Err(GenError::AnchorNotFound) => {
                    proof {
                        crate::node::lemma_find_child(root2.children, "Types"@);
                        let f1 = find_child(root2.children, "Types"@);
                        if f1 != -1 {
                            crate::node::lemma_find_child(
                                root2.children[f1].children,
                                "GlobalNamespace"@,
                            );
                        }
                        assert(apply_pous(
                            root2,
                            units_seq[a as int],
                            claims2,
                            omron,
                            schema_path@,
                            unit_tss,
                        ) == Ok::<(NodeView, Set<(Seq<char>, int)>), GenError>(
                            (output_root@, param_order.claim_set()),
                        ));
                    }
                },
                Err(e) => {
                    {
                        proof {
                            assert(e == GenError::OrderExhausted);
                            let tss = choose|tss: Seq<Seq<char>>|
                                #[trigger] pous_fold(
                                    units_seq[a as int].implementations@,
                                    units_seq[a as int].pous@,
                                    Seq::empty(),
                                    claims2,
                                    omron,
                                    schema_path@,
                                    tss,
                                ) == Err::<(Seq<NodeView>, Set<(Seq<char>, int)>), GenError>(
                                    GenError::OrderExhausted,
                                );
                            unit_tss = tss;
                            assert(apply_pous(
                                root2,
                                units_seq[a as int],
                                claims2,
                                omron,
                                schema_path@,
                                tss,
                            ) == Err::<(NodeView, Set<(Seq<char>, int)>), GenError>(e));
                            assert(unit_step(
                                units_seq[a as int],
                                root_entry,
                                claims_entry,
                                omron,
                                schema_path@,
                                tss,
                            ) == Err::<(NodeView, Set<(Seq<char>, int)>), GenError>(e));
                            let pad = Seq::new(
                                (units_seq.len() - a as int - 1) as nat,
                                |_j: int| Seq::<Seq<char>>::empty(),
                            );
                            let tsss_err = tsss_done.push(tss) + pad;
                            lemma_run_units_split(
                                units_seq,
                                root0,
                                empty_claims,
                                omron,
                                schema_path@,
                                tsss_err,
                                a as int,
                            );
                            assert(tsss_err.subrange(0, a as int) =~= tsss_done);
                            let suffix = units_seq.subrange(a as int, units_seq.len() as int);
                            let tsss_suffix = tsss_err.subrange(
                                a as int,
                                tsss_err.len() as int,
                            );
                            assert(suffix[0] == units_seq[a as int]);
                            assert(tsss_suffix[0] == tss);
                            assert(run_units(
                                units_seq,
                                root0,
                                empty_claims,
                                omron,
                                schema_path@,
                                tsss_err,
                            ) == Err::<(NodeView, Set<(Seq<char>, int)>), GenError>(e));
                        }
                        return Err(e);
                    }
                },
            }
            proof {
                assert(unit_step(
                    units_seq[a as int],
                    root_entry,
                    claims_entry,
                    omron,
                    schema_path@,
                    unit_tss,
                ) == Ok::<(NodeView, Set<(Seq<char>, int)>), GenError>(
                    (output_root@, param_order.claim_set()),
                ));
            }
        } else {
            proof {
                assert(unit_step(
                    units_seq[a as int],
                    root_entry,
                    claims_entry,
                    omron,
                    schema_path@,
                    unit_tss,
                ) == Ok::<(NodeView, Set<(Seq<char>, int)>), GenError>(
                    (output_root@, param_order.claim_set()),
                ));
            }
        }
        proof {
            let tsss_new = tsss_done.push(unit_tss);
            lemma_run_units_split(
                units_seq.subrange(0, a as int + 1),
                root0,
                empty_claims,
                omron,
                schema_path@,
                tsss_new,
                a as int,
            );
            assert(units_seq.subrange(0, a as int + 1).subrange(0, a as int)
                =~= units_seq.subrange(0, a as int));
            assert(tsss_new.subrange(0, a as int) =~= tsss_done);
            let single = units_seq.subrange(0, a as int + 1).subrange(a as int, a as int + 1);
            let tsss_single = tsss_new.subrange(a as int, a as int + 1);
            assert(single[0] == units_seq[a as int]);
            assert(tsss_single[0] == unit_tss);
            assert(single.subrange(1, 1) =~= Seq::<CompilationUnit>::empty());
            assert(run_units(
                single.subrange(1, 1),
                output_root@,
                param_order.claim_set(),
                omron,
                schema_path@,
                tsss_single.subrange(1, 1),
            ) == Ok::<(NodeView, Set<(Seq<char>, int)>), GenError>(
                (output_root@, param_order.claim_set()),
            ));
            assert(run_units(
                single,
                root_entry,
                claims_entry,
                omron,
                schema_path@,
                tsss_single,
            ) == Ok::<(NodeView, Set<(Seq<char>, int)>), GenError>(
                (output_root@, param_order.claim_set()),
            ));
            assert(run_units(
                units_seq.subrange(0, a as int + 1),
                root0,
                empty_claims,
                omron,
                schema_path@,
                tsss_new,
            ) == Ok::<(NodeView, Set<(Seq<char>, int)>), GenError>(
                (output_root@, param_order.claim_set()),
            ));
            tsss_done = tsss_new;
        }
        a += 1;
    }
    proof {
        assert(units_seq.subrange(0, a as int) =~= units_seq);
    }
    let bytes = write_xml_document(&output_root).unwrap();
    Ok(bytes)
}

} // verus!
