//! The compiler-side program representation the generator consumes: an
//! already-validated picture of each compilation unit's global variables,
//! user-defined types and procedural units, reduced to the plain values
//! the translation reads.

use vstd::prelude::*;

verus! {

/// Where a piece of source text sits inside its file.
pub enum SourceSpan {
    /// No source location: the declaration is compiler-synthesized.
    Missing,
    /// A byte range inside the originating file.
    Range { start: usize, end: usize },
    /// A location that is not a byte range.
    Other,
}

/// Which file a piece of source text comes from.
pub enum FileRef {
    /// A file on disk, by path.
    File(String),
    /// Anything else: compiler-internal or unnamed origins.
    Other,
}

/// A source location: a span and the file it belongs to.
pub struct SourceRef {
    pub span: SourceSpan,
    pub file: FileRef,
}

/// One declared variable, reduced to what the generator reads: its name,
/// its resolved type name if any, the text of its literal initializer if
/// it has one, the text of its literal address if it has one, and whether
/// it carries a source location at all.
pub struct PlcVariable {
    pub name: String,
    pub declared_type: Option<String>,
    pub initial_value: Option<String>,
    pub address: Option<String>,
    pub has_location: bool,
}

/// The role of a variable block.
pub enum VarBlockKind {
    /// A global block, carrying its network publish mode.
    Global(String),
    Local,
    Temp,
    Input,
    Output,
    InOut,
    External,
}

/// One block of variable declarations sharing a role and flags.
pub struct VarBlock {
    pub kind: VarBlockKind,
    pub constant: bool,
    pub retain: bool,
    pub variables: Vec<PlcVariable>,
}

/// An expression tree, as far as enum initializers read it.
pub enum Expr {
    /// A list of expressions.
    ExpressionList(Vec<Expr>),
    /// `left := right`.
    Assignment { left: Box<Expr>, right: Box<Expr> },
    /// A reference through member access to an inner expression.
    MemberReference(Box<Expr>),
    /// A bare identifier.
    Identifier(String),
    /// A literal, by its rendered text.
    Literal(String),
    /// A binary expression; only its right side is read here.
    BinaryExpression { right: Box<Expr> },
    /// Any other statement kind.
    Other,
}

/// The shape of one user-defined type.
pub enum UserTypeData {
    /// A structure with named fields.
    Struct { name: Option<String>, variables: Vec<PlcVariable> },
    /// An enumeration with an underlying numeric type and an initializer
    /// expression listing its variants.
    Enum { name: Option<String>, numeric_type: String, elements: Expr },
    /// Any other type kind; the generator emits nothing for it.
    Other,
}

/// One user-defined type declaration.
pub struct UserTypeDeclaration {
    pub data_type: UserTypeData,
    pub has_location: bool,
}

/// The kind of a procedural unit.
pub enum PouType {
    Program,
    Function,
    FunctionBlock,
    /// Any other kind; the generator emits nothing for it.
    Other,
}

impl PouType {
    pub open spec fn is_generated(self) -> bool {
        self is Program || self is Function || self is FunctionBlock
    }
}

/// Where a procedural unit's implementation lives.
pub enum LinkageType {
    Internal,
    /// The implementation resides on the target platform already.
    External,
}

/// The declared metadata of one procedural unit.
pub struct Pou {
    pub name: String,
    pub variable_blocks: Vec<VarBlock>,
    /// The resolved name of the declared return type, when there is one.
    pub return_type_name: Option<String>,
}

/// One procedural-unit implementation: its kind, linkage, and the source
/// text of its body, already read from the byte range its location
/// records; `None` when that range could not be resolved or read.
pub struct Implementation {
    pub name: String,
    pub pou_type: PouType,
    pub linkage: LinkageType,
    pub body: Option<String>,
}

/// One compiled unit, as handed over by the compiler front end.
pub struct CompilationUnit {
    pub file_name: String,
    pub global_vars: Vec<VarBlock>,
    pub user_types: Vec<UserTypeDeclaration>,
    pub pous: Vec<Pou>,
    pub implementations: Vec<Implementation>,
}

impl CompilationUnit {
    /// An empty unit for the given file.
    pub fn new(file_name: &str) -> (r: CompilationUnit)
        ensures
            r.file_name@ == file_name@,
            r.global_vars@.len() == 0,
            r.user_types@.len() == 0,
            r.pous@.len() == 0,
            r.implementations@.len() == 0,
    {
        CompilationUnit {
            file_name: file_name.to_owned(),
            global_vars: Vec::new(),
            user_types: Vec::new(),
            pous: Vec::new(),
            implementations: Vec::new(),
        }
    }
}

/// The read request a procedural unit's location denotes: the file path
/// and the byte range of its body text.
pub struct BodySpan {
    pub path: String,
    pub start: usize,
    pub len: usize,
}

/// Resolve a source location to the read request for its body text.
///
/// The request exists exactly when the span is a byte range of
/// non-negative length inside a named file; anything else cannot be
/// resolved and the unit is skipped.
pub fn resolve_body_span(location: &SourceRef) -> (r: Option<BodySpan>)
    ensures
        match r {
            Some(b) => {
                &&& location.span matches SourceSpan::Range { start, end } && b.start == start
                    && end >= start && b.len == end - start
                &&& location.file matches FileRef::File(p) && b.path@ == p@
            },
            None => match location.span {
                SourceSpan::Range { start, end } => !(location.file is File) || end < start,
                _ => true,
            },
        },
{
    match &location.span {
        SourceSpan::Range { start, end } => match &location.file {
            FileRef::File(path) => {
                if *end >= *start {
                    Some(BodySpan { path: path.clone(), start: *start, len: *end - *start })
                } else {
                    None
                }
            },
            _ => None,
        },
        _ => None,
    }
}

} // verus!
