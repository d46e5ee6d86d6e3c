//! The query document AST the engine consumes.
//!
//! The engine receives an already-parsed, already-validated document and
//! treats it as read-only data; these are the node types it walks.

use vstd::prelude::*;
use crate::value::{args_view, clone_arguments, value_view, Value, ValueV};

verus! {

/// A source position: line and column, both 1-based in parsed documents.
#[derive(Clone, Copy, PartialEq, Eq, Structural, Debug)]
pub struct Pos {
    pub line: usize,
    pub column: usize,
}

impl Default for Pos {
    /// The position used where no source location applies.
    fn default() -> (r: Self)
        ensures
            r.line == 0 && r.column == 0,
    {
        Pos { line: 0, column: 0 }
    }
}

/// A directive applied to a selection-set member, such as `@skip(if: $v)`.
pub struct Directive {
    pub position: Pos,
    pub name: String,
    pub arguments: Vec<(String, Value)>,
}

pub struct DirectiveV {
    pub position: Pos,
    pub name: Seq<char>,
    pub arguments: Seq<(Seq<char>, ValueV)>,
}

pub open spec fn directive_view(d: Directive) -> DirectiveV {
    DirectiveV { position: d.position, name: d.name@, arguments: args_view(d.arguments@) }
}

pub open spec fn directives_view(ds: Seq<Directive>) -> Seq<DirectiveV> {
    ds.map_values(|d: Directive| directive_view(d))
}

impl View for Directive {
    type V = DirectiveV;

    open spec fn view(&self) -> DirectiveV {
        directive_view(*self)
    }
}

/// The type condition of an inline fragment or fragment definition.
pub enum TypeCondition {
    On(String),
}

pub enum TypeConditionV {
    On(Seq<char>),
}

pub open spec fn type_condition_view(t: TypeCondition) -> TypeConditionV {
    match t {
        TypeCondition::On(name) => TypeConditionV::On(name@),
    }
}

impl View for TypeCondition {
    type V = TypeConditionV;

    open spec fn view(&self) -> TypeConditionV {
        type_condition_view(*self)
    }
}

/// An ordered list of selections requested at one level.
pub struct SelectionSet {
    pub span: (Pos, Pos),
    pub items: Vec<Selection>,
}

/// One member of a selection set.
pub enum Selection {
    Field(Field),
    FragmentSpread(FragmentSpread),
    InlineFragment(InlineFragment),
}

/// A field request, possibly aliased, with arguments, directives and a
/// sub-selection.
pub struct Field {
    pub position: Pos,
    pub alias: Option<String>,
    pub name: String,
    pub arguments: Vec<(String, Value)>,
    pub directives: Vec<Directive>,
    pub selection_set: SelectionSet,
}

/// A named-fragment spread: `...name`.
pub struct FragmentSpread {
    pub position: Pos,
    pub fragment_name: String,
    pub directives: Vec<Directive>,
}

/// An inline fragment: `... on Name { ... }` or `... { ... }`.
pub struct InlineFragment {
    pub position: Pos,
    pub type_condition: Option<TypeCondition>,
    pub directives: Vec<Directive>,
    pub selection_set: SelectionSet,
}

#[verifier::ext_equal]
pub struct SelectionSetV {
    pub span: (Pos, Pos),
    pub items: Seq<SelectionV>,
}

#[verifier::ext_equal]
pub enum SelectionV {
    Field(FieldV),
    FragmentSpread(FragmentSpreadV),
    InlineFragment(InlineFragmentV),
}

#[verifier::ext_equal]
pub struct FieldV {
    pub position: Pos,
    pub alias: Option<Seq<char>>,
    pub name: Seq<char>,
    pub arguments: Seq<(Seq<char>, ValueV)>,
    pub directives: Seq<DirectiveV>,
    pub selection_set: SelectionSetV,
}

#[verifier::ext_equal]
pub struct FragmentSpreadV {
    pub position: Pos,
    pub fragment_name: Seq<char>,
    pub directives: Seq<DirectiveV>,
}

#[verifier::ext_equal]
pub struct InlineFragmentV {
    pub position: Pos,
    pub type_condition: Option<TypeConditionV>,
    pub directives: Seq<DirectiveV>,
    pub selection_set: SelectionSetV,
}

pub open spec fn opt_str_view(o: Option<String>) -> Option<Seq<char>> {
    match o {
        Some(s) => Some(s@),
        None => None,
    }
}

pub open spec fn opt_type_condition_view(o: Option<TypeCondition>) -> Option<TypeConditionV> {
    match o {
        Some(t) => Some(type_condition_view(t)),
        None => None,
    }
}

pub open spec fn selection_set_view(ss: SelectionSet) -> SelectionSetV
    decreases ss,
{
    SelectionSetV {
        span: ss.span,
        items: Seq::new(
            ss.items@.len(),
            |i: int|
                if 0 <= i < ss.items@.len() {
                    selection_view(ss.items@[i])
                } else {
                    SelectionV::FragmentSpread(
                        FragmentSpreadV {
                            position: Pos { line: 0, column: 0 },
                            fragment_name: Seq::empty(),
                            directives: Seq::empty(),
                        },
                    )
                },
        ),
    }
}

pub open spec fn selection_view(s: Selection) -> SelectionV
    decreases s,
{
    match s {
        Selection::Field(f) => SelectionV::Field(field_view(f)),
        Selection::FragmentSpread(fs) => SelectionV::FragmentSpread(
            FragmentSpreadV {
                position: fs.position,
                fragment_name: fs.fragment_name@,
                directives: directives_view(fs.directives@),
            },
        ),
        Selection::InlineFragment(inf) => SelectionV::InlineFragment(
            InlineFragmentV {
                position: inf.position,
                type_condition: opt_type_condition_view(inf.type_condition),
                directives: directives_view(inf.directives@),
                selection_set: selection_set_view(inf.selection_set),
            },
        ),
    }
}

pub open spec fn field_view(f: Field) -> FieldV
    decreases f,
{
    FieldV {
        position: f.position,
        alias: opt_str_view(f.alias),
        name: f.name@,
        arguments: args_view(f.arguments@),
        directives: directives_view(f.directives@),
        selection_set: selection_set_view(f.selection_set),
    }
}

impl View for SelectionSet {
    type V = SelectionSetV;

    open spec fn view(&self) -> SelectionSetV {
        selection_set_view(*self)
    }
}

impl View for Selection {
    type V = SelectionV;

    open spec fn view(&self) -> SelectionV {
        selection_view(*self)
    }
}

impl View for Field {
    type V = FieldV;

    open spec fn view(&self) -> FieldV {
        field_view(*self)
    }
}

/// The client-visible JSON key of a field: its alias if present, else its
/// name.
pub open spec fn result_key(f: FieldV) -> Seq<char> {
    match f.alias {
        Some(a) => a,
        None => f.name,
    }
}

/// A named fragment definition.
pub struct FragmentDefinition {
    pub position: Pos,
    pub name: String,
    pub type_condition: TypeCondition,
    pub directives: Vec<Directive>,
    pub selection_set: SelectionSet,
}

#[verifier::ext_equal]
pub struct FragmentDefinitionV {
    pub position: Pos,
    pub name: Seq<char>,
    pub type_condition: TypeConditionV,
    pub directives: Seq<DirectiveV>,
    pub selection_set: SelectionSetV,
}

pub open spec fn fragment_definition_view(f: FragmentDefinition) -> FragmentDefinitionV {
    FragmentDefinitionV {
        position: f.position,
        name: f.name@,
        type_condition: type_condition_view(f.type_condition),
        directives: directives_view(f.directives@),
        selection_set: selection_set_view(f.selection_set),
    }
}

impl View for FragmentDefinition {
    type V = FragmentDefinitionV;

    open spec fn view(&self) -> FragmentDefinitionV {
        fragment_definition_view(*self)
    }
}

/// A variable declared by the operation, with its type in GraphQL syntax and
/// its optional default.
pub struct VariableDefinition {
    pub position: Pos,
    pub name: String,
    pub var_type: String,
    pub default_value: Option<Value>,
}

#[verifier::ext_equal]
pub struct VariableDefinitionV {
    pub position: Pos,
    pub name: Seq<char>,
    pub var_type: Seq<char>,
    pub default_value: Option<ValueV>,
}

pub open spec fn opt_value_view(o: Option<Value>) -> Option<ValueV> {
    match o {
        Some(v) => Some(value_view(v)),
        None => None,
    }
}

pub open spec fn variable_definition_view(d: VariableDefinition) -> VariableDefinitionV {
    VariableDefinitionV {
        position: d.position,
        name: d.name@,
        var_type: d.var_type@,
        default_value: opt_value_view(d.default_value),
    }
}

impl View for VariableDefinition {
    type V = VariableDefinitionV;

    open spec fn view(&self) -> VariableDefinitionV {
        variable_definition_view(*self)
    }
}

pub open spec fn variable_definitions_view(ds: Seq<VariableDefinition>) -> Seq<
    VariableDefinitionV,
> {
    ds.map_values(|d: VariableDefinition| variable_definition_view(d))
}

/// The body shared by named query, mutation and subscription operations.
pub struct OperationBody {
    pub position: Pos,
    pub name: Option<String>,
    pub variable_definitions: Vec<VariableDefinition>,
    pub directives: Vec<Directive>,
    pub selection_set: SelectionSet,
}

/// One operation of a document.
pub enum OperationDefinition {
    SelectionSet(SelectionSet),
    Query(OperationBody),
    Mutation(OperationBody),
    Subscription(OperationBody),
}

/// One definition of a document: an operation or a fragment.
pub enum Definition {
    Operation(OperationDefinition),
    Fragment(FragmentDefinition),
}

/// A parsed query document.
pub struct Document {
    pub definitions: Vec<Definition>,
}

#[verifier::ext_equal]
pub struct OperationBodyV {
    pub position: Pos,
    pub name: Option<Seq<char>>,
    pub variable_definitions: Seq<VariableDefinitionV>,
    pub directives: Seq<DirectiveV>,
    pub selection_set: SelectionSetV,
}

#[verifier::ext_equal]
pub enum OperationDefinitionV {
    SelectionSet(SelectionSetV),
    Query(OperationBodyV),
    Mutation(OperationBodyV),
    Subscription(OperationBodyV),
}

#[verifier::ext_equal]
pub enum DefinitionV {
    Operation(OperationDefinitionV),
    Fragment(FragmentDefinitionV),
}

#[verifier::ext_equal]
pub struct DocumentV {
    pub definitions: Seq<DefinitionV>,
}

pub open spec fn operation_body_view(b: OperationBody) -> OperationBodyV {
    OperationBodyV {
        position: b.position,
        name: opt_str_view(b.name),
        variable_definitions: variable_definitions_view(b.variable_definitions@),
        directives: directives_view(b.directives@),
        selection_set: selection_set_view(b.selection_set),
    }
}

pub open spec fn operation_definition_view(o: OperationDefinition) -> OperationDefinitionV {
    match o {
        OperationDefinition::SelectionSet(ss) => OperationDefinitionV::SelectionSet(
            selection_set_view(ss),
        ),
        OperationDefinition::Query(b) => OperationDefinitionV::Query(operation_body_view(b)),
        OperationDefinition::Mutation(b) => OperationDefinitionV::Mutation(operation_body_view(b)),
        OperationDefinition::Subscription(b) => OperationDefinitionV::Subscription(
            operation_body_view(b),
        ),
    }
}

pub open spec fn definition_view(d: Definition) -> DefinitionV {
    match d {
        Definition::Operation(o) => DefinitionV::Operation(operation_definition_view(o)),
        Definition::Fragment(f) => DefinitionV::Fragment(fragment_definition_view(f)),
    }
}

pub open spec fn document_view(d: Document) -> DocumentV {
    DocumentV { definitions: d.definitions@.map_values(|x: Definition| definition_view(x)) }
}

impl View for Document {
    type V = DocumentV;

    open spec fn view(&self) -> DocumentV {
        document_view(*self)
    }
}

/// Structure-preserving clone of a directive.
#[verifier::loop_isolation(false)]
pub fn clone_directive(d: &Directive) -> (r: Directive)
    ensures
        r@ == d@,
{
    let r = Directive {
        position: d.position,
        name: d.name.clone(),
        arguments: clone_arguments(&d.arguments),
    };
    proof {
        assert(r@.arguments =~= d@.arguments);
        assert(r@ =~= d@);
    }
    r
}

/// Structure-preserving clone of a directive list.
#[verifier::loop_isolation(false)]
pub fn clone_directives(ds: &Vec<Directive>) -> (r: Vec<Directive>)
    ensures
        directives_view(r@) == directives_view(ds@),
{
    let mut out: Vec<Directive> = Vec::new();
    let n = ds.len();
    for i in 0..n
        invariant
            n == ds@.len(),
            out@.len() == i,
            forall|k: int| #![trigger out@[k]] 0 <= k < i ==> directive_view(out@[k])
                == directive_view(ds@[k]),
        decreases n - i,
    {
        let elem = clone_directive(&ds[i]);
        out.push(elem);
    }
    proof {
        assert(directives_view(out@) =~= directives_view(ds@));
    }
    out
}

/// Structure-preserving clone of a selection set.
#[verifier::loop_isolation(false)]
pub fn clone_selection_set(ss: &SelectionSet) -> (r: SelectionSet)
    ensures
        r@ == ss@,
    decreases *ss,
{
    let mut out: Vec<Selection> = Vec::new();
    let n = ss.items.len();
    for i in 0..n
        invariant
            n == ss.items@.len(),
            out@.len() == i,
            forall|k: int| #![trigger out@[k]] 0 <= k < i ==> selection_view(out@[k])
                == selection_view(ss.items@[k]),
        decreases n - i,
    {
        proof {
            assert(decreases_to!(*ss => ss.items));
            assert(decreases_to!(ss.items => ss.items@[i as int]));
        }
        let elem = clone_selection(&ss.items[i]);
        out.push(elem);
    }
    let r = SelectionSet { span: (ss.span.0, ss.span.1), items: out };
    proof {
        assert(selection_set_view(r).items =~= selection_set_view(*ss).items);
        assert(selection_set_view(r) =~= selection_set_view(*ss));
    }
    r
}

/// Structure-preserving clone of a selection.
pub fn clone_selection(s: &Selection) -> (r: Selection)
    ensures
        r@ == s@,
    decreases *s,
{
    match s {
        Selection::Field(f) => {
            proof {
                assert(decreases_to!(*s => *f));
            }
            Selection::Field(clone_field(f))
        },
        Selection::FragmentSpread(fs) => {
            let r = Selection::FragmentSpread(
                FragmentSpread {
                    position: fs.position,
                    fragment_name: fs.fragment_name.clone(),
                    directives: clone_directives(&fs.directives),
                },
            );
            proof {
                assert(selection_view(r) =~= selection_view(*s));
            }
            r
        },
        Selection::InlineFragment(inf) => {
            proof {
                assert(decreases_to!(*s => *inf));
                assert(decreases_to!(*inf => inf.selection_set));
            }
            let tc = match &inf.type_condition {
                Some(TypeCondition::On(name)) => Some(TypeCondition::On(name.clone())),
                None => None,
            };
            let r = Selection::InlineFragment(
                InlineFragment {
                    position: inf.position,
                    type_condition: tc,
                    directives: clone_directives(&inf.directives),
                    selection_set: clone_selection_set(&inf.selection_set),
                },
            );
            proof {
                assert(selection_view(r) =~= selection_view(*s));
            }
            r
        },
    }
}

/// Structure-preserving clone of a field.
pub fn clone_field(f: &Field) -> (r: Field)
    ensures
        r@ == f@,
    decreases *f,
{
    proof {
        assert(decreases_to!(*f => f.selection_set));
    }
    let alias = match &f.alias {
        Some(a) => Some(a.clone()),
        None => None,
    };
    let r = Field {
        position: f.position,
        alias,
        name: f.name.clone(),
        arguments: clone_arguments(&f.arguments),
        directives: clone_directives(&f.directives),
        selection_set: clone_selection_set(&f.selection_set),
    };
    proof {
        assert(field_view(r) =~= field_view(*f));
    }
    r
}

/// Structure-preserving clone of a fragment definition.
pub fn clone_fragment_definition(f: &FragmentDefinition) -> (r: FragmentDefinition)
    ensures
        r@ == f@,
{
    let TypeCondition::On(name) = &f.type_condition;
    let r = FragmentDefinition {
        position: f.position,
        name: f.name.clone(),
        type_condition: TypeCondition::On(name.clone()),
        directives: clone_directives(&f.directives),
        selection_set: clone_selection_set(&f.selection_set),
    };
    proof {
        assert(fragment_definition_view(r) =~= fragment_definition_view(*f));
    }
    r
}

/// Structure-preserving clone of a variable definition.
pub fn clone_variable_definition(d: &VariableDefinition) -> (r: VariableDefinition)
    ensures
        r@ == d@,
{
    let dv = match &d.default_value {
        Some(v) => Some(crate::value::clone_value(v)),
        None => None,
    };
    let r = VariableDefinition {
        position: d.position,
        name: d.name.clone(),
        var_type: d.var_type.clone(),
        default_value: dv,
    };
    proof {
        assert(variable_definition_view(r) =~= variable_definition_view(*d));
    }
    r
}

} // verus!
