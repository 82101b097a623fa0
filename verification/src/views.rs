//! What the service shows of schema variants and functions.

use vstd::prelude::*;
use crate::content_types::{FuncBackendKind, FuncId};
use crate::visibility::Visibility;
use crate::ws_event::ComponentId;

verus! {

pub type OutputSocketId = i64;

pub type InputSocketId = i64;

pub type SchemaVariantId = i64;

pub type SchemaId = i64;

/// The identifier that stands for none.
pub const UNSET_ID: i64 = -1;

#[derive(Clone, Debug, PartialEq, Eq)]
pub struct OutputSocketView {
    pub(crate) id: OutputSocketId,
    pub(crate) name: String,
}

impl OutputSocketView {
    pub open(crate) spec fn spec_id(&self) -> OutputSocketId {
        self.id
    }

    pub open(crate) spec fn spec_name(&self) -> Seq<char> {
        self.name@
    }

    pub fn new(id: OutputSocketId, name: String) -> (v: OutputSocketView)
        ensures
            v.spec_id() == id,
            v.spec_name() == name@,
    {
        OutputSocketView { id, name }
    }

    pub fn id(&self) -> (r: OutputSocketId)
        ensures
            r == self.spec_id(),
    {
        self.id
    }

    pub fn name(&self) -> (s: &str)
        ensures
            s@ == self.spec_name(),
    {
        self.name.as_str()
    }
}

#[derive(Clone, Debug, PartialEq, Eq)]
pub struct InputSocketView {
    pub(crate) id: InputSocketId,
    pub(crate) name: String,
}

impl InputSocketView {
    pub open(crate) spec fn spec_id(&self) -> InputSocketId {
        self.id
    }

    pub open(crate) spec fn spec_name(&self) -> Seq<char> {
        self.name@
    }

    pub fn new(id: InputSocketId, name: String) -> (v: InputSocketView)
        ensures
            v.spec_id() == id,
            v.spec_name() == name@,
    {
        InputSocketView { id, name }
    }

    pub fn id(&self) -> (r: InputSocketId)
        ensures
            r == self.spec_id(),
    {
        self.id
    }

    pub fn name(&self) -> (s: &str)
        ensures
            s@ == self.spec_name(),
    {
        self.name.as_str()
    }
}

/// A request for the list of schema variants, from a standpoint.
#[derive(Clone, Copy, Debug, PartialEq, Eq)]
pub struct ListSchemaVariantsRequest {
    pub visibility: Visibility,
}

/// A request for a function, from a standpoint.
#[derive(Clone, Copy, Debug, PartialEq, Eq)]
pub struct GetFuncRequest {
    pub id: FuncId,
    pub visibility: Visibility,
}

/// A variant of a schema, as loaded: what a list of variants is made from.
#[derive(Debug)]
pub struct VariantEntry {
    pub id: SchemaVariantId,
    pub name: String,
    pub ui_hidden: bool,
    pub category: String,
    pub color: Option<String>,
    pub input_sockets: Vec<InputSocketView>,
    pub output_sockets: Vec<OutputSocketView>,
}

/// A schema with its variants, as loaded.
#[derive(Debug)]
pub struct SchemaEntry {
    pub id: SchemaId,
    pub name: String,
    pub ui_hidden: bool,
    pub variants: Vec<VariantEntry>,
}

#[derive(Debug, PartialEq, Eq)]
pub struct SchemaVariantView {
    pub(crate) id: SchemaVariantId,
    pub(crate) builtin: bool,
    pub(crate) name: String,
    pub(crate) schema_name: String,
    pub(crate) schema_id: SchemaId,
    pub(crate) color: String,
    pub(crate) category: String,
    pub(crate) input_sockets: Vec<InputSocketView>,
    pub(crate) output_sockets: Vec<OutputSocketView>,
}

/// What the view of a schema variant shows.
pub ghost struct VariantModel {
    pub id: SchemaVariantId,
    pub builtin: bool,
    pub name: Seq<char>,
    pub schema_name: Seq<char>,
    pub schema_id: SchemaId,
    pub color: Seq<char>,
    pub category: Seq<char>,
    pub input_sockets: Seq<(InputSocketId, Seq<char>)>,
    pub output_sockets: Seq<(OutputSocketId, Seq<char>)>,
}

pub open(crate) spec fn inputs_shown(s: Seq<InputSocketView>) -> Seq<(InputSocketId, Seq<char>)> {
    Seq::new(s.len(), |i: int| (s[i].id, s[i].name@))
}

pub open(crate) spec fn outputs_shown(s: Seq<OutputSocketView>) -> Seq<(OutputSocketId, Seq<char>)> {
    Seq::new(s.len(), |i: int| (s[i].id, s[i].name@))
}

impl View for SchemaVariantView {
    type V = VariantModel;

    open(crate) spec fn view(&self) -> VariantModel {
        VariantModel {
            id: self.id,
            builtin: self.builtin,
            name: self.name@,
            schema_name: self.schema_name@,
            schema_id: self.schema_id,
            color: self.color@,
            category: self.category@,
            input_sockets: inputs_shown(self.input_sockets@),
            output_sockets: outputs_shown(self.output_sockets@),
        }
    }
}

/// The view of a variant of a schema: always shown as built in; without a
/// colour of its own it is shown in `#0F0F0F`.
pub open spec fn variant_view_of(schema: SchemaEntry, variant: VariantEntry) -> VariantModel {
    VariantModel {
        id: variant.id,
        builtin: true,
        name: variant.name@,
        schema_name: schema.name@,
        schema_id: schema.id,
        color: match variant.color {
            Some(c) => c@,
            None => "#0F0F0F"@,
        },
        category: variant.category@,
        input_sockets: inputs_shown(variant.input_sockets@),
        output_sockets: outputs_shown(variant.output_sockets@),
    }
}

/// The views of the variants of one schema that are not hidden, in their order.
pub open spec fn variant_views_of(schema: SchemaEntry, variants: Seq<VariantEntry>) -> Seq<
    VariantModel,
>
    decreases variants.len(),
{
    if variants.len() == 0 {
        Seq::<VariantModel>::empty()
    } else if variants.last().ui_hidden {
        variant_views_of(schema, variants.drop_last())
    } else {
        variant_views_of(schema, variants.drop_last()).push(
            variant_view_of(schema, variants.last()),
        )
    }
}

/// The views of the variants, not hidden, of the schemas that are not
/// hidden, schema by schema in their order.
pub open spec fn schema_variant_views_of(schemas: Seq<SchemaEntry>) -> Seq<VariantModel>
    decreases schemas.len(),
{
    if schemas.len() == 0 {
        Seq::<VariantModel>::empty()
    } else if schemas.last().ui_hidden {
        schema_variant_views_of(schemas.drop_last())
    } else {
        schema_variant_views_of(schemas.drop_last()) + variant_views_of(
            schemas.last(),
            schemas.last().variants@,
        )
    }
}

/// What a list of views shows.
pub open spec fn variants_shown(views: Seq<SchemaVariantView>) -> Seq<VariantModel> {
    Seq::new(views.len(), |i: int| views[i]@)
}

fn copy_inputs(src: &Vec<InputSocketView>) -> (out: Vec<InputSocketView>)
    ensures
        inputs_shown(out@) == inputs_shown(src@),
{
    let mut out: Vec<InputSocketView> = Vec::new();
    let mut i: usize = 0;
    while i < src.len()
        invariant
            i <= src@.len(),
            out@.len() == i,
            forall|k: int|
                0 <= k < i ==> (#[trigger] out@[k]).id == src@[k].id && out@[k].name@
                    == src@[k].name@,
        decreases src@.len() - i,
    {
        out.push(InputSocketView { id: src[i].id, name: src[i].name.clone() });
        i += 1;
    }
    proof {
        assert(inputs_shown(out@) =~= inputs_shown(src@));
    }
    out
}

fn copy_outputs(src: &Vec<OutputSocketView>) -> (out: Vec<OutputSocketView>)
    ensures
        outputs_shown(out@) == outputs_shown(src@),
{
    let mut out: Vec<OutputSocketView> = Vec::new();
    let mut i: usize = 0;
    while i < src.len()
        invariant
            i <= src@.len(),
            out@.len() == i,
            forall|k: int|
                0 <= k < i ==> (#[trigger] out@[k]).id == src@[k].id && out@[k].name@
                    == src@[k].name@,
        decreases src@.len() - i,
    {
        out.push(OutputSocketView { id: src[i].id, name: src[i].name.clone() });
        i += 1;
    }
    proof {
        assert(outputs_shown(out@) =~= outputs_shown(src@));
    }
    out
}

impl SchemaVariantView {
    /// The view of one variant of a schema.
    pub fn of(schema: &SchemaEntry, variant: &VariantEntry) -> (v: SchemaVariantView)
        ensures
            v@ == variant_view_of(*schema, *variant),
    {
        let color = match &variant.color {
            Some(c) => c.clone(),
            None => String::from_str("#0F0F0F"),
        };
        SchemaVariantView {
            id: variant.id,
            builtin: true,
            name: variant.name.clone(),
            schema_name: schema.name.clone(),
            schema_id: schema.id,
            color,
            category: variant.category.clone(),
            input_sockets: copy_inputs(&variant.input_sockets),
            output_sockets: copy_outputs(&variant.output_sockets),
        }
    }

    pub fn id(&self) -> (r: SchemaVariantId)
        ensures
            r == self@.id,
    {
        self.id
    }

    pub fn builtin(&self) -> (r: bool)
        ensures
            r == self@.builtin,
    {
        self.builtin
    }

    pub fn name(&self) -> (s: &str)
        ensures
            s@ == self@.name,
    {
        self.name.as_str()
    }

    pub fn schema_name(&self) -> (s: &str)
        ensures
            s@ == self@.schema_name,
    {
        self.schema_name.as_str()
    }

    pub fn schema_id(&self) -> (r: SchemaId)
        ensures
            r == self@.schema_id,
    {
        self.schema_id
    }

    pub fn color(&self) -> (s: &str)
        ensures
            s@ == self@.color,
    {
        self.color.as_str()
    }

    pub fn category(&self) -> (s: &str)
        ensures
            s@ == self@.category,
    {
        self.category.as_str()
    }

    pub fn input_sockets(&self) -> (s: &Vec<InputSocketView>)
        ensures
            inputs_shown(s@) == self@.input_sockets,
    {
        &self.input_sockets
    }

    pub fn output_sockets(&self) -> (s: &Vec<OutputSocketView>)
        ensures
            outputs_shown(s@) == self@.output_sockets,
    {
        &self.output_sockets
    }
}

/// The views of the variants, not hidden, of the schemas that are not
/// hidden, schema by schema in their order.
pub fn list_schema_variants(schemas: &Vec<SchemaEntry>) -> (views: Vec<SchemaVariantView>)
    ensures
        variants_shown(views@) == schema_variant_views_of(schemas@),
{
    let mut views: Vec<SchemaVariantView> = Vec::new();
    let mut i: usize = 0;
    proof {
        assert(schemas@.take(0) =~= Seq::<SchemaEntry>::empty());
        assert(variants_shown(views@) =~= schema_variant_views_of(schemas@.take(0)));
    }
    while i < schemas.len()
        invariant
            i <= schemas@.len(),
            variants_shown(views@) == schema_variant_views_of(schemas@.take(i as int)),
        decreases schemas@.len() - i,
    {
        let schema = &schemas[i];
        let ghost head = variants_shown(views@);
        proof {
            assert(schemas@.take(i + 1).drop_last() =~= schemas@.take(i as int));
            assert(schemas@.take(i + 1).last() == schemas@[i as int]);
        }
        if !schema.ui_hidden {
            let mut j: usize = 0;
            proof {
                assert(schema.variants@.take(0) =~= Seq::<VariantEntry>::empty());
                assert(head + variant_views_of(*schema, schema.variants@.take(0)) =~= head);
            }
            while j < schema.variants.len()
                invariant
                    j <= schema.variants@.len(),
                    variants_shown(views@) == head + variant_views_of(
                        *schema,
                        schema.variants@.take(j as int),
                    ),
                decreases schema.variants@.len() - j,
            {
                let variant = &schema.variants[j];
                let ghost before = views@;
                proof {
                    assert(schema.variants@.take(j + 1).drop_last() =~= schema.variants@.take(
                        j as int,
                    ));
                    assert(schema.variants@.take(j + 1).last() == schema.variants@[j as int]);
                }
                if !variant.ui_hidden {
                    let v = SchemaVariantView::of(schema, variant);
                    views.push(v);
                    proof {
                        assert(variants_shown(views@) =~= variants_shown(before).push(v@));
                        assert(variants_shown(views@) =~= head + variant_views_of(
                            *schema,
                            schema.variants@.take(j + 1),
                        ));
                    }
                }
                j += 1;
            }
            proof {
                assert(schema.variants@.take(schema.variants@.len() as int) =~= schema.variants@);
            }
        }
        i += 1;
    }
    proof {
        assert(schemas@.take(schemas@.len() as int) =~= schemas@);
    }
    views
}

/// What a prototype of a function is bound to: a schema variant, a
/// component, or neither. `UNSET_ID` stands for none.
#[derive(Clone, Copy, Debug, PartialEq, Eq, Structural)]
pub struct PrototypeContext {
    pub schema_variant_id: SchemaVariantId,
    pub component_id: ComponentId,
}

/// The schema variants that the prototypes are bound to, in their order.
pub open spec fn bound_variants(contexts: Seq<PrototypeContext>) -> Seq<SchemaVariantId>
    decreases contexts.len(),
{
    if contexts.len() == 0 {
        Seq::<SchemaVariantId>::empty()
    } else if contexts.last().schema_variant_id != UNSET_ID {
        bound_variants(contexts.drop_last()).push(contexts.last().schema_variant_id)
    } else {
        bound_variants(contexts.drop_last())
    }
}

/// The components that the prototypes which are bound to no schema variant
/// are bound to, in their order.
pub open spec fn bound_components(contexts: Seq<PrototypeContext>) -> Seq<ComponentId>
    decreases contexts.len(),
{
    if contexts.len() == 0 {
        Seq::<ComponentId>::empty()
    } else if contexts.last().schema_variant_id == UNSET_ID && contexts.last().component_id
        != UNSET_ID {
        bound_components(contexts.drop_last()).push(contexts.last().component_id)
    } else {
        bound_components(contexts.drop_last())
    }
}

/// A function, as loaded: what the response for it is made from.
#[derive(Debug)]
pub struct FuncEntry {
    pub id: FuncId,
    pub name: String,
    pub display_name: Option<String>,
    pub handler: Option<String>,
    pub backend_kind: FuncBackendKind,
    pub description: Option<String>,
    pub code: Option<String>,
    pub is_builtin: bool,
}

#[derive(Debug, PartialEq, Eq)]
pub struct GetFuncResponse {
    pub id: FuncId,
    pub handler: Option<String>,
    pub kind: FuncBackendKind,
    pub name: String,
    pub description: Option<String>,
    pub code: Option<String>,
    pub is_builtin: bool,
    pub is_revertable: bool,
    pub schema_variants: Vec<SchemaVariantId>,
    pub components: Vec<ComponentId>,
}

/// The response for a function: it goes by its display name where it has
/// one, and lists the schema variants and the components that its prototypes
/// are bound to.
pub fn get_func(func: FuncEntry, prototypes: &Vec<PrototypeContext>, is_revertable: bool) -> (r:
    GetFuncResponse)
    ensures
        r.id == func.id,
        r.handler == func.handler,
        r.kind == func.backend_kind,
        r.name == match func.display_name {
            Some(n) => n,
            None => func.name,
        },
        r.description == func.description,
        r.code == func.code,
        r.is_builtin == func.is_builtin,
        r.is_revertable == is_revertable,
        r.schema_variants@ == bound_variants(prototypes@),
        r.components@ == bound_components(prototypes@),
{
    let mut schema_variants: Vec<SchemaVariantId> = Vec::new();
    let mut components: Vec<ComponentId> = Vec::new();
    let mut i: usize = 0;
    proof {
        assert(prototypes@.take(0) =~= Seq::<PrototypeContext>::empty());
    }
    while i < prototypes.len()
        invariant
            i <= prototypes@.len(),
            schema_variants@ == bound_variants(prototypes@.take(i as int)),
            components@ == bound_components(prototypes@.take(i as int)),
        decreases prototypes@.len() - i,
    {
        let context = prototypes[i];
        proof {
            assert(prototypes@.take(i + 1).drop_last() =~= prototypes@.take(i as int));
            assert(prototypes@.take(i + 1).last() == prototypes@[i as int]);
        }
        if context.schema_variant_id != UNSET_ID {
            schema_variants.push(context.schema_variant_id);
        } else if context.component_id != UNSET_ID {
            components.push(context.component_id);
        }
        i += 1;
    }
    proof {
        assert(prototypes@.take(prototypes@.len() as int) =~= prototypes@);
    }
    GetFuncResponse {
        id: func.id,
        handler: func.handler,
        kind: func.backend_kind,
        name: match func.display_name {
            Some(n) => n,
            None => func.name,
        },
        description: func.description,
        code: func.code,
        is_builtin: func.is_builtin,
        is_revertable,
        schema_variants,
        components,
    }
}

} // verus!
