//! The typed content that the store holds, in its versions, with the
//! upgrade from each version to the next.

use vstd::prelude::*;
use crate::content::ContentKind;
use crate::digest::ContentHash;
use crate::visibility::Instant;
use crate::diagram::SocketArity;
use crate::ws_event::{ComponentId, PropId, UserPk};

verus! {

pub type FuncId = i64;

/// When a thing was made and when it was last changed.
#[derive(Clone, Copy, Debug, PartialEq, Eq)]
pub struct Timestamp {
    pub created_at: Instant,
    pub updated_at: Instant,
}

#[derive(Clone, Copy, Debug, PartialEq, Eq, Structural, Hash)]
pub enum ComponentType {
    AggregationFrame,
    Component,
    ConfigurationFrameDown,
    ConfigurationFrameUp,
}

#[derive(Clone, Copy, Debug, PartialEq, Eq, Structural, Hash)]
pub enum FuncBackendKind {
    Array,
    Boolean,
    Diff,
    Identity,
    Integer,
    JsAction,
    JsAttribute,
    JsAuthentication,
    Json,
    JsReconciliation,
    JsSchemaVariantDefinition,
    JsValidation,
    Mapping,
    Object,
    String,
    Unset,
    Validation,
}

#[derive(Clone, Copy, Debug, PartialEq, Eq, Structural, Hash)]
pub enum FuncBackendResponseType {
    Action,
    Array,
    Boolean,
    CodeGeneration,
    Identity,
    Integer,
    Json,
    Mapping,
    Object,
    Qualification,
    Reconciliation,
    SchemaVariantDefinition,
    String,
    Unset,
    Validation,
    Void,
}

/// What an action does to a resource.
#[derive(Clone, Copy, Debug, PartialEq, Eq, Structural, Hash)]
pub enum ActionKind {
    Create,
    Delete,
    Other,
    Refresh,
}

/// What an argument of a function holds.
#[derive(Clone, Copy, Debug, PartialEq, Eq, Structural, Hash)]
pub enum FuncArgumentKind {
    Any,
    Array,
    Boolean,
    Integer,
    Json,
    Mapping,
    Object,
    String,
}

/// Where a socket comes from.
#[derive(Clone, Copy, Debug, PartialEq, Eq, Structural, Hash)]
pub enum SocketKind {
    Frame,
    Standalone,
}

/// What may be connected to a socket.
#[derive(Clone, Debug, PartialEq, Eq)]
pub struct ConnectionAnnotation {
    pub tokens: Vec<String>,
}

/// What a property holds.
#[derive(Clone, Copy, Debug, PartialEq, Eq, Structural, Hash)]
pub enum PropKind {
    Array,
    Boolean,
    Integer,
    Json,
    Mapping,
    Object,
    String,
}

/// How a property is edited.
#[derive(Clone, Copy, Debug, PartialEq, Eq, Structural, Hash)]
pub enum WidgetKind {
    Array,
    Checkbox,
    CodeEditor,
    Color,
    ComboBox,
    Header,
    Mapping,
    Password,
    Secret,
    Select,
    Text,
    TextArea,
}

/// One choice that a widget offers.
#[derive(Clone, Debug, PartialEq, Eq)]
pub struct WidgetOption {
    pub label: String,
    pub value: String,
}

pub type WidgetOptions = Vec<WidgetOption>;

/// How an action ended.
#[derive(Clone, Copy, Debug, PartialEq, Eq, Structural, Hash)]
pub enum ActionCompletionStatus {
    Error,
    Failure,
    Success,
    Unstarted,
}

pub type ActionPrototypeId = i64;

/// A value of any shape, as the text that stands for it.
#[derive(Clone, Debug, PartialEq, Eq)]
pub struct CasValue {
    pub json: String,
}

/// How a validation ended.
#[derive(Clone, Copy, Debug, PartialEq, Eq, Structural, Hash)]
pub enum ValidationStatus {
    Pending,
    Error,
    Failure,
    Success,
}

#[derive(Clone, Debug, PartialEq, Eq)]
pub enum ContentTypeError {
    /// The content of a schema variant could not be upgraded; the text says why.
    SchemaVariantContent(String),
}

impl ContentTypeError {
    /// The error as a line of text.
    pub fn message(&self) -> (s: String)
        ensures
            s@ == match self {
                ContentTypeError::SchemaVariantContent(why) =>
                    "error extracting schema variant content : "@ + why@,
            },
    {
        match self {
            ContentTypeError::SchemaVariantContent(why) => {
                let mut s = String::from_str("error extracting schema variant content : ");
                vstd::string::StringExecFns::append(&mut s, why.as_str());
                s
            },
        }
    }
}

#[derive(Clone, Debug, PartialEq, Eq)]
pub enum DeprecatedActionContent {
    V1(DeprecatedActionContentV1),
}

#[derive(Clone, Debug, PartialEq, Eq)]
pub struct DeprecatedActionContentV1 {
    pub creation_user_pk: Option<UserPk>,
    pub timestamp: Timestamp,
}

#[derive(Clone, Debug, PartialEq, Eq)]
pub enum DeprecatedActionPrototypeContent {
    V1(DeprecatedActionPrototypeContentV1),
}

#[derive(Clone, Debug, PartialEq, Eq)]
pub struct DeprecatedActionPrototypeContentV1 {
    pub kind: ActionKind,
    pub name: Option<String>,
    pub timestamp: Timestamp,
}

#[derive(Clone, Debug, PartialEq, Eq)]
pub enum AttributePrototypeContent {
    V1(AttributePrototypeContentV1),
}

#[derive(Clone, Debug, PartialEq, Eq)]
pub struct AttributePrototypeContentV1 {
    pub timestamp: Timestamp,
}

#[derive(Clone, Debug, PartialEq, Eq)]
pub enum ComponentContent {
    V1(ComponentContentV1),
}

#[derive(Clone, Debug, PartialEq, Eq)]
pub struct ComponentContentV1 {
    pub timestamp: Timestamp,
    pub x: String,
    pub y: String,
    pub width: Option<String>,
    pub height: Option<String>,
}

#[derive(Clone, Debug, PartialEq, Eq)]
pub enum FuncContent {
    V1(FuncContentV1),
    V2(FuncContentV2),
}

#[derive(Clone, Debug, PartialEq, Eq)]
pub struct FuncContentV1 {
    pub timestamp: Timestamp,
    pub display_name: Option<String>,
    pub description: Option<String>,
    pub link: Option<String>,
    pub hidden: bool,
    pub builtin: bool,
    pub backend_response_type: FuncBackendResponseType,
    pub backend_kind: FuncBackendKind,
    pub handler: Option<String>,
    pub code_base64: Option<String>,
    /// A hash of the code above
    pub code_blake3: ContentHash,
}

#[derive(Clone, Debug, PartialEq, Eq)]
pub struct FuncContentV2 {
    pub timestamp: Timestamp,
    pub display_name: Option<String>,
    pub description: Option<String>,
    pub link: Option<String>,
    pub hidden: bool,
    pub builtin: bool,
    pub backend_response_type: FuncBackendResponseType,
    pub backend_kind: FuncBackendKind,
    pub handler: Option<String>,
    pub code_base64: Option<String>,
    /// A hash of the code above
    pub code_blake3: ContentHash,
    pub is_locked: bool,
}

/// The newest form of the content of a function: a first version taken
/// over field by field and locked, a second version as it is.
pub open spec fn func_upgraded(content: FuncContent) -> FuncContentV2 {
    match content {
        FuncContent::V1(v1) => FuncContentV2 {
            timestamp: v1.timestamp,
            display_name: v1.display_name,
            description: v1.description,
            link: v1.link,
            hidden: v1.hidden,
            builtin: v1.builtin,
            backend_response_type: v1.backend_response_type,
            backend_kind: v1.backend_kind,
            handler: v1.handler,
            code_base64: v1.code_base64,
            code_blake3: v1.code_blake3,
            is_locked: true,
        },
        FuncContent::V2(v2) => v2,
    }
}

/// To upgrade what is upgraded already changes nothing.
pub proof fn func_upgrade_is_idempotent(content: FuncContent)
    ensures
        func_upgraded(FuncContent::V2(func_upgraded(content))) == func_upgraded(content),
{
}

impl FuncContent {
    /// The kind under which the store holds this content.
    pub fn kind(&self) -> (k: ContentKind)
        ensures
            k == ContentKind::Func,
    {
        ContentKind::Func
    }

    /// The version of this content.
    pub fn version(&self) -> (v: u32)
        ensures
            v == match self {
                FuncContent::V1(_) => 1u32,
                FuncContent::V2(_) => 2u32,
            },
    {
        match self {
            FuncContent::V1(_) => 1,
            FuncContent::V2(_) => 2,
        }
    }

    /// The content in its newest form.
    pub fn extract(self) -> (latest: FuncContentV2)
        ensures
            latest == func_upgraded(self),
    {
        match self {
            FuncContent::V1(v1) => FuncContentV2 {
                timestamp: v1.timestamp,
                hidden: v1.hidden,
                display_name: v1.display_name,
                link: v1.link,
                description: v1.description,
                is_locked: true,
                builtin: v1.builtin,
                backend_response_type: v1.backend_response_type,
                backend_kind: v1.backend_kind,
                handler: v1.handler,
                code_base64: v1.code_base64,
                code_blake3: v1.code_blake3,
            },
            FuncContent::V2(v2) => v2,
        }
    }
}

#[derive(Clone, Debug, PartialEq, Eq)]
pub enum SchemaContent {
    V1(SchemaContentV1),
}

#[derive(Clone, Debug, PartialEq, Eq)]
pub struct SchemaContentV1 {
    pub timestamp: Timestamp,
    pub name: String,
    pub ui_hidden: bool,
    pub is_builtin: bool,
}

#[derive(Clone, Debug, PartialEq, Eq)]
pub enum SchemaVariantContent {
    V1(SchemaVariantContentV1),
    V2(SchemaVariantContentV2),
}

#[derive(Clone, Debug, PartialEq, Eq)]
pub struct SchemaVariantContentV1 {
    pub timestamp: Timestamp,
    pub ui_hidden: bool,
    pub name: String,
    pub display_name: Option<String>,
    pub category: String,
    pub color: String,
    pub component_type: ComponentType,
    pub link: Option<String>,
    pub description: Option<String>,
    pub asset_func_id: Option<FuncId>,
    pub finalized_once: bool,
    pub is_builtin: bool,
}

#[derive(Clone, Debug, PartialEq, Eq)]
pub struct SchemaVariantContentV2 {
    pub timestamp: Timestamp,
    pub ui_hidden: bool,
    pub version: String,
    pub display_name: String,
    pub category: String,
    pub color: String,
    pub component_type: ComponentType,
    pub link: Option<String>,
    pub description: Option<String>,
    pub asset_func_id: Option<FuncId>,
    pub finalized_once: bool,
    pub is_builtin: bool,
    pub is_locked: bool,
}

/// A first version of the content of a schema variant as a second one, under
/// the given display name: its name becomes the version, and it is locked.
pub open spec fn variant_upgraded_with(
    v1: SchemaVariantContentV1,
    display_name: String,
) -> SchemaVariantContentV2 {
    SchemaVariantContentV2 {
        timestamp: v1.timestamp,
        ui_hidden: v1.ui_hidden,
        version: v1.name,
        display_name,
        category: v1.category,
        color: v1.color,
        component_type: v1.component_type,
        link: v1.link,
        description: v1.description,
        asset_func_id: v1.asset_func_id,
        finalized_once: v1.finalized_once,
        is_builtin: v1.is_builtin,
        is_locked: true,
    }
}

/// The newest form of the content of a schema variant. A second version is
/// taken as it is. A first version with a display name is upgraded under that
/// name. A first version without one takes the name of its schema, which
/// `schema_name` holds, or fails with the reason why the name was not found.
pub open spec fn variant_upgraded(
    content: SchemaVariantContent,
    schema_name: Result<String, String>,
) -> Result<SchemaVariantContentV2, ContentTypeError> {
    match content {
        SchemaVariantContent::V2(v2) => Ok(v2),
        SchemaVariantContent::V1(v1) => match v1.display_name {
            Some(name) => Ok(variant_upgraded_with(v1, name)),
            None => match schema_name {
                Ok(name) => Ok(variant_upgraded_with(v1, name)),
                Err(why) => Err(ContentTypeError::SchemaVariantContent(why)),
            },
        },
    }
}

/// To upgrade what is upgraded already changes nothing, whatever the name of
/// the schema or the outcome of looking it up.
pub proof fn variant_upgrade_is_idempotent(
    content: SchemaVariantContent,
    first: Result<String, String>,
    second: Result<String, String>,
)
    requires
        variant_upgraded(content, first) is Ok,
    ensures
        variant_upgraded(SchemaVariantContent::V2(variant_upgraded(content, first)->Ok_0), second)
            == variant_upgraded(content, first),
{
}

impl SchemaVariantContent {
    /// The kind under which the store holds this content.
    pub fn kind(&self) -> (k: ContentKind)
        ensures
            k == ContentKind::SchemaVariant,
    {
        ContentKind::SchemaVariant
    }

    /// The version of this content.
    pub fn version(&self) -> (v: u32)
        ensures
            v == match self {
                SchemaVariantContent::V1(_) => 1u32,
                SchemaVariantContent::V2(_) => 2u32,
            },
    {
        match self {
            SchemaVariantContent::V1(_) => 1,
            SchemaVariantContent::V2(_) => 2,
        }
    }

    /// Whether the upgrade of this content reads the name of its schema: it
    /// does for a first version without a display name.
    pub fn needs_schema_name(&self) -> (r: bool)
        ensures
            r == (*self matches SchemaVariantContent::V1(v1) && v1.display_name is None),
    {
        match self {
            SchemaVariantContent::V1(v1) => v1.display_name.is_none(),
            SchemaVariantContent::V2(_) => false,
        }
    }

    /// The content in its newest form. `schema_name` is the name of the
    /// schema of the variant, or the reason why it was not found; it is read
    /// only where `needs_schema_name` holds.
    pub fn extract(self, schema_name: Result<String, String>) -> (r: Result<
        SchemaVariantContentV2,
        ContentTypeError,
    >)
        ensures
            r == variant_upgraded(self, schema_name),
    {
        match self {
            SchemaVariantContent::V1(v1) => {
                let display_name = match v1.display_name {
                    Some(name) => name,
                    None => match schema_name {
                        Ok(name) => name,
                        Err(why) => {
                            return Err(ContentTypeError::SchemaVariantContent(why));
                        },
                    },
                };
                Ok(
                    SchemaVariantContentV2 {
                        timestamp: v1.timestamp,
                        ui_hidden: v1.ui_hidden,
                        version: v1.name,
                        display_name,
                        category: v1.category,
                        color: v1.color,
                        component_type: v1.component_type,
                        link: v1.link,
                        description: v1.description,
                        asset_func_id: v1.asset_func_id,
                        finalized_once: v1.finalized_once,
                        is_builtin: v1.is_builtin,
                        is_locked: true,
                    },
                )
            },
            SchemaVariantContent::V2(v2) => Ok(v2),
        }
    }
}

#[derive(Clone, Debug, PartialEq, Eq)]
pub enum SecretContent {
    V1(SecretContentV1),
}

#[derive(Clone, Debug, PartialEq, Eq)]
pub struct SecretContentV1 {
    pub timestamp: Timestamp,
    pub created_by: Option<UserPk>,
    pub updated_by: Option<UserPk>,
    pub name: String,
    pub definition: String,
    pub description: Option<String>,
}

#[derive(Clone, Debug, PartialEq, Eq)]
pub enum FuncArgumentContent {
    V1(FuncArgumentContentV1),
}

#[derive(Clone, Debug, PartialEq, Eq)]
pub struct FuncArgumentContentV1 {
    pub kind: FuncArgumentKind,
    pub element_kind: Option<FuncArgumentKind>,
    pub timestamp: Timestamp,
}

#[derive(Clone, Debug, PartialEq, Eq)]
pub enum InputSocketContent {
    V1(InputSocketContentV1),
}

#[derive(Clone, Debug, PartialEq, Eq)]
pub struct InputSocketContentV1 {
    pub timestamp: Timestamp,
    /// Name that can be used for identification.
    pub name: String,
    /// Definition of the inbound type (e.g. "JSONSchema" or "Number").
    pub inbound_type_definition: Option<String>,
    /// Definition of the outbound type (e.g. "JSONSchema" or "Number").
    pub outbound_type_definition: Option<String>,
    pub arity: SocketArity,
    pub kind: SocketKind,
    pub required: bool,
    pub ui_hidden: bool,
    pub connection_annotations: Vec<ConnectionAnnotation>,
}

#[derive(Clone, Debug, PartialEq, Eq)]
pub enum OutputSocketContent {
    V1(OutputSocketContentV1),
}

#[derive(Clone, Debug, PartialEq, Eq)]
pub struct OutputSocketContentV1 {
    pub timestamp: Timestamp,
    /// Name that can be used for identification.
    pub name: String,
    /// Definition of the data type (e.g. "JSONSchema" or "Number").
    pub type_definition: Option<String>,
    pub arity: SocketArity,
    pub kind: SocketKind,
    pub required: bool,
    pub ui_hidden: bool,
    pub connection_annotations: Vec<ConnectionAnnotation>,
}

#[derive(Clone, Debug, PartialEq, Eq)]
pub enum PropContent {
    V1(PropContentV1),
}

#[derive(Clone, Debug, PartialEq, Eq)]
pub struct PropContentV1 {
    pub timestamp: Timestamp,
    /// The name of the property.
    pub name: String,
    /// The kind of the property.
    pub kind: PropKind,
    /// The kind of "widget" that should be used for this property.
    pub widget_kind: WidgetKind,
    /// The configuration of the "widget".
    pub widget_options: Option<WidgetOptions>,
    /// A link to external documentation for working with this property.
    pub doc_link: Option<String>,
    /// Embedded documentation for working with this property.
    pub documentation: Option<String>,
    /// A toggle for whether or not the property should be visually hidden.
    pub hidden: bool,
    /// Properties can be connected to each other to signify that they
    /// should contain the same value.
    pub refers_to_prop_id: Option<PropId>,
    /// Connected properties may need a custom diff function.
    pub diff_func_id: Option<FuncId>,
    /// A serialized validation format JSON object for the property.
    pub validation_format: Option<String>,
}

#[derive(Clone, Debug, PartialEq, Eq)]
pub enum ValidationContent {
    V1(ValidationContentV1),
}

#[derive(Clone, Debug, PartialEq, Eq)]
pub struct ValidationContentV1 {
    pub timestamp: Timestamp,
    pub status: ValidationStatus,
    pub message: Option<String>,
}

#[derive(Clone, Debug, PartialEq, Eq)]
pub enum DeprecatedActionBatchContent {
    V1(DeprecatedActionBatchContentV1),
}

#[derive(Clone, Debug, PartialEq, Eq)]
pub struct DeprecatedActionBatchContentV1 {
    pub author: String,
    pub actors: String,
    pub started_at: Option<Instant>,
    pub finished_at: Option<Instant>,
    pub completion_status: Option<ActionCompletionStatus>,
    pub timestamp: Timestamp,
}

#[derive(Clone, Debug, PartialEq, Eq)]
pub enum DeprecatedActionRunnerContent {
    V1(DeprecatedActionRunnerContentV1),
}

#[derive(Clone, Debug, PartialEq, Eq)]
pub struct DeprecatedActionRunnerContentV1 {
    pub timestamp: Timestamp,
    pub component_id: ComponentId,
    pub component_name: String,
    pub schema_name: String,
    pub func_name: String,
    pub action_prototype_id: ActionPrototypeId,
    pub action_kind: ActionKind,
    pub resource: Option<String>,
    pub started_at: Option<Instant>,
    pub finished_at: Option<Instant>,
    pub completion_status: Option<ActionCompletionStatus>,
    pub completion_message: Option<String>,
}

#[derive(Clone, Debug, PartialEq, Eq)]
pub enum ModuleContent {
    V1(ModuleContentV1),
}

#[derive(Clone, Debug, PartialEq, Eq)]
pub struct ModuleContentV1 {
    pub timestamp: Timestamp,
    pub name: String,
    pub root_hash: String,
    pub version: String,
    pub description: String,
    pub created_by_email: String,
    pub created_at: Instant,
}

#[derive(Clone, Debug, PartialEq, Eq)]
pub enum StaticArgumentValueContent {
    V1(StaticArgumentValueContentV1),
}

#[derive(Clone, Debug, PartialEq, Eq)]
pub struct StaticArgumentValueContentV1 {
    pub timestamp: Timestamp,
    pub value: CasValue,
}

/// All that the content store holds, each under its kind. New kinds are
/// added at the end only, so that the number of a kind never changes.
#[derive(Clone, Debug, PartialEq, Eq)]
pub enum ContentTypes {
    Any(CasValue),
    AttributePrototype(AttributePrototypeContent),
    Component(ComponentContent),
    DeprecatedAction(DeprecatedActionContent),
    DeprecatedActionBatch(DeprecatedActionBatchContent),
    DeprecatedActionPrototype(DeprecatedActionPrototypeContent),
    DeprecatedActionRunner(DeprecatedActionRunnerContent),
    Func(FuncContent),
    FuncArgument(FuncArgumentContent),
    InputSocket(InputSocketContent),
    Module(ModuleContent),
    Prop(PropContent),
    Schema(SchemaContent),
    SchemaVariant(SchemaVariantContent),
    Secret(SecretContent),
    StaticArgumentValue(StaticArgumentValueContent),
    Validation(ValidationContent),
    OutputSocket(OutputSocketContent),
}

impl ContentTypes {
    /// The kind of this content.
    pub open spec fn spec_kind(self) -> ContentKind {
        match self {
            ContentTypes::Any(_) => ContentKind::Any,
            ContentTypes::AttributePrototype(_) => ContentKind::AttributePrototype,
            ContentTypes::Component(_) => ContentKind::Component,
            ContentTypes::DeprecatedAction(_) => ContentKind::DeprecatedAction,
            ContentTypes::DeprecatedActionBatch(_) => ContentKind::DeprecatedActionBatch,
            ContentTypes::DeprecatedActionPrototype(_) => ContentKind::DeprecatedActionPrototype,
            ContentTypes::DeprecatedActionRunner(_) => ContentKind::DeprecatedActionRunner,
            ContentTypes::Func(_) => ContentKind::Func,
            ContentTypes::FuncArgument(_) => ContentKind::FuncArgument,
            ContentTypes::InputSocket(_) => ContentKind::InputSocket,
            ContentTypes::Module(_) => ContentKind::Module,
            ContentTypes::Prop(_) => ContentKind::Prop,
            ContentTypes::Schema(_) => ContentKind::Schema,
            ContentTypes::SchemaVariant(_) => ContentKind::SchemaVariant,
            ContentTypes::Secret(_) => ContentKind::Secret,
            ContentTypes::StaticArgumentValue(_) => ContentKind::StaticArgumentValue,
            ContentTypes::Validation(_) => ContentKind::Validation,
            ContentTypes::OutputSocket(_) => ContentKind::OutputSocket,
        }
    }

    pub fn kind(&self) -> (k: ContentKind)
        ensures
            k == self.spec_kind(),
    {
        match self {
            ContentTypes::Any(_) => ContentKind::Any,
            ContentTypes::AttributePrototype(_) => ContentKind::AttributePrototype,
            ContentTypes::Component(_) => ContentKind::Component,
            ContentTypes::DeprecatedAction(_) => ContentKind::DeprecatedAction,
            ContentTypes::DeprecatedActionBatch(_) => ContentKind::DeprecatedActionBatch,
            ContentTypes::DeprecatedActionPrototype(_) => ContentKind::DeprecatedActionPrototype,
            ContentTypes::DeprecatedActionRunner(_) => ContentKind::DeprecatedActionRunner,
            ContentTypes::Func(_) => ContentKind::Func,
            ContentTypes::FuncArgument(_) => ContentKind::FuncArgument,
            ContentTypes::InputSocket(_) => ContentKind::InputSocket,
            ContentTypes::Module(_) => ContentKind::Module,
            ContentTypes::Prop(_) => ContentKind::Prop,
            ContentTypes::Schema(_) => ContentKind::Schema,
            ContentTypes::SchemaVariant(_) => ContentKind::SchemaVariant,
            ContentTypes::Secret(_) => ContentKind::Secret,
            ContentTypes::StaticArgumentValue(_) => ContentKind::StaticArgumentValue,
            ContentTypes::Validation(_) => ContentKind::Validation,
            ContentTypes::OutputSocket(_) => ContentKind::OutputSocket,
        }
    }

    /// A value of any shape, if this is one.
    pub fn into_any(self) -> (r: Option<CasValue>)
        ensures
            r == match self {
                ContentTypes::Any(inner) => Some(inner),
                _ => None,
            },
    {
        match self {
            ContentTypes::Any(inner) => Some(inner),
            _ => None,
        }
    }

    /// A value of any shape, or the reason why this is none.
    pub fn try_into_any(self) -> (r: Result<CasValue, &'static str>)
        ensures
            r == match self {
                ContentTypes::Any(inner) => Ok::<CasValue, &'static str>(inner),
                _ => Err("Could not convert ContentType to CasValue"),
            },
    {
        match self {
            ContentTypes::Any(inner) => Ok(inner),
            _ => Err("Could not convert ContentType to CasValue"),
        }
    }

    /// The content of an attribute prototype, if this is one.
    pub fn into_attribute_prototype(self) -> (r: Option<AttributePrototypeContent>)
        ensures
            r == match self {
                ContentTypes::AttributePrototype(inner) => Some(inner),
                _ => None,
            },
    {
        match self {
            ContentTypes::AttributePrototype(inner) => Some(inner),
            _ => None,
        }
    }

    /// The content of an attribute prototype, or the reason why this is none.
    pub fn try_into_attribute_prototype(self) -> (r: Result<AttributePrototypeContent, &'static str>)
        ensures
            r == match self {
                ContentTypes::AttributePrototype(inner) => Ok::<AttributePrototypeContent, &'static str>(inner),
                _ => Err("Could not convert ContentType to AttributePrototype"),
            },
    {
        match self {
            ContentTypes::AttributePrototype(inner) => Ok(inner),
            _ => Err("Could not convert ContentType to AttributePrototype"),
        }
    }

    /// The content of a component, if this is one.
    pub fn into_component(self) -> (r: Option<ComponentContent>)
        ensures
            r == match self {
                ContentTypes::Component(inner) => Some(inner),
                _ => None,
            },
    {
        match self {
            ContentTypes::Component(inner) => Some(inner),
            _ => None,
        }
    }

    /// The content of a component, or the reason why this is none.
    pub fn try_into_component(self) -> (r: Result<ComponentContent, &'static str>)
        ensures
            r == match self {
                ContentTypes::Component(inner) => Ok::<ComponentContent, &'static str>(inner),
                _ => Err("Could not convert ContentType to Component"),
            },
    {
        match self {
            ContentTypes::Component(inner) => Ok(inner),
            _ => Err("Could not convert ContentType to Component"),
        }
    }

    /// The content of an action, if this is one.
    pub fn into_deprecated_action(self) -> (r: Option<DeprecatedActionContent>)
        ensures
            r == match self {
                ContentTypes::DeprecatedAction(inner) => Some(inner),
                _ => None,
            },
    {
        match self {
            ContentTypes::DeprecatedAction(inner) => Some(inner),
            _ => None,
        }
    }

    /// The content of an action, or the reason why this is none.
    pub fn try_into_deprecated_action(self) -> (r: Result<DeprecatedActionContent, &'static str>)
        ensures
            r == match self {
                ContentTypes::DeprecatedAction(inner) => Ok::<DeprecatedActionContent, &'static str>(inner),
                _ => Err("Could not convert ContentType to DeprecatedAction"),
            },
    {
        match self {
            ContentTypes::DeprecatedAction(inner) => Ok(inner),
            _ => Err("Could not convert ContentType to DeprecatedAction"),
        }
    }

    /// The content of a batch of actions, if this is one.
    pub fn into_deprecated_action_batch(self) -> (r: Option<DeprecatedActionBatchContent>)
        ensures
            r == match self {
                ContentTypes::DeprecatedActionBatch(inner) => Some(inner),
                _ => None,
            },
    {
        match self {
            ContentTypes::DeprecatedActionBatch(inner) => Some(inner),
            _ => None,
        }
    }

    /// The content of a batch of actions, or the reason why this is none.
    pub fn try_into_deprecated_action_batch(self) -> (r: Result<DeprecatedActionBatchContent, &'static str>)
        ensures
            r == match self {
                ContentTypes::DeprecatedActionBatch(inner) => Ok::<DeprecatedActionBatchContent, &'static str>(inner),
                _ => Err("Could not convert ContentType to DeprecatedActionBatch"),
            },
    {
        match self {
            ContentTypes::DeprecatedActionBatch(inner) => Ok(inner),
            _ => Err("Could not convert ContentType to DeprecatedActionBatch"),
        }
    }

    /// The content of an action prototype, if this is one.
    pub fn into_deprecated_action_prototype(self) -> (r: Option<DeprecatedActionPrototypeContent>)
        ensures
            r == match self {
                ContentTypes::DeprecatedActionPrototype(inner) => Some(inner),
                _ => None,
            },
    {
        match self {
            ContentTypes::DeprecatedActionPrototype(inner) => Some(inner),
            _ => None,
        }
    }

    /// The content of an action prototype, or the reason why this is none.
    pub fn try_into_deprecated_action_prototype(self) -> (r: Result<DeprecatedActionPrototypeContent, &'static str>)
        ensures
            r == match self {
                ContentTypes::DeprecatedActionPrototype(inner) => Ok::<DeprecatedActionPrototypeContent, &'static str>(inner),
                _ => Err("Could not convert ContentType to DeprecatedActionPrototype"),
            },
    {
        match self {
            ContentTypes::DeprecatedActionPrototype(inner) => Ok(inner),
            _ => Err("Could not convert ContentType to DeprecatedActionPrototype"),
        }
    }

    /// The content of an action runner, if this is one.
    pub fn into_deprecated_action_runner(self) -> (r: Option<DeprecatedActionRunnerContent>)
        ensures
            r == match self {
                ContentTypes::DeprecatedActionRunner(inner) => Some(inner),
                _ => None,
            },
    {
        match self {
            ContentTypes::DeprecatedActionRunner(inner) => Some(inner),
            _ => None,
        }
    }

    /// The content of an action runner, or the reason why this is none.
    pub fn try_into_deprecated_action_runner(self) -> (r: Result<DeprecatedActionRunnerContent, &'static str>)
        ensures
            r == match self {
                ContentTypes::DeprecatedActionRunner(inner) => Ok::<DeprecatedActionRunnerContent, &'static str>(inner),
                _ => Err("Could not convert ContentType to DeprecatedActionRunner"),
            },
    {
        match self {
            ContentTypes::DeprecatedActionRunner(inner) => Ok(inner),
            _ => Err("Could not convert ContentType to DeprecatedActionRunner"),
        }
    }

    /// The content of a function, if this is one.
    pub fn into_func(self) -> (r: Option<FuncContent>)
        ensures
            r == match self {
                ContentTypes::Func(inner) => Some(inner),
                _ => None,
            },
    {
        match self {
            ContentTypes::Func(inner) => Some(inner),
            _ => None,
        }
    }

    /// The content of a function, or the reason why this is none.
    pub fn try_into_func(self) -> (r: Result<FuncContent, &'static str>)
        ensures
            r == match self {
                ContentTypes::Func(inner) => Ok::<FuncContent, &'static str>(inner),
                _ => Err("Could not convert ContentType to Func"),
            },
    {
        match self {
            ContentTypes::Func(inner) => Ok(inner),
            _ => Err("Could not convert ContentType to Func"),
        }
    }

    /// The content of an argument of a function, if this is one.
    pub fn into_func_argument(self) -> (r: Option<FuncArgumentContent>)
        ensures
            r == match self {
                ContentTypes::FuncArgument(inner) => Some(inner),
                _ => None,
            },
    {
        match self {
            ContentTypes::FuncArgument(inner) => Some(inner),
            _ => None,
        }
    }

    /// The content of an argument of a function, or the reason why this is none.
    pub fn try_into_func_argument(self) -> (r: Result<FuncArgumentContent, &'static str>)
        ensures
            r == match self {
                ContentTypes::FuncArgument(inner) => Ok::<FuncArgumentContent, &'static str>(inner),
                _ => Err("Could not convert ContentType to FuncArgument"),
            },
    {
        match self {
            ContentTypes::FuncArgument(inner) => Ok(inner),
            _ => Err("Could not convert ContentType to FuncArgument"),
        }
    }

    /// The content of an input socket, if this is one.
    pub fn into_input_socket(self) -> (r: Option<InputSocketContent>)
        ensures
            r == match self {
                ContentTypes::InputSocket(inner) => Some(inner),
                _ => None,
            },
    {
        match self {
            ContentTypes::InputSocket(inner) => Some(inner),
            _ => None,
        }
    }

    /// The content of an input socket, or the reason why this is none.
    pub fn try_into_input_socket(self) -> (r: Result<InputSocketContent, &'static str>)
        ensures
            r == match self {
                ContentTypes::InputSocket(inner) => Ok::<InputSocketContent, &'static str>(inner),
                _ => Err("Could not convert ContentType to InputSocket"),
            },
    {
        match self {
            ContentTypes::InputSocket(inner) => Ok(inner),
            _ => Err("Could not convert ContentType to InputSocket"),
        }
    }

    /// The content of a module, if this is one.
    pub fn into_module(self) -> (r: Option<ModuleContent>)
        ensures
            r == match self {
                ContentTypes::Module(inner) => Some(inner),
                _ => None,
            },
    {
        match self {
            ContentTypes::Module(inner) => Some(inner),
            _ => None,
        }
    }

    /// The content of a module, or the reason why this is none.
    pub fn try_into_module(self) -> (r: Result<ModuleContent, &'static str>)
        ensures
            r == match self {
                ContentTypes::Module(inner) => Ok::<ModuleContent, &'static str>(inner),
                _ => Err("Could not convert ContentType to Module"),
            },
    {
        match self {
            ContentTypes::Module(inner) => Ok(inner),
            _ => Err("Could not convert ContentType to Module"),
        }
    }

    /// The content of a property, if this is one.
    pub fn into_prop(self) -> (r: Option<PropContent>)
        ensures
            r == match self {
                ContentTypes::Prop(inner) => Some(inner),
                _ => None,
            },
    {
        match self {
            ContentTypes::Prop(inner) => Some(inner),
            _ => None,
        }
    }

    /// The content of a property, or the reason why this is none.
    pub fn try_into_prop(self) -> (r: Result<PropContent, &'static str>)
        ensures
            r == match self {
                ContentTypes::Prop(inner) => Ok::<PropContent, &'static str>(inner),
                _ => Err("Could not convert ContentType to Prop"),
            },
    {
        match self {
            ContentTypes::Prop(inner) => Ok(inner),
            _ => Err("Could not convert ContentType to Prop"),
        }
    }

    /// The content of a schema, if this is one.
    pub fn into_schema(self) -> (r: Option<SchemaContent>)
        ensures
            r == match self {
                ContentTypes::Schema(inner) => Some(inner),
                _ => None,
            },
    {
        match self {
            ContentTypes::Schema(inner) => Some(inner),
            _ => None,
        }
    }

    /// The content of a schema, or the reason why this is none.
    pub fn try_into_schema(self) -> (r: Result<SchemaContent, &'static str>)
        ensures
            r == match self {
                ContentTypes::Schema(inner) => Ok::<SchemaContent, &'static str>(inner),
                _ => Err("Could not convert ContentType to Schema"),
            },
    {
        match self {
            ContentTypes::Schema(inner) => Ok(inner),
            _ => Err("Could not convert ContentType to Schema"),
        }
    }

    /// The content of a schema variant, if this is one.
    pub fn into_schema_variant(self) -> (r: Option<SchemaVariantContent>)
        ensures
            r == match self {
                ContentTypes::SchemaVariant(inner) => Some(inner),
                _ => None,
            },
    {
        match self {
            ContentTypes::SchemaVariant(inner) => Some(inner),
            _ => None,
        }
    }

    /// The content of a schema variant, or the reason why this is none.
    pub fn try_into_schema_variant(self) -> (r: Result<SchemaVariantContent, &'static str>)
        ensures
            r == match self {
                ContentTypes::SchemaVariant(inner) => Ok::<SchemaVariantContent, &'static str>(inner),
                _ => Err("Could not convert ContentType to SchemaVariant"),
            },
    {
        match self {
            ContentTypes::SchemaVariant(inner) => Ok(inner),
            _ => Err("Could not convert ContentType to SchemaVariant"),
        }
    }

    /// The content of a secret, if this is one.
    pub fn into_secret(self) -> (r: Option<SecretContent>)
        ensures
            r == match self {
                ContentTypes::Secret(inner) => Some(inner),
                _ => None,
            },
    {
        match self {
            ContentTypes::Secret(inner) => Some(inner),
            _ => None,
        }
    }

    /// The content of a secret, or the reason why this is none.
    pub fn try_into_secret(self) -> (r: Result<SecretContent, &'static str>)
        ensures
            r == match self {
                ContentTypes::Secret(inner) => Ok::<SecretContent, &'static str>(inner),
                _ => Err("Could not convert ContentType to Secret"),
            },
    {
        match self {
            ContentTypes::Secret(inner) => Ok(inner),
            _ => Err("Could not convert ContentType to Secret"),
        }
    }

    /// The content of a static argument value, if this is one.
    pub fn into_static_argument_value(self) -> (r: Option<StaticArgumentValueContent>)
        ensures
            r == match self {
                ContentTypes::StaticArgumentValue(inner) => Some(inner),
                _ => None,
            },
    {
        match self {
            ContentTypes::StaticArgumentValue(inner) => Some(inner),
            _ => None,
        }
    }

    /// The content of a static argument value, or the reason why this is none.
    pub fn try_into_static_argument_value(self) -> (r: Result<StaticArgumentValueContent, &'static str>)
        ensures
            r == match self {
                ContentTypes::StaticArgumentValue(inner) => Ok::<StaticArgumentValueContent, &'static str>(inner),
                _ => Err("Could not convert ContentType to StaticArgumentValue"),
            },
    {
        match self {
            ContentTypes::StaticArgumentValue(inner) => Ok(inner),
            _ => Err("Could not convert ContentType to StaticArgumentValue"),
        }
    }

    /// The content of a validation, if this is one.
    pub fn into_validation(self) -> (r: Option<ValidationContent>)
        ensures
            r == match self {
                ContentTypes::Validation(inner) => Some(inner),
                _ => None,
            },
    {
        match self {
            ContentTypes::Validation(inner) => Some(inner),
            _ => None,
        }
    }

    /// The content of a validation, or the reason why this is none.
    pub fn try_into_validation(self) -> (r: Result<ValidationContent, &'static str>)
        ensures
            r == match self {
                ContentTypes::Validation(inner) => Ok::<ValidationContent, &'static str>(inner),
                _ => Err("Could not convert ContentType to Validation"),
            },
    {
        match self {
            ContentTypes::Validation(inner) => Ok(inner),
            _ => Err("Could not convert ContentType to Validation"),
        }
    }

    /// The content of an output socket, if this is one.
    pub fn into_output_socket(self) -> (r: Option<OutputSocketContent>)
        ensures
            r == match self {
                ContentTypes::OutputSocket(inner) => Some(inner),
                _ => None,
            },
    {
        match self {
            ContentTypes::OutputSocket(inner) => Some(inner),
            _ => None,
        }
    }

    /// The content of an output socket, or the reason why this is none.
    pub fn try_into_output_socket(self) -> (r: Result<OutputSocketContent, &'static str>)
        ensures
            r == match self {
                ContentTypes::OutputSocket(inner) => Ok::<OutputSocketContent, &'static str>(inner),
                _ => Err("Could not convert ContentType to OutputSocket"),
            },
    {
        match self {
            ContentTypes::OutputSocket(inner) => Ok(inner),
            _ => Err("Could not convert ContentType to OutputSocket"),
        }
    }
}

} // verus!
