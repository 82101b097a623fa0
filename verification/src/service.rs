//! What the service decides between its reads and its sends: where a new
//! node goes, what becomes of an event on the socket of a workspace, when an
//! index is answered, and how far a download has come.

use vstd::prelude::*;
use crate::visibility::{ChangeSetPk, Visibility, NO_CHANGE_SET_PK};
use crate::ws_event::UserPk;

verus! {

/// Identifier of a node in a schematic.
pub type SchematicNodeId = i64;

#[derive(Clone, Copy, Debug, PartialEq, Eq, Structural, Hash)]
pub enum SchematicKind {
    System,
    Deployment,
    Component,
}

#[derive(Clone, Copy, Debug, PartialEq, Eq, Structural, Hash)]
pub enum NodeKind {
    Component,
    Deployment,
    System,
}

impl NodeKind {
    /// The schematic in which nodes of this kind are drawn.
    pub fn schematic_kind(&self) -> (k: SchematicKind)
        ensures
            k == match self {
                NodeKind::Component => SchematicKind::Component,
                NodeKind::Deployment => SchematicKind::Deployment,
                NodeKind::System => SchematicKind::System,
            },
    {
        match self {
            NodeKind::Component => SchematicKind::Component,
            NodeKind::Deployment => SchematicKind::Deployment,
            NodeKind::System => SchematicKind::System,
        }
    }
}

/// A request for a new node of a schema, at a position, from a standpoint.
#[derive(Clone, Debug, PartialEq, Eq)]
pub struct CreateNodeRequest {
    pub schema_id: i64,
    pub system_id: Option<i64>,
    pub x: String,
    pub y: String,
    pub parent_node_id: Option<SchematicNodeId>,
    pub workspace_id: i64,
    pub visibility: Visibility,
}

/// Why a node cannot be created as asked.
#[derive(Clone, Copy, Debug, PartialEq, Eq)]
pub enum SchematicError {
    /// The parent is not a deployment.
    InvalidParentNode(NodeKind),
    /// A component without a parent, a deployment with one, or a system.
    InvalidSchematicKindParentNodeIdPair(SchematicKind, Option<SchematicNodeId>),
    ParentNodeNotFound(SchematicNodeId),
    SchemaNotFound,
    SchemaVariantNotFound,
}

/// How a new node comes into being.
#[derive(Clone, Copy, Debug, PartialEq, Eq)]
pub enum NodeCreation {
    /// A component inside the deployment `parent`, once the parent is
    /// found to be a deployment.
    InDeployment { parent: SchematicNodeId },
    /// A deployment on its own.
    Deployment,
}

/// How a node of a schema of this kind is created under this parent: a
/// component needs a parent, a deployment must have none, nothing else can
/// be created.
pub fn plan_creation(kind: SchematicKind, parent_node_id: Option<SchematicNodeId>) -> (r: Result<
    NodeCreation,
    SchematicError,
>)
    ensures
        r == match (kind, parent_node_id) {
            (SchematicKind::Component, Some(parent)) => Ok::<NodeCreation, SchematicError>(
                NodeCreation::InDeployment { parent },
            ),
            (SchematicKind::Deployment, None) => Ok(NodeCreation::Deployment),
            _ => Err(SchematicError::InvalidSchematicKindParentNodeIdPair(kind, parent_node_id)),
        },
{
    match (kind, parent_node_id) {
        (SchematicKind::Component, Some(parent)) => Ok(NodeCreation::InDeployment { parent }),
        (SchematicKind::Deployment, None) => Ok(NodeCreation::Deployment),
        _ => Err(SchematicError::InvalidSchematicKindParentNodeIdPair(kind, parent_node_id)),
    }
}

/// The schema that was looked up for a new node, or that there is none.
pub fn schema_found<T>(found: Option<T>) -> (r: Result<T, SchematicError>)
    ensures
        r == match found {
            Some(schema) => Ok::<T, SchematicError>(schema),
            None => Err(SchematicError::SchemaNotFound),
        },
{
    match found {
        Some(schema) => Ok(schema),
        None => Err(SchematicError::SchemaNotFound),
    }
}

/// The default variant of the schema of a new node, or that the schema
/// has none.
pub fn schema_variant_found<T>(default_variant: Option<T>) -> (r: Result<T, SchematicError>)
    ensures
        r == match default_variant {
            Some(variant) => Ok::<T, SchematicError>(variant),
            None => Err(SchematicError::SchemaVariantNotFound),
        },
{
    match default_variant {
        Some(variant) => Ok(variant),
        None => Err(SchematicError::SchemaVariantNotFound),
    }
}

/// Whether the node `parent`, found to be of kind `found` or not found at
/// all, can hold a component: it must exist and be a deployment.
pub fn check_parent(parent: SchematicNodeId, found: Option<NodeKind>) -> (r: Result<
    (),
    SchematicError,
>)
    ensures
        r == match found {
            None => Err::<(), SchematicError>(SchematicError::ParentNodeNotFound(parent)),
            Some(NodeKind::Deployment) => Ok(()),
            Some(other) => Err(SchematicError::InvalidParentNode(other)),
        },
{
    match found {
        None => Err(SchematicError::ParentNodeNotFound(parent)),
        Some(NodeKind::Deployment) => Ok(()),
        Some(other) => Err(SchematicError::InvalidParentNode(other)),
    }
}

/// Where a position of a node is recorded: in which schematic and under
/// which parent.
#[derive(Clone, Copy, Debug, PartialEq, Eq)]
pub struct PositionPlace {
    pub schematic_kind: SchematicKind,
    pub parent_node_id: Option<SchematicNodeId>,
}

/// The places of the positions of a new node: one in the schematic of its
/// kind, under the requested parent where the schema is one of components;
/// and for a deployment a second, in the schematic of components, under the
/// node itself.
pub open spec fn position_places(
    node_kind: NodeKind,
    node_id: SchematicNodeId,
    schema_kind: SchematicKind,
    parent_node_id: Option<SchematicNodeId>,
) -> Seq<PositionPlace> {
    let first = PositionPlace {
        schematic_kind: match node_kind {
            NodeKind::Component => SchematicKind::Component,
            NodeKind::Deployment => SchematicKind::Deployment,
            NodeKind::System => SchematicKind::System,
        },
        parent_node_id: if schema_kind == SchematicKind::Component {
            parent_node_id
        } else {
            None
        },
    };
    if node_kind == NodeKind::Deployment {
        seq![
            first,
            PositionPlace { schematic_kind: SchematicKind::Component, parent_node_id: Some(node_id) },
        ]
    } else {
        seq![first]
    }
}

pub fn plan_positions(
    node_kind: NodeKind,
    node_id: SchematicNodeId,
    schema_kind: SchematicKind,
    parent_node_id: Option<SchematicNodeId>,
) -> (places: Vec<PositionPlace>)
    ensures
        places@ == position_places(node_kind, node_id, schema_kind, parent_node_id),
{
    let parent = match schema_kind {
        SchematicKind::Component => parent_node_id,
        _ => None,
    };
    let mut places: Vec<PositionPlace> = Vec::new();
    places.push(PositionPlace { schematic_kind: node_kind.schematic_kind(), parent_node_id: parent });
    match node_kind {
        NodeKind::Deployment => {
            places.push(
                PositionPlace {
                    schematic_kind: SchematicKind::Component,
                    parent_node_id: Some(node_id),
                },
            );
        },
        _ => {},
    }
    proof {
        assert(places@ =~= position_places(node_kind, node_id, schema_kind, parent_node_id));
    }
    places
}

/// What a client sends over the socket of a workspace.
#[derive(Clone, Debug, PartialEq, Eq)]
pub enum WebsocketEventRequest {
    Cursor {
        user_pk: UserPk,
        user_name: String,
        change_set_pk: Option<ChangeSetPk>,
        container: Option<String>,
        container_key: Option<String>,
        x: Option<String>,
        y: Option<String>,
    },
    Online {
        user_pk: UserPk,
        name: String,
        picture_url: Option<String>,
        change_set_pk: Option<ChangeSetPk>,
        idle: bool,
    },
}

/// What went wrong on the socket of a workspace.
#[derive(Clone, Copy, Debug, PartialEq, Eq, Structural)]
pub enum WorkspaceUpdatesError {
    Axum,
    BroadcastRecv,
    MultiplexerClient,
    Nats,
    Serde,
    TryLock,
    WsClose,
    WsEvent,
    WsSendIo,
}

/// The updates of a workspace, not yet started.
#[derive(Clone, Debug, PartialEq, Eq)]
pub struct WorkspaceUpdates {
    pub(crate) workspace_pk: String,
}

/// The updates of a workspace, flowing.
#[derive(Clone, Debug, PartialEq, Eq)]
pub struct WorkspaceUpdatesStarted {
    pub(crate) workspace_pk: String,
}

/// The updates of a workspace, at their end.
#[derive(Clone, Copy, Debug, PartialEq, Eq, Structural)]
pub struct WorkspaceUpdatesClosing {
    pub ws_is_closed: bool,
}

/// What arrives while the updates flow.
#[derive(Clone, Debug, PartialEq, Eq)]
pub enum SocketEvent {
    /// The client sent a request.
    Request(WebsocketEventRequest),
    /// The client sent text that is no request.
    Unreadable,
    /// The client sent something that is not text.
    NotText,
    /// Reading from the client failed.
    ClientFailed,
    /// The client is gone.
    ClientGone,
    /// The bus has a message for the client.
    BusMessage(String),
    /// Reading from the bus failed.
    BusFailed,
    /// Neither the client nor the bus will send anything more.
    Exhausted,
}

/// What is to be done about an event.
#[derive(Clone, Debug, PartialEq, Eq)]
pub enum UpdateStep {
    /// Publish the request of the client on `subject`, as in the change set
    /// `change_set_pk`; then go on.
    Publish { subject: String, change_set_pk: Option<ChangeSetPk>, request: WebsocketEventRequest },
    /// Send the text to the client; then go on.
    Forward(String),
    /// Go on.
    Skip,
    /// Stop; the updates end.
    Close(WorkspaceUpdatesClosing),
    /// Stop with an error.
    Fail(WorkspaceUpdatesError),
}

/// Why a message could not be sent to the client.
#[derive(Clone, Copy, Debug, PartialEq, Eq, Structural)]
pub enum SendFailure {
    ConnectionClosed,
    AlreadyClosed,
    Other,
}

/// The subject on which the events of a workspace go out.
pub open spec fn workspace_subject(workspace_pk: Seq<char>) -> Seq<char> {
    "si.workspace_pk."@ + workspace_pk + ".event"@
}

/// The subjects under which everything of a workspace goes out.
pub open spec fn workspace_subjects(workspace_pk: Seq<char>) -> Seq<char> {
    "si.workspace_pk."@ + workspace_pk + ".>"@
}

/// What is to be done about an event that arrives in the workspace
/// `workspace_pk` while the updates flow.
///
/// A cursor is published as in its change set, or as on the head where it
/// names none; that someone is online is published with the change set that
/// it names, if any. What cannot be read, or is no text, is passed over. A
/// message of the bus goes to the client. The updates end, with the socket
/// closed, where the client is gone, and with the socket open where nothing
/// more can arrive. A failed read stops the updates with an error.
pub open spec fn step_for(workspace_pk: Seq<char>, event: SocketEvent, step: UpdateStep) -> bool {
    match event {
        SocketEvent::Request(request) => step matches UpdateStep::Publish {
            subject,
            change_set_pk,
            request: published,
        } && subject@ == workspace_subject(workspace_pk) && published == request && change_set_pk
            == match request {
            WebsocketEventRequest::Cursor { change_set_pk: Some(pk), .. } => Some(pk),
            WebsocketEventRequest::Cursor { change_set_pk: None, .. } => Some(NO_CHANGE_SET_PK),
            WebsocketEventRequest::Online { change_set_pk, .. } => change_set_pk,
        },
        SocketEvent::Unreadable => step == UpdateStep::Skip,
        SocketEvent::NotText => step == UpdateStep::Skip,
        SocketEvent::ClientFailed => step == UpdateStep::Fail(WorkspaceUpdatesError::Axum),
        SocketEvent::ClientGone => step == UpdateStep::Close(
            WorkspaceUpdatesClosing { ws_is_closed: true },
        ),
        SocketEvent::BusMessage(text) => step == UpdateStep::Forward(text),
        SocketEvent::BusFailed => step == UpdateStep::Fail(WorkspaceUpdatesError::BroadcastRecv),
        SocketEvent::Exhausted => step == UpdateStep::Close(
            WorkspaceUpdatesClosing { ws_is_closed: false },
        ),
    }
}

/// The updates of the workspace `workspace_pk`, not yet started.
pub fn run(workspace_pk: String) -> (updates: WorkspaceUpdates)
    ensures
        updates.spec_workspace_pk() == workspace_pk@,
{
    WorkspaceUpdates { workspace_pk }
}

impl WorkspaceUpdates {
    pub open(crate) spec fn spec_workspace_pk(&self) -> Seq<char> {
        self.workspace_pk@
    }

    /// The subjects to listen on for this workspace.
    pub fn subjects(&self) -> (s: String)
        ensures
            s@ == workspace_subjects(self.spec_workspace_pk()),
    {
        let mut s = String::from_str("si.workspace_pk.");
        s.append(self.workspace_pk.as_str());
        s.append(".>");
        s
    }

    /// The updates, flowing.
    pub fn start(self) -> (started: WorkspaceUpdatesStarted)
        ensures
            started.spec_workspace_pk() == self.spec_workspace_pk(),
    {
        WorkspaceUpdatesStarted { workspace_pk: self.workspace_pk }
    }
}

impl WorkspaceUpdatesStarted {
    pub open(crate) spec fn spec_workspace_pk(&self) -> Seq<char> {
        self.workspace_pk@
    }

    /// What is to be done about an event.
    pub fn process(&self, event: SocketEvent) -> (step: UpdateStep)
        ensures
            step_for(self.spec_workspace_pk(), event, step),
    {
        match event {
            SocketEvent::Request(request) => {
                let mut subject = String::from_str("si.workspace_pk.");
                subject.append(self.workspace_pk.as_str());
                subject.append(".event");
                let change_set_pk = match &request {
                    WebsocketEventRequest::Cursor { change_set_pk, .. } => match change_set_pk {
                        Some(pk) => Some(*pk),
                        None => Some(NO_CHANGE_SET_PK),
                    },
                    WebsocketEventRequest::Online { change_set_pk, .. } => *change_set_pk,
                };
                UpdateStep::Publish { subject, change_set_pk, request }
            },
            SocketEvent::Unreadable => UpdateStep::Skip,
            SocketEvent::NotText => UpdateStep::Skip,
            SocketEvent::ClientFailed => UpdateStep::Fail(WorkspaceUpdatesError::Axum),
            SocketEvent::ClientGone => UpdateStep::Close(
                WorkspaceUpdatesClosing { ws_is_closed: true },
            ),
            SocketEvent::BusMessage(text) => UpdateStep::Forward(text),
            SocketEvent::BusFailed => UpdateStep::Fail(WorkspaceUpdatesError::BroadcastRecv),
            SocketEvent::Exhausted => UpdateStep::Close(
                WorkspaceUpdatesClosing { ws_is_closed: false },
            ),
        }
    }

    /// What is to be done where a message could not be sent to the client:
    /// where the socket was closed in good order, the updates end; anything
    /// else, or a failure of which nothing is known, is an error.
    pub fn after_send_failure(&self, failure: Option<SendFailure>) -> (step: UpdateStep)
        ensures
            step == match failure {
                Some(SendFailure::ConnectionClosed) => UpdateStep::Close(
                    WorkspaceUpdatesClosing { ws_is_closed: true },
                ),
                Some(SendFailure::AlreadyClosed) => UpdateStep::Close(
                    WorkspaceUpdatesClosing { ws_is_closed: true },
                ),
                _ => UpdateStep::Fail(WorkspaceUpdatesError::WsSendIo),
            },
    {
        match failure {
            Some(SendFailure::ConnectionClosed) => UpdateStep::Close(
                WorkspaceUpdatesClosing { ws_is_closed: true },
            ),
            Some(SendFailure::AlreadyClosed) => UpdateStep::Close(
                WorkspaceUpdatesClosing { ws_is_closed: true },
            ),
            _ => UpdateStep::Fail(WorkspaceUpdatesError::WsSendIo),
        }
    }
}

impl WorkspaceUpdatesClosing {
    /// Whether the socket is still to be closed at the end.
    pub fn finish(&self) -> (close: bool)
        ensures
            close == !self.ws_is_closed,
    {
        !self.ws_is_closed
    }
}

/// Why an index was not answered.
#[derive(Clone, Debug, PartialEq, Eq)]
pub enum IndexError {
    ChangeSet,
    Frigg,
    /// No index for this workspace and change set.
    IndexNotFound(String, String),
    MaterializedView,
    Transactions,
}

/// The status that an answer carries where nothing else is said.
pub const DEFAULT_ERROR_STATUS_CODE: u16 = 500;

impl IndexError {
    /// The status with which the error is answered: 404 where the index is
    /// not found, otherwise the default.
    pub fn status_code(&self) -> (code: u16)
        ensures
            code == if *self is IndexNotFound {
                404u16
            } else {
                DEFAULT_ERROR_STATUS_CODE
            },
    {
        match self {
            IndexError::IndexNotFound(_, _) => 404,
            _ => DEFAULT_ERROR_STATUS_CODE,
        }
    }
}

/// What to do after looking an index up for the first time.
#[derive(Clone, Copy, Debug, PartialEq, Eq, Structural)]
pub enum IndexStep {
    /// The index is there: answer with it.
    Answer,
    /// It is not: build the views of the change set, then look again.
    BuildAndRetry,
}

/// What to do after the first look for an index.
pub fn after_first_lookup(found: bool) -> (step: IndexStep)
    ensures
        step == if found {
            IndexStep::Answer
        } else {
            IndexStep::BuildAndRetry
        },
{
    if found {
        IndexStep::Answer
    } else {
        IndexStep::BuildAndRetry
    }
}

/// The answer after the second look for an index: what was found, or that
/// there is no index for this workspace and change set.
pub fn after_retry<T>(found: Option<T>, workspace_pk: String, change_set_id: String) -> (r: Result<
    T,
    IndexError,
>)
    ensures
        r == match found {
            Some(index) => Ok::<T, IndexError>(index),
            None => Err(IndexError::IndexNotFound(workspace_pk, change_set_id)),
        },
{
    match found {
        Some(index) => Ok(index),
        None => Err(IndexError::IndexNotFound(workspace_pk, change_set_id)),
    }
}

/// Which object a request for a front end object asks for.
#[derive(Clone, Debug, PartialEq, Eq)]
pub enum ObjectLookup {
    /// The object with this checksum.
    ByChecksum(String),
    /// The object as the change set has it now.
    Current,
}

/// A request for a front end object.
#[derive(Clone, Debug, PartialEq, Eq)]
pub struct FrontendObjectRequest {
    pub kind: String,
    pub id: String,
    pub checksum: Option<String>,
}

impl FrontendObjectRequest {
    /// Which object the request asks for: the one with its checksum, where
    /// it names one, else the current one.
    pub fn lookup(&self) -> (l: ObjectLookup)
        ensures
            l == match self.checksum {
                Some(c) => ObjectLookup::ByChecksum(c),
                None => ObjectLookup::Current,
            },
    {
        match &self.checksum {
            Some(c) => ObjectLookup::ByChecksum(c.clone()),
            None => ObjectLookup::Current,
        }
    }
}

/// How many bytes a download gains in one step.
pub const DOWNLOAD_STEP: u64 = 223211;

/// How far a download of `total` bytes has come one step after
/// `downloaded`: one step further, and not beyond the end.
pub fn next_position(downloaded: u64, total: u64) -> (position: u64)
    ensures
        position == if downloaded + DOWNLOAD_STEP < total {
            downloaded + DOWNLOAD_STEP
        } else {
            total as int
        },
{
    if downloaded < total && total - downloaded > DOWNLOAD_STEP {
        downloaded + DOWNLOAD_STEP
    } else {
        total
    }
}

} // verus!
