use changeset_core::asset_sprayer::{first_choice, AssetSprayerError};
use changeset_core::config::{
    configure_development, default_cyclone_encryption_key_path,
    default_recreate_management_stream, default_symmetric_crypto_config, detect_development,
    ConfigFile, Development,
};
use changeset_core::content::ContentKind;
use changeset_core::content_types::{
    CasValue, ComponentType, ContentTypeError, ContentTypes, FuncBackendKind,
    FuncBackendResponseType, FuncContent,
    FuncContentV1, FuncContentV2, SchemaVariantContent, SchemaVariantContentV1,
    SchemaVariantContentV2, Timestamp,
};
use changeset_core::diagram::{
    component_found, schema_found as schema_of_variant_found, DiagramError, DiagramNodeView, GridPoint, NodeSide, Socket, SocketArity, SocketDirection,
    SocketEdgeKind, SocketView,
};
use changeset_core::digest::ContentHash;
use changeset_core::job::{JobConsumerError, RefreshJob, RefreshRun, RefreshStep};
use changeset_core::service::{
    after_first_lookup, after_retry, check_parent, plan_creation, plan_positions, next_position,
    run, schema_found, schema_variant_found, FrontendObjectRequest, IndexError, IndexStep, NodeCreation, NodeKind, ObjectLookup,
    PositionPlace, SchematicError, SchematicKind, SendFailure, SocketEvent, UpdateStep,
    WebsocketEventRequest, WorkspaceUpdatesClosing, WorkspaceUpdatesError,
};
use changeset_core::text::{decimal_string, parse_i64, push_hexadecimal};
use changeset_core::views::{
    get_func, list_schema_variants, FuncEntry, InputSocketView, OutputSocketView,
    PrototypeContext, SchemaEntry, VariantEntry,
};
use changeset_core::visibility::{Instant, Visibility};
use changeset_core::ws_event::{
    subject_for, ActorView, AttributeValueStatusUpdate, ReadTenancy, StatusValueKind, WsEvent,
    WsPayload,
};

fn stamp() -> Timestamp {
    let at = Instant { secs: 1, nanos: 2 };
    Timestamp { created_at: at, updated_at: at }
}

#[test]
fn numbers_as_text() {
    assert_eq!(decimal_string(0), "0");
    assert_eq!(decimal_string(7), "7");
    assert_eq!(decimal_string(-45), "-45");
    assert_eq!(decimal_string(1234567890), "1234567890");
    assert_eq!(decimal_string(i64::MAX), "9223372036854775807");
    assert_eq!(decimal_string(i64::MIN), "-9223372036854775808");
    let mut hex = String::from("0x");
    push_hexadecimal(&mut hex, 0xdead_beef);
    assert_eq!(hex, "0xdeadbeef");
    let mut zero = String::new();
    push_hexadecimal(&mut zero, 0);
    assert_eq!(zero, "0");
}

#[test]
fn text_as_numbers() {
    assert_eq!(parse_i64("0"), Some(0));
    assert_eq!(parse_i64("42"), Some(42));
    assert_eq!(parse_i64("+42"), Some(42));
    assert_eq!(parse_i64("-42"), Some(-42));
    assert_eq!(parse_i64("007"), Some(7));
    assert_eq!(parse_i64("9223372036854775807"), Some(i64::MAX));
    assert_eq!(parse_i64("-9223372036854775808"), Some(i64::MIN));
    assert_eq!(parse_i64("9223372036854775808"), None);
    assert_eq!(parse_i64("-9223372036854775809"), None);
    assert_eq!(parse_i64("99999999999999999999999"), None);
    assert_eq!(parse_i64(""), None);
    assert_eq!(parse_i64("-"), None);
    assert_eq!(parse_i64("+"), None);
    assert_eq!(parse_i64("12a"), None);
    assert_eq!(parse_i64(" 12"), None);
    assert_eq!(parse_i64("1_000"), None);
    assert_eq!(parse_i64("--1"), None);
    for text in ["0", "17", "-3", "+8", "x", "", "1.5"] {
        assert_eq!(parse_i64(text), text.parse::<i64>().ok());
    }
}

fn socket(id: i64, name: &str, edge_kind: SocketEdgeKind, arity: SocketArity) -> Socket {
    Socket { id, name: name.to_string(), edge_kind, arity, required: id % 2 == 0 }
}

#[test]
fn socket_views_leave_includes_out() {
    let sockets = vec![
        socket(3, "input", SocketEdgeKind::ConfigurationInput, SocketArity::Many),
        socket(4, "includes", SocketEdgeKind::ConfigurationOutput, SocketArity::Many),
        socket(5, "output", SocketEdgeKind::ConfigurationOutput, SocketArity::One),
    ];
    let views = SocketView::list(12, &sockets);
    assert_eq!(views.len(), 2);
    assert_eq!(views[0].id(), "12-3");
    assert_eq!(views[0].label(), "input");
    assert_eq!(views[0].ty(), "input");
    assert_eq!(views[0].direction(), SocketDirection::Input);
    assert_eq!(views[0].node_side(), NodeSide::Left);
    assert_eq!(views[0].max_connections(), None);
    assert_eq!(views[0].is_required(), Some(false));
    assert_eq!(views[1].id(), "12-5");
    assert_eq!(views[1].direction(), SocketDirection::Output);
    assert_eq!(views[1].node_side(), NodeSide::Right);
    assert_eq!(views[1].max_connections(), Some(1));
    assert_eq!(SocketView::of(-1, &sockets[1]).id(), "-1-4");
    assert_eq!(SocketDirection::Bidirectional.as_str(), "bidirectional");
    for d in [SocketDirection::Input, SocketDirection::Output, SocketDirection::Bidirectional] {
        assert_eq!(SocketDirection::from_name(d.as_str()), Some(d));
    }
    assert_eq!(SocketDirection::from_name("Input"), None);
    assert_eq!(NodeSide::from_name("left"), Some(NodeSide::Left));
    assert_eq!(NodeSide::from_name("right"), Some(NodeSide::Right));
    assert_eq!(NodeSide::from_name(""), None);
    assert_eq!(SocketDirection::Input.as_str(), "input");
    assert_eq!(NodeSide::Right.as_str(), "right");
}

#[test]
fn node_view_reads_its_position_from_text() {
    let sockets = vec![socket(1, "in", SocketEdgeKind::ConfigurationInput, SocketArity::One)];
    let view = DiagramNodeView::new(
        77,
        "docker image".to_string(),
        Some("nginx".to_string()),
        &sockets,
        "-120",
        "45",
        Some(0x00b0bc),
    )
    .unwrap();
    assert_eq!(view.id(), "77");
    assert_eq!(view.title(), "docker image");
    assert_eq!(view.subtitle(), &Some("nginx".to_string()));
    assert_eq!(view.position(), &GridPoint::new(-120, 45));
    assert_eq!(view.position().x(), -120);
    assert_eq!(view.position().y(), 45);
    assert_eq!(view.color(), &Some("#b0bc".to_string()));
    assert_eq!(view.sockets().as_ref().unwrap().len(), 1);
    let plain = DiagramNodeView::new(1, String::new(), None, &vec![], "0", "0", None).unwrap();
    assert_eq!(plain.color(), &None);
    let negative = DiagramNodeView::new(1, String::new(), None, &vec![], "0", "0", Some(-1));
    assert_eq!(negative.unwrap().color(), &Some(format!("#{:x}", -1i64)));
    assert_eq!(
        DiagramNodeView::new(1, String::new(), None, &vec![], "1.5", "0", None),
        Err(DiagramError::ParseInt)
    );
    assert_eq!(
        DiagramNodeView::new(1, String::new(), None, &vec![], "0", "", None),
        Err(DiagramError::ParseInt)
    );
}

#[test]
fn events_go_out_once_for_each_billing_account() {
    let tenancy = ReadTenancy::new(vec![5, -3, 12]);
    assert_eq!(WsEvent::billing_account_pk_from_tenancy(&tenancy), vec![5, -3, 12]);
    let event = WsEvent::new(
        &tenancy,
        ActorView::System { label: "system".to_string() },
        9,
        WsPayload::ChangeSetApplied(9),
    );
    assert_eq!(event.version(), 1);
    assert_eq!(event.change_set_pk(), 9);
    assert_eq!(event.payload(), &WsPayload::ChangeSetApplied(9));
    assert_eq!(event.billing_account_pks(), &vec![5, -3, 12]);
    assert_eq!(
        event.subjects(),
        vec![
            "si.billing_account_pk.5.event".to_string(),
            "si.billing_account_pk.-3.event".to_string(),
            "si.billing_account_pk.12.event".to_string(),
        ]
    );
    assert_eq!(subject_for(0), "si.billing_account_pk.0.event");
    let update = AttributeValueStatusUpdate::new(1, 2, StatusValueKind::Attribute(3));
    assert_eq!(update.value_id(), 1);
    assert_eq!(update.component_id(), 2);
    assert_eq!(update.value_kind(), StatusValueKind::Attribute(3));
}

fn func_v1() -> FuncContentV1 {
    FuncContentV1 {
        timestamp: stamp(),
        display_name: Some("fn".to_string()),
        description: None,
        link: Some("https://example.com".to_string()),
        hidden: true,
        builtin: false,
        backend_response_type: FuncBackendResponseType::Json,
        backend_kind: FuncBackendKind::JsAttribute,
        handler: Some("main".to_string()),
        code_base64: Some("Zm4=".to_string()),
        code_blake3: ContentHash::new(b"fn"),
    }
}

#[test]
fn func_content_is_upgraded_and_locked() {
    let v1 = func_v1();
    let upgraded = FuncContent::V1(v1.clone()).extract();
    assert_eq!(
        upgraded,
        FuncContentV2 {
            timestamp: v1.timestamp,
            display_name: v1.display_name,
            description: v1.description,
            link: v1.link,
            hidden: true,
            builtin: false,
            backend_response_type: FuncBackendResponseType::Json,
            backend_kind: FuncBackendKind::JsAttribute,
            handler: v1.handler,
            code_base64: v1.code_base64,
            code_blake3: v1.code_blake3,
            is_locked: true,
        }
    );
    let mut unlocked = upgraded.clone();
    unlocked.is_locked = false;
    assert_eq!(FuncContent::V2(unlocked.clone()).extract(), unlocked);
    assert_eq!(FuncContent::V2(upgraded.clone()).extract(), upgraded);
    assert_eq!(FuncContent::V1(func_v1()).version(), 1);
    assert_eq!(FuncContent::V2(upgraded).version(), 2);
    assert_eq!(FuncContent::V1(func_v1()).kind(), ContentKind::Func);
}

fn variant_v1(display_name: Option<&str>) -> SchemaVariantContentV1 {
    SchemaVariantContentV1 {
        timestamp: stamp(),
        ui_hidden: false,
        name: "v0".to_string(),
        display_name: display_name.map(|n| n.to_string()),
        category: "cat".to_string(),
        color: "#ffffff".to_string(),
        component_type: ComponentType::Component,
        link: None,
        description: Some("d".to_string()),
        asset_func_id: Some(4),
        finalized_once: true,
        is_builtin: false,
    }
}

fn variant_v2(display_name: &str) -> SchemaVariantContentV2 {
    SchemaVariantContentV2 {
        timestamp: stamp(),
        ui_hidden: false,
        version: "v0".to_string(),
        display_name: display_name.to_string(),
        category: "cat".to_string(),
        color: "#ffffff".to_string(),
        component_type: ComponentType::Component,
        link: None,
        description: Some("d".to_string()),
        asset_func_id: Some(4),
        finalized_once: true,
        is_builtin: false,
        is_locked: true,
    }
}

#[test]
fn schema_variant_content_takes_the_name_of_its_schema_where_it_has_none() {
    let named = SchemaVariantContent::V1(variant_v1(Some("mine")));
    assert!(!named.needs_schema_name());
    assert_eq!(named.extract(Err("not looked up".to_string())), Ok(variant_v2("mine")));
    let unnamed = SchemaVariantContent::V1(variant_v1(None));
    assert!(unnamed.needs_schema_name());
    assert_eq!(unnamed.clone().extract(Ok("schema".to_string())), Ok(variant_v2("schema")));
    assert_eq!(
        unnamed.extract(Err("no schema".to_string())),
        Err(ContentTypeError::SchemaVariantContent("no schema".to_string()))
    );
    let done = SchemaVariantContent::V2(variant_v2("x"));
    assert!(!done.needs_schema_name());
    assert_eq!(done.version(), 2);
    assert_eq!(done.kind(), ContentKind::SchemaVariant);
    assert_eq!(done.extract(Err("unused".to_string())), Ok(variant_v2("x")));
    assert_eq!(
        ContentTypeError::SchemaVariantContent("why".to_string()).message(),
        "error extracting schema variant content : why"
    );
}

#[test]
fn hidden_schemas_and_variants_are_not_listed() {
    let variant = |id: i64, hidden: bool, color: Option<&str>| VariantEntry {
        id,
        name: format!("v{}", id),
        ui_hidden: hidden,
        category: "c".to_string(),
        color: color.map(|c| c.to_string()),
        input_sockets: vec![InputSocketView::new(1, "in".to_string())],
        output_sockets: vec![OutputSocketView::new(2, "out".to_string())],
    };
    let schemas = vec![
        SchemaEntry {
            id: 1,
            name: "shown".to_string(),
            ui_hidden: false,
            variants: vec![variant(10, false, None), variant(11, true, None)],
        },
        SchemaEntry {
            id: 2,
            name: "hidden".to_string(),
            ui_hidden: true,
            variants: vec![variant(20, false, None)],
        },
        SchemaEntry {
            id: 3,
            name: "also shown".to_string(),
            ui_hidden: false,
            variants: vec![variant(30, false, Some("#123456"))],
        },
    ];
    let views = list_schema_variants(&schemas);
    assert_eq!(views.len(), 2);
    assert_eq!(views[0].id(), 10);
    assert_eq!(views[0].name(), "v10");
    assert_eq!(views[0].schema_name(), "shown");
    assert_eq!(views[0].schema_id(), 1);
    assert_eq!(views[0].color(), "#0F0F0F");
    assert_eq!(views[0].category(), "c");
    assert!(views[0].builtin());
    assert_eq!(views[0].input_sockets(), &vec![InputSocketView::new(1, "in".to_string())]);
    assert_eq!(views[0].output_sockets()[0].name(), "out");
    assert_eq!(views[0].output_sockets()[0].id(), 2);
    assert_eq!(views[1].id(), 30);
    assert_eq!(views[1].color(), "#123456");
    assert_eq!(views[1].schema_name(), "also shown");
}

#[test]
fn a_function_lists_what_its_prototypes_are_bound_to() {
    let func = FuncEntry {
        id: 5,
        name: "si:fn".to_string(),
        display_name: Some("My function".to_string()),
        handler: Some("run".to_string()),
        backend_kind: FuncBackendKind::JsAttribute,
        description: None,
        code: Some("code".to_string()),
        is_builtin: true,
    };
    let prototypes = vec![
        PrototypeContext { schema_variant_id: 3, component_id: 9 },
        PrototypeContext { schema_variant_id: -1, component_id: 8 },
        PrototypeContext { schema_variant_id: -1, component_id: -1 },
        PrototypeContext { schema_variant_id: 4, component_id: -1 },
    ];
    let response = get_func(func, &prototypes, true);
    assert_eq!(response.id, 5);
    assert_eq!(response.name, "My function");
    assert_eq!(response.kind, FuncBackendKind::JsAttribute);
    assert_eq!(response.schema_variants, vec![3, 4]);
    assert_eq!(response.components, vec![8]);
    assert!(response.is_revertable);
    assert!(response.is_builtin);
    let plain = FuncEntry {
        id: 6,
        name: "si:other".to_string(),
        display_name: None,
        handler: None,
        backend_kind: FuncBackendKind::Unset,
        description: None,
        code: None,
        is_builtin: false,
    };
    assert_eq!(get_func(plain, &vec![], false).name, "si:other");
}

#[test]
fn where_a_new_node_goes() {
    assert_eq!(
        plan_creation(SchematicKind::Component, Some(3)),
        Ok(NodeCreation::InDeployment { parent: 3 })
    );
    assert_eq!(plan_creation(SchematicKind::Deployment, None), Ok(NodeCreation::Deployment));
    assert_eq!(
        plan_creation(SchematicKind::Component, None),
        Err(SchematicError::InvalidSchematicKindParentNodeIdPair(SchematicKind::Component, None))
    );
    assert_eq!(
        plan_creation(SchematicKind::Deployment, Some(3)),
        Err(SchematicError::InvalidSchematicKindParentNodeIdPair(
            SchematicKind::Deployment,
            Some(3)
        ))
    );
    assert_eq!(
        plan_creation(SchematicKind::System, None),
        Err(SchematicError::InvalidSchematicKindParentNodeIdPair(SchematicKind::System, None))
    );
    assert_eq!(check_parent(3, Some(NodeKind::Deployment)), Ok(()));
    assert_eq!(check_parent(3, None), Err(SchematicError::ParentNodeNotFound(3)));
    assert_eq!(
        check_parent(3, Some(NodeKind::Component)),
        Err(SchematicError::InvalidParentNode(NodeKind::Component))
    );
    assert_eq!(
        check_parent(3, Some(NodeKind::System)),
        Err(SchematicError::InvalidParentNode(NodeKind::System))
    );
    assert_eq!(
        plan_positions(NodeKind::Component, 8, SchematicKind::Component, Some(3)),
        vec![PositionPlace { schematic_kind: SchematicKind::Component, parent_node_id: Some(3) }]
    );
    assert_eq!(
        plan_positions(NodeKind::Deployment, 8, SchematicKind::Deployment, None),
        vec![
            PositionPlace { schematic_kind: SchematicKind::Deployment, parent_node_id: None },
            PositionPlace { schematic_kind: SchematicKind::Component, parent_node_id: Some(8) },
        ]
    );
}

#[test]
fn what_becomes_of_an_event_on_the_socket() {
    let updates = run("01HWS".to_string());
    assert_eq!(updates.subjects(), "si.workspace_pk.01HWS.>");
    let started = updates.start();
    let cursor = WebsocketEventRequest::Cursor {
        user_pk: 1,
        user_name: "u".to_string(),
        change_set_pk: None,
        container: None,
        container_key: None,
        x: Some("1".to_string()),
        y: None,
    };
    assert_eq!(
        started.process(SocketEvent::Request(cursor.clone())),
        UpdateStep::Publish {
            subject: "si.workspace_pk.01HWS.event".to_string(),
            change_set_pk: Some(-1),
            request: cursor,
        }
    );
    let online = WebsocketEventRequest::Online {
        user_pk: 1,
        name: "u".to_string(),
        picture_url: None,
        change_set_pk: None,
        idle: true,
    };
    assert_eq!(
        started.process(SocketEvent::Request(online.clone())),
        UpdateStep::Publish {
            subject: "si.workspace_pk.01HWS.event".to_string(),
            change_set_pk: None,
            request: online,
        }
    );
    assert_eq!(started.process(SocketEvent::Unreadable), UpdateStep::Skip);
    assert_eq!(started.process(SocketEvent::NotText), UpdateStep::Skip);
    assert_eq!(
        started.process(SocketEvent::BusMessage("m".to_string())),
        UpdateStep::Forward("m".to_string())
    );
    assert_eq!(
        started.process(SocketEvent::ClientGone),
        UpdateStep::Close(WorkspaceUpdatesClosing { ws_is_closed: true })
    );
    assert_eq!(
        started.process(SocketEvent::Exhausted),
        UpdateStep::Close(WorkspaceUpdatesClosing { ws_is_closed: false })
    );
    assert_eq!(
        started.process(SocketEvent::ClientFailed),
        UpdateStep::Fail(WorkspaceUpdatesError::Axum)
    );
    assert_eq!(
        started.process(SocketEvent::BusFailed),
        UpdateStep::Fail(WorkspaceUpdatesError::BroadcastRecv)
    );
    assert_eq!(
        started.after_send_failure(Some(SendFailure::AlreadyClosed)),
        UpdateStep::Close(WorkspaceUpdatesClosing { ws_is_closed: true })
    );
    assert_eq!(
        started.after_send_failure(Some(SendFailure::Other)),
        UpdateStep::Fail(WorkspaceUpdatesError::WsSendIo)
    );
    assert_eq!(
        started.after_send_failure(None),
        UpdateStep::Fail(WorkspaceUpdatesError::WsSendIo)
    );
    assert!(WorkspaceUpdatesClosing { ws_is_closed: false }.finish());
    assert!(!WorkspaceUpdatesClosing { ws_is_closed: true }.finish());
}

#[test]
fn an_index_is_built_once_before_it_is_given_up() {
    assert_eq!(after_first_lookup(true), IndexStep::Answer);
    assert_eq!(after_first_lookup(false), IndexStep::BuildAndRetry);
    assert_eq!(after_retry(Some(3), "w".to_string(), "c".to_string()), Ok(3));
    let missing = after_retry::<u8>(None, "w".to_string(), "c".to_string());
    assert_eq!(missing, Err(IndexError::IndexNotFound("w".to_string(), "c".to_string())));
    assert_eq!(missing.unwrap_err().status_code(), 404);
    assert_eq!(IndexError::Frigg.status_code(), 500);
    let by_sum = FrontendObjectRequest {
        kind: "k".to_string(),
        id: "i".to_string(),
        checksum: Some("abc".to_string()),
    };
    assert_eq!(by_sum.lookup(), ObjectLookup::ByChecksum("abc".to_string()));
    let current = FrontendObjectRequest { kind: "k".to_string(), id: "i".to_string(), checksum: None };
    assert_eq!(current.lookup(), ObjectLookup::Current);
}

#[test]
fn a_download_moves_in_steps_and_stops_at_the_end() {
    let total = 231231231;
    assert_eq!(next_position(0, total), 223211);
    assert_eq!(next_position(223211, total), 446422);
    assert_eq!(next_position(total - 1, total), total);
    assert_eq!(next_position(total - 223211, total), total);
    assert_eq!(next_position(total, total), total);
    assert_eq!(next_position(u64::MAX, u64::MAX), u64::MAX);
    assert_eq!(next_position(u64::MAX - 5, 3), 3);
    let mut at = 0;
    let mut steps = 0;
    while at < total {
        at = next_position(at, total);
        steps += 1;
    }
    assert_eq!(steps, 1036);
}

#[test]
fn configuration_defaults_and_development() {
    assert_eq!(default_cyclone_encryption_key_path(), "/run/rebaser/cyclone_encryption.key");
    assert!(!default_recreate_management_stream());
    let crypto = default_symmetric_crypto_config();
    assert_eq!(crypto.active_key, Some("/run/rebaser/donkey.key".to_string()));
    assert_eq!(crypto.active_key_base64, None);
    assert!(crypto.extra_keys.is_empty());
    let mut config = ConfigFile::default_file();
    assert_eq!(config.cyclone_encryption_key_path, "/run/rebaser/cyclone_encryption.key");
    assert_eq!(config.symmetric_crypto_service, crypto);
    assert_eq!(detect_development(true, false, true), Development::Buck2);
    assert_eq!(detect_development(false, true, false), Development::Buck2);
    assert_eq!(detect_development(false, false, true), Development::Cargo);
    assert_eq!(detect_development(false, false, false), Development::No);
    config.symmetric_crypto_service.extra_keys.push("old".to_string());
    configure_development(&mut config, "dev.encryption.key".to_string(), "dev.donkey.key".to_string());
    assert_eq!(config.cyclone_encryption_key_path, "dev.encryption.key");
    assert_eq!(config.symmetric_crypto_service.active_key, Some("dev.donkey.key".to_string()));
    assert_eq!(config.symmetric_crypto_service.active_key_base64, None);
    assert!(config.symmetric_crypto_service.extra_keys.is_empty());
    assert!(!config.recreate_management_stream);
}

#[test]
fn a_refresh_job_takes_its_components_in_turn() {
    let job = RefreshJob::new(Visibility::new(4, None), vec![7, 8]);
    assert_eq!(job.job_name(), "RefreshJob");
    assert_eq!(job.retry(), Some(0));
    assert_eq!(job.component_ids(), &vec![7, 8]);
    assert_eq!(job.visibility(), Visibility::new(4, None));
    let now = Instant { secs: 10, nanos: 0 };
    assert_eq!(job.working_visibility(now), Visibility::new(4, Some(now)));
    assert_eq!(
        job.step(0),
        RefreshStep::Refresh { component_id: 7, event: WsPayload::ResourceRefreshed(7) }
    );
    assert_eq!(
        job.step(1),
        RefreshStep::Refresh { component_id: 8, event: WsPayload::ResourceRefreshed(8) }
    );
    assert_eq!(job.step(2), RefreshStep::Done);
    assert_eq!(RefreshJob::check_arguments(3), Ok(()));
    assert_eq!(RefreshJob::check_arguments(2), Err(JobConsumerError::InvalidArguments(2)));
    assert_eq!(RefreshJob::missing(7), JobConsumerError::ComponentNotFound(7));
}

#[test]
fn the_first_choice_of_the_model_is_taken() {
    assert_eq!(first_choice(vec![]), Err(AssetSprayerError::NoChoices));
    assert_eq!(first_choice(vec![None, Some("b".to_string())]), Err(AssetSprayerError::EmptyChoice));
    assert_eq!(
        first_choice(vec![Some("a".to_string()), Some("b".to_string())]),
        Ok("a".to_string())
    );
}

#[test]
fn content_is_held_under_its_kind() {
    let func = ContentTypes::Func(FuncContent::V1(func_v1()));
    assert_eq!(func.kind(), ContentKind::Func);
    assert_eq!(func.kind().code(), 7);
    assert_eq!(func.clone().into_schema_variant(), None);
    assert_eq!(func.into_func(), Some(FuncContent::V1(func_v1())));
    let any = ContentTypes::Any(CasValue { json: "{}".to_string() });
    assert_eq!(any.kind(), ContentKind::Any);
    assert_eq!(any.into_func(), None);
    let variant = ContentTypes::SchemaVariant(SchemaVariantContent::V2(variant_v2("x")));
    assert_eq!(variant.kind(), ContentKind::SchemaVariant);
    assert_eq!(
        variant.into_schema_variant(),
        Some(SchemaVariantContent::V2(variant_v2("x")))
    );
}

#[test]
fn what_was_not_found_is_an_error_of_its_own() {
    assert_eq!(schema_found(Some(3)), Ok(3));
    assert_eq!(schema_found::<u8>(None), Err(SchematicError::SchemaNotFound));
    assert_eq!(schema_variant_found(Some("v")), Ok("v"));
    assert_eq!(schema_variant_found::<u8>(None), Err(SchematicError::SchemaVariantNotFound));
    assert_eq!(component_found(Some(1)), Ok(1));
    assert_eq!(component_found::<u8>(None), Err(DiagramError::ComponentNotFound));
    assert_eq!(schema_of_variant_found(Some("s".to_string())), Ok("s".to_string()));
    assert_eq!(schema_of_variant_found::<String>(None), Err(DiagramError::SchemaNotFound));
}

#[test]
fn every_kind_of_content_is_unwrapped() {
    let value = CasValue { json: "[1]".to_string() };
    let any = ContentTypes::Any(value.clone());
    assert_eq!(any.clone().into_any(), Some(value.clone()));
    assert_eq!(any.clone().try_into_any(), Ok(value));
    assert_eq!(any.clone().into_prop(), None);
    assert_eq!(any.clone().try_into_func(), Err("Could not convert ContentType to Func"));
    assert_eq!(
        any.clone().try_into_schema_variant(),
        Err("Could not convert ContentType to SchemaVariant")
    );
    assert_eq!(
        any.try_into_deprecated_action_batch(),
        Err("Could not convert ContentType to DeprecatedActionBatch")
    );
    let func = ContentTypes::Func(FuncContent::V1(func_v1()));
    assert_eq!(func.clone().try_into_func(), Ok(FuncContent::V1(func_v1())));
    assert_eq!(func.clone().try_into_any(), Err("Could not convert ContentType to CasValue"));
    assert_eq!(func.clone().into_secret(), None);
    assert_eq!(func.into_output_socket(), None);
}

#[test]
fn a_run_of_a_refresh_job_stops_at_the_first_missing_component() {
    let job = RefreshJob::new(Visibility::new(4, None), vec![7, 8, 9]);
    assert_eq!(job.run(&vec![true, true, true]), RefreshRun { refreshed: 3, result: Ok(()) });
    assert_eq!(
        job.run(&vec![true, false, true]),
        RefreshRun { refreshed: 1, result: Err(JobConsumerError::ComponentNotFound(8)) }
    );
    assert_eq!(
        job.run(&vec![true, true]),
        RefreshRun { refreshed: 2, result: Err(JobConsumerError::ComponentNotFound(9)) }
    );
    assert_eq!(
        job.run(&vec![]),
        RefreshRun { refreshed: 0, result: Err(JobConsumerError::ComponentNotFound(7)) }
    );
    let empty = RefreshJob::new(Visibility::new(4, None), vec![]);
    assert_eq!(empty.run(&vec![]), RefreshRun { refreshed: 0, result: Ok(()) });
    assert_eq!(empty.run(&vec![false]), RefreshRun { refreshed: 0, result: Ok(()) });
    assert_eq!(empty.step(0), RefreshStep::Done);
}
