use swiftfind_core::action_executor::LaunchError;
use swiftfind_core::contract::{CoreResponse, LaunchRequest, LaunchResponse};
use swiftfind_core::contract::results_to_dtos;
use swiftfind_core::core_service::{launch_request_target, launched_item, LaunchTarget, ServiceError};
use swiftfind_core::model::SearchItem;
use swiftfind_core::transport::{invalid_json_response, map_service_error, transport_response, ErrorCode, TransportResponse};

#[test]
fn launched_item_counts_a_use_and_the_latest_access() {
    let mut item = SearchItem::new("1", "app", "Code", "C:\\Code.exe");
    item.last_accessed_epoch_secs = 500;
    let out = launched_item(&item, 900);
    assert_eq!(out.use_count, 1);
    assert_eq!(out.last_accessed_epoch_secs, 900);
    assert_eq!(out.id, "1");
    let earlier = launched_item(&out, 100);
    assert_eq!(earlier.use_count, 2);
    assert_eq!(earlier.last_accessed_epoch_secs, 900);
}

#[test]
fn launched_item_use_count_saturates() {
    let mut item = SearchItem::new("1", "app", "Code", "C:\\Code.exe");
    item.use_count = u32::MAX;
    assert_eq!(launched_item(&item, 1).use_count, u32::MAX);
}

#[test]
fn launch_request_prefers_a_nonblank_id() {
    let request = LaunchRequest { id: Some("  ".to_string()), path: Some("C:\\a.exe".to_string()) };
    assert!(matches!(launch_request_target(&request), Ok(LaunchTarget::Path("C:\\a.exe"))));
    let request = LaunchRequest { id: Some("x".to_string()), path: Some("C:\\a.exe".to_string()) };
    assert!(matches!(launch_request_target(&request), Ok(LaunchTarget::Id("x"))));
    let request = LaunchRequest { id: None, path: None };
    match launch_request_target(&request) {
        Err(ServiceError::InvalidRequest(m)) => assert_eq!(m, "launch requires non-empty id or path"),
        _ => panic!("expected an invalid request"),
    }
}

#[test]
fn service_errors_map_to_codes_and_messages() {
    let e = map_service_error(ServiceError::ItemNotFound("abc".to_string()));
    assert_eq!(e.code, ErrorCode::ItemNotFound);
    assert_eq!(e.message, "abc");
    let e = map_service_error(ServiceError::Launch(LaunchError::EmptyPath));
    assert_eq!(e.code, ErrorCode::Launch);
    assert_eq!(e.message, "empty path");
}

#[test]
fn transport_wraps_results_and_errors() {
    let ok = transport_response(Ok(CoreResponse::Launch(LaunchResponse { launched: true })));
    assert_eq!(ok, TransportResponse::Success { response: CoreResponse::Launch(LaunchResponse { launched: true }) });
    match transport_response(Err(ServiceError::InvalidRequest("bad".to_string()))) {
        TransportResponse::Failure { error } => {
            assert_eq!(error.code, ErrorCode::InvalidRequest);
            assert_eq!(error.message, "bad");
        }
        _ => panic!("expected a failure"),
    }
    match invalid_json_response("eof".to_string()) {
        TransportResponse::Failure { error } => assert_eq!(error.code, ErrorCode::InvalidJson),
        _ => panic!("expected a failure"),
    }
}

#[test]
fn dtos_keep_the_result_order_and_fields() {
    let items = vec![
        SearchItem::new("1", "app", "Code", "C:\\Code.exe"),
        SearchItem::new("2", "file", "Notes.txt", "C:\\Notes.txt"),
    ];
    let dtos = results_to_dtos(&items);
    assert_eq!(dtos.len(), 2);
    assert_eq!(dtos[1].id, "2");
    assert_eq!(dtos[1].kind, "file");
    assert_eq!(dtos[1].title, "Notes.txt");
    assert_eq!(dtos[1].path, "C:\\Notes.txt");
}
