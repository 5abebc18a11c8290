use vfio_passthrough::config::{VfioBuilder, VfioConfigError, VfioDeviceConfig};
use vfio_passthrough::request::{
    parse_put_vfio, PutVfioMetrics, RequestError, StatusCode, VmmAction,
};

fn body_config(body: &str) -> Result<VfioDeviceConfig, RequestError> {
    let invalid = |text: &str| RequestError::SerdeJson(text.to_string());
    let value: serde_json::Value =
        serde_json::from_slice(body.as_bytes()).map_err(|err| invalid(&err.to_string()))?;
    let object = value.as_object().ok_or(invalid("not an object"))?;
    if object.keys().any(|key| key != "id" && key != "path") {
        return Err(invalid("unknown field"));
    }
    let field = |name: &str| {
        object.get(name).and_then(|field| field.as_str()).map(|text| text.to_string())
    };
    Ok(VfioDeviceConfig {
        id: field("id").ok_or(invalid("missing field `id`"))?,
        path: field("path").ok_or(invalid("missing field `path`"))?,
    })
}

fn no_metrics() -> PutVfioMetrics {
    PutVfioMetrics { vfio_count: 0, vfio_fails: 0 }
}

fn put(body: &str, id_from_path: Option<&str>) -> Result<VmmAction, RequestError> {
    let mut metrics = no_metrics();
    let id = id_from_path.map(|id| Ok(id.to_string()));
    let action = parse_put_vfio(id, body_config(body), &mut metrics);
    assert_eq!(metrics.vfio_count, 1);
    assert_eq!(metrics.vfio_fails, u64::from(action.is_err()));
    action
}

#[test]
fn test_parse_put_vfio_request() {
    put("invalid_payload", None).unwrap_err();
    put("invalid_payload", Some("id")).unwrap_err();

    // Empty body is not valid.
    put("{}", Some("1")).unwrap_err();

    // Mismatched id between path and body.
    let body = r#"{
            "id": "dev0",
            "path": "/sys/bus/pci/devices/0000:01:00.0"
        }"#;
    put(body, Some("other")).unwrap_err();

    // Valid request.
    let body = r#"{
            "id": "dev0",
            "path": "/sys/bus/pci/devices/0000:01:00.0"
        }"#;
    put(body, Some("dev0")).unwrap();
}

#[test]
fn accepted_request_carries_the_config() {
    let body = r#"{"id": "gpu0", "path": "/sys/bus/pci/devices/0000:01:00.0"}"#;
    assert_eq!(
        put(body, Some("gpu0")),
        Ok(VmmAction::InsertVfioDevice(VfioDeviceConfig {
            id: "gpu0".to_string(),
            path: "/sys/bus/pci/devices/0000:01:00.0".to_string(),
        }))
    );
}

#[test]
fn rejected_requests_say_why() {
    let body = r#"{"id": "gpu0", "path": "/p"}"#;
    assert_eq!(put(body, None), Err(RequestError::EmptyID));
    assert_eq!(
        put(body, Some("gpu1")),
        Err(RequestError::Generic(
            StatusCode::BadRequest,
            "The id from the path does not match the id from the body!".to_string(),
        ))
    );
    assert!(matches!(put("{", Some("gpu0")), Err(RequestError::SerdeJson(_))));
}

#[test]
fn request_with_a_bad_id_is_counted_but_not_as_failed() {
    let mut metrics = no_metrics();
    let bad = RequestError::InvalidID("dev-0".to_string());
    let body = body_config(r#"{"id": "dev-0", "path": "/p"}"#);
    assert_eq!(
        parse_put_vfio(Some(Err(bad)), body, &mut metrics),
        Err(RequestError::InvalidID("dev-0".to_string()))
    );
    assert_eq!(metrics, PutVfioMetrics { vfio_count: 1, vfio_fails: 0 });
}

#[test]
fn counters_start_again_at_zero() {
    let mut metrics = PutVfioMetrics { vfio_count: u64::MAX, vfio_fails: u64::MAX };
    parse_put_vfio(None, body_config("{}"), &mut metrics).unwrap_err();
    assert_eq!(metrics, no_metrics());
}

fn config(id: &str) -> VfioDeviceConfig {
    VfioDeviceConfig { id: id.to_string(), path: "/sys/bus/pci/devices/0000:01:00.0".to_string() }
}

#[test]
fn builder_keeps_ids_unique() {
    let mut builder = VfioBuilder::new();
    assert!(builder.configs.is_empty());
    assert_eq!(builder.insert(config("gpu0")), Ok(()));
    assert_eq!(builder.insert(config("nic0")), Ok(()));
    assert_eq!(
        builder.insert(config("gpu0")),
        Err(VfioConfigError::DeviceIdAlreadyExists("gpu0".to_string()))
    );
    assert_eq!(builder.configs, vec![config("gpu0"), config("nic0")]);
    assert!(VfioBuilder::default().configs.is_empty());
}

#[test]
fn duplicate_id_message() {
    assert_eq!(
        VfioConfigError::DeviceIdAlreadyExists("gpu0".to_string()).message(),
        "A VFIO device with id gpu0 already exists"
    );
}
