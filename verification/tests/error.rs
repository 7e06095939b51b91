use goonj::error::{GoonjError, Result};

#[test]
fn error_display() {
    let e = GoonjError::InvalidGeometry("no walls".into());
    assert_eq!(e.message(), "invalid geometry: no walls");
}

#[test]
fn error_display_material() {
    let e = GoonjError::InvalidMaterial("negative absorption".into());
    assert!(e.message().contains("negative absorption"));
}

#[test]
fn error_display_frequency() {
    let e = GoonjError::InvalidFrequency("below 0 Hz".into());
    assert!(e.message().contains("below 0 Hz"));
}

#[test]
fn result_type_works() {
    let ok: Result<f32> = Ok(1.0);
    assert!(ok.is_ok());
    let err: Result<f32> = Err(GoonjError::ComputationError("fail".into()));
    assert!(err.is_err());
}

#[test]
fn error_messages_have_kind_prefix() {
    assert_eq!(
        GoonjError::InvalidMaterial("x".into()).message(),
        "invalid material: x"
    );
    assert_eq!(
        GoonjError::InvalidFrequency("y".into()).message(),
        "invalid frequency: y"
    );
    assert_eq!(
        GoonjError::PropagationFailed("z".into()).message(),
        "propagation failed: z"
    );
    assert_eq!(
        GoonjError::ComputationError("w".into()).message(),
        "computation error: w"
    );
}

#[test]
fn error_detail_is_payload() {
    let e = GoonjError::ComputationError("disk full".into());
    assert_eq!(e.detail(), "disk full");
    let empty = GoonjError::InvalidGeometry(String::new());
    assert_eq!(empty.message(), "invalid geometry: ");
}
