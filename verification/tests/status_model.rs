use pyfmu_wrapper::status::{ConversionError, Fmi2Status, Fmi2StatusKind, Fmi2Type};

#[test]
fn status_codes_round_trip() {
    let all = [
        Fmi2Status::Fmi2OK,
        Fmi2Status::Fmi2Warning,
        Fmi2Status::Fmi2Discard,
        Fmi2Status::Fmi2Error,
        Fmi2Status::Fmi2Fatal,
        Fmi2Status::Fmi2Pending,
    ];
    for (expected_code, status) in all.iter().enumerate() {
        let code = status.to_code();
        assert_eq!(code, expected_code as i32);
        assert_eq!(Fmi2Status::try_from_code(code), Ok(*status));
    }
}

#[test]
fn status_out_of_range_is_a_conversion_error() {
    assert_eq!(
        Fmi2Status::try_from_code(6),
        Err(ConversionError { value: 6 })
    );
    assert_eq!(
        Fmi2Status::try_from_code(-1),
        Err(ConversionError { value: -1 })
    );
    assert_eq!(
        Fmi2Status::try_from_code(i32::MAX),
        Err(ConversionError { value: i32::MAX })
    );
}

#[test]
fn severity_threshold_is_warning() {
    assert!(Fmi2Status::Fmi2OK.is_at_most_warning());
    assert!(Fmi2Status::Fmi2Warning.is_at_most_warning());
    assert!(!Fmi2Status::Fmi2Discard.is_at_most_warning());
    assert!(!Fmi2Status::Fmi2Error.is_at_most_warning());
    assert!(!Fmi2Status::Fmi2Fatal.is_at_most_warning());
    assert!(!Fmi2Status::Fmi2Pending.is_at_most_warning());
}

#[test]
fn status_kind_codes_round_trip() {
    let all = [
        Fmi2StatusKind::Fmi2DoStepStatus,
        Fmi2StatusKind::Fmi2PendingStatus,
        Fmi2StatusKind::Fmi2LastSuccessfulTime,
        Fmi2StatusKind::Fmi2Terminated,
    ];
    for (expected_code, kind) in all.iter().enumerate() {
        let code = kind.to_code();
        assert_eq!(code, expected_code as i32);
        assert_eq!(Fmi2StatusKind::try_from_code(code), Ok(*kind));
    }
    assert_eq!(
        Fmi2StatusKind::try_from_code(4),
        Err(ConversionError { value: 4 })
    );
}

#[test]
fn fmu_type_codes_round_trip() {
    assert_eq!(Fmi2Type::Fmi2ModelExchange.to_code(), 0);
    assert_eq!(Fmi2Type::Fmi2CoSimulation.to_code(), 1);
    assert_eq!(
        Fmi2Type::try_from_code(0),
        Ok(Fmi2Type::Fmi2ModelExchange)
    );
    assert_eq!(Fmi2Type::try_from_code(1), Ok(Fmi2Type::Fmi2CoSimulation));
    assert_eq!(Fmi2Type::try_from_code(2), Err(ConversionError { value: 2 }));
}
