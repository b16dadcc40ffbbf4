use pufferfish::{AppError, Callback, ParamDesc};

fn pd(token: u64, name: &str, exclusive: bool) -> ParamDesc {
    ParamDesc { token, name: name.to_string(), exclusive }
}

#[test]
fn empty_signature_is_legal() {
    let cb = Callback { id: 1, params: vec![] };
    assert!(cb.assert_legal().is_ok());
}

#[test]
fn single_exclusive_is_legal() {
    let cb = Callback { id: 1, params: vec![pd(1, "Counter", true)] };
    assert!(cb.assert_legal().is_ok());
}

#[test]
fn repeated_shared_is_legal() {
    let cb = Callback { id: 1, params: vec![pd(1, "Counter", false), pd(1, "Counter", false)] };
    assert!(cb.assert_legal().is_ok());
}

#[test]
fn distinct_exclusives_are_legal() {
    let cb = Callback { id: 1, params: vec![pd(1, "Counter", true), pd(2, "Log", true)] };
    assert!(cb.assert_legal().is_ok());
}

#[test]
fn two_exclusives_same_type_are_illegal() {
    let cb = Callback { id: 1, params: vec![pd(1, "Counter", true), pd(1, "Counter", true)] };
    match cb.assert_legal() {
        Err(AppError::IllegalSignature { message, conflict, both_exclusive }) => {
            assert_eq!(
                message,
                "illegal callback signature (exclusive Counter, exclusive Counter): \
                 multiple exclusive references to Counter"
            );
            assert_eq!(conflict, "Counter");
            assert!(both_exclusive);
        }
        other => panic!("expected an illegal signature, got {:?}", other),
    }
}

#[test]
fn mixed_shared_and_exclusive_same_type_are_illegal() {
    let cb = Callback { id: 1, params: vec![pd(1, "Counter", false), pd(1, "Counter", true)] };
    match cb.assert_legal() {
        Err(AppError::IllegalSignature { message, conflict, both_exclusive }) => {
            assert_eq!(
                message,
                "illegal callback signature (shared Counter, exclusive Counter): \
                 both exclusive and shared references to Counter"
            );
            assert_eq!(conflict, "Counter");
            assert!(!both_exclusive);
        }
        other => panic!("expected an illegal signature, got {:?}", other),
    }
}

#[test]
fn conflict_reports_first_pair() {
    let cb = Callback {
        id: 1,
        params: vec![pd(3, "Assets", false), pd(1, "Counter", true), pd(1, "Counter", false)],
    };
    match cb.assert_legal() {
        Err(AppError::IllegalSignature { message, conflict, both_exclusive }) => {
            assert_eq!(
                message,
                "illegal callback signature (shared Assets, exclusive Counter, shared Counter): \
                 both exclusive and shared references to Counter"
            );
            assert_eq!(conflict, "Counter");
            assert!(!both_exclusive);
        }
        other => panic!("expected an illegal signature, got {:?}", other),
    }
}

#[test]
fn missing_type_message() {
    let e = AppError::MissingType { name: "Input".to_string() };
    assert_eq!(e.message(), "missing state: Input");
}
