use dryer::firmware::BuildError;
use dryer::lock::versioned_interface;

#[test]
fn versioned_interface_names() {
    for ok in ["dryer.controller-abi/v1", "abi/v1", "a.b/v42", "x/v4294967295"] {
        if ok.contains('-') {
            assert!(!versioned_interface(ok), "{ok}");
        } else {
            assert!(versioned_interface(ok), "{ok}");
        }
    }
    for bad in ["", "/v1", "abi/v0", "abi/v", "abi/v1a", "Abi/v1", "abi/v4294967296", "abi"] {
        assert!(!versioned_interface(bad), "{bad}");
    }
}

#[test]
fn build_errors_read_as_sentences() {
    assert_eq!(
        BuildError::UnsupportedLockVersion(2).to_message(),
        "lockfile v2 cannot produce controller safety artifacts; re-lock with v3+"
    );
    assert_eq!(
        BuildError::UnsupportedBuildPlanLockVersion(3).to_message(),
        "lockfile v3 cannot produce controller build plans; re-lock with v4+"
    );
    assert_eq!(
        BuildError::UnknownController("mainboard".into()).to_message(),
        "unknown locked controller 'mainboard'"
    );
    assert_eq!(
        BuildError::InvalidLock("x".into()).to_message(),
        "invalid machine lock: x"
    );
}
