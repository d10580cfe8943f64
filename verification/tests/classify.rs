use spec_driven_docs::plan::classify::{classify, Classification, Intent, Signals};

const fn signals() -> Signals {
    Signals {
        invalid: false,
        installed: false,
        at_destination: false,
        drifted: false,
        settled: false,
    }
}

#[test]
fn each_of_the_seven_target_states_classifies_correctly() {
    assert_eq!(classify(signals()), Classification::Setup);
    let settled = Signals {
        settled: true,
        ..signals()
    };
    assert_eq!(classify(settled), Classification::Migration);
    let old = Signals {
        installed: true,
        ..signals()
    };
    assert_eq!(classify(old), Classification::Upgrade);
    let drifted = Signals {
        installed: true,
        at_destination: true,
        drifted: true,
        ..signals()
    };
    assert_eq!(classify(drifted), Classification::Drift);
    let current = Signals {
        installed: true,
        at_destination: true,
        ..signals()
    };
    assert_eq!(classify(current), Classification::Current);
    let invalid = Signals {
        invalid: true,
        installed: true,
        ..signals()
    };
    assert_eq!(classify(invalid), Classification::Invalid);
}

#[test]
fn malformed_metadata_is_invalid_and_never_absence() {
    let invalid = Signals {
        invalid: true,
        ..signals()
    };
    assert_eq!(classify(invalid), Classification::Invalid);
    assert_ne!(classify(invalid), Classification::Setup);
}

#[test]
fn init_intent_cannot_force_a_settled_target_to_setup() {
    let error = Intent::Init.accepts(Classification::Migration).unwrap_err();
    assert_eq!(error.verb, "sdd init");
    assert!(error.message().contains("sdd reconcile plan"));
    assert!(Intent::Init.accepts(Classification::Setup).is_ok());
    assert!(Intent::Init.accepts(Classification::Current).is_ok());
    assert!(Intent::Init.accepts(Classification::Upgrade).is_ok());
    assert!(Intent::Init.accepts(Classification::Invalid).is_err());
}

#[test]
fn upgrade_intent_cannot_turn_an_absent_instance_into_an_upgrade() {
    assert!(Intent::Upgrade.accepts(Classification::Setup).is_err());
    assert!(Intent::Upgrade.accepts(Classification::Migration).is_err());
    assert!(Intent::Upgrade.accepts(Classification::Upgrade).is_ok());
    assert!(Intent::Upgrade.accepts(Classification::Current).is_ok());
}

#[test]
fn reconcile_and_assess_serve_whatever_the_target_is() {
    for found in [
        Classification::Setup,
        Classification::Migration,
        Classification::Upgrade,
        Classification::Drift,
        Classification::Current,
        Classification::Invalid,
    ] {
        assert!(Intent::Reconcile.accepts(found).is_ok());
        assert!(Intent::Assess.accepts(found).is_ok());
    }
}

#[test]
fn a_refusal_reads_as_one_sentence() {
    let error = Intent::Upgrade.accepts(Classification::Setup).unwrap_err();
    assert_eq!(
        error.message(),
        "sdd upgrade does not serve a setup target; run sdd reconcile plan"
    );
    assert_eq!(Classification::Migration.as_str(), "migration");
}
