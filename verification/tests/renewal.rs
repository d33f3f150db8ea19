use loom::csr::SigningRequest;
use loom::renewal::{
    Authorization, Challenge, ChallengeKind, OrderStatus, Renewal, RenewalAction, RenewalError,
    RenewalEvent, RenewalStage, POLL_LIMIT_NANOS,
};
use loom::ssl::{
    check_of, manager_start, manager_step, CertCheck, ManagerAction, ManagerEvent, ManagerStage,
    ROUND_INTERVAL_SECS,
};

#[test]
fn answers_come_to_checks() {
    assert_eq!(check_of::<String>(&Ok(true)), CertCheck::Due);
    assert_eq!(check_of::<String>(&Ok(false)), CertCheck::Valid);
    assert_eq!(check_of(&Err::<bool, String>("gone".to_string())), CertCheck::Unreadable);
}

#[test]
fn a_round_looks_at_every_certificate() {
    let (stage, action) = manager_start(3);
    assert_eq!(action, ManagerAction::Check(0));
    let (stage, action) = manager_step(3, stage, ManagerEvent::Checked(CertCheck::Valid));
    assert_eq!(action, ManagerAction::Check(1));
    let (stage, action) = manager_step(3, stage, ManagerEvent::Checked(CertCheck::Due));
    assert_eq!(action, ManagerAction::Renew(1));
    // A renewal that fails does not hold up the next certificate.
    let (stage, action) = manager_step(3, stage, ManagerEvent::Renewed(false));
    assert_eq!(action, ManagerAction::Check(2));
    let (stage, action) = manager_step(3, stage, ManagerEvent::Checked(CertCheck::Unreadable));
    assert_eq!(action, ManagerAction::Renew(2));
    let (stage, action) = manager_step(3, stage, ManagerEvent::Renewed(true));
    assert_eq!((stage, action), (ManagerStage::Resting, ManagerAction::Rest(86400)));
    let (_, action) = manager_step(3, stage, ManagerEvent::Rested);
    assert_eq!(action, ManagerAction::Check(0));
    assert_eq!(ROUND_INTERVAL_SECS, 86400);
}

#[test]
fn no_certificates_no_checks() {
    assert_eq!(manager_start(0), (ManagerStage::Resting, ManagerAction::Rest(86400)));
}

fn challenge(kind: ChallengeKind, name: &str) -> Challenge {
    Challenge {
        kind,
        url: format!("https://acme/{}", name),
        dns_value: format!("value-{}", name),
    }
}

fn authorization(domain: &str, name: &str) -> Authorization {
    Authorization {
        domain: domain.to_string(),
        challenges: vec![
            challenge(ChallengeKind::Http01, "http"),
            challenge(ChallengeKind::Dns01, name),
            challenge(ChallengeKind::Dns01, "second"),
        ],
    }
}

fn domains() -> Vec<String> {
    vec!["example.com".to_string(), "*.example.com".to_string()]
}

fn authorizing() -> Renewal {
    let (mut r, action) = Renewal::start(domains(), "/c/crt".to_string(), "/k/key".to_string());
    assert!(matches!(action, RenewalAction::OpenAccount));
    let action = r.step(RenewalEvent::AccountOpened);
    assert!(matches!(action, RenewalAction::PlaceOrder(d) if d == domains()));
    assert!(matches!(r.step(RenewalEvent::Ordered), RenewalAction::FetchAuthorizations));
    r
}

fn polling() -> Renewal {
    let mut r = authorizing();
    assert!(matches!(r.step(RenewalEvent::Authorized(vec![])), RenewalAction::Wait(5)));
    assert!(matches!(r.step(RenewalEvent::Waited), RenewalAction::PollOrder));
    r
}

#[test]
fn challenges_are_met_in_turn() {
    let mut r = authorizing();
    let action = r.step(RenewalEvent::Authorized(vec![
        authorization("example.com", "one"),
        authorization("example.org", "two"),
    ]));
    assert!(matches!(action, RenewalAction::SetTxt { domain, value }
        if domain == "example.com" && value == "value-one"));
    assert!(matches!(r.step(RenewalEvent::TxtSet), RenewalAction::Wait(30)));
    let action = r.step(RenewalEvent::Waited);
    assert!(matches!(action, RenewalAction::Announce(url) if url == "https://acme/one"));
    let action = r.step(RenewalEvent::Announced);
    assert!(matches!(action, RenewalAction::SetTxt { domain, value }
        if domain == "example.org" && value == "value-two"));
    r.step(RenewalEvent::TxtSet);
    let action = r.step(RenewalEvent::Waited);
    assert!(matches!(action, RenewalAction::Announce(url) if url == "https://acme/two"));
    assert!(matches!(r.step(RenewalEvent::Announced), RenewalAction::Wait(5)));
    assert_eq!(r.stage, RenewalStage::OrderPause);
}

#[test]
fn authorizations_need_a_dns_challenge() {
    let mut r = authorizing();
    let action = r.step(RenewalEvent::Authorized(vec![Authorization {
        domain: "example.com".to_string(),
        challenges: vec![
            challenge(ChallengeKind::Http01, "h"),
            challenge(ChallengeKind::TlsAlpn01, "t"),
            challenge(ChallengeKind::Other, "o"),
        ],
    }]));
    assert!(matches!(action, RenewalAction::Fail(RenewalError::NoDnsChallenge)));
    assert_eq!(r.stage, RenewalStage::Failed);
    assert_eq!(
        RenewalError::NoDnsChallenge.message(),
        "No DNS-01 challenge found in authorization"
    );
}

#[test]
fn requests_are_made_for_ready_orders() {
    let mut r = polling();
    for status in [OrderStatus::Pending, OrderStatus::Processing, OrderStatus::Valid] {
        let action = r.step(RenewalEvent::OrderState(status, POLL_LIMIT_NANOS));
        assert!(matches!(action, RenewalAction::Wait(5)));
        assert!(matches!(r.step(RenewalEvent::Waited), RenewalAction::PollOrder));
    }
    // An order that is ready is taken however long that took.
    let action = r.step(RenewalEvent::OrderState(OrderStatus::Ready, u128::MAX));
    assert!(matches!(action, RenewalAction::MakeRequest(d) if d == domains()));
    let made = SigningRequest { der: vec![1, 2, 3], key_pem: "KEY".to_string() };
    let action = r.step(RenewalEvent::RequestMade(made));
    assert!(matches!(action, RenewalAction::Finalize(der) if der == vec![1, 2, 3]));
}

#[test]
fn invalid_orders_fail() {
    let action = polling().step(RenewalEvent::OrderState(OrderStatus::Invalid, 0));
    assert!(matches!(action, RenewalAction::Fail(RenewalError::OrderInvalid)));
    assert_eq!(RenewalError::OrderInvalid.message(), "ACME order became invalid");
}

#[test]
fn order_polling_is_limited() {
    let late = POLL_LIMIT_NANOS + 1;
    let action = polling().step(RenewalEvent::OrderState(OrderStatus::Pending, late));
    assert!(matches!(action, RenewalAction::Fail(RenewalError::OrderTimeout)));
    assert_eq!(
        RenewalError::OrderTimeout.message(),
        "Timed out waiting for ACME order Ready state"
    );
    assert_eq!(POLL_LIMIT_NANOS, 300 * 1_000_000_000);
}

fn awaiting_certificate() -> Renewal {
    let mut r = polling();
    r.step(RenewalEvent::OrderState(OrderStatus::Ready, 0));
    r.step(RenewalEvent::RequestMade(SigningRequest {
        der: vec![7],
        key_pem: "KEY".to_string(),
    }));
    assert!(matches!(r.step(RenewalEvent::Finalized), RenewalAction::Wait(5)));
    assert!(matches!(r.step(RenewalEvent::Waited), RenewalAction::PollCertificate));
    r
}

#[test]
fn certificate_polling_is_limited() {
    let mut r = awaiting_certificate();
    let action = r.step(RenewalEvent::Certificate(None, POLL_LIMIT_NANOS));
    assert!(matches!(action, RenewalAction::Wait(5)));
    r.step(RenewalEvent::Waited);
    let action = r.step(RenewalEvent::Certificate(None, POLL_LIMIT_NANOS + 1));
    assert!(matches!(action, RenewalAction::Fail(RenewalError::CertificateTimeout)));
    assert_eq!(
        RenewalError::CertificateTimeout.message(),
        "Timed out waiting for ACME certificate"
    );
}

#[test]
fn files_are_written_and_then_records_cleaned_up() {
    let mut r = awaiting_certificate();
    let action = r.step(RenewalEvent::Certificate(Some("CHAIN".to_string()), u128::MAX));
    assert!(matches!(action, RenewalAction::MakeDirectory(p) if p == "/c/crt"));
    let action = r.step(RenewalEvent::DirectoryMade);
    assert!(matches!(action, RenewalAction::MakeDirectory(p) if p == "/k/key"));
    let action = r.step(RenewalEvent::DirectoryMade);
    assert!(matches!(action, RenewalAction::WriteFile { path, content }
        if path == "/c/crt" && content == "CHAIN"));
    let action = r.step(RenewalEvent::Written);
    assert!(matches!(action, RenewalAction::WriteFile { path, content }
        if path == "/k/key" && content == "KEY"));
    let action = r.step(RenewalEvent::Written);
    assert!(matches!(action, RenewalAction::ClearTxt(d) if d == "example.com"));
    // A record that cannot be cleared does not hold up the next one.
    let action = r.step(RenewalEvent::CleanedUp(false));
    assert!(matches!(action, RenewalAction::ClearTxt(d) if d == "*.example.com"));
    assert!(matches!(r.step(RenewalEvent::CleanedUp(true)), RenewalAction::Finish));
    assert_eq!(r.stage, RenewalStage::Done);
}

#[test]
fn failed_renewals_write_nothing() {
    let mut r = authorizing();
    let actions = vec![
        r.step(RenewalEvent::Authorized(vec![authorization("example.com", "one")])),
        r.step(RenewalEvent::TxtSet),
        r.step(RenewalEvent::Waited),
        r.step(RenewalEvent::Announced),
        r.step(RenewalEvent::Waited),
        r.step(RenewalEvent::OrderState(OrderStatus::Invalid, 0)),
    ];
    assert_eq!(r.stage, RenewalStage::Failed);
    assert!(actions.iter().all(|a| !matches!(a, RenewalAction::WriteFile { .. })));
}
