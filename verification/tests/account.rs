use instant_acme::AccountCredentials;
use loom::account::{
    account_contact, account_path, account_start, account_step, cache_credentials, open_account,
    AccountAction, AccountEvent, AccountStage,
};

const CREDENTIALS: &str = r#"{
    "id": "https://acme.example/acct/1",
    "key_pkcs8": "AAEC",
    "urls": {
        "newNonce": "https://acme.example/nonce",
        "newAccount": "https://acme.example/account",
        "newOrder": "https://acme.example/order"
    }
}"#;

#[test]
fn where_accounts_are_cached() {
    assert_eq!(account_path(), "/tmp/loom_acme_account.json");
}

#[test]
fn contacts() {
    assert_eq!(account_contact("you@example.com"), "mailto:you@example.com");
}

const EMAIL: &str = "you@example.com";

fn credentials() -> AccountCredentials {
    serde_json::from_str(CREDENTIALS).unwrap()
}

fn creates(action: AccountAction) -> bool {
    matches!(action, AccountAction::Create { contact, terms_agreed: true, only_existing: false }
        if contact == "mailto:you@example.com")
}

#[test]
fn cached_credentials_are_tried() {
    let (stage, action) = open_account(Some(CREDENTIALS), EMAIL);
    assert_eq!(stage, AccountStage::Trying);
    match action {
        AccountAction::TryCached(found) => {
            let written = serde_json::to_value(&found).unwrap();
            assert_eq!(written["id"], "https://acme.example/acct/1");
            assert_eq!(written["key_pkcs8"], "AAEC");
        }
        _ => panic!("nothing to try"),
    }
    let (stage, action) = account_step(stage, AccountEvent::Tried(true), EMAIL);
    assert_eq!(stage, AccountStage::Open);
    assert!(matches!(action, AccountAction::Use));
}

#[test]
fn unusable_caches_lead_to_a_new_account() {
    for cached in [None, Some(""), Some("{}"), Some("not json")] {
        let (stage, action) = open_account(cached, EMAIL);
        assert_eq!(stage, AccountStage::Creating);
        assert!(creates(action));
    }
}

#[test]
fn refused_credentials_lead_to_a_new_account() {
    let (stage, _) = account_start(Some(credentials()), EMAIL);
    let (stage, action) = account_step(stage, AccountEvent::Tried(false), EMAIL);
    assert_eq!(stage, AccountStage::Creating);
    assert!(creates(action));
    for cached in [true, false] {
        let (stage, _) = account_step(stage, AccountEvent::Created(credentials()), EMAIL);
        assert_eq!(stage, AccountStage::Caching);
        let (stage, action) = account_step(stage, AccountEvent::Cached(cached), EMAIL);
        assert_eq!(stage, AccountStage::Open);
        assert!(matches!(action, AccountAction::Use));
    }
}

#[test]
fn what_is_cached_is_found_again() {
    let created = AccountEvent::Created(credentials());
    let (_, action) = account_step(AccountStage::Creating, created, EMAIL);
    let text = match action {
        AccountAction::Cache { path, text } => {
            assert_eq!(path, account_path());
            text
        }
        _ => panic!("nothing to cache"),
    };
    match open_account(Some(&text), EMAIL).1 {
        AccountAction::TryCached(found) => assert_eq!(
            serde_json::to_value(&found).unwrap(),
            serde_json::to_value(&credentials()).unwrap()
        ),
        _ => panic!("the credentials are gone"),
    }
}

#[test]
fn credentials_that_cannot_be_written_end_the_opening() {
    let (stage, action) = cache_credentials(Err("why".to_string()));
    assert_eq!(stage, AccountStage::Failed);
    assert!(matches!(action, AccountAction::Fail(e) if e == "why"));
    let (stage, action) = cache_credentials(Ok("{}".to_string()));
    assert_eq!(stage, AccountStage::Caching);
    assert!(matches!(action, AccountAction::Cache { text, .. } if text == "{}"));
}
