use loom::dns::{
    challenge_record_name, record_ids, record_url, records_url, succeeded, zone_id, zone_root,
    zones_url, TxtAction, TxtChange, TxtError, TxtEvent, TxtGoal, TxtStage, RECORD_TTL,
};
use loom::json::{first, member, text, Json};

fn t(s: &str) -> Json {
    Json::Text(s.to_string())
}

fn object(members: Vec<(&str, Json)>) -> Json {
    Json::Object(members.into_iter().map(|(n, v)| (n.to_string(), v)).collect())
}

fn zone_answer(id: &str) -> Json {
    object(vec![("result", Json::Array(vec![object(vec![("id", t(id))])]))])
}

fn listing(ids: Vec<&str>) -> Json {
    let items = ids.into_iter().map(|id| object(vec![("id", t(id))])).collect();
    object(vec![("success", Json::Bool(true)), ("result", Json::Array(items))])
}

#[test]
fn zones_of_domains() {
    assert_eq!(zone_root("example.com"), "example.com");
    assert_eq!(zone_root("*.example.com"), "example.com");
    assert_eq!(zone_root("a.b.example.com"), "example.com");
    assert_eq!(zone_root("*.*.*example.com"), "example.com");
    assert_eq!(zone_root("localhost"), "localhost");
    assert_eq!(zone_root("example.com."), "com.");
    assert_eq!(zone_root(""), "");
}

#[test]
fn record_names() {
    assert_eq!(challenge_record_name("example.com"), "_acme-challenge.example.com");
    assert_eq!(challenge_record_name("*.a.example.com"), "_acme-challenge.a.example.com");
    assert_eq!(challenge_record_name("**x"), "_acme-challenge.x");
    assert_eq!(challenge_record_name("a.*.b"), "_acme-challenge.a.*.b");
}

#[test]
fn wildcards_share_their_record() {
    for d in ["example.com", "a.example.com", "x", ""] {
        let wildcard = format!("*.{}", d);
        assert_eq!(challenge_record_name(&wildcard), challenge_record_name(d));
        assert_eq!(zone_root(&wildcard), zone_root(d));
    }
}

#[test]
fn urls() {
    assert_eq!(zones_url(), "https://api.cloudflare.com/client/v4/zones");
    assert_eq!(records_url("z"), "https://api.cloudflare.com/client/v4/zones/z/dns_records");
    assert_eq!(
        record_url("z", "r"),
        "https://api.cloudflare.com/client/v4/zones/z/dns_records/r"
    );
    assert_eq!(RECORD_TTL, 60);
}

#[test]
fn looking_into_values() {
    let v = object(vec![("a", t("1")), ("a", t("2")), ("n", Json::Null), ("k", Json::Number)]);
    assert_eq!(text(member(Some(&v), "a")).as_deref(), Some("1"));
    assert!(matches!(member(Some(&v), "n"), Some(Json::Null)));
    assert!(member(Some(&v), "b").is_none());
    assert!(member(Some(&t("x")), "a").is_none());
    assert!(member(None, "a").is_none());
    assert!(first(Some(&v)).is_none());
    assert!(first(Some(&Json::Array(vec![]))).is_none());
    assert_eq!(text(first(Some(&Json::Array(vec![t("p"), t("q")])))).as_deref(), Some("p"));
    assert_eq!(text(member(Some(&v), "k")), None);
}

#[test]
fn zone_ids() {
    assert_eq!(zone_id(&zone_answer("z1")).as_deref(), Some("z1"));
    assert_eq!(zone_id(&object(vec![("result", Json::Array(vec![]))])), None);
    assert_eq!(zone_id(&object(vec![("result", Json::Null)])), None);
    assert_eq!(zone_id(&object(vec![])), None);
    let number = object(vec![("id", Json::Number)]);
    assert_eq!(zone_id(&object(vec![("result", Json::Array(vec![number]))])), None);
}

#[test]
fn ids_of_records() {
    assert_eq!(record_ids(&listing(vec!["a", "b"])), vec!["a", "b"]);
    let odd = object(vec![(
        "result",
        Json::Array(vec![t("x"), object(vec![("id", t("c"))]), object(vec![("id", Json::Null)])]),
    )]);
    assert_eq!(record_ids(&odd), vec!["c"]);
    assert!(record_ids(&object(vec![("result", t("x"))])).is_empty());
    assert!(record_ids(&Json::Null).is_empty());
}

#[test]
fn success_is_true_and_nothing_else() {
    assert!(succeeded(&object(vec![("success", Json::Bool(true))])));
    assert!(!succeeded(&object(vec![("success", Json::Bool(false))])));
    assert!(!succeeded(&object(vec![("success", t("true"))])));
    assert!(!succeeded(&object(vec![])));
}

#[test]
fn setting_a_record() {
    let (mut change, action) =
        TxtChange::start("*.a.example.com".to_string(), TxtGoal::Hold("v".to_string()));
    assert!(matches!(action, TxtAction::FindZone(name) if name == "example.com"));
    match change.step(TxtEvent::Answered(zone_answer("z"))) {
        TxtAction::ListRecords { url, name } => {
            assert_eq!(url, records_url("z"));
            assert_eq!(name, "_acme-challenge.a.example.com");
        }
        other => panic!("{:?}", other),
    }
    // The records that are there go first, in their order.
    let action = change.step(TxtEvent::Answered(listing(vec!["r1", "r2"])));
    assert!(matches!(action, TxtAction::DeleteRecord(url) if url == record_url("z", "r1")));
    let action = change.step(TxtEvent::Deleted);
    assert!(matches!(action, TxtAction::DeleteRecord(url) if url == record_url("z", "r2")));
    match change.step(TxtEvent::Deleted) {
        TxtAction::CreateRecord { url, name, content, ttl } => {
            assert_eq!(url, records_url("z"));
            assert_eq!(name, "_acme-challenge.a.example.com");
            assert_eq!(content, "v");
            assert_eq!(ttl, 60);
        }
        other => panic!("{:?}", other),
    }
    let action = change.step(TxtEvent::Answered(object(vec![("success", Json::Bool(true))])));
    assert!(matches!(action, TxtAction::Finish));
    assert!(matches!(change.stage, TxtStage::Done));
}

#[test]
fn clearing_a_record() {
    let (mut change, _) = TxtChange::start("example.com".to_string(), TxtGoal::Clear);
    change.step(TxtEvent::Answered(zone_answer("z")));
    let action = change.step(TxtEvent::Answered(listing(vec!["r"])));
    assert!(matches!(action, TxtAction::DeleteRecord(_)));
    assert!(matches!(change.step(TxtEvent::Deleted), TxtAction::Finish));
    let (mut change, _) = TxtChange::start("example.com".to_string(), TxtGoal::Clear);
    change.step(TxtEvent::Answered(zone_answer("z")));
    let action = change.step(TxtEvent::Answered(listing(vec![])));
    assert!(matches!(action, TxtAction::Finish));
}

#[test]
fn unknown_zones_end_the_change() {
    let (mut change, _) = TxtChange::start("example.com".to_string(), TxtGoal::Clear);
    let action = change.step(TxtEvent::Answered(object(vec![])));
    assert!(matches!(action, TxtAction::Fail(TxtError::ZoneNotFound)));
    assert!(matches!(change.stage, TxtStage::Done));
    assert_eq!(
        TxtError::ZoneNotFound.message("example.com", ""),
        "Cloudflare zone not found for domain: example.com"
    );
}

#[test]
fn refused_records_end_the_change() {
    let (mut change, _) =
        TxtChange::start("example.com".to_string(), TxtGoal::Hold("v".to_string()));
    change.step(TxtEvent::Answered(zone_answer("z")));
    let action = change.step(TxtEvent::Answered(listing(vec![])));
    assert!(matches!(action, TxtAction::CreateRecord { .. }));
    let action = change.step(TxtEvent::Answered(object(vec![("success", Json::Bool(false))])));
    assert!(matches!(action, TxtAction::Fail(TxtError::Refused)));
    assert_eq!(
        TxtError::Refused.message("example.com", "[1001]"),
        "Cloudflare API error: [1001]"
    );
}
