use std::cell::RefCell;
use std::rc::Rc;

use akasha::providers::{Model, ProviderError};
use akasha::routing::{TierProvider, VirtualProvider};

/// A backend that records the models that it was asked to stream.
struct Recording {
    seen: Rc<RefCell<Vec<Model>>>,
}

fn log() -> Rc<RefCell<Vec<Model>>> {
    Rc::new(RefCell::new(Vec::new()))
}

fn backend(seen: &Rc<RefCell<Vec<Model>>>) -> Recording {
    Recording { seen: seen.clone() }
}

fn ids(seen: &Rc<RefCell<Vec<Model>>>) -> Vec<String> {
    seen.borrow().iter().map(|m| m.id.clone()).collect()
}

fn target_model(provider: &str, id: &str) -> Model {
    Model {
        id: id.to_string(),
        provider: provider.to_string(),
        context_window: 0,
        base_url: String::new(),
        headers: Vec::new(),
    }
}

fn tier_request(index: &str) -> Model {
    target_model("", index)
}

fn named(name: &str, seen: &Rc<RefCell<Vec<Model>>>) -> (String, Recording) {
    (name.to_string(), backend(seen))
}

fn tier(tiers: Vec<Model>, backends: Vec<(String, Recording)>) -> TierProvider<Recording> {
    TierProvider::new("tier", tiers, backends)
}

fn stream_tier(tp: &TierProvider<Recording>, model: &Model) -> Result<(), ProviderError> {
    let (target, backend) = tp.route(model)?;
    backend.seen.borrow_mut().push(target.clone());
    Ok(())
}

fn stream_virtual(vp: &VirtualProvider<Recording>, model: &Model) -> Result<(), ProviderError> {
    vp.select(model)?.seen.borrow_mut().push(model.clone());
    Ok(())
}

#[test]
fn routes_by_index_with_first_tier_best() {
    let seen = log();
    let tp = tier(
        vec![target_model("back", "real-high"), target_model("back", "real-mid")],
        vec![named("back", &seen)],
    );
    stream_tier(&tp, &tier_request("0")).unwrap();
    stream_tier(&tp, &tier_request("1")).unwrap();
    assert_eq!(ids(&seen), vec!["real-high".to_string(), "real-mid".to_string()]);
}

#[test]
fn non_empty_provider_bypasses_tier_selection() {
    let seen = log();
    let tp = tier(vec![target_model("back", "tier-model")], vec![named("back", &seen)]);
    stream_tier(&tp, &target_model("back", "direct-model")).unwrap();
    assert_eq!(ids(&seen), vec!["direct-model".to_string()]);
}

#[test]
fn bypass_with_unknown_provider_does_not_fall_back_to_tiers() {
    let tp = tier(vec![target_model("back", "tier-model")], vec![]);
    let result = stream_tier(&tp, &target_model("ghost", "direct-model"));
    assert!(matches!(result, Err(ProviderError::RequestFailed(_))));
}

#[test]
fn out_of_range_index_clamps_to_last_tier() {
    let seen = log();
    let tp = tier(
        vec![target_model("back", "real-high"), target_model("back", "real-mid")],
        vec![named("back", &seen)],
    );
    stream_tier(&tp, &tier_request("5")).unwrap();
    assert_eq!(ids(&seen), vec!["real-mid".to_string()]);
}

#[test]
fn non_numeric_index_is_model_not_found() {
    let seen = log();
    let tp = tier(vec![target_model("back", "real-high")], vec![named("back", &seen)]);
    let result = stream_tier(&tp, &tier_request("nope"));
    assert!(matches!(result, Err(ProviderError::ModelNotFound(ref s)) if s == "nope"));
}

#[test]
fn missing_target_provider_is_request_failed() {
    let tp = tier(vec![target_model("no-such-provider", "real-high")], vec![]);
    let result = stream_tier(&tp, &tier_request("0"));
    assert!(matches!(result, Err(ProviderError::RequestFailed(_))));
}

#[test]
fn empty_tiers_is_request_failed() {
    let result = stream_tier(&tier(vec![], vec![]), &tier_request("0"));
    assert!(matches!(result, Err(ProviderError::RequestFailed(_))));
}

#[test]
fn tier_name_returns_configured() {
    assert_eq!(tier(vec![], vec![]).name(), "tier");
}

#[test]
fn tier_two_distinct_backends_no_crosstalk() {
    let (seen_a, seen_b) = (log(), log());
    let tp = tier(
        vec![target_model("a", "real-high"), target_model("b", "real-mid")],
        vec![named("a", &seen_a), named("b", &seen_b)],
    );
    stream_tier(&tp, &tier_request("0")).unwrap();
    stream_tier(&tp, &tier_request("1")).unwrap();
    assert_eq!(ids(&seen_a), ["real-high"]);
    assert_eq!(ids(&seen_b), ["real-mid"]);
}

fn request(provider: &str, id: &str) -> Model {
    Model {
        id: id.to_string(),
        provider: provider.to_string(),
        context_window: 123,
        base_url: "https://example.test".to_string(),
        headers: vec![("x-custom".to_string(), "v".to_string())],
    }
}

#[test]
fn routes_by_provider_and_passes_model_through_unchanged() {
    let seen = log();
    let vp = VirtualProvider::new("virtual").provider("a", backend(&seen));
    stream_virtual(&vp, &request("a", "model-a")).unwrap();

    let observed = seen.borrow();
    assert_eq!(observed.len(), 1);
    let m = &observed[0];
    assert_eq!(m.id, "model-a");
    assert_eq!(m.provider, "a");
    assert_eq!(m.context_window, 123);
    assert_eq!(m.base_url, "https://example.test");
    assert_eq!(m.headers, [("x-custom".to_string(), "v".to_string())]);
}

#[test]
fn unknown_provider_is_request_failed() {
    let vp = VirtualProvider::new("virtual").provider("a", backend(&log()));
    let result = stream_virtual(&vp, &request("nope", "model-a"));
    assert!(matches!(result, Err(ProviderError::RequestFailed(_))));
}

#[test]
fn virtual_name_returns_configured() {
    let vp: VirtualProvider<Recording> = VirtualProvider::new("virtual");
    assert_eq!(vp.name(), "virtual");
}

#[test]
fn virtual_two_distinct_backends_no_crosstalk() {
    let (seen_a, seen_b) = (log(), log());
    let vp = VirtualProvider::new("virtual")
        .provider("a", backend(&seen_a))
        .provider("b", backend(&seen_b));
    stream_virtual(&vp, &request("a", "model-a")).unwrap();
    stream_virtual(&vp, &request("b", "model-b")).unwrap();
    assert_eq!(ids(&seen_a), ["model-a"]);
    assert_eq!(ids(&seen_b), ["model-b"]);
}

#[test]
fn indices_are_read_as_numbers() {
    let tp = tier(vec![target_model("b", "one"), target_model("b", "two")], vec![]);
    for (index, id) in [("+1", "two"), ("007", "two"), ("00", "one"), ("18446744073709551615", "two")] {
        assert_eq!(tp.target(&tier_request(index)).unwrap().id, id, "{index}");
    }
    for index in ["", "+", "-1", "1.0", " 1", "18446744073709551616"] {
        assert!(tp.target(&tier_request(index)).is_err(), "{index}");
    }
}
