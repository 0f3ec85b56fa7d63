use protontweaks::envmap::Env;
use protontweaks::envmap::convert_bool;
use protontweaks::tweaks::Settings;
use protontweaks::tweaks::Toggle;
use protontweaks::tweaks::Trick;
use protontweaks::tweaks::TrickOutcome;
use protontweaks::tweaks::TweakRecord;
use protontweaks::tweaks::count_outcomes;
use protontweaks::tweaks::synthesize;

fn record(esync: Toggle, fsync: Toggle, raw: &[(&str, &str)]) -> TweakRecord {
    let mut env = Env::new();
    for (name, value) in raw {
        env.insert(name.to_string(), value.to_string());
    }
    TweakRecord { tricks: Vec::new(), settings: Settings { esync, fsync }, env }
}

fn value(env: &Env, name: &str) -> Option<String> {
    env.get(name).map(|v| v.to_string())
}

#[test]
fn convert_bool_canonicalizes() {
    assert_eq!(convert_bool(true), "1".to_string());
    assert_eq!(convert_bool(false), "0".to_string());
}

#[test]
fn env_last_write_wins() {
    let mut env = Env::new();
    env.insert("K".to_string(), "old".to_string());
    env.insert("K".to_string(), "new".to_string());
    assert_eq!(value(&env, "K"), Some("new".to_string()));
    assert_eq!(value(&env, "other"), None);
}

#[test]
fn synthesize_enabled_sync_writes_one() {
    let env = synthesize(&record(Toggle::Enabled, Toggle::Unset, &[]));
    assert_eq!(value(&env, "PROTON_NO_ESYNC"), Some("1".to_string()));
    assert_eq!(value(&env, "PROTON_NO_FSYNC"), None);
}

#[test]
fn synthesize_disabled_sync_writes_zero() {
    let env = synthesize(&record(Toggle::Disabled, Toggle::Unset, &[]));
    assert_eq!(value(&env, "PROTON_NO_ESYNC"), Some("0".to_string()));
}

#[test]
fn synthesize_unset_sync_inserts_no_key() {
    let env = synthesize(&record(Toggle::Unset, Toggle::Unset, &[]));
    assert_eq!(value(&env, "PROTON_NO_ESYNC"), None);
    assert_eq!(value(&env, "PROTON_NO_FSYNC"), None);
}

#[test]
fn synthesize_frame_sync_both_ways() {
    let enabled = synthesize(&record(Toggle::Unset, Toggle::Enabled, &[]));
    assert_eq!(value(&enabled, "PROTON_NO_FSYNC"), Some("1".to_string()));
    let disabled = synthesize(&record(Toggle::Unset, Toggle::Disabled, &[]));
    assert_eq!(value(&disabled, "PROTON_NO_FSYNC"), Some("0".to_string()));
}

#[test]
fn synthesize_setting_overrides_raw_entry() {
    let env = synthesize(&record(Toggle::Enabled, Toggle::Unset, &[("PROTON_NO_ESYNC", "0")]));
    assert_eq!(value(&env, "PROTON_NO_ESYNC"), Some("1".to_string()));
}

#[test]
fn synthesize_keeps_raw_entries() {
    let env = synthesize(&record(Toggle::Unset, Toggle::Enabled, &[("DXVK_HUD", "fps")]));
    assert_eq!(value(&env, "DXVK_HUD"), Some("fps".to_string()));
    assert_eq!(env.len(), 2);
}

#[test]
fn count_outcomes_separates_necessary_from_attempted() {
    let outcomes = vec![TrickOutcome::Unnecessary];
    let report = count_outcomes(&outcomes);
    assert_eq!(report.applied, 0);
    assert_eq!(report.attempted, 1);

    let outcomes = vec![TrickOutcome::Applied, TrickOutcome::Failed, TrickOutcome::Applied];
    let report = count_outcomes(&outcomes);
    assert_eq!(report.applied, 2);
    assert_eq!(report.attempted, 3);

    let report = count_outcomes(&Vec::new());
    assert_eq!(report.applied, 0);
    assert_eq!(report.attempted, 0);
}

#[test]
fn has_tricks_looks_at_the_list() {
    let mut with = record(Toggle::Unset, Toggle::Unset, &[]);
    with.tricks.push(Trick { id: "dotnet48".to_string() });
    assert!(with.has_tricks());
    let without = record(Toggle::Unset, Toggle::Unset, &[]);
    assert!(!without.has_tricks());
}
