use protontweaks::cmdline::FormatError;
use protontweaks::engine::CommandArgs;
use protontweaks::engine::plan_launch;
use protontweaks::engine::plan_passthrough;
use protontweaks::engine::prepare;
use protontweaks::envmap::Env;
use protontweaks::tweaks::Settings;
use protontweaks::tweaks::Toggle;
use protontweaks::tweaks::Trick;
use protontweaks::tweaks::TrickOutcome;
use protontweaks::tweaks::TweakRecord;
use protontweaks::tweaks::count_outcomes;
use protontweaks::tweaks::synthesize;

fn toks(ts: &[&str]) -> Vec<String> {
    ts.iter().map(|t| t.to_string()).collect()
}

#[test]
fn prepare_without_identifier_signals_passthrough() {
    let prepared = prepare(&toks(&["echo", "hello"])).unwrap();
    assert_eq!(prepared.command, "echo hello".to_string());
    assert_eq!(prepared.app_id, None);
    let argv = plan_passthrough(&prepared.command).unwrap();
    assert_eq!(argv, toks(&["echo", "hello"]));
}

#[test]
fn prepare_finds_the_identifier() {
    let tokens = toks(&["reaper", "SteamLaunch", "AppId=644930", "--", "game.exe"]);
    let prepared = prepare(&tokens).unwrap();
    assert_eq!(prepared.command, "reaper SteamLaunch AppId=644930 -- game.exe".to_string());
    assert_eq!(prepared.app_id, Some("644930".to_string()));
}

#[test]
fn prepare_of_nothing_fails() {
    let r = prepare(&Vec::new());
    assert!(matches!(r, Err(FormatError::EmptyCommand)));
    let args = CommandArgs { command_args: None };
    assert!(args.command_args.is_none());
}

#[test]
fn tweaked_launch_end_to_end() {
    let tokens = toks(&["reaper", "SteamLaunch", "AppId=644930", "--", "game.exe"]);
    let prepared = prepare(&tokens).unwrap();
    assert_eq!(prepared.app_id, Some("644930".to_string()));

    let mut record = TweakRecord {
        tricks: Vec::new(),
        settings: Settings { esync: Toggle::Enabled, fsync: Toggle::Unset },
        env: Env::new(),
    };
    record.tricks.push(Trick { id: "dotnet48".to_string() });
    assert!(record.has_tricks());

    // The one trick turned out to be satisfied already.
    let report = count_outcomes(&vec![TrickOutcome::Unnecessary]);
    assert_eq!(report.applied, 0);
    assert_eq!(report.attempted, 1);

    let launch = plan_launch(&record, &prepared.command).unwrap();
    assert_eq!(launch.argv, tokens);
    assert_eq!(
        launch.env.get("PROTON_NO_ESYNC").map(|v| v.to_string()),
        Some("1".to_string())
    );
}

#[test]
fn zero_tricks_still_synthesize_the_environment() {
    let record = TweakRecord {
        tricks: Vec::new(),
        settings: Settings { esync: Toggle::Unset, fsync: Toggle::Disabled },
        env: Env::new(),
    };
    assert!(!record.has_tricks());
    let env = synthesize(&record);
    assert_eq!(env.get("PROTON_NO_FSYNC").map(|v| v.to_string()), Some("0".to_string()));
    let launch = plan_launch(&record, "game.exe").unwrap();
    assert_eq!(launch.argv, toks(&["game.exe"]));
    assert_eq!(launch.env.get("PROTON_NO_FSYNC").map(|v| v.to_string()), Some("0".to_string()));
}

#[test]
fn plan_launch_rejects_bad_quoting() {
    let record = TweakRecord {
        tricks: Vec::new(),
        settings: Settings { esync: Toggle::Unset, fsync: Toggle::Unset },
        env: Env::new(),
    };
    let r = plan_launch(&record, "echo \"oops");
    assert!(matches!(r, Err(FormatError::UnterminatedQuote)));
    let r = plan_passthrough("   ");
    assert!(matches!(r, Err(FormatError::EmptyCommand)));
}
