//! The settings.
use prtop::colors::{Color, ColorScheme};
use prtop::config::{
    resolve_colors, resolve_events, resolve_notify_events, resolve_poll_interval, CliOptions,
    ColorsFileConfig, Config, FileConfig, NotifyEvent, NotifyFileConfig,
};

#[test]
fn poll_interval_file_wins_when_cli_not_specified() {
    assert_eq!(resolve_poll_interval(None, Some(30)), 30);
}

#[test]
fn poll_interval_cli_wins_over_file() {
    assert_eq!(resolve_poll_interval(Some(120), Some(30)), 120);
}

#[test]
fn poll_interval_defaults_to_60() {
    assert_eq!(resolve_poll_interval(None, None), 60);
}

// --- NotifyEvent ---

#[test]
fn notify_event_all_contains_every_variant() {
    let all = NotifyEvent::all();
    assert_eq!(all.len(), 7);
    assert!(all.contains(&NotifyEvent::ReviewRequested));
    assert!(all.contains(&NotifyEvent::PrClosed));
    assert!(all.contains(&NotifyEvent::PrMerged));
    assert!(all.contains(&NotifyEvent::ReReviewRequested));
    assert!(all.contains(&NotifyEvent::NewComment));
    assert!(all.contains(&NotifyEvent::Mentioned));
    assert!(all.contains(&NotifyEvent::CiFinished));
}

// --- resolve_notify_events ---

#[test]
fn resolve_events_none_returns_all() {
    let events = resolve_notify_events(None);
    assert_eq!(events, NotifyEvent::all());
}

#[test]
fn resolve_events_some_returns_specified() {
    let events = resolve_notify_events(Some(vec![
        NotifyEvent::ReviewRequested,
        NotifyEvent::PrClosed,
    ]));
    assert_eq!(events.len(), 2);
    assert!(events.contains(&NotifyEvent::ReviewRequested));
    assert!(events.contains(&NotifyEvent::PrClosed));
}

#[test]
fn resolve_events_empty_returns_empty() {
    let events = resolve_notify_events(Some(vec![]));
    assert!(events.is_empty());
}


// --- Toggles ---

#[test]
fn toggles_default_to_all_but_ci_finished() {
    let mut expected = NotifyEvent::all();
    expected.remove(&NotifyEvent::CiFinished);
    assert_eq!(resolve_events(NotifyFileConfig::default()), expected);
}

#[test]
fn toggles_switch_single_events() {
    let file = NotifyFileConfig {
        mentioned: Some(false),
        ci_finished: Some(true),
        new_comment: Some(true),
        ..NotifyFileConfig::default()
    };
    let events = resolve_events(file);
    assert!(!events.contains(&NotifyEvent::Mentioned));
    assert!(events.contains(&NotifyEvent::CiFinished));
    assert!(events.contains(&NotifyEvent::NewComment));
    assert!(events.contains(&NotifyEvent::PrMerged));
    assert_eq!(events.len(), 6);
}

#[test]
fn listed_events_go_before_toggles() {
    let file = NotifyFileConfig {
        events: Some(vec![NotifyEvent::PrMerged]),
        pr_merged: Some(false),
        pr_closed: Some(true),
        ..NotifyFileConfig::default()
    };
    let events = resolve_events(file);
    assert_eq!(events.len(), 1);
    assert!(events.contains(&NotifyEvent::PrMerged));
}

// --- Colors ---

#[test]
fn unknown_colors_fall_back_to_the_default() {
    let file = ColorsFileConfig {
        app_title: Some("#00bfff".to_string()),
        role: Some("Light_Red".to_string()),
        repo: Some("no color".to_string()),
        ..ColorsFileConfig::default()
    };
    let colors = resolve_colors(&file);
    assert_eq!(colors.app_title, Color::Rgb(0, 0xbf, 0xff));
    assert_eq!(colors.role, Color::LightRed);
    assert_eq!(colors.repo, ColorScheme::default().repo);
    assert_eq!(colors.draft, ColorScheme::default().draft);
}

// --- Config::resolve ---

fn cli(token: Option<&str>, username: Option<&str>, secs: Option<u64>) -> CliOptions {
    CliOptions {
        github_token: token.map(String::from),
        username: username.map(String::from),
        poll_interval_secs: secs,
    }
}

#[test]
fn token_is_required() {
    let err = Config::resolve(cli(None, Some("me"), None), FileConfig::default()).unwrap_err();
    assert_eq!(
        err.to_string(),
        "Config error: GitHub token not found. Set via --github-token, PRTOP_GITHUB_TOKEN env, or config file."
    );
    let file = FileConfig {
        github_tokens: Some(vec![]),
        ..FileConfig::default()
    };
    assert!(Config::resolve(cli(None, Some("me"), None), file).is_err());
}

#[test]
fn username_is_required() {
    let err = Config::resolve(cli(Some("t"), None, None), FileConfig::default()).unwrap_err();
    assert_eq!(
        err.to_string(),
        "Config error: Username not found. Set via --username, PRTOP_GITHUB_USERNAME env, or config file."
    );
}

#[test]
fn command_line_goes_before_the_file() {
    let file = FileConfig {
        github_token: Some("single".to_string()),
        github_tokens: Some(vec!["a".to_string(), "b".to_string()]),
        username: Some("file-user".to_string()),
        poll_interval_secs: Some(30),
        ..FileConfig::default()
    };
    let config = Config::resolve(cli(Some("cli"), Some("cli-user"), Some(5)), file).unwrap();
    assert_eq!(config.github_tokens, vec!["cli".to_string()]);
    assert_eq!(config.username, "cli-user");
    assert_eq!(config.poll_interval_secs, 5);
    assert!(!config.notify_enabled);
}

#[test]
fn file_tokens_go_before_the_single_one() {
    let file = FileConfig {
        github_token: Some("single".to_string()),
        github_tokens: Some(vec!["a".to_string(), "b".to_string()]),
        username: Some("me".to_string()),
        notify: Some(NotifyFileConfig {
            enabled: Some(true),
            ..NotifyFileConfig::default()
        }),
        ..FileConfig::default()
    };
    let config = Config::resolve(cli(None, None, None), file).unwrap();
    assert_eq!(config.github_tokens, vec!["a".to_string(), "b".to_string()]);
    assert_eq!(config.poll_interval_secs, 60);
    assert!(config.notify_enabled);

    let file = FileConfig {
        github_token: Some("single".to_string()),
        github_tokens: Some(vec![]),
        username: Some("me".to_string()),
        ..FileConfig::default()
    };
    let config = Config::resolve(cli(None, None, None), file).unwrap();
    assert_eq!(config.github_tokens, vec!["single".to_string()]);
}
