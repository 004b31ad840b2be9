//! The settings, and how they are made of the command line and the configuration file.
use crate::colors::{color_in, default_colors, lowercase, parse_color, Color, ColorScheme};
use crate::error::{AppError, ErrorView};
use vstd::prelude::*;
use vstd::string::*;

verus! {

/// An event that can be notified of.
#[derive(Debug, Clone, Copy, PartialEq, Eq, Hash, Structural)]
pub enum NotifyEvent {
    ReviewRequested,
    Mentioned,
    PrClosed,
    PrMerged,
    ReReviewRequested,
    NewComment,
    CiFinished,
}

/// A set of events.
#[derive(Debug, Clone, Copy, PartialEq, Eq, Structural)]
pub struct EventSet {
    review_requested: bool,
    mentioned: bool,
    pr_closed: bool,
    pr_merged: bool,
    re_review_requested: bool,
    new_comment: bool,
    ci_finished: bool,
}

impl View for EventSet {
    type V = Set<NotifyEvent>;

    closed spec fn view(&self) -> Set<NotifyEvent> {
        Set::new(|event: NotifyEvent| self.has(event))
    }
}

impl EventSet {
    closed spec fn has(&self, event: NotifyEvent) -> bool {
        match event {
            NotifyEvent::ReviewRequested => self.review_requested,
            NotifyEvent::Mentioned => self.mentioned,
            NotifyEvent::PrClosed => self.pr_closed,
            NotifyEvent::PrMerged => self.pr_merged,
            NotifyEvent::ReReviewRequested => self.re_review_requested,
            NotifyEvent::NewComment => self.new_comment,
            NotifyEvent::CiFinished => self.ci_finished,
        }
    }

    /// Sets are equal exactly where they hold the same events.
    pub proof fn equal_by_members(self, other: EventSet)
        ensures
            self == other <==> self@ == other@,
    {
        if self@ == other@ {
            assert forall|event: NotifyEvent| self.has(event) == other.has(event) by {
                assert(self@.contains(event) == other@.contains(event));
            }
            assert(self.has(NotifyEvent::ReviewRequested) == other.has(
                NotifyEvent::ReviewRequested,
            ));
            assert(self.has(NotifyEvent::Mentioned) == other.has(NotifyEvent::Mentioned));
            assert(self.has(NotifyEvent::PrClosed) == other.has(NotifyEvent::PrClosed));
            assert(self.has(NotifyEvent::PrMerged) == other.has(NotifyEvent::PrMerged));
            assert(self.has(NotifyEvent::ReReviewRequested) == other.has(
                NotifyEvent::ReReviewRequested,
            ));
            assert(self.has(NotifyEvent::NewComment) == other.has(NotifyEvent::NewComment));
            assert(self.has(NotifyEvent::CiFinished) == other.has(NotifyEvent::CiFinished));
        }
    }

    /// The empty set.
    pub fn new() -> (r: EventSet)
        ensures
            r@ == Set::<NotifyEvent>::empty(),
    {
        let r = EventSet {
            review_requested: false,
            mentioned: false,
            pr_closed: false,
            pr_merged: false,
            re_review_requested: false,
            new_comment: false,
            ci_finished: false,
        };
        assert(r@ =~= Set::empty());
        r
    }

    pub fn contains(&self, event: &NotifyEvent) -> (r: bool)
        ensures
            r == self@.contains(*event),
    {
        match event {
            NotifyEvent::ReviewRequested => self.review_requested,
            NotifyEvent::Mentioned => self.mentioned,
            NotifyEvent::PrClosed => self.pr_closed,
            NotifyEvent::PrMerged => self.pr_merged,
            NotifyEvent::ReReviewRequested => self.re_review_requested,
            NotifyEvent::NewComment => self.new_comment,
            NotifyEvent::CiFinished => self.ci_finished,
        }
    }

    fn set(&mut self, event: NotifyEvent, value: bool)
        ensures
            final(self)@ == if value {
                old(self)@.insert(event)
            } else {
                old(self)@.remove(event)
            },
    {
        match event {
            NotifyEvent::ReviewRequested => self.review_requested = value,
            NotifyEvent::Mentioned => self.mentioned = value,
            NotifyEvent::PrClosed => self.pr_closed = value,
            NotifyEvent::PrMerged => self.pr_merged = value,
            NotifyEvent::ReReviewRequested => self.re_review_requested = value,
            NotifyEvent::NewComment => self.new_comment = value,
            NotifyEvent::CiFinished => self.ci_finished = value,
        }
        assert(self@ =~= if value {
            old(self)@.insert(event)
        } else {
            old(self)@.remove(event)
        });
    }

    /// Adds `event`, and says whether it was missing.
    pub fn insert(&mut self, event: NotifyEvent) -> (r: bool)
        ensures
            final(self)@ == old(self)@.insert(event),
            r == !old(self)@.contains(event),
    {
        let missing = !self.contains(&event);
        self.set(event, true);
        missing
    }

    /// Takes `event` out, and says whether it was there.
    pub fn remove(&mut self, event: &NotifyEvent) -> (r: bool)
        ensures
            final(self)@ == old(self)@.remove(*event),
            r == old(self)@.contains(*event),
    {
        let there = self.contains(event);
        self.set(*event, false);
        there
    }

    /// How many events the set holds.
    pub fn len(&self) -> (r: usize)
        ensures
            self@.finite(),
            r == self@.len(),
    {
        let events = NotifyEvent::list();
        let mut count: usize = 0;
        let ghost mut seen = Set::<NotifyEvent>::empty();
        for i in 0..events.len()
            invariant
                events@ == every_event(),
                i <= events.len(),
                count <= i,
                seen.finite(),
                count == seen.len(),
                forall|event: NotifyEvent|
                    seen.contains(event) <==> self@.contains(event) && exists|j: int|
                        0 <= j < i && #[trigger] every_event()[j] == event,
        {
            if self.contains(&events[i]) {
                assert forall|j: int| 0 <= j < i implies every_event()[j]
                    != every_event()[i as int] by {}
                assert(!seen.contains(events[i as int]));
                count = count + 1;
                proof {
                    seen = seen.insert(events[i as int]);
                }
            }
            assert(every_event()[i as int] == events[i as int]);
        }
        proof {
            assert forall|event: NotifyEvent| seen.contains(event) <==> self@.contains(event) by {
                lemma_every_event(event);
            }
            assert(seen =~= self@);
        }
        count
    }

    pub fn is_empty(&self) -> (r: bool)
        ensures
            r == (self@ == Set::<NotifyEvent>::empty()),
    {
        let empty = EventSet::new();
        proof {
            self.equal_by_members(empty);
        }
        *self == empty
    }
}

/// The events, each of them once.
pub open spec fn every_event() -> Seq<NotifyEvent> {
    seq![
        NotifyEvent::ReviewRequested,
        NotifyEvent::Mentioned,
        NotifyEvent::PrClosed,
        NotifyEvent::PrMerged,
        NotifyEvent::ReReviewRequested,
        NotifyEvent::NewComment,
        NotifyEvent::CiFinished,
    ]
}

proof fn lemma_every_event(event: NotifyEvent)
    ensures
        exists|j: int| 0 <= j < every_event().len() && #[trigger] every_event()[j] == event,
{
    let j: int = match event {
        NotifyEvent::ReviewRequested => 0,
        NotifyEvent::Mentioned => 1,
        NotifyEvent::PrClosed => 2,
        NotifyEvent::PrMerged => 3,
        NotifyEvent::ReReviewRequested => 4,
        NotifyEvent::NewComment => 5,
        NotifyEvent::CiFinished => 6,
    };
    assert(every_event()[j] == event);
}

impl NotifyEvent {
    fn list() -> (r: Vec<NotifyEvent>)
        ensures
            r@ == every_event(),
    {
        vec![
            NotifyEvent::ReviewRequested,
            NotifyEvent::Mentioned,
            NotifyEvent::PrClosed,
            NotifyEvent::PrMerged,
            NotifyEvent::ReReviewRequested,
            NotifyEvent::NewComment,
            NotifyEvent::CiFinished,
        ]
    }

    /// Every event.
    pub fn all() -> (r: EventSet)
        ensures
            r@ == Set::<NotifyEvent>::full(),
    {
        let r = EventSet {
            review_requested: true,
            mentioned: true,
            pr_closed: true,
            pr_merged: true,
            re_review_requested: true,
            new_comment: true,
            ci_finished: true,
        };
        assert(r@ =~= Set::full());
        r
    }
}

/// The seconds between two polls: the command line goes before the file, and the default is a
/// minute.
pub open spec fn poll_interval(cli: Option<u64>, file: Option<u64>) -> u64 {
    match cli {
        Some(secs) => secs,
        None => match file {
            Some(secs) => secs,
            None => 60,
        },
    }
}

pub fn resolve_poll_interval(cli: Option<u64>, file: Option<u64>) -> (r: u64)
    ensures
        r == poll_interval(cli, file),
{
    match cli {
        Some(secs) => secs,
        None => match file {
            Some(secs) => secs,
            None => 60,
        },
    }
}

/// The events that a list selects. Without a list it is every event.
pub fn resolve_notify_events(events: Option<Vec<NotifyEvent>>) -> (r: EventSet)
    ensures
        r@ == (match events {
            Some(list) => list@.to_set(),
            None => Set::<NotifyEvent>::full(),
        }),
{
    match events {
        None => NotifyEvent::all(),
        Some(list) => {
            let mut set = EventSet::new();
            assert(list@.take(0).to_set() =~= Set::empty());
            for i in 0..list.len()
                invariant
                    set@ == list@.take(i as int).to_set(),
            {
                set.insert(list[i]);
                proof {
                    assert(list@.take(i + 1) =~= list@.take(i as int).push(list@[i as int]));
                    list@.take(i as int).lemma_push_to_set_commute(list@[i as int]);
                }
            }
            assert(list@.take(list@.len() as int) =~= list@);
            set
        },
    }
}

/// The notification settings of the file.
#[derive(Debug)]
pub struct NotifyFileConfig {
    pub enabled: Option<bool>,
    /// The events to notify of. Where they are listed, the toggles do not count.
    pub events: Option<Vec<NotifyEvent>>,
    pub review_requested: Option<bool>,
    pub mentioned: Option<bool>,
    pub pr_closed: Option<bool>,
    pub pr_merged: Option<bool>,
    pub re_review_requested: Option<bool>,
    pub new_comment: Option<bool>,
    pub ci_finished: Option<bool>,
}

impl Default for NotifyFileConfig {
    fn default() -> (r: NotifyFileConfig)
        ensures
            r == no_notify_settings(),
    {
        NotifyFileConfig {
            enabled: None,
            events: None,
            review_requested: None,
            mentioned: None,
            pr_closed: None,
            pr_merged: None,
            re_review_requested: None,
            new_comment: None,
            ci_finished: None,
        }
    }
}

pub open spec fn no_notify_settings() -> NotifyFileConfig {
    NotifyFileConfig {
        enabled: None,
        events: None,
        review_requested: None,
        mentioned: None,
        pr_closed: None,
        pr_merged: None,
        re_review_requested: None,
        new_comment: None,
        ci_finished: None,
    }
}

/// The toggle of an event.
pub open spec fn toggle_of(file: NotifyFileConfig, event: NotifyEvent) -> Option<bool> {
    match event {
        NotifyEvent::ReviewRequested => file.review_requested,
        NotifyEvent::Mentioned => file.mentioned,
        NotifyEvent::PrClosed => file.pr_closed,
        NotifyEvent::PrMerged => file.pr_merged,
        NotifyEvent::ReReviewRequested => file.re_review_requested,
        NotifyEvent::NewComment => file.new_comment,
        NotifyEvent::CiFinished => file.ci_finished,
    }
}

/// Whether the file switches an event on. Without a toggle every event is on but the end of checks.
pub open spec fn is_switched_on(file: NotifyFileConfig, event: NotifyEvent) -> bool {
    match toggle_of(file, event) {
        Some(on) => on,
        None => !(event is CiFinished),
    }
}

/// The events that the file selects.
pub open spec fn selected_events(file: NotifyFileConfig) -> Set<NotifyEvent> {
    match file.events {
        Some(list) => list@.to_set(),
        None => Set::new(|event: NotifyEvent| is_switched_on(file, event)),
    }
}

fn on(toggle: Option<bool>, default: bool) -> (r: bool)
    ensures
        r == (match toggle {
            Some(value) => value,
            None => default,
        }),
{
    match toggle {
        Some(value) => value,
        None => default,
    }
}

/// The events that the file selects.
pub fn resolve_events(file: NotifyFileConfig) -> (r: EventSet)
    ensures
        r@ == selected_events(file),
{
    if file.events.is_some() {
        return resolve_notify_events(file.events);
    }
    let r = EventSet {
        review_requested: on(file.review_requested, true),
        mentioned: on(file.mentioned, true),
        pr_closed: on(file.pr_closed, true),
        pr_merged: on(file.pr_merged, true),
        re_review_requested: on(file.re_review_requested, true),
        new_comment: on(file.new_comment, true),
        ci_finished: on(file.ci_finished, false),
    };
    assert(r@ =~= selected_events(file));
    r
}

/// The colors of the file.
#[derive(Debug)]
pub struct ColorsFileConfig {
    pub app_title: Option<String>,
    pub col_header: Option<String>,
    pub role: Option<String>,
    pub number: Option<String>,
    pub repo: Option<String>,
    pub new_pr: Option<String>,
    pub new_comment: Option<String>,
    pub draft: Option<String>,
    pub footer_count: Option<String>,
}

impl Default for ColorsFileConfig {
    fn default() -> (r: ColorsFileConfig)
        ensures
            r == no_colors(),
    {
        ColorsFileConfig {
            app_title: None,
            col_header: None,
            role: None,
            number: None,
            repo: None,
            new_pr: None,
            new_comment: None,
            draft: None,
            footer_count: None,
        }
    }
}

pub open spec fn no_colors() -> ColorsFileConfig {
    ColorsFileConfig {
        app_title: None,
        col_header: None,
        role: None,
        number: None,
        repo: None,
        new_pr: None,
        new_comment: None,
        draft: None,
        footer_count: None,
    }
}

/// The color of the given text, or the default where there is none or it is not a color.
pub open spec fn color_or(text: Option<String>, default: Color) -> Color {
    match text {
        Some(text) => match color_in(lowercase(text@)) {
            Some(color) => color,
            None => default,
        },
        None => default,
    }
}

fn resolve_color(text: &Option<String>, default: Color) -> (r: Color)
    ensures
        r == color_or(*text, default),
{
    match text {
        Some(text) => match parse_color(text.as_str()) {
            Some(color) => color,
            None => default,
        },
        None => default,
    }
}

/// The colors that the file selects.
pub open spec fn selected_colors(file: ColorsFileConfig) -> ColorScheme {
    let d = default_colors();
    ColorScheme {
        app_title: color_or(file.app_title, d.app_title),
        col_header: color_or(file.col_header, d.col_header),
        role: color_or(file.role, d.role),
        number: color_or(file.number, d.number),
        repo: color_or(file.repo, d.repo),
        new_pr: color_or(file.new_pr, d.new_pr),
        new_comment: color_or(file.new_comment, d.new_comment),
        draft: color_or(file.draft, d.draft),
        footer_count: color_or(file.footer_count, d.footer_count),
    }
}

/// The colors that the file selects. One that it does not name, or names wrongly, is the default.
pub fn resolve_colors(file: &ColorsFileConfig) -> (r: ColorScheme)
    ensures
        r == selected_colors(*file),
{
    let d = ColorScheme::default();
    ColorScheme {
        app_title: resolve_color(&file.app_title, d.app_title),
        col_header: resolve_color(&file.col_header, d.col_header),
        role: resolve_color(&file.role, d.role),
        number: resolve_color(&file.number, d.number),
        repo: resolve_color(&file.repo, d.repo),
        new_pr: resolve_color(&file.new_pr, d.new_pr),
        new_comment: resolve_color(&file.new_comment, d.new_comment),
        draft: resolve_color(&file.draft, d.draft),
        footer_count: resolve_color(&file.footer_count, d.footer_count),
    }
}

/// The settings of the command line and the environment.
#[derive(Debug)]
pub struct CliOptions {
    pub github_token: Option<String>,
    pub username: Option<String>,
    pub poll_interval_secs: Option<u64>,
}

/// The settings of the file.
#[derive(Debug)]
pub struct FileConfig {
    pub github_token: Option<String>,
    pub github_tokens: Option<Vec<String>>,
    pub username: Option<String>,
    pub poll_interval_secs: Option<u64>,
    pub notify: Option<NotifyFileConfig>,
    pub colors: Option<ColorsFileConfig>,
}

impl Default for FileConfig {
    fn default() -> (r: FileConfig)
        ensures
            r.github_token is None,
            r.github_tokens is None,
            r.username is None,
            r.poll_interval_secs is None,
            r.notify is None,
            r.colors is None,
    {
        FileConfig {
            github_token: None,
            github_tokens: None,
            username: None,
            poll_interval_secs: None,
            notify: None,
            colors: None,
        }
    }
}

/// The settings.
#[derive(Debug)]
pub struct Config {
    pub github_tokens: Vec<String>,
    pub username: String,
    pub poll_interval_secs: u64,
    pub notify_enabled: bool,
    pub notify_events: EventSet,
    pub color_scheme: ColorScheme,
}

/// The tokens to use: the one of the command line, else those of the file's list, else the single
/// one of the file.
pub open spec fn selected_tokens(cli: CliOptions, file: FileConfig) -> Seq<String> {
    match cli.github_token {
        Some(token) => seq![token],
        None => match file.github_tokens {
            Some(tokens) if tokens@.len() > 0 => tokens@,
            _ => match file.github_token {
                Some(token) => seq![token],
                None => Seq::empty(),
            },
        },
    }
}

/// The user: the command line goes before the file.
pub open spec fn selected_username(cli: CliOptions, file: FileConfig) -> Option<String> {
    match cli.username {
        Some(username) => Some(username),
        None => file.username,
    }
}

/// What is missing in the settings.
pub open spec fn missing_setting(cli: CliOptions, file: FileConfig) -> Option<Seq<char>> {
    if selected_tokens(cli, file).len() == 0 {
        Some(
            "GitHub token not found. Set via --github-token, PRTOP_GITHUB_TOKEN env, or config file."@,
        )
    } else if selected_username(cli, file) is None {
        Some(
            "Username not found. Set via --username, PRTOP_GITHUB_USERNAME env, or config file."@,
        )
    } else {
        None
    }
}

pub open spec fn notify_settings(file: FileConfig) -> NotifyFileConfig {
    match file.notify {
        Some(notify) => notify,
        None => no_notify_settings(),
    }
}

pub open spec fn color_settings(file: FileConfig) -> ColorsFileConfig {
    match file.colors {
        Some(colors) => colors,
        None => no_colors(),
    }
}

fn resolve_tokens(
    cli: Option<String>,
    list: Option<Vec<String>>,
    single: Option<String>,
) -> (r: Vec<String>)
    ensures
        r@ == (match cli {
            Some(token) => seq![token],
            None => match list {
                Some(tokens) if tokens@.len() > 0 => tokens@,
                _ => match single {
                    Some(token) => seq![token],
                    None => Seq::empty(),
                },
            },
        }),
{
    if let Some(token) = cli {
        let tokens = vec![token];
        assert(tokens@ =~= seq![token]);
        return tokens;
    }
    if let Some(tokens) = list {
        if tokens.len() > 0 {
            return tokens;
        }
    }
    match single {
        Some(token) => {
            let tokens = vec![token];
            assert(tokens@ =~= seq![token]);
            tokens
        },
        None => Vec::new(),
    }
}

impl Config {
    /// The settings that the command line and the file make up.
    pub fn resolve(cli: CliOptions, file: FileConfig) -> (r: Result<Config, AppError>)
        ensures
            match r {
                Ok(config) => {
                    &&& missing_setting(cli, file) is None
                    &&& config.github_tokens@ == selected_tokens(cli, file)
                    &&& Some(config.username) == selected_username(cli, file)
                    &&& config.poll_interval_secs == poll_interval(
                        cli.poll_interval_secs,
                        file.poll_interval_secs,
                    )
                    &&& config.notify_enabled == (notify_settings(file).enabled == Some(true))
                    &&& config.notify_events@ == selected_events(notify_settings(file))
                    &&& config.color_scheme == selected_colors(color_settings(file))
                },
                Err(e) => missing_setting(cli, file) is Some && e@ == ErrorView::Config(
                    missing_setting(cli, file)->0,
                ),
            },
    {
        let CliOptions { github_token: cli_token, username: cli_name, poll_interval_secs: cli_secs }
            = cli;
        let FileConfig {
            github_token: file_token,
            github_tokens: file_tokens,
            username: file_name,
            poll_interval_secs: file_secs,
            notify,
            colors,
        } = file;
        let github_tokens = resolve_tokens(cli_token, file_tokens, file_token);
        if github_tokens.len() == 0 {
            return Err(
                AppError::Config(
                    "GitHub token not found. Set via --github-token, PRTOP_GITHUB_TOKEN env, or config file.".to_owned(),
                ),
            );
        }
        let username = match cli_name {
            Some(name) => name,
            None => match file_name {
                Some(name) => name,
                None => {
                    return Err(
                        AppError::Config(
                            "Username not found. Set via --username, PRTOP_GITHUB_USERNAME env, or config file.".to_owned(),
                        ),
                    );
                },
            },
        };
        let notify = match notify {
            Some(notify) => notify,
            None => NotifyFileConfig::default(),
        };
        let colors = match colors {
            Some(colors) => colors,
            None => ColorsFileConfig::default(),
        };
        let notify_enabled = on(notify.enabled, false);
        Ok(
            Config {
                github_tokens,
                username,
                poll_interval_secs: resolve_poll_interval(cli_secs, file_secs),
                notify_enabled,
                notify_events: resolve_events(notify),
                color_scheme: resolve_colors(&colors),
            },
        )
    }
}

// ---------------------------------------------------------------------------
// Which setting counts

/// The interval of the command line counts before that of the file, and this before a minute.
pub proof fn intervals_have_their_precedence(cli: Option<u64>, file: Option<u64>)
    ensures
        cli is Some ==> poll_interval(cli, file) == cli->0,
        cli is None && file is Some ==> poll_interval(cli, file) == file->0,
        cli is None && file is None ==> poll_interval(cli, file) == 60,
{
}

/// A token of the command line is used alone. Without one the list of the file is used, in its
/// order, and where that is missing or empty the single token of the file.
pub proof fn tokens_have_their_precedence(cli: CliOptions, file: FileConfig)
    ensures
        cli.github_token is Some ==> selected_tokens(cli, file) =~= seq![cli.github_token->0],
        cli.github_token is None && file.github_tokens is Some && file.github_tokens->0@.len() > 0
            ==> selected_tokens(cli, file) == file.github_tokens->0@,
        cli.github_token is None && (file.github_tokens is None || file.github_tokens->0@.len()
            == 0) && file.github_token is Some ==> selected_tokens(cli, file) =~= seq![
            file.github_token->0,
        ],
        cli.github_token is None && (file.github_tokens is None || file.github_tokens->0@.len()
            == 0) && file.github_token is None ==> selected_tokens(cli, file).len() == 0,
        cli.username is Some ==> selected_username(cli, file) == cli.username,
        cli.username is None ==> selected_username(cli, file) == file.username,
{
}

/// Without any token, or without a user, settings are missing; the token is asked for first. With
/// both, nothing is.
pub proof fn token_and_user_are_needed(cli: CliOptions, file: FileConfig)
    ensures
        ({
            let no_token = cli.github_token is None && file.github_token is None && (
            file.github_tokens is None || file.github_tokens->0@.len() == 0);
            let no_user = cli.username is None && file.username is None;
            &&& missing_setting(cli, file) is Some <==> no_token || no_user
            &&& no_token ==> missing_setting(cli, file) == Some(
                "GitHub token not found. Set via --github-token, PRTOP_GITHUB_TOKEN env, or config file."@,
            )
            &&& !no_token && no_user ==> missing_setting(cli, file) == Some(
                "Username not found. Set via --username, PRTOP_GITHUB_USERNAME env, or config file."@,
            )
        }),
{
}

/// A list of events counts alone. Without one each event goes by its own toggle, and where that is
/// missing it is on, but for the end of checks.
pub proof fn events_have_their_toggles(file: NotifyFileConfig, event: NotifyEvent)
    ensures
        file.events is Some ==> (selected_events(file).contains(event)
            <==> file.events->0@.contains(event)),
        file.events is None ==> (selected_events(file).contains(NotifyEvent::ReviewRequested)
            <==> file.review_requested != Some(false)),
        file.events is None ==> (selected_events(file).contains(NotifyEvent::Mentioned)
            <==> file.mentioned != Some(false)),
        file.events is None ==> (selected_events(file).contains(NotifyEvent::PrClosed)
            <==> file.pr_closed != Some(false)),
        file.events is None ==> (selected_events(file).contains(NotifyEvent::PrMerged)
            <==> file.pr_merged != Some(false)),
        file.events is None ==> (selected_events(file).contains(NotifyEvent::ReReviewRequested)
            <==> file.re_review_requested != Some(false)),
        file.events is None ==> (selected_events(file).contains(NotifyEvent::NewComment)
            <==> file.new_comment != Some(false)),
        file.events is None ==> (selected_events(file).contains(NotifyEvent::CiFinished)
            <==> file.ci_finished == Some(true)),
{
}

/// Without a part of the file its settings are those of an empty part: notifications are off, the
/// events are all but the end of checks, and the colors are the default ones.
pub proof fn missing_parts_are_empty(file: FileConfig)
    ensures
        file.notify is Some ==> notify_settings(file) == file.notify->0,
        file.colors is Some ==> color_settings(file) == file.colors->0,
        file.notify is None ==> notify_settings(file).enabled is None,
        file.notify is None ==> forall|event: NotifyEvent| #[trigger]
            selected_events(notify_settings(file)).contains(event) <==> event
                != NotifyEvent::CiFinished,
        file.colors is None ==> selected_colors(color_settings(file)) == default_colors(),
{
}

/// Each part of the screen has the color that its own setting denotes, and its own default where
/// there is none, or none that denotes a color.
pub proof fn colors_go_by_their_own_setting(file: ColorsFileConfig)
    ensures
        ({
            let set = selected_colors(file);
            let usual = default_colors();
            &&& file.app_title is None ==> set.app_title == usual.app_title
            &&& file.col_header is None ==> set.col_header == usual.col_header
            &&& file.role is None ==> set.role == usual.role
            &&& file.number is None ==> set.number == usual.number
            &&& file.repo is None ==> set.repo == usual.repo
            &&& file.new_pr is None ==> set.new_pr == usual.new_pr
            &&& file.new_comment is None ==> set.new_comment == usual.new_comment
            &&& file.draft is None ==> set.draft == usual.draft
            &&& file.footer_count is None ==> set.footer_count == usual.footer_count
            &&& file.app_title is Some ==> (match color_in(lowercase(file.app_title->0@)) {
                Some(color) => set.app_title == color,
                None => set.app_title == usual.app_title,
            })
            &&& file.col_header is Some ==> (match color_in(lowercase(file.col_header->0@)) {
                Some(color) => set.col_header == color,
                None => set.col_header == usual.col_header,
            })
            &&& file.role is Some ==> (match color_in(lowercase(file.role->0@)) {
                Some(color) => set.role == color,
                None => set.role == usual.role,
            })
            &&& file.number is Some ==> (match color_in(lowercase(file.number->0@)) {
                Some(color) => set.number == color,
                None => set.number == usual.number,
            })
            &&& file.repo is Some ==> (match color_in(lowercase(file.repo->0@)) {
                Some(color) => set.repo == color,
                None => set.repo == usual.repo,
            })
            &&& file.new_pr is Some ==> (match color_in(lowercase(file.new_pr->0@)) {
                Some(color) => set.new_pr == color,
                None => set.new_pr == usual.new_pr,
            })
            &&& file.new_comment is Some ==> (match color_in(lowercase(file.new_comment->0@)) {
                Some(color) => set.new_comment == color,
                None => set.new_comment == usual.new_comment,
            })
            &&& file.draft is Some ==> (match color_in(lowercase(file.draft->0@)) {
                Some(color) => set.draft == color,
                None => set.draft == usual.draft,
            })
            &&& file.footer_count is Some ==> (match color_in(lowercase(file.footer_count->0@)) {
                Some(color) => set.footer_count == color,
                None => set.footer_count == usual.footer_count,
            })
        }),
{
}

} // verus!
