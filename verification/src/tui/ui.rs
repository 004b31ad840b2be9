//! What the screen shows, as lines of colored texts.
use crate::app::{App, AppView, LoadingState, LoadingView};
use crate::colors::{Color, ColorScheme};
use crate::ids::{has_key, is_key_at, unique_keys};
use crate::pr_map::{find_pr, pr_at, pr_count, pr_entries};
use crate::rows::{row_views, RowView, VisibleRow};
use crate::text::{chars_of, decimal, push_decimal};
use crate::types::{CiStatus, PrId, PrIdView, PrRole, PrState, PullRequest};
use indexmap::IndexMap;
use vstd::prelude::*;
use vstd::string::*;
use vstd::utf8::encode_utf8;

verus! {

// ---------------------------------------------------------------------------
// Texts

/// The text, or its beginning and an ellipsis where it is longer than `max`.
pub open spec fn truncated(text: Seq<char>, max: int) -> Seq<char> {
    if max <= 0 {
        Seq::empty()
    } else if text.len() <= max {
        text
    } else {
        text.take(max - 1).push('…')
    }
}

/// The text, or its beginning and an ellipsis where it is longer than `max`.
pub fn truncate(s: &str, max: usize) -> (r: String)
    ensures
        r@ == truncated(s@, max as int),
{
    if max == 0 {
        let r = String::new();
        assert(r@ =~= Seq::empty());
        return r;
    }
    let chars = chars_of(s);
    if chars.len() <= max {
        s.to_owned()
    } else {
        let mut out = String::new();
        for i in 0..max - 1
            invariant
                max >= 1,
                max < chars@.len(),
                chars@ == s@,
                out@ == s@.take(i as int),
        {
            out.push(chars[i]);
            assert(s@.take(i + 1) =~= s@.take(i as int).push(s@[i as int]));
        }
        out.push('…');
        out
    }
}

/// The text with spaces behind it up to `width`.
pub open spec fn padded(text: Seq<char>, width: int) -> Seq<char> {
    if text.len() >= width {
        text
    } else {
        text + Seq::new((width - text.len()) as nat, |i: int| ' ')
    }
}

/// The text with spaces behind it up to `width`.
pub fn pad(s: &str, width: usize) -> (r: String)
    ensures
        r@ == padded(s@, width as int),
{
    let count = s.unicode_len();
    let mut out = s.to_owned();
    if count >= width {
        return out;
    }
    for i in count..width
        invariant
            count == s@.len(),
            count <= i <= width,
            out@ == s@ + Seq::new((i - count) as nat, |k: int| ' '),
    {
        out.push(' ');
        assert(out@ =~= s@ + Seq::new((i + 1 - count) as nat, |k: int| ' '));
    }
    out
}

/// A text with its style.
#[derive(Debug)]
pub struct TextSpan {
    pub text: String,
    pub color: Option<Color>,
    pub bold: bool,
}

/// What a [`TextSpan`] stands for.
#[verifier::ext_equal]
pub struct SpanView {
    pub text: Seq<char>,
    pub color: Option<Color>,
    pub bold: bool,
}

impl View for TextSpan {
    type V = SpanView;

    open spec fn view(&self) -> SpanView {
        SpanView { text: self.text@, color: self.color, bold: self.bold }
    }
}

pub open spec fn span_views(line: Seq<TextSpan>) -> Seq<SpanView> {
    line.map_values(|span: TextSpan| span@)
}

pub open spec fn plain_span(text: Seq<char>) -> SpanView {
    SpanView { text, color: None, bold: false }
}

pub open spec fn colored_span(text: Seq<char>, color: Color) -> SpanView {
    SpanView { text, color: Some(color), bold: false }
}

pub open spec fn bold_span(text: Seq<char>, color: Color) -> SpanView {
    SpanView { text, color: Some(color), bold: true }
}

fn plain(text: &str) -> (r: TextSpan)
    ensures
        r@ == plain_span(text@),
{
    TextSpan { text: text.to_owned(), color: None, bold: false }
}

fn colored(text: String, color: Color) -> (r: TextSpan)
    ensures
        r@ == colored_span(text@, color),
{
    TextSpan { text, color: Some(color), bold: false }
}

fn bold(text: String, color: Color) -> (r: TextSpan)
    ensures
        r@ == bold_span(text@, color),
{
    TextSpan { text, color: Some(color), bold: true }
}

// ---------------------------------------------------------------------------
// Widths and heights

/// The bytes that `owner/repo` takes.
pub open spec fn repo_len(id: PrIdView) -> int {
    (encode_utf8(id.owner).len() + 1 + encode_utf8(id.repo).len()) as int
}

/// The greatest number, or `default` where there is none.
pub open spec fn greatest(numbers: Seq<int>, default: int) -> int
    decreases numbers.len(),
{
    if numbers.len() == 0 {
        default
    } else if numbers.len() == 1 {
        numbers[0]
    } else {
        let rest = greatest(numbers.drop_last(), default);
        if rest >= numbers.last() {
            rest
        } else {
            numbers.last()
        }
    }
}

pub open spec fn repo_lens(prs: Seq<(PrId, PullRequest)>) -> Seq<int> {
    prs.map_values(|entry: (PrId, PullRequest)| repo_len(entry.0@))
}

pub open spec fn title_lens(prs: Seq<(PrId, PullRequest)>) -> Seq<int> {
    prs.map_values(|entry: (PrId, PullRequest)| entry.1.title@.len() as int)
}

/// The columns that are left for title and repository: all but two for the marker of the selection,
/// six for the role, six for the status, seven for the number and six between them.
pub open spec fn room(term_width: int) -> int {
    if term_width >= 27 {
        term_width - 27
    } else {
        0
    }
}

/// The widths of repository and title. Where both fit in full, they are as wide as their longest;
/// else the repository has at most a third of the room, but ten columns, and the title the rest.
pub open spec fn repo_and_title(term_width: int, max_repo: int, max_title: int) -> (int, int) {
    let room = room(term_width);
    if max_repo + max_title <= room {
        (max_repo, max_title)
    } else {
        let third = if max_repo <= room / 3 {
            max_repo
        } else {
            room / 3
        };
        let repo = if third >= 10 {
            third
        } else {
            10
        };
        (
            repo,
            if room >= repo {
                room - repo
            } else {
                0
            },
        )
    }
}

proof fn lemma_greatest_push(numbers: Seq<int>, number: int, default: int)
    ensures
        greatest(numbers.push(number), default) == if numbers.len() == 0 || greatest(
            numbers,
            default,
        ) < number {
            number
        } else {
            greatest(numbers, default)
        },
{
    assert(numbers.push(number).drop_last() =~= numbers);
}

fn capped_repo_len(id: &PrId) -> (r: usize)
    ensures
        r == if repo_len(id@) > usize::MAX {
            usize::MAX as int
        } else {
            repo_len(id@)
        },
{
    let owner: usize = id.owner.as_str().as_bytes().len();
    let repo: usize = id.repo.as_str().as_bytes().len();
    owner.saturating_add(1).saturating_add(repo)
}

/// The widths of the columns: role, status, number, repository and title.
pub fn col_widths(term_width: u16, prs: &IndexMap<PrId, PullRequest>) -> (r: (
    usize,
    usize,
    usize,
    usize,
    usize,
))
    ensures
        r.0 == 6,
        r.1 == 6,
        r.2 == 7,
        (r.3 as int, r.4 as int) == repo_and_title(
            term_width as int,
            greatest(repo_lens(pr_entries(*prs)), 15),
            greatest(title_lens(pr_entries(*prs)), 20),
        ),
{
    let effective: usize = (term_width as usize).saturating_sub(2);
    let remaining: usize = effective.saturating_sub(25);
    assert(remaining == room(term_width as int));
    let ghost entries = pr_entries(*prs);
    let mut max_repo: usize = 15;
    let mut max_title: usize = 20;
    let count = pr_count(prs);
    assert(repo_lens(entries.take(0)) =~= Seq::empty());
    assert(title_lens(entries.take(0)) =~= Seq::empty());
    for i in 0..count
        invariant
            entries == pr_entries(*prs),
            count == entries.len(),
            max_repo == if greatest(repo_lens(entries.take(i as int)), 15) > usize::MAX {
                usize::MAX as int
            } else {
                greatest(repo_lens(entries.take(i as int)), 15)
            },
            max_title == greatest(title_lens(entries.take(i as int)), 20),
    {
        let ghost entry = entries[i as int];
        proof {
            let seen = entries.take(i as int);
            assert(entries.take(i + 1) =~= seen.push(entry));
            assert(repo_lens(seen.push(entry)) =~= repo_lens(seen).push(repo_len(entry.0@)));
            assert(title_lens(seen.push(entry)) =~= title_lens(seen).push(
                entry.1.title@.len() as int,
            ));
            lemma_greatest_push(repo_lens(seen), repo_len(entry.0@), 15);
            lemma_greatest_push(title_lens(seen), entry.1.title@.len() as int, 20);
        }
        if let Some((id, pr)) = pr_at(prs, i) {
            let repo = capped_repo_len(id);
            if i == 0 || max_repo < repo {
                max_repo = repo;
            }
            let title = pr.title.as_str().unicode_len();
            if i == 0 || max_title < title {
                max_title = title;
            }
        }
    }
    assert(entries.take(entries.len() as int) =~= entries);
    let fits = match max_repo.checked_add(max_title) {
        Some(sum) => sum <= remaining,
        None => false,
    };
    if fits {
        (6, 6, 7, max_repo, max_title)
    } else {
        let third: usize = if max_repo <= remaining / 3 {
            max_repo
        } else {
            remaining / 3
        };
        let repo: usize = if third >= 10 {
            third
        } else {
            10
        };
        (6, 6, 7, repo, remaining.saturating_sub(repo))
    }
}

/// How many lines the list takes: one for a note, else one for each row, as far as the four fixed
/// lines around it leave room, and at least one.
pub open spec fn list_lines(app: AppView, term_height: int) -> int {
    let most = if term_height - 4 >= 1 {
        term_height - 4
    } else {
        1
    };
    let wanted: int = if app.loading is Loaded && app.prs.len() > 0 {
        app.rows().len() as int
    } else {
        1
    };
    if wanted <= most {
        wanted
    } else {
        most
    }
}

/// The height of the screen area: the list and the four fixed lines, as far as the terminal goes.
pub open spec fn area_lines(app: AppView, term_height: int) -> int {
    let wanted = list_lines(app, term_height) + 4;
    if wanted <= term_height {
        wanted
    } else {
        term_height
    }
}

/// The height of the area that the list of pull requests takes on the screen.
pub fn pr_list_area(app: &App, term_height: u16) -> (r: u16)
    requires
        app.wf(),
    ensures
        r == area_lines(app@, term_height as int),
{
    let most: u16 = if term_height >= 5 {
        term_height - 4
    } else {
        1
    };
    let lines: u16 = if matches!(app.loading, LoadingState::Loaded) && pr_count(&app.prs) > 0 {
        let rows = app.visible_rows.len();
        assert(row_views(app.visible_rows@).len() == rows);
        if rows <= most as usize {
            rows as u16
        } else {
            most
        }
    } else {
        1
    };
    assert(lines == list_lines(app@, term_height as int));
    if lines as u32 + 4 <= term_height as u32 {
        lines + 4
    } else {
        term_height
    }
}

// ---------------------------------------------------------------------------
// Lines

/// The tag of a role.
pub open spec fn role_tag(role: PrRole) -> Seq<char> {
    match role {
        PrRole::Author => "AUTHOR"@,
        PrRole::ReviewRequested => "REVIEW"@,
        PrRole::Mentioned => "MENTION"@,
    }
}

fn tag_of_role(role: PrRole) -> (r: &'static str)
    ensures
        r@ == role_tag(role),
{
    match role {
        PrRole::Author => "AUTHOR",
        PrRole::ReviewRequested => "REVIEW",
        PrRole::Mentioned => "MENTION",
    }
}

/// The tag of a state, and its color.
pub open spec fn state_tag(state: PrState) -> (Seq<char>, Color) {
    match state {
        PrState::Open => ("OPEN"@, Color::Green),
        PrState::Closed => ("CLOSED"@, Color::Yellow),
        PrState::Merged => ("MERGED"@, Color::Magenta),
    }
}

fn tag_of_state(state: PrState) -> (r: (&'static str, Color))
    ensures
        (r.0@, r.1) == state_tag(state),
{
    match state {
        PrState::Open => ("OPEN", Color::Green),
        PrState::Closed => ("CLOSED", Color::Yellow),
        PrState::Merged => ("MERGED", Color::Magenta),
    }
}

/// The sign of a CI status, and its color.
pub open spec fn ci_sign(status: Option<CiStatus>) -> (Seq<char>, Color) {
    match status {
        None => ("-"@, Color::DarkGray),
        Some(CiStatus::Success) => ("✓"@, Color::Green),
        Some(CiStatus::Failure) => ("✗"@, Color::Red),
        Some(CiStatus::Error) => ("✗"@, Color::Red),
        Some(CiStatus::Pending) => ("●"@, Color::Yellow),
        Some(CiStatus::Expected) => ("●"@, Color::Yellow),
    }
}

fn sign_of_ci(status: Option<CiStatus>) -> (r: (&'static str, Color))
    ensures
        (r.0@, r.1) == ci_sign(status),
{
    match status {
        None => ("-", Color::DarkGray),
        Some(CiStatus::Success) => ("✓", Color::Green),
        Some(CiStatus::Failure) => ("✗", Color::Red),
        Some(CiStatus::Error) => ("✗", Color::Red),
        Some(CiStatus::Pending) => ("●", Color::Yellow),
        Some(CiStatus::Expected) => ("●", Color::Yellow),
    }
}

/// The columns that the CI sign and the gap behind it take.
pub const CI_WIDTH: u16 = 4;

/// The widths of the columns where the CI status has one of its own.
pub fn list_widths(term_width: u16, prs: &IndexMap<PrId, PullRequest>) -> (r: (
    usize,
    usize,
    usize,
    usize,
    usize,
))
    ensures
        r.0 == 6,
        r.1 == 6,
        r.2 == 7,
        (r.3 as int, r.4 as int) == repo_and_title(
            if term_width >= CI_WIDTH {
                term_width - CI_WIDTH
            } else {
                0
            },
            greatest(repo_lens(pr_entries(*prs)), 15),
            greatest(title_lens(pr_entries(*prs)), 20),
        ),
{
    col_widths(term_width.saturating_sub(CI_WIDTH), prs)
}

/// The color of a title: a new pull request goes before new comments, and these before a draft.
pub open spec fn title_color(app: AppView, entry: (PrId, PullRequest)) -> Option<Color> {
    if app.new_prs.contains(entry.0@) {
        Some(app.colors.new_pr)
    } else if app.new_comments.contains(entry.0@) {
        Some(app.colors.new_comment)
    } else if entry.1.is_draft {
        Some(app.colors.draft)
    } else {
        None
    }
}

/// The line of a pull request.
pub open spec fn pr_line(
    app: AppView,
    entry: (PrId, PullRequest),
    widths: (usize, usize, usize, usize, usize),
) -> Seq<SpanView> {
    let (id, pr) = entry;
    seq![
        colored_span(padded(role_tag(pr.role), widths.0 as int), app.colors.role),
        plain_span("  "@),
        colored_span(
            padded(state_tag(pr.state).0, widths.1 as int),
            state_tag(pr.state).1,
        ),
        plain_span("  "@),
        colored_span(padded(ci_sign(pr.ci_status).0, 2), ci_sign(pr.ci_status).1),
        plain_span("  "@),
        colored_span(
            padded("#"@ + decimal(id.number as nat), widths.2 as int),
            app.colors.number,
        ),
        SpanView {
            text: padded(truncated(pr.title@, widths.4 as int), widths.4 as int),
            color: title_color(app, entry),
            bold: false,
        },
        plain_span("  "@),
        colored_span(
            padded(
                truncated(id.owner@ + "/"@ + id.repo@, widths.3 as int),
                widths.3 as int,
            ),
            app.colors.repo,
        ),
    ]
}

/// The header line of a group, with a sign of whether it is collapsed.
pub open spec fn group_line(app: AppView, role: PrRole) -> Seq<SpanView> {
    seq![
        bold_span(
            (if app.collapsed.contains(role) {
                "▹ "@
            } else {
                "▾ "@
            }) + role_tag(role),
            app.colors.role,
        ),
    ]
}

/// The line of a row.
pub open spec fn row_line(
    app: AppView,
    row: RowView,
    widths: (usize, usize, usize, usize, usize),
) -> Seq<SpanView> {
    match row {
        RowView::Role(role) => group_line(app, role),
        RowView::Pr(id) => if has_key(app.prs, id) {
            let i = choose|i: int| crate::ids::is_key_at(app.prs, id, i);
            pr_line(app, app.prs[i], widths)
        } else {
            Seq::empty()
        },
    }
}

/// What stands in place of the list, or the lines of its rows.
#[derive(Debug)]
pub enum ListBody {
    Note(TextSpan),
    Rows(Vec<Vec<TextSpan>>),
}

/// What stands in place of the list.
pub open spec fn list_note(app: AppView) -> Option<SpanView> {
    match app.loading {
        LoadingView::Initial => Some(colored_span("  Loading..."@, Color::Yellow)),
        LoadingView::Loading => Some(colored_span("  Loading..."@, Color::Yellow)),
        LoadingView::Error(what) => Some(colored_span("  Error: "@ + what, Color::Red)),
        LoadingView::Loaded => if app.prs.len() == 0 {
            Some(colored_span("  No PRs found"@, Color::DarkGray))
        } else {
            None
        },
    }
}

/// What the lines of the rows stand for.
pub open spec fn line_views(lines: Seq<Vec<TextSpan>>) -> Seq<Seq<SpanView>> {
    lines.map_values(|line: Vec<TextSpan>| span_views(line@))
}

/// The lines of the rows.
pub open spec fn row_lines(
    app: AppView,
    widths: (usize, usize, usize, usize, usize),
) -> Seq<Seq<SpanView>> {
    app.rows().map_values(|row: RowView| row_line(app, row, widths))
}

fn render_pr(
    app: &App,
    id: &PrId,
    pr: &PullRequest,
    widths: (usize, usize, usize, usize, usize),
) -> (r: Vec<TextSpan>)
    requires
        app.wf(),
    ensures
        span_views(r@) == pr_line(app@, (*id, *pr), widths),
{
    let (status_tag, status_color) = tag_of_state(pr.state);
    let (sign, sign_color) = sign_of_ci(pr.ci_status);
    let mut number = "#".to_owned();
    push_decimal(&mut number, id.number);
    let mut repo = id.owner.clone();
    repo.append("/");
    repo.append(id.repo.as_str());
    let color = if app.new_pr_ids.contains(id) {
        Some(app.colors.new_pr)
    } else if app.new_comment_pr_ids.contains(id) {
        Some(app.colors.new_comment)
    } else if pr.is_draft {
        Some(app.colors.draft)
    } else {
        None
    };
    let line = vec![
        colored(pad(tag_of_role(pr.role), widths.0), app.colors.role),
        plain("  "),
        colored(pad(status_tag, widths.1), status_color),
        plain("  "),
        colored(pad(sign, 2), sign_color),
        plain("  "),
        colored(pad(number.as_str(), widths.2), app.colors.number),
        TextSpan {
            text: pad(truncate(pr.title.as_str(), widths.4).as_str(), widths.4),
            color,
            bold: false,
        },
        plain("  "),
        colored(pad(truncate(repo.as_str(), widths.3).as_str(), widths.3), app.colors.repo),
    ];
    assert(span_views(line@) =~= pr_line(app@, (*id, *pr), widths));
    line
}

fn render_group(app: &App, role: PrRole) -> (r: Vec<TextSpan>)
    ensures
        span_views(r@) == group_line(app@, role),
{
    let mut text = if app.role_is_collapsed(role) {
        "▹ ".to_owned()
    } else {
        "▾ ".to_owned()
    };
    text.append(tag_of_role(role));
    let line = vec![bold(text, app.colors.role)];
    assert(span_views(line@) =~= group_line(app@, role));
    line
}

/// What the list shows.
pub fn render_list(app: &App, widths: (usize, usize, usize, usize, usize)) -> (r: ListBody)
    requires
        app.wf(),
    ensures
        match r {
            ListBody::Note(span) => list_note(app@) == Some(span@),
            ListBody::Rows(lines) => list_note(app@) is None && line_views(lines@) == row_lines(
                app@,
                widths,
            ),
        },
{
    match &app.loading {
        LoadingState::Initial => {
            return ListBody::Note(colored("  Loading...".to_owned(), Color::Yellow));
        },
        LoadingState::Loading => {
            return ListBody::Note(colored("  Loading...".to_owned(), Color::Yellow));
        },
        LoadingState::Error(what) => {
            return ListBody::Note(
                colored("  Error: ".to_owned().concat(what.as_str()), Color::Red),
            );
        },
        LoadingState::Loaded => {},
    }
    if pr_count(&app.prs) == 0 {
        return ListBody::Note(colored("  No PRs found".to_owned(), Color::DarkGray));
    }
    let mut lines: Vec<Vec<TextSpan>> = Vec::new();
    let ghost shown = row_lines(app@, widths);
    for i in 0..app.visible_rows.len()
        invariant
            app.wf(),
            shown == row_lines(app@, widths),
            shown.len() == app.visible_rows@.len(),
            line_views(lines@) == shown.take(i as int),
    {
        let ghost before = line_views(lines@);
        let ghost row = app.visible_rows@[i as int]@;
        assert(app@.rows()[i as int] == row) by {
            assert(row_views(app.visible_rows@)[i as int] == row);
        }
        let line = match &app.visible_rows[i] {
            VisibleRow::Role(role) => render_group(app, *role),
            VisibleRow::Pr(id) => render_row_of(app, id, widths),
        };
        assert(span_views(line@) == row_line(app@, row, widths));
        lines.push(line);
        assert(line_views(lines@) =~= before.push(span_views(line@)));
        assert(shown.take(i + 1) =~= shown.take(i as int).push(shown[i as int]));
    }
    assert(shown.take(shown.len() as int) =~= shown);
    ListBody::Rows(lines)
}

fn render_row_of(
    app: &App,
    id: &PrId,
    widths: (usize, usize, usize, usize, usize),
) -> (r: Vec<TextSpan>)
    requires
        app.wf(),
    ensures
        span_views(r@) == row_line(app@, RowView::Pr(id@), widths),
{
    match find_pr(&app.prs, id) {
        Some(pr) => {
            let line = render_pr(app, id, pr, widths);
            proof {
                let i = choose|i: int| crate::ids::is_key_at(app@.prs, id@, i);
                assert(app@.prs[i].1 == *pr);
                assert(app@.prs[i].0@ == id@);
                assert(pr_line(app@, (*id, *pr), widths) =~= pr_line(app@, app@.prs[i], widths));
            }
            line
        },
        None => {
            let line: Vec<TextSpan> = Vec::new();
            assert(span_views(line@) =~= Seq::empty());
            line
        },
    }
}

/// The header line. `last_poll` is the time of the last poll as it is shown.
pub fn render_header(app: &App, last_poll: Option<&str>) -> (r: Vec<TextSpan>)
    ensures
        span_views(r@) == seq![
            bold_span(" GitHub PR Live"@, app.colors.app_title),
            plain_span("  "@),
            colored_span(
                "Last poll: "@ + (match last_poll {
                    Some(at) => at@,
                    None => "---"@,
                }) + (if app@.poll_error is Some {
                    " [!]"@
                } else {
                    ""@
                }),
                Color::DarkGray,
            ),
        ],
{
    let mut text = "Last poll: ".to_owned();
    match last_poll {
        Some(at) => text.append(at),
        None => text.append("---"),
    }
    if app.poll_error.is_some() {
        text.append(" [!]");
    } else {
        text.append("");
    }
    let line = vec![
        bold(" GitHub PR Live".to_owned(), app.colors.app_title),
        plain("  "),
        colored(text, Color::DarkGray),
    ];
    assert(span_views(line@) =~= seq![
        bold_span(" GitHub PR Live"@, app.colors.app_title),
        plain_span("  "@),
        colored_span(text@, Color::DarkGray),
    ]);
    line
}

/// The line above the columns.
pub open spec fn col_header_line(
    color: Color,
    widths: (usize, usize, usize, usize, usize),
) -> Seq<SpanView> {
    seq![
        plain_span("  "@),
        bold_span(padded("ROLE"@, widths.0 as int), color),
        plain_span("  "@),
        bold_span(padded("STATUS"@, widths.1 as int), color),
        plain_span("  "@),
        bold_span(padded("CI"@, 2), color),
        plain_span("  "@),
        bold_span(padded("#"@, widths.2 as int), color),
        bold_span(padded("TITLE"@, widths.4 as int), color),
        plain_span("  "@),
        bold_span(padded("REPO"@, widths.3 as int), color),
    ]
}

/// The line above the columns.
pub fn render_col_header(
    colors: &ColorScheme,
    widths: (usize, usize, usize, usize, usize),
) -> (r: Vec<TextSpan>)
    ensures
        span_views(r@) == col_header_line(colors.col_header, widths),
{
    let color = colors.col_header;
    let line = vec![
        plain("  "),
        bold(pad("ROLE", widths.0), color),
        plain("  "),
        bold(pad("STATUS", widths.1), color),
        plain("  "),
        bold(pad("CI", 2), color),
        plain("  "),
        bold(pad("#", widths.2), color),
        bold(pad("TITLE", widths.4), color),
        plain("  "),
        bold(pad("REPO", widths.3), color),
    ];
    assert(span_views(line@) =~= col_header_line(color, widths));
    line
}

/// The footer line: the number of pull requests, and the status before an error of the last poll.
pub open spec fn footer_line(app: AppView) -> Seq<SpanView> {
    seq![
        colored_span(
            " "@ + decimal(app.prs.len()) + " PRs"@,
            app.colors.footer_count,
        ),
        plain_span(" │ "@),
        colored_span("?: help"@, Color::DarkGray),
        plain_span("  "@),
        colored_span(
            match app.status {
                Some(status) => status,
                None => match app.poll_error {
                    Some(what) => "Error: "@ + what,
                    None => Seq::empty(),
                },
            },
            Color::Yellow,
        ),
    ]
}

/// The footer line.
pub fn render_footer(app: &App) -> (r: Vec<TextSpan>)
    ensures
        span_views(r@) == footer_line(app@),
{
    let status = match &app.status_message {
        Some(status) => status.clone(),
        None => match &app.poll_error {
            Some(what) => "Error: ".to_owned().concat(what.as_str()),
            None => String::new(),
        },
    };
    let mut count = " ".to_owned();
    push_decimal(&mut count, pr_count(&app.prs) as u64);
    count.append(" PRs");
    let line = vec![
        colored(count, app.colors.footer_count),
        plain(" │ "),
        colored("?: help".to_owned(), Color::DarkGray),
        plain("  "),
        colored(status, Color::Yellow),
    ];
    assert(span_views(line@) =~= footer_line(app@));
    line
}

/// The lines of the help screen.
pub open spec fn help_lines() -> Seq<SpanView> {
    seq![
        plain_span(""@),
        bold_span(" GitHub PR Live - Help"@, Color::Cyan),
        plain_span(""@),
        plain_span("  q / Ctrl+C    Quit"@),
        plain_span("  j / ↓         Move down"@),
        plain_span("  k / ↑         Move up"@),
        plain_span("  Enter         Toggle selected role / open PR"@),
        plain_span("  o             Open selected PR in browser"@),
        plain_span("  ?             Toggle help"@),
        plain_span("  r             Force refresh"@),
        plain_span(""@),
        colored_span("  Press any key to return"@, Color::DarkGray),
    ]
}

/// The lines of the help screen.
pub fn render_help() -> (r: Vec<TextSpan>)
    ensures
        span_views(r@) == help_lines(),
{
    let lines = vec![
        plain(""),
        bold(" GitHub PR Live - Help".to_owned(), Color::Cyan),
        plain(""),
        plain("  q / Ctrl+C    Quit"),
        plain("  j / ↓         Move down"),
        plain("  k / ↑         Move up"),
        plain("  Enter         Toggle selected role / open PR"),
        plain("  o             Open selected PR in browser"),
        plain("  ?             Toggle help"),
        plain("  r             Force refresh"),
        plain(""),
        colored("  Press any key to return".to_owned(), Color::DarkGray),
    ];
    assert(span_views(lines@) =~= help_lines());
    lines
}

/// A truncated text is no longer than allowed, and one that is short enough is kept.
pub proof fn truncated_fits(text: Seq<char>, max: nat)
    ensures
        truncated(text, max as int).len() <= max,
        text.len() <= max ==> truncated(text, max as int) == text,
{
    if max == 0 && text.len() == 0 {
        assert(text =~= Seq::empty());
    }
}

/// A truncated and padded text takes exactly its column.
pub proof fn cell_fills_its_column(text: Seq<char>, width: nat)
    ensures
        padded(truncated(text, width as int), width as int).len() == width,
{
}

/// A text that is too long keeps its beginning, and its last column holds an ellipsis.
pub proof fn long_texts_end_with_an_ellipsis(text: Seq<char>, max: nat)
    ensures
        max == 0 ==> truncated(text, max as int).len() == 0,
        text.len() <= max ==> truncated(text, max as int) == text,
        text.len() > max && max > 0 ==> {
            let short = truncated(text, max as int);
            &&& short.len() == max
            &&& short[max - 1] == '…'
            &&& forall|i: int| 0 <= i < max - 1 ==> #[trigger] short[i] == text[i]
        },
{
    if max == 0 && text.len() == 0 {
        assert(text =~= Seq::empty());
    }
}

/// A text that is too short has spaces behind it up to the width, and any other is kept.
pub proof fn short_texts_have_spaces_behind(text: Seq<char>, width: nat)
    ensures
        padded(text, width as int).len() == if text.len() >= width {
            text.len()
        } else {
            width
        },
        forall|i: int| 0 <= i < text.len() ==> #[trigger] padded(text, width as int)[i] == text[i],
        forall|i: int|
            text.len() <= i < width ==> #[trigger] padded(text, width as int)[i] == ' ',
{
}

/// The greatest of some numbers is one of them, and none is greater; without numbers it is the
/// default.
pub proof fn the_greatest_is_one_of_them(numbers: Seq<int>, default: int)
    ensures
        numbers.len() == 0 ==> greatest(numbers, default) == default,
        numbers.len() > 0 ==> numbers.contains(greatest(numbers, default)),
        forall|i: int| 0 <= i < numbers.len() ==> (#[trigger] numbers[i]) <= greatest(
            numbers,
            default,
        ),
    decreases numbers.len(),
{
    if numbers.len() == 1 {
        assert(numbers[0] == greatest(numbers, default));
    } else if numbers.len() > 1 {
        let rest = numbers.drop_last();
        the_greatest_is_one_of_them(rest, default);
        let best = greatest(rest, default);
        let k = choose|k: int| 0 <= k < rest.len() && rest[k] == best;
        assert(numbers[k] == best);
        assert(numbers[numbers.len() - 1] == numbers.last());
        assert forall|i: int| 0 <= i < numbers.len() implies (#[trigger] numbers[i]) <= greatest(
            numbers,
            default,
        ) by {
            if i < rest.len() {
                assert(rest[i] == numbers[i]);
            }
        }
    }
}

/// Repositories are measured by the bytes of owner, slash and name, and titles by their characters.
pub proof fn columns_are_measured_entry_by_entry(prs: Seq<(PrId, PullRequest)>, i: int)
    requires
        0 <= i < prs.len(),
    ensures
        repo_lens(prs).len() == prs.len(),
        title_lens(prs).len() == prs.len(),
        repo_lens(prs)[i] == encode_utf8(prs[i].0.owner@).len() + 1 + encode_utf8(
            prs[i].0.repo@,
        ).len(),
        title_lens(prs)[i] == prs[i].1.title@.len(),
{
}

/// All but 27 columns are for the title and the repository. Both have what they need where that
/// fits. Else the repository has what it needs, but no more than a third and no less than ten, and
/// the title the rest.
pub proof fn columns_share_the_width(term_width: int, max_repo: int, max_title: int)
    requires
        term_width >= 0,
    ensures
        ({
            let left: int = if term_width > 27 {
                term_width - 27
            } else {
                0
            };
            let (repo, title) = repo_and_title(term_width, max_repo, max_title);
            if max_repo + max_title <= left {
                repo == max_repo && title == max_title
            } else {
                &&& repo >= 10
                &&& repo == 10 || repo == max_repo || repo == left / 3
                &&& repo <= max_repo || repo == 10
                &&& repo <= left / 3 || repo == 10
                &&& repo == 10 ==> max_repo <= 10 || left / 3 <= 10
                &&& repo + title == left || (title == 0 && repo > left)
            }
        }),
{
}

/// The screen takes four lines and one for each row, or a single one for a note, as far as the
/// terminal is high enough.
pub proof fn the_screen_has_four_lines_and_the_rows(app: AppView, term_height: int)
    requires
        term_height >= 0,
    ensures
        ({
            let wanted: int = if app.loading is Loaded && app.prs.len() > 0 {
                app.rows().len() as int
            } else {
                1
            };
            &&& wanted + 4 <= term_height ==> area_lines(app, term_height) == wanted + 4
            &&& wanted + 4 > term_height && wanted >= 1 ==> area_lines(app, term_height)
                == term_height
        }),
{
}

/// Roles, states and CI statuses have their tags and signs, and their colors.
pub proof fn tags_and_signs_are_these()
    ensures
        role_tag(PrRole::Author) == "AUTHOR"@,
        role_tag(PrRole::ReviewRequested) == "REVIEW"@,
        role_tag(PrRole::Mentioned) == "MENTION"@,
        state_tag(PrState::Open) == ("OPEN"@, Color::Green),
        state_tag(PrState::Closed) == ("CLOSED"@, Color::Yellow),
        state_tag(PrState::Merged) == ("MERGED"@, Color::Magenta),
        ci_sign(None) == ("-"@, Color::DarkGray),
        ci_sign(Some(CiStatus::Success)) == ("✓"@, Color::Green),
        ci_sign(Some(CiStatus::Failure)) == ("✗"@, Color::Red),
        ci_sign(Some(CiStatus::Error)) == ("✗"@, Color::Red),
        ci_sign(Some(CiStatus::Pending)) == ("●"@, Color::Yellow),
        ci_sign(Some(CiStatus::Expected)) == ("●"@, Color::Yellow),
{
}

/// The line of a pull request shows its role, state, CI status, number, title and repository, each
/// in its column. The title has the color of a new pull request, else of new comments, else of a
/// draft, else none.
pub proof fn lines_show_the_pull_request(
    app: AppView,
    entry: (PrId, PullRequest),
    widths: (usize, usize, usize, usize, usize),
)
    ensures
        ({
            let line = pr_line(app, entry, widths);
            &&& line.len() == 10
            &&& line[0].text == padded(role_tag(entry.1.role), widths.0 as int)
            &&& line[0].color == Some(app.colors.role)
            &&& line[2].text == padded(state_tag(entry.1.state).0, widths.1 as int)
            &&& line[2].color == Some(state_tag(entry.1.state).1)
            &&& line[4].text == padded(ci_sign(entry.1.ci_status).0, 2)
            &&& line[4].color == Some(ci_sign(entry.1.ci_status).1)
            &&& line[6].text == padded(
                seq!['#'] + decimal(entry.0.number as nat),
                widths.2 as int,
            )
            &&& line[6].color == Some(app.colors.number)
            &&& line[7].text == padded(
                truncated(entry.1.title@, widths.4 as int),
                widths.4 as int,
            )
            &&& line[7].color == if app.new_prs.contains(entry.0@) {
                Some(app.colors.new_pr)
            } else if app.new_comments.contains(entry.0@) {
                Some(app.colors.new_comment)
            } else if entry.1.is_draft {
                Some(app.colors.draft)
            } else {
                None
            }
            &&& line[9].text == padded(
                truncated(entry.0.owner@ + seq!['/'] + entry.0.repo@, widths.3 as int),
                widths.3 as int,
            )
            &&& line[9].color == Some(app.colors.repo)
            &&& line[1].text == seq![' ', ' '] && line[3].text == seq![' ', ' ']
            &&& line[5].text == seq![' ', ' '] && line[8].text == seq![' ', ' ']
            &&& line[1].color is None && line[3].color is None
            &&& line[5].color is None && line[8].color is None
            &&& forall|i: int| 0 <= i < 10 ==> !(#[trigger] line[i]).bold
        }),
{
    reveal_strlit("#");
    reveal_strlit("/");
    reveal_strlit("  ");
    assert("#"@ =~= seq!['#']);
    assert("/"@ =~= seq!['/']);
    assert("  "@ =~= seq![' ', ' ']);
    let line = pr_line(app, entry, widths);
    assert forall|i: int| 0 <= i < 10 implies !(#[trigger] line[i]).bold by {
        assert(i == 0 || i == 1 || i == 2 || i == 3 || i == 4 || i == 5 || i == 6 || i == 7 || i == 8
            || i == 9);
    }
}

/// There is a line for each row, in order: a header shows its role and whether its group is
/// collapsed, and the row of a pull request is the line of that pull request.
pub proof fn lines_follow_the_rows(
    app: AppView,
    widths: (usize, usize, usize, usize, usize),
    i: int,
)
    requires
        0 <= i < app.rows().len(),
    ensures
        row_lines(app, widths).len() == app.rows().len(),
        app.rows()[i] matches RowView::Role(role) ==> {
            let line = row_lines(app, widths)[i];
            &&& line.len() == 1
            &&& line[0].bold
            &&& line[0].color == Some(app.colors.role)
            &&& app.collapsed.contains(role) ==> line[0].text == seq!['▹', ' '] + role_tag(role)
            &&& !app.collapsed.contains(role) ==> line[0].text == seq!['▾', ' '] + role_tag(role)
        },
        app.rows()[i] matches RowView::Pr(id) ==> forall|k: int|
            unique_keys(app.prs) && 0 <= k < app.prs.len() && (#[trigger] app.prs[k]).0@ == id
                ==> row_lines(app, widths)[i] == pr_line(app, app.prs[k], widths),
{
    reveal_strlit("▹ ");
    reveal_strlit("▾ ");
    assert("▹ "@ =~= seq!['▹', ' ']);
    assert("▾ "@ =~= seq!['▾', ' ']);
    if let RowView::Pr(id) = app.rows()[i] {
        assert forall|k: int|
            unique_keys(app.prs) && 0 <= k < app.prs.len() && (#[trigger] app.prs[k]).0@
                == id implies row_lines(app, widths)[i] == pr_line(app, app.prs[k], widths) by {
            assert(is_key_at(app.prs, id, k));
            let m = choose|m: int| is_key_at(app.prs, id, m);
            assert(app.prs[m].0@ == app.prs[k].0@);
        }
    }
}

/// In place of the list stands a note until there is a list, after an error, and where the list is
/// empty.
pub proof fn notes_stand_for_a_missing_list(app: AppView)
    ensures
        app.loading is Initial || app.loading is Loading ==> list_note(app) == Some(
            SpanView { text: "  Loading..."@, color: Some(Color::Yellow), bold: false },
        ),
        app.loading matches LoadingView::Error(what) ==> list_note(app) == Some(
            SpanView { text: "  Error: "@ + what, color: Some(Color::Red), bold: false },
        ),
        app.loading is Loaded && app.prs.len() == 0 ==> list_note(app) == Some(
            SpanView { text: "  No PRs found"@, color: Some(Color::DarkGray), bold: false },
        ),
        app.loading is Loaded && app.prs.len() > 0 ==> list_note(app) is None,
{
}

/// The footer counts the pull requests, and shows the status message, else the error of the last
/// poll, else nothing.
pub proof fn the_footer_shows_status_before_error(app: AppView)
    ensures
        ({
            let line = footer_line(app);
            &&& line.len() == 5
            &&& line[0].text == seq![' '] + decimal(app.prs.len()) + " PRs"@
            &&& line[0].color == Some(app.colors.footer_count)
            &&& line[1].text == " │ "@
            &&& line[2].text == "?: help"@
            &&& line[2].color == Some(Color::DarkGray)
            &&& line[4].color == Some(Color::Yellow)
            &&& app.status is Some ==> line[4].text == app.status->0
            &&& app.status is None && app.poll_error is Some ==> line[4].text == "Error: "@
                + app.poll_error->0
            &&& app.status is None && app.poll_error is None ==> line[4].text.len() == 0
        }),
{
    reveal_strlit(" ");
    assert(" "@ =~= seq![' ']);
}

/// The line above the columns has a title for each of them, as wide as the column.
pub proof fn columns_have_their_titles(
    color: Color,
    widths: (usize, usize, usize, usize, usize),
)
    ensures
        ({
            let line = col_header_line(color, widths);
            &&& line.len() == 11
            &&& line[1].text == padded("ROLE"@, widths.0 as int)
            &&& line[3].text == padded("STATUS"@, widths.1 as int)
            &&& line[5].text == padded("CI"@, 2)
            &&& line[7].text == padded("#"@, widths.2 as int)
            &&& line[8].text == padded("TITLE"@, widths.4 as int)
            &&& line[10].text == padded("REPO"@, widths.3 as int)
            &&& line[0].text == "  "@ && line[2].text == "  "@ && line[4].text == "  "@
            &&& line[6].text == "  "@ && line[9].text == "  "@
            &&& line[1].color == Some(color) && line[3].color == Some(color)
            &&& line[5].color == Some(color) && line[7].color == Some(color)
            &&& line[8].color == Some(color) && line[10].color == Some(color)
        }),
{
}

} // verus!
