//! The live terminal view, as a function of a snapshot of the shared state.
//! Drawing the lines is left to the caller.

use crate::client::{ClientInfo, ClientView};
use crate::numbers::{
    decimal, decimal_text, digit, digit_char, push_decimal, push_two_digits, three_digits,
    two_digits,
};
use crate::registry::views_of;
use crate::stats::{DashboardStats, StatsView};
use vstd::prelude::*;
use vstd::string::{StrSliceExecFns, StringExecFns};

verus! {

/// The share of activity shown for a connection that was last active
/// `idle_secs` seconds ago.
pub open spec fn activity_tier(idle_secs: nat) -> nat {
    if idle_secs < 5 {
        100
    } else if idle_secs < 30 {
        80
    } else if idle_secs < 60 {
        50
    } else {
        10
    }
}

/// The share of activity shown for a connection that was last active
/// `idle_secs` seconds ago, in percent.
pub fn activity_percent(idle_secs: u64) -> (percent: u8)
    ensures
        percent == activity_tier(idle_secs as nat),
{
    if idle_secs < 5 {
        100
    } else if idle_secs < 30 {
        80
    } else if idle_secs < 60 {
        50
    } else {
        10
    }
}

/// The colour of a piece of the view.
#[derive(Clone, Copy, Debug, PartialEq, Eq, Structural)]
pub enum Tone {
    Plain,
    Green,
    Yellow,
    Red,
    Cyan,
    White,
    Grey,
}

/// The colour in which a share of activity is shown.
pub open spec fn tier_tone(percent: nat) -> Tone {
    if percent >= 80 {
        Tone::Green
    } else if percent >= 50 {
        Tone::Yellow
    } else {
        Tone::Red
    }
}

/// The colour in which the share of activity `percent` is shown.
pub fn percent_tone(percent: u8) -> (tone: Tone)
    ensures
        tone == tier_tone(percent as nat),
{
    if percent >= 80 {
        Tone::Green
    } else if percent >= 50 {
        Tone::Yellow
    } else {
        Tone::Red
    }
}

/// The milliseconds from `then` to `now`; none where `then` is the later.
pub open spec fn elapsed_ms(now: u64, then: u64) -> nat {
    if now >= then {
        (now - then) as nat
    } else {
        0
    }
}

/// The milliseconds from `then` to `now`; none where `then` is the later.
pub fn elapsed(now: u64, then: u64) -> (ms: u64)
    ensures
        ms == elapsed_ms(now, then),
{
    if now >= then {
        now - then
    } else {
        0
    }
}

/// The decimal places of `frac` thousandths, without trailing zeros and
/// with the point; nothing for none.
pub open spec fn fraction_text(frac: nat) -> Seq<char>
    recommends
        frac < 1000,
{
    if frac == 0 {
        Seq::empty()
    } else if frac % 100 == 0 {
        seq!['.', digit_char(frac / 100)]
    } else if frac % 10 == 0 {
        seq!['.', digit_char(frac / 100), digit_char(frac / 10 % 10)]
    } else {
        seq!['.'] + three_digits(frac)
    }
}

/// A span of `ms` milliseconds in the unit that suits it: seconds with up
/// to three decimal places, or whole milliseconds below one second.
pub open spec fn age_text(ms: nat) -> Seq<char> {
    if ms == 0 {
        "0ns"@
    } else if ms < 1000 {
        decimal(ms) + "ms"@
    } else {
        decimal(ms / 1000) + fraction_text(ms % 1000) + "s"@
    }
}

/// A span of `ms` milliseconds as text.
pub fn format_age(ms: u64) -> (s: String)
    ensures
        s@ == age_text(ms as nat),
{
    if ms == 0 {
        return "0ns".to_owned();
    }
    let mut s = String::new();
    if ms < 1000 {
        push_decimal(&mut s, ms);
        s.append("ms");
        assert(s@ =~= age_text(ms as nat));
        return s;
    }
    push_decimal(&mut s, ms / 1000);
    let ghost whole = s@;
    let frac: u64 = ms % 1000;
    if frac != 0 {
        s.push('.');
        s.push(digit((frac / 100) as u8));
        if frac % 100 != 0 {
            s.push(digit((frac / 10 % 10) as u8));
            if frac % 10 != 0 {
                s.push(digit((frac % 10) as u8));
            }
        }
    }
    assert(s@ =~= whole + fraction_text(frac as nat));
    s.append("s");
    s
}

/// `secs` seconds as hours, minutes and seconds, each in at least two
/// digits.
pub open spec fn clock_text(secs: nat) -> Seq<char> {
    two_digits(secs / 3600) + seq![':'] + two_digits(secs % 3600 / 60) + seq![':'] + two_digits(
        secs % 60,
    )
}

/// An uptime of `secs` seconds as `HH:MM:SS`.
pub fn format_uptime(secs: u64) -> (s: String)
    ensures
        s@ == clock_text(secs as nat),
{
    let mut s = String::new();
    push_two_digits(&mut s, secs / 3600);
    s.push(':');
    push_two_digits(&mut s, secs % 3600 / 60);
    s.push(':');
    push_two_digits(&mut s, secs % 60);
    assert(s@ =~= clock_text(secs as nat));
    s
}

/// `count` copies of `c`.
pub open spec fn repeated(c: char, count: nat) -> Seq<char> {
    Seq::new(count, |i: int| c)
}

/// `count` copies of `c`.
pub fn repeat(c: char, count: usize) -> (s: String)
    ensures
        s@ == repeated(c, count as nat),
{
    let mut s = String::new();
    let mut n: usize = 0;
    while n < count
        invariant
            n <= count,
            s@ == repeated(c, n as nat),
        decreases count - n,
    {
        s.push(c);
        n += 1;
        assert(s@ =~= repeated(c, n as nat));
    }
    s
}

/// `text`, followed by as many blanks as it takes to fill `width`
/// characters.
pub open spec fn padded(text: Seq<char>, width: nat) -> Seq<char> {
    if text.len() >= width {
        text
    } else {
        text + repeated(' ', (width - text.len()) as nat)
    }
}

/// `text`, filled with blanks on the right to `width` characters.
pub fn pad_right(text: &str, width: usize) -> (s: String)
    ensures
        s@ == padded(text@, width as nat),
{
    let mut s = text.to_owned();
    let len = text.unicode_len();
    if len < width {
        let blanks = repeat(' ', width - len);
        s.append(blanks.as_str());
    }
    s
}

/// A piece of a line of the view: its text and how it is shown.
#[derive(Clone, Debug, PartialEq, Eq)]
pub struct Span {
    pub text: String,
    pub tone: Tone,
    pub bold: bool,
}

/// The mathematical content of a [`Span`].
pub struct SpanView {
    pub text: Seq<char>,
    pub tone: Tone,
    pub bold: bool,
}

impl View for Span {
    type V = SpanView;

    open spec fn view(&self) -> SpanView {
        SpanView { text: self.text@, tone: self.tone, bold: self.bold }
    }
}

/// `text` in the terminal's own colour.
pub open spec fn plain(text: Seq<char>) -> SpanView {
    SpanView { text, tone: Tone::Plain, bold: false }
}

/// `text` in the colour `tone`.
pub open spec fn toned(text: Seq<char>, tone: Tone) -> SpanView {
    SpanView { text, tone, bold: false }
}

/// `text` in the colour `tone`, in bold.
pub open spec fn strong(text: Seq<char>, tone: Tone) -> SpanView {
    SpanView { text, tone, bold: true }
}

/// The views of the spans of a line.
pub open spec fn line_view(line: Seq<Span>) -> Seq<SpanView> {
    line.map_values(|s: Span| s@)
}

/// The views of the lines of a screen.
pub open spec fn screen_view(lines: Seq<Vec<Span>>) -> Seq<Seq<SpanView>> {
    lines.map_values(|l: Vec<Span>| line_view(l@))
}

fn plain_span(text: &str) -> (span: Span)
    ensures
        span@ == plain(text@),
{
    Span { text: text.to_owned(), tone: Tone::Plain, bold: false }
}

fn toned_span(text: String, tone: Tone) -> (span: Span)
    ensures
        span@ == toned(text@, tone),
{
    Span { text, tone, bold: false }
}

fn strong_span(text: String, tone: Tone) -> (span: Span)
    ensures
        span@ == strong(text@, tone),
{
    Span { text, tone, bold: true }
}

/// What the host reports of itself: processor load in tenths of a percent,
/// memory in megabytes.
#[derive(Clone, Copy, Debug, PartialEq, Eq)]
pub struct HostMetrics {
    pub cpu_tenths: u32,
    pub ram_used_mb: u64,
    pub ram_total_mb: u64,
}

/// The figures shown while the host reports none.
pub open spec fn placeholder_metrics() -> HostMetrics {
    HostMetrics { cpu_tenths: 200, ram_used_mb: 8192, ram_total_mb: 8192 }
}

impl HostMetrics {
    /// The figures shown while the host reports none.
    pub fn placeholder() -> (host: HostMetrics)
        ensures
            host == placeholder_metrics(),
    {
        HostMetrics { cpu_tenths: 200, ram_used_mb: 8192, ram_total_mb: 8192 }
    }
}

/// A load of `tenths` tenths of a percent, with one decimal place.
pub open spec fn load_text(tenths: nat) -> Seq<char> {
    decimal(tenths / 10) + seq!['.', digit_char(tenths % 10)]
}

fn format_load(tenths: u32) -> (s: String)
    ensures
        s@ == load_text(tenths as nat),
{
    let mut s = String::new();
    push_decimal(&mut s, (tenths / 10) as u64);
    s.push('.');
    s.push(digit((tenths % 10) as u8));
    assert(s@ =~= load_text(tenths as nat));
    s
}

/// The shared state at one moment: every registry entry and the counters.
pub struct Snapshot {
    pub clients: Vec<ClientInfo>,
    pub stats: DashboardStats,
}

/// The mathematical content of a [`Snapshot`].
pub struct SnapshotView {
    pub clients: Seq<ClientView>,
    pub stats: StatsView,
}

impl View for Snapshot {
    type V = SnapshotView;

    open spec fn view(&self) -> SnapshotView {
        SnapshotView { clients: views_of(self.clients@), stats: self.stats@ }
    }
}

/// What a frame of the view is drawn for: the monotonic time now and at
/// the start of the process (milliseconds), the wall-clock time as text,
/// the host's figures if it gave any, and the width of the terminal.
pub struct Frame {
    pub now: u64,
    pub started_at: u64,
    pub clock: String,
    pub host: Option<HostMetrics>,
    pub term_width: usize,
}

/// The mathematical content of a [`Frame`].
pub struct FrameView {
    pub now: u64,
    pub started_at: u64,
    pub clock: Seq<char>,
    pub host: Option<HostMetrics>,
    pub term_width: nat,
}

impl View for Frame {
    type V = FrameView;

    open spec fn view(&self) -> FrameView {
        FrameView {
            now: self.now,
            started_at: self.started_at,
            clock: self.clock@,
            host: self.host,
            term_width: self.term_width as nat,
        }
    }
}

/// The time between two frames of the view, in milliseconds.
pub const REFRESH_MILLIS: u64 = 500;

/// The width of the terminal where it cannot be asked.
pub const DEFAULT_TERM_WIDTH: usize = 100;

/// The width of the column of identities.
pub const IP_WIDTH: usize = 20;

/// The width of each of the two columns of ages.
pub const AGE_WIDTH: usize = 12;

/// The width of the column of activity shares.
pub const PERCENT_WIDTH: usize = 9;

/// The least width of the column of status texts.
pub const STATUS_WIDTH: usize = 15;

/// The width of the table at its narrowest, blanks between columns included.
pub const TABLE_WIDTH: usize = 72;

/// The width of the status column on a terminal `term_width` characters
/// wide: it takes what the terminal has beyond the table's least width.
pub open spec fn status_width(term_width: nat) -> nat {
    if term_width > TABLE_WIDTH {
        (STATUS_WIDTH + (term_width - TABLE_WIDTH)) as nat
    } else {
        STATUS_WIDTH as nat
    }
}

/// The width of the status column on a terminal `term_width` characters
/// wide.
pub fn status_column_width(term_width: usize) -> (width: usize)
    ensures
        width == status_width(term_width as nat),
{
    if term_width > TABLE_WIDTH {
        STATUS_WIDTH + (term_width - TABLE_WIDTH)
    } else {
        STATUS_WIDTH
    }
}

/// The first line: the program's name and the wall-clock time.
pub open spec fn title_line(clock: Seq<char>) -> Seq<SpanView> {
    seq![
        strong("ABB Klipper Middleware"@, Tone::Green),
        plain(" @ "@),
        toned(clock, Tone::White),
    ]
}

/// How the state of the downstream endpoint is shown.
pub open spec fn endpoint_span(online: bool) -> SpanView {
    if online {
        toned("🟢 Online"@, Tone::Green)
    } else {
        toned("🔴 Offline"@, Tone::Red)
    }
}

/// The number of `clients` whose connection is still served.
pub open spec fn live_count(clients: Seq<ClientView>) -> nat
    decreases clients.len(),
{
    if clients.len() == 0 {
        0
    } else {
        live_count(clients.drop_last()) + if clients.last().is_live() {
            1nat
        } else {
            0nat
        }
    }
}

/// The number of `clients` whose connection is still served.
pub fn count_live(clients: &Vec<ClientInfo>) -> (count: usize)
    ensures
        count == live_count(views_of(clients@)),
{
    let mut count: usize = 0;
    let mut i: usize = 0;
    while i < clients.len()
        invariant
            i <= clients.len(),
            count <= i,
            count == live_count(views_of(clients@).take(i as int)),
        decreases clients.len() - i,
    {
        let ghost seen = views_of(clients@).take(i + 1);
        assert(seen.drop_last() =~= views_of(clients@).take(i as int));
        assert(seen.last() == clients@[i as int]@);
        if clients[i].is_live() {
            count += 1;
        }
        i += 1;
    }
    assert(views_of(clients@).take(i as int) =~= views_of(clients@));
    count
}

/// The line of uptime, connection counts, host figures and endpoint
/// state: `active` connections are served now, `total` is the number of
/// peers that ever authenticated.
pub open spec fn summary_line(
    uptime_secs: nat,
    active: nat,
    total: nat,
    host: HostMetrics,
    online: bool,
) -> Seq<SpanView> {
    seq![
        plain("Uptime: "@),
        toned(clock_text(uptime_secs), Tone::Cyan),
        plain(" | Active: "@),
        toned(decimal(active), Tone::Green),
        plain(" | Total: "@),
        toned(decimal(total), Tone::White),
        plain(" | CPU: "@),
        plain(load_text(host.cpu_tenths as nat)),
        plain("% | RAM: "@),
        plain(decimal(host.ram_used_mb as nat)),
        plain(" MB / "@),
        plain(decimal(host.ram_total_mb as nat)),
        plain(" MB | Moonraker: "@),
        endpoint_span(online),
    ]
}

/// The line of byte counters and the latest command.
pub open spec fn traffic_line(stats: StatsView) -> Seq<SpanView> {
    seq![
        plain("Data Sent: "@),
        toned(decimal(stats.data_sent), Tone::Yellow),
        plain(" bytes | Data Received: "@),
        toned(decimal(stats.data_received), Tone::Yellow),
        plain(" bytes | Last Command: "@),
        plain(stats.last_command),
    ]
}

/// A horizontal rule across the terminal.
pub open spec fn rule_line(term_width: nat) -> Seq<SpanView> {
    seq![toned(repeated('─', term_width), Tone::Grey)]
}

/// The line of column titles.
pub open spec fn header_line(term_width: nat) -> Seq<SpanView> {
    seq![
        strong(padded("IP"@, IP_WIDTH as nat), Tone::White),
        plain(" "@),
        strong(padded("Connected"@, AGE_WIDTH as nat), Tone::White),
        plain(" "@),
        strong(padded("Last Act"@, AGE_WIDTH as nat), Tone::White),
        plain(" "@),
        strong(padded("% Act"@, PERCENT_WIDTH as nat), Tone::White),
        plain(" "@),
        strong(padded("Status"@, status_width(term_width)), Tone::White),
    ]
}

/// The share of activity of `client` at `now`, in percent.
pub open spec fn client_tier(client: ClientView, now: u64) -> nat {
    activity_tier(elapsed_ms(now, client.last_activity) / 1000)
}

/// The table row of `client` at `now`: identity, age of the connection,
/// time since the last activity, share of activity, status.
pub open spec fn client_line(client: ClientView, now: u64, term_width: nat) -> Seq<SpanView> {
    seq![
        toned(padded(client.ip, IP_WIDTH as nat), Tone::Cyan),
        plain(" "@),
        toned(
            padded(age_text(elapsed_ms(now, client.connected_at)), AGE_WIDTH as nat),
            Tone::Green,
        ),
        plain(" "@),
        toned(
            padded(age_text(elapsed_ms(now, client.last_activity)), AGE_WIDTH as nat),
            Tone::Yellow,
        ),
        plain(" "@),
        toned(
            padded(decimal(client_tier(client, now)) + seq!['%'], PERCENT_WIDTH as nat),
            tier_tone(client_tier(client, now)),
        ),
        plain(" "@),
        plain(padded(client.status, status_width(term_width))),
    ]
}

/// The figures of the host that a frame shows.
pub open spec fn shown_metrics(host: Option<HostMetrics>) -> HostMetrics {
    match host {
        Some(h) => h,
        None => placeholder_metrics(),
    }
}

/// The lines above the table rows.
pub open spec fn head_lines(snapshot: SnapshotView, frame: FrameView) -> Seq<Seq<SpanView>> {
    seq![
        title_line(frame.clock),
        summary_line(
            elapsed_ms(frame.now, frame.started_at) / 1000,
            live_count(snapshot.clients),
            snapshot.clients.len(),
            shown_metrics(frame.host),
            snapshot.stats.downstream_online,
        ),
        traffic_line(snapshot.stats),
        rule_line(frame.term_width),
        header_line(frame.term_width),
        rule_line(frame.term_width),
    ]
}

/// The whole view: title, summary, counters, the table with one row for
/// each registry entry in the registry's order, and a closing rule.
pub open spec fn dashboard_screen(snapshot: SnapshotView, frame: FrameView) -> Seq<
    Seq<SpanView>,
> {
    head_lines(snapshot, frame) + Seq::new(
        snapshot.clients.len(),
        |i: int| client_line(snapshot.clients[i], frame.now, frame.term_width),
    ) + seq![rule_line(frame.term_width)]
}

fn render_title(clock: &str) -> (line: Vec<Span>)
    ensures
        line_view(line@) == title_line(clock@),
{
    let mut line: Vec<Span> = Vec::new();
    line.push(strong_span("ABB Klipper Middleware".to_owned(), Tone::Green));
    line.push(plain_span(" @ "));
    line.push(toned_span(clock.to_owned(), Tone::White));
    assert(line_view(line@) =~= title_line(clock@));
    line
}

fn render_summary(
    uptime_secs: u64,
    active: usize,
    total: usize,
    host: HostMetrics,
    online: bool,
) -> (line: Vec<Span>)
    ensures
        line_view(line@) == summary_line(
            uptime_secs as nat,
            active as nat,
            total as nat,
            host,
            online,
        ),
{
    let mut line: Vec<Span> = Vec::new();
    line.push(plain_span("Uptime: "));
    line.push(toned_span(format_uptime(uptime_secs), Tone::Cyan));
    line.push(plain_span(" | Active: "));
    line.push(toned_span(decimal_text(active as u64), Tone::Green));
    line.push(plain_span(" | Total: "));
    line.push(toned_span(decimal_text(total as u64), Tone::White));
    line.push(plain_span(" | CPU: "));
    line.push(toned_span(format_load(host.cpu_tenths), Tone::Plain));
    line.push(plain_span("% | RAM: "));
    line.push(toned_span(decimal_text(host.ram_used_mb), Tone::Plain));
    line.push(plain_span(" MB / "));
    line.push(toned_span(decimal_text(host.ram_total_mb), Tone::Plain));
    line.push(plain_span(" MB | Moonraker: "));
    if online {
        line.push(toned_span("🟢 Online".to_owned(), Tone::Green));
    } else {
        line.push(toned_span("🔴 Offline".to_owned(), Tone::Red));
    }
    assert(line_view(line@) =~= summary_line(
        uptime_secs as nat,
        active as nat,
        total as nat,
        host,
        online,
    ));
    line
}

fn render_traffic(stats: &DashboardStats) -> (line: Vec<Span>)
    ensures
        line_view(line@) == traffic_line(stats@),
{
    let mut line: Vec<Span> = Vec::new();
    line.push(plain_span("Data Sent: "));
    line.push(toned_span(decimal_text(stats.data_sent as u64), Tone::Yellow));
    line.push(plain_span(" bytes | Data Received: "));
    line.push(
        toned_span(decimal_text(stats.data_received as u64), Tone::Yellow),
    );
    line.push(plain_span(" bytes | Last Command: "));
    line.push(plain_span(stats.last_command.as_str()));
    assert(line_view(line@) =~= traffic_line(stats@));
    line
}

fn render_rule(term_width: usize) -> (line: Vec<Span>)
    ensures
        line_view(line@) == rule_line(term_width as nat),
{
    let mut line: Vec<Span> = Vec::new();
    line.push(toned_span(repeat('─', term_width), Tone::Grey));
    assert(line_view(line@) =~= rule_line(term_width as nat));
    line
}

fn render_header(term_width: usize) -> (line: Vec<Span>)
    ensures
        line_view(line@) == header_line(term_width as nat),
{
    let mut line: Vec<Span> = Vec::new();
    line.push(strong_span(pad_right("IP", IP_WIDTH), Tone::White));
    line.push(plain_span(" "));
    line.push(strong_span(pad_right("Connected", AGE_WIDTH), Tone::White));
    line.push(plain_span(" "));
    line.push(strong_span(pad_right("Last Act", AGE_WIDTH), Tone::White));
    line.push(plain_span(" "));
    line.push(strong_span(pad_right("% Act", PERCENT_WIDTH), Tone::White));
    line.push(plain_span(" "));
    line.push(strong_span(pad_right("Status", status_column_width(term_width)), Tone::White));
    assert(line_view(line@) =~= header_line(term_width as nat));
    line
}

/// The table row of `client` at `now`, for a terminal `term_width`
/// characters wide.
pub fn render_client(client: &ClientInfo, now: u64, term_width: usize) -> (line: Vec<Span>)
    ensures
        line_view(line@) == client_line(client@, now, term_width as nat),
{
    let idle = elapsed(now, client.last_activity);
    let percent = activity_percent(idle / 1000);
    let mut share = decimal_text(percent as u64);
    share.push('%');
    assert(share@ =~= decimal(client_tier(client@, now)) + seq!['%']);
    let mut line: Vec<Span> = Vec::new();
    line.push(toned_span(pad_right(client.ip.as_str(), IP_WIDTH), Tone::Cyan));
    line.push(plain_span(" "));
    line.push(
        toned_span(
            pad_right(format_age(elapsed(now, client.connected_at)).as_str(), AGE_WIDTH),
            Tone::Green,
        ),
    );
    line.push(plain_span(" "));
    line.push(toned_span(pad_right(format_age(idle).as_str(), AGE_WIDTH), Tone::Yellow));
    line.push(plain_span(" "));
    line.push(toned_span(pad_right(share.as_str(), PERCENT_WIDTH), percent_tone(percent)));
    line.push(plain_span(" "));
    line.push(
        toned_span(
            pad_right(client.status.as_str(), status_column_width(term_width)),
            Tone::Plain,
        ),
    );
    assert(line_view(line@) =~= client_line(client@, now, term_width as nat));
    line
}

/// The whole view of `snapshot` for `frame`, line by line.
pub fn render_dashboard(snapshot: &Snapshot, frame: &Frame) -> (lines: Vec<Vec<Span>>)
    ensures
        screen_view(lines@) == dashboard_screen(snapshot@, frame@),
{
    let host = match frame.host {
        Some(h) => h,
        None => HostMetrics::placeholder(),
    };
    let mut lines: Vec<Vec<Span>> = Vec::new();
    lines.push(render_title(frame.clock.as_str()));
    lines.push(
        render_summary(
            elapsed(frame.now, frame.started_at) / 1000,
            count_live(&snapshot.clients),
            snapshot.clients.len(),
            host,
            snapshot.stats.downstream_online,
        ),
    );
    lines.push(render_traffic(&snapshot.stats));
    lines.push(render_rule(frame.term_width));
    lines.push(render_header(frame.term_width));
    lines.push(render_rule(frame.term_width));
    assert(screen_view(lines@) =~= head_lines(snapshot@, frame@));
    let ghost head = head_lines(snapshot@, frame@);
    let mut i: usize = 0;
    while i < snapshot.clients.len()
        invariant
            i <= snapshot.clients.len(),
            screen_view(lines@) == head + Seq::new(
                i as nat,
                |k: int| client_line(snapshot@.clients[k], frame.now, frame.term_width as nat),
            ),
        decreases snapshot.clients.len() - i,
    {
        assert(snapshot@.clients[i as int] == snapshot.clients@[i as int]@);
        let ghost above = screen_view(lines@);
        let ghost row = client_line(snapshot@.clients[i as int], frame.now, frame.term_width as nat);
        lines.push(render_client(&snapshot.clients[i], frame.now, frame.term_width));
        i += 1;
        assert(screen_view(lines@) =~= above.push(row));
        assert(above.push(row) =~= head + Seq::new(
            i as nat,
            |k: int| client_line(snapshot@.clients[k], frame.now, frame.term_width as nat),
        ));
    }
    lines.push(render_rule(frame.term_width));
    assert(screen_view(lines@) =~= dashboard_screen(snapshot@, frame@));
    lines
}

/// The longer a connection has been idle, the smaller its share of
/// activity; the share is one of four values.
pub proof fn lemma_tier_never_rises(earlier: nat, later: nat)
    requires
        earlier <= later,
    ensures
        activity_tier(earlier) >= activity_tier(later),
        activity_tier(later) == 100 || activity_tier(later) == 80 || activity_tier(later) == 50
            || activity_tier(later) == 10,
{
}

/// A padded text is as long as the longer of the text and the width, and
/// starts with the text.
pub proof fn lemma_padded_length(text: Seq<char>, width: nat)
    ensures
        padded(text, width).len() == if text.len() >= width {
            text.len()
        } else {
            width
        },
        padded(text, width).take(text.len() as int) == text,
{
    assert(padded(text, width).take(text.len() as int) =~= text);
}

/// The view has six lines above the table, one row for each registry
/// entry in the registry's order, and a closing rule.
pub proof fn lemma_screen_has_row_for_each_entry(snapshot: SnapshotView, frame: FrameView)
    ensures
        dashboard_screen(snapshot, frame).len() == snapshot.clients.len() + 7,
        forall|i: int|
            0 <= i < snapshot.clients.len() ==> #[trigger] dashboard_screen(snapshot, frame)[6 + i]
                == client_line(snapshot.clients[i], frame.now, frame.term_width),
        dashboard_screen(snapshot, frame).last() == rule_line(frame.term_width),
{
}

} // verus!
