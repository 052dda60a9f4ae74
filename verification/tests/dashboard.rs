use klipper_bridge::client::ClientInfo;
use klipper_bridge::dashboard::{
    activity_percent, count_live, elapsed, format_age, format_uptime, pad_right, percent_tone,
    render_client, render_dashboard, repeat, status_column_width, Frame, HostMetrics, Snapshot,
    Span, Tone, AGE_WIDTH, DEFAULT_TERM_WIDTH, IP_WIDTH, PERCENT_WIDTH, REFRESH_MILLIS,
    STATUS_WIDTH, TABLE_WIDTH,
};
use klipper_bridge::stats::DashboardStats;
use std::time::Duration;

fn plain_text(line: &[Span]) -> String {
    line.iter().map(|s| s.text.as_str()).collect()
}

fn sample_frame(now: u64, term_width: usize) -> Frame {
    Frame {
        now,
        started_at: 1_500,
        clock: "2024-01-01 12:00:00".to_string(),
        host: None,
        term_width,
    }
}

#[test]
fn activity_tiers() {
    assert_eq!(activity_percent(0), 100);
    assert_eq!(activity_percent(4), 100);
    assert_eq!(activity_percent(5), 80);
    assert_eq!(activity_percent(29), 80);
    assert_eq!(activity_percent(30), 50);
    assert_eq!(activity_percent(59), 50);
    assert_eq!(activity_percent(60), 10);
    assert_eq!(activity_percent(3600), 10);
    assert_eq!(activity_percent(u64::MAX), 10);
}

#[test]
fn activity_never_rises_with_idle_time() {
    let mut last = 100;
    for secs in 0..200 {
        let percent = activity_percent(secs);
        assert!(percent <= last);
        assert!([100, 80, 50, 10].contains(&percent));
        last = percent;
    }
}

#[test]
fn tones_of_activity() {
    assert_eq!(percent_tone(100), Tone::Green);
    assert_eq!(percent_tone(80), Tone::Green);
    assert_eq!(percent_tone(79), Tone::Yellow);
    assert_eq!(percent_tone(50), Tone::Yellow);
    assert_eq!(percent_tone(49), Tone::Red);
    assert_eq!(percent_tone(10), Tone::Red);
    assert_eq!(percent_tone(0), Tone::Red);
}

#[test]
fn elapsed_time_is_never_negative() {
    assert_eq!(elapsed(10, 3), 7);
    assert_eq!(elapsed(3, 3), 0);
    assert_eq!(elapsed(3, 10), 0);
    assert_eq!(elapsed(u64::MAX, 0), u64::MAX);
}

#[test]
fn uptime_is_hours_minutes_seconds() {
    assert_eq!(format_uptime(0), "00:00:00");
    assert_eq!(format_uptime(59), "00:00:59");
    assert_eq!(format_uptime(60), "00:01:00");
    assert_eq!(format_uptime(3661), "01:01:01");
    assert_eq!(format_uptime(86399), "23:59:59");
    assert_eq!(format_uptime(360000), "100:00:00");
    assert_eq!(format_uptime(u64::MAX), "5124095576030431:00:15");
}

#[test]
fn ages_are_shown_in_their_unit() {
    assert_eq!(format_age(0), "0ns");
    assert_eq!(format_age(5), "5ms");
    assert_eq!(format_age(999), "999ms");
    assert_eq!(format_age(1000), "1s");
    assert_eq!(format_age(1500), "1.5s");
    assert_eq!(format_age(1050), "1.05s");
    assert_eq!(format_age(1005), "1.005s");
    assert_eq!(format_age(61_234), "61.234s");
    assert_eq!(format_age(120_000), "120s");
}

#[test]
fn ages_read_like_durations() {
    let mut ms: u64 = 0;
    while ms < 20_000 {
        assert_eq!(format_age(ms), format!("{:?}", Duration::from_millis(ms)));
        ms += 1;
    }
    for ms in [59_999, 60_000, 3_600_000, 3_600_010, 86_400_123, u64::MAX] {
        assert_eq!(format_age(ms), format!("{:?}", Duration::from_millis(ms)));
    }
}

#[test]
fn padding_fills_to_the_width() {
    assert_eq!(pad_right("IP", 5), "IP   ");
    assert_eq!(pad_right("IP", 2), "IP");
    assert_eq!(pad_right("IP", 0), "IP");
    assert_eq!(pad_right("", 3), "   ");
    assert_eq!(pad_right("✅ ok", 6), "✅ ok  ");
    assert_eq!(pad_right("100%", PERCENT_WIDTH), format!("{:<9}", "100%"));
    assert_eq!(repeat('─', 3), "───");
    assert_eq!(repeat('x', 0), "");
}

#[test]
fn the_status_column_takes_the_spare_width() {
    assert_eq!(IP_WIDTH + 2 * AGE_WIDTH + PERCENT_WIDTH + STATUS_WIDTH + 4, TABLE_WIDTH);
    assert_eq!(status_column_width(0), 15);
    assert_eq!(status_column_width(72), 15);
    assert_eq!(status_column_width(73), 16);
    assert_eq!(status_column_width(80), 23);
    assert_eq!(status_column_width(DEFAULT_TERM_WIDTH), 43);
    assert_eq!(REFRESH_MILLIS, 500);
}

#[test]
fn a_client_row() {
    let client = ClientInfo {
        ip: "10.0.0.10".to_string(),
        connected_at: 0,
        last_activity: 58_000,
        status: "📡 Sent: X1".to_string(),
    };
    let line = render_client(&client, 61_500, 80);
    assert_eq!(line.len(), 9);
    assert_eq!(
        plain_text(&line),
        format!(
            "{:<20} {:<12} {:<12} {:<9} {:<23}",
            "10.0.0.10", "61.5s", "3.5s", "100%", "📡 Sent: X1"
        )
    );
    assert_eq!(
        line.iter().map(|s| s.tone).collect::<Vec<Tone>>(),
        vec![
            Tone::Cyan,
            Tone::Plain,
            Tone::Green,
            Tone::Plain,
            Tone::Yellow,
            Tone::Plain,
            Tone::Green,
            Tone::Plain,
            Tone::Plain
        ]
    );
    assert!(line.iter().all(|s| !s.bold));

    let idle = render_client(&client, 58_000 + 30_000, 72);
    assert_eq!(idle[6].text, "50%      ");
    assert_eq!(idle[6].tone, Tone::Yellow);
    let stale = render_client(&client, 58_000 + 60_000, 72);
    assert_eq!(stale[6].text, "10%      ");
    assert_eq!(stale[6].tone, Tone::Red);
    let busy = render_client(&client, 58_000 + 29_999, 72);
    assert_eq!(busy[6].text, "80%      ");
    assert_eq!(busy[6].tone, Tone::Green);
}

#[test]
fn the_whole_view() {
    let mut stats = DashboardStats::new();
    stats.record_received(17);
    stats.record_attempt("G1 X1");
    stats.record_outcome("G1 X1", true);
    let snapshot = Snapshot {
        clients: vec![
            ClientInfo {
                ip: "10.0.0.10".to_string(),
                connected_at: 1_500,
                last_activity: 58_000,
                status: "📡 Sent: X1".to_string(),
            },
            ClientInfo::new_authenticated("10.0.0.11".to_string(), 61_400),
        ],
        stats,
    };
    let lines = render_dashboard(&snapshot, &sample_frame(61_500, 80));
    let texts: Vec<String> = lines.iter().map(|l| plain_text(l)).collect();
    let rule = "─".repeat(80);
    assert_eq!(
        texts,
        vec![
            "ABB Klipper Middleware @ 2024-01-01 12:00:00".to_string(),
            "Uptime: 00:01:00 | Active: 2 | Total: 2 | CPU: 20.0% | RAM: 8192 MB / 8192 MB | Moonraker: 🟢 Online"
                .to_string(),
            "Data Sent: 5 bytes | Data Received: 17 bytes | Last Command: G1 X1".to_string(),
            rule.clone(),
            format!(
                "{:<20} {:<12} {:<12} {:<9} {:<23}",
                "IP", "Connected", "Last Act", "% Act", "Status"
            ),
            rule.clone(),
            format!(
                "{:<20} {:<12} {:<12} {:<9} {:<23}",
                "10.0.0.10", "60s", "3.5s", "100%", "📡 Sent: X1"
            ),
            format!(
                "{:<20} {:<12} {:<12} {:<9} {:<23}",
                "10.0.0.11", "100ms", "100ms", "100%", "✅ Connected"
            ),
            rule,
        ]
    );
    assert_eq!(
        lines[0][0],
        Span { text: "ABB Klipper Middleware".to_string(), tone: Tone::Green, bold: true }
    );
    assert_eq!(lines[0][2].tone, Tone::White);
    assert_eq!(lines[1][1], Span { text: "00:01:00".to_string(), tone: Tone::Cyan, bold: false });
    assert_eq!(lines[1][13].tone, Tone::Green);
    assert_eq!(lines[3][0].tone, Tone::Grey);
    assert!(lines[4].iter().step_by(2).all(|s| s.bold && s.tone == Tone::White));
}

#[test]
fn an_empty_registry_and_an_offline_endpoint() {
    let snapshot = Snapshot { clients: Vec::new(), stats: DashboardStats::new() };
    let mut frame = sample_frame(1_000, 10);
    frame.host = Some(HostMetrics { cpu_tenths: 1005, ram_used_mb: 512, ram_total_mb: 2048 });
    let lines = render_dashboard(&snapshot, &frame);
    assert_eq!(lines.len(), 7);
    assert_eq!(
        plain_text(&lines[1]),
        "Uptime: 00:00:00 | Active: 0 | Total: 0 | CPU: 100.5% | RAM: 512 MB / 2048 MB | Moonraker: 🔴 Offline"
    );
    assert_eq!(lines[1][13].tone, Tone::Red);
    assert_eq!(
        plain_text(&lines[2]),
        "Data Sent: 0 bytes | Data Received: 0 bytes | Last Command: "
    );
    assert_eq!(plain_text(&lines[3]), "─".repeat(10));
    assert_eq!(
        plain_text(&lines[4]),
        format!("{:<20} {:<12} {:<12} {:<9} {:<15}", "IP", "Connected", "Last Act", "% Act", "Status")
    );
    assert_eq!(plain_text(&lines[6]), "─".repeat(10));
}

#[test]
fn only_served_connections_count_as_active() {
    let mut clients = vec![
        ClientInfo::new_authenticated("a".to_string(), 0),
        ClientInfo::new_authenticated("b".to_string(), 0),
        ClientInfo::new_authenticated("c".to_string(), 0),
        ClientInfo::new_authenticated("d".to_string(), 0),
    ];
    clients[1].status = "🔌 Disconnected".to_string();
    clients[2].status = "❌ Error".to_string();
    clients[3].status = "📡 Sent: 🔌 Disconnected".to_string();
    assert_eq!(count_live(&clients), 2);
    assert_eq!(
        clients.iter().map(|c| c.is_live()).collect::<Vec<bool>>(),
        vec![true, false, false, true]
    );
    assert_eq!(count_live(&Vec::new()), 0);
    let snapshot = Snapshot { clients, stats: DashboardStats::new() };
    let lines = render_dashboard(&snapshot, &sample_frame(1_500, 72));
    assert_eq!(lines.len(), 11);
    assert_eq!(
        plain_text(&lines[1]),
        "Uptime: 00:00:00 | Active: 2 | Total: 4 | CPU: 20.0% | RAM: 8192 MB / 8192 MB | Moonraker: 🔴 Offline"
    );
    assert_eq!(lines[1][3], Span { text: "2".to_string(), tone: Tone::Green, bold: false });
    assert_eq!(lines[1][5], Span { text: "4".to_string(), tone: Tone::White, bold: false });
}

#[test]
fn placeholder_figures() {
    assert_eq!(
        HostMetrics::placeholder(),
        HostMetrics { cpu_tenths: 200, ram_used_mb: 8192, ram_total_mb: 8192 }
    );
}
