use klipper_bridge::api::{
    client_response, clients_response, stats_response, ClientInfoResponse, StatsResponse,
    API_PORT, CLIENTS_PATH, STATS_PATH,
};
use klipper_bridge::client::ClientInfo;
use klipper_bridge::stats::DashboardStats;

#[test]
fn the_statistics_answer_holds_counters_and_command() {
    let mut stats = DashboardStats::new();
    stats.record_received(11);
    stats.record_attempt("G1 X10");
    stats.record_outcome("G1 X10", true);
    assert_eq!(
        stats_response(&stats),
        StatsResponse { data_sent: 6, data_received: 11, last_command: "G1 X10".to_string() }
    );
}

#[test]
fn a_client_answer_holds_ages_in_whole_seconds() {
    let client = ClientInfo {
        ip: "10.0.0.10".to_string(),
        connected_at: 1_000,
        last_activity: 61_500,
        status: "📡 Sent: X1".to_string(),
    };
    assert_eq!(
        client_response(&client, 63_499),
        ClientInfoResponse {
            ip: "10.0.0.10".to_string(),
            connected_at_secs: 62,
            last_activity_secs: 1,
            status: "📡 Sent: X1".to_string(),
        }
    );
    let early = client_response(&client, 500);
    assert_eq!((early.connected_at_secs, early.last_activity_secs), (0, 0));
    let exact = client_response(&client, 62_500);
    assert_eq!((exact.connected_at_secs, exact.last_activity_secs), (61, 1));
}

#[test]
fn the_client_list_follows_the_registry() {
    let clients = vec![
        ClientInfo::new_authenticated("b".to_string(), 0),
        ClientInfo::new_authenticated("a".to_string(), 2_000),
    ];
    let list = clients_response(&clients, 5_000);
    assert_eq!(list.len(), 2);
    assert_eq!(list[0].ip, "b");
    assert_eq!(list[0].connected_at_secs, 5);
    assert_eq!(list[1].ip, "a");
    assert_eq!(list[1].connected_at_secs, 3);
    assert_eq!(list[1].status, "✅ Connected");
    assert!(clients_response(&Vec::new(), 5).is_empty());
}

#[test]
fn the_surface_is_where_it_is_expected() {
    assert_eq!(API_PORT, 8080);
    assert_eq!(STATS_PATH, "stats");
    assert_eq!(CLIENTS_PATH, "clients");
}
