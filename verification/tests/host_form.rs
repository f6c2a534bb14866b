use std::collections::HashMap;

use omnyssh::client::{ConnectionStatus, FileAccess, Host, HostSource, MonitorMode};
use omnyssh::form::{
    file_access_value, monitoring_value, parse_file_access, parse_monitoring, poller_inputs_changed,
    FormField, HostForm,
};
use omnyssh::hostlist::{filter_hosts, HostListView, HostReadings, SortOrder, MISSING_READING_KEY};

/// Builds a host form from the field values, in label order.
fn host_form(values: [&str; 8]) -> HostForm {
    let mut form = HostForm::empty();
    for (i, v) in values.iter().enumerate() {
        form.fields[i] = FormField::with_value(*v);
    }
    form
}

/// Live readings of one host, as the dashboard's metric collector holds them.
#[derive(Default, Clone)]
struct Metrics {
    cpu_percent: Option<f64>,
    ram_percent: Option<f64>,
}

/// The order key of a reading: its IEEE-754 bits, negatives reflected.
fn reading_key(x: f64) -> i64 {
    let x = if x == 0.0 { 0.0 } else { x };
    let bits = x.to_bits() as i64;
    if bits < 0 {
        bits ^ i64::MAX
    } else {
        bits
    }
}

fn readings(metrics: &HashMap<String, Metrics>) -> Vec<(String, HostReadings)> {
    metrics
        .iter()
        .map(|(name, m)| {
            (
                name.clone(),
                HostReadings {
                    cpu: m.cpu_percent.map(reading_key),
                    ram: m.ram_percent.map(reading_key),
                },
            )
        })
        .collect()
}

fn statuses(statuses: &HashMap<String, ConnectionStatus>) -> Vec<(String, ConnectionStatus)> {
    statuses
        .iter()
        .map(|(name, s)| (name.clone(), s.clone()))
        .collect()
}

fn rebuild(
    view: &mut HostListView,
    hosts: &[Host],
    metrics: &HashMap<String, Metrics>,
    status: &HashMap<String, ConnectionStatus>,
) {
    view.rebuild_filter(&hosts.to_vec(), &readings(metrics), &statuses(status));
}

#[test]
fn the_monitoring_field_round_trips_through_the_form() {
    for (text, mode, port) in [
        ("", MonitorMode::Ssh, None),
        ("ssh", MonitorMode::Ssh, None),
        ("tcp", MonitorMode::TcpPort, None),
        ("tcp:8443", MonitorMode::TcpPort, Some(8443)),
    ] {
        let parsed = parse_monitoring(text).expect("valid monitoring value");
        assert_eq!(parsed, (mode, port), "parsing '{text}'");

        let host = Host {
            monitoring: mode,
            monitor_port: port,
            ..Host::default()
        };
        assert_eq!(parse_monitoring(&monitoring_value(&host)), Ok((mode, port)));
    }
}

#[test]
fn only_a_connection_field_edit_restarts_the_pool() {
    let base = Host {
        name: String::from("web"),
        hostname: String::from("10.0.0.1"),
        ..Host::default()
    };

    // Display-only edits: the running poller would produce the same session.
    let mut described = base.clone();
    described.tags = vec![String::from("prod")];
    described.notes = Some(String::from("the billing box"));
    assert!(!poller_inputs_changed(&base, &described));

    let populated = Host {
        user: String::from("deploy"),
        port: 2222,
        identity_file: Some(String::from("~/.ssh/id_ed25519")),
        password: Some(String::from("hunter2")),
        tags: vec![String::from("prod"), String::from("web")],
        notes: Some(String::from("the billing box")),
        monitoring: MonitorMode::TcpPort,
        monitor_port: Some(8443),
        ..base.clone()
    };
    let reopened = HostForm::from_host(&populated)
        .to_host(HostSource::Manual)
        .expect("the form round-trips a valid host");
    assert!(
        !poller_inputs_changed(&populated, &reopened),
        "opening and confirming the form unchanged must not restart the pool"
    );

    // Everything a poller dials, authenticates or watches with.
    let moved = [
        Host {
            name: String::from("web-1"),
            ..base.clone()
        },
        Host {
            hostname: String::from("10.0.0.2"),
            ..base.clone()
        },
        Host {
            user: String::from("deploy"),
            ..base.clone()
        },
        Host {
            port: 2222,
            ..base.clone()
        },
        Host {
            identity_file: Some(String::from("~/.ssh/id_ed25519")),
            ..base.clone()
        },
        Host {
            password: Some(String::from("hunter2")),
            ..base.clone()
        },
        Host {
            proxy_jump: Some(String::from("bastion")),
            ..base.clone()
        },
        Host {
            monitoring: MonitorMode::TcpPort,
            ..base.clone()
        },
        Host {
            monitor_port: Some(8443),
            ..base.clone()
        },
    ];
    for after in moved {
        assert!(
            poller_inputs_changed(&base, &after),
            "a changed poller input went unnoticed"
        );
    }
}

#[test]
fn an_unusable_monitoring_value_is_rejected() {
    for text in ["tcp:0", "tcp:99999", "http", "tcp:"] {
        assert!(
            parse_monitoring(text).is_err(),
            "'{text}' should be rejected"
        );
    }
}

#[test]
fn the_file_access_field_round_trips_through_the_form() {
    for (text, access) in [
        ("", FileAccess::Sftp),
        ("sftp", FileAccess::Sftp),
        ("ftp", FileAccess::Ftp),
        ("ftps", FileAccess::Ftps),
        ("none", FileAccess::Disabled),
    ] {
        assert_eq!(parse_file_access(text), Ok(access), "parsing '{text}'");

        let host = Host {
            file_access: access,
            ..Host::default()
        };
        assert_eq!(
            parse_file_access(file_access_value(&host)),
            Ok(access),
            "round-tripping {access:?}"
        );
    }
}

#[test]
fn an_unusable_file_access_value_is_rejected() {
    for text in ["sft", "FTP", "http", "tcp"] {
        assert!(
            parse_file_access(text).is_err(),
            "'{text}' should be rejected"
        );
    }
}

// --- HostForm::to_host ---------------------------------------------------

#[test]
fn to_host_empty_name_errs() {
    let form = host_form(["", "h", "u", "22", "", "", "", ""]);
    assert!(form.to_host(HostSource::Manual).is_err());
}

#[test]
fn to_host_whitespace_name_errs() {
    let form = host_form(["   ", "h", "u", "22", "", "", "", ""]);
    assert!(form.to_host(HostSource::Manual).is_err());
}

#[test]
fn to_host_empty_hostname_errs() {
    let form = host_form(["n", "", "u", "22", "", "", "", ""]);
    assert!(form.to_host(HostSource::Manual).is_err());
}

#[test]
fn to_host_empty_user_defaults_root() {
    let host = host_form(["n", "h", "", "22", "", "", "", ""])
        .to_host(HostSource::Manual)
        .unwrap();
    assert_eq!(host.user, "root");
}

#[test]
fn to_host_whitespace_user_defaults_root() {
    let host = host_form(["n", "h", "  ", "22", "", "", "", ""])
        .to_host(HostSource::Manual)
        .unwrap();
    assert_eq!(host.user, "root");
}

#[test]
fn to_host_empty_port_defaults_22() {
    let host = host_form(["n", "h", "u", "", "", "", "", ""])
        .to_host(HostSource::Manual)
        .unwrap();
    assert_eq!(host.port, 22);
}

#[test]
fn to_host_valid_port_parsed() {
    let host = host_form(["n", "h", "u", "2222", "", "", "", ""])
        .to_host(HostSource::Manual)
        .unwrap();
    assert_eq!(host.port, 2222);
}

#[test]
fn to_host_port_max_accepted() {
    let host = host_form(["n", "h", "u", "65535", "", "", "", ""])
        .to_host(HostSource::Manual)
        .unwrap();
    assert_eq!(host.port, 65535);
}

#[test]
fn to_host_port_zero_errs() {
    // Port 0 is invalid for SSH; the form rejects it.
    assert!(host_form(["n", "h", "u", "0", "", "", "", ""])
        .to_host(HostSource::Manual)
        .is_err());
}

#[test]
fn to_host_port_overflow_errs() {
    let err = host_form(["n", "h", "u", "65536", "", "", "", ""])
        .to_host(HostSource::Manual)
        .unwrap_err();
    assert!(err.contains("between 1 and 65535"));
}

#[test]
fn to_host_port_non_numeric_errs() {
    assert!(host_form(["n", "h", "u", "abc", "", "", "", ""])
        .to_host(HostSource::Manual)
        .is_err());
}

#[test]
fn to_host_port_negative_errs() {
    assert!(host_form(["n", "h", "u", "-1", "", "", "", ""])
        .to_host(HostSource::Manual)
        .is_err());
}

#[test]
fn to_host_optional_fields_none_when_empty() {
    let host = host_form(["n", "h", "u", "22", "", "", "", ""])
        .to_host(HostSource::Manual)
        .unwrap();
    assert!(host.identity_file.is_none());
    assert!(host.password.is_none());
    assert!(host.notes.is_none());
    assert!(host.tags.is_empty());
}

#[test]
fn to_host_tags_split_and_trimmed() {
    let host = host_form(["n", "h", "u", "22", "", "", "a, b ,c,,", ""])
        .to_host(HostSource::Manual)
        .unwrap();
    assert_eq!(host.tags, vec!["a", "b", "c"]);
}

#[test]
fn to_host_source_and_metadata_propagated() {
    let host = host_form(["n", "h", "u", "22", "", "", "", ""])
        .to_host(HostSource::SshConfig)
        .unwrap();
    assert_eq!(host.source, HostSource::SshConfig);
    assert!(host.original_ssh_host.is_none());
    assert!(host.key_setup_date.is_none());
    assert!(host.password_auth_disabled.is_none());
}

// --- FormField insert/backspace, UTF-8 safety ------------------------------

#[test]
fn formfield_insert_ascii() {
    let mut f = FormField::default();
    f.insert_char('a');
    assert_eq!(f.value, "a");
    assert_eq!(f.cursor, 1);
}

#[test]
fn formfield_insert_multibyte_advances_cursor_by_byte_len() {
    let mut f = FormField::default();
    f.insert_char('é');
    assert_eq!(f.value, "é");
    assert_eq!(f.cursor, 2);
}

#[test]
fn formfield_insert_emoji_advances_cursor_by_four() {
    let mut f = FormField::default();
    f.insert_char('😀');
    assert_eq!(f.cursor, 4);
}

#[test]
fn formfield_insert_at_start() {
    let mut f = FormField::with_value("bc");
    f.cursor = 0;
    f.insert_char('a');
    assert_eq!(f.value, "abc");
    assert_eq!(f.cursor, 1);
}

#[test]
fn formfield_insert_on_multibyte_boundary_stays_valid() {
    // Cursor sits between 'a' and 'é' — a valid char boundary.
    let mut f = FormField::with_value("aé");
    f.cursor = 1;
    f.insert_char('X');
    assert_eq!(f.value, "aXé");
}

#[test]
fn formfield_backspace_ascii() {
    let mut f = FormField::with_value("ab");
    f.backspace();
    assert_eq!(f.value, "a");
    assert_eq!(f.cursor, 1);
}

#[test]
fn formfield_backspace_removes_whole_multibyte_char() {
    let mut f = FormField::with_value("é");
    f.backspace();
    assert_eq!(f.value, "");
    assert_eq!(f.cursor, 0);
}

#[test]
fn formfield_backspace_at_zero_is_noop() {
    let mut f = FormField::default();
    f.backspace();
    assert_eq!(f.value, "");
    assert_eq!(f.cursor, 0);
}

#[test]
fn formfield_with_value_cursor_at_byte_len() {
    let f = FormField::with_value("héllo");
    assert_eq!(f.cursor, 6);
}

// --- filter_hosts ------------------------------------------------------------

fn host(name: &str, hostname: &str, tags: &[&str], notes: Option<&str>) -> Host {
    Host {
        name: name.to_string(),
        hostname: hostname.to_string(),
        tags: tags.iter().map(|t| t.to_string()).collect(),
        notes: notes.map(|n| n.to_string()),
        ..Host::default()
    }
}

#[test]
fn filter_hosts_empty_query_returns_all() {
    let hosts = [host("a", "1", &[], None), host("b", "2", &[], None)];
    assert_eq!(filter_hosts(&hosts, ""), vec![0, 1]);
}

#[test]
fn filter_hosts_matches_name() {
    let hosts = [host("web-prod", "1", &[], None), host("db", "2", &[], None)];
    assert_eq!(filter_hosts(&hosts, "web"), vec![0]);
}

#[test]
fn filter_hosts_matches_hostname() {
    let hosts = [
        host("a", "10.0.0.1", &[], None),
        host("b", "10.0.0.2", &[], None),
    ];
    assert_eq!(filter_hosts(&hosts, "0.0.1"), vec![0]);
}

#[test]
fn filter_hosts_matches_tag() {
    let hosts = [
        host("a", "1", &["prod"], None),
        host("b", "2", &["dev"], None),
    ];
    assert_eq!(filter_hosts(&hosts, "prod"), vec![0]);
}

#[test]
fn filter_hosts_matches_notes() {
    let hosts = [
        host("a", "1", &[], Some("bastion host")),
        host("b", "2", &[], None),
    ];
    assert_eq!(filter_hosts(&hosts, "bastion"), vec![0]);
}

#[test]
fn filter_hosts_case_insensitive() {
    let hosts = [host("Web-Prod", "1", &[], None)];
    assert_eq!(filter_hosts(&hosts, "WEB"), vec![0]);
}

#[test]
fn filter_hosts_no_match_returns_empty() {
    let hosts = [host("a", "1", &[], None)];
    assert!(filter_hosts(&hosts, "zzz").is_empty());
}

// --- HostListView::rebuild_filter and selection ------------------------------

fn filtered_names<'a>(view: &HostListView, hosts: &'a [Host]) -> Vec<&'a str> {
    view.filtered_indices
        .iter()
        .map(|&i| hosts[i].name.as_str())
        .collect()
}

fn metrics_cpu(value: f64) -> Metrics {
    Metrics {
        cpu_percent: Some(value),
        ..Metrics::default()
    }
}

fn metrics_ram(value: f64) -> Metrics {
    Metrics {
        ram_percent: Some(value),
        ..Metrics::default()
    }
}

#[test]
fn rebuild_sort_name_alphabetical() {
    let hosts = [
        host("c", "1", &[], None),
        host("a", "2", &[], None),
        host("b", "3", &[], None),
    ];
    let mut view = HostListView::default();
    rebuild(&mut view, &hosts, &HashMap::new(), &HashMap::new());
    assert_eq!(filtered_names(&view, &hosts), ["a", "b", "c"]);
}

#[test]
fn rebuild_sort_cpu_descending_missing_metrics_last() {
    let hosts = [
        host("a", "1", &[], None),
        host("b", "2", &[], None),
        host("c", "3", &[], None),
    ];
    let metrics = HashMap::from([
        ("a".to_string(), metrics_cpu(90.0)),
        ("b".to_string(), metrics_cpu(10.0)),
    ]);
    let mut view = HostListView {
        sort_order: SortOrder::Cpu,
        ..Default::default()
    };
    rebuild(&mut view, &hosts, &metrics, &HashMap::new());
    assert_eq!(filtered_names(&view, &hosts), ["a", "b", "c"]);
}

#[test]
fn rebuild_sort_ram_descending() {
    let hosts = [host("a", "1", &[], None), host("b", "2", &[], None)];
    let metrics = HashMap::from([
        ("a".to_string(), metrics_ram(20.0)),
        ("b".to_string(), metrics_ram(80.0)),
    ]);
    let mut view = HostListView {
        sort_order: SortOrder::Ram,
        ..Default::default()
    };
    rebuild(&mut view, &hosts, &metrics, &HashMap::new());
    assert_eq!(filtered_names(&view, &hosts), ["b", "a"]);
}

#[test]
fn rebuild_sort_status_priority() {
    let hosts = [
        host("a", "1", &[], None),
        host("b", "2", &[], None),
        host("c", "3", &[], None),
        host("d", "4", &[], None),
    ];
    let statuses = HashMap::from([
        ("a".to_string(), ConnectionStatus::Failed("x".to_string())),
        ("b".to_string(), ConnectionStatus::Connected),
        ("c".to_string(), ConnectionStatus::Connecting),
    ]);
    let mut view = HostListView {
        sort_order: SortOrder::Status,
        ..Default::default()
    };
    rebuild(&mut view, &hosts, &HashMap::new(), &statuses);
    // Connected, Connecting, Unknown/None, Failed.
    assert_eq!(filtered_names(&view, &hosts), ["b", "c", "d", "a"]);
}

#[test]
fn rebuild_tag_filter_includes_only_matching() {
    let hosts = [
        host("a", "1", &["prod"], None),
        host("b", "2", &["dev"], None),
    ];
    let mut view = HostListView {
        tag_filter: Some("prod".to_string()),
        ..Default::default()
    };
    rebuild(&mut view, &hosts, &HashMap::new(), &HashMap::new());
    assert_eq!(filtered_names(&view, &hosts), ["a"]);
}

#[test]
fn rebuild_tag_filter_none_shows_all() {
    let hosts = [
        host("a", "1", &["prod"], None),
        host("b", "2", &["dev"], None),
    ];
    let mut view = HostListView::default();
    rebuild(&mut view, &hosts, &HashMap::new(), &HashMap::new());
    assert_eq!(view.filtered_indices.len(), 2);
}

#[test]
fn rebuild_combines_text_tag_and_sort() {
    let hosts = [
        host("web1", "1", &["prod"], None),
        host("web2", "2", &["dev"], None),
        host("db1", "3", &["prod"], None),
    ];
    let mut view = HostListView {
        search_query: "web".to_string(),
        tag_filter: Some("prod".to_string()),
        ..Default::default()
    };
    rebuild(&mut view, &hosts, &HashMap::new(), &HashMap::new());
    assert_eq!(filtered_names(&view, &hosts), ["web1"]);
}

#[test]
fn rebuild_clamps_selection_when_list_shrinks() {
    let hosts = [host("a", "1", &[], None), host("b", "2", &[], None)];
    let mut view = HostListView {
        selected: 5,
        ..Default::default()
    };
    rebuild(&mut view, &hosts, &HashMap::new(), &HashMap::new());
    assert_eq!(view.selected, 1);
}

#[test]
fn rebuild_resets_selection_to_zero_when_empty() {
    let hosts = [host("a", "1", &[], None)];
    let mut view = HostListView {
        selected: 3,
        search_query: "zzz".to_string(),
        ..Default::default()
    };
    rebuild(&mut view, &hosts, &HashMap::new(), &HashMap::new());
    assert_eq!(view.selected, 0);
}

#[test]
fn rebuild_preserves_selection_in_range() {
    let hosts = [
        host("a", "1", &[], None),
        host("b", "2", &[], None),
        host("c", "3", &[], None),
    ];
    let mut view = HostListView {
        selected: 1,
        ..Default::default()
    };
    rebuild(&mut view, &hosts, &HashMap::new(), &HashMap::new());
    assert_eq!(view.selected, 1);
}

#[test]
fn rebuild_handles_shrunk_host_list_without_panic() {
    let many = [
        host("a", "1", &[], None),
        host("b", "2", &[], None),
        host("c", "3", &[], None),
    ];
    let mut view = HostListView::default();
    rebuild(&mut view, &many, &HashMap::new(), &HashMap::new());
    let few = [host("a", "1", &[], None)];
    rebuild(&mut view, &few, &HashMap::new(), &HashMap::new());
    assert!(view.filtered_indices.iter().all(|&i| i < few.len()));
}

#[test]
fn rebuild_cpu_sort_with_empty_metrics_does_not_panic() {
    let hosts = [host("a", "1", &[], None), host("b", "2", &[], None)];
    let mut view = HostListView {
        sort_order: SortOrder::Cpu,
        ..Default::default()
    };
    rebuild(&mut view, &hosts, &HashMap::new(), &HashMap::new());
    assert_eq!(view.filtered_indices.len(), 2);
}

#[test]
fn host_select_next_clamps_at_last() {
    let mut view = HostListView {
        filtered_indices: vec![0, 1],
        ..Default::default()
    };
    view.select_next();
    view.select_next();
    view.select_next();
    assert_eq!(view.selected, 1);
}

#[test]
fn host_select_prev_saturates_at_zero() {
    let mut view = HostListView {
        filtered_indices: vec![0, 1],
        ..Default::default()
    };
    view.select_prev();
    assert_eq!(view.selected, 0);
}

#[test]
fn host_select_next_noop_when_empty() {
    let mut view = HostListView::default();
    view.select_next();
    assert_eq!(view.selected, 0);
}

#[test]
fn the_missing_reading_key_is_the_key_of_minus_one() {
    assert_eq!(MISSING_READING_KEY, reading_key(-1.0));
    assert!(reading_key(0.0) > MISSING_READING_KEY);
    assert!(reading_key(-2.0) < MISSING_READING_KEY);
}
