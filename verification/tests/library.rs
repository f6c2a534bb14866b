use omnyssh::client::{
    default_port, default_user, ConnectionStatus, FileAccess, Host, HostSource, MonitorMode,
};
use omnyssh::dashboard::{
    apply_host_edit, confirm_host_form, host_added_message, move_entry, remove_host_at,
};
use omnyssh::files::{
    choose_backend, finish_listing, holds_leap_epoch_time, ftp_credentials, ftp_endpoint, ftp_listing, ftp_listing_of,
    guard_local_path, join_remote, local_listing, preview_text, sftp_listing, task_event,
    task_step, transfer_step, BackendCall, BackendKind, SftpCommand, TaskState, TaskEvent, TaskOutcome, FileEntry, FtpSetupError, ListedFile, PathGuardError, RemoteDirEntry,
    TransferStep, FTP_PORT, PREVIEW_BYTES,
};
use omnyssh::form::{
    form_field_label, monitoring_value, parse_file_access, parse_monitoring, FormField, HostForm,
    FORM_FIELD_COUNT,
};
use omnyssh::hostlist::{filter_hosts, status_priority, HostListView, HostPopup, SortOrder};
use omnyssh::hosts::{adopted_import, persisted_indices, remove, upsert, HostInputDto};
use omnyssh::text::{format_u16, join_strings, parse_u16, trim};

fn host(name: &str) -> Host {
    Host {
        name: name.to_string(),
        hostname: "10.0.0.1".to_string(),
        ..Host::default()
    }
}

fn entry(name: &str, is_dir: bool) -> FileEntry {
    FileEntry {
        name: name.to_string(),
        path: format!("/x/{name}"),
        size: 1,
        is_dir,
    }
}

fn names(entries: &[FileEntry]) -> Vec<&str> {
    entries.iter().map(|e| e.name.as_str()).collect()
}

fn input(name: &str) -> HostInputDto {
    HostInputDto {
        name: name.to_string(),
        hostname: "example.com".to_string(),
        user: "root".to_string(),
        port: 22,
        identity_file: None,
        password: None,
        proxy_jump: None,
        tags: vec![],
        notes: None,
        monitoring: None,
        monitor_port: None,
        file_access: None,
        ftp_user: None,
        ftp_password: None,
        ftp_port: None,
        ftp_active: false,
    }
}

// --- host records ------------------------------------------------------------

#[test]
fn host_defaults() {
    let h = Host::default();
    assert_eq!(h.user, "root");
    assert_eq!(h.port, 22);
    assert_eq!(default_port(), 22);
    assert_eq!(h.source, HostSource::Manual);
    assert!(h.monitoring.is_ssh());
    assert!(h.file_access.is_sftp());
    assert!(!MonitorMode::TcpPort.is_ssh());
    assert!(!FileAccess::Ftp.is_sftp());
    assert_eq!(ConnectionStatus::default(), ConnectionStatus::Unknown);
    assert_eq!(Host::default_for_user("deploy".to_string()).user, "deploy");
}

#[test]
fn the_default_login_is_root() {
    assert_eq!(default_user(), "root");
    assert_eq!(Host::default().user, "root");
}

// --- text helpers ------------------------------------------------------------

#[test]
fn trimming_removes_unicode_whitespace_at_both_ends() {
    assert_eq!(trim("  a b \t\n"), "a b");
    assert_eq!(trim("\u{3000}x\u{a0}"), "x");
    assert_eq!(trim("   "), "");
}

#[test]
fn port_numbers_parse_like_from_str_and_format_back() {
    let p = |s: &str| parse_u16(&s.chars().collect());
    assert_eq!(p("22"), Some(22));
    assert_eq!(p("+22"), Some(22));
    assert_eq!(p("0065535"), Some(65535));
    assert_eq!(p("65536"), None);
    assert_eq!(p("+"), None);
    assert_eq!(p(""), None);
    assert_eq!(p("-0"), None);
    assert_eq!(p("2 2"), None);
    for n in [0u16, 7, 10, 22, 8443, 65535] {
        assert_eq!(format_u16(n), n.to_string());
        assert_eq!(p(&format_u16(n)), Some(n));
    }
}

#[test]
fn joining_puts_the_separator_between_pieces_only() {
    assert_eq!(join_strings(&vec![], ", "), "");
    assert_eq!(join_strings(&vec!["a".to_string()], ", "), "a");
    assert_eq!(
        join_strings(&vec!["a".to_string(), "b".to_string(), "c".to_string()], ", "),
        "a, b, c"
    );
}

// --- the form ----------------------------------------------------------------

#[test]
fn the_form_shows_a_host_field_by_field() {
    let h = Host {
        name: "web".into(),
        hostname: "10.0.0.1".into(),
        user: "deploy".into(),
        port: 2222,
        identity_file: Some("~/.ssh/id".into()),
        tags: vec!["prod".into(), "web".into()],
        monitoring: MonitorMode::TcpPort,
        monitor_port: Some(8443),
        file_access: FileAccess::Ftps,
        ..Host::default()
    };
    let form = HostForm::from_host(&h);
    let texts: Vec<&str> = form.fields.iter().map(|f| f.value.as_str()).collect();
    assert_eq!(
        texts,
        ["web", "10.0.0.1", "deploy", "2222", "~/.ssh/id", "", "prod, web", "", "tcp:8443", "ftps"]
    );
    assert!(form.fields.iter().all(|f| f.cursor == f.value.len()));
    assert_eq!(form.fields.len(), FORM_FIELD_COUNT);
    assert_eq!(form_field_label(3), "Port");
    let back = form.to_host(HostSource::Manual).unwrap();
    assert_eq!(back.tags, vec!["prod", "web"]);
    assert_eq!(back.port, 2222);
    assert_eq!(back.monitor_port, Some(8443));
    assert_eq!(back.file_access, FileAccess::Ftps);
}

#[test]
fn the_form_reports_the_first_problem_with_its_message() {
    let mut form = HostForm::empty();
    form.fields[0] = FormField::with_value("n");
    form.fields[1] = FormField::with_value("h");
    form.fields[3] = FormField::with_value(" 0 ");
    form.fields[8] = FormField::with_value("http");
    assert_eq!(
        form.to_host(HostSource::Manual).unwrap_err(),
        "Port must be a number between 1 and 65535, got '0'"
    );
    form.fields[3] = FormField::with_value(" +22 ");
    assert_eq!(
        form.to_host(HostSource::Manual).unwrap_err(),
        "Monitoring must be 'ssh', 'tcp' or 'tcp:PORT', got 'http'"
    );
    form.fields[8] = FormField::with_value("tcp");
    form.fields[9] = FormField::with_value("scp");
    assert_eq!(
        form.to_host(HostSource::Manual).unwrap_err(),
        "File Access must be 'sftp', 'ftp', 'ftps' or 'none', got 'scp'"
    );
    form.fields[9] = FormField::with_value("none");
    let h = form.to_host(HostSource::Manual).unwrap();
    assert_eq!(h.port, 22);
    assert_eq!(h.file_access, FileAccess::Disabled);
    form.fields[1] = FormField::with_value(" ");
    assert_eq!(
        form.to_host(HostSource::Manual).unwrap_err(),
        "Hostname / IP cannot be empty"
    );
    form.fields[0] = FormField::with_value("");
    assert_eq!(form.to_host(HostSource::Manual).unwrap_err(), "Name cannot be empty");
}

#[test]
fn monitoring_and_file_access_parse_exactly() {
    assert_eq!(parse_monitoring("tcp:+80"), Ok((MonitorMode::TcpPort, Some(80))));
    assert!(parse_monitoring(" ssh").is_err());
    assert_eq!(parse_file_access("none"), Ok(FileAccess::Disabled));
    let h = Host {
        monitoring: MonitorMode::Ssh,
        monitor_port: Some(8443),
        ..Host::default()
    };
    // The SSH mode shows no probe port, so the form drops a stale one.
    assert_eq!(monitoring_value(&h), "");
}

#[test]
fn backspace_undoes_typing_a_character() {
    for c in ['a', 'é', '€', '😀'] {
        let mut f = FormField::with_value("aé");
        f.cursor = 1;
        f.insert_char(c);
        f.backspace();
        assert_eq!(f.value, "aé");
        assert_eq!(f.cursor, 1);
    }
}

#[test]
fn backspace_in_the_middle_removes_the_previous_character() {
    let mut f = FormField::with_value("aéb");
    f.cursor = 3;
    f.backspace();
    assert_eq!(f.value, "ab");
    assert_eq!(f.cursor, 1);
}

#[test]
fn focus_wraps_both_ways() {
    let mut form = HostForm::empty();
    form.focus_prev();
    assert_eq!(form.focused_field, FORM_FIELD_COUNT - 1);
    form.focus_next();
    assert_eq!(form.focused_field, 0);
    form.focus_next();
    assert_eq!(form.focused_field, 1);
}

// --- the host list -----------------------------------------------------------

#[test]
fn the_name_sort_is_by_code_point_and_stable() {
    let hosts = vec![host("b"), host("a"), host("B"), host("a")];
    let mut view = HostListView::default();
    view.rebuild_filter(&hosts, &vec![], &vec![]);
    assert_eq!(view.filtered_indices, vec![2, 1, 3, 0]);
    assert_eq!(view.selected_host_idx(), Some(2));
    view.selected = 9;
    assert_eq!(view.selected_host_idx(), None);
}

#[test]
fn equal_statuses_keep_host_order() {
    let hosts = vec![host("a"), host("b"), host("c")];
    let statuses = vec![
        ("c".to_string(), ConnectionStatus::Connected),
        ("a".to_string(), ConnectionStatus::Connected),
    ];
    let mut view = HostListView {
        sort_order: SortOrder::Status,
        ..HostListView::default()
    };
    view.rebuild_filter(&hosts, &vec![], &statuses);
    assert_eq!(view.filtered_indices, vec![0, 2, 1]);
    assert_eq!(status_priority(None), 2);
    assert_eq!(status_priority(Some(&ConnectionStatus::Failed("x".into()))), 3);
}

#[test]
fn the_tag_picker_lists_each_tag_once_in_order() {
    let hosts = [
        Host {
            tags: vec!["web".into(), "prod".into()],
            ..host("a")
        },
        Host {
            tags: vec!["prod".into(), "Db".into()],
            ..host("b")
        },
        host("c"),
    ];
    let mut view = HostListView::default();
    view.rebuild_tags(&hosts);
    assert_eq!(view.available_tags, vec!["Db", "prod", "web"]);
    view.rebuild_tags(&[]);
    assert!(view.available_tags.is_empty());
}

// --- confirming the popups ---------------------------------------------------

#[test]
fn adding_a_host_with_a_password_suggests_key_setup() {
    let mut h = host("web");
    assert_eq!(host_added_message(&h), "Host added.");
    h.password = Some("pw".into());
    assert_eq!(
        host_added_message(&h),
        "Host 'web' added. Press 'Shift+K' to set up SSH key authentication (recommended)."
    );
}

#[test]
fn an_unchanged_edit_keeps_the_pollers_and_the_bastion() {
    let stored = Host {
        user: "deploy".into(),
        proxy_jump: Some("bastion".into()),
        ..host("web")
    };
    let mut hosts = vec![stored.clone(), host("db")];
    let confirmed = HostForm::from_host(&stored)
        .to_host(HostSource::Manual)
        .unwrap();
    let outcome = apply_host_edit(&mut hosts, 0, confirmed);
    assert!(!outcome.restart_pollers);
    assert!(outcome.renamed_from.is_none());
    assert_eq!(hosts[0].proxy_jump.as_deref(), Some("bastion"));
    assert_eq!(hosts[1].name, "db");
}

#[test]
fn editing_an_import_adopts_it_and_renames_report_the_old_name() {
    let import = Host {
        source: HostSource::SshConfig,
        ..host("internal")
    };
    let mut hosts = vec![import];
    let mut edited = host("internal-2");
    edited.source = HostSource::Manual;
    let outcome = apply_host_edit(&mut hosts, 0, edited);
    assert_eq!(hosts[0].original_ssh_host.as_deref(), Some("internal"));
    assert_eq!(outcome.renamed_from.as_deref(), Some("internal"));
    assert!(outcome.restart_pollers);

    let outcome = apply_host_edit(&mut hosts, 5, host("x"));
    assert!(outcome.restart_pollers);
    assert_eq!(hosts.len(), 1);
}

#[test]
fn deleting_by_index_reports_the_name() {
    let mut hosts = vec![host("a"), host("b")];
    assert_eq!(remove_host_at(&mut hosts, 1), Some("Deleted 'b'.".to_string()));
    assert_eq!(remove_host_at(&mut hosts, 1), None);
    assert_eq!(hosts.len(), 1);
}

// --- the manual host list ----------------------------------------------------

#[test]
fn removing_a_saved_name_gives_the_list_without_it() {
    let before = vec![host("a"), host("web"), host("b"), host("web")];
    let mut after = before.clone();
    upsert(&mut after, input("web"), None);
    remove(&mut after, "web");
    let mut expected = before.clone();
    remove(&mut expected, "web");
    assert_eq!(
        after.iter().map(|h| h.name.clone()).collect::<Vec<_>>(),
        expected.iter().map(|h| h.name.clone()).collect::<Vec<_>>()
    );
    assert_eq!(names_of(&after), ["a", "b"]);
}

fn names_of(hosts: &[Host]) -> Vec<&str> {
    hosts.iter().map(|h| h.name.as_str()).collect()
}

#[test]
fn an_edit_changes_only_the_first_host_of_that_name() {
    let mut hosts = vec![host("web"), host("web")];
    let mut edit = input("web");
    edit.hostname = "new.example.com".into();
    upsert(&mut hosts, edit, None);
    assert_eq!(hosts[0].hostname, "new.example.com");
    assert_eq!(hosts[1].hostname, "10.0.0.1");
}

#[test]
fn only_an_import_of_the_name_is_adopted() {
    let cache = vec![
        Host {
            source: HostSource::SshConfig,
            ..host("imp")
        },
        host("man"),
    ];
    assert_eq!(adopted_import(&cache, "imp"), Some(0));
    assert_eq!(adopted_import(&cache, "man"), None);
    assert_eq!(adopted_import(&cache, "zzz"), None);
}

// --- the Files tab -----------------------------------------------------------

#[test]
fn the_local_path_guard_refuses_parent_components_and_nul() {
    assert_eq!(guard_local_path("/tmp/file", "/remote"), Ok(()));
    assert_eq!(guard_local_path("/tmp/..file", "/remote"), Ok(()));
    assert_eq!(
        guard_local_path("../etc/passwd", "/r"),
        Err(PathGuardError::ParentDir("../etc/passwd".to_string()))
    );
    assert_eq!(
        guard_local_path("/tmp/x/..", "/r"),
        Err(PathGuardError::ParentDir("/tmp/x/..".to_string()))
    );
    assert_eq!(
        guard_local_path("C:\\Users\\u\\..\\x", "/r"),
        Err(PathGuardError::ParentDir("C:\\Users\\u\\..\\x".into()))
    );
    assert_eq!(guard_local_path("C:\\Users\\u\\..x", "/r"), Ok(()));
    assert_eq!(guard_local_path("/tmp/a\0b", "/r"), Err(PathGuardError::NulByte));
    assert_eq!(guard_local_path("/tmp/a", "/r\0"), Err(PathGuardError::NulByte));
    assert_eq!(
        PathGuardError::ParentDir("../x".into()).message(),
        "local path contains '..': ../x"
    );
    assert_eq!(PathGuardError::NulByte.message(), "path contains null bytes");
}

#[test]
fn remote_paths_join_with_one_separator() {
    assert_eq!(join_remote("/", "a"), "/a");
    assert_eq!(join_remote("/home/u", "a"), "/home/u/a");
    assert_eq!(join_remote("/home/u/", "a"), "/home/u/a");
    assert_eq!(join_remote("", "a"), "/a");
}

#[test]
fn a_listing_puts_the_parent_first_then_directories_then_files() {
    let raw = vec![
        entry("b.txt", false),
        entry("Zeta", true),
        entry("A.txt", false),
        entry("alpha", true),
        entry("a.TXT", false),
    ];
    let listed = finish_listing("/home/user", raw);
    assert_eq!(names(&listed), ["..", "alpha", "Zeta", "A.txt", "a.TXT", "b.txt"]);
    assert_eq!(listed[0].path, "/home");
    assert!(listed[0].is_dir);
    assert_eq!(listed[0].size, 0);

    let at_root = local_listing("/", vec![entry("x", false)]);
    assert_eq!(names(&at_root), ["x"]);

    let relative = finish_listing("docs", vec![]);
    assert_eq!(relative[0].path, "/");
}

#[test]
fn an_sftp_listing_joins_paths_and_reads_a_missing_size_as_zero() {
    let raw = vec![
        RemoteDirEntry {
            name: "f".into(),
            size: None,
            is_dir: false,
        },
        RemoteDirEntry {
            name: "d".into(),
            size: Some(4096),
            is_dir: true,
        },
    ];
    let listed = sftp_listing("/srv", &raw);
    assert_eq!(names(&listed), ["..", "d", "f"]);
    assert_eq!(listed[1].path, "/srv/d");
    assert_eq!(listed[1].size, 0);
    assert_eq!(listed[2].size, 0);
}

#[test]
fn a_local_listing_shows_a_directory_size_as_zero() {
    let raw = vec![
        FileEntry {
            name: "d".into(),
            path: "/x/d".into(),
            size: 4096,
            is_dir: true,
        },
        FileEntry {
            name: "f".into(),
            path: "/x/f".into(),
            size: 12,
            is_dir: false,
        },
    ];
    let listed = local_listing("/x", raw);
    assert_eq!(names(&listed), ["..", "d", "f"]);
    assert_eq!(listed[1].size, 0);
    assert_eq!(listed[2].size, 12);
}

#[test]
fn an_ftp_listing_skips_dot_entries_and_unparsable_lines() {
    let lines = vec![
        "-rw-r--r-- 1 user group 403 Jan 01 2020 readme.txt".to_string(),
        "drwxr-xr-x 1 user group 4096 Jan 01 2020 pub".to_string(),
        "drwxr-xr-x 1 user group 4096 Jan 01 2020 .".to_string(),
        "type=socket; odd".to_string(),
    ];
    let listed = ftp_listing("/", &lines);
    assert_eq!(names(&listed), ["pub", "readme.txt"]);
    assert_eq!(listed[1].path, "/readme.txt");
    assert_eq!(listed[1].size, 403);
    assert!(listed[0].is_dir);
    assert_eq!(listed[0].size, 0);

    let parsed = vec![
        ListedFile {
            name: "..".into(),
            size: 0,
            is_dir: true,
        },
        ListedFile {
            name: "x".into(),
            size: 3,
            is_dir: false,
        },
    ];
    let listed = ftp_listing_of("/pub", &parsed);
    assert_eq!(names(&listed), ["..", "x"]);
    assert_eq!(listed[0].path, "/");
    assert_eq!(listed[1].path, "/pub/x");
}

#[test]
fn an_ftp_listing_skips_a_line_timed_at_the_leap_second_before_the_epoch() {
    assert!(holds_leap_epoch_time("modify=19691231235960; x"));
    assert!(!holds_leap_epoch_time("modify=20201019151930; x"));
    let lines = vec![
        "modify=19691231235960; x".to_string(),
        "type=file;size=3;modify=20201019151930; y".to_string(),
    ];
    let listed = ftp_listing("/", &lines);
    assert_eq!(names(&listed), ["y"]);
    assert_eq!(listed[0].size, 3);

    let other_1969 = vec!["type=file;size=60;modify=19690101000000; z".to_string()];
    assert!(!holds_leap_epoch_time(&other_1969[0]));
    let listed = ftp_listing("/", &other_1969);
    assert_eq!(names(&listed), ["z"]);
    assert_eq!(listed[0].size, 60);
}

#[test]
fn transfer_steps_count_bytes_until_an_empty_read() {
    assert_eq!(transfer_step(10, 100, 0), TransferStep::Finished);
    assert_eq!(
        transfer_step(10, 100, 5),
        TransferStep::Report { done: 15, total: 100 }
    );
}

#[test]
fn a_preview_keeps_the_bytes_read_and_replaces_invalid_utf8() {
    assert_eq!(PREVIEW_BYTES, 4096);
    assert_eq!(preview_text(b"hello world".to_vec(), 5), "hello");
    assert_eq!(preview_text(vec![b'a', 0xff, b'b'], 3), "a\u{fffd}b");
    assert_eq!(preview_text(b"ab".to_vec(), 10), "ab");
}

#[test]
fn the_files_backend_follows_the_file_access() {
    let mut h = host("nas");
    assert_eq!(choose_backend(&h), Ok(BackendKind::Sftp));
    h.file_access = FileAccess::Ftps;
    assert_eq!(choose_backend(&h), Ok(BackendKind::Ftp { tls: true }));
    h.file_access = FileAccess::Disabled;
    assert_eq!(
        choose_backend(&h),
        Err("'nas' has file access disabled".to_string())
    );
}

#[test]
fn ftp_dials_its_own_port_and_uses_the_overrides() {
    let mut h = Host {
        port: 2222,
        file_access: FileAccess::Ftp,
        ..host("nas")
    };
    let e = ftp_endpoint(&h).unwrap();
    assert_eq!(e.address, format!("10.0.0.1:{FTP_PORT}"));
    assert!(!e.tls);
    h.ftp_port = Some(2121);
    h.file_access = FileAccess::Ftps;
    let e = ftp_endpoint(&h).unwrap();
    assert_eq!(e.address, "10.0.0.1:2121");
    assert_eq!(e.server_name, "10.0.0.1");
    assert!(e.tls);

    assert_eq!(
        ftp_credentials(&h),
        Err(FtpSetupError::NoPassword("nas".to_string()))
    );
    assert_eq!(
        FtpSetupError::NoPassword("nas".into()).message(),
        "host 'nas' has no password set — FTP login needs one (SSH key auth doesn't carry over to FTP)"
    );
    h.password = Some("ssh-pw".into());
    assert_eq!(
        ftp_credentials(&h),
        Ok(("root".to_string(), "ssh-pw".to_string()))
    );
    h.ftp_user = Some("ftpuser".into());
    h.ftp_password = Some("ftppass".into());
    assert_eq!(
        ftp_credentials(&h),
        Ok(("ftpuser".to_string(), "ftppass".to_string()))
    );

    h.file_access = FileAccess::Sftp;
    assert_eq!(ftp_endpoint(&h).unwrap_err(), FtpSetupError::NotFtp);
    assert_eq!(
        FtpSetupError::NotFtp.message(),
        "FtpBackend::connect called for a non-FTP file_access"
    );
}

#[test]
fn only_manual_hosts_are_written_back() {
    let hosts = [
        host("a"),
        Host {
            source: HostSource::SshConfig,
            ..host("b")
        },
        host("c"),
    ];
    assert_eq!(persisted_indices(&hosts), vec![0, 2]);
}

#[test]
fn a_failed_listing_disconnects_and_a_failed_preview_is_silent() {
    match task_event(TaskOutcome::Listed {
        path: "/x".into(),
        result: Err("boom".into()),
    }) {
        Some(TaskEvent::Disconnected { reason }) => assert_eq!(reason, "ListDir failed: boom"),
        _ => panic!("a failed listing must disconnect"),
    }
    assert!(task_event(TaskOutcome::Previewed {
        path: "/x".into(),
        result: Err("no".into()),
    })
    .is_none());
    match task_event(TaskOutcome::Done(Err("denied".into()))) {
        Some(TaskEvent::OpDone { result }) => assert_eq!(result, Err("denied".to_string())),
        _ => panic!("an operation is always reported"),
    }
    match task_event(TaskOutcome::Previewed {
        path: "/x".into(),
        result: Ok("text".into()),
    }) {
        Some(TaskEvent::PreviewReady { path, content }) => {
            assert_eq!(path, "/x");
            assert_eq!(content, "text");
        }
        _ => panic!("a preview is reported"),
    }
}

// --- the transfer task's steps --------------------------------------------

#[test]
fn the_transfer_task_makes_the_call_a_command_asks_for_until_disconnect() {
    let (state, call) = task_step(TaskState::Running, SftpCommand::MkDir("/d".into()));
    assert_eq!(state, TaskState::Running);
    assert!(matches!(call, Some(BackendCall::MkDir(p)) if p == "/d"));
    let (state, call) = task_step(
        TaskState::Running,
        SftpCommand::Rename {
            from: "/a".into(),
            to: "/b".into(),
        },
    );
    assert_eq!(state, TaskState::Running);
    assert!(matches!(call, Some(BackendCall::Rename { from, to }) if from == "/a" && to == "/b"));
    let (state, call) = task_step(TaskState::Running, SftpCommand::Disconnect);
    assert_eq!(state, TaskState::Stopped);
    assert!(call.is_none());
    let (state, call) = task_step(TaskState::Stopped, SftpCommand::ListDir("/".into()));
    assert_eq!(state, TaskState::Stopped);
    assert!(call.is_none());
}

// --- confirming the host popups ------------------------------------------------

fn filled_form(name: &str, hostname: &str, password: &str) -> HostForm {
    let mut form = HostForm::empty();
    form.fields[0] = FormField::with_value(name);
    form.fields[1] = FormField::with_value(hostname);
    form.fields[5] = FormField::with_value(password);
    form
}

#[test]
fn confirming_a_valid_add_form_appends_the_host() {
    let mut hosts = vec![host("a")];
    let r = confirm_host_form(Some(HostPopup::Add(filled_form("web", "10.0.0.9", ""))), &mut hosts);
    assert_eq!(hosts.len(), 2);
    assert_eq!(hosts[1].name, "web");
    assert!(r.popup.is_none());
    assert_eq!(r.status.as_deref(), Some("Host added."));
    assert!(r.stored && r.restart_pollers);

    let r = confirm_host_form(Some(HostPopup::Add(filled_form("db", "10.0.0.8", "pw"))), &mut hosts);
    assert_eq!(
        r.status.as_deref(),
        Some("Host 'db' added. Press 'Shift+K' to set up SSH key authentication (recommended).")
    );
}

#[test]
fn confirming_a_refused_form_shows_it_again_with_the_error() {
    let mut hosts = vec![host("a")];
    let r = confirm_host_form(Some(HostPopup::Add(filled_form("", "10.0.0.9", ""))), &mut hosts);
    assert_eq!(hosts.len(), 1);
    assert!(matches!(r.popup, Some(HostPopup::Add(_))));
    assert_eq!(r.status.as_deref(), Some("Error: Name cannot be empty"));
    assert!(!r.stored && !r.restart_pollers);

    let r = confirm_host_form(
        Some(HostPopup::Edit {
            host_idx: 0,
            form: filled_form("a", "", ""),
        }),
        &mut hosts,
    );
    assert!(matches!(r.popup, Some(HostPopup::Edit { host_idx: 0, .. })));
    assert_eq!(r.status.as_deref(), Some("Error: Hostname / IP cannot be empty"));
    assert_eq!(hosts[0].hostname, "10.0.0.1");
}

#[test]
fn confirming_an_edit_form_stores_the_host_and_reports_a_rename() {
    let mut hosts = vec![host("a"), host("b")];
    let r = confirm_host_form(
        Some(HostPopup::Edit {
            host_idx: 1,
            form: filled_form("c", "10.0.0.1", ""),
        }),
        &mut hosts,
    );
    assert_eq!(hosts[1].name, "c");
    assert_eq!(hosts[0].name, "a");
    assert_eq!(r.status.as_deref(), Some("Host updated."));
    assert_eq!(r.renamed_from.as_deref(), Some("b"));
    assert!(r.stored && r.restart_pollers);
}

#[test]
fn confirming_a_popup_that_is_no_form_leaves_it() {
    let mut hosts = vec![host("a")];
    let r = confirm_host_form(Some(HostPopup::DeleteConfirm(0)), &mut hosts);
    assert!(matches!(r.popup, Some(HostPopup::DeleteConfirm(0))));
    assert!(r.status.is_none() && !r.stored);
    assert_eq!(hosts.len(), 1);
}

#[test]
fn a_rename_moves_the_entry_to_the_new_name() {
    let mut table = vec![("old".to_string(), 1u64), ("new".to_string(), 2u64), ("x".to_string(), 3u64)];
    move_entry(&mut table, &"old".to_string(), &"new".to_string());
    let get = |t: &Vec<(String, u64)>, k: &str| t.iter().find(|e| e.0 == k).map(|e| e.1);
    assert_eq!(get(&table, "new"), Some(1));
    assert_eq!(get(&table, "old"), None);
    assert_eq!(get(&table, "x"), Some(3));

    let mut table = vec![("x".to_string(), 3u64)];
    move_entry(&mut table, &"old".to_string(), &"new".to_string());
    assert_eq!(table, vec![("x".to_string(), 3u64)]);
}

#[test]
fn a_longer_query_never_matches_more_hosts() {
    let hosts = vec![host("web-1"), host("Web-2"), host("db")];
    let all = filter_hosts(&hosts, "");
    let web = filter_hosts(&hosts, "we");
    let web1 = filter_hosts(&hosts, "WEB-1");
    assert_eq!(all, vec![0, 1, 2]);
    assert_eq!(web, vec![0, 1]);
    assert_eq!(web1, vec![0]);
    assert!(web1.iter().all(|i| web.contains(i)));
    assert!(web.iter().all(|i| all.contains(i)));
}
