use omnyssh::client::{FileAccess, Host, HostSource, MonitorMode};
use omnyssh::hosts::{remove, upsert, FileAccessDto, HostInputDto, MonitorModeDto};

fn input(name: &str) -> HostInputDto {
    HostInputDto {
        name: name.to_string(),
        hostname: "example.com".to_string(),
        user: "root".to_string(),
        port: 22,
        identity_file: None,
        password: None,
        proxy_jump: None,
        tags: vec![],
        notes: None,
        monitoring: None,
        monitor_port: None,
        file_access: None,
        ftp_user: None,
        ftp_password: None,
        ftp_port: None,
        ftp_active: false,
    }
}

#[test]
fn upsert_appends_a_new_manual_host() {
    let mut hosts = vec![];
    upsert(&mut hosts, input("web"), None);
    assert_eq!(hosts.len(), 1);
    assert_eq!(hosts[0].name, "web");
    assert_eq!(hosts[0].source, HostSource::Manual);
}

#[test]
fn upsert_replaces_editable_fields_in_place() {
    let mut hosts = vec![Host {
        name: "web".to_string(),
        hostname: "old.example.com".to_string(),
        notes: Some("old".to_string()),
        source: HostSource::Manual,
        ..Host::default()
    }];
    let mut edit = input("web");
    edit.hostname = "new.example.com".to_string();
    edit.notes = Some("new".to_string());
    upsert(&mut hosts, edit, None);
    assert_eq!(hosts.len(), 1, "edit is in-place, not an append");
    assert_eq!(hosts[0].hostname, "new.example.com");
    assert_eq!(hosts[0].notes.as_deref(), Some("new"));
}

#[test]
fn upsert_preserves_secrets_and_metadata_the_form_cannot_see() {
    // The edit form is seeded from `HostDto`, which omits password/identity/proxy
    // (§3.4); a blank submission must not wipe them, nor the key-setup metadata.
    let mut hosts = vec![Host {
        name: "web".to_string(),
        password: Some("keep-me".to_string()),
        identity_file: Some("/keys/id".to_string()),
        proxy_jump: Some("bastion".to_string()),
        key_setup_date: Some("2026-01-01".to_string()),
        password_auth_disabled: Some(true),
        original_ssh_host: Some("web-old".to_string()),
        source: HostSource::Manual,
        ..Host::default()
    }];
    upsert(&mut hosts, input("web"), None);
    let h = &hosts[0];
    assert_eq!(h.password.as_deref(), Some("keep-me"));
    assert_eq!(h.identity_file.as_deref(), Some("/keys/id"));
    assert_eq!(h.proxy_jump.as_deref(), Some("bastion"));
    assert_eq!(h.key_setup_date.as_deref(), Some("2026-01-01"));
    assert_eq!(h.password_auth_disabled, Some(true));
    assert_eq!(h.original_ssh_host.as_deref(), Some("web-old"));
}

#[test]
fn adopting_an_ssh_config_host_keeps_its_bastion_and_key() {
    // Editing an import writes a manual copy. `HostDto` carries neither `proxyJump`
    // nor the identity path (§3.4), so the form submits both blank — dropping them
    // would leave the copy dialling the target address direct.
    let imported = Host {
        name: "internal".to_string(),
        hostname: "10.0.0.9".to_string(),
        proxy_jump: Some("public-proxy".to_string()),
        identity_file: Some("/keys/id_ed25519".to_string()),
        source: HostSource::SshConfig,
        ..Host::default()
    };
    let mut hosts = vec![];
    let mut edit = input("internal");
    edit.notes = Some("adopted".to_string());
    upsert(&mut hosts, edit, Some(imported));

    assert_eq!(hosts.len(), 1);
    let h = &hosts[0];
    assert_eq!(
        h.source,
        HostSource::Manual,
        "the copy is what hosts.toml holds"
    );
    assert_eq!(h.proxy_jump.as_deref(), Some("public-proxy"));
    assert_eq!(h.identity_file.as_deref(), Some("/keys/id_ed25519"));
    assert_eq!(h.notes.as_deref(), Some("adopted"));
    assert_eq!(
        h.original_ssh_host.as_deref(),
        Some("internal"),
        "the copy records which import it shadows, so a later rename still hides it"
    );
}

#[test]
fn an_explicit_identity_wins_over_the_imported_one() {
    let imported = Host {
        name: "internal".to_string(),
        identity_file: Some("/keys/from-ssh-config".to_string()),
        source: HostSource::SshConfig,
        ..Host::default()
    };
    let mut hosts = vec![];
    let mut edit = input("internal");
    edit.identity_file = Some("/keys/typed-by-hand".to_string());
    upsert(&mut hosts, edit, Some(imported));
    assert_eq!(
        hosts[0].identity_file.as_deref(),
        Some("/keys/typed-by-hand")
    );
}

#[test]
fn upsert_keeps_a_monitoring_mode_the_payload_left_out() {
    let mut hosts = vec![Host {
        name: "fw".to_string(),
        monitoring: MonitorMode::TcpPort,
        monitor_port: Some(8443),
        source: HostSource::Manual,
        ..Host::default()
    }];

    upsert(&mut hosts, input("fw"), None);

    // Silently reverting to SSH would start logging in to a device the user
    // deliberately put on a reachability probe.
    assert_eq!(hosts[0].monitoring, MonitorMode::TcpPort);
    assert_eq!(hosts[0].monitor_port, Some(8443));
}

#[test]
fn upsert_applies_a_monitoring_mode_the_payload_carries() {
    let mut hosts = vec![Host {
        name: "fw".to_string(),
        monitoring: MonitorMode::TcpPort,
        monitor_port: Some(8443),
        source: HostSource::Manual,
        ..Host::default()
    }];

    let mut back_to_ssh = input("fw");
    back_to_ssh.monitoring = Some(MonitorModeDto::Ssh);
    upsert(&mut hosts, back_to_ssh, None);

    assert_eq!(hosts[0].monitoring, MonitorMode::Ssh);
}

#[test]
fn upsert_keeps_a_file_access_the_payload_left_out() {
    
    let mut hosts = vec![Host {
        name: "nas".to_string(),
        file_access: FileAccess::Ftp,
        source: HostSource::Manual,
        ..Host::default()
    }];

    upsert(&mut hosts, input("nas"), None);

    // Silently reverting to SFTP would break the Files tab on a device that
    // likely has no SFTP subsystem — the whole reason the field was set.
    assert_eq!(hosts[0].file_access, FileAccess::Ftp);
}

#[test]
fn upsert_applies_a_file_access_the_payload_carries() {
        
    let mut hosts = vec![Host {
        name: "nas".to_string(),
        file_access: FileAccess::Ftp,
        source: HostSource::Manual,
        ..Host::default()
    }];

    let mut back_to_sftp = input("nas");
    back_to_sftp.file_access = Some(FileAccessDto::Sftp);
    upsert(&mut hosts, back_to_sftp, None);

    assert_eq!(hosts[0].file_access, FileAccess::Sftp);
}

#[test]
fn upsert_overwrites_a_secret_when_a_new_one_is_provided() {
    let mut hosts = vec![Host {
        name: "web".to_string(),
        password: Some("old".to_string()),
        source: HostSource::Manual,
        ..Host::default()
    }];
    let mut edit = input("web");
    edit.password = Some("rotated".to_string());
    upsert(&mut hosts, edit, None);
    assert_eq!(hosts[0].password.as_deref(), Some("rotated"));
}

#[test]
fn upsert_keeps_the_ftp_password_the_form_left_blank() {
    let mut hosts = vec![Host {
        name: "nas".to_string(),
        ftp_password: Some("ftp-secret".to_string()),
        source: HostSource::Manual,
        ..Host::default()
    }];
    upsert(&mut hosts, input("nas"), None);
    assert_eq!(hosts[0].ftp_password.as_deref(), Some("ftp-secret"));
}

#[test]
fn upsert_overwrites_the_ftp_password_when_a_new_one_is_provided() {
    let mut hosts = vec![Host {
        name: "nas".to_string(),
        ftp_password: Some("old".to_string()),
        source: HostSource::Manual,
        ..Host::default()
    }];
    let mut edit = input("nas");
    edit.ftp_password = Some("rotated".to_string());
    upsert(&mut hosts, edit, None);
    assert_eq!(hosts[0].ftp_password.as_deref(), Some("rotated"));
}

#[test]
fn remove_drops_only_the_named_host() {
    let mut hosts = vec![
        Host {
            name: "a".to_string(),
            ..Host::default()
        },
        Host {
            name: "b".to_string(),
            ..Host::default()
        },
    ];
    remove(&mut hosts, "a");
    assert_eq!(hosts.len(), 1);
    assert_eq!(hosts[0].name, "b");
}

#[test]
fn remove_is_a_no_op_for_a_missing_name() {
    // An SSH-config name (absent from hosts.toml) or an already-gone one changes
    // nothing — the desired end state already holds (tech-gui.md §4.2).
    let mut hosts = vec![Host {
        name: "a".to_string(),
        ..Host::default()
    }];
    remove(&mut hosts, "ghost");
    assert_eq!(hosts.len(), 1);
    assert_eq!(hosts[0].name, "a");
}
