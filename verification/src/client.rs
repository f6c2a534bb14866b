//! Host records: where a host came from, how it is watched, how its Files
//! tab connects, and the record itself.
use vstd::prelude::*;

verus! {

/// Indicates where a host entry originated.
#[derive(Debug, Clone, Copy, PartialEq, Eq, Structural)]
pub enum HostSource {
    /// Imported from `~/.ssh/config` at startup.
    SshConfig,
    /// Added manually through the TUI form.
    Manual,
}

impl Default for HostSource {
    fn default() -> (r: Self)
        ensures
            r == HostSource::Manual,
    {
        HostSource::Manual
    }
}

/// How a host is watched on the dashboard.
#[derive(Debug, Clone, Copy, PartialEq, Eq, Structural)]
pub enum MonitorMode {
    /// A live SSH session with shell metrics — the default.
    Ssh,
    /// A plain TCP connect, with no login. For devices that answer SSH but have
    /// no POSIX shell to collect metrics from, such as network appliances.
    TcpPort,
}

impl Default for MonitorMode {
    fn default() -> (r: Self)
        ensures
            r == MonitorMode::Ssh,
    {
        MonitorMode::Ssh
    }
}

impl MonitorMode {
    /// Whether this is the default mode, which stays out of `hosts.toml`.
    pub fn is_ssh(&self) -> (r: bool)
        ensures
            r == (*self == MonitorMode::Ssh),
    {
        match self {
            MonitorMode::Ssh => true,
            MonitorMode::TcpPort => false,
        }
    }
}

/// How a host's Files tab connects for file transfer.
///
/// Independent of the shell connection: some devices (routers, NAS boxes,
/// embedded Linux) answer SSH for a shell but have no SFTP subsystem, and
/// only expose plain FTP for file access.
#[derive(Debug, Clone, Copy, PartialEq, Eq, Structural)]
pub enum FileAccess {
    /// SFTP over the same SSH connection used for the shell — the default.
    Sftp,
    /// Plain FTP.
    Ftp,
    /// FTP with explicit TLS (`AUTH TLS`, RFC 4217). Implicit FTPS (port 990)
    /// is deprecated and not supported.
    Ftps,
    /// No file transfer for this host; the Files tab is disabled.
    Disabled,
}

impl Default for FileAccess {
    fn default() -> (r: Self)
        ensures
            r == FileAccess::Sftp,
    {
        FileAccess::Sftp
    }
}

impl FileAccess {
    /// Whether this is the default protocol, which stays out of `hosts.toml`.
    pub fn is_sftp(&self) -> (r: bool)
        ensures
            r == (*self == FileAccess::Sftp),
    {
        match self {
            FileAccess::Sftp => true,
            _ => false,
        }
    }
}

/// A single host entry used for SSH connections.
///
/// Populated either from `~/.ssh/config` or from the manual host list
/// (entries added through the form).
#[derive(Debug, Clone)]
pub struct Host {
    /// Display name / alias (e.g. `"web-prod-1"`).
    pub name: String,
    /// Hostname or IP address to connect to.
    pub hostname: String,
    /// SSH user.
    pub user: String,
    /// SSH port. Defaults to `22` when not specified.
    pub port: u16,
    /// Path to the private key file (e.g. `~/.ssh/id_ed25519`).
    pub identity_file: Option<String>,
    /// Password for password-based authentication.
    pub password: Option<String>,
    /// ProxyJump host alias (for bastion / jump-host setups).
    pub proxy_jump: Option<String>,
    /// Organisational tags (e.g. `["production", "web"]`).
    pub tags: Vec<String>,
    /// Free-text notes about this host.
    pub notes: Option<String>,
    /// Where this entry came from.
    pub source: HostSource,
    /// Original host name from `~/.ssh/config` if this host was renamed.
    /// Used to prevent duplicate entries when a SSH-config host is renamed.
    pub original_ssh_host: Option<String>,
    /// How this host is watched.
    pub monitoring: MonitorMode,
    /// Port for the reachability probe. Falls back to `port` when unset.
    pub monitor_port: Option<u16>,
    /// How the Files tab connects for this host.
    pub file_access: FileAccess,
    /// FTP login override — only consulted when `file_access` is `Ftp`/`Ftps`.
    /// Falls back to `user` when unset.
    pub ftp_user: Option<String>,
    /// FTP password override. Falls back to `password` when unset; FTP still
    /// requires *some* password even then, since SSH key auth has no FTP
    /// equivalent.
    pub ftp_password: Option<String>,
    /// FTP port override. Falls back to the standard FTP port (21) when
    /// unset — never to `port`, which is the SSH port.
    pub ftp_port: Option<u16>,
    /// Date when an SSH key was configured for this host (ISO 8601 format).
    pub key_setup_date: Option<String>,
    /// Whether password authentication has been disabled on the server.
    pub password_auth_disabled: Option<bool>,
}

/// The SSH port used when none is given.
pub fn default_port() -> (p: u16)
    ensures
        p == 22,
{
    22
}

/// The login used when a host names none: `"root"`.
pub fn default_user() -> (r: String)
    ensures
        r@ == "root"@,
{
    "root".to_owned()
}

impl Host {
    /// A host with no name or address, the given login and every other field
    /// at its default.
    pub fn default_for_user(user: String) -> (h: Host)
        ensures
            h.name@ == Seq::<char>::empty(),
            h.hostname@ == Seq::<char>::empty(),
            h.user == user,
            h.port == 22,
            h.identity_file is None,
            h.password is None,
            h.proxy_jump is None,
            h.tags@.len() == 0,
            h.notes is None,
            h.source == HostSource::Manual,
            h.original_ssh_host is None,
            h.monitoring == MonitorMode::Ssh,
            h.monitor_port is None,
            h.file_access == FileAccess::Sftp,
            h.ftp_user is None,
            h.ftp_password is None,
            h.ftp_port is None,
            h.key_setup_date is None,
            h.password_auth_disabled is None,
    {
        Host {
            name: String::new(),
            hostname: String::new(),
            user,
            port: default_port(),
            identity_file: None,
            password: None,
            proxy_jump: None,
            tags: Vec::new(),
            notes: None,
            source: HostSource::Manual,
            original_ssh_host: None,
            monitoring: MonitorMode::Ssh,
            monitor_port: None,
            file_access: FileAccess::Sftp,
            ftp_user: None,
            ftp_password: None,
            ftp_port: None,
            key_setup_date: None,
            password_auth_disabled: None,
        }
    }
}

impl Default for Host {
    /// The default host: no name or address, the login `"root"`.
    fn default() -> (h: Self)
        ensures
            h.name@ == Seq::<char>::empty(),
            h.hostname@ == Seq::<char>::empty(),
            h.user@ == "root"@,
            h.port == 22,
            h.identity_file is None,
            h.password is None,
            h.proxy_jump is None,
            h.tags@.len() == 0,
            h.notes is None,
            h.source == HostSource::Manual,
            h.original_ssh_host is None,
            h.monitoring == MonitorMode::Ssh,
            h.monitor_port is None,
            h.file_access == FileAccess::Sftp,
            h.ftp_user is None,
            h.ftp_password is None,
            h.ftp_port is None,
            h.key_setup_date is None,
            h.password_auth_disabled is None,
    {
        Host::default_for_user(default_user())
    }
}

/// Runtime connection status for a host. Never serialised to disk.
#[derive(Debug, Clone, PartialEq)]
pub enum ConnectionStatus {
    /// No connection attempt has been made yet.
    Unknown,
    /// A connection attempt is currently in progress.
    Connecting,
    /// The host is connected.
    Connected,
    /// The last connection attempt failed with the given message.
    Failed(String),
}

impl Default for ConnectionStatus {
    fn default() -> (r: Self)
        ensures
            r == ConnectionStatus::Unknown,
    {
        ConnectionStatus::Unknown
    }
}

} // verus!
