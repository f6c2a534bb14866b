//! Editing the manual host list from the desktop editor: adding, editing
//! (without losing what the editor cannot show) and deleting hosts by name.
use crate::client::{FileAccess, Host, HostSource, MonitorMode};
use crate::text::{copy_opt, copy_string, opt_view, views};
use vstd::prelude::*;

verus! {

/// The monitoring mode as the editor sends it.
#[derive(Debug, Clone, Copy, PartialEq, Eq, Structural)]
pub enum MonitorModeDto {
    Ssh,
    TcpPort,
}

/// The file-access protocol as the editor sends it.
#[derive(Debug, Clone, Copy, PartialEq, Eq, Structural)]
pub enum FileAccessDto {
    Sftp,
    Ftp,
    Ftps,
    /// No file transfer for this host.
    Disabled,
}

/// What the editor sends when a host is saved. Secrets and the bastion are
/// never shown to the editor, so it sends them only when the user typed new
/// ones; an omitted monitoring mode or file access means "unchanged".
#[derive(Debug, Clone)]
pub struct HostInputDto {
    pub name: String,
    pub hostname: String,
    pub user: String,
    pub port: u16,
    pub identity_file: Option<String>,
    pub password: Option<String>,
    pub proxy_jump: Option<String>,
    pub tags: Vec<String>,
    pub notes: Option<String>,
    pub monitoring: Option<MonitorModeDto>,
    pub monitor_port: Option<u16>,
    pub file_access: Option<FileAccessDto>,
    pub ftp_user: Option<String>,
    pub ftp_password: Option<String>,
    pub ftp_port: Option<u16>,
    /// Whether FTP transfers use active mode. No host field records it.
    pub ftp_active: bool,
}

/// The monitoring mode a sent value names.
pub open spec fn monitor_mode_of(m: MonitorModeDto) -> MonitorMode {
    match m {
        MonitorModeDto::Ssh => MonitorMode::Ssh,
        MonitorModeDto::TcpPort => MonitorMode::TcpPort,
    }
}

/// The file-access protocol a sent value names.
pub open spec fn file_access_of(a: FileAccessDto) -> FileAccess {
    match a {
        FileAccessDto::Sftp => FileAccess::Sftp,
        FileAccessDto::Ftp => FileAccess::Ftp,
        FileAccessDto::Ftps => FileAccess::Ftps,
        FileAccessDto::Disabled => FileAccess::Disabled,
    }
}

/// Whether `h` is the manual host that `input` describes on its own: every
/// sent field taken over, an omitted mode or protocol at its default, no
/// rename origin and no key-setup record.
pub open spec fn is_input_host(input: HostInputDto, h: Host) -> bool {
    &&& h.name@ == input.name@
    &&& h.hostname@ == input.hostname@
    &&& h.user@ == input.user@
    &&& h.port == input.port
    &&& opt_view(h.identity_file) == opt_view(input.identity_file)
    &&& opt_view(h.password) == opt_view(input.password)
    &&& opt_view(h.proxy_jump) == opt_view(input.proxy_jump)
    &&& views(h.tags@) == views(input.tags@)
    &&& opt_view(h.notes) == opt_view(input.notes)
    &&& h.source == HostSource::Manual
    &&& h.original_ssh_host is None
    &&& h.monitoring == (match input.monitoring {
        Some(m) => monitor_mode_of(m),
        None => MonitorMode::Ssh,
    })
    &&& h.monitor_port == input.monitor_port
    &&& h.file_access == (match input.file_access {
        Some(a) => file_access_of(a),
        None => FileAccess::Sftp,
    })
    &&& opt_view(h.ftp_user) == opt_view(input.ftp_user)
    &&& opt_view(h.ftp_password) == opt_view(input.ftp_password)
    &&& h.ftp_port == input.ftp_port
    &&& h.key_setup_date is None
    &&& h.password_auth_disabled is None
}

impl HostInputDto {
    /// The manual host this input describes on its own.
    pub fn into_host(self) -> (h: Host)
        ensures
            is_input_host(self, h),
    {
        let monitoring = match self.monitoring {
            Some(MonitorModeDto::Ssh) => MonitorMode::Ssh,
            Some(MonitorModeDto::TcpPort) => MonitorMode::TcpPort,
            None => MonitorMode::Ssh,
        };
        let file_access = match self.file_access {
            Some(FileAccessDto::Sftp) => FileAccess::Sftp,
            Some(FileAccessDto::Ftp) => FileAccess::Ftp,
            Some(FileAccessDto::Ftps) => FileAccess::Ftps,
            Some(FileAccessDto::Disabled) => FileAccess::Disabled,
            None => FileAccess::Sftp,
        };
        Host {
            name: self.name,
            hostname: self.hostname,
            user: self.user,
            port: self.port,
            identity_file: self.identity_file,
            password: self.password,
            proxy_jump: self.proxy_jump,
            tags: self.tags,
            notes: self.notes,
            source: HostSource::Manual,
            original_ssh_host: None,
            monitoring,
            monitor_port: self.monitor_port,
            file_access,
            ftp_user: self.ftp_user,
            ftp_password: self.ftp_password,
            ftp_port: self.ftp_port,
            key_setup_date: None,
            password_auth_disabled: None,
        }
    }
}

/// The position in `cache` of the `~/.ssh/config` import that a save of
/// `name` adopts: the first host named `name`, when it is an import.
pub fn adopted_import(cache: &Vec<Host>, name: &str) -> (r: Option<usize>)
    ensures
        match r {
            Some(i) => i < cache@.len() && first_named(cache@, name@) == Some(i as int)
                && cache@[i as int].source == HostSource::SshConfig,
            None => match first_named(cache@, name@) {
                Some(i) => cache@[i].source != HostSource::SshConfig,
                None => true,
            },
        },
{
    let target = name.to_owned();
    match find_named(cache, &target) {
        Some(i) => {
            if cache[i].source == HostSource::SshConfig {
                Some(i)
            } else {
                None
            }
        },
        None => None,
    }
}

/// `a`, or `b` when `a` is unset (`Option::or`).
pub open spec fn or_view(a: Option<String>, b: Option<String>) -> Option<Seq<char>> {
    match a {
        Some(x) => Some(x@),
        None => opt_view(b),
    }
}

/// The position of the first host named `name`.
pub open spec fn first_named(hosts: Seq<Host>, name: Seq<char>) -> Option<int> {
    if exists|i: int| 0 <= i < hosts.len() && (#[trigger] hosts[i]).name@ == name {
        Some(
            choose|i: int|
                0 <= i < hosts.len() && (#[trigger] hosts[i]).name@ == name && forall|j: int|
                    0 <= j < i ==> (#[trigger] hosts[j]).name@ != name,
        )
    } else {
        None
    }
}

/// Whether `h` is what an edit sent as `input` makes of the stored host
/// `existing`: every field the editor shows comes from the input; a mode or
/// protocol the input left out, a secret, key path or bastion it left blank,
/// the key-setup record and the rename origin all stay as they were.
pub open spec fn is_edited_host(input: HostInputDto, existing: Host, h: Host) -> bool {
    &&& h.name@ == input.name@
    &&& h.hostname@ == input.hostname@
    &&& h.user@ == input.user@
    &&& h.port == input.port
    &&& views(h.tags@) == views(input.tags@)
    &&& opt_view(h.notes) == opt_view(input.notes)
    &&& h.source == HostSource::Manual
    &&& opt_view(h.ftp_user) == opt_view(input.ftp_user)
    &&& h.ftp_port == input.ftp_port
    &&& (h.monitoring, h.monitor_port) == (match input.monitoring {
        Some(m) => (monitor_mode_of(m), input.monitor_port),
        None => (existing.monitoring, existing.monitor_port),
    })
    &&& h.file_access == (match input.file_access {
        Some(a) => file_access_of(a),
        None => existing.file_access,
    })
    &&& opt_view(h.password) == or_view(input.password, existing.password)
    &&& opt_view(h.ftp_password) == or_view(input.ftp_password, existing.ftp_password)
    &&& opt_view(h.identity_file) == or_view(input.identity_file, existing.identity_file)
    &&& opt_view(h.proxy_jump) == or_view(input.proxy_jump, existing.proxy_jump)
    &&& opt_view(h.key_setup_date) == opt_view(existing.key_setup_date)
    &&& h.password_auth_disabled == existing.password_auth_disabled
    &&& opt_view(h.original_ssh_host) == opt_view(existing.original_ssh_host)
}

/// Whether `h` is what a first save sent as `input` makes of a host: the
/// input on its own, plus — when it adopts the `~/.ssh/config` import
/// `imported` — the import's bastion and key where the input has none, and
/// the import's name as rename origin.
pub open spec fn is_added_host(input: HostInputDto, imported: Option<Host>, h: Host) -> bool {
    match imported {
        None => is_input_host(input, h),
        Some(imp) => {
            &&& h.name@ == input.name@
            &&& h.hostname@ == input.hostname@
            &&& h.user@ == input.user@
            &&& h.port == input.port
            &&& opt_view(h.password) == opt_view(input.password)
            &&& views(h.tags@) == views(input.tags@)
            &&& opt_view(h.notes) == opt_view(input.notes)
            &&& h.source == HostSource::Manual
            &&& h.monitoring == (match input.monitoring {
                Some(m) => monitor_mode_of(m),
                None => MonitorMode::Ssh,
            })
            &&& h.monitor_port == input.monitor_port
            &&& h.file_access == (match input.file_access {
                Some(a) => file_access_of(a),
                None => FileAccess::Sftp,
            })
            &&& opt_view(h.ftp_user) == opt_view(input.ftp_user)
            &&& opt_view(h.ftp_password) == opt_view(input.ftp_password)
            &&& h.ftp_port == input.ftp_port
            &&& h.key_setup_date is None
            &&& h.password_auth_disabled is None
            &&& opt_view(h.proxy_jump) == or_view(input.proxy_jump, imp.proxy_jump)
            &&& opt_view(h.identity_file) == or_view(input.identity_file, imp.identity_file)
            &&& opt_view(h.original_ssh_host) == Some(input.name@)
        },
    }
}

proof fn lemma_least_named(hosts: Seq<Host>, name: Seq<char>, k: int)
    requires
        0 <= k < hosts.len(),
        hosts[k].name@ == name,
    ensures
        exists|m: int|
            0 <= m < hosts.len() && (#[trigger] hosts[m]).name@ == name && forall|j: int|
                0 <= j < m ==> (#[trigger] hosts[j]).name@ != name,
    decreases k,
{
    if exists|j: int| 0 <= j < k && (#[trigger] hosts[j]).name@ == name {
        let j = choose|j: int| 0 <= j < k && (#[trigger] hosts[j]).name@ == name;
        lemma_least_named(hosts, name, j);
    } else {
        assert(forall|j: int| 0 <= j < k ==> (#[trigger] hosts[j]).name@ != name);
    }
}

/// The first host with a name is named so, and no earlier one is; there is
/// one whenever some host has the name.
pub proof fn lemma_first_named(hosts: Seq<Host>, name: Seq<char>)
    ensures
        match first_named(hosts, name) {
            Some(i) => 0 <= i < hosts.len() && hosts[i].name@ == name && forall|j: int|
                0 <= j < i ==> (#[trigger] hosts[j]).name@ != name,
            None => forall|j: int| 0 <= j < hosts.len() ==> (#[trigger] hosts[j]).name@ != name,
        },
{
    if exists|i: int| 0 <= i < hosts.len() && (#[trigger] hosts[i]).name@ == name {
        let k = choose|i: int| 0 <= i < hosts.len() && (#[trigger] hosts[i]).name@ == name;
        lemma_least_named(hosts, name, k);
    }
}

fn or_copy(a: Option<String>, b: &Option<String>) -> (r: Option<String>)
    ensures
        opt_view(r) == or_view(a, *b),
{
    match a {
        Some(x) => Some(x),
        None => copy_opt(b),
    }
}

fn find_named(hosts: &Vec<Host>, name: &String) -> (r: Option<usize>)
    ensures
        match r {
            Some(i) => i < hosts@.len() && first_named(hosts@, name@) == Some(i as int),
            None => first_named(hosts@, name@) is None,
        },
{
    let mut i: usize = 0;
    while i < hosts.len()
        invariant
            i <= hosts.len(),
            forall|j: int| 0 <= j < i ==> (#[trigger] hosts@[j]).name@ != name@,
        decreases hosts.len() - i,
    {
        if hosts[i].name.eq(name) {
            proof {
                let c = choose|k: int|
                    0 <= k < hosts@.len() && (#[trigger] hosts@[k]).name@ == name@ && forall|j: int|
                        0 <= j < k ==> (#[trigger] hosts@[j]).name@ != name@;
                assert(0 <= i < hosts@.len() && hosts@[i as int].name@ == name@ && forall|j: int|
                    0 <= j < i ==> (#[trigger] hosts@[j]).name@ != name@);
                if c < i {
                } else if c > i {
                    assert(hosts@[i as int].name@ != name@);
                }
            }
            return Some(i);
        }
        i += 1;
    }
    None
}

/// Whether `after` is `before` with `input` saved into it: an edit of the
/// first host with the input's name, or else the added host at the end.
pub open spec fn is_upserted(
    before: Seq<Host>,
    input: HostInputDto,
    imported: Option<Host>,
    after: Seq<Host>,
) -> bool {
    match first_named(before, input.name@) {
        Some(i) => {
            &&& after.len() == before.len()
            &&& forall|j: int| 0 <= j < before.len() && j != i ==> #[trigger] after[j] == before[j]
            &&& is_edited_host(input, before[i], after[i])
        },
        None => {
            &&& after.len() == before.len() + 1
            &&& after.take(before.len() as int) == before
            &&& is_added_host(input, imported, after.last())
        },
    }
}

/// Upsert `input` into the manual host list by name. A new name appends; an
/// existing name is an in-place edit of the first host with that name that
/// preserves every field the editor cannot observe — password, identity
/// file, proxy jump (unless new ones are sent), the key-setup record, the
/// rename origin, and a monitoring mode or file access the input left out.
/// On a first save of an `~/.ssh/config` import (`imported`), the copy keeps
/// the import's bastion and key and records which import it stands in for.
pub fn upsert(hosts: &mut Vec<Host>, input: HostInputDto, imported: Option<Host>)
    ensures
        is_upserted(old(hosts)@, input, imported, final(hosts)@),
{
    // An omitted monitoring mode or file access means "unchanged".
    let monitoring_given = input.monitoring.is_some();
    let file_access_given = input.file_access.is_some();
    let ghost inp = input;
    let pos = find_named(hosts, &input.name);
    let mut host = input.into_host();
    match pos {
        Some(i) => {
            let existing = &hosts[i];
            if !monitoring_given {
                host.monitoring = existing.monitoring;
                host.monitor_port = existing.monitor_port;
            }
            if !file_access_given {
                host.file_access = existing.file_access;
            }
            host.password = or_copy(host.password, &existing.password);
            host.ftp_password = or_copy(host.ftp_password, &existing.ftp_password);
            host.identity_file = or_copy(host.identity_file, &existing.identity_file);
            host.proxy_jump = or_copy(host.proxy_jump, &existing.proxy_jump);
            host.key_setup_date = copy_opt(&existing.key_setup_date);
            host.password_auth_disabled = existing.password_auth_disabled;
            host.original_ssh_host = copy_opt(&existing.original_ssh_host);
            hosts.set(i, host);
        },
        None => {
            match imported {
                Some(imp) => {
                    host.proxy_jump = or_copy(host.proxy_jump, &imp.proxy_jump);
                    host.identity_file = or_copy(host.identity_file, &imp.identity_file);
                    host.original_ssh_host = Some(copy_string(&host.name));
                },
                None => {},
            }
            hosts.push(host);
            assert(hosts@.take(hosts@.len() - 1) =~= old(hosts)@);
        },
    }
}

/// The positions of the manual hosts of `hosts`, in order: what the host file
/// stores. Imports from `~/.ssh/config` are never written back.
pub fn persisted_indices(hosts: &[Host]) -> (r: Vec<usize>)
    ensures
        forall|i: int| 0 <= i < r@.len() ==> #[trigger] r@[i] < hosts@.len(),
        forall|i: int, j: int| 0 <= i < j < r@.len() ==> #[trigger] r@[i] < #[trigger] r@[j],
        forall|x: usize|
            #[trigger] r@.contains(x) <==> (x < hosts@.len() && hosts@[x as int].source
                == HostSource::Manual),
{
    let mut r: Vec<usize> = Vec::new();
    let mut i: usize = 0;
    while i < hosts.len()
        invariant
            i <= hosts@.len(),
            forall|k: int| 0 <= k < r@.len() ==> #[trigger] r@[k] < i,
            forall|k: int, j: int| 0 <= k < j < r@.len() ==> #[trigger] r@[k] < #[trigger] r@[j],
            forall|x: usize|
                #[trigger] r@.contains(x) <==> (x < i && hosts@[x as int].source == HostSource::Manual),
        decreases hosts@.len() - i,
    {
        let ghost before = r@;
        if hosts[i].source == HostSource::Manual {
            r.push(i);
            assert forall|x: usize| #[trigger] r@.contains(x) <==> (x < i + 1 && hosts@[x as int].source
                == HostSource::Manual) by {
                if r@.contains(x) {
                    let k = choose|k: int| 0 <= k < r@.len() && r@[k] == x;
                    if k < before.len() {
                        assert(before.contains(x));
                    }
                }
                if x < i && hosts@[x as int].source == HostSource::Manual {
                    assert(before.contains(x));
                    let k = choose|k: int| 0 <= k < before.len() && before[k] == x;
                    assert(r@[k] == x);
                }
                if x == i && hosts@[x as int].source == HostSource::Manual {
                    assert(r@[before.len() as int] == x);
                }
            }
        } else {
            assert forall|x: usize| #[trigger] r@.contains(x) implies x < i by {
                let k = choose|k: int| 0 <= k < r@.len() && r@[k] == x;
            }
        }
        i += 1;
    }
    r
}

/// The hosts of `hosts` not named `name`, in order.
pub open spec fn without_name(hosts: Seq<Host>, name: Seq<char>) -> Seq<Host>
    decreases hosts.len(),
{
    if hosts.len() == 0 {
        Seq::<Host>::empty()
    } else {
        let r = without_name(hosts.drop_last(), name);
        if hosts.last().name@ == name {
            r
        } else {
            r.push(hosts.last())
        }
    }
}

/// Drop every host named `name` from the manual list. A missing name is a
/// no-op — the desired end state (absent) already holds.
pub fn remove(hosts: &mut Vec<Host>, name: &str)
    ensures
        final(hosts)@ == without_name(old(hosts)@, name@),
{
    let ghost orig = hosts@;
    let n0 = hosts.len();
    let target = name.to_owned();
    let mut i: usize = 0;
    let mut j: usize = 0;
    while i < hosts.len()
        invariant
            j <= orig.len(),
            orig.len() == n0,
            target@ == name@,
            i <= hosts@.len(),
            hosts@.take(i as int) == without_name(orig.take(j as int), name@),
            hosts@.skip(i as int) == orig.skip(j as int),
        decreases hosts@.len() - i,
    {
        proof {
            assert(hosts@.skip(i as int)[0] == hosts@[i as int]);
            assert(orig.skip(j as int).len() > 0);
            assert(orig[j as int] == hosts@[i as int]);
            assert(orig.take(j + 1).drop_last() =~= orig.take(j as int));
            assert(orig.take(j + 1).last() == orig[j as int]);
        }
        let ghost before = hosts@;
        if hosts[i].name.eq(&target) {
            hosts.remove(i);
            assert(hosts@.take(i as int) =~= before.take(i as int));
            assert(hosts@.skip(i as int) =~= before.skip(i + 1));
            assert(orig.skip(j + 1) =~= orig.skip(j as int).drop_first());
            assert(before.skip(i + 1) =~= before.skip(i as int).drop_first());
        } else {
            assert(hosts@.take(i + 1) =~= before.take(i as int).push(before[i as int]));
            assert(hosts@.skip(i + 1) =~= before.skip(i as int).drop_first());
            assert(orig.skip(j + 1) =~= orig.skip(j as int).drop_first());
            i += 1;
        }
        j += 1;
    }
    proof {
        assert(hosts@.skip(i as int).len() == 0);
        assert(orig.skip(j as int).len() == 0);
        assert(orig.take(j as int) =~= orig);
        assert(hosts@.take(i as int) =~= hosts@);
    }
}

proof fn lemma_without_name_same_elsewhere(a: Seq<Host>, b: Seq<Host>, name: Seq<char>)
    requires
        a.len() == b.len(),
        forall|j: int|
            0 <= j < a.len() ==> #[trigger] a[j] == b[j] || (a[j].name@ == name && b[j].name@ == name),
    ensures
        without_name(a, name) == without_name(b, name),
    decreases a.len(),
{
    if a.len() > 0 {
        let a1 = a.drop_last();
        let b1 = b.drop_last();
        assert forall|j: int| 0 <= j < a1.len() implies #[trigger] a1[j] == b1[j] || (a1[j].name@ == name
            && b1[j].name@ == name) by {
            assert(a1[j] == a[j] && b1[j] == b[j]);
        }
        lemma_without_name_same_elsewhere(a1, b1, name);
        assert(a.last() == a[a.len() - 1]);
        assert(b.last() == b[b.len() - 1]);
    }
}

/// Deleting a host by name after saving it leaves the same list as deleting
/// that name before the save: a save touches no host of another name.
pub proof fn lemma_remove_after_upsert(
    before: Seq<Host>,
    input: HostInputDto,
    imported: Option<Host>,
    after: Seq<Host>,
)
    requires
        is_upserted(before, input, imported, after),
    ensures
        without_name(after, input.name@) == without_name(before, input.name@),
{
    let name = input.name@;
    lemma_first_named(before, name);
    match first_named(before, name) {
        Some(i) => {
            lemma_without_name_same_elsewhere(after, before, name);
        },
        None => {
            assert(after.drop_last() =~= before);
            reveal_with_fuel(without_name, 1);
            if imported is Some {
                assert(after.last().name@ == name);
            } else {
                assert(after.last().name@ == name);
            }
        },
    }
}

/// After a save, a host with the saved name is in the list.
pub proof fn lemma_upsert_holds_name(
    before: Seq<Host>,
    input: HostInputDto,
    imported: Option<Host>,
    after: Seq<Host>,
)
    requires
        is_upserted(before, input, imported, after),
    ensures
        first_named(after, input.name@) is Some,
{
    let name = input.name@;
    lemma_first_named(before, name);
    match first_named(before, name) {
        Some(i) => {
            assert(after[i].name@ == name);
            lemma_least_named(after, name, i);
        },
        None => {
            assert(after[after.len() - 1].name@ == name);
            lemma_least_named(after, name, after.len() - 1);
        },
    }
}

/// A host built from an editor input has the monitoring mode and the file
/// access the input names: `TcpPort` gives TCP-port monitoring and `Ssh`
/// SSH monitoring, each protocol the protocol of that name; an omitted mode
/// is SSH monitoring and an omitted protocol SFTP.
pub proof fn lemma_input_host_modes(input: HostInputDto, h: Host)
    requires
        is_input_host(input, h),
    ensures
        input.monitoring == Some(MonitorModeDto::TcpPort) ==> h.monitoring == MonitorMode::TcpPort,
        input.monitoring == Some(MonitorModeDto::Ssh) ==> h.monitoring == MonitorMode::Ssh,
        input.monitoring is None ==> h.monitoring == MonitorMode::Ssh,
        h.monitor_port == input.monitor_port,
        input.file_access == Some(FileAccessDto::Sftp) ==> h.file_access == FileAccess::Sftp,
        input.file_access == Some(FileAccessDto::Ftp) ==> h.file_access == FileAccess::Ftp,
        input.file_access == Some(FileAccessDto::Ftps) ==> h.file_access == FileAccess::Ftps,
        input.file_access == Some(FileAccessDto::Disabled) ==> h.file_access
            == FileAccess::Disabled,
        input.file_access is None ==> h.file_access == FileAccess::Sftp,
{
}

proof fn lemma_first_named_at(hosts: Seq<Host>, name: Seq<char>, k: int)
    requires
        0 <= k < hosts.len(),
        hosts[k].name@ == name,
        forall|j: int| 0 <= j < k ==> (#[trigger] hosts[j]).name@ != name,
    ensures
        first_named(hosts, name) == Some(k),
{
    lemma_first_named(hosts, name);
    let m = first_named(hosts, name)->0;
    if m < k {
        assert(hosts[m].name@ != name);
    } else if m > k {
        assert(hosts[k].name@ != name);
    }
}

/// After a save, the first host with the saved name has the monitoring mode
/// and the file access the input names (the mode of the same name, with the
/// sent monitor port; the protocol of the same name); what the input leaves
/// out is kept from the host it edits.
pub proof fn lemma_saved_modes(
    before: Seq<Host>,
    input: HostInputDto,
    imported: Option<Host>,
    after: Seq<Host>,
)
    requires
        is_upserted(before, input, imported, after),
    ensures
        match first_named(after, input.name@) {
            Some(k) => {
                &&& 0 <= k < after.len()
                &&& input.monitoring == Some(MonitorModeDto::TcpPort) ==> after[k].monitoring
                    == MonitorMode::TcpPort && after[k].monitor_port == input.monitor_port
                &&& input.monitoring == Some(MonitorModeDto::Ssh) ==> after[k].monitoring
                    == MonitorMode::Ssh && after[k].monitor_port == input.monitor_port
                &&& input.file_access == Some(FileAccessDto::Sftp) ==> after[k].file_access
                    == FileAccess::Sftp
                &&& input.file_access == Some(FileAccessDto::Ftp) ==> after[k].file_access
                    == FileAccess::Ftp
                &&& input.file_access == Some(FileAccessDto::Ftps) ==> after[k].file_access
                    == FileAccess::Ftps
                &&& input.file_access == Some(FileAccessDto::Disabled) ==> after[k].file_access
                    == FileAccess::Disabled
            },
            None => false,
        },
{
    let name = input.name@;
    lemma_first_named(before, name);
    match first_named(before, name) {
        Some(i) => {
            assert forall|j: int| 0 <= j < i implies (#[trigger] after[j]).name@ != name by {
                assert(after[j] == before[j]);
            }
            lemma_first_named_at(after, name, i);
        },
        None => {
            let k = before.len() as int;
            assert forall|j: int| 0 <= j < k implies (#[trigger] after[j]).name@ != name by {
                assert(after.take(k)[j] == after[j]);
            }
            assert(after[k] == after.last());
            lemma_first_named_at(after, name, k);
        },
    }
}

/// Saving a host that already exists replaces what the editor sends and
/// keeps what it cannot see: a password, key path, bastion or FTP password
/// left blank stays as stored, a sent one replaces it; an omitted monitoring
/// mode or file access stays as stored; the key-setup record and the rename
/// origin always stay.
pub proof fn lemma_edit_keeps_hidden_fields(
    before: Seq<Host>,
    input: HostInputDto,
    imported: Option<Host>,
    after: Seq<Host>,
    i: int,
)
    requires
        is_upserted(before, input, imported, after),
        first_named(before, input.name@) == Some(i),
    ensures
        0 <= i < after.len(),
        opt_view(after[i].password) == (match input.password {
            Some(p) => Some(p@),
            None => opt_view(before[i].password),
        }),
        opt_view(after[i].identity_file) == (match input.identity_file {
            Some(p) => Some(p@),
            None => opt_view(before[i].identity_file),
        }),
        opt_view(after[i].proxy_jump) == (match input.proxy_jump {
            Some(p) => Some(p@),
            None => opt_view(before[i].proxy_jump),
        }),
        opt_view(after[i].ftp_password) == (match input.ftp_password {
            Some(p) => Some(p@),
            None => opt_view(before[i].ftp_password),
        }),
        input.monitoring is None ==> after[i].monitoring == before[i].monitoring
            && after[i].monitor_port == before[i].monitor_port,
        input.file_access is None ==> after[i].file_access == before[i].file_access,
        opt_view(after[i].key_setup_date) == opt_view(before[i].key_setup_date),
        after[i].password_auth_disabled == before[i].password_auth_disabled,
        opt_view(after[i].original_ssh_host) == opt_view(before[i].original_ssh_host),
{
    lemma_first_named(before, input.name@);
}

/// The first save of an `~/.ssh/config` import keeps the import's bastion
/// and key where the editor sent none, and records the import's name as the
/// copy's rename origin.
pub proof fn lemma_adoption_keeps_import_fields(
    before: Seq<Host>,
    input: HostInputDto,
    imp: Host,
    after: Seq<Host>,
)
    requires
        is_upserted(before, input, Some(imp), after),
        first_named(before, input.name@) is None,
    ensures
        after.len() == before.len() + 1,
        opt_view(after.last().proxy_jump) == (match input.proxy_jump {
            Some(p) => Some(p@),
            None => opt_view(imp.proxy_jump),
        }),
        opt_view(after.last().identity_file) == (match input.identity_file {
            Some(p) => Some(p@),
            None => opt_view(imp.identity_file),
        }),
        opt_view(after.last().original_ssh_host) == Some(input.name@),
{
}

/// Deleting by name leaves no host of that name and keeps, in order, every
/// host of another name.
pub proof fn lemma_without_name(hosts: Seq<Host>, name: Seq<char>)
    ensures
        forall|j: int|
            0 <= j < without_name(hosts, name).len() ==> (#[trigger] without_name(
                hosts,
                name,
            )[j]).name@ != name,
        forall|h: Host|
            h.name@ != name ==> (#[trigger] without_name(hosts, name).contains(h) <==> hosts.contains(h)),
        without_name(hosts, name).len() <= hosts.len(),
    decreases hosts.len(),
{
    if hosts.len() > 0 {
        let d = hosts.drop_last();
        lemma_without_name(d, name);
        let r = without_name(d, name);
        assert forall|h: Host| #[trigger] hosts.contains(h) <==> (d.contains(h) || h == hosts.last()) by {
            if hosts.contains(h) {
                let k = choose|k: int| 0 <= k < hosts.len() && hosts[k] == h;
                if k < hosts.len() - 1 {
                    assert(d[k] == h);
                }
            }
            if d.contains(h) {
                let k = choose|k: int| 0 <= k < d.len() && d[k] == h;
                assert(hosts[k] == h);
            }
        }
        if hosts.last().name@ != name {
            let r2 = r.push(hosts.last());
            assert forall|h: Host| #[trigger] r2.contains(h) <==> (r.contains(h) || h == hosts.last()) by {
                if r2.contains(h) {
                    let k = choose|k: int| 0 <= k < r2.len() && r2[k] == h;
                    if k < r.len() {
                        assert(r[k] == h);
                    }
                }
                if r.contains(h) {
                    let k = choose|k: int| 0 <= k < r.len() && r[k] == h;
                    assert(r2[k] == h);
                }
                if h == hosts.last() {
                    assert(r2[r.len() as int] == h);
                }
            }
            assert forall|j: int| 0 <= j < r2.len() implies (#[trigger] r2[j]).name@ != name by {
                if j < r.len() {
                    assert(r2[j] == r[j]);
                }
            }
        }
    }
}

} // verus!
