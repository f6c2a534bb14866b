//! What confirming the host popups does to the host list: adding, editing
//! (keeping what the form cannot show) and deleting, with the status
//! message shown and whether the pollers must restart.
use crate::client::{Host, HostSource};
use crate::form::{field_texts, form_error, form_host_matches, form_round_trips, form_texts, lemma_form_round_trip_keeps_poller_inputs, poller_inputs_changed, poller_inputs_differ, FORM_FIELD_COUNT};
use crate::hostlist::{lookup, HostPopup};
use crate::text::{chars_of, concat_text, copy_opt, copy_string, opt_view};
use vstd::prelude::*;

verus! {

/// The status message after adding `host`: a host added with a password is
/// pointed at key setup.
pub open spec fn added_message(host: Host) -> Seq<char> {
    if host.password is Some {
        "Host '"@ + host.name@
            + "' added. Press 'Shift+K' to set up SSH key authentication (recommended)."@
    } else {
        "Host added."@
    }
}

/// The status message after adding `host` (see [`added_message`]).
pub fn host_added_message(host: &Host) -> (r: String)
    ensures
        r@ == added_message(*host),
{
    if host.password.is_some() {
        let v = chars_of(host.name.as_str());
        concat_text(
            "Host '",
            &v,
            "' added. Press 'Shift+K' to set up SSH key authentication (recommended).",
        )
    } else {
        "Host added.".to_owned()
    }
}

/// What an edit of a stored host requires of the rest of the program.
#[derive(Debug)]
pub struct EditOutcome {
    /// The host's former name, when the edit renamed it (its metrics, status
    /// and services move to the new name).
    pub renamed_from: Option<String>,
    /// Whether a poller input changed, so the pollers must restart.
    pub restart_pollers: bool,
}

/// Whether `stored` is the confirmed form host `h` as an edit of `old`
/// stores it: the bastion carried over from the old host (the form has no
/// field for it), and the rename origin set to the old name when the old host
/// was an `~/.ssh/config` import, else carried over.
pub open spec fn is_stored_edit(old: Option<Host>, h: Host, stored: Host) -> bool {
    &&& stored.name == h.name
    &&& stored.hostname == h.hostname
    &&& stored.user == h.user
    &&& stored.port == h.port
    &&& stored.identity_file == h.identity_file
    &&& stored.password == h.password
    &&& stored.tags == h.tags
    &&& stored.notes == h.notes
    &&& stored.source == h.source
    &&& stored.monitoring == h.monitoring
    &&& stored.monitor_port == h.monitor_port
    &&& stored.file_access == h.file_access
    &&& stored.ftp_user == h.ftp_user
    &&& stored.ftp_password == h.ftp_password
    &&& stored.ftp_port == h.ftp_port
    &&& stored.key_setup_date == h.key_setup_date
    &&& stored.password_auth_disabled == h.password_auth_disabled
    &&& opt_view(stored.proxy_jump) == (match old {
        Some(o) => opt_view(o.proxy_jump),
        None => None,
    })
    &&& opt_view(stored.original_ssh_host) == (match old {
        Some(o) => if o.source == HostSource::SshConfig {
            Some(o.name@)
        } else {
            opt_view(o.original_ssh_host)
        },
        None => None,
    })
}

/// Whether `new` and `out` are the host list and outcome after storing the
/// confirmed form host `h` as the edit of the host at `idx` of `old`: that
/// host replaced by `h` as [`is_stored_edit`] stores it, the rename and the
/// change of a poller input reported; an index past the end changes nothing
/// and restarts the pollers.
pub open spec fn is_host_edit(old: Seq<Host>, idx: usize, h: Host, new: Seq<Host>, out: EditOutcome) -> bool {
    &&& idx < old.len() ==> {
        let o = old[idx as int];
        &&& new.len() == old.len()
        &&& forall|j: int| 0 <= j < old.len() && j != idx ==> #[trigger] new[j] == old[j]
        &&& is_stored_edit(Some(o), h, new[idx as int])
        &&& out.restart_pollers == poller_inputs_differ(o, new[idx as int])
        &&& opt_view(out.renamed_from) == (if o.name@ != h.name@ {
            Some(o.name@)
        } else {
            None
        })
    }
    &&& idx >= old.len() ==> {
        &&& new == old
        &&& out.restart_pollers
        &&& out.renamed_from is None
    }
}

/// Stores the confirmed form host `host` as the edit of the host at
/// `host_idx` (nothing is stored when there is none), and says whether the
/// edit renamed the host and whether a poller input changed.
pub fn apply_host_edit(hosts: &mut Vec<Host>, host_idx: usize, host: Host) -> (r: EditOutcome)
    ensures
        is_host_edit(old(hosts)@, host_idx, host, final(hosts)@, r),
{
    let mut host = host;
    if host_idx < hosts.len() {
        let old_host = &hosts[host_idx];
        host.proxy_jump = copy_opt(&old_host.proxy_jump);
        host.original_ssh_host = match old_host.source {
            HostSource::SshConfig => Some(copy_string(&old_host.name)),
            HostSource::Manual => copy_opt(&old_host.original_ssh_host),
        };
        let restart_pollers = poller_inputs_changed(old_host, &host);
        let renamed_from = if old_host.name.eq(&host.name) {
            None
        } else {
            Some(copy_string(&old_host.name))
        };
        hosts.set(host_idx, host);
        EditOutcome { renamed_from, restart_pollers }
    } else {
        EditOutcome { renamed_from: None, restart_pollers: true }
    }
}

/// What confirming a host popup leaves for the rest of the program.
pub struct FormConfirm {
    /// The popup still shown: the form put back when its input is refused,
    /// or a popup that is no form left as it was.
    pub popup: Option<HostPopup>,
    /// The status message to show, if any.
    pub status: Option<String>,
    /// Whether the host list changed: the manual hosts are saved and the
    /// list and its tags rebuilt.
    pub stored: bool,
    /// Whether the pollers must restart.
    pub restart_pollers: bool,
    /// The former name of a renamed host: its readings, status and services
    /// move to the new name (see [`move_entry`]).
    pub renamed_from: Option<String>,
}

/// Whether every form a popup holds has a field per label.
pub open spec fn popup_forms_complete(popup: Option<HostPopup>) -> bool {
    match popup {
        Some(HostPopup::Add(form)) => form.fields@.len() >= FORM_FIELD_COUNT,
        Some(HostPopup::Edit { host_idx: _, form }) => form.fields@.len() >= FORM_FIELD_COUNT,
        _ => true,
    }
}

/// The outcome of a refused form: the popup `popup` shown again with the
/// message `Error: <e>`, and nothing else done.
pub open spec fn is_refused_form(popup: Option<HostPopup>, e: Seq<char>, r: FormConfirm) -> bool {
    &&& r.popup == popup
    &&& opt_view(r.status) == Some("Error: "@ + e)
    &&& !r.stored
    &&& !r.restart_pollers
    &&& r.renamed_from is None
}

fn error_message(e: &String) -> (r: String)
    ensures
        r@ == "Error: "@ + e@,
{
    let v = chars_of(e.as_str());
    let r = concat_text("Error: ", &v, "");
    proof {
        reveal_strlit("");
        assert("Error: "@ + v@ + ""@ =~= "Error: "@ + e@);
    }
    r
}

/// Confirms the host popup `popup`. An add form whose input is valid appends
/// its host (the pollers restart, and a host with a password is pointed at
/// key setup); an edit form whose input is valid stores its host as
/// [`apply_host_edit`] does, with the message `Host updated.`. A form whose
/// input is refused is shown again with `Error: <reason>`, and a popup that
/// is no form is left as it was.
pub fn confirm_host_form(popup: Option<HostPopup>, hosts: &mut Vec<Host>) -> (r: FormConfirm)
    requires
        popup_forms_complete(popup),
    ensures
        match popup {
            Some(HostPopup::Add(form)) => match form_error(field_texts(form.fields@)) {
                None => exists|h: Host|
                    #[trigger] form_host_matches(field_texts(form.fields@), HostSource::Manual, h)
                        && final(hosts)@ == old(hosts)@.push(h) && r.popup is None && opt_view(
                        r.status,
                    ) == Some(added_message(h)) && r.stored && r.restart_pollers
                        && r.renamed_from is None,
                Some(e) => final(hosts)@ == old(hosts)@ && is_refused_form(popup, e, r),
            },
            Some(HostPopup::Edit { host_idx, form }) => match form_error(
                field_texts(form.fields@),
            ) {
                None => exists|h: Host|
                    #[trigger] form_host_matches(field_texts(form.fields@), HostSource::Manual, h)
                        && is_host_edit(
                        old(hosts)@,
                        host_idx,
                        h,
                        final(hosts)@,
                        (EditOutcome {
                            renamed_from: r.renamed_from,
                            restart_pollers: r.restart_pollers,
                        }),
                    ) && r.popup is None && opt_view(r.status) == Some("Host updated."@)
                        && r.stored,
                Some(e) => final(hosts)@ == old(hosts)@ && is_refused_form(popup, e, r),
            },
            _ => {
                &&& final(hosts)@ == old(hosts)@
                &&& r.popup == popup
                &&& r.status is None
                &&& !r.stored
                &&& !r.restart_pollers
                &&& r.renamed_from is None
            },
        },
{
    match popup {
        Some(HostPopup::Add(form)) => match form.to_host(HostSource::Manual) {
            Ok(host) => {
                let msg = host_added_message(&host);
                hosts.push(host);
                FormConfirm {
                    popup: None,
                    status: Some(msg),
                    stored: true,
                    restart_pollers: true,
                    renamed_from: None,
                }
            },
            Err(e) => FormConfirm {
                popup: Some(HostPopup::Add(form)),
                status: Some(error_message(&e)),
                stored: false,
                restart_pollers: false,
                renamed_from: None,
            },
        },
        Some(HostPopup::Edit { host_idx, form }) => match form.to_host(HostSource::Manual) {
            Ok(host) => {
                let ghost h = host;
                let out = apply_host_edit(hosts, host_idx, host);
                let r = FormConfirm {
                    popup: None,
                    status: Some("Host updated.".to_owned()),
                    stored: true,
                    restart_pollers: out.restart_pollers,
                    renamed_from: out.renamed_from,
                };
                assert(form_host_matches(field_texts(form.fields@), HostSource::Manual, h));
                r
            },
            Err(e) => FormConfirm {
                popup: Some(HostPopup::Edit { host_idx, form }),
                status: Some(error_message(&e)),
                stored: false,
                restart_pollers: false,
                renamed_from: None,
            },
        },
        other => FormConfirm {
            popup: other,
            status: None,
            stored: false,
            restart_pollers: false,
            renamed_from: None,
        },
    }
}

/// `t` without its entries for the name `k`.
pub open spec fn drop_key<T>(t: Seq<(String, T)>, k: Seq<char>) -> Seq<(String, T)>
    decreases t.len(),
{
    if t.len() == 0 {
        t
    } else if t[0].0@ == k {
        drop_key(t.drop_first(), k)
    } else {
        seq![t[0]] + drop_key(t.drop_first(), k)
    }
}

proof fn lemma_lookup_drop_key<T>(t: Seq<(String, T)>, k: Seq<char>, j: Seq<char>)
    ensures
        lookup(drop_key(t, k), j) == (if j == k {
            None
        } else {
            lookup(t, j)
        }),
    decreases t.len(),
{
    if t.len() > 0 {
        lemma_lookup_drop_key(t.drop_first(), k, j);
        if t[0].0@ != k {
            let d = seq![t[0]] + drop_key(t.drop_first(), k);
            assert(d.drop_first() =~= drop_key(t.drop_first(), k));
        }
    }
}

/// The entry a table keyed by host name has for `k` after the entry of
/// `from` moved to the name `to`: when `from` has one, `to` takes it and
/// `from` has none; every other name keeps its entry.
pub open spec fn moved_lookup<T>(t: Seq<(String, T)>, from: Seq<char>, to: Seq<char>, k: Seq<char>) -> Option<T> {
    match lookup(t, from) {
        Some(v) => if k == to {
            Some(v)
        } else if k == from {
            None
        } else {
            lookup(t, k)
        },
        None => lookup(t, k),
    }
}

/// Moves the entry of `from` in a table keyed by host name to the name `to`,
/// as renaming a host moves its readings, status and services: the entry
/// for `from` is taken out and stored under `to`, replacing what `to` had;
/// when `from` has no entry nothing moves.
pub fn move_entry<T>(table: &mut Vec<(String, T)>, from: &String, to: &String)
    ensures
        forall|k: Seq<char>|
            #[trigger] lookup(final(table)@, k) == moved_lookup(old(table)@, from@, to@, k),
{
    let ghost orig = table@;
    let mut kept: Vec<(String, T)> = Vec::new();
    let mut found: Option<T> = None;
    while table.len() > 0
        invariant
            drop_key(orig, from@) == kept@ + drop_key(table@, from@),
            lookup(orig, from@) == (match found {
                Some(v) => Some(v),
                None => lookup(table@, from@),
            }),
        decreases table.len(),
    {
        let ghost before = table@;
        let e = table.remove(0);
        proof {
            assert(before.drop_first() =~= table@);
        }
        let (k, v) = e;
        if k.eq(from) {
            if found.is_none() {
                found = Some(v);
            }
        } else {
            let ghost kb = kept@;
            kept.push((k, v));
            proof {
                assert(kept@ + drop_key(table@, from@) =~= kb + (seq![before[0]] + drop_key(
                    table@,
                    from@,
                )));
            }
        }
    }
    proof {
        assert(kept@ =~= drop_key(orig, from@));
    }
    match found {
        Some(v) => {
            let ghost kb = kept@;
            kept.insert(0, (copy_string(to), v));
            proof {
                assert forall|k: Seq<char>|
                    #[trigger] lookup(kept@, k) == moved_lookup(orig, from@, to@, k) by {
                    lemma_lookup_drop_key(orig, from@, k);
                    assert(kept@.drop_first() =~= kb);
                }
            }
        },
        None => {
            proof {
                assert forall|k: Seq<char>|
                    #[trigger] lookup(kept@, k) == moved_lookup(orig, from@, to@, k) by {
                    lemma_lookup_drop_key(orig, from@, k);
                }
            }
        },
    }
    *table = kept;
}

/// Removes the host at `idx` when there is one, giving the status message
/// `Deleted '<name>'.`; an index past the end changes nothing.
pub fn remove_host_at(hosts: &mut Vec<Host>, idx: usize) -> (r: Option<String>)
    ensures
        idx < old(hosts)@.len() ==> final(hosts)@ == old(hosts)@.remove(idx as int) && r is Some
            && r->0@ == "Deleted '"@ + old(hosts)@[idx as int].name@ + "'."@,
        idx >= old(hosts)@.len() ==> final(hosts)@ == old(hosts)@ && r is None,
{
    if idx < hosts.len() {
        let removed = hosts.remove(idx);
        let v = chars_of(removed.name.as_str());
        Some(concat_text("Deleted '", &v, "'."))
    } else {
        None
    }
}

/// The message after adding a host with a password names the host and
/// points at key setup; without a password it is `Host added.`.
pub proof fn lemma_added_message_names_host(h: Host)
    ensures
        h.password is Some ==> added_message(h).take(6) == "Host '"@ && added_message(h).subrange(
            6,
            6int + h.name@.len(),
        ) == h.name@,
        h.password is None ==> added_message(h) == "Host added."@,
{
    reveal_strlit("Host '");
    if h.password is Some {
        let m = added_message(h);
        assert(m.take(6) =~= "Host '"@);
        assert(m.subrange(6, 6int + h.name@.len()) =~= h.name@);
    }
}

/// An edit stores the confirmed host in place of the edited one and leaves
/// every other host alone; it keeps the edited host's bastion, records an
/// import's name as the rename origin, reports a rename exactly when the
/// name changed, and restarts the pollers when the address, port, login or
/// monitoring changed.
pub proof fn lemma_edit_outcome(old: Seq<Host>, idx: usize, h: Host, new: Seq<Host>, out: EditOutcome)
    requires
        is_host_edit(old, idx, h, new, out),
        idx < old.len(),
    ensures
        new.len() == old.len(),
        forall|j: int| 0 <= j < old.len() && j != idx ==> #[trigger] new[j] == old[j],
        new[idx as int].name@ == h.name@ && new[idx as int].hostname@ == h.hostname@
            && new[idx as int].port == h.port && new[idx as int].user@ == h.user@,
        opt_view(new[idx as int].proxy_jump) == opt_view(old[idx as int].proxy_jump),
        old[idx as int].source == HostSource::SshConfig ==> opt_view(
            new[idx as int].original_ssh_host,
        ) == Some(old[idx as int].name@),
        (out.renamed_from is Some) == (old[idx as int].name@ != h.name@),
        out.renamed_from matches Some(n) ==> n@ == old[idx as int].name@,
        (old[idx as int].hostname@ != h.hostname@ || old[idx as int].port != h.port
            || old[idx as int].user@ != h.user@ || old[idx as int].monitoring != h.monitoring
            || old[idx as int].monitor_port != h.monitor_port) ==> out.restart_pollers,
{
}

/// Moving a renamed host's entry: the new name gets the entry the old name
/// had (keeping its own when the old name had none), the old name is left
/// without one, and every other name keeps its entry.
pub proof fn lemma_move_entry_outcome<T>(
    old: Seq<(String, T)>,
    new: Seq<(String, T)>,
    from: Seq<char>,
    to: Seq<char>,
)
    requires
        forall|k: Seq<char>| #[trigger] lookup(new, k) == moved_lookup(old, from, to, k),
        from != to,
    ensures
        lookup(new, to) == (if lookup(old, from) is Some {
            lookup(old, from)
        } else {
            lookup(old, to)
        }),
        lookup(new, from) is None,
        forall|k: Seq<char>| k != from && k != to ==> #[trigger] lookup(new, k) == lookup(old, k),
{
    assert(lookup(new, to) == moved_lookup(old, from, to, to));
    assert(lookup(new, from) == moved_lookup(old, from, to, from));
}

/// Opening the edit form on a manual host and confirming it unchanged
/// stores a host that differs from the old one in nothing a running poller
/// reads, so the pollers keep running: the form gives back every connection
/// field it shows, and the edit carries the bastion and rename origin over.
pub proof fn lemma_unchanged_edit_keeps_pollers(old: Host, h: Host, stored: Host)
    requires
        old.source == HostSource::Manual,
        form_round_trips(old),
        form_host_matches(form_texts(old), HostSource::Manual, h),
        is_stored_edit(Some(old), h, stored),
    ensures
        !poller_inputs_differ(old, stored),
{
    lemma_form_round_trip_keeps_poller_inputs(old, HostSource::Manual, h);
}

} // verus!
