//! The host add/edit form: its text fields with a byte cursor, how a host is
//! shown in it, and how its text is validated back into a host.
use crate::client::{FileAccess, Host, HostSource, MonitorMode};
use crate::text::{lemma_byte_len_is_encoding_len, trim_start_spec, lemma_split_append_run, lemma_decimal, lemma_parse_decimal, lemma_trim_of_trimmed, byte_len, chars_of, concat_text, copy_string, decimal, eq_lit, format_u16, join_spec, join_strings, lemma_byte_len_append, lemma_byte_len_take_mono, lemma_byte_len_take_step, opt_text_eq, opt_view, parse_u16, parse_u16_spec, skip_chars, split_chars, split_spec, starts_with_lit, string_from_chars, trim_chars, trim_spec, utf8_byte_len, utf8_len, utf8_width, views};
use vstd::prelude::*;

verus! {

// ---------------------------------------------------------------------------
// Monitoring and file-access fields
// ---------------------------------------------------------------------------

/// How a monitoring mode and probe port are written in the form.
pub open spec fn monitoring_text(mode: MonitorMode, port: Option<u16>) -> Seq<char> {
    match (mode, port) {
        (MonitorMode::Ssh, _) => Seq::<char>::empty(),
        (MonitorMode::TcpPort, Some(p)) => "tcp:"@ + decimal(p as nat),
        (MonitorMode::TcpPort, None) => "tcp"@,
    }
}

/// What the monitoring field means: empty or `ssh` keeps the SSH poller,
/// `tcp` probes the host's SSH port, `tcp:PORT` (PORT from 1 to 65535)
/// probes another one; anything else is refused.
pub open spec fn parse_monitoring_spec(v: Seq<char>) -> Option<(MonitorMode, Option<u16>)> {
    if v == Seq::<char>::empty() || v == "ssh"@ {
        Some((MonitorMode::Ssh, None))
    } else if v == "tcp"@ {
        Some((MonitorMode::TcpPort, None))
    } else if 4 <= v.len() && v.take(4) == "tcp:"@ && parse_u16_spec(v.skip(4)) is Some
        && parse_u16_spec(v.skip(4))->0 != 0 {
        Some((MonitorMode::TcpPort, Some(parse_u16_spec(v.skip(4))->0)))
    } else {
        None
    }
}

/// The message for a refused monitoring field.
pub open spec fn monitoring_error(v: Seq<char>) -> Seq<char> {
    "Monitoring must be 'ssh', 'tcp' or 'tcp:PORT', got '"@ + v + "'"@
}

/// Renders a host's monitoring mode back into its form field.
pub fn monitoring_value(host: &Host) -> (r: String)
    ensures
        r@ == monitoring_text(host.monitoring, host.monitor_port),
{
    proof {
        reveal_strlit("");
        reveal_strlit("tcp:");
        reveal_strlit("tcp");
    }
    match (host.monitoring, host.monitor_port) {
        (MonitorMode::Ssh, _) => String::new(),
        (MonitorMode::TcpPort, Some(port)) => {
            let digits = chars_of(format_u16(port).as_str());
            concat_text("tcp:", &digits, "")
        },
        (MonitorMode::TcpPort, None) => "tcp".to_owned(),
    }
}

/// Parses the monitoring field: empty or `ssh` keeps the SSH poller, `tcp`
/// probes the host's SSH port, `tcp:PORT` probes another one.
pub fn parse_monitoring(value: &str) -> (r: Result<(MonitorMode, Option<u16>), String>)
    ensures
        match r {
            Ok(m) => parse_monitoring_spec(value@) == Some(m),
            Err(e) => parse_monitoring_spec(value@) is None && e@ == monitoring_error(value@),
        },
{
    proof {
        reveal_strlit("");
        assert(""@ =~= Seq::<char>::empty());
        reveal_strlit("ssh");
        reveal_strlit("tcp");
        reveal_strlit("tcp:");
    }
    let v = chars_of(value);
    if eq_lit(&v, "") || eq_lit(&v, "ssh") {
        proof {
            reveal_strlit("");
            assert(v@ == value@);
            assert(value@ == Seq::<char>::empty() || value@ == "ssh"@);
            assert(parse_monitoring_spec(value@) == Some((MonitorMode::Ssh, None::<u16>)));
        }
        return Ok((MonitorMode::Ssh, None));
    }
    if eq_lit(&v, "tcp") {
        proof {
            reveal_strlit("");
        }
        return Ok((MonitorMode::TcpPort, None));
    }
    proof {
        reveal_strlit("");
        reveal_strlit("tcp:");
    }
    if starts_with_lit(&v, "tcp:") {
        let rest = skip_chars(&v, 4);
        match parse_u16(&rest) {
            Some(p) => {
                if p != 0 {
                    return Ok((MonitorMode::TcpPort, Some(p)));
                }
            },
            None => {},
        }
    }
    let msg = concat_text("Monitoring must be 'ssh', 'tcp' or 'tcp:PORT', got '", &v, "'");
    Err(msg)
}

/// How a file-access protocol is written in the form.
pub open spec fn file_access_text(a: FileAccess) -> Seq<char> {
    match a {
        FileAccess::Sftp => Seq::<char>::empty(),
        FileAccess::Ftp => "ftp"@,
        FileAccess::Ftps => "ftps"@,
        FileAccess::Disabled => "none"@,
    }
}

/// What the file-access field means: empty or `sftp` keeps SFTP, `ftp` and
/// `ftps` pick the FTP backend, `none` disables the Files tab.
pub open spec fn parse_file_access_spec(v: Seq<char>) -> Option<FileAccess> {
    if v == Seq::<char>::empty() || v == "sftp"@ {
        Some(FileAccess::Sftp)
    } else if v == "ftp"@ {
        Some(FileAccess::Ftp)
    } else if v == "ftps"@ {
        Some(FileAccess::Ftps)
    } else if v == "none"@ {
        Some(FileAccess::Disabled)
    } else {
        None
    }
}

/// The message for a refused file-access field.
pub open spec fn file_access_error(v: Seq<char>) -> Seq<char> {
    "File Access must be 'sftp', 'ftp', 'ftps' or 'none', got '"@ + v + "'"@
}

/// Renders a host's file-access protocol back into its form field.
pub fn file_access_value(host: &Host) -> (r: &'static str)
    ensures
        r@ == file_access_text(host.file_access),
{
    proof {
        reveal_strlit("");
    }
    match host.file_access {
        FileAccess::Sftp => "",
        FileAccess::Ftp => "ftp",
        FileAccess::Ftps => "ftps",
        FileAccess::Disabled => "none",
    }
}

/// Parses the file-access field.
pub fn parse_file_access(value: &str) -> (r: Result<FileAccess, String>)
    ensures
        match r {
            Ok(a) => parse_file_access_spec(value@) == Some(a),
            Err(e) => parse_file_access_spec(value@) is None && e@ == file_access_error(value@),
        },
{
    proof {
        reveal_strlit("");
        assert(""@ =~= Seq::<char>::empty());
        reveal_strlit("sftp");
        reveal_strlit("ftp");
        reveal_strlit("ftps");
        reveal_strlit("none");
    }
    let v = chars_of(value);
    if eq_lit(&v, "") || eq_lit(&v, "sftp") {
        Ok(FileAccess::Sftp)
    } else if eq_lit(&v, "ftp") {
        Ok(FileAccess::Ftp)
    } else if eq_lit(&v, "ftps") {
        Ok(FileAccess::Ftps)
    } else if eq_lit(&v, "none") {
        Ok(FileAccess::Disabled)
    } else {
        Err(concat_text("File Access must be 'sftp', 'ftp', 'ftps' or 'none', got '", &v, "'"))
    }
}

// ---------------------------------------------------------------------------
// Which edits a running poller sees
// ---------------------------------------------------------------------------

/// Whether two hosts differ in anything a running poller reads: what it
/// dials, authenticates or watches with, and the rename origin that other
/// hosts' `ProxyJump` aliases resolve through.
pub open spec fn poller_inputs_differ(before: Host, after: Host) -> bool {
    ||| before.name@ != after.name@
    ||| before.hostname@ != after.hostname@
    ||| before.user@ != after.user@
    ||| before.port != after.port
    ||| opt_view(before.identity_file) != opt_view(after.identity_file)
    ||| opt_view(before.password) != opt_view(after.password)
    ||| opt_view(before.proxy_jump) != opt_view(after.proxy_jump)
    ||| opt_view(before.original_ssh_host) != opt_view(after.original_ssh_host)
    ||| before.monitoring != after.monitoring
    ||| before.monitor_port != after.monitor_port
}

/// Whether an edit changed anything a running poller reads. Everything else
/// on the form — tags, notes — is display-only.
pub fn poller_inputs_changed(before: &Host, after: &Host) -> (r: bool)
    ensures
        r == poller_inputs_differ(*before, *after),
{
    let same_port = match (before.monitor_port, after.monitor_port) {
        (Some(a), Some(b)) => a == b,
        (None, None) => true,
        _ => false,
    };
    !before.name.eq(&after.name) || !before.hostname.eq(&after.hostname) || !before.user.eq(
        &after.user,
    ) || before.port != after.port || !opt_text_eq(&before.identity_file, &after.identity_file)
        || !opt_text_eq(&before.password, &after.password) || !opt_text_eq(
        &before.proxy_jump,
        &after.proxy_jump,
    ) || !opt_text_eq(&before.original_ssh_host, &after.original_ssh_host) || before.monitoring
        != after.monitoring || !same_port
}

// ---------------------------------------------------------------------------
// A text field with a byte cursor
// ---------------------------------------------------------------------------

/// Whether `cursor` is the byte offset of a character boundary of `s`.
pub open spec fn is_char_boundary(s: Seq<char>, cursor: int) -> bool {
    exists|k: int| 0 <= k <= s.len() && #[trigger] byte_len(s.take(k)) == cursor
}

/// Whether `new` is `old` with `c` inserted at the cursor and the cursor
/// moved past it.
pub open spec fn is_insert_result(old: FormField, c: char, new: FormField) -> bool {
    &&& exists|k: int|
        0 <= k <= old.value@.len() && byte_len(old.value@.take(k)) == old.cursor
            && #[trigger] new.value@ == old.value@.take(k).push(c) + old.value@.skip(k)
    &&& new.cursor == old.cursor + utf8_width(c)
}

/// Whether `new` is `old` with the character before the cursor deleted and
/// the cursor moved to where that character began; at the start, unchanged.
pub open spec fn is_backspace_result(old: FormField, new: FormField) -> bool {
    &&& old.cursor == 0 ==> new == old
    &&& old.cursor != 0 ==> exists|k: int|
        1 <= k <= old.value@.len() && byte_len(old.value@.take(k)) == old.cursor
            && #[trigger] new.value@ == old.value@.take(k - 1) + old.value@.skip(k) && new.cursor
            == byte_len(old.value@.take(k - 1))
}

/// A single editable text field in the host form.
#[derive(Debug, Clone)]
pub struct FormField {
    pub value: String,
    /// Cursor position (byte offset) within `value`.
    pub cursor: usize,
}

impl Default for FormField {
    fn default() -> (f: Self)
        ensures
            f.value@ == Seq::<char>::empty(),
            f.cursor == 0,
    {
        FormField { value: String::new(), cursor: 0 }
    }
}

/// Finds the character index whose byte offset is `cursor`.
fn char_index_of(v: &Vec<char>, cursor: usize) -> (k: usize)
    requires
        is_char_boundary(v@, cursor as int),
    ensures
        k <= v.len(),
        byte_len(v@.take(k as int)) == cursor,
{
    let ghost k0 = choose|k: int| 0 <= k <= v@.len() && #[trigger] byte_len(v@.take(k)) == cursor;
    let mut acc: usize = 0;
    let mut k: usize = 0;
    assert(v@.take(0) =~= Seq::<char>::empty());
    while acc < cursor
        invariant
            0 <= k0 <= v.len(),
            byte_len(v@.take(k0)) == cursor,
            k <= v.len(),
            acc == byte_len(v@.take(k as int)),
            acc <= cursor,
        decreases cursor - acc,
    {
        proof {
            if k >= k0 {
                lemma_byte_len_take_mono(v@, k0, k as int);
            }
            lemma_byte_len_take_step(v@, k as int);
            lemma_byte_len_take_mono(v@, k + 1, k0);
        }
        acc = acc + utf8_len(v[k]);
        k += 1;
    }
    k
}

impl FormField {
    /// A field holding `s` with the cursor at its end.
    pub fn with_value(s: &str) -> (f: FormField)
        ensures
            f.value@ == s@,
            f.cursor == byte_len(s@),
    {
        let value = s.to_owned();
        let cursor = utf8_byte_len(s);
        FormField { value, cursor }
    }

    /// Inserts `c` at the cursor and moves the cursor past it.
    pub fn insert_char(&mut self, c: char)
        requires
            is_char_boundary(old(self).value@, old(self).cursor as int),
        ensures
            is_insert_result(*old(self), c, *final(self)),
            is_char_boundary(final(self).value@, final(self).cursor as int),
    {
        let v = chars_of(self.value.as_str());
        let k = char_index_of(&v, self.cursor);
        let mut nv: Vec<char> = Vec::new();
        let mut i: usize = 0;
        while i < k
            invariant
                i <= k <= v.len(),
                nv@ == v@.take(i as int),
            decreases k - i,
        {
            nv.push(v[i]);
            assert(nv@ =~= v@.take(i + 1));
            i += 1;
        }
        nv.push(c);
        let ghost head = nv@;
        let mut j: usize = k;
        while j < v.len()
            invariant
                k <= j <= v.len(),
                nv@ == head + v@.subrange(k as int, j as int),
            decreases v.len() - j,
        {
            nv.push(v[j]);
            assert(nv@ =~= head + v@.subrange(k as int, j + 1));
            j += 1;
        }
        assert(nv@ =~= v@.take(k as int).push(c) + v@.skip(k as int));
        let s = string_from_chars(&nv);
        let total = utf8_byte_len(s.as_str());
        proof {
            lemma_byte_len_append(v@.take(k as int).push(c), v@.skip(k as int));
            assert(v@.take(k as int).push(c).drop_last() =~= v@.take(k as int));
        }
        self.value = s;
        self.cursor = self.cursor + utf8_len(c);
        proof {
            let nvv = v@.take(k as int).push(c) + v@.skip(k as int);
            assert(nvv.take(k + 1) =~= v@.take(k as int).push(c));
            assert(byte_len(nvv.take(k + 1)) == self.cursor);
            assert(0 <= k + 1 <= nvv.len());
        }
    }

    /// Deletes the character immediately before the cursor (backspace).
    pub fn backspace(&mut self)
        requires
            old(self).cursor == 0 || is_char_boundary(old(self).value@, old(self).cursor as int),
        ensures
            is_backspace_result(*old(self), *final(self)),
            is_char_boundary(final(self).value@, final(self).cursor as int),
    {
        if self.cursor == 0 {
            proof {
                assert(self.value@.take(0) =~= Seq::<char>::empty());
                assert(byte_len(self.value@.take(0)) == 0);
            }
            return ;
        }
        let v = chars_of(self.value.as_str());
        let k = char_index_of(&v, self.cursor);
        assert(v@.take(0) =~= Seq::<char>::empty());
        assert(k >= 1);
        let mut nv: Vec<char> = Vec::new();
        let mut i: usize = 0;
        while i < k - 1
            invariant
                1 <= k <= v.len(),
                i <= k - 1,
                nv@ == v@.take(i as int),
            decreases k - 1 - i,
        {
            nv.push(v[i]);
            assert(nv@ =~= v@.take(i + 1));
            i += 1;
        }
        let ghost head = nv@;
        let mut j: usize = k;
        while j < v.len()
            invariant
                k <= j <= v.len(),
                nv@ == head + v@.subrange(k as int, j as int),
            decreases v.len() - j,
        {
            nv.push(v[j]);
            assert(nv@ =~= head + v@.subrange(k as int, j + 1));
            j += 1;
        }
        assert(nv@ =~= v@.take(k - 1) + v@.skip(k as int));
        proof {
            lemma_byte_len_take_step(v@, k - 1);
        }
        let w = utf8_len(v[k - 1]);
        self.value = string_from_chars(&nv);
        self.cursor = self.cursor - w;
        proof {
            let nvv = v@.take(k - 1) + v@.skip(k as int);
            assert(nvv.take(k - 1) =~= v@.take(k - 1));
            assert(byte_len(nvv.take(k - 1)) == self.cursor);
        }
    }
}


proof fn lemma_boundary_index_unique(s: Seq<char>, j: int, k: int)
    requires
        0 <= j <= s.len(),
        0 <= k <= s.len(),
        byte_len(s.take(j)) == byte_len(s.take(k)),
    ensures
        j == k,
{
    if j < k {
        lemma_byte_len_take_mono(s, j, k);
    } else if k < j {
        lemma_byte_len_take_mono(s, k, j);
    }
}

/// Typing a character puts it at the cursor: the text before and after the
/// cursor is kept, and the cursor moves to just after the new character,
/// counted in bytes of the UTF-8 encoding.
pub proof fn lemma_insert_places_char(f0: FormField, c: char, f1: FormField)
    requires
        is_insert_result(f0, c, f1),
    ensures
        exists|k: int|
            #![trigger f1.value@[k]]
            0 <= k <= f0.value@.len() && vstd::utf8::encode_utf8(f0.value@.take(k)).len()
                == f0.cursor && f1.value@.len() == f0.value@.len() + 1 && f1.value@[k] == c
                && f1.value@.take(k) == f0.value@.take(k) && f1.value@.skip(k + 1) == f0.value@.skip(
                k,
            ) && vstd::utf8::encode_utf8(f1.value@.take(k + 1)).len() == f1.cursor,
{
    let s0 = f0.value@;
    let k = choose|k: int|
        0 <= k <= s0.len() && byte_len(s0.take(k)) == f0.cursor && #[trigger] f1.value@
            == s0.take(k).push(c) + s0.skip(k);
    let s1 = f1.value@;
    lemma_byte_len_is_encoding_len(s0.take(k));
    lemma_byte_len_is_encoding_len(s1.take(k + 1));
    assert(s1.take(k + 1) =~= s0.take(k).push(c));
    assert(s0.take(k).push(c).drop_last() =~= s0.take(k));
    assert(s1.take(k) =~= s0.take(k));
    assert(s1.skip(k + 1) =~= s0.skip(k));
    assert(s1[k] == c);
}

/// Backspace undoes typing a character: inserting `c` and then deleting the
/// character before the cursor gives back the text and the cursor.
pub proof fn lemma_backspace_undoes_insert(f0: FormField, c: char, f1: FormField, f2: FormField)
    requires
        is_insert_result(f0, c, f1),
        is_backspace_result(f1, f2),
    ensures
        f2.value@ == f0.value@,
        f2.cursor == f0.cursor,
{
    let s0 = f0.value@;
    let k = choose|k: int|
        0 <= k <= s0.len() && byte_len(s0.take(k)) == f0.cursor && #[trigger] f1.value@
            == s0.take(k).push(c) + s0.skip(k);
    let s1 = f1.value@;
    assert(s1.take(k + 1) =~= s0.take(k).push(c));
    assert(s0.take(k).push(c).drop_last() =~= s0.take(k));
    assert(byte_len(s1.take(k + 1)) == f1.cursor);
    assert(f1.cursor != 0);
    let k2 = choose|k2: int|
        1 <= k2 <= s1.len() && byte_len(s1.take(k2)) == f1.cursor && #[trigger] f2.value@
            == s1.take(k2 - 1) + s1.skip(k2) && f2.cursor == byte_len(s1.take(k2 - 1));
    lemma_boundary_index_unique(s1, k2, k + 1);
    assert(s1.take(k) =~= s0.take(k));
    assert(s1.skip(k + 1) =~= s0.skip(k));
    assert(s0.take(k) + s0.skip(k) =~= s0);
}

// ---------------------------------------------------------------------------
// The host form
// ---------------------------------------------------------------------------

/// The number of fields of the host form.
pub const FORM_FIELD_COUNT: usize = 10;

/// The label of field `i` of the host form.
pub open spec fn form_label_text(i: int) -> Seq<char> {
    if i == 0 {
        "Name"@
    } else if i == 1 {
        "Hostname / IP"@
    } else if i == 2 {
        "User"@
    } else if i == 3 {
        "Port"@
    } else if i == 4 {
        "Identity File"@
    } else if i == 5 {
        "Password (optional)"@
    } else if i == 6 {
        "Tags (comma-sep)"@
    } else if i == 7 {
        "Notes"@
    } else if i == 8 {
        "Monitoring (ssh | tcp | tcp:PORT)"@
    } else {
        "File Access (sftp | ftp | ftps | none)"@
    }
}

/// The label of each field of the host form, in field order.
pub fn form_field_label(i: usize) -> (r: &'static str)
    requires
        i < FORM_FIELD_COUNT,
    ensures
        r@ == form_label_text(i as int),
{
    match i {
        0 => "Name",
        1 => "Hostname / IP",
        2 => "User",
        3 => "Port",
        4 => "Identity File",
        5 => "Password (optional)",
        6 => "Tags (comma-sep)",
        7 => "Notes",
        8 => "Monitoring (ssh | tcp | tcp:PORT)",
        _ => "File Access (sftp | ftp | ftps | none)",
    }
}

/// The text of an optional field: the value, or empty.
pub open spec fn opt_text(s: Option<String>) -> Seq<char> {
    match s {
        Some(x) => x@,
        None => Seq::<char>::empty(),
    }
}

/// The text each field of the form shows for `host`, in field order.
pub open spec fn form_texts(host: Host) -> Seq<Seq<char>> {
    seq![
        host.name@,
        host.hostname@,
        host.user@,
        decimal(host.port as nat),
        opt_text(host.identity_file),
        opt_text(host.password),
        join_spec(views(host.tags@), ", "@),
        opt_text(host.notes),
        monitoring_text(host.monitoring, host.monitor_port),
        file_access_text(host.file_access),
    ]
}

/// The tags that a tags field holds: its comma-separated pieces, trimmed,
/// empty ones dropped.
pub open spec fn tags_spec(v: Seq<char>) -> Seq<Seq<char>> {
    nonempty_trimmed(split_spec(v, ','))
}

/// The trimmed pieces that are not empty, in order.
pub open spec fn nonempty_trimmed(pieces: Seq<Seq<char>>) -> Seq<Seq<char>>
    decreases pieces.len(),
{
    if pieces.len() == 0 {
        Seq::<Seq<char>>::empty()
    } else {
        let r = nonempty_trimmed(pieces.drop_last());
        let t = trim_spec(pieces.last());
        if t.len() > 0 {
            r.push(t)
        } else {
            r
        }
    }
}

/// What the port field means once trimmed: empty is 22, else a number from 1
/// to 65535.
pub open spec fn port_field_spec(t: Seq<char>) -> Option<u16> {
    if t.len() == 0 {
        Some(22u16)
    } else if parse_u16_spec(t) is Some && parse_u16_spec(t)->0 != 0 {
        parse_u16_spec(t)
    } else {
        None
    }
}

/// The message for a refused port field.
pub open spec fn port_error(t: Seq<char>) -> Seq<char> {
    "Port must be a number between 1 and 65535, got '"@ + t + "'"@
}

/// The first complaint about the (untrimmed) field texts `f`, in field order,
/// or none when they make a valid host.
pub open spec fn form_error(f: Seq<Seq<char>>) -> Option<Seq<char>> {
    if trim_spec(f[0]).len() == 0 {
        Some("Name cannot be empty"@)
    } else if trim_spec(f[1]).len() == 0 {
        Some("Hostname / IP cannot be empty"@)
    } else if port_field_spec(trim_spec(f[3])) is None {
        Some(port_error(trim_spec(f[3])))
    } else if parse_monitoring_spec(trim_spec(f[8])) is None {
        Some(monitoring_error(trim_spec(f[8])))
    } else if parse_file_access_spec(trim_spec(f[9])) is None {
        Some(file_access_error(trim_spec(f[9])))
    } else {
        None
    }
}

/// An optional field once trimmed: empty means unset.
pub open spec fn optional_text(t: Seq<char>) -> Option<Seq<char>> {
    if trim_spec(t).len() == 0 {
        None
    } else {
        Some(trim_spec(t))
    }
}

/// The host that valid field texts `f` describe, with the given source.
pub open spec fn form_host_matches(f: Seq<Seq<char>>, source: HostSource, h: Host) -> bool {
    &&& h.name@ == trim_spec(f[0])
    &&& h.hostname@ == trim_spec(f[1])
    &&& h.user@ == (if trim_spec(f[2]).len() == 0 {
        "root"@
    } else {
        trim_spec(f[2])
    })
    &&& h.port == port_field_spec(trim_spec(f[3]))->0
    &&& opt_view(h.identity_file) == optional_text(f[4])
    &&& opt_view(h.password) == optional_text(f[5])
    &&& views(h.tags@) == tags_spec(f[6])
    &&& opt_view(h.notes) == optional_text(f[7])
    &&& (h.monitoring, h.monitor_port) == parse_monitoring_spec(trim_spec(f[8]))->0
    &&& h.file_access == parse_file_access_spec(trim_spec(f[9]))->0
    &&& h.source == source
    &&& h.proxy_jump is None
    &&& h.original_ssh_host is None
    &&& h.ftp_user is None
    &&& h.ftp_password is None
    &&& h.ftp_port is None
    &&& h.key_setup_date is None
    &&& h.password_auth_disabled is None
}

/// The host add/edit form, containing all editable fields.
#[derive(Debug, Clone)]
pub struct HostForm {
    /// One field per label, in label order.
    pub fields: Vec<FormField>,
    /// Index of the currently focused field.
    pub focused_field: usize,
}

/// The texts of a sequence of fields.
pub open spec fn field_texts(fields: Seq<FormField>) -> Seq<Seq<char>> {
    fields.map_values(|f: FormField| f.value@)
}

/// The trimmed text of a field, as a character vector.
fn trimmed_field(f: &FormField) -> (r: Vec<char>)
    ensures
        r@ == trim_spec(f.value@),
{
    let v = chars_of(f.value.as_str());
    trim_chars(&v)
}

/// An optional field: `None` when its trimmed text is empty.
fn optional_field(f: &FormField) -> (r: Option<String>)
    ensures
        opt_view(r) == optional_text(f.value@),
{
    let t = trimmed_field(f);
    if t.len() == 0 {
        None
    } else {
        Some(string_from_chars(&t))
    }
}

/// The tags of a tags field.
fn tags_field(f: &FormField) -> (r: Vec<String>)
    ensures
        views(r@) == tags_spec(f.value@),
{
    let v = chars_of(f.value.as_str());
    let pieces = split_chars(&v, ',');
    let ghost pv = pieces@.map_values(|p: Vec<char>| p@);
    let mut out: Vec<String> = Vec::new();
    let mut i: usize = 0;
    while i < pieces.len()
        invariant
            i <= pieces.len(),
            pv == pieces@.map_values(|p: Vec<char>| p@),
            pv == split_spec(v@, ','),
            views(out@) == nonempty_trimmed(pv.take(i as int)),
        decreases pieces.len() - i,
    {
        let t = trim_chars(&pieces[i]);
        proof {
            assert(pv.take(i + 1).drop_last() =~= pv.take(i as int));
            assert(pv.take(i + 1).last() == pieces@[i as int]@);
        }
        if t.len() > 0 {
            let ghost before = out@;
            out.push(string_from_chars(&t));
            assert(views(out@) =~= views(before).push(t@));
        }
        i += 1;
    }
    assert(pv.take(pieces.len() as int) =~= pv);
    out
}

impl HostForm {
    /// Creates an empty form for adding a new host.
    pub fn empty() -> (form: HostForm)
        ensures
            form.fields.len() == FORM_FIELD_COUNT,
            forall|i: int|
                0 <= i < FORM_FIELD_COUNT ==> (#[trigger] form.fields@[i]).value@
                    == Seq::<char>::empty() && form.fields@[i].cursor == 0,
            form.focused_field == 0,
    {
        let mut fields: Vec<FormField> = Vec::new();
        let mut i: usize = 0;
        while i < FORM_FIELD_COUNT
            invariant
                i <= FORM_FIELD_COUNT,
                fields.len() == i,
                forall|j: int|
                    0 <= j < i ==> (#[trigger] fields@[j]).value@ == Seq::<char>::empty()
                        && fields@[j].cursor == 0,
            decreases FORM_FIELD_COUNT - i,
        {
            fields.push(FormField::default());
            i += 1;
        }
        HostForm { fields, focused_field: 0 }
    }

    /// Creates a form pre-filled from an existing host (for editing).
    pub fn from_host(host: &Host) -> (form: HostForm)
        ensures
            form.fields.len() == FORM_FIELD_COUNT,
            field_texts(form.fields@) == form_texts(*host),
            forall|i: int|
                0 <= i < FORM_FIELD_COUNT ==> (#[trigger] form.fields@[i]).cursor == byte_len(
                    form.fields@[i].value@,
                ),
            form.focused_field == 0,
    {
        let port_text = format_u16(host.port);
        let tags_text = join_strings(&host.tags, ", ");
        let identity = match &host.identity_file {
            Some(s) => copy_string(s),
            None => String::new(),
        };
        let password = match &host.password {
            Some(s) => copy_string(s),
            None => String::new(),
        };
        let notes = match &host.notes {
            Some(s) => copy_string(s),
            None => String::new(),
        };
        let monitoring = monitoring_value(host);
        let mut fields: Vec<FormField> = Vec::new();
        fields.push(FormField::with_value(host.name.as_str()));
        fields.push(FormField::with_value(host.hostname.as_str()));
        fields.push(FormField::with_value(host.user.as_str()));
        fields.push(FormField::with_value(port_text.as_str()));
        fields.push(FormField::with_value(identity.as_str()));
        fields.push(FormField::with_value(password.as_str()));
        fields.push(FormField::with_value(tags_text.as_str()));
        fields.push(FormField::with_value(notes.as_str()));
        fields.push(FormField::with_value(monitoring.as_str()));
        fields.push(FormField::with_value(file_access_value(host)));
        assert(field_texts(fields@) =~= form_texts(*host));
        HostForm { fields, focused_field: 0 }
    }

    /// Validates the form and converts it into a [`Host`].
    ///
    /// Returns a human-readable error string if validation fails.
    pub fn to_host(&self, source: HostSource) -> (r: Result<Host, String>)
        requires
            self.fields.len() >= FORM_FIELD_COUNT,
        ensures
            match r {
                Ok(h) => form_error(field_texts(self.fields@)) is None && form_host_matches(
                    field_texts(self.fields@),
                    source,
                    h,
                ),
                Err(e) => form_error(field_texts(self.fields@)) == Some(e@),
            },
    {
        let ghost f = field_texts(self.fields@);
        assert(f[0] == self.fields@[0].value@);
        assert(f[1] == self.fields@[1].value@);
        assert(f[2] == self.fields@[2].value@);
        assert(f[3] == self.fields@[3].value@);
        assert(f[4] == self.fields@[4].value@);
        assert(f[5] == self.fields@[5].value@);
        assert(f[6] == self.fields@[6].value@);
        assert(f[7] == self.fields@[7].value@);
        assert(f[8] == self.fields@[8].value@);
        assert(f[9] == self.fields@[9].value@);
        let name = trimmed_field(&self.fields[0]);
        if name.len() == 0 {
            return Err("Name cannot be empty".to_owned());
        }
        let hostname = trimmed_field(&self.fields[1]);
        if hostname.len() == 0 {
            return Err("Hostname / IP cannot be empty".to_owned());
        }
        let user_text = trimmed_field(&self.fields[2]);
        let user = if user_text.len() == 0 {
            "root".to_owned()
        } else {
            string_from_chars(&user_text)
        };
        let port_text = trimmed_field(&self.fields[3]);
        let port: u16 = if port_text.len() == 0 {
            22
        } else {
            match parse_u16(&port_text) {
                Some(p) => {
                    if p != 0 {
                        p
                    } else {
                        return Err(
                            concat_text(
                                "Port must be a number between 1 and 65535, got '",
                                &port_text,
                                "'",
                            ),
                        );
                    }
                },
                None => {
                    return Err(
                        concat_text(
                            "Port must be a number between 1 and 65535, got '",
                            &port_text,
                            "'",
                        ),
                    );
                },
            }
        };
        let identity_file = optional_field(&self.fields[4]);
        let password = optional_field(&self.fields[5]);
        let tags = tags_field(&self.fields[6]);
        let notes = optional_field(&self.fields[7]);
        let mon_text = string_from_chars(&trimmed_field(&self.fields[8]));
        let (monitoring, monitor_port) = match parse_monitoring(mon_text.as_str()) {
            Ok(m) => m,
            Err(e) => {
                return Err(e);
            },
        };
        let fa_text = string_from_chars(&trimmed_field(&self.fields[9]));
        let file_access = match parse_file_access(fa_text.as_str()) {
            Ok(a) => a,
            Err(e) => {
                return Err(e);
            },
        };
        Ok(
            Host {
                name: string_from_chars(&name),
                hostname: string_from_chars(&hostname),
                user,
                port,
                identity_file,
                password,
                proxy_jump: None,
                tags,
                notes,
                source,
                original_ssh_host: None,
                monitoring,
                monitor_port,
                file_access,
                ftp_user: None,
                ftp_password: None,
                ftp_port: None,
                key_setup_date: None,
                password_auth_disabled: None,
            },
        )
    }

    /// Move focus to the next field (wraps around).
    pub fn focus_next(&mut self)
        requires
            old(self).fields.len() > 0,
            old(self).focused_field < usize::MAX,
        ensures
            final(self).fields == old(self).fields,
            final(self).focused_field == (old(self).focused_field + 1) % (old(
                self,
            ).fields.len() as int),
    {
        self.focused_field = (self.focused_field + 1) % self.fields.len();
    }

    /// Move focus to the previous field (wraps around).
    pub fn focus_prev(&mut self)
        requires
            old(self).fields.len() > 0 || old(self).focused_field > 0,
        ensures
            final(self).fields == old(self).fields,
            final(self).focused_field == (if old(self).focused_field == 0 {
                old(self).fields.len() - 1
            } else {
                old(self).focused_field - 1
            }),
    {
        if self.focused_field == 0 {
            self.focused_field = self.fields.len() - 1;
        } else {
            self.focused_field -= 1;
        }
    }
}

// ---------------------------------------------------------------------------
// Round trips through the form
// ---------------------------------------------------------------------------

/// A monitoring mode written into the form reads back as the same mode and
/// probe port, for every pair the form can express: the SSH mode carries no
/// probe port, and a probe port is never 0.
pub proof fn lemma_monitoring_round_trip(mode: MonitorMode, port: Option<u16>)
    requires
        mode == MonitorMode::Ssh ==> port is None,
        port is Some ==> port->0 != 0,
    ensures
        parse_monitoring_spec(monitoring_text(mode, port)) == Some((mode, port)),
{
    reveal_strlit("ssh");
    reveal_strlit("tcp");
    reveal_strlit("tcp:");
    assert("ssh"@.len() == 3 && "tcp"@.len() == 3 && "tcp:"@.len() == 4);
    match port {
        Some(p) => {
            let t = monitoring_text(mode, port);
            assert(mode == MonitorMode::TcpPort);
            let d = decimal(p as nat);
            lemma_decimal(p as nat);
            lemma_parse_decimal(p);
            assert(t.take(4) =~= "tcp:"@);
            assert(t.skip(4) =~= d);
            assert(t.len() > 4);
            assert(t != Seq::<char>::empty());
            assert(t != "ssh"@);
            assert(t != "tcp"@);
        },
        None => {
            if mode == MonitorMode::TcpPort {
                assert("tcp"@[0] != "ssh"@[0]);
                assert("tcp"@ != Seq::<char>::empty());
            }
        },
    }
}

/// A file-access protocol written into the form reads back as itself.
pub proof fn lemma_file_access_round_trip(a: FileAccess)
    ensures
        parse_file_access_spec(file_access_text(a)) == Some(a),
{
    reveal_strlit("sftp");
    reveal_strlit("ftp");
    reveal_strlit("ftps");
    reveal_strlit("none");
    assert("ftp"@.len() == 3 && "ftps"@.len() == 4 && "none"@.len() == 4 && "sftp"@.len() == 4);
    assert("ftp"@ != Seq::<char>::empty());
    assert("ftps"@ != Seq::<char>::empty());
    assert("none"@ != Seq::<char>::empty());
    assert("ftps"@[0] != "sftp"@[0]);
    assert("none"@[0] != "sftp"@[0]);
    assert("none"@[0] != "ftps"@[0]);
    assert("ftp"@ != "sftp"@);
    assert("ftps"@ != "sftp"@);
    assert("none"@ != "sftp"@);
    assert("none"@ != "ftps"@);
    assert("none"@ != "ftp"@);
}

/// Whether a text has no whitespace at either end.
pub open spec fn is_trimmed(s: Seq<char>) -> bool {
    trim_spec(s) == s
}

/// A host whose connection fields the form shows and reads back unchanged:
/// trimmed, non-empty name, address and login, a port other than 0, optional
/// secrets that are trimmed and non-empty, and a monitoring mode the form can
/// express.
pub open spec fn form_round_trips(h: Host) -> bool {
    &&& h.name@.len() > 0 && is_trimmed(h.name@)
    &&& h.hostname@.len() > 0 && is_trimmed(h.hostname@)
    &&& h.user@.len() > 0 && is_trimmed(h.user@)
    &&& h.port != 0
    &&& (h.identity_file is Some ==> h.identity_file->0@.len() > 0 && is_trimmed(h.identity_file->0@))
    &&& (h.password is Some ==> h.password->0@.len() > 0 && is_trimmed(h.password->0@))
    &&& (h.monitoring == MonitorMode::Ssh ==> h.monitor_port is None)
    &&& (h.monitor_port is Some ==> h.monitor_port->0 != 0)
}

proof fn lemma_monitoring_text_trimmed(mode: MonitorMode, port: Option<u16>)
    ensures
        is_trimmed(monitoring_text(mode, port)),
{
    reveal_strlit("tcp");
    reveal_strlit("tcp:");
    let t = monitoring_text(mode, port);
    match (mode, port) {
        (MonitorMode::TcpPort, Some(p)) => {
            lemma_decimal(p as nat);
            assert(t.last() == decimal(p as nat).last());
            assert(t[0] == 't');
        },
        (MonitorMode::TcpPort, None) => {
            assert(t[0] == 't' && t.last() == 'p');
        },
        _ => {},
    }
    lemma_trim_of_trimmed(t);
}

proof fn lemma_file_access_text_trimmed(a: FileAccess)
    ensures
        is_trimmed(file_access_text(a)),
{
    reveal_strlit("ftp");
    reveal_strlit("ftps");
    reveal_strlit("none");
    let t = file_access_text(a);
    lemma_trim_of_trimmed(t);
}

/// Whether two hosts agree on every connection field the form shows.
pub open spec fn same_form_connection_fields(a: Host, b: Host) -> bool {
    &&& a.name@ == b.name@
    &&& a.hostname@ == b.hostname@
    &&& a.user@ == b.user@
    &&& a.port == b.port
    &&& opt_view(a.identity_file) == opt_view(b.identity_file)
    &&& opt_view(a.password) == opt_view(b.password)
    &&& a.monitoring == b.monitoring
    &&& a.monitor_port == b.monitor_port
}

/// Opening the form on a host whose connection fields the form can express
/// and confirming it unchanged succeeds: the form's texts raise no error.
pub proof fn lemma_form_round_trip_succeeds(h: Host)
    requires
        form_round_trips(h),
    ensures
        form_error(form_texts(h)) is None,
{
    let f = form_texts(h);
    lemma_decimal(h.port as nat);
    lemma_trim_of_trimmed(decimal(h.port as nat));
    lemma_parse_decimal(h.port);
    lemma_monitoring_text_trimmed(h.monitoring, h.monitor_port);
    lemma_monitoring_round_trip(h.monitoring, h.monitor_port);
    lemma_file_access_text_trimmed(h.file_access);
    lemma_file_access_round_trip(h.file_access);
    assert(f[3] == decimal(h.port as nat));
    assert(port_field_spec(trim_spec(f[3])) == Some(h.port));
}

/// Opening the form on a host and confirming it unchanged succeeds and gives
/// back every connection field the form shows; for a host without bastion
/// and rename origin (the form has no field for either), the result differs
/// in nothing a running poller reads.
pub proof fn lemma_form_round_trip_keeps_poller_inputs(h: Host, source: HostSource, h2: Host)
    requires
        form_round_trips(h),
        form_host_matches(form_texts(h), source, h2),
    ensures
        form_error(form_texts(h)) is None,
        same_form_connection_fields(h, h2),
        h.proxy_jump is None && h.original_ssh_host is None ==> !poller_inputs_differ(h, h2),
{
    let f = form_texts(h);
    reveal_strlit("root");
    lemma_decimal(h.port as nat);
    lemma_trim_of_trimmed(decimal(h.port as nat));
    lemma_parse_decimal(h.port);
    lemma_monitoring_text_trimmed(h.monitoring, h.monitor_port);
    lemma_monitoring_round_trip(h.monitoring, h.monitor_port);
    lemma_file_access_text_trimmed(h.file_access);
    lemma_file_access_round_trip(h.file_access);
    assert(trim_spec(Seq::<char>::empty()) == Seq::<char>::empty());
    assert(f[3] == decimal(h.port as nat));
    assert(port_field_spec(trim_spec(f[3])) == Some(h.port));
    match h.identity_file {
        Some(x) => assert(optional_text(f[4]) == Some(x@)),
        None => assert(optional_text(f[4]) is None),
    }
    match h.password {
        Some(x) => assert(optional_text(f[5]) == Some(x@)),
        None => assert(optional_text(f[5]) is None),
    }
}

/// A confirmed form gives a host named and addressed by its trimmed fields,
/// logging in as `root` when the login field is blank and on port 22 when
/// the port field is blank; a written port is the number it spells, never 0,
/// and a blank key path, password or notes field leaves that field unset.
pub proof fn lemma_form_host_defaults(f: Seq<Seq<char>>, source: HostSource, h: Host)
    requires
        form_error(f) is None,
        form_host_matches(f, source, h),
    ensures
        h.name@ == trim_spec(f[0]) && h.name@.len() > 0,
        h.hostname@ == trim_spec(f[1]) && h.hostname@.len() > 0,
        trim_spec(f[2]).len() == 0 ==> h.user@ == "root"@,
        trim_spec(f[2]).len() > 0 ==> h.user@ == trim_spec(f[2]),
        trim_spec(f[3]).len() == 0 ==> h.port == 22,
        trim_spec(f[3]).len() > 0 ==> parse_u16_spec(trim_spec(f[3])) == Some(h.port),
        h.port != 0,
        trim_spec(f[4]).len() == 0 ==> h.identity_file is None,
        trim_spec(f[5]).len() == 0 ==> h.password is None,
        trim_spec(f[7]).len() == 0 ==> h.notes is None,
        h.source == source,
{
    if trim_spec(f[4]).len() == 0 {
        assert(opt_view(h.identity_file) is None);
    }
    if trim_spec(f[5]).len() == 0 {
        assert(opt_view(h.password) is None);
    }
    if trim_spec(f[7]).len() == 0 {
        assert(opt_view(h.notes) is None);
    }
}

/// Whether a tag is written into the comma-separated tags field and read
/// back unchanged: non-empty, trimmed, without a comma.
pub open spec fn is_plain_tag(t: Seq<char>) -> bool {
    t.len() > 0 && is_trimmed(t) && !t.contains(',')
}

/// The pieces that splitting the first `n` tags joined with `", "` at commas
/// gives: the first tag, then each further tag behind a space.
pub open spec fn tag_pieces(tags: Seq<Seq<char>>, n: nat) -> Seq<Seq<char>>
    decreases n,
{
    if n == 0 {
        seq![Seq::<char>::empty()]
    } else if n == 1 {
        seq![tags[0]]
    } else {
        tag_pieces(tags, (n - 1) as nat).push(seq![' '] + tags[n - 1])
    }
}

proof fn lemma_split_joined_tags(tags: Seq<Seq<char>>, n: nat)
    requires
        n <= tags.len(),
        forall|i: int| 0 <= i < tags.len() ==> is_plain_tag(#[trigger] tags[i]),
    ensures
        split_spec(join_spec(tags.take(n as int), ", "@), ',') == tag_pieces(tags, n),
    decreases n,
{
    reveal_strlit(", ");
    if n == 0 {
        assert(tags.take(0) =~= Seq::<Seq<char>>::empty());
    } else if n == 1 {
        let t = tags[0];
        assert(is_plain_tag(t));
        assert(join_spec(tags.take(1), ", "@) == t);
        lemma_split_append_run(Seq::<char>::empty(), t, ',');
        assert(Seq::<char>::empty() + t =~= t);
        assert(Seq::<char>::empty() + t =~= t);
        assert(seq![Seq::<char>::empty()].update(0, Seq::<char>::empty() + t) =~= seq![t]);
    } else {
        lemma_split_joined_tags(tags, (n - 1) as nat);
        let t = tags[n - 1];
        assert(is_plain_tag(t));
        assert(tags.take(n as int).drop_last() =~= tags.take(n - 1));
        assert(tags.take(n as int).last() == t);
        let j = join_spec(tags.take(n - 1), ", "@);
        let st = seq![' '] + t;
        assert(!st.contains(',')) by {
            if st.contains(',') {
                let k = choose|k: int| 0 <= k < st.len() && st[k] == ',';
                assert(k > 0);
                assert(t[k - 1] == ',');
                assert(t.contains(','));
            }
        }
        assert(j + ", "@ + t =~= j.push(',') + st);
        lemma_split_append_run(j.push(','), st, ',');
        assert(j.push(',').drop_last() =~= j);
        let p = split_spec(j, ',');
        assert(split_spec(j.push(','), ',') == p.push(Seq::<char>::empty()));
        assert(Seq::<char>::empty() + st =~= st);
        assert(p.push(Seq::<char>::empty()).update(p.len() as int, Seq::<char>::empty() + st) =~= p.push(st));
    }
}

proof fn lemma_trim_after_space(t: Seq<char>)
    requires
        t.len() > 0,
        is_trimmed(t),
    ensures
        trim_spec(seq![' '] + t) == t,
{
    let st = seq![' '] + t;
    assert(st.drop_first() =~= t);
    assert(trim_start_spec(st) == trim_start_spec(t));
}

proof fn lemma_trimmed_pieces(tags: Seq<Seq<char>>, n: nat)
    requires
        n <= tags.len(),
        forall|i: int| 0 <= i < tags.len() ==> is_plain_tag(#[trigger] tags[i]),
    ensures
        nonempty_trimmed(tag_pieces(tags, n)) == tags.take(n as int),
    decreases n,
{
    if n == 0 {
        assert(trim_spec(Seq::<char>::empty()) == Seq::<char>::empty());
        assert(seq![Seq::<char>::empty()].drop_last() =~= Seq::<Seq<char>>::empty());
        assert(tags.take(0) =~= Seq::<Seq<char>>::empty());
        assert(nonempty_trimmed(Seq::<Seq<char>>::empty()) == Seq::<Seq<char>>::empty());
    } else if n == 1 {
        assert(is_plain_tag(tags[0]));
        assert(seq![tags[0]].drop_last() =~= Seq::<Seq<char>>::empty());
        assert(nonempty_trimmed(Seq::<Seq<char>>::empty()) == Seq::<Seq<char>>::empty());
        assert(seq![tags[0]].last() == tags[0]);
        assert(trim_spec(tags[0]) == tags[0]);
        assert(Seq::<Seq<char>>::empty().push(tags[0]) =~= seq![tags[0]]);
        assert(tags.take(1) =~= seq![tags[0]]);
    } else {
        lemma_trimmed_pieces(tags, (n - 1) as nat);
        let t = tags[n - 1];
        assert(is_plain_tag(t));
        lemma_trim_after_space(t);
        let p = tag_pieces(tags, (n - 1) as nat);
        assert(p.push(seq![' '] + t).drop_last() =~= p);
        assert(tags.take(n as int) =~= tags.take(n - 1).push(t));
    }
}

/// Tags written into the tags field read back as the same tags, when each is
/// non-empty, trimmed and free of commas.
pub proof fn lemma_tags_round_trip(tags: Seq<Seq<char>>)
    requires
        forall|i: int| 0 <= i < tags.len() ==> is_plain_tag(#[trigger] tags[i]),
    ensures
        tags_spec(join_spec(tags, ", "@)) == tags,
{
    lemma_split_joined_tags(tags, tags.len());
    lemma_trimmed_pieces(tags, tags.len());
    assert(tags.take(tags.len() as int) =~= tags);
}

/// Opening the form on a host whose every form field the form can express
/// and confirming it unchanged gives back all of them: the connection
/// fields, the tags, the notes and the file access.
pub proof fn lemma_form_round_trip_all_fields(h: Host, source: HostSource, h2: Host)
    requires
        form_round_trips(h),
        forall|i: int| 0 <= i < h.tags@.len() ==> is_plain_tag(#[trigger] h.tags@[i]@),
        h.notes is Some ==> h.notes->0@.len() > 0 && is_trimmed(h.notes->0@),
        form_host_matches(form_texts(h), source, h2),
    ensures
        same_form_connection_fields(h, h2),
        views(h2.tags@) == views(h.tags@),
        opt_view(h2.notes) == opt_view(h.notes),
        h2.file_access == h.file_access,
        h2.source == source,
{
    lemma_form_round_trip_keeps_poller_inputs(h, source, h2);
    lemma_file_access_text_trimmed(h.file_access);
    lemma_file_access_round_trip(h.file_access);
    let tv = views(h.tags@);
    assert forall|i: int| 0 <= i < tv.len() implies is_plain_tag(#[trigger] tv[i]) by {
        assert(tv[i] == h.tags@[i]@);
    }
    lemma_tags_round_trip(tv);
    assert(trim_spec(Seq::<char>::empty()) == Seq::<char>::empty());
    match h.notes {
        Some(x) => assert(optional_text(form_texts(h)[7]) == Some(x@)),
        None => assert(optional_text(form_texts(h)[7]) is None),
    }
}

} // verus!
