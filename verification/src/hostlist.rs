//! The dashboard's host list: text search, tag filter, sort orders,
//! selection, the tag picker, and what confirming the host popups does.
use crate::client::{ConnectionStatus, Host};
use crate::form::HostForm;
use crate::order::{key_lt, key_views, precedes, sort_positions, is_permutation_of_range, OrderKey};
use crate::text::{chars_of, compare_chars, contains_chars, lemma_text_lt_irreflexive, lemma_text_lt_total, lemma_text_lt_transitive, lowercase, lowercase_chars, string_from_chars, text_contains, text_lt, views};
use vstd::prelude::*;

verus! {

// ---------------------------------------------------------------------------
// Text search
// ---------------------------------------------------------------------------

/// Whether `host` matches the search text `q`: case-insensitively, `q` occurs
/// in the name, the address, a tag or the notes.
pub open spec fn host_matches(host: Host, q: Seq<char>) -> bool {
    let lq = lowercase(q);
    ||| text_contains(lowercase(host.name@), lq)
    ||| text_contains(lowercase(host.hostname@), lq)
    ||| exists|j: int|
        0 <= j < host.tags@.len() && text_contains(lowercase(#[trigger] host.tags@[j]@), lq)
    ||| (host.notes is Some && text_contains(lowercase(host.notes->0@), lq))
}

/// The indices below `n` of the hosts that match `q` (all of them when `q` is
/// empty), in increasing order.
pub open spec fn matching_indices(hosts: Seq<Host>, q: Seq<char>, n: nat) -> Seq<usize>
    decreases n,
{
    if n == 0 {
        Seq::<usize>::empty()
    } else {
        let r = matching_indices(hosts, q, (n - 1) as nat);
        if q.len() == 0 || host_matches(hosts[n - 1], q) {
            r.push((n - 1) as usize)
        } else {
            r
        }
    }
}

/// Whether `s` is strictly increasing with every element below `n`.
pub open spec fn increasing_below(s: Seq<usize>, n: nat) -> bool {
    &&& forall|i: int, j: int| 0 <= i < j < s.len() ==> #[trigger] s[i] < #[trigger] s[j]
    &&& forall|i: int| 0 <= i < s.len() ==> #[trigger] s[i] < n
}

proof fn lemma_matching_increasing(hosts: Seq<Host>, q: Seq<char>, n: nat)
    requires
        n <= usize::MAX,
    ensures
        increasing_below(matching_indices(hosts, q, n), n),
    decreases n,
{
    if n > 0 {
        lemma_matching_increasing(hosts, q, (n - 1) as nat);
        let r = matching_indices(hosts, q, (n - 1) as nat);
        let r2 = r.push((n - 1) as usize);
        assert forall|i: int, j: int| 0 <= i < j < r2.len() implies #[trigger] r2[i] < #[trigger] r2[j] by {
            if j < r.len() {
                assert(r2[i] == r[i] && r2[j] == r[j]);
            } else {
                assert(r2[i] == r[i]);
                assert(r[i] < n - 1);
                assert(r2[j] == n - 1);
            }
        }
        assert forall|i: int| 0 <= i < r2.len() implies #[trigger] r2[i] < n by {
            if i < r.len() {
                assert(r2[i] == r[i]);
            }
        }
    }
}

fn host_matches_exec(host: &Host, lq: &Vec<char>, Ghost(q): Ghost<Seq<char>>) -> (r: bool)
    requires
        lq@ == lowercase(q),
    ensures
        r == host_matches(*host, q),
{
    if contains_chars(&lowercase_chars(host.name.as_str()), lq) {
        return true;
    }
    if contains_chars(&lowercase_chars(host.hostname.as_str()), lq) {
        return true;
    }
    let mut j: usize = 0;
    while j < host.tags.len()
        invariant
            j <= host.tags.len(),
            lq@ == lowercase(q),
            forall|t: int| 0 <= t < j ==> !text_contains(lowercase(#[trigger] host.tags@[t]@), lq@),
        decreases host.tags.len() - j,
    {
        if contains_chars(&lowercase_chars(host.tags[j].as_str()), lq) {
            return true;
        }
        j += 1;
    }
    match &host.notes {
        Some(n) => contains_chars(&lowercase_chars(n.as_str()), lq),
        None => false,
    }
}

/// Simple case-insensitive substring filter over name / hostname / tags / notes.
///
/// Returns the matching indices into `hosts`. When `query` is empty every
/// host matches.
pub fn filter_hosts(hosts: &[Host], query: &str) -> (r: Vec<usize>)
    ensures
        r@ == matching_indices(hosts@, query@, hosts@.len()),
        (lowercase(query@).len() == 0) == (query@.len() == 0),
{
    let lq = lowercase_chars(query);
    let empty = query.is_empty();
    let mut r: Vec<usize> = Vec::new();
    let mut i: usize = 0;
    while i < hosts.len()
        invariant
            i <= hosts@.len(),
            lq@ == lowercase(query@),
            empty == (query@.len() == 0),
            r@ == matching_indices(hosts@, query@, i as nat),
        decreases hosts@.len() - i,
    {
        if empty || host_matches_exec(&hosts[i], &lq, Ghost(query@)) {
            r.push(i);
        }
        i += 1;
    }
    r
}

proof fn lemma_contains_trans(a: Seq<char>, b: Seq<char>, c: Seq<char>)
    requires
        text_contains(a, b),
        text_contains(b, c),
    ensures
        text_contains(a, c),
{
    let i = choose|i: int| 0 <= i && i + b.len() <= a.len() && #[trigger] a.subrange(i, i + b.len()) == b;
    let j = choose|j: int| 0 <= j && j + c.len() <= b.len() && #[trigger] b.subrange(j, j + c.len()) == c;
    assert(a.subrange(i + j, i + j + c.len()) =~= c) by {
        assert forall|t: int| 0 <= t < c.len() implies a.subrange(i + j, i + j + c.len())[t] == c[t] by {
            assert(a.subrange(i, i + b.len())[j + t] == b[j + t]);
            assert(b.subrange(j, j + c.len())[t] == c[t]);
        }
    }
}

/// Narrowing the search never brings a host back: when the lower-case form
/// of `q1` contains that of `q2` (as typing more of a query does), every host
/// that `q1` matches also matches `q2`. The lower-case facts in `requires`
/// are those that `filter_hosts` states of each query it is given.
pub proof fn lemma_longer_query_matches_fewer(hosts: Seq<Host>, q1: Seq<char>, q2: Seq<char>, i: usize)
    requires
        hosts.len() <= usize::MAX,
        text_contains(lowercase(q1), lowercase(q2)),
        (lowercase(q1).len() == 0) == (q1.len() == 0),
        (lowercase(q2).len() == 0) == (q2.len() == 0),
        matching_indices(hosts, q1, hosts.len()).contains(i),
    ensures
        matching_indices(hosts, q2, hosts.len()).contains(i),
{
    lemma_matching_contains(hosts, q1, hosts.len(), i);
    lemma_matching_contains(hosts, q2, hosts.len(), i);
    if q2.len() > 0 {
        let l1 = lowercase(q1);
        let l2 = lowercase(q2);
        if q1.len() == 0 {
            let t = choose|t: int| 0 <= t && t + l2.len() <= l1.len() && #[trigger] l1.subrange(t, t + l2.len()) == l2;
            assert(false);
        }
        let h = hosts[i as int];
        if text_contains(lowercase(h.name@), l1) {
            lemma_contains_trans(lowercase(h.name@), l1, l2);
        } else if text_contains(lowercase(h.hostname@), l1) {
            lemma_contains_trans(lowercase(h.hostname@), l1, l2);
        } else if exists|j: int| 0 <= j < h.tags@.len() && text_contains(lowercase(#[trigger] h.tags@[j]@), l1) {
            let j = choose|j: int| 0 <= j < h.tags@.len() && text_contains(lowercase(#[trigger] h.tags@[j]@), l1);
            lemma_contains_trans(lowercase(h.tags@[j]@), l1, l2);
        } else {
            lemma_contains_trans(lowercase(h.notes->0@), l1, l2);
        }
    }
}

// ---------------------------------------------------------------------------
// Sort orders
// ---------------------------------------------------------------------------

/// The sort order of the dashboard grid.
#[derive(Debug, Clone, Copy, PartialEq, Eq, Structural)]
pub enum SortOrder {
    /// By name.
    Name,
    /// By CPU use, highest first.
    Cpu,
    /// By memory use, highest first.
    Ram,
    /// By connection status: connected, connecting, unknown, failed.
    Status,
}

impl Default for SortOrder {
    fn default() -> (r: Self)
        ensures
            r == SortOrder::Name,
    {
        SortOrder::Name
    }
}

/// The order key of a metric reading, for a reading that is absent. Readings
/// are percentages, handed in by the order key of their IEEE-754 value: the
/// bits read as an `i64`, with all but the sign bit flipped for negative
/// values, so that keys order as the values do. A host without a reading
/// sorts as a reading of -1.0, whose key this is.
pub const MISSING_READING_KEY: i64 = -4607182418800017409i64;

/// The live readings of one host that the dashboard sorts by, as order keys
/// (see [`MISSING_READING_KEY`]).
#[derive(Debug, Clone, Copy, PartialEq, Eq)]
pub struct HostReadings {
    /// CPU use, when known.
    pub cpu: Option<i64>,
    /// Memory use, when known.
    pub ram: Option<i64>,
}

/// The first entry of `table` for `name`.
pub open spec fn lookup<T>(table: Seq<(String, T)>, name: Seq<char>) -> Option<T>
    decreases table.len(),
{
    if table.len() == 0 {
        None
    } else if table[0].0@ == name {
        Some(table[0].1)
    } else {
        lookup(table.drop_first(), name)
    }
}

proof fn lemma_lookup_step<T>(table: Seq<(String, T)>, name: Seq<char>, i: int)
    requires
        0 <= i < table.len(),
        forall|j: int| 0 <= j < i ==> (#[trigger] table[j]).0@ != name,
    ensures
        lookup(table, name) == (if table[i].0@ == name {
            Some(table[i].1)
        } else {
            lookup(table.skip(i + 1), name)
        }),
    decreases i,
{
    if i > 0 {
        let t = table.drop_first();
        assert forall|j: int| 0 <= j < i - 1 implies (#[trigger] t[j]).0@ != name by {
            assert(t[j] == table[j + 1]);
        }
        lemma_lookup_step(t, name, i - 1);
        assert(t.skip(i) =~= table.skip(i + 1));
    } else {
        assert(table.skip(1) =~= table.drop_first());
    }
}

fn lookup_readings(table: &Vec<(String, HostReadings)>, name: &String) -> (r: Option<HostReadings>)
    ensures
        r == lookup(table@, name@),
{
    let mut i: usize = 0;
    while i < table.len()
        invariant
            i <= table.len(),
            forall|j: int| 0 <= j < i ==> (#[trigger] table@[j]).0@ != name@,
        decreases table.len() - i,
    {
        proof {
            lemma_lookup_step(table@, name@, i as int);
        }
        if table[i].0.eq(name) {
            return Some(table[i].1);
        }
        i += 1;
    }
    proof {
        if table@.len() > 0 {
            lemma_lookup_step(table@, name@, table@.len() - 1);
            assert(table@.skip(table@.len() as int) =~= Seq::<(String, HostReadings)>::empty());
        }
    }
    None
}

fn lookup_status<'a>(table: &'a Vec<(String, ConnectionStatus)>, name: &String) -> (r: Option<
    &'a ConnectionStatus,
>)
    ensures
        match r {
            Some(s) => lookup(table@, name@) == Some(*s),
            None => lookup(table@, name@) is None,
        },
{
    let mut i: usize = 0;
    while i < table.len()
        invariant
            i <= table.len(),
            forall|j: int| 0 <= j < i ==> (#[trigger] table@[j]).0@ != name@,
        decreases table.len() - i,
    {
        proof {
            lemma_lookup_step(table@, name@, i as int);
        }
        if table[i].0.eq(name) {
            return Some(&table[i].1);
        }
        i += 1;
    }
    proof {
        if table@.len() > 0 {
            lemma_lookup_step(table@, name@, table@.len() - 1);
            assert(table@.skip(table@.len() as int) =~= Seq::<(String, ConnectionStatus)>::empty());
        }
    }
    None
}

/// The rank of a connection status in the status sort (lower first).
pub open spec fn status_rank(status: Option<ConnectionStatus>) -> u8 {
    match status {
        Some(ConnectionStatus::Connected) => 0,
        Some(ConnectionStatus::Connecting) => 1,
        Some(ConnectionStatus::Unknown) => 2,
        None => 2,
        Some(ConnectionStatus::Failed(_)) => 3,
    }
}

/// Lower number = higher priority for status sort.
pub fn status_priority(status: Option<&ConnectionStatus>) -> (r: u8)
    ensures
        r == status_rank(
            match status {
                Some(s) => Some(*s),
                None => None,
            },
        ),
{
    match status {
        Some(ConnectionStatus::Connected) => 0,
        Some(ConnectionStatus::Connecting) => 1,
        Some(ConnectionStatus::Unknown) | None => 2,
        Some(ConnectionStatus::Failed(_)) => 3,
    }
}

/// The reading key that a sort by CPU or memory uses for a host.
pub open spec fn reading_key(readings: Option<HostReadings>, cpu: bool) -> i64 {
    match readings {
        Some(m) => {
            let v = if cpu {
                m.cpu
            } else {
                m.ram
            };
            match v {
                Some(k) => k,
                None => MISSING_READING_KEY,
            }
        },
        None => MISSING_READING_KEY,
    }
}

/// The key that `order` sorts host `h` by.
pub open spec fn host_sort_key(
    order: SortOrder,
    h: Host,
    metrics: Seq<(String, HostReadings)>,
    statuses: Seq<(String, ConnectionStatus)>,
) -> (int, Seq<char>) {
    match order {
        SortOrder::Name => (0, h.name@),
        SortOrder::Cpu => (-(reading_key(lookup(metrics, h.name@), true) as int), Seq::<char>::empty()),
        SortOrder::Ram => (-(reading_key(lookup(metrics, h.name@), false) as int), Seq::<char>::empty()),
        SortOrder::Status => (status_rank(lookup(statuses, h.name@)) as int, Seq::<char>::empty()),
    }
}

fn host_sort_key_exec(
    order: SortOrder,
    h: &Host,
    metrics: &Vec<(String, HostReadings)>,
    statuses: &Vec<(String, ConnectionStatus)>,
) -> (k: OrderKey)
    ensures
        k@ == host_sort_key(order, *h, metrics@, statuses@),
{
    match order {
        SortOrder::Name => OrderKey { major: 0, minor: chars_of(h.name.as_str()) },
        SortOrder::Cpu => {
            let v = match lookup_readings(metrics, &h.name) {
                Some(m) => match m.cpu {
                    Some(k) => k,
                    None => MISSING_READING_KEY,
                },
                None => MISSING_READING_KEY,
            };
            OrderKey { major: -(v as i128), minor: Vec::new() }
        },
        SortOrder::Ram => {
            let v = match lookup_readings(metrics, &h.name) {
                Some(m) => match m.ram {
                    Some(k) => k,
                    None => MISSING_READING_KEY,
                },
                None => MISSING_READING_KEY,
            };
            OrderKey { major: -(v as i128), minor: Vec::new() }
        },
        SortOrder::Status => {
            let p = status_priority(lookup_status(statuses, &h.name));
            OrderKey { major: p as i128, minor: Vec::new() }
        },
    }
}

/// Host index `x` comes before host index `y` in `order`: a smaller key, or
/// an equal key and a smaller index (the sort is stable).
pub open spec fn host_precedes(
    order: SortOrder,
    hosts: Seq<Host>,
    metrics: Seq<(String, HostReadings)>,
    statuses: Seq<(String, ConnectionStatus)>,
    x: int,
    y: int,
) -> bool {
    let kx = host_sort_key(order, hosts[x], metrics, statuses);
    let ky = host_sort_key(order, hosts[y], metrics, statuses);
    key_lt(kx, ky) || (kx == ky && x < y)
}

/// Whether host `h` carries the tag `tag`, when a tag filter is set.
pub open spec fn tag_ok(h: Host, tag: Option<String>) -> bool {
    match tag {
        Some(t) => exists|j: int| 0 <= j < h.tags@.len() && (#[trigger] h.tags@[j])@ == t@,
        None => true,
    }
}

/// The elements of `s` whose host carries the tag.
pub open spec fn with_tag(s: Seq<usize>, hosts: Seq<Host>, tag: Option<String>) -> Seq<usize>
    decreases s.len(),
{
    if s.len() == 0 {
        Seq::<usize>::empty()
    } else {
        let r = with_tag(s.drop_last(), hosts, tag);
        if tag_ok(hosts[s.last() as int], tag) {
            r.push(s.last())
        } else {
            r
        }
    }
}

proof fn lemma_with_tag(s: Seq<usize>, hosts: Seq<Host>, tag: Option<String>)
    requires
        increasing_below(s, hosts.len()),
    ensures
        increasing_below(with_tag(s, hosts, tag), hosts.len()),
        forall|x: usize|
            #[trigger] with_tag(s, hosts, tag).contains(x) <==> (s.contains(x) && tag_ok(
                hosts[x as int],
                tag,
            )),
    decreases s.len(),
{
    if s.len() > 0 {
        let d = s.drop_last();
        assert(increasing_below(d, hosts.len()));
        lemma_with_tag(d, hosts, tag);
        let r = with_tag(d, hosts, tag);
        assert forall|x: usize| #[trigger] s.contains(x) <==> (d.contains(x) || x == s.last()) by {
            if s.contains(x) {
                let k = choose|k: int| 0 <= k < s.len() && s[k] == x;
                if k < s.len() - 1 {
                    assert(d[k] == x);
                }
            }
            if d.contains(x) {
                let k = choose|k: int| 0 <= k < d.len() && d[k] == x;
                assert(s[k] == x);
            }
        }
        if tag_ok(hosts[s.last() as int], tag) {
            let r2 = r.push(s.last());
            assert forall|i: int| 0 <= i < r.len() implies #[trigger] r[i] < s.last() by {
                assert(r.contains(r[i]));
                let k = choose|k: int| 0 <= k < d.len() && d[k] == r[i];
                assert(s[k] == d[k]);
            }
            assert forall|x: usize| #[trigger] r2.contains(x) <==> (r.contains(x) || x == s.last()) by {
                if r2.contains(x) {
                    let k = choose|k: int| 0 <= k < r2.len() && r2[k] == x;
                    if k < r.len() {
                        assert(r[k] == x);
                    }
                }
                if r.contains(x) {
                    let k = choose|k: int| 0 <= k < r.len() && r[k] == x;
                    assert(r2[k] == x);
                }
                if x == s.last() {
                    assert(r2[r.len() as int] == x);
                }
            }
        }
    }
}

/// Whether `h` carries the tag `tag`.
fn has_tag(h: &Host, tag: &String) -> (r: bool)
    ensures
        r == tag_ok(*h, Some(*tag)),
{
    let mut j: usize = 0;
    while j < h.tags.len()
        invariant
            j <= h.tags@.len(),
            forall|t: int| 0 <= t < j ==> (#[trigger] h.tags@[t])@ != tag@,
        decreases h.tags@.len() - j,
    {
        if h.tags[j].eq(tag) {
            return true;
        }
        j += 1;
    }
    false
}

// ---------------------------------------------------------------------------
// The host-list view
// ---------------------------------------------------------------------------

/// Which popup is currently visible over the host list.
#[derive(Debug, Clone)]
pub enum HostPopup {
    /// Adding a new host.
    Add(HostForm),
    /// Editing an existing host (`host_idx` is the index in the host list).
    Edit { host_idx: usize, form: HostForm },
    /// Asking for confirmation before deleting (`host_idx`).
    DeleteConfirm(usize),
    /// Asking for confirmation to set up SSH key authentication.
    KeySetupConfirm(usize),
    /// Showing key setup progress: the host, and the position of the step
    /// under way in the key-setup flow, once one has started.
    KeySetupProgress { host_name: String, current_step: Option<usize> },
}

/// UI state specific to the host list / Dashboard screen.
#[derive(Debug)]
pub struct HostListView {
    /// Selected row index within `filtered_indices`.
    pub selected: usize,
    /// True when the user is actively typing a search query.
    pub search_mode: bool,
    /// Current search query.
    pub search_query: String,
    /// Indices into the host list that match the current query, sorted and
    /// tag-filtered according to `sort_order` / `tag_filter`.
    pub filtered_indices: Vec<usize>,
    /// Currently visible popup (if any).
    pub popup: Option<HostPopup>,
    /// Active sort order for the dashboard grid.
    pub sort_order: SortOrder,
    /// Active tag filter. `None` = show all hosts.
    pub tag_filter: Option<String>,
    /// Whether the tag-filter popup is open.
    pub tag_popup_open: bool,
    /// Selected index within the tag picker popup.
    pub tag_popup_selected: usize,
    /// All unique tags across all hosts (used by the tag picker popup).
    pub available_tags: Vec<String>,
}

impl Default for HostListView {
    fn default() -> (v: Self)
        ensures
            v.selected == 0,
            !v.search_mode,
            v.search_query@ == Seq::<char>::empty(),
            v.filtered_indices@.len() == 0,
            v.popup is None,
            v.sort_order == SortOrder::Name,
            v.tag_filter is None,
            !v.tag_popup_open,
            v.tag_popup_selected == 0,
            v.available_tags@.len() == 0,
    {
        HostListView {
            selected: 0,
            search_mode: false,
            search_query: String::new(),
            filtered_indices: Vec::new(),
            popup: None,
            sort_order: SortOrder::Name,
            tag_filter: None,
            tag_popup_open: false,
            tag_popup_selected: 0,
            available_tags: Vec::new(),
        }
    }
}

/// The selection after the list it points into changed to length `n`.
pub open spec fn clamped_selection(selected: usize, n: nat) -> usize {
    if n == 0 {
        0
    } else if selected >= n {
        (n - 1) as usize
    } else {
        selected
    }
}

/// Whether `order` lists exactly the hosts that pass the search and the tag
/// filter, each once, ordered by `host_precedes`.
pub open spec fn is_filtered_order(
    r: Seq<usize>,
    hosts: Seq<Host>,
    query: Seq<char>,
    tag: Option<String>,
    order: SortOrder,
    metrics: Seq<(String, HostReadings)>,
    statuses: Seq<(String, ConnectionStatus)>,
) -> bool {
    &&& forall|i: int| 0 <= i < r.len() ==> #[trigger] r[i] < hosts.len()
    &&& forall|x: usize|
        #[trigger] r.contains(x) <==> (x < hosts.len() && (query.len() == 0 || host_matches(
            hosts[x as int],
            query,
        )) && tag_ok(hosts[x as int], tag))
    &&& forall|i: int, j: int|
        0 <= i < j < r.len() ==> host_precedes(
            order,
            hosts,
            metrics,
            statuses,
            #[trigger] r[i] as int,
            #[trigger] r[j] as int,
        )
}

/// The search finds a host by any of the texts it shows: a host whose name,
/// address, one of its tags or its notes contain the query (ignoring case)
/// is listed, and an empty query lists every host.
pub proof fn lemma_search_finds_any_field(hosts: Seq<Host>, q: Seq<char>, x: usize)
    requires
        hosts.len() <= usize::MAX,
        x < hosts.len(),
        ({
            let h = hosts[x as int];
            let lq = lowercase(q);
            ||| q.len() == 0
            ||| text_contains(lowercase(h.name@), lq)
            ||| text_contains(lowercase(h.hostname@), lq)
            ||| (exists|j: int|
                0 <= j < h.tags@.len() && text_contains(lowercase(#[trigger] h.tags@[j]@), lq))
            ||| (h.notes matches Some(n) && text_contains(lowercase(n@), lq))
        }),
    ensures
        matching_indices(hosts, q, hosts.len()).contains(x),
{
    lemma_matching_contains(hosts, q, hosts.len(), x);
}

/// With a tag filter set, every listed host carries the tag, and every host
/// that matches the search and carries the tag is listed.
pub proof fn lemma_tag_filter(
    r: Seq<usize>,
    hosts: Seq<Host>,
    query: Seq<char>,
    t: String,
    order: SortOrder,
    metrics: Seq<(String, HostReadings)>,
    statuses: Seq<(String, ConnectionStatus)>,
)
    requires
        is_filtered_order(r, hosts, query, Some(t), order, metrics, statuses),
    ensures
        forall|i: int|
            0 <= i < r.len() ==> exists|j: int|
                0 <= j < hosts[#[trigger] r[i] as int].tags@.len() && hosts[r[i] as int].tags@[j]@
                    == t@,
        forall|x: usize|
            x < hosts.len() && (query.len() == 0 || host_matches(hosts[x as int], query)) && (exists|
                j: int,
            |
                0 <= j < hosts[x as int].tags@.len() && (#[trigger] hosts[x as int].tags@[j])@ == t@)
                ==> #[trigger] r.contains(x),
{
    assert forall|i: int| 0 <= i < r.len() implies exists|j: int|
        0 <= j < hosts[#[trigger] r[i] as int].tags@.len() && hosts[r[i] as int].tags@[j]@ == t@ by {
        assert(r.contains(r[i]));
    }
}

/// With a non-empty query, only hosts that show the query (ignoring case)
/// in their name, address, a tag or their notes are listed.
pub proof fn lemma_search_lists_only_matches(hosts: Seq<Host>, q: Seq<char>, x: usize)
    requires
        hosts.len() <= usize::MAX,
        q.len() > 0,
        matching_indices(hosts, q, hosts.len()).contains(x),
    ensures
        x < hosts.len(),
        ({
            let h = hosts[x as int];
            let lq = lowercase(q);
            ||| text_contains(lowercase(h.name@), lq)
            ||| text_contains(lowercase(h.hostname@), lq)
            ||| (exists|j: int|
                0 <= j < h.tags@.len() && text_contains(lowercase(#[trigger] h.tags@[j]@), lq))
            ||| (h.notes matches Some(n) && text_contains(lowercase(n@), lq))
        }),
{
    lemma_matching_contains(hosts, q, hosts.len(), x);
}

/// The selection after a rebuild points into the new list when it is not
/// empty: it stays where it was when that is still in range, and otherwise
/// moves to the last row; an empty list selects row 0.
pub proof fn lemma_selection_stays_in_range(selected: usize, n: nat)
    ensures
        n > 0 ==> clamped_selection(selected, n) < n,
        selected < n ==> clamped_selection(selected, n) == selected,
        n > 0 && selected >= n ==> clamped_selection(selected, n) == n - 1,
        n == 0 ==> clamped_selection(selected, n) == 0,
{
}

/// In the memory sort, a host with a higher RAM reading comes first, whatever
/// the CPU readings: for any two listed hosts, the earlier one's RAM reading
/// (its order key, the key of `-1.0` when it has none) is at least the later
/// one's.
pub proof fn lemma_ram_sort_highest_first(
    r: Seq<usize>,
    hosts: Seq<Host>,
    query: Seq<char>,
    tag: Option<String>,
    metrics: Seq<(String, HostReadings)>,
    statuses: Seq<(String, ConnectionStatus)>,
    i: int,
    j: int,
)
    requires
        is_filtered_order(r, hosts, query, tag, SortOrder::Ram, metrics, statuses),
        0 <= i < j < r.len(),
    ensures
        (match lookup(metrics, hosts[r[i] as int].name@) {
            Some(m) => match m.ram {
                Some(k) => k,
                None => MISSING_READING_KEY,
            },
            None => MISSING_READING_KEY,
        }) >= (match lookup(metrics, hosts[r[j] as int].name@) {
            Some(m) => match m.ram {
                Some(k) => k,
                None => MISSING_READING_KEY,
            },
            None => MISSING_READING_KEY,
        }),
        (match lookup(metrics, hosts[r[i] as int].name@) {
            Some(m) => match m.ram {
                Some(k) => k,
                None => MISSING_READING_KEY,
            },
            None => MISSING_READING_KEY,
        }) == (match lookup(metrics, hosts[r[j] as int].name@) {
            Some(m) => match m.ram {
                Some(k) => k,
                None => MISSING_READING_KEY,
            },
            None => MISSING_READING_KEY,
        }) ==> r[i] < r[j],
{
    assert(host_precedes(SortOrder::Ram, hosts, metrics, statuses, r[i] as int, r[j] as int));
}

/// In the CPU sort, a host with a higher CPU reading comes first, whatever
/// the memory readings: for any two listed hosts, the earlier one's CPU
/// reading (its order key, the key of `-1.0` when it has none) is at least
/// the later one's.
pub proof fn lemma_cpu_sort_highest_first(
    r: Seq<usize>,
    hosts: Seq<Host>,
    query: Seq<char>,
    tag: Option<String>,
    metrics: Seq<(String, HostReadings)>,
    statuses: Seq<(String, ConnectionStatus)>,
    i: int,
    j: int,
)
    requires
        is_filtered_order(r, hosts, query, tag, SortOrder::Cpu, metrics, statuses),
        0 <= i < j < r.len(),
    ensures
        (match lookup(metrics, hosts[r[i] as int].name@) {
            Some(m) => match m.cpu {
                Some(k) => k,
                None => MISSING_READING_KEY,
            },
            None => MISSING_READING_KEY,
        }) >= (match lookup(metrics, hosts[r[j] as int].name@) {
            Some(m) => match m.cpu {
                Some(k) => k,
                None => MISSING_READING_KEY,
            },
            None => MISSING_READING_KEY,
        }),
        (match lookup(metrics, hosts[r[i] as int].name@) {
            Some(m) => match m.cpu {
                Some(k) => k,
                None => MISSING_READING_KEY,
            },
            None => MISSING_READING_KEY,
        }) == (match lookup(metrics, hosts[r[j] as int].name@) {
            Some(m) => match m.cpu {
                Some(k) => k,
                None => MISSING_READING_KEY,
            },
            None => MISSING_READING_KEY,
        }) ==> r[i] < r[j],
{
    assert(host_precedes(SortOrder::Cpu, hosts, metrics, statuses, r[i] as int, r[j] as int));
}

/// In the name sort, names never go down in code-point order, and hosts of
/// the same name keep their order in the host list.
pub proof fn lemma_name_sort_ascending(
    r: Seq<usize>,
    hosts: Seq<Host>,
    query: Seq<char>,
    tag: Option<String>,
    metrics: Seq<(String, HostReadings)>,
    statuses: Seq<(String, ConnectionStatus)>,
    i: int,
    j: int,
)
    requires
        is_filtered_order(r, hosts, query, tag, SortOrder::Name, metrics, statuses),
        0 <= i < j < r.len(),
    ensures
        !text_lt(hosts[r[j] as int].name@, hosts[r[i] as int].name@),
        hosts[r[i] as int].name@ == hosts[r[j] as int].name@ ==> r[i] < r[j],
{
    assert(host_precedes(SortOrder::Name, hosts, metrics, statuses, r[i] as int, r[j] as int));
    let a = hosts[r[i] as int].name@;
    let b = hosts[r[j] as int].name@;
    if text_lt(b, a) {
        if text_lt(a, b) {
            lemma_text_lt_transitive(a, b, a);
            lemma_text_lt_irreflexive(a);
        } else {
            assert(a == b);
            lemma_text_lt_irreflexive(a);
        }
    }
    if a == b {
        lemma_text_lt_irreflexive(a);
    }
}

/// In the status sort, connected hosts come first, then connecting ones, then
/// those of unknown status, and failed ones last: a host listed after a
/// failed one has failed too, and one listed before a connected one is
/// connected too.
pub proof fn lemma_status_sort_connected_first(
    r: Seq<usize>,
    hosts: Seq<Host>,
    query: Seq<char>,
    tag: Option<String>,
    metrics: Seq<(String, HostReadings)>,
    statuses: Seq<(String, ConnectionStatus)>,
    i: int,
    j: int,
)
    requires
        is_filtered_order(r, hosts, query, tag, SortOrder::Status, metrics, statuses),
        0 <= i < j < r.len(),
    ensures
        lookup(statuses, hosts[r[i] as int].name@) matches Some(ConnectionStatus::Failed(_))
            ==> lookup(statuses, hosts[r[j] as int].name@) matches Some(ConnectionStatus::Failed(_)),
        lookup(statuses, hosts[r[j] as int].name@) == Some(ConnectionStatus::Connected) ==> lookup(
            statuses,
            hosts[r[i] as int].name@,
        ) == Some(ConnectionStatus::Connected),
        lookup(statuses, hosts[r[j] as int].name@) == Some(ConnectionStatus::Connecting) ==> (
        lookup(statuses, hosts[r[i] as int].name@) == Some(ConnectionStatus::Connected) || lookup(
            statuses,
            hosts[r[i] as int].name@,
        ) == Some(ConnectionStatus::Connecting)),
        lookup(statuses, hosts[r[i] as int].name@) == lookup(statuses, hosts[r[j] as int].name@)
            ==> r[i] < r[j],
{
    assert(host_precedes(SortOrder::Status, hosts, metrics, statuses, r[i] as int, r[j] as int));
}

proof fn lemma_matching_contains(hosts: Seq<Host>, q: Seq<char>, n: nat, x: usize)
    requires
        n <= hosts.len(),
        n <= usize::MAX,
    ensures
        matching_indices(hosts, q, n).contains(x) <==> (x < n && (q.len() == 0 || host_matches(
            hosts[x as int],
            q,
        ))),
    decreases n,
{
    if n > 0 {
        lemma_matching_contains(hosts, q, (n - 1) as nat, x);
        lemma_matching_increasing(hosts, q, (n - 1) as nat);
        let r = matching_indices(hosts, q, (n - 1) as nat);
        if r.contains(x) {
            let k = choose|k: int| 0 <= k < r.len() && r[k] == x;
            assert(r[k] < n - 1);
        }
        if q.len() == 0 || host_matches(hosts[n - 1], q) {
            let r2 = r.push((n - 1) as usize);
            if r2.contains(x) {
                let k = choose|k: int| 0 <= k < r2.len() && r2[k] == x;
                if k < r.len() {
                    assert(r[k] == x);
                }
            }
            if r.contains(x) {
                let k = choose|k: int| 0 <= k < r.len() && r[k] == x;
                assert(r2[k] == x);
            }
            if x == n - 1 {
                assert(r2[r.len() as int] == x);
            }
            assert(r2.contains(x) <==> (r.contains(x) || x == n - 1));
        } else {
            assert(r.contains(x) ==> x < n - 1);
        }
    }
}

impl HostListView {
    /// Returns the index into the host list for the selected filtered row.
    pub fn selected_host_idx(&self) -> (r: Option<usize>)
        ensures
            r == (if self.selected < self.filtered_indices@.len() {
                Some(self.filtered_indices@[self.selected as int])
            } else {
                None
            }),
    {
        if self.selected < self.filtered_indices.len() {
            Some(self.filtered_indices[self.selected])
        } else {
            None
        }
    }

    /// Rebuilds `filtered_indices` applying text search, tag filter, and
    /// sort order, and keeps the selection inside the new list.
    ///
    /// `metrics` holds the live readings and `statuses` the connection status
    /// of hosts by name; a host missing from either sorts as having no
    /// reading or no status.
    pub fn rebuild_filter(
        &mut self,
        hosts: &Vec<Host>,
        metrics: &Vec<(String, HostReadings)>,
        statuses: &Vec<(String, ConnectionStatus)>,
    )
        ensures
            is_filtered_order(
                final(self).filtered_indices@,
                hosts@,
                old(self).search_query@,
                old(self).tag_filter,
                old(self).sort_order,
                metrics@,
                statuses@,
            ),
            final(self).selected == clamped_selection(
                old(self).selected,
                final(self).filtered_indices@.len(),
            ),
            final(self).search_mode == old(self).search_mode,
            final(self).search_query == old(self).search_query,
            final(self).popup == old(self).popup,
            final(self).sort_order == old(self).sort_order,
            final(self).tag_filter == old(self).tag_filter,
            final(self).tag_popup_open == old(self).tag_popup_open,
            final(self).tag_popup_selected == old(self).tag_popup_selected,
            final(self).available_tags == old(self).available_tags,
    {
        let ghost q = self.search_query@;
        let n_hosts = hosts.len();
        // 1. Text filter.
        let matched = filter_hosts(hosts.as_slice(), self.search_query.as_str());
        proof {
            lemma_matching_increasing(hosts@, q, hosts@.len());
        }
        // 2. Tag filter.
        let mut sel: Vec<usize> = Vec::new();
        let mut i: usize = 0;
        while i < matched.len()
            invariant
                i <= matched.len(),
                increasing_below(matched@, hosts@.len()),
                sel@ == with_tag(matched@.take(i as int), hosts@, self.tag_filter),
            decreases matched.len() - i,
        {
            let h = matched[i];
            let keep = match &self.tag_filter {
                Some(tag) => has_tag(&hosts[h], tag),
                None => true,
            };
            assert(keep == tag_ok(hosts@[h as int], self.tag_filter));
            assert(matched@.take(i + 1).drop_last() =~= matched@.take(i as int));
            if keep {
                sel.push(h);
            }
            i += 1;
        }
        assert(matched@.take(matched.len() as int) =~= matched@);
        proof {
            lemma_with_tag(matched@, hosts@, self.tag_filter);
        }
        // 3. Sort.
        let mut keys: Vec<OrderKey> = Vec::new();
        let mut k: usize = 0;
        while k < sel.len()
            invariant
                k <= sel.len(),
                increasing_below(sel@, hosts@.len()),
                keys.len() == k,
                forall|t: int|
                    0 <= t < k ==> (#[trigger] keys@[t])@ == host_sort_key(
                        self.sort_order,
                        hosts@[sel@[t] as int],
                        metrics@,
                        statuses@,
                    ),
            decreases sel.len() - k,
        {
            keys.push(host_sort_key_exec(self.sort_order, &hosts[sel[k]], metrics, statuses));
            k += 1;
        }
        let p = sort_positions(&keys);
        let ghost kv = key_views(keys@);
        let mut out: Vec<usize> = Vec::new();
        let mut m: usize = 0;
        while m < p.len()
            invariant
                m <= p.len(),
                is_permutation_of_range(p@, sel@.len()),
                keys.len() == sel.len(),
                out@.len() == m,
                forall|t: int| 0 <= t < m ==> #[trigger] out@[t] == sel@[p@[t] as int],
            decreases p.len() - m,
        {
            out.push(sel[p[m]]);
            m += 1;
        }
        proof {
            assert forall|t: int| 0 <= t < sel@.len() implies kv[t] == host_sort_key(
                self.sort_order,
                hosts@[#[trigger] sel@[t] as int],
                metrics@,
                statuses@,
            ) by {
                assert(kv[t] == keys@[t]@);
            }
            assert forall|a: int, b: int| 0 <= a < b < out@.len() implies host_precedes(
                self.sort_order,
                hosts@,
                metrics@,
                statuses@,
                #[trigger] out@[a] as int,
                #[trigger] out@[b] as int,
            ) by {
                assert(precedes(kv, p@[a] as int, p@[b] as int));
                let pa = p@[a] as int;
                let pb = p@[b] as int;
                assert(kv[pa] == host_sort_key(self.sort_order, hosts@[sel@[pa] as int], metrics@, statuses@));
                assert(kv[pb] == host_sort_key(self.sort_order, hosts@[sel@[pb] as int], metrics@, statuses@));
                if pa < pb {
                    assert(sel@[pa] < sel@[pb]);
                }
            }
            assert forall|x: usize| #[trigger] out@.contains(x) <==> sel@.contains(x) by {
                if out@.contains(x) {
                    let t = choose|t: int| 0 <= t < out@.len() && out@[t] == x;
                    assert(sel@[p@[t] as int] == x);
                }
                if sel@.contains(x) {
                    let t = choose|t: int| 0 <= t < sel@.len() && sel@[t] == x;
                    assert(p@.contains(t as usize));
                    let u = choose|u: int| 0 <= u < p@.len() && p@[u] == t as usize;
                    assert(out@[u] == x);
                }
            }
            assert forall|x: usize| #[trigger] out@.contains(x) <==> (x < hosts@.len() && (q.len()
                == 0 || host_matches(hosts@[x as int], q)) && tag_ok(
                hosts@[x as int],
                self.tag_filter,
            )) by {
                lemma_matching_contains(hosts@, q, hosts@.len(), x);
            }
            assert forall|t: int| 0 <= t < out@.len() implies #[trigger] out@[t] < hosts@.len() by {
                assert(sel@[p@[t] as int] < hosts@.len());
            }
        }
        self.filtered_indices = out;
        // Clamp selection to the new range.
        if self.filtered_indices.len() == 0 {
            self.selected = 0;
        } else if self.selected >= self.filtered_indices.len() {
            self.selected = self.filtered_indices.len() - 1;
        }
    }

    /// Scroll down by one row.
    pub fn select_next(&mut self)
        ensures
            final(self).filtered_indices == old(self).filtered_indices,
            final(self).selected == (if old(self).filtered_indices@.len() == 0 {
                old(self).selected as int
            } else if old(self).selected + 1 <= old(self).filtered_indices@.len() - 1 {
                old(self).selected + 1
            } else {
                old(self).filtered_indices@.len() - 1
            }),
    {
        if self.filtered_indices.len() == 0 {
            return ;
        }
        let last = self.filtered_indices.len() - 1;
        if self.selected < last {
            self.selected = self.selected + 1;
        } else {
            self.selected = last;
        }
    }

    /// Scroll up by one row.
    pub fn select_prev(&mut self)
        ensures
            final(self).filtered_indices == old(self).filtered_indices,
            final(self).selected == (if old(self).selected == 0 {
                0
            } else {
                old(self).selected - 1
            }),
    {
        if self.selected > 0 {
            self.selected = self.selected - 1;
        }
    }
}

// ---------------------------------------------------------------------------
// The tag picker
// ---------------------------------------------------------------------------

/// Whether some host among the first `n` carries a tag spelled `t`.
pub open spec fn tag_in_first(hosts: Seq<Host>, n: int, t: Seq<char>) -> bool {
    exists|i: int, j: int|
        0 <= i < n && 0 <= j < hosts[i].tags@.len() && (#[trigger] hosts[i].tags@[j])@ == t
}

/// Whether `s` is in strictly increasing code-point order (so without repeats).
pub open spec fn strictly_sorted(s: Seq<Seq<char>>) -> bool {
    forall|i: int, j: int| 0 <= i < j < s.len() ==> text_lt(#[trigger] s[i], #[trigger] s[j])
}

/// The texts of a vector of character vectors.
pub open spec fn char_views(v: Seq<Vec<char>>) -> Seq<Seq<char>> {
    v.map_values(|c: Vec<char>| c@)
}

fn insert_unique(keys: &mut Vec<Vec<char>>, t: Vec<char>)
    requires
        strictly_sorted(char_views(old(keys)@)),
    ensures
        strictly_sorted(char_views(final(keys)@)),
        forall|x: Seq<char>|
            #[trigger] char_views(final(keys)@).contains(x) <==> (char_views(old(keys)@).contains(x)
                || x == t@),
{
    let ghost old_v = char_views(keys@);
    let mut pos: usize = 0;
    while pos < keys.len() && compare_chars(&keys[pos], &t) < 0
        invariant
            pos <= keys.len(),
            old_v == char_views(keys@),
            forall|i: int| 0 <= i < pos ==> text_lt(#[trigger] old_v[i], t@),
        decreases keys.len() - pos,
    {
        assert(old_v[pos as int] == keys@[pos as int]@);
        pos += 1;
    }
    if pos < keys.len() && compare_chars(&keys[pos], &t) == 0 {
        assert(old_v[pos as int] == t@);
        assert forall|x: Seq<char>| #[trigger] char_views(keys@).contains(x) <==> (old_v.contains(x)
            || x == t@) by {
            if x == t@ {
                assert(old_v[pos as int] == x);
            }
        }
        return ;
    }
    proof {
        if pos < keys.len() {
            assert(old_v[pos as int] == keys@[pos as int]@);
            lemma_text_lt_total(old_v[pos as int], t@);
        }
    }
    let ghost tv = t@;
    keys.insert(pos, t);
    let ghost nv = char_views(keys@);
    proof {
        assert(nv =~= old_v.insert(pos as int, tv));
        assert forall|i: int, j: int| 0 <= i < j < nv.len() implies text_lt(#[trigger] nv[i], #[trigger] nv[j]) by {
            if j < pos {
            } else if i > pos {
                assert(nv[i] == old_v[i - 1] && nv[j] == old_v[j - 1]);
            } else if i < pos && j > pos {
                assert(nv[i] == old_v[i] && nv[j] == old_v[j - 1]);
                assert(text_lt(old_v[i], tv));
                assert(text_lt(tv, old_v[pos as int]));
                lemma_text_lt_transitive(old_v[i], tv, old_v[pos as int]);
                if j - 1 > pos {
                    lemma_text_lt_transitive(old_v[i], old_v[pos as int], old_v[j - 1]);
                }
            } else if i == pos {
                assert(nv[i] == tv && nv[j] == old_v[j - 1]);
                if j - 1 > pos {
                    lemma_text_lt_transitive(tv, old_v[pos as int], old_v[j - 1]);
                }
            } else {
                assert(nv[j] == tv && nv[i] == old_v[i]);
            }
        }
        assert forall|x: Seq<char>| #[trigger] nv.contains(x) <==> (old_v.contains(x) || x == tv) by {
            if nv.contains(x) {
                let k = choose|k: int| 0 <= k < nv.len() && nv[k] == x;
                if k < pos {
                    assert(old_v[k] == x);
                } else if k > pos {
                    assert(old_v[k - 1] == x);
                }
            }
            if old_v.contains(x) {
                let k = choose|k: int| 0 <= k < old_v.len() && old_v[k] == x;
                if k < pos {
                    assert(nv[k] == x);
                } else {
                    assert(nv[k + 1] == x);
                }
            }
            if x == tv {
                assert(nv[pos as int] == x);
            }
        }
    }
}

impl HostListView {
    /// Rebuild the `available_tags` list from the full host list: every tag
    /// any host carries, once each, in code-point order.
    pub fn rebuild_tags(&mut self, hosts: &[Host])
        ensures
            strictly_sorted(views(final(self).available_tags@)),
            forall|t: Seq<char>|
                #[trigger] views(final(self).available_tags@).contains(t) <==> tag_in_first(
                    hosts@,
                    hosts@.len() as int,
                    t,
                ),
            final(self).selected == old(self).selected,
            final(self).search_mode == old(self).search_mode,
            final(self).search_query == old(self).search_query,
            final(self).filtered_indices == old(self).filtered_indices,
            final(self).popup == old(self).popup,
            final(self).sort_order == old(self).sort_order,
            final(self).tag_filter == old(self).tag_filter,
            final(self).tag_popup_open == old(self).tag_popup_open,
            final(self).tag_popup_selected == old(self).tag_popup_selected,
    {
        let mut keys: Vec<Vec<char>> = Vec::new();
        let mut i: usize = 0;
        while i < hosts.len()
            invariant
                i <= hosts@.len(),
                strictly_sorted(char_views(keys@)),
                forall|t: Seq<char>|
                    #[trigger] char_views(keys@).contains(t) <==> tag_in_first(hosts@, i as int, t),
            decreases hosts@.len() - i,
        {
            let mut j: usize = 0;
            while j < hosts[i].tags.len()
                invariant
                    i < hosts@.len(),
                    j <= hosts@[i as int].tags@.len(),
                    strictly_sorted(char_views(keys@)),
                    forall|t: Seq<char>|
                        #[trigger] char_views(keys@).contains(t) <==> (tag_in_first(
                            hosts@,
                            i as int,
                            t,
                        ) || exists|k: int|
                            0 <= k < j && (#[trigger] hosts@[i as int].tags@[k])@ == t),
                decreases hosts@[i as int].tags@.len() - j,
            {
                let c = chars_of(hosts[i].tags[j].as_str());
                let ghost before = char_views(keys@);
                insert_unique(&mut keys, c);
                assert forall|t: Seq<char>| #[trigger] char_views(keys@).contains(t) <==> (tag_in_first(
                    hosts@,
                    i as int,
                    t,
                ) || exists|k: int|
                    0 <= k < j + 1 && (#[trigger] hosts@[i as int].tags@[k])@ == t) by {
                    if t == hosts@[i as int].tags@[j as int]@ {
                    }
                    if exists|k: int| 0 <= k < j + 1 && (#[trigger] hosts@[i as int].tags@[k])@ == t {
                        let k = choose|k: int| 0 <= k < j + 1 && (#[trigger] hosts@[i as int].tags@[k])@ == t;
                        if k < j {
                            assert(exists|k2: int| 0 <= k2 < j && (#[trigger] hosts@[i as int].tags@[k2])@ == t);
                        }
                    }
                }
                j += 1;
            }
            assert forall|t: Seq<char>| #[trigger] char_views(keys@).contains(t) <==> tag_in_first(
                hosts@,
                i + 1,
                t,
            ) by {
                if tag_in_first(hosts@, i + 1, t) {
                    let (a, b) = choose|a: int, b: int|
                        0 <= a < i + 1 && 0 <= b < hosts@[a].tags@.len() && (#[trigger] hosts@[a].tags@[b])@ == t;
                    if a < i {
                        assert(tag_in_first(hosts@, i as int, t));
                    } else {
                        assert(exists|k: int| 0 <= k < j && (#[trigger] hosts@[i as int].tags@[k])@ == t);
                    }
                }
                if tag_in_first(hosts@, i as int, t) {
                    let (a, b) = choose|a: int, b: int|
                        0 <= a < i && 0 <= b < hosts@[a].tags@.len() && (#[trigger] hosts@[a].tags@[b])@ == t;
                    assert(0 <= a < i + 1 && 0 <= b < hosts@[a].tags@.len() && (hosts@[a].tags@[b])@ == t);
                }
                if exists|k: int| 0 <= k < j && (#[trigger] hosts@[i as int].tags@[k])@ == t {
                    let k = choose|k: int| 0 <= k < j && (#[trigger] hosts@[i as int].tags@[k])@ == t;
                    assert(0 <= i < i + 1 && 0 <= k < hosts@[i as int].tags@.len() && (hosts@[i as int].tags@[k])@ == t);
                }
            }
            i += 1;
        }
        let mut out: Vec<String> = Vec::new();
        let mut m: usize = 0;
        while m < keys.len()
            invariant
                m <= keys.len(),
                out@.len() == m,
                views(out@) == char_views(keys@).take(m as int),
            decreases keys.len() - m,
        {
            let ghost before = out@;
            let s = string_from_chars(&keys[m]);
            out.push(s);
            assert forall|k: int| 0 <= k < m + 1 implies #[trigger] views(out@)[k] == char_views(keys@).take(m + 1)[k] by {
                if k < m {
                    assert(views(out@)[k] == out@[k]@);
                    assert(out@[k] == before[k]);
                    assert(views(before)[k] == before[k]@);
                } else {
                    assert(views(out@)[k] == out@[k]@);
                }
            }
            assert(views(out@) =~= char_views(keys@).take(m + 1));
            m += 1;
        }
        assert(char_views(keys@).take(keys.len() as int) =~= char_views(keys@));
        self.available_tags = out;
    }
}

} // verus!
