//! Character-level text handling shared by the form, the host list and the
//! file listings: whitespace trimming, splitting and joining, substring search,
//! code-point ordering, UTF-8 widths and decimal port numbers.
use vstd::prelude::*;

verus! {

// ---------------------------------------------------------------------------
// Conversions between `str`/`String` and character sequences
// ---------------------------------------------------------------------------

/// The characters of `s`, in order.
pub fn chars_of(s: &str) -> (v: Vec<char>)
    ensures
        v@ == s@,
{
    let mut v: Vec<char> = Vec::new();
    for c in it: s.chars()
        invariant
            v@ == it.seq().take(it.index() as int),
            it.seq() == s@,
    {
        v.push(c);
    }
    v
}

/// Appends one character to a `String` (`String::push`).
#[verifier::external_body]
fn push_char(s: &mut String, c: char)
    ensures
        final(s)@ == old(s)@.push(c),
{
    s.push(c);
}

/// Builds a `String` holding exactly the characters of `v`.
pub fn string_from_chars(v: &Vec<char>) -> (s: String)
    ensures
        s@ == v@,
{
    let mut s = String::new();
    let mut i: usize = 0;
    while i < v.len()
        invariant
            i <= v.len(),
            s@ == v@.take(i as int),
        decreases v.len() - i,
    {
        push_char(&mut s, v[i]);
        assert(v@.take(i as int).push(v@[i as int]) =~= v@.take(i + 1));
        i += 1;
    }
    assert(v@.take(v.len() as int) =~= v@);
    s
}

/// Builds a `String` from the characters of `v` in the index range `lo..hi`.
pub fn string_from_range(v: &Vec<char>, lo: usize, hi: usize) -> (s: String)
    requires
        lo <= hi <= v.len(),
    ensures
        s@ == v@.subrange(lo as int, hi as int),
{
    let mut s = String::new();
    let mut i: usize = lo;
    while i < hi
        invariant
            lo <= i <= hi <= v.len(),
            s@ == v@.subrange(lo as int, i as int),
        decreases hi - i,
    {
        push_char(&mut s, v[i]);
        assert(v@.subrange(lo as int, i as int).push(v@[i as int]) =~= v@.subrange(
            lo as int,
            i + 1,
        ));
        i += 1;
    }
    s
}

/// A copy of `s` (by its characters).
pub fn copy_string(s: &String) -> (r: String)
    ensures
        r@ == s@,
{
    s.clone()
}

/// A copy of an optional string.
pub fn copy_opt(s: &Option<String>) -> (r: Option<String>)
    ensures
        opt_view(r) == opt_view(*s),
{
    match s {
        Some(x) => Some(x.clone()),
        None => None,
    }
}

/// The characters of an optional string.
pub open spec fn opt_view(s: Option<String>) -> Option<Seq<char>> {
    match s {
        Some(x) => Some(x@),
        None => None,
    }
}

/// Whether two optional strings hold the same characters.
pub fn opt_text_eq(a: &Option<String>, b: &Option<String>) -> (r: bool)
    ensures
        r == (opt_view(*a) == opt_view(*b)),
{
    match (a, b) {
        (Some(x), Some(y)) => x.eq(y),
        (None, None) => true,
        _ => false,
    }
}

/// The characters of every string of a sequence.
pub open spec fn views(v: Seq<String>) -> Seq<Seq<char>> {
    v.map_values(|s: String| s@)
}

/// A copy of a vector of strings.
pub fn copy_strings(v: &Vec<String>) -> (r: Vec<String>)
    ensures
        views(r@) == views(v@),
{
    let mut r: Vec<String> = Vec::new();
    let mut i: usize = 0;
    while i < v.len()
        invariant
            i <= v.len(),
            r@.len() == i,
            views(r@) == views(v@).take(i as int),
        decreases v.len() - i,
    {
        let c = copy_string(&v[i]);
        let ghost old_r = r@;
        r.push(c);
        assert forall|j: int| 0 <= j < i + 1 implies #[trigger] views(r@)[j] == views(v@).take(i + 1)[j] by {
            if j < i {
                assert(views(r@)[j] == r@[j]@);
                assert(r@[j] == old_r[j]);
                assert(views(old_r)[j] == old_r[j]@);
            }
        }
        assert(views(r@) =~= views(v@).take(i + 1));
        i += 1;
    }
    assert(views(v@).take(v.len() as int) =~= views(v@));
    r
}

proof fn lemma_char_encoding_len(c: char)
    ensures
        vstd::utf8::encode_scalar(c as u32).len() == utf8_width(c),
{
    let v = c as u32;
    assert(v <= 0x10FFFF);
    assert(!(0xD800 <= v <= 0xDFFF));
    if v < 0x80 {
        assert(vstd::utf8::has_width_1_encoding(v));
    } else if v < 0x800 {
        assert(vstd::utf8::has_width_2_encoding(v));
    } else if v < 0x10000 {
        assert(vstd::utf8::has_width_3_encoding(v));
    } else {
        assert(vstd::utf8::has_width_4_encoding(v));
    }
}

/// `byte_len` counts the bytes of the UTF-8 encoding: it is the length of
/// the encoding that vstd specifies for a text's view.
pub proof fn lemma_byte_len_is_encoding_len(s: Seq<char>)
    ensures
        vstd::utf8::encode_utf8(s).len() == byte_len(s),
    decreases s.len(),
{
    if s.len() > 0 {
        lemma_byte_len_is_encoding_len(s.drop_first());
        lemma_byte_len_append(seq![s[0]], s.drop_first());
        assert(seq![s[0]] + s.drop_first() =~= s);
        assert(seq![s[0]].drop_last() =~= Seq::<char>::empty());
        assert(byte_len(Seq::<char>::empty()) == 0);
        assert(seq![s[0]].last() == s[0]);
        assert(byte_len(seq![s[0]]) == utf8_width(s[0]));
        lemma_char_encoding_len(s[0]);
        assert(vstd::utf8::encode_utf8(s) == vstd::utf8::encode_scalar(s[0] as u32)
            + vstd::utf8::encode_utf8(s.drop_first()));
    }
}

/// The number of bytes of `s` (`str::len`). Trusted: the documentation of
/// `str::len` gives the length in bytes of the UTF-8 encoding, which is the
/// sum of the widths that `byte_len` adds up.
#[verifier::external_body]
pub(crate) fn utf8_byte_len(s: &str) -> (n: usize)
    ensures
        n == byte_len(s@),
{
    s.len()
}

/// Whether `v` holds exactly the characters of `lit`.
pub fn eq_lit(v: &Vec<char>, lit: &str) -> (r: bool)
    ensures
        r == (v@ == lit@),
{
    let l = chars_of(lit);
    compare_chars(v, &l) == 0
}

/// Whether `v` begins with the characters of `lit`.
pub fn starts_with_lit(v: &Vec<char>, lit: &str) -> (r: bool)
    ensures
        r == (lit@.len() <= v@.len() && v@.take(lit@.len() as int) == lit@),
{
    let l = chars_of(lit);
    if l.len() > v.len() {
        return false;
    }
    let mut i: usize = 0;
    while i < l.len()
        invariant
            l@ == lit@,
            l.len() <= v.len(),
            i <= l.len(),
            forall|j: int| 0 <= j < i ==> v@[j] == l@[j],
        decreases l.len() - i,
    {
        if v[i] != l[i] {
            assert(v@.take(l.len() as int)[i as int] != l@[i as int]);
            return false;
        }
        i += 1;
    }
    assert(v@.take(l.len() as int) =~= l@);
    true
}

/// The characters of `v` from index `n` on.
pub fn skip_chars(v: &Vec<char>, n: usize) -> (r: Vec<char>)
    requires
        n <= v.len(),
    ensures
        r@ == v@.skip(n as int),
{
    let mut r: Vec<char> = Vec::new();
    let mut i: usize = n;
    while i < v.len()
        invariant
            n <= i <= v.len(),
            r@ == v@.subrange(n as int, i as int),
        decreases v.len() - i,
    {
        r.push(v[i]);
        assert(r@ =~= v@.subrange(n as int, i + 1));
        i += 1;
    }
    assert(v@.subrange(n as int, v.len() as int) =~= v@.skip(n as int));
    r
}

/// `a`, then the characters `mid`, then `c`, as one string.
pub fn concat_text(a: &str, mid: &Vec<char>, c: &str) -> (r: String)
    ensures
        r@ == a@ + mid@ + c@,
{
    let mut v = chars_of(a);
    let ghost va = v@;
    let mut i: usize = 0;
    while i < mid.len()
        invariant
            i <= mid.len(),
            v@ == va + mid@.take(i as int),
        decreases mid.len() - i,
    {
        v.push(mid[i]);
        assert(v@ =~= va + mid@.take(i + 1));
        i += 1;
    }
    assert(mid@.take(mid.len() as int) =~= mid@);
    let cv = chars_of(c);
    let ghost vb = v@;
    let mut j: usize = 0;
    while j < cv.len()
        invariant
            j <= cv.len(),
            v@ == vb + cv@.take(j as int),
        decreases cv.len() - j,
    {
        v.push(cv[j]);
        assert(v@ =~= vb + cv@.take(j + 1));
        j += 1;
    }
    assert(cv@.take(cv.len() as int) =~= cv@);
    assert(v@ =~= a@ + mid@ + c@);
    string_from_chars(&v)
}

// ---------------------------------------------------------------------------
// Whitespace and trimming
// ---------------------------------------------------------------------------

/// Unicode `White_Space`, the set that `char::is_whitespace` tests.
pub open spec fn is_space(c: char) -> bool {
    let u = c as u32;
    ||| 0x09 <= u <= 0x0D
    ||| u == 0x20
    ||| u == 0x85
    ||| u == 0xA0
    ||| u == 0x1680
    ||| 0x2000 <= u <= 0x200A
    ||| u == 0x2028
    ||| u == 0x2029
    ||| u == 0x202F
    ||| u == 0x205F
    ||| u == 0x3000
}

/// Whether `c` is whitespace.
pub fn is_space_char(c: char) -> (b: bool)
    ensures
        b == is_space(c),
{
    let u = c as u32;
    (0x09 <= u && u <= 0x0D) || u == 0x20 || u == 0x85 || u == 0xA0 || u == 0x1680 || (0x2000
        <= u && u <= 0x200A) || u == 0x2028 || u == 0x2029 || u == 0x202F || u == 0x205F || u
        == 0x3000
}

/// `s` without its leading whitespace.
pub open spec fn trim_start_spec(s: Seq<char>) -> Seq<char>
    decreases s.len(),
{
    if s.len() > 0 && is_space(s[0]) {
        trim_start_spec(s.drop_first())
    } else {
        s
    }
}

/// `s` without its trailing whitespace.
pub open spec fn trim_end_spec(s: Seq<char>) -> Seq<char>
    decreases s.len(),
{
    if s.len() > 0 && is_space(s.last()) {
        trim_end_spec(s.drop_last())
    } else {
        s
    }
}

/// `s` without leading and trailing whitespace (`str::trim`).
pub open spec fn trim_spec(s: Seq<char>) -> Seq<char> {
    trim_end_spec(trim_start_spec(s))
}

proof fn lemma_trim_start_at(s: Seq<char>, a: int)
    requires
        0 <= a <= s.len(),
        forall|j: int| 0 <= j < a ==> is_space(#[trigger] s[j]),
        a == s.len() || !is_space(s[a]),
    ensures
        trim_start_spec(s) == s.subrange(a, s.len() as int),
    decreases a,
{
    if a == 0 {
        assert(s.subrange(0, s.len() as int) =~= s);
    } else {
        let t = s.drop_first();
        assert forall|j: int| 0 <= j < a - 1 implies is_space(#[trigger] t[j]) by {
            assert(t[j] == s[j + 1]);
        }
        lemma_trim_start_at(t, a - 1);
        assert(t.subrange(a - 1, t.len() as int) =~= s.subrange(a, s.len() as int));
    }
}

proof fn lemma_trim_end_at(s: Seq<char>, b: int)
    requires
        0 <= b <= s.len(),
        forall|j: int| b <= j < s.len() ==> is_space(#[trigger] s[j]),
        b == 0 || !is_space(s[b - 1]),
    ensures
        trim_end_spec(s) == s.subrange(0, b),
    decreases s.len() - b,
{
    if b == s.len() {
        assert(s.subrange(0, b) =~= s);
    } else {
        let t = s.drop_last();
        assert forall|j: int| b <= j < t.len() implies is_space(#[trigger] t[j]) by {
            assert(t[j] == s[j]);
        }
        if b > 0 {
            assert(t[b - 1] == s[b - 1]);
        }
        lemma_trim_end_at(t, b);
        assert(t.subrange(0, b) =~= s.subrange(0, b));
    }
}

/// A string without its first or last character being whitespace is its own trim.
pub proof fn lemma_trim_of_trimmed(s: Seq<char>)
    requires
        s.len() == 0 || (!is_space(s[0]) && !is_space(s.last())),
    ensures
        trim_spec(s) == s,
{
    lemma_trim_start_at(s, 0);
    assert(s.subrange(0, s.len() as int) =~= s);
    lemma_trim_end_at(s, s.len() as int);
}

/// The characters of `v` with leading and trailing whitespace removed.
pub fn trim_chars(v: &Vec<char>) -> (r: Vec<char>)
    ensures
        r@ == trim_spec(v@),
{
    let n = v.len();
    let mut a: usize = 0;
    while a < n && is_space_char(v[a])
        invariant
            a <= n == v.len(),
            forall|j: int| 0 <= j < a ==> is_space(#[trigger] v@[j]),
        decreases n - a,
    {
        a += 1;
    }
    proof {
        lemma_trim_start_at(v@, a as int);
    }
    let ghost t = v@.subrange(a as int, n as int);
    let mut b: usize = n;
    while b > a && is_space_char(v[b - 1])
        invariant
            a <= b <= n == v.len(),
            t == v@.subrange(a as int, n as int),
            forall|j: int| b <= j < n ==> is_space(#[trigger] v@[j]),
        decreases b,
    {
        b -= 1;
    }
    proof {
        assert forall|j: int| b - a <= j < t.len() implies is_space(#[trigger] t[j]) by {
            assert(t[j] == v@[j + a]);
        }
        if b > a {
            assert(t[b - a - 1] == v@[b - 1]);
        }
        lemma_trim_end_at(t, (b - a) as int);
        assert(t.subrange(0, (b - a) as int) =~= v@.subrange(a as int, b as int));
    }
    let mut r: Vec<char> = Vec::new();
    let mut i: usize = a;
    while i < b
        invariant
            a <= i <= b <= n == v.len(),
            r@ == v@.subrange(a as int, i as int),
        decreases b - i,
    {
        r.push(v[i]);
        assert(r@ =~= v@.subrange(a as int, i + 1));
        i += 1;
    }
    r
}

/// `s` with leading and trailing whitespace removed (`str::trim`).
pub fn trim(s: &str) -> (r: String)
    ensures
        r@ == trim_spec(s@),
{
    let v = chars_of(s);
    let t = trim_chars(&v);
    string_from_chars(&t)
}

// ---------------------------------------------------------------------------
// Splitting and joining
// ---------------------------------------------------------------------------

/// The pieces of `s` between occurrences of `sep` (`str::split` with a
/// character pattern): `n` separators give `n + 1` pieces, empty ones included.
pub open spec fn split_spec(s: Seq<char>, sep: char) -> Seq<Seq<char>>
    decreases s.len(),
{
    if s.len() == 0 {
        seq![Seq::<char>::empty()]
    } else if s.last() == sep {
        split_spec(s.drop_last(), sep).push(Seq::<char>::empty())
    } else {
        let p = split_spec(s.drop_last(), sep);
        p.update(p.len() - 1, p.last().push(s.last()))
    }
}

proof fn lemma_split_nonempty(s: Seq<char>, sep: char)
    ensures
        split_spec(s, sep).len() > 0,
    decreases s.len(),
{
    if s.len() > 0 {
        lemma_split_nonempty(s.drop_last(), sep);
    }
}

/// Appending a run without separators extends the last piece.
pub proof fn lemma_split_append_run(x: Seq<char>, y: Seq<char>, sep: char)
    requires
        !y.contains(sep),
    ensures
        split_spec(x + y, sep) == split_spec(x, sep).update(
            split_spec(x, sep).len() - 1,
            split_spec(x, sep).last() + y,
        ),
    decreases y.len(),
{
    lemma_split_nonempty(x, sep);
    let p = split_spec(x, sep);
    if y.len() == 0 {
        assert(x + y =~= x);
        assert(p.last() + y =~= p.last());
        assert(p.update(p.len() - 1, p.last()) =~= p);
    } else {
        let y1 = y.drop_last();
        assert(!y1.contains(sep)) by {
            if y1.contains(sep) {
                let k = choose|k: int| 0 <= k < y1.len() && y1[k] == sep;
                assert(y[k] == sep);
            }
        }
        assert(y.last() != sep) by {
            if y.last() == sep {
                assert(y.contains(sep));
            }
        }
        lemma_split_append_run(x, y1, sep);
        assert((x + y).drop_last() =~= x + y1);
        assert((x + y).last() == y.last());
        let q = p.update(p.len() - 1, p.last() + y1);
        assert(q.last() == p.last() + y1);
        assert((p.last() + y1).push(y.last()) =~= p.last() + y);
        assert(q.update(q.len() - 1, q.last().push(y.last())) =~= p.update(
            p.len() - 1,
            p.last() + y,
        ));
    }
}

/// Whether `piece` stands in `s` at `st` as a piece between separators: the
/// start of `s` or a separator before it, and after it the end of `s` (for
/// the last piece) or a separator (for any other).
pub open spec fn bounded_run(s: Seq<char>, sep: char, piece: Seq<char>, last: bool, st: int) -> bool {
    &&& 0 <= st && st + piece.len() <= s.len()
    &&& s.subrange(st, st + piece.len()) == piece
    &&& (st == 0 || s[st - 1] == sep)
    &&& if last {
        st + piece.len() == s.len()
    } else {
        st + piece.len() < s.len() && s[st + piece.len()] == sep
    }
}

/// Whether piece `k` of the split of `s` at `sep` stands in `s` at `st`
/// between separators (see [`bounded_run`]).
pub open spec fn piece_at(s: Seq<char>, sep: char, k: int, st: int) -> bool {
    bounded_run(s, sep, split_spec(s, sep)[k], k == split_spec(s, sep).len() - 1, st)
}

/// Every piece of a split stands in the text between separators: each but
/// the last is followed by a separator, and the last runs to the end.
pub proof fn lemma_split_piece_bounds(s: Seq<char>, sep: char, k: int)
    requires
        0 <= k < split_spec(s, sep).len(),
    ensures
        exists|st: int| #[trigger] piece_at(s, sep, k, st),
    decreases s.len(),
{
    if s.len() == 0 {
        assert(split_spec(s, sep) == seq![Seq::<char>::empty()]);
        assert(s.subrange(0, 0) =~= Seq::<char>::empty());
        assert(piece_at(s, sep, k, 0));
    } else {
        let d = s.drop_last();
        let p = split_spec(d, sep);
        lemma_split_nonempty(d, sep);
        if s.last() == sep {
            if k == p.len() {
                assert(s.subrange(s.len() as int, s.len() as int) =~= Seq::<char>::empty());
                assert(piece_at(s, sep, k, s.len() as int));
            } else {
                lemma_split_piece_bounds(d, sep, k);
                let st = choose|st: int| #[trigger] piece_at(d, sep, k, st);
                assert(s.subrange(st, st + p[k].len()) =~= d.subrange(st, st + p[k].len()));
                assert(piece_at(s, sep, k, st));
            }
        } else {
            lemma_split_piece_bounds(d, sep, k);
            let st = choose|st: int| #[trigger] piece_at(d, sep, k, st);
            if k < p.len() - 1 {
                assert(s.subrange(st, st + p[k].len()) =~= d.subrange(st, st + p[k].len()));
                assert(piece_at(s, sep, k, st));
            } else {
                let q = p.last().push(s.last());
                assert(split_spec(s, sep)[k] == q);
                assert(s.subrange(st, st + q.len()) =~= d.subrange(st, st + p[k].len()).push(
                    s.last(),
                ));
                assert(piece_at(s, sep, k, st));
            }
        }
    }
}

/// Appending to a text keeps every piece of its split but the last.
proof fn lemma_split_keeps_early_pieces(z: Seq<char>, w: Seq<char>, sep: char, k: int)
    requires
        0 <= k < split_spec(z, sep).len() - 1,
    ensures
        split_spec(z + w, sep).len() >= split_spec(z, sep).len(),
        split_spec(z + w, sep)[k] == split_spec(z, sep)[k],
    decreases w.len(),
{
    if w.len() == 0 {
        assert(z + w =~= z);
    } else {
        lemma_split_keeps_early_pieces(z, w.drop_last(), sep, k);
        assert((z + w).drop_last() =~= z + w.drop_last());
        lemma_split_nonempty(z + w.drop_last(), sep);
    }
}

/// A run without separators that stands between separators (or the ends)
/// of a text is a piece of its split.
pub proof fn lemma_split_has_piece(s: Seq<char>, sep: char, piece: Seq<char>, st: int)
    requires
        !piece.contains(sep),
        0 <= st && st + piece.len() <= s.len(),
        s.subrange(st, st + piece.len()) == piece,
        st == 0 || s[st - 1] == sep,
        st + piece.len() == s.len() || s[st + piece.len()] == sep,
    ensures
        split_spec(s, sep).contains(piece),
{
    let x = s.take(st);
    let en = st + piece.len();
    let px = split_spec(x, sep);
    lemma_split_nonempty(x, sep);
    assert(px.last() == Seq::<char>::empty()) by {
        if st > 0 {
            assert(x.last() == sep);
        }
    }
    let y = x + piece;
    lemma_split_append_run(x, piece, sep);
    assert(Seq::<char>::empty() + piece =~= piece);
    let py = split_spec(y, sep);
    assert(py[py.len() - 1] == piece);
    if en == s.len() {
        assert(s =~= y);
    } else {
        let z = y.push(sep);
        assert(z.drop_last() =~= y);
        assert(split_spec(z, sep) == py.push(Seq::<char>::empty()));
        let rest = s.skip(en + 1);
        assert(s =~= z + rest);
        lemma_split_keeps_early_pieces(z, rest, sep, py.len() - 1);
        assert(split_spec(s, sep)[py.len() - 1] == piece);
    }
}

/// The pieces of `v` between occurrences of `sep`.
pub fn split_chars(v: &Vec<char>, sep: char) -> (r: Vec<Vec<char>>)
    ensures
        r@.map_values(|p: Vec<char>| p@) == split_spec(v@, sep),
{
    let mut done: Vec<Vec<char>> = Vec::new();
    let mut cur: Vec<char> = Vec::new();
    let mut i: usize = 0;
    while i < v.len()
        invariant
            i <= v.len(),
            done@.map_values(|p: Vec<char>| p@).push(cur@) == split_spec(v@.take(i as int), sep),
        decreases v.len() - i,
    {
        let ghost before = done@.map_values(|p: Vec<char>| p@).push(cur@);
        assert(v@.take(i + 1).drop_last() =~= v@.take(i as int));
        if v[i] == sep {
            let finished = cur;
            done.push(finished);
            cur = Vec::new();
            assert(done@.map_values(|p: Vec<char>| p@).push(cur@) =~= before.push(
                Seq::<char>::empty(),
            ));
        } else {
            cur.push(v[i]);
            assert(done@.map_values(|p: Vec<char>| p@).push(cur@) =~= before.update(
                before.len() - 1,
                before.last().push(v@[i as int]),
            ));
        }
        i += 1;
    }
    assert(v@.take(v.len() as int) =~= v@);
    done.push(cur);
    done
}

/// The pieces of `parts` in order, with `sep` between each two (`[String]::join`).
pub open spec fn join_spec(parts: Seq<Seq<char>>, sep: Seq<char>) -> Seq<char>
    decreases parts.len(),
{
    if parts.len() == 0 {
        Seq::<char>::empty()
    } else if parts.len() == 1 {
        parts[0]
    } else {
        join_spec(parts.drop_last(), sep) + sep + parts.last()
    }
}

/// The strings of `parts` joined with `sep` between each two.
pub fn join_strings(parts: &Vec<String>, sep: &str) -> (r: String)
    ensures
        r@ == join_spec(views(parts@), sep@),
{
    let sepv = chars_of(sep);
    let mut out: Vec<char> = Vec::new();
    let mut i: usize = 0;
    while i < parts.len()
        invariant
            i <= parts.len(),
            sepv@ == sep@,
            out@ == join_spec(views(parts@).take(i as int), sep@),
        decreases parts.len() - i,
    {
        let ghost before = out@;
        let piece = chars_of(parts[i].as_str());
        if i > 0 {
            let mut k: usize = 0;
            while k < sepv.len()
                invariant
                    k <= sepv.len(),
                    out@ == before + sepv@.take(k as int),
                decreases sepv.len() - k,
            {
                out.push(sepv[k]);
                assert(out@ =~= before + sepv@.take(k + 1));
                k += 1;
            }
            assert(sepv@.take(sepv.len() as int) =~= sepv@);
        }
        let ghost mid = out@;
        let mut k: usize = 0;
        while k < piece.len()
            invariant
                k <= piece.len(),
                out@ == mid + piece@.take(k as int),
            decreases piece.len() - k,
        {
            out.push(piece[k]);
            assert(out@ =~= mid + piece@.take(k + 1));
            k += 1;
        }
        proof {
            assert(piece@.take(piece.len() as int) =~= piece@);
            let vs = views(parts@);
            assert(vs.take(i + 1).drop_last() =~= vs.take(i as int));
            assert(vs.take(i + 1).last() == parts@[i as int]@);
            if i == 0 {
                assert(out@ =~= vs.take(1)[0]);
            } else {
                assert(out@ =~= join_spec(vs.take(i as int), sep@) + sep@ + vs.take(i + 1).last());
            }
        }
        i += 1;
    }
    assert(views(parts@).take(parts.len() as int) =~= views(parts@));
    string_from_chars(&out)
}

// ---------------------------------------------------------------------------
// Substring search and case folding
// ---------------------------------------------------------------------------

/// Whether `needle` occurs in `hay` as a contiguous run (`str::contains`).
pub open spec fn text_contains(hay: Seq<char>, needle: Seq<char>) -> bool {
    exists|i: int|
        0 <= i && i + needle.len() <= hay.len() && #[trigger] hay.subrange(i, i + needle.len())
            == needle
}

/// Whether `needle` occurs in `hay`.
pub fn contains_chars(hay: &Vec<char>, needle: &Vec<char>) -> (r: bool)
    ensures
        r == text_contains(hay@, needle@),
{
    let n = hay.len();
    let m = needle.len();
    if m > n {
        return false;
    }
    let mut i: usize = 0;
    while i <= n - m
        invariant
            m <= n,
            n == hay.len(),
            m == needle.len(),
            forall|j: int| 0 <= j < i ==> #[trigger] hay@.subrange(j, j + m) != needle@,
        decreases n - m + 1 - i,
    {
        let mut k: usize = 0;
        while k < m && hay[i + k] == needle[k]
            invariant
                k <= m,
                i + m <= n,
                n == hay.len(),
                m == needle.len(),
                forall|t: int| 0 <= t < k ==> hay@[i + t] == needle@[t],
            decreases m - k,
        {
            k += 1;
        }
        if k == m {
            assert(hay@.subrange(i as int, i + m) =~= needle@);
            return true;
        } else {
            assert(hay@.subrange(i as int, i + m)[k as int] != needle@[k as int]);
        }
        i += 1;
    }
    proof {
        assert forall|j: int|
            0 <= j && j + needle@.len() <= hay@.len() implies #[trigger] hay@.subrange(
            j,
            j + needle@.len(),
        ) != needle@ by {
            assert(j < i);
        }
    }
    false
}

/// The lower-case form of a text, as `str::to_lowercase` computes it
/// (Unicode lower-case mapping).
pub uninterp spec fn lowercase(s: Seq<char>) -> Seq<char>;

/// Calls `str::to_lowercase`. Trusted: its result is the Unicode lower-case
/// mapping of `s`, a function of `s` alone, here named `lowercase`; each
/// character maps to one or more characters, so the result is empty exactly
/// when `s` is. Which characters each one maps to is not stated.
#[verifier::external_body]
fn to_lowercase(s: &str) -> (r: String)
    ensures
        r@ == lowercase(s@),
        (r@.len() == 0) == (s@.len() == 0),
{
    s.to_lowercase()
}

/// The characters of the lower-case form of `s`.
pub fn lowercase_chars(s: &str) -> (r: Vec<char>)
    ensures
        r@ == lowercase(s@),
        (r@.len() == 0) == (s@.len() == 0),
{
    let l = to_lowercase(s);
    chars_of(l.as_str())
}

// ---------------------------------------------------------------------------
// Code-point order
// ---------------------------------------------------------------------------

/// Lexicographic order by code point, the order `Ord for str` gives (UTF-8
/// byte order and code-point order agree).
pub open spec fn text_lt(a: Seq<char>, b: Seq<char>) -> bool
    decreases a.len(),
{
    if a.len() == 0 {
        b.len() > 0
    } else if b.len() == 0 {
        false
    } else if (a[0] as u32) < (b[0] as u32) {
        true
    } else if a[0] == b[0] {
        text_lt(a.drop_first(), b.drop_first())
    } else {
        false
    }
}

proof fn lemma_char_eq(x: char, y: char)
    ensures
        (x as u32) == (y as u32) ==> x == y,
{
    vstd::utf8::char_u32_cast(x, x as u32);
    vstd::utf8::char_u32_cast(y, y as u32);
}

pub proof fn lemma_text_lt_irreflexive(a: Seq<char>)
    ensures
        !text_lt(a, a),
    decreases a.len(),
{
    if a.len() > 0 {
        lemma_text_lt_irreflexive(a.drop_first());
    }
}

pub proof fn lemma_text_lt_transitive(a: Seq<char>, b: Seq<char>, c: Seq<char>)
    requires
        text_lt(a, b),
        text_lt(b, c),
    ensures
        text_lt(a, c),
    decreases a.len(),
{
    if a.len() > 0 && b.len() > 0 && c.len() > 0 {
        if a[0] == b[0] && b[0] == c[0] {
            lemma_text_lt_transitive(a.drop_first(), b.drop_first(), c.drop_first());
        }
    }
}

pub proof fn lemma_text_lt_total(a: Seq<char>, b: Seq<char>)
    ensures
        a == b || text_lt(a, b) || text_lt(b, a),
    decreases a.len(),
{
    if a.len() > 0 && b.len() > 0 {
        lemma_char_eq(a[0], b[0]);
        if a[0] == b[0] {
            lemma_text_lt_total(a.drop_first(), b.drop_first());
            if a.drop_first() == b.drop_first() {
                assert(a =~= seq![a[0]] + a.drop_first());
                assert(b =~= seq![b[0]] + b.drop_first());
            }
        }
    } else if a.len() == 0 && b.len() == 0 {
        assert(a =~= b);
    }
}

/// A proper prefix comes before the longer text.
pub proof fn lemma_text_lt_prefix(a: Seq<char>, b: Seq<char>)
    requires
        a.len() < b.len(),
        b.take(a.len() as int) == a,
    ensures
        text_lt(a, b),
    decreases a.len(),
{
    if a.len() > 0 {
        assert(a[0] == b.take(a.len() as int)[0]);
        assert(b.drop_first().take(a.drop_first().len() as int) =~= a.drop_first()) by {
            assert forall|t: int| 0 <= t < a.len() - 1 implies b.drop_first()[t] == a.drop_first()[t] by {
                assert(b.take(a.len() as int)[t + 1] == a[t + 1]);
            }
        }
        lemma_text_lt_prefix(a.drop_first(), b.drop_first());
    }
}

/// Of two texts that agree up to position `k`, the one with the smaller
/// character at `k` comes first.
pub proof fn lemma_text_lt_first_difference(a: Seq<char>, b: Seq<char>, k: int)
    requires
        0 <= k < a.len(),
        k < b.len(),
        a.take(k) == b.take(k),
        (a[k] as u32) < (b[k] as u32),
    ensures
        text_lt(a, b),
    decreases k,
{
    if k > 0 {
        assert(a[0] == a.take(k)[0] && b[0] == b.take(k)[0]);
        assert(a.drop_first().take(k - 1) =~= b.drop_first().take(k - 1)) by {
            assert forall|t: int| 0 <= t < k - 1 implies a.drop_first()[t] == b.drop_first()[t] by {
                assert(a.take(k)[t + 1] == b.take(k)[t + 1]);
                assert(a.take(k)[t + 1] == a[t + 1] && b.take(k)[t + 1] == b[t + 1]);
                assert(a.drop_first()[t] == a[t + 1] && b.drop_first()[t] == b[t + 1]);
            }
        }
        lemma_text_lt_first_difference(a.drop_first(), b.drop_first(), k - 1);
    }
}

pub proof fn lemma_text_lt_asymmetric(a: Seq<char>, b: Seq<char>)
    ensures
        !(text_lt(a, b) && text_lt(b, a)),
{
    if text_lt(a, b) && text_lt(b, a) {
        lemma_text_lt_transitive(a, b, a);
        lemma_text_lt_irreflexive(a);
    }
}

proof fn lemma_text_lt_skip(a: Seq<char>, b: Seq<char>, i: int)
    requires
        0 <= i <= a.len(),
        i <= b.len(),
        forall|j: int| 0 <= j < i ==> a[j] == b[j],
    ensures
        text_lt(a, b) == text_lt(a.skip(i), b.skip(i)),
    decreases i,
{
    if i == 0 {
        assert(a.skip(0) =~= a);
        assert(b.skip(0) =~= b);
    } else {
        let a1 = a.drop_first();
        let b1 = b.drop_first();
        assert forall|j: int| 0 <= j < i - 1 implies a1[j] == b1[j] by {
            assert(a[j + 1] == b[j + 1]);
        }
        lemma_text_lt_skip(a1, b1, i - 1);
        assert(a1.skip(i - 1) =~= a.skip(i));
        assert(b1.skip(i - 1) =~= b.skip(i));
    }
}

/// Three-way comparison by code point: negative, zero or positive as `a` is
/// before, equal to or after `b`.
pub fn compare_chars(a: &Vec<char>, b: &Vec<char>) -> (r: i8)
    ensures
        r < 0 <==> text_lt(a@, b@),
        r == 0 <==> a@ == b@,
        r > 0 <==> text_lt(b@, a@),
{
    let mut i: usize = 0;
    while i < a.len() && i < b.len() && a[i] == b[i]
        invariant
            i <= a.len(),
            i <= b.len(),
            forall|j: int| 0 <= j < i ==> a@[j] == b@[j],
        decreases a.len() - i,
    {
        i += 1;
    }
    proof {
        lemma_text_lt_skip(a@, b@, i as int);
        assert forall|j: int| 0 <= j < i implies b@[j] == a@[j] by {}
        lemma_text_lt_skip(b@, a@, i as int);
        lemma_text_lt_asymmetric(a@, b@);
        lemma_text_lt_irreflexive(a@);
    }
    if i < a.len() && i < b.len() {
        proof {
            lemma_char_eq(a@[i as int], b@[i as int]);
            assert(a@.skip(i as int)[0] == a@[i as int]);
            assert(b@.skip(i as int)[0] == b@[i as int]);
        }
        if (a[i] as u32) < (b[i] as u32) {
            -1
        } else {
            1
        }
    } else if i < a.len() {
        proof {
            assert(a@.len() != b@.len());
        }
        1
    } else if i < b.len() {
        assert(a@.len() != b@.len());
        -1
    } else {
        assert(a@ =~= b@);
        0
    }
}

// ---------------------------------------------------------------------------
// UTF-8 widths
// ---------------------------------------------------------------------------

/// The number of bytes UTF-8 uses for `c` (`char::len_utf8`).
pub open spec fn utf8_width(c: char) -> nat {
    let u = c as u32;
    if u < 0x80 {
        1
    } else if u < 0x800 {
        2
    } else if u < 0x10000 {
        3
    } else {
        4
    }
}

/// The number of bytes UTF-8 uses for `s` (`str::len`).
pub open spec fn byte_len(s: Seq<char>) -> nat
    decreases s.len(),
{
    if s.len() == 0 {
        0
    } else {
        byte_len(s.drop_last()) + utf8_width(s.last())
    }
}

/// The number of bytes UTF-8 uses for `c`.
pub fn utf8_len(c: char) -> (n: usize)
    ensures
        n == utf8_width(c),
{
    let u = c as u32;
    if u < 0x80 {
        1
    } else if u < 0x800 {
        2
    } else if u < 0x10000 {
        3
    } else {
        4
    }
}

pub proof fn lemma_byte_len_take_step(s: Seq<char>, k: int)
    requires
        0 <= k < s.len(),
    ensures
        byte_len(s.take(k + 1)) == byte_len(s.take(k)) + utf8_width(s[k]),
{
    assert(s.take(k + 1).drop_last() =~= s.take(k));
}

pub proof fn lemma_byte_len_append(a: Seq<char>, b: Seq<char>)
    ensures
        byte_len(a + b) == byte_len(a) + byte_len(b),
    decreases b.len(),
{
    if b.len() == 0 {
        assert(a + b =~= a);
    } else {
        lemma_byte_len_append(a, b.drop_last());
        assert((a + b).drop_last() =~= a + b.drop_last());
    }
}

pub proof fn lemma_byte_len_take_mono(s: Seq<char>, j: int, k: int)
    requires
        0 <= j <= k <= s.len(),
    ensures
        byte_len(s.take(j)) <= byte_len(s.take(k)),
        j < k ==> byte_len(s.take(j)) < byte_len(s.take(k)),
    decreases k - j,
{
    if j < k {
        lemma_byte_len_take_mono(s, j, k - 1);
        lemma_byte_len_take_step(s, k - 1);
    }
}

// ---------------------------------------------------------------------------
// Decimal numbers
// ---------------------------------------------------------------------------

/// Whether `c` is an ASCII decimal digit.
pub open spec fn is_digit(c: char) -> bool {
    48 <= (c as u32) <= 57
}

/// Whether every character of `s` is a decimal digit.
pub open spec fn all_digits(s: Seq<char>) -> bool {
    forall|i: int| 0 <= i < s.len() ==> is_digit(#[trigger] s[i])
}

/// The number that the decimal digits `s` spell.
pub open spec fn digits_value(s: Seq<char>) -> nat
    decreases s.len(),
{
    if s.len() == 0 {
        0
    } else {
        digits_value(s.drop_last()) * 10 + ((s.last() as u32) - 48) as nat
    }
}

/// The digit character for `d < 10`.
pub open spec fn digit_char(d: nat) -> char {
    (d + 48) as char
}

/// The shortest decimal spelling of `n`.
pub open spec fn decimal(n: nat) -> Seq<char>
    decreases n,
{
    if n < 10 {
        seq![digit_char(n)]
    } else {
        decimal(n / 10).push(digit_char(n % 10))
    }
}

/// What `u16::from_str` accepts: an optional `+` and then one or more
/// decimal digits whose value fits in a `u16`.
pub open spec fn parse_u16_spec(s: Seq<char>) -> Option<u16> {
    let d = if s.len() > 0 && s[0] == '+' {
        s.drop_first()
    } else {
        s
    };
    if d.len() > 0 && all_digits(d) && digits_value(d) <= 65535 {
        Some(digits_value(d) as u16)
    } else {
        None
    }
}

proof fn lemma_digit_char(d: nat)
    requires
        d < 10,
    ensures
        is_digit(digit_char(d)),
        (digit_char(d) as u32) - 48 == d,
        digit_char(d) != '+',
{
    vstd::utf8::char_u32_cast(digit_char(d), (d + 48) as u32);
}

/// The decimal spelling of `n` is a non-empty run of digits with value `n`.
pub proof fn lemma_decimal(n: nat)
    ensures
        decimal(n).len() > 0,
        all_digits(decimal(n)),
        digits_value(decimal(n)) == n,
        decimal(n)[0] != '+',
        !is_space(decimal(n)[0]),
        !is_space(decimal(n).last()),
    decreases n,
{
    if n < 10 {
        lemma_digit_char(n);
        assert(decimal(n).drop_last() =~= Seq::<char>::empty());
        assert(digits_value(Seq::<char>::empty()) == 0);
        assert(decimal(n).last() == digit_char(n));
    } else {
        lemma_decimal(n / 10);
        lemma_digit_char(n % 10);
        let p = decimal(n / 10);
        assert(decimal(n).drop_last() =~= p);
        assert forall|i: int| 0 <= i < decimal(n).len() implies is_digit(#[trigger] decimal(n)[i]) by {
            if i < p.len() {
                assert(decimal(n)[i] == p[i]);
            }
        }
        assert(decimal(n)[0] == p[0]);
        assert(decimal(n).last() == digit_char(n % 10));
        assert(digits_value(decimal(n)) == digits_value(p) * 10 + (n % 10));
    }
    assert(is_digit(decimal(n)[0]));
    assert(is_digit(decimal(n).last()));
}

/// Parsing the decimal spelling of a port number gives the number back.
pub proof fn lemma_parse_decimal(n: u16)
    ensures
        parse_u16_spec(decimal(n as nat)) == Some(n),
{
    lemma_decimal(n as nat);
}

proof fn lemma_digits_value_grows(s: Seq<char>, i: int)
    requires
        0 <= i <= s.len(),
        all_digits(s),
    ensures
        digits_value(s.take(i)) <= digits_value(s),
    decreases s.len() - i,
{
    if i < s.len() {
        lemma_digits_value_grows(s, i + 1);
        assert(s.take(i + 1).drop_last() =~= s.take(i));
        assert(is_digit(s[i]));
    } else {
        assert(s.take(i) =~= s);
    }
}

/// Parses `s` as `u16::from_str` does.
pub fn parse_u16(s: &Vec<char>) -> (r: Option<u16>)
    ensures
        r == parse_u16_spec(s@),
{
    let start: usize = if s.len() > 0 && s[0] == '+' {
        1
    } else {
        0
    };
    let ghost d = if s@.len() > 0 && s@[0] == '+' {
        s@.drop_first()
    } else {
        s@
    };
    assert(d =~= s@.skip(start as int));
    if start >= s.len() {
        return None;
    }
    let mut acc: u32 = 0;
    let mut i: usize = start;
    while i < s.len()
        invariant
            start <= i <= s.len(),
            start < s.len(),
            d == s@.skip(start as int),
            d == (if s@.len() > 0 && s@[0] == '+' { s@.drop_first() } else { s@ }),
            all_digits(d.take(i - start)),
            acc == digits_value(d.take(i - start)),
            acc <= 65535,
        decreases s.len() - i,
    {
        let c = s[i];
        let ghost k = i - start;
        assert(d[k] == c);
        assert(d.take(k + 1).drop_last() =~= d.take(k));
        if !((c as u32) >= 48 && (c as u32) <= 57) {
            assert(!is_digit(d[k]));
            assert(!all_digits(d));
            return None;
        }
        let next = acc * 10 + ((c as u32) - 48);
        if next > 65535 {
            proof {
                assert(d.take(k + 1).last() == c);
                assert(digits_value(d.take(k + 1)) == digits_value(d.take(k)) * 10 + ((c as u32) - 48) as nat);
                assert(digits_value(d.take(k + 1)) == next);
                if all_digits(d) {
                    lemma_digits_value_grows(d, k + 1);
                }
            }
            return None;
        }
        assert(all_digits(d.take(k + 1)));
        acc = next;
        i += 1;
    }
    assert(d.take(i - start) =~= d);
    Some(acc as u16)
}

fn push_decimal(n: u16, out: &mut Vec<char>)
    ensures
        final(out)@ == old(out)@ + decimal(n as nat),
    decreases n,
{
    if n >= 10 {
        push_decimal(n / 10, out);
    }
    let d: u8 = (n % 10) as u8;
    let c = (d + 48) as char;
    out.push(c);
    proof {
        vstd::utf8::char_u32_cast(c, (d + 48) as u32);
        if n >= 10 {
            assert(decimal(n as nat) == decimal((n / 10) as nat).push(digit_char((n % 10) as nat)));
        }
        assert(c == digit_char((n % 10) as nat));
    }
}

/// The decimal spelling of `n` (`u16::to_string`).
pub fn format_u16(n: u16) -> (s: String)
    ensures
        s@ == decimal(n as nat),
{
    let mut v: Vec<char> = Vec::new();
    push_decimal(n, &mut v);
    assert(v@ =~= decimal(n as nat));
    string_from_chars(&v)
}

} // verus!
