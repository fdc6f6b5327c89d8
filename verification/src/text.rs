//! Character-level string helpers shared by the naming, media and library
//! modules, each specified over `Seq<char>`.

use vstd::prelude::*;

verus! {

broadcast use vstd::string::group_string_axioms;

/// The characters of `s`, in order.
pub fn chars_of(s: &str) -> (v: Vec<char>)
    ensures
        v@ == s@,
{
    let mut v: Vec<char> = Vec::new();
    for c in it: s.chars()
        invariant
            v@ == it.seq().take(it.index() as int),
            it.seq() == s@,
    {
        v.push(c);
    }
    v
}

/// Collects `v` into a `String` (std's `FromIterator<char>` for `String`).
/// Trusted: the string holds exactly the characters of `v`, in order.
#[verifier::external_body]
pub(crate) fn string_of(v: &[char]) -> (s: String)
    ensures
        s@ == v@,
{
    v.iter().collect()
}

/// A copy of `s[from..to]`.
pub fn copy_range(s: &[char], from: usize, to: usize) -> (r: Vec<char>)
    requires
        from <= to <= s@.len(),
    ensures
        r@ == s@.subrange(from as int, to as int),
{
    let mut r: Vec<char> = Vec::new();
    let mut i = from;
    while i < to
        invariant
            from <= i <= to <= s@.len(),
            r@ == s@.subrange(from as int, i as int),
        decreases to - i,
    {
        r.push(s[i]);
        i += 1;
    }
    r
}

/// `a` followed by `b`.
pub fn concat(a: &[char], b: &[char]) -> (r: Vec<char>)
    ensures
        r@ == a@ + b@,
{
    let mut r = copy_range(a, 0, a.len());
    let mut i: usize = 0;
    while i < b.len()
        invariant
            i <= b@.len(),
            r@ == a@ + b@.take(i as int),
        decreases b.len() - i,
    {
        r.push(b[i]);
        i += 1;
    }
    assert(b@.take(b@.len() as int) == b@);
    r
}

/// Whether two character sequences are equal.
pub fn chars_eq(a: &[char], b: &[char]) -> (r: bool)
    ensures
        r == (a@ == b@),
{
    if a.len() != b.len() {
        return false;
    }
    let mut i: usize = 0;
    while i < a.len()
        invariant
            a@.len() == b@.len(),
            i <= a@.len(),
            forall|j: int| 0 <= j < i ==> a@[j] == b@[j],
        decreases a.len() - i,
    {
        if a[i] != b[i] {
            return false;
        }
        i += 1;
    }
    assert(a@ =~= b@);
    true
}

// ---------------------------------------------------------------------------
// Whitespace and trimming
// ---------------------------------------------------------------------------

/// Unicode `White_Space`, the property `char::is_whitespace` tests.
pub open spec fn is_ws(c: char) -> bool {
    let u = c as u32;
    ||| 9 <= u <= 13
    ||| u == 32
    ||| u == 0x85
    ||| u == 0xa0
    ||| u == 0x1680
    ||| 0x2000 <= u <= 0x200a
    ||| u == 0x2028
    ||| u == 0x2029
    ||| u == 0x202f
    ||| u == 0x205f
    ||| u == 0x3000
}

pub fn is_ws_char(c: char) -> (r: bool)
    ensures
        r == is_ws(c),
{
    let u = c as u32;
    (9 <= u && u <= 13) || u == 32 || u == 0x85 || u == 0xa0 || u == 0x1680 || (0x2000 <= u && u
        <= 0x200a) || u == 0x2028 || u == 0x2029 || u == 0x202f || u == 0x205f || u == 0x3000
}

/// `s` without its leading whitespace.
pub open spec fn trim_start_spec(s: Seq<char>) -> Seq<char>
    decreases s.len(),
{
    if s.len() > 0 && is_ws(s[0]) {
        trim_start_spec(s.drop_first())
    } else {
        s
    }
}

/// `s` without its trailing whitespace.
pub open spec fn trim_end_spec(s: Seq<char>) -> Seq<char>
    decreases s.len(),
{
    if s.len() > 0 && is_ws(s.last()) {
        trim_end_spec(s.drop_last())
    } else {
        s
    }
}

/// `s` without leading and trailing whitespace (what `str::trim` returns).
pub open spec fn trim_spec(s: Seq<char>) -> Seq<char> {
    trim_end_spec(trim_start_spec(s))
}

proof fn lemma_trim_start_skip(s: Seq<char>, k: int)
    requires
        0 <= k <= s.len(),
        forall|i: int| 0 <= i < k ==> is_ws(#[trigger] s[i]),
    ensures
        trim_start_spec(s) == trim_start_spec(s.skip(k)),
    decreases k,
{
    if k == 0 {
        assert(s.skip(0) =~= s);
    } else {
        let t = s.drop_first();
        assert forall|i: int| 0 <= i < k - 1 implies is_ws(#[trigger] t[i]) by {
            assert(t[i] == s[i + 1]);
        }
        lemma_trim_start_skip(t, k - 1);
        assert(t.skip(k - 1) =~= s.skip(k));
    }
}

proof fn lemma_trim_end_take(s: Seq<char>, k: int)
    requires
        0 <= k <= s.len(),
        forall|i: int| k <= i < s.len() ==> is_ws(#[trigger] s[i]),
    ensures
        trim_end_spec(s) == trim_end_spec(s.take(k)),
    decreases s.len() - k,
{
    if k == s.len() {
        assert(s.take(k) =~= s);
    } else {
        let t = s.drop_last();
        assert forall|i: int| k <= i < t.len() implies is_ws(#[trigger] t[i]) by {
            assert(t[i] == s[i]);
        }
        lemma_trim_end_take(t, k);
        assert(t.take(k) =~= s.take(k));
    }
}

/// Trimming twice is the same as trimming once.
pub proof fn lemma_trim_idempotent(s: Seq<char>)
    ensures
        trim_spec(trim_spec(s)) == trim_spec(s),
    decreases s.len(),
{
    lemma_trim_shape(s);
    let t = trim_spec(s);
    if t.len() > 0 {
        assert(!is_ws(t[0]));
        assert(!is_ws(t.last()));
    }
    assert(trim_start_spec(t) == t);
    assert(trim_end_spec(t) == t);
}

/// A trimmed sequence neither starts nor ends with whitespace.
pub proof fn lemma_trim_shape(s: Seq<char>)
    ensures
        trim_spec(s).len() > 0 ==> !is_ws(trim_spec(s)[0]) && !is_ws(trim_spec(s).last()),
        trim_spec(s).len() <= s.len(),
    decreases s.len(),
{
    lemma_trim_start_shape(s);
    lemma_trim_end_shape(trim_start_spec(s));
    let t = trim_start_spec(s);
    let u = trim_end_spec(t);
    if u.len() > 0 {
        lemma_trim_end_prefix(t);
        assert(u[0] == t[0]);
    }
}

proof fn lemma_trim_start_shape(s: Seq<char>)
    ensures
        trim_start_spec(s).len() > 0 ==> !is_ws(trim_start_spec(s)[0]),
        trim_start_spec(s).len() <= s.len(),
    decreases s.len(),
{
    if s.len() > 0 && is_ws(s[0]) {
        lemma_trim_start_shape(s.drop_first());
    }
}

proof fn lemma_trim_end_shape(s: Seq<char>)
    ensures
        trim_end_spec(s).len() > 0 ==> !is_ws(trim_end_spec(s).last()),
        trim_end_spec(s).len() <= s.len(),
    decreases s.len(),
{
    if s.len() > 0 && is_ws(s.last()) {
        lemma_trim_end_shape(s.drop_last());
    }
}

proof fn lemma_trim_end_prefix(s: Seq<char>)
    ensures
        trim_end_spec(s) == s.take(trim_end_spec(s).len() as int),
        trim_end_spec(s).len() <= s.len(),
    decreases s.len(),
{
    if s.len() > 0 && is_ws(s.last()) {
        lemma_trim_end_prefix(s.drop_last());
        assert(s.drop_last().take(trim_end_spec(s).len() as int) =~= s.take(
            trim_end_spec(s).len() as int,
        ));
    } else {
        assert(s.take(s.len() as int) =~= s);
    }
}

proof fn lemma_trim_start_keeps(s: Seq<char>, k: int)
    requires
        0 <= k < s.len(),
        !is_ws(s[k]),
    ensures
        s.len() - trim_start_spec(s).len() <= k,
        trim_start_spec(s)[k - (s.len() - trim_start_spec(s).len())] == s[k],
    decreases s.len(),
{
    if is_ws(s[0]) {
        let t = s.drop_first();
        assert(t[k - 1] == s[k]);
        lemma_trim_start_keeps(t, k - 1);
    }
}

proof fn lemma_trim_end_keeps(s: Seq<char>, k: int)
    requires
        0 <= k < s.len(),
        !is_ws(s[k]),
    ensures
        k < trim_end_spec(s).len(),
    decreases s.len(),
{
    if is_ws(s.last()) {
        let t = s.drop_last();
        assert(t[k] == s[k]);
        lemma_trim_end_keeps(t, k);
    }
}

/// Trimming never empties a sequence that holds a non-whitespace character.
pub proof fn lemma_trim_nonempty(s: Seq<char>, k: int)
    requires
        0 <= k < s.len(),
        !is_ws(s[k]),
    ensures
        trim_spec(s).len() > 0,
{
    lemma_trim_start_keeps(s, k);
    let t = trim_start_spec(s);
    lemma_trim_end_keeps(t, k - (s.len() - t.len()));
}

/// `s` with leading and trailing whitespace removed (`str::trim`).
pub fn trim_chars(s: &[char]) -> (r: Vec<char>)
    ensures
        r@ == trim_spec(s@),
{
    let n = s.len();
    let mut lo: usize = 0;
    while lo < n && is_ws_char(s[lo])
        invariant
            lo <= n == s@.len(),
            forall|i: int| 0 <= i < lo ==> is_ws(#[trigger] s@[i]),
        decreases n - lo,
    {
        lo += 1;
    }
    let mut hi: usize = n;
    while hi > lo && is_ws_char(s[hi - 1])
        invariant
            lo <= hi <= n == s@.len(),
            forall|i: int| hi <= i < n ==> is_ws(#[trigger] s@[i]),
        decreases hi,
    {
        hi -= 1;
    }
    proof {
        lemma_trim_start_skip(s@, lo as int);
        let t = s@.skip(lo as int);
        if t.len() > 0 {
            assert(t[0] == s@[lo as int]);
        }
        assert(trim_start_spec(t) == t);
        assert forall|i: int| hi - lo <= i < t.len() implies is_ws(#[trigger] t[i]) by {
            assert(t[i] == s@[i + lo]);
        }
        lemma_trim_end_take(t, hi - lo);
        let u = t.take(hi - lo);
        if u.len() > 0 {
            assert(u.last() == s@[hi - 1]);
        }
        assert(trim_end_spec(u) == u);
        assert(u =~= s@.subrange(lo as int, hi as int));
    }
    copy_range(s, lo, hi)
}

/// `s` without its leading whitespace (`str::trim_start`).
pub fn trim_start_chars(s: &[char]) -> (r: Vec<char>)
    ensures
        r@ == trim_start_spec(s@),
{
    let n = s.len();
    let mut lo: usize = 0;
    while lo < n && is_ws_char(s[lo])
        invariant
            lo <= n == s@.len(),
            forall|i: int| 0 <= i < lo ==> is_ws(#[trigger] s@[i]),
        decreases n - lo,
    {
        lo += 1;
    }
    proof {
        lemma_trim_start_skip(s@, lo as int);
        let t = s@.skip(lo as int);
        if t.len() > 0 {
            assert(t[0] == s@[lo as int]);
        }
        assert(trim_start_spec(t) == t);
        assert(t =~= s@.subrange(lo as int, n as int));
    }
    copy_range(s, lo, n)
}

/// `str::trim` on a string slice.
pub fn trim_str(s: &str) -> (r: Vec<char>)
    ensures
        r@ == trim_spec(s@),
{
    let v = chars_of(s);
    trim_chars(v.as_slice())
}

// ---------------------------------------------------------------------------
// Filtering
// ---------------------------------------------------------------------------

/// Characters that cannot appear in a Windows file name: `< > : " / \ | ? *`.
/// The two path separators are among them, so a stem can never name a
/// subdirectory.
pub open spec fn is_illegal(c: char) -> bool {
    c == '<' || c == '>' || c == ':' || c == '"' || c == '/' || c == '\\' || c == '|' || c == '?'
        || c == '*'
}

/// `s` with every illegal file-name character removed, the rest kept in order.
pub open spec fn drop_illegal(s: Seq<char>) -> Seq<char>
    decreases s.len(),
{
    if s.len() == 0 {
        s
    } else if is_illegal(s.last()) {
        drop_illegal(s.drop_last())
    } else {
        drop_illegal(s.drop_last()).push(s.last())
    }
}

/// Whether `s` holds no illegal file-name character.
pub open spec fn all_legal(s: Seq<char>) -> bool {
    forall|i: int| 0 <= i < s.len() ==> !is_illegal(#[trigger] s[i])
}

pub fn is_illegal_char(c: char) -> (r: bool)
    ensures
        r == is_illegal(c),
{
    c == '<' || c == '>' || c == ':' || c == '"' || c == '/' || c == '\\' || c == '|' || c == '?'
        || c == '*'
}

/// The result of `drop_illegal` holds no illegal character, and is no longer
/// than its input.
pub proof fn lemma_drop_illegal_legal(s: Seq<char>)
    ensures
        all_legal(drop_illegal(s)),
        drop_illegal(s).len() <= s.len(),
    decreases s.len(),
{
    if s.len() > 0 {
        lemma_drop_illegal_legal(s.drop_last());
    }
}

/// A sequence that holds no illegal character passes through unchanged.
pub proof fn lemma_drop_illegal_keeps_legal(s: Seq<char>)
    requires
        all_legal(s),
    ensures
        drop_illegal(s) == s,
    decreases s.len(),
{
    if s.len() > 0 {
        assert(all_legal(s.drop_last()));
        lemma_drop_illegal_keeps_legal(s.drop_last());
        assert(s.drop_last().push(s.last()) =~= s);
    }
}

/// Removing whitespace from the ends cannot introduce an illegal character.
pub proof fn lemma_trim_keeps_legal(s: Seq<char>)
    requires
        all_legal(s),
    ensures
        all_legal(trim_spec(s)),
{
    lemma_trim_sub(s);
}

/// The trimmed sequence is a contiguous part of the original.
pub proof fn lemma_trim_sub(s: Seq<char>)
    ensures
        exists|a: int, b: int| 0 <= a <= b <= s.len() && trim_spec(s) == s.subrange(a, b),
{
    let (a, t) = lemma_trim_start_sub(s);
    lemma_trim_end_prefix(t);
    let b = trim_end_spec(t).len() as int;
    assert(trim_spec(s) =~= s.subrange(a, a + b));
}

proof fn lemma_trim_start_sub(s: Seq<char>) -> (r: (int, Seq<char>))
    ensures
        0 <= r.0 <= s.len(),
        r.1 == trim_start_spec(s),
        r.1 == s.skip(r.0),
    decreases s.len(),
{
    if s.len() > 0 && is_ws(s[0]) {
        let (a, t) = lemma_trim_start_sub(s.drop_first());
        assert(s.drop_first().skip(a) =~= s.skip(a + 1));
        (a + 1, t)
    } else {
        assert(s.skip(0) =~= s);
        (0, s)
    }
}

/// `s` with every illegal file-name character dropped.
pub fn strip_illegal_chars(s: &[char]) -> (r: Vec<char>)
    ensures
        r@ == drop_illegal(s@),
{
    let mut r: Vec<char> = Vec::new();
    let mut i: usize = 0;
    while i < s.len()
        invariant
            i <= s@.len(),
            r@ == drop_illegal(s@.take(i as int)),
        decreases s.len() - i,
    {
        let c = s[i];
        proof {
            assert(s@.take(i + 1).drop_last() =~= s@.take(i as int));
        }
        if !is_illegal_char(c) {
            r.push(c);
        }
        i += 1;
    }
    assert(s@.take(s@.len() as int) =~= s@);
    r
}

// ---------------------------------------------------------------------------
// Searching and replacing
// ---------------------------------------------------------------------------

/// Whether `pat` occurs in `s` starting at index `i`.
pub open spec fn occurs_at(s: Seq<char>, pat: Seq<char>, i: int) -> bool {
    0 <= i && i + pat.len() <= s.len() && s.subrange(i, i + pat.len()) == pat
}

/// The index of the first occurrence of `pat` in `s` (what `str::find` gives,
/// counted in characters).
pub open spec fn find_spec(s: Seq<char>, pat: Seq<char>) -> Option<int>
    decreases s.len(),
{
    if s.len() < pat.len() {
        None
    } else if s.take(pat.len() as int) == pat {
        Some(0)
    } else if s.len() == 0 {
        None
    } else {
        match find_spec(s.drop_first(), pat) {
            Some(k) => Some(k + 1),
            None => None,
        }
    }
}

/// Whether `pat` occurs anywhere in `s` (`str::contains`).
pub open spec fn contains_spec(s: Seq<char>, pat: Seq<char>) -> bool {
    find_spec(s, pat) is Some
}

/// `find_spec` gives the first occurrence, or none when there is none.
pub proof fn lemma_find_spec(s: Seq<char>, pat: Seq<char>)
    ensures
        match find_spec(s, pat) {
            Some(k) => occurs_at(s, pat, k) && forall|j: int|
                0 <= j < k ==> !#[trigger] occurs_at(s, pat, j),
            None => forall|j: int| !#[trigger] occurs_at(s, pat, j),
        },
    decreases s.len(),
{
    if s.len() < pat.len() {
    } else if s.take(pat.len() as int) == pat {
        assert(s.subrange(0, pat.len() as int) =~= s.take(pat.len() as int));
    } else if s.len() == 0 {
        assert(s.take(pat.len() as int) =~= pat);
    } else {
        let t = s.drop_first();
        lemma_find_spec(t, pat);
        assert(!occurs_at(s, pat, 0)) by {
            assert(s.subrange(0, pat.len() as int) =~= s.take(pat.len() as int));
        }
        assert forall|j: int| 0 < j && #[trigger] occurs_at(s, pat, j) implies occurs_at(
            t,
            pat,
            j - 1,
        ) by {
            assert(t.subrange(j - 1, j - 1 + pat.len()) =~= s.subrange(j, j + pat.len()));
        }
        assert forall|j: int| 0 <= j && #[trigger] occurs_at(t, pat, j) implies occurs_at(
            s,
            pat,
            j + 1,
        ) by {
            assert(t.subrange(j, j + pat.len()) =~= s.subrange(j + 1, j + 1 + pat.len()));
        }
        match find_spec(t, pat) {
            Some(k) => {
                assert(occurs_at(s, pat, k + 1));
                assert forall|j: int| 0 <= j < k + 1 implies !#[trigger] occurs_at(s, pat, j) by {
                    if j > 0 && occurs_at(s, pat, j) {
                        assert(occurs_at(t, pat, j - 1));
                    }
                }
            },
            None => {
                assert forall|j: int| !#[trigger] occurs_at(s, pat, j) by {
                    if j > 0 && occurs_at(s, pat, j) {
                        assert(occurs_at(t, pat, j - 1));
                    }
                }
            },
        }
    }
}

/// The unique characterisation of the first occurrence.
pub proof fn lemma_find_spec_is(s: Seq<char>, pat: Seq<char>, k: int)
    requires
        occurs_at(s, pat, k),
        forall|j: int| 0 <= j < k ==> !#[trigger] occurs_at(s, pat, j),
    ensures
        find_spec(s, pat) == Some(k),
{
    lemma_find_spec(s, pat);
    match find_spec(s, pat) {
        Some(k2) => {
            if k2 < k {
                assert(!occurs_at(s, pat, k2));
            } else if k < k2 {
                assert(!occurs_at(s, pat, k));
            }
        },
        None => {
            assert(!occurs_at(s, pat, k));
        },
    }
}

/// Whether `pat` occurs in `s` at index `i`.
pub fn occurs_at_exec(s: &[char], pat: &[char], i: usize) -> (r: bool)
    ensures
        r == occurs_at(s@, pat@, i as int),
{
    if i > s.len() || pat.len() > s.len() - i {
        return false;
    }
    let n = s.len();
    let mut j: usize = 0;
    while j < pat.len()
        invariant
            n == s@.len(),
            i + pat@.len() <= s@.len(),
            j <= pat@.len(),
            forall|k: int| 0 <= k < j ==> s@[i + k] == pat@[k],
        decreases pat.len() - j,
    {
        assert(i + j < s@.len());
        if s[i + j] != pat[j] {
            assert(s@.subrange(i as int, i + pat@.len())[j as int] != pat@[j as int]);
            return false;
        }
        j += 1;
    }
    assert(s@.subrange(i as int, i + pat@.len()) =~= pat@);
    true
}

/// The first index at which `pat` occurs in `s` (`str::find`).
pub fn find_chars(s: &[char], pat: &[char]) -> (r: Option<usize>)
    ensures
        match r {
            Some(k) => find_spec(s@, pat@) == Some(k as int),
            None => find_spec(s@, pat@) is None,
        },
{
    proof {
        lemma_find_spec(s@, pat@);
    }
    let mut i: usize = 0;
    while i < s.len()
        invariant
            i <= s@.len(),
            forall|j: int| 0 <= j < i ==> !#[trigger] occurs_at(s@, pat@, j),
        decreases s.len() - i,
    {
        if occurs_at_exec(s, pat, i) {
            proof {
                lemma_find_spec_is(s@, pat@, i as int);
            }
            return Some(i);
        }
        i += 1;
    }
    if occurs_at_exec(s, pat, i) {
        proof {
            lemma_find_spec_is(s@, pat@, i as int);
        }
        return Some(i);
    }
    proof {
        if find_spec(s@, pat@) is Some {
            let k = find_spec(s@, pat@)->0;
            assert(occurs_at(s@, pat@, k));
        }
    }
    None
}

/// Whether `pat` occurs in `s` (`str::contains`).
pub fn contains_chars(s: &[char], pat: &[char]) -> (r: bool)
    ensures
        r == contains_spec(s@, pat@),
{
    find_chars(s, pat).is_some()
}

/// `s` with every non-overlapping occurrence of `pat`, scanned left to right,
/// replaced by `rep` (what `str::replace` does for a non-empty pattern).
pub open spec fn replace_spec(s: Seq<char>, pat: Seq<char>, rep: Seq<char>) -> Seq<char>
    recommends
        pat.len() > 0,
    decreases s.len(),
{
    if s.len() == 0 || pat.len() == 0 {
        s
    } else if pat.len() <= s.len() && s.take(pat.len() as int) == pat {
        rep + replace_spec(s.skip(pat.len() as int), pat, rep)
    } else {
        seq![s[0]] + replace_spec(s.drop_first(), pat, rep)
    }
}

/// Replaces every non-overlapping occurrence of `pat` in `s` by `rep`.
pub fn replace_chars(s: &[char], pat: &[char], rep: &[char]) -> (r: Vec<char>)
    requires
        pat@.len() > 0,
    ensures
        r@ == replace_spec(s@, pat@, rep@),
{
    let mut out: Vec<char> = Vec::new();
    let mut i: usize = 0;
    assert(s@.skip(0) =~= s@);
    while i < s.len()
        invariant
            pat@.len() > 0,
            i <= s@.len(),
            out@ + replace_spec(s@.skip(i as int), pat@, rep@) == replace_spec(s@, pat@, rep@),
        decreases s.len() - i,
    {
        let t = Ghost(s@.skip(i as int));
        if occurs_at_exec(s, pat, i) {
            proof {
                assert(t@.take(pat@.len() as int) =~= s@.subrange(i as int, i + pat@.len()));
                assert(t@.skip(pat@.len() as int) =~= s@.skip(i + pat@.len()));
                assert(out@ + (rep@ + replace_spec(s@.skip(i + pat@.len()), pat@, rep@)) =~= (out@
                    + rep@) + replace_spec(s@.skip(i + pat@.len()), pat@, rep@));
            }
            let ghost out0 = out@;
            let mut k: usize = 0;
            while k < rep.len()
                invariant
                    k <= rep@.len(),
                    out@ == out0 + rep@.take(k as int),
                decreases rep.len() - k,
            {
                out.push(rep[k]);
                k += 1;
            }
            assert(rep@.take(rep@.len() as int) =~= rep@);
            i = i + pat.len();
        } else {
            proof {
                assert(!(pat@.len() <= t@.len() && t@.take(pat@.len() as int) == pat@)) by {
                    if pat@.len() <= t@.len() && t@.take(pat@.len() as int) == pat@ {
                        assert(t@.take(pat@.len() as int) =~= s@.subrange(
                            i as int,
                            i + pat@.len(),
                        ));
                    }
                }
                assert(t@.drop_first() =~= s@.skip(i + 1));
                assert(t@[0] == s@[i as int]);
            }
            out.push(s[i]);
            i += 1;
        }
    }
    assert(s@.skip(s@.len() as int) =~= Seq::<char>::empty());
    out
}

// ---------------------------------------------------------------------------
// Decimal numbers
// ---------------------------------------------------------------------------

/// The decimal digit for `d` (0 to 9).
pub open spec fn digit_char(d: nat) -> char {
    if d == 0 {
        '0'
    } else if d == 1 {
        '1'
    } else if d == 2 {
        '2'
    } else if d == 3 {
        '3'
    } else if d == 4 {
        '4'
    } else if d == 5 {
        '5'
    } else if d == 6 {
        '6'
    } else if d == 7 {
        '7'
    } else if d == 8 {
        '8'
    } else {
        '9'
    }
}

/// The decimal rendering of `n`, no sign, no leading zeros (what `{}` prints
/// for an unsigned integer).
pub open spec fn decimal(n: nat) -> Seq<char>
    decreases n,
{
    if n < 10 {
        seq![digit_char(n)]
    } else {
        decimal(n / 10).push(digit_char(n % 10))
    }
}

pub(crate) fn digit(d: u64) -> (c: char)
    requires
        d < 10,
    ensures
        c == digit_char(d as nat),
{
    if d == 0 {
        '0'
    } else if d == 1 {
        '1'
    } else if d == 2 {
        '2'
    } else if d == 3 {
        '3'
    } else if d == 4 {
        '4'
    } else if d == 5 {
        '5'
    } else if d == 6 {
        '6'
    } else if d == 7 {
        '7'
    } else if d == 8 {
        '8'
    } else {
        '9'
    }
}

/// The decimal digits of `n`.
pub fn decimal_chars(n: u64) -> (r: Vec<char>)
    ensures
        r@ == decimal(n as nat),
    decreases n,
{
    if n < 10 {
        vec![digit(n)]
    } else {
        let mut v = decimal_chars(n / 10);
        v.push(digit(n % 10));
        v
    }
}

/// The decimal rendering of `n` as a string.
pub fn decimal_string(n: u64) -> (r: String)
    ensures
        r@ == decimal(n as nat),
{
    let v = decimal_chars(n);
    string_of(v.as_slice())
}

// ---------------------------------------------------------------------------
// Case and separators
// ---------------------------------------------------------------------------

/// What `str::to_lowercase` returns for `s` (full Unicode lowercasing, a
/// function of the characters alone).
pub uninterp spec fn lowercase(s: Seq<char>) -> Seq<char>;

/// `str::to_lowercase`. Trusted: the result is `lowercase` of the input.
#[verifier::external_body]
pub(crate) fn to_lowercase(s: &str) -> (r: String)
    ensures
        r@ == lowercase(s@),
{
    s.to_lowercase()
}

/// `s` with every `from` replaced by `to`.
pub open spec fn replace_char_spec(s: Seq<char>, from: char, to: char) -> Seq<char> {
    s.map_values(|c: char| if c == from { to } else { c })
}

/// Replaces every `from` in `s` by `to` (`str::replace` with one-character
/// pattern and replacement).
pub fn replace_char(s: &str, from: char, to: char) -> (r: String)
    ensures
        r@ == replace_char_spec(s@, from, to),
{
    let v = chars_of(s);
    let mut w: Vec<char> = Vec::new();
    let mut i: usize = 0;
    while i < v.len()
        invariant
            i <= v@.len(),
            w@ == replace_char_spec(v@.take(i as int), from, to),
        decreases v.len() - i,
    {
        let c = v[i];
        w.push(if c == from { to } else { c });
        proof {
            assert(w@ =~= replace_char_spec(v@.take(i + 1), from, to));
        }
        i += 1;
    }
    assert(v@.take(v@.len() as int) =~= v@);
    string_of(w.as_slice())
}

/// ASCII lowercase of one character; every other character is unchanged.
pub open spec fn ascii_lower(c: char) -> char {
    if 'A' <= c <= 'Z' {
        ((c as u32) + 32) as char
    } else {
        c
    }
}

/// Whether `a` and `b` are equal ignoring ASCII case (`str::eq_ignore_ascii_case`).
pub open spec fn eq_ignore_ascii_case_spec(a: Seq<char>, b: Seq<char>) -> bool {
    a.len() == b.len() && forall|i: int| 0 <= i < a.len() ==> ascii_lower(#[trigger] a[i])
        == ascii_lower(b[i])
}

fn ascii_lower_char(c: char) -> (r: char)
    ensures
        r == ascii_lower(c),
{
    if 'A' <= c && c <= 'Z' {
        let u = (c as u32) + 32;
        char_of_ascii(u)
    } else {
        c
    }
}

fn char_of_ascii(u: u32) -> (c: char)
    requires
        u < 128,
    ensures
        c == u as char,
{
    (u as u8) as char
}

/// Whether `a` and `b` are equal ignoring ASCII case.
pub fn eq_ignore_ascii_case(a: &[char], b: &[char]) -> (r: bool)
    ensures
        r == eq_ignore_ascii_case_spec(a@, b@),
{
    if a.len() != b.len() {
        return false;
    }
    let mut i: usize = 0;
    while i < a.len()
        invariant
            a@.len() == b@.len(),
            i <= a@.len(),
            forall|j: int| 0 <= j < i ==> ascii_lower(#[trigger] a@[j]) == ascii_lower(b@[j]),
        decreases a.len() - i,
    {
        if ascii_lower_char(a[i]) != ascii_lower_char(b[i]) {
            return false;
        }
        i += 1;
    }
    true
}

// ---------------------------------------------------------------------------
// Argument lists and concatenation
// ---------------------------------------------------------------------------

/// The views of a list of strings.
pub open spec fn views(v: Seq<String>) -> Seq<Seq<char>> {
    v.map_values(|s: String| s@)
}

/// Appends a copy of `s` to `v`.
pub fn push_str(v: &mut Vec<String>, s: &str)
    ensures
        views(final(v)@) == views(old(v)@).push(s@),
{
    v.push(s.to_owned());
    proof {
        assert(views(final(v)@) =~= views(old(v)@).push(s@));
    }
}

/// Appends every string of `w` to `v`, in order.
pub fn append_all(v: &mut Vec<String>, w: Vec<String>)
    ensures
        views(final(v)@) == views(old(v)@) + views(w@),
{
    let ghost v0 = views(v@);
    let mut i: usize = 0;
    while i < w.len()
        invariant
            i <= w@.len(),
            views(v@) == v0 + views(w@.take(i as int)),
        decreases w.len() - i,
    {
        let s = w[i].clone();
        let ghost before = v@;
        v.push(s);
        proof {
            assert(views(v@) =~= views(before).push(w@[i as int]@));
            assert(views(w@.take(i + 1)) =~= views(w@.take(i as int)).push(w@[i as int]@));
            assert(views(v@) =~= v0 + views(w@.take(i + 1)));
        }
        i += 1;
    }
    proof {
        assert(w@.take(w@.len() as int) =~= w@);
    }
}

/// `a` followed by `b`.
pub fn str_concat(a: &str, b: &str) -> (r: String)
    ensures
        r@ == a@ + b@,
{
    let x = chars_of(a);
    let y = chars_of(b);
    string_of(concat(x.as_slice(), y.as_slice()).as_slice())
}

} // verus!
