//! Render-cache eviction policy. The lazy caches (thumbnails / filmstrips /
//! waveforms / probes) are keyed by path + mtime, so stale entries are never
//! referenced again; a once-per-launch sweep evicts oldest-first once the total
//! crosses a cap, down to a lower target (hysteresis). Also the key text that
//! names each cached render.

use vstd::prelude::*;
use crate::order::{is_sorted_order, ranks_before, sorted_order, stable_order, lemma_sorted_order};
use crate::text::{digit, digit_char, string_of};

verus! {

/// Start evicting once the caches exceed this many bytes...
pub const CAP_BYTES: u64 = 536870912;

/// ...and delete oldest-first until back under this.
pub const TARGET_BYTES: u64 = 402653184;

/// The modification times of `files`, the key they are evicted by.
pub open spec fn mtimes(files: Seq<(u64, u64)>) -> Seq<u64> {
    files.map_values(|f: (u64, u64)| f.0)
}

/// The eviction order of `files`: their indices sorted oldest first, files
/// with equal mtimes keeping their listing order (a stable sort by mtime).
pub open spec fn age_order(files: Seq<(u64, u64)>) -> Seq<usize> {
    sorted_order(mtimes(files), false)
}

/// `a - b`, or 0 when `b` exceeds `a` (`u64::saturating_sub`).
pub open spec fn sat_sub(a: int, b: int) -> int {
    if a >= b {
        a - b
    } else {
        0
    }
}

/// What is left of `total` bytes after deleting the first `j` files of `ord`.
pub open spec fn remaining_after(files: Seq<(u64, u64)>, ord: Seq<usize>, total: int, j: int) -> int
    decreases j,
{
    if j <= 0 {
        total
    } else {
        sat_sub(remaining_after(files, ord, total, j - 1), files[ord[j - 1] as int].1 as int)
    }
}

/// How many files of `ord` are deleted: files go one by one, oldest first,
/// for as long as more than `target` bytes remain.
pub open spec fn evict_len(
    files: Seq<(u64, u64)>,
    ord: Seq<usize>,
    remaining: int,
    target: int,
    k: int,
) -> int
    decreases ord.len() - k,
{
    if k < 0 || k >= ord.len() || remaining <= target {
        k
    } else {
        evict_len(files, ord, sat_sub(remaining, files[ord[k] as int].1 as int), target, k + 1)
    }
}

/// The indices `pick_evictions` returns: none while `total <= cap`, else the
/// oldest files, in age order, until no more than `target` bytes remain.
pub open spec fn evictions(files: Seq<(u64, u64)>, total: int, cap: int, target: int) -> Seq<usize> {
    if total <= cap {
        seq![]
    } else {
        let ord = age_order(files);
        ord.take(evict_len(files, ord, total, target, 0))
    }
}

/// Given `(mtime, size)` pairs, the indices of the oldest files whose removal
/// brings the total from `total` down to `target`. Empty while `total <= cap`.
pub fn pick_evictions(files: &[(u64, u64)], total: u64, cap: u64, target: u64) -> (r: Vec<usize>)
    ensures
        r@ == evictions(files@, total as int, cap as int, target as int),
{
    if total <= cap {
        return Vec::new();
    }
    let mut keys: Vec<u64> = Vec::new();
    let mut m: usize = 0;
    while m < files.len()
        invariant
            m <= files@.len(),
            keys@ == mtimes(files@).take(m as int),
        decreases files.len() - m,
    {
        keys.push(files[m].0);
        proof {
            assert(keys@ =~= mtimes(files@).take(m + 1));
        }
        m += 1;
    }
    proof {
        assert(keys@ =~= mtimes(files@));
    }
    let ord = stable_order(keys.as_slice(), false);
    let mut remaining = total;
    let mut evict: Vec<usize> = Vec::new();
    let mut k: usize = 0;
    while k < ord.len() && remaining > target
        invariant
            is_sorted_order(mtimes(files@), false, ord@),
            ord@ == age_order(files@),
            ord@.len() == files@.len(),
            k <= ord@.len(),
            evict@ == ord@.take(k as int),
            evict_len(files@, ord@, total as int, target as int, 0) == evict_len(
                files@,
                ord@,
                remaining as int,
                target as int,
                k as int,
            ),
        decreases ord.len() - k,
    {
        let i = ord[k];
        let size = files[i].1;
        remaining = if remaining >= size {
            remaining - size
        } else {
            0
        };
        evict.push(i);
        proof {
            assert(ord@.take(k + 1) =~= ord@.take(k as int).push(i));
        }
        k += 1;
    }
    evict
}

proof fn lemma_evict_len(
    files: Seq<(u64, u64)>,
    ord: Seq<usize>,
    total: int,
    target: int,
    k: int,
)
    requires
        0 <= k <= ord.len(),
    ensures
        k <= evict_len(files, ord, remaining_after(files, ord, total, k), target, k) <= ord.len(),
        ({
            let m = evict_len(files, ord, remaining_after(files, ord, total, k), target, k);
            &&& (m == ord.len() || remaining_after(files, ord, total, m) <= target)
            &&& forall|j: int| k <= j < m ==> #[trigger] remaining_after(files, ord, total, j) > target
        }),
    decreases ord.len() - k,
{
    let rem = remaining_after(files, ord, total, k);
    if k < ord.len() && rem > target {
        assert(remaining_after(files, ord, total, k + 1) == sat_sub(
            rem,
            files[ord[k] as int].1 as int,
        ));
        lemma_evict_len(files, ord, total, target, k + 1);
    }
}

/// The eviction policy, stated over the age order of `files`:
/// nothing is evicted while `total <= cap`; otherwise the evicted files are
/// the oldest ones (every evicted file sorts before every kept one), each index
/// appears once, and deletion stops at the first point where no more than
/// `target` bytes remain, or when every file is gone.
pub proof fn lemma_eviction_policy(files: Seq<(u64, u64)>, total: int, cap: int, target: int)
    requires
        files.len() <= usize::MAX,
    ensures
        total <= cap ==> evictions(files, total, cap, target).len() == 0,
        ({
            let r = evictions(files, total, cap, target);
            let ord = age_order(files);
            let m = r.len() as int;
            total > cap ==> {
                &&& m <= files.len()
                &&& r == ord.take(m)
                &&& r.no_duplicates()
                &&& forall|i: int| 0 <= i < m ==> (#[trigger] r[i]) < files.len()
                &&& forall|j: int, k: int|
                    0 <= j < m <= k < files.len() ==> ranks_before(
                        mtimes(files),
                        false,
                        #[trigger] ord[j] as int,
                        #[trigger] ord[k] as int,
                    )
                &&& (m == files.len() || remaining_after(files, ord, total, m) <= target)
                &&& forall|j: int|
                    0 <= j < m ==> #[trigger] remaining_after(files, ord, total, j) > target
            }
        }),
{
    if total > cap {
        let ord = age_order(files);
        lemma_sorted_order(mtimes(files), false);
        lemma_evict_len(files, ord, total, target, 0);
        let m = evict_len(files, ord, total, target, 0);
        let r = ord.take(m);
        assert forall|i: int, j: int| 0 <= i < r.len() && 0 <= j < r.len() && i != j implies r[i]
            != r[j] by {
            if i < j {
                assert(ranks_before(mtimes(files), false, ord[i] as int, ord[j] as int));
            } else {
                assert(ranks_before(mtimes(files), false, ord[j] as int, ord[i] as int));
            }
        }
    }
}

// ---------------------------------------------------------------------------
// Cache keys

/// The lowercase hexadecimal digit for `d` (0 to 15).
pub open spec fn hex_lower(d: nat) -> char {
    if d < 10 {
        digit_char(d)
    } else if d == 10 {
        'a'
    } else if d == 11 {
        'b'
    } else if d == 12 {
        'c'
    } else if d == 13 {
        'd'
    } else if d == 14 {
        'e'
    } else {
        'f'
    }
}

/// The last `width` hexadecimal digits of `n`, zero-padded (`{:0width$x}`
/// for a value below `16^width`).
pub open spec fn hex_fixed(n: nat, width: nat) -> Seq<char>
    decreases width,
{
    if width == 0 {
        Seq::empty()
    } else {
        hex_fixed(n / 16, (width - 1) as nat).push(hex_lower(n % 16))
    }
}

fn hex_lower_exec(d: u64) -> (c: char)
    requires
        d < 16,
    ensures
        c == hex_lower(d as nat),
{
    if d < 10 {
        digit(d)
    } else if d == 10 {
        'a'
    } else if d == 11 {
        'b'
    } else if d == 12 {
        'c'
    } else if d == 13 {
        'd'
    } else if d == 14 {
        'e'
    } else {
        'f'
    }
}

fn hex_fixed_chars(n: u64, width: u64) -> (r: Vec<char>)
    ensures
        r@ == hex_fixed(n as nat, width as nat),
    decreases width,
{
    if width == 0 {
        Vec::new()
    } else {
        let mut v = hex_fixed_chars(n / 16, width - 1);
        v.push(hex_lower_exec(n % 16));
        v
    }
}

/// The cache key text of a hash: its sixteen lowercase hex digits
/// (`{:016x}`), which name the cached file.
pub fn cache_key_text(hash: u64) -> (r: String)
    ensures
        r@ == hex_fixed(hash as nat, 16),
        r@.len() == 16,
{
    let v = hex_fixed_chars(hash, 16);
    proof {
        lemma_hex_fixed_len(hash as nat, 16);
    }
    string_of(v.as_slice())
}

proof fn lemma_hex_fixed_len(n: nat, width: nat)
    ensures
        hex_fixed(n, width).len() == width,
    decreases width,
{
    if width > 0 {
        lemma_hex_fixed_len(n / 16, (width - 1) as nat);
    }
}

/// The hash std's `DefaultHasher` gives `(path, mtime, extra)`.
pub uninterp spec fn default_hash(path: Seq<char>, mtime: u64, extra: Seq<char>) -> u64;

/// `BuildHasher::hash_one` with `BuildHasherDefault<DefaultHasher>`: hashes
/// `path`, `mtime` and `extra` in turn with a fresh `DefaultHasher`. Its
/// algorithm is unspecified across Rust releases, but every `DefaultHasher`
/// made by `new` / `default` in a program hashes alike, so the result is a
/// function of the arguments.
#[verifier::external_body]
fn hash_key(path: &str, mtime: u64, extra: &str) -> (r: u64)
    ensures
        r == default_hash(path@, mtime, extra@),
{
    std::hash::BuildHasher::hash_one(
        &std::hash::BuildHasherDefault::<std::collections::hash_map::DefaultHasher>::default(),
        (path, mtime, extra),
    )
}

/// The cache key of a Clip's render: the hash of its path, its modification
/// time (seconds) and a discriminator (`"thumb"`, `"wf2_400"`, ...), as
/// sixteen hex digits. A changed file gets a fresh key, so a stale render is
/// never reused.
pub fn cache_key(path: &str, mtime: u64, extra: &str) -> (r: String)
    ensures
        r@ == hex_fixed(default_hash(path@, mtime, extra@) as nat, 16),
{
    cache_key_text(hash_key(path, mtime, extra))
}

} // verus!
