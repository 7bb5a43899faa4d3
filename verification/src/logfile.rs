//! Rotation of the application's log file: when it is due and which files
//! are removed and renamed.
use vstd::prelude::*;
use crate::text::{decimal, usize_text};

verus! {

/// A log file is rotated once it reaches this size (1 MiB).
pub const MAX_LOG_BYTES: u64 = 1048576u64;

/// The number of log files kept: the current one and the rotated ones.
pub const MAX_LOG_FILES: u32 = 5u32;

/// Whether a log file of the given size (`None` when it cannot be read) is due for rotation.
pub fn should_rotate(size: Option<u64>, max_size: u64) -> (r: bool)
    ensures
        r == (size matches Some(n) && n >= max_size),
{
    match size {
        Some(n) => n >= max_size,
        None => false,
    }
}

/// The name of the `i`-th rotated file of `base`: `base.i`.
pub open spec fn rotated_name(base: Seq<char>, i: nat) -> Seq<char> {
    base + "."@ + decimal(i)
}

pub fn rotated_name_text(base: &str, i: u32) -> (r: String)
    ensures
        r@ == rotated_name(base@, i as nat),
{
    let mut out = String::from_str(base);
    out.append(".");
    let n = usize_text(i as usize);
    out.append(n.as_str());
    out
}

/// The renames of a rotation, oldest first: `base.(k-1)` to `base.k` for `k`
/// from `max_files - 1` down to 2, then `base` to `base.1`.
pub open spec fn rotation_renames(base: Seq<char>, max_files: nat) -> Seq<(Seq<char>, Seq<char>)> {
    Seq::new(
        (max_files - 1) as nat,
        |j: int|
            {
                let k = max_files - 1 - j;
                (if k == 1 {
                    base
                } else {
                    rotated_name(base, (k - 1) as nat)
                }, rotated_name(base, k as nat))
            },
    )
}

/// What one rotation does: remove the oldest rotated file, then rename in order.
pub struct RotationPlan {
    pub remove: String,
    pub renames: Vec<(String, String)>,
}

pub open spec fn pair_views(s: Seq<(String, String)>) -> Seq<(Seq<char>, Seq<char>)> {
    Seq::new(s.len(), |i: int| (s[i].0@, s[i].1@))
}

/// The rotation of the log file `base` that keeps `max_files` files.
pub fn rotation_plan(base: &str, max_files: u32) -> (r: RotationPlan)
    requires
        max_files >= 1,
    ensures
        r.remove@ == rotated_name(base@, (max_files - 1) as nat),
        pair_views(r.renames@) == rotation_renames(base@, max_files as nat),
{
    let remove = rotated_name_text(base, max_files - 1);
    let mut renames: Vec<(String, String)> = Vec::new();
    let mut k: u32 = max_files - 1;
    let ghost target = rotation_renames(base@, max_files as nat);
    while k >= 1
        invariant
            0 <= k <= max_files - 1,
            max_files >= 1,
            target == rotation_renames(base@, max_files as nat),
            renames@.len() == max_files - 1 - k,
            pair_views(renames@) == target.take(max_files - 1 - k),
        decreases k,
    {
        let from = if k == 1 {
            String::from_str(base)
        } else {
            rotated_name_text(base, k - 1)
        };
        let to = rotated_name_text(base, k);
        let ghost before = renames@;
        renames.push((from, to));
        assert(pair_views(renames@) =~= pair_views(before).push(target[max_files - 1 - k]));
        assert(target.take(max_files - 1 - k + 1) =~= target.take(max_files - 1 - k).push(
            target[max_files - 1 - k],
        ));
        k = k - 1;
    }
    assert(target.take(max_files - 1) =~= target);
    RotationPlan { remove, renames }
}

/// A rotation only ever writes the rotated names `base.1` to
/// `base.(max_files - 1)`, each once, so at most `max_files` files remain.
pub proof fn law_rotation_stays_within_limit(base: Seq<char>, max_files: nat, a: int, b: int)
    requires
        max_files >= 1,
        0 <= a < b < max_files - 1,
    ensures
        rotation_renames(base, max_files)[a].1 == rotated_name(base, (max_files - 1 - a) as nat),
        rotation_renames(base, max_files)[b].1 != rotation_renames(base, max_files)[a].1,
        1 <= max_files - 1 - a <= max_files - 1,
{
    let r = rotation_renames(base, max_files);
    let ka = (max_files - 1 - a) as nat;
    let kb = (max_files - 1 - b) as nat;
    crate::text::lemma_decimal_injective(ka, kb);
    assert(r[a].1 == base + "."@ + decimal(ka));
    assert(r[b].1 == base + "."@ + decimal(kb));
    if r[a].1 == r[b].1 {
        reveal_strlit(".");
        assert((base + "."@).len() == base.len() + 1);
        assert(r[a].1.skip(base.len() + 1int) =~= decimal(ka));
        assert(r[b].1.skip(base.len() + 1int) =~= decimal(kb));
    }
}

/// Whether `name` is one of the log files kept: the base file or one of its
/// numbered copies `base.1` to `base.(max_files - 1)`.
pub open spec fn is_kept_log_file(base: Seq<char>, max_files: nat, name: Seq<char>) -> bool {
    name == base || exists|i: nat| 1 <= i < max_files && name == #[trigger] rotated_name(base, i)
}

/// A rotation moves files only among the base file and its numbered copies
/// `base.1` to `base.(max_files - 1)` (`base.1` to `base.4` for five files),
/// so the log files stay within those `max_files` names; the file it removes
/// is the last copy.
pub proof fn law_rotation_keeps_file_names(base: Seq<char>, max_files: nat)
    requires
        max_files >= 1,
    ensures
        forall|j: int|
            0 <= j < rotation_renames(base, max_files).len() ==> is_kept_log_file(
                base,
                max_files,
                #[trigger] rotation_renames(base, max_files)[j].0,
            ) && is_kept_log_file(base, max_files, rotation_renames(base, max_files)[j].1),
        max_files >= 2 ==> is_kept_log_file(base, max_files, rotated_name(base, (max_files - 1) as nat)),
{
    let r = rotation_renames(base, max_files);
    assert forall|j: int| 0 <= j < r.len() implies is_kept_log_file(base, max_files, #[trigger] r[j].0)
        && is_kept_log_file(base, max_files, r[j].1) by {
        let k = (max_files - 1 - j) as nat;
        assert(r[j].1 == rotated_name(base, k));
        if k != 1 {
            assert(r[j].0 == rotated_name(base, (k - 1) as nat));
        }
    }
    if max_files >= 2 {
        let last = (max_files - 1) as nat;
        assert(rotated_name(base, last) == rotated_name(base, last));
    }
}

} // verus!
