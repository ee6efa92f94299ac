//! Rotation and retention of log files.

use vstd::prelude::*;

use crate::digits::{decimal, decimal_of, number, number64, parse_number, parse_u64, written_reads_back};
use crate::sorting::{indices, key_values, order, order_is_sorted, order_of};
use crate::supports::calendar::{civil_date_from_unix, date, date_of_day, stamp, stamp_of};
use crate::text::{
    has_prefix, lower, lowered, split, split_at_char, starts_with, strip_suffix, trim, trimmed,
    without_suffix,
};

verus! {

/// A period after which a file is rotated.
#[derive(Debug, Clone, Copy, PartialEq, Eq, Structural)]
pub enum TimeUnit {
    Daily,
    Weekly,
    Monthly,
    Yearly,
}

/// When a file is rotated: after a period, at a size, at whichever comes first,
/// or never.
#[derive(Debug, Clone, Copy)]
pub struct RotatePolicy {
    pub time: Option<TimeUnit>,
    pub size_bytes: Option<u64>,
}

/// Which rotated files are kept.
#[derive(Debug, Clone, Copy, PartialEq, Eq, Structural)]
pub enum KeepPolicy {
    Nothing,
    Count(u32),
    Days(u32),
    Weeks(u32),
    Months(u32),
    Forever,
}

// ---------------------------------------------------------------------------
// Reading policies
// ---------------------------------------------------------------------------

/// A policy of rotation, with sizes of any magnitude.
pub struct Rotation {
    pub time: Option<TimeUnit>,
    pub size_bytes: Option<int>,
}

/// The size that a part with the suffix `unit` of `factor` bytes names.
pub open spec fn sized(part: Seq<char>, unit: Seq<char>, factor: int) -> Option<int> {
    match strip_suffix(part, unit) {
        Some(n) => match number64(n) {
            Some(v) => Some(v * factor),
            None => None,
        },
        None => None,
    }
}

/// The effect of one part of a policy of rotation. A part that is not known has
/// none.
pub open spec fn on_part(p: Rotation, raw: Seq<char>) -> Rotation {
    let part = lower(trim(raw));
    if part == "never"@ {
        p
    } else if part == "daily"@ {
        Rotation { time: Some(TimeUnit::Daily), ..p }
    } else if part == "weekly"@ {
        Rotation { time: Some(TimeUnit::Weekly), ..p }
    } else if part == "monthly"@ {
        Rotation { time: Some(TimeUnit::Monthly), ..p }
    } else if part == "yearly"@ {
        Rotation { time: Some(TimeUnit::Yearly), ..p }
    } else if strip_suffix(part, "mb"@) is Some {
        match sized(part, "mb"@, 0x10_0000) {
            Some(n) => Rotation { size_bytes: Some(n), ..p },
            None => p,
        }
    } else {
        match sized(part, "gb"@, 0x4000_0000) {
            Some(n) => Rotation { size_bytes: Some(n), ..p },
            None => p,
        }
    }
}

/// The policy that a list of parts makes; of two that contradict each other the
/// later counts.
pub open spec fn rotation_of(parts: Seq<Seq<char>>) -> Rotation
    decreases parts.len(),
{
    if parts.len() == 0 {
        Rotation { time: None, size_bytes: None }
    } else {
        on_part(rotation_of(parts.drop_last()), parts.last())
    }
}

/// Whether each size that a list of parts names can be counted in bytes.
pub open spec fn sizes_fit(parts: Seq<Seq<char>>) -> bool {
    forall|i: int| 0 <= i < parts.len() ==> size_fits(#[trigger] parts[i])
}

/// Whether the size that a part names, if it names one, can be counted in bytes.
pub open spec fn size_fits(raw: Seq<char>) -> bool {
    let part = lower(trim(raw));
    &&& sized(part, "mb"@, 0x10_0000) is Some ==> sized(part, "mb"@, 0x10_0000)->0 <= u64::MAX
    &&& sized(part, "gb"@, 0x4000_0000) is Some ==> sized(part, "gb"@, 0x4000_0000)->0 <= u64::MAX
}

/// Whether the sizes of a policy of rotation can be counted in bytes, as
/// `parse_rotate` needs it.
pub fn rotate_fits(spec: &str) -> (r: bool)
    ensures
        r == sizes_fit(split(spec@, ',')),
{
    let parts = split_at_char(spec, ',');
    let ghost all = parts.deep_view();
    let mut i: usize = 0;
    while i < parts.len()
        invariant
            i <= parts.len(),
            all == parts.deep_view(),
            all == split(spec@, ','),
            forall|j: int| 0 <= j < i ==> size_fits(#[trigger] all[j]),
        decreases parts.len() - i,
    {
        assert(all[i as int] == parts@[i as int]@);
        let trimmed_part = trimmed(parts[i].as_str());
        let part = lowered(trimmed_part.as_str());
        if let Some(n) = without_suffix(part.as_str(), "mb") {
            if let Some(v) = parse_u64(n.as_str()) {
                if v > 0xffff_ffff_ffff_ffff / 0x10_0000 {
                    assert(!size_fits(all[i as int]));
                    return false;
                }
            }
        }
        if let Some(n) = without_suffix(part.as_str(), "gb") {
            if let Some(v) = parse_u64(n.as_str()) {
                if v > 0xffff_ffff_ffff_ffff / 0x4000_0000 {
                    assert(!size_fits(all[i as int]));
                    return false;
                }
            }
        }
        i = i + 1;
    }
    true
}

impl RotatePolicy {
    /// The policy, as a mathematical value.
    pub open spec fn model(&self) -> Rotation {
        Rotation {
            time: self.time,
            size_bytes: match self.size_bytes {
                Some(n) => Some(n as int),
                None => None,
            },
        }
    }
}

/// The policy of rotation that a text such as `weekly,50MB` names.
pub fn parse_rotate(spec: &str) -> (r: RotatePolicy)
    requires
        sizes_fit(split(spec@, ',')),
    ensures
        r.model() == rotation_of(split(spec@, ',')),
{
    let parts = split_at_char(spec, ',');
    let ghost all = parts.deep_view();
    let mut policy = RotatePolicy { time: None, size_bytes: None };
    let mut i: usize = 0;
    assert(all.take(0) =~= Seq::<Seq<char>>::empty());
    while i < parts.len()
        invariant
            i <= parts.len(),
            all == parts.deep_view(),
            sizes_fit(all),
            policy.model() == rotation_of(all.take(i as int)),
        decreases parts.len() - i,
    {
        assert(all.take(i + 1).drop_last() =~= all.take(i as int));
        assert(all.take(i + 1).last() == parts@[i as int]@);
        assert(size_fits(all[i as int]));
        let trimmed_part = trimmed(parts[i].as_str());
        let lowered_part = lowered(trimmed_part.as_str());
        let part = lowered_part.as_str();
        if part.eq("never") {
        } else if part.eq("daily") {
            policy.time = Some(TimeUnit::Daily);
        } else if part.eq("weekly") {
            policy.time = Some(TimeUnit::Weekly);
        } else if part.eq("monthly") {
            policy.time = Some(TimeUnit::Monthly);
        } else if part.eq("yearly") {
            policy.time = Some(TimeUnit::Yearly);
        } else {
            match without_suffix(part, "mb") {
                Some(n) => {
                    if let Some(v) = parse_u64(n.as_str()) {
                        policy.size_bytes = Some(v * 0x10_0000);
                    }
                },
                None => {
                    if let Some(n) = without_suffix(part, "gb") {
                        if let Some(v) = parse_u64(n.as_str()) {
                            policy.size_bytes = Some(v * 0x4000_0000);
                        }
                    }
                },
            }
        }
        i = i + 1;
    }
    assert(all.take(all.len() as int) =~= all);
    policy
}

/// The number before the suffix `unit`.
pub open spec fn number_before(s: Seq<char>, unit: Seq<char>) -> Option<int> {
    match strip_suffix(s, unit) {
        Some(n) => number(n, 10, 0xffff_ffff),
        None => None,
    }
}

/// The policy of retention that a text names; one that is not known keeps
/// nothing.
pub open spec fn keep_of(spec: Seq<char>) -> KeepPolicy {
    let s = lower(trim(spec));
    if s == "none"@ || s.len() == 0 {
        KeepPolicy::Nothing
    } else if s == "forever"@ {
        KeepPolicy::Forever
    } else if number_before(s, "d"@) is Some {
        KeepPolicy::Days(number_before(s, "d"@)->0 as u32)
    } else if number_before(s, "w"@) is Some {
        KeepPolicy::Weeks(number_before(s, "w"@)->0 as u32)
    } else if number_before(s, "m"@) is Some {
        KeepPolicy::Months(number_before(s, "m"@)->0 as u32)
    } else {
        match number(s, 10, 0xffff_ffff) {
            Some(n) => KeepPolicy::Count(n as u32),
            None => KeepPolicy::Nothing,
        }
    }
}

fn number_before_of(s: &str, unit: &str) -> (r: Option<u32>)
    ensures
        match r {
            Some(n) => number_before(s@, unit@) == Some(n as int),
            None => number_before(s@, unit@) is None,
        },
{
    match without_suffix(s, unit) {
        Some(n) => match parse_number(n.as_str(), 10, 0xffff_ffff) {
            Some(v) => Some(v as u32),
            None => None,
        },
        None => None,
    }
}

/// The policy of retention that a text such as `30d`, `4w`, `2m`, `5`, `none` or
/// `forever` names.
pub fn parse_keep(spec: &str) -> (r: KeepPolicy)
    ensures
        r == keep_of(spec@),
{
    let t = trimmed(spec);
    let l = lowered(t.as_str());
    let s = l.as_str();
    if s.eq("none") || s.is_empty() {
        return KeepPolicy::Nothing;
    }
    if s.eq("forever") {
        return KeepPolicy::Forever;
    }
    if let Some(n) = number_before_of(s, "d") {
        return KeepPolicy::Days(n);
    }
    if let Some(n) = number_before_of(s, "w") {
        return KeepPolicy::Weeks(n);
    }
    if let Some(n) = number_before_of(s, "m") {
        return KeepPolicy::Months(n);
    }
    match parse_number(s, 10, 0xffff_ffff) {
        Some(n) => KeepPolicy::Count(n as u32),
        None => KeepPolicy::Nothing,
    }
}

// ---------------------------------------------------------------------------
// When to rotate
// ---------------------------------------------------------------------------

/// Whether two times lie in different periods.
pub open spec fn crossed(unit: TimeUnit, start: int, now: int) -> bool {
    let a = date(start / 86400);
    let b = date(now / 86400);
    match unit {
        TimeUnit::Daily => a != b,
        TimeUnit::Weekly => (now / 86400) / 7 != (start / 86400) / 7,
        TimeUnit::Monthly => (a.0, a.1) != (b.0, b.1),
        TimeUnit::Yearly => a.0 != b.0,
    }
}

/// Whether `period_start_secs` and `now_secs` lie in different periods.
pub fn time_boundary_crossed(unit: TimeUnit, period_start_secs: u64, now_secs: u64) -> (r: bool)
    ensures
        r == crossed(unit, period_start_secs as int, now_secs as int),
{
    let a = civil_date_from_unix(period_start_secs);
    let b = civil_date_from_unix(now_secs);
    match unit {
        TimeUnit::Daily => a.0 != b.0 || a.1 != b.1 || a.2 != b.2,
        TimeUnit::Weekly => (now_secs / 86400) / 7 != (period_start_secs / 86400) / 7,
        TimeUnit::Monthly => a.0 != b.0 || a.1 != b.1,
        TimeUnit::Yearly => a.0 != b.0,
    }
}

/// Whether a file of `len` bytes, begun at `start`, is due for rotation.
pub open spec fn due(p: RotatePolicy, len: int, start: int, now: int) -> bool {
    (p.time is Some && crossed(p.time->0, start, now)) || (p.size_bytes is Some && len
        >= p.size_bytes->0)
}

/// Whether a file of `current_len` bytes, begun at `period_start_secs`, is due
/// for rotation at `now_secs`.
pub fn should_rotate(policy: &RotatePolicy, current_len: u64, period_start_secs: u64, now_secs: u64) -> (r: bool)
    ensures
        r == due(*policy, current_len as int, period_start_secs as int, now_secs as int),
{
    if let Some(unit) = policy.time {
        if time_boundary_crossed(unit, period_start_secs, now_secs) {
            return true;
        }
    }
    if let Some(limit) = policy.size_bytes {
        if current_len >= limit {
            return true;
        }
    }
    false
}

// ---------------------------------------------------------------------------
// Rotated files
// ---------------------------------------------------------------------------

/// The name under which the file `active` is put away at the time `now`; `n`
/// tells attempts of one day apart.
pub open spec fn rotated(active: Seq<char>, now: int, n: int) -> Seq<char> {
    let d = date(now / 86400);
    let name = active + "-"@ + stamp(d.0, d.1, d.2);
    if n == 0 {
        name
    } else {
        name + "."@ + decimal(n)
    }
}

/// The name under which the file `active` is put away: its date, and a number
/// from the second attempt of the day on.
pub fn rotated_name(active: &str, now_secs: u64, n: u64) -> (r: String)
    ensures
        r@ == rotated(active@, now_secs as int, n as int),
{
    let (y, m, d) = civil_date_from_unix(now_secs);
    let mut out = active.to_owned();
    out.append("-");
    let s = stamp_of(y as u64, m as u64, d as u64);
    out.append(s.as_str());
    if n > 0 {
        out.append(".");
        let k = decimal_of(n);
        out.append(k.as_str());
    }
    out
}

/// Whether a name is that of a rotated file of `active`.
pub open spec fn is_rotated(active: Seq<char>, name: Seq<char>) -> bool {
    starts_with(name, active + "-"@)
}

/// Whether a name is that of a rotated file of `active_name`.
pub fn is_rotated_name(active_name: &str, name: &str) -> (r: bool)
    ensures
        r == is_rotated(active_name@, name@),
{
    let mut prefix = active_name.to_owned();
    prefix.append("-");
    has_prefix(name, prefix.as_str())
}

/// A rotated file, with the time of its last change in nanoseconds since the
/// start of 1970.
#[derive(Debug, Clone)]
pub struct RotatedFile {
    pub path: String,
    pub modified: i128,
}

impl DeepView for RotatedFile {
    type V = (Seq<char>, int);

    open spec fn deep_view(&self) -> (Seq<char>, int) {
        (self.path@, self.modified as int)
    }
}

/// The times of a list of files.
pub open spec fn times(files: Seq<(Seq<char>, int)>) -> Seq<int> {
    files.map_values(|f: (Seq<char>, int)| f.1)
}

/// The files in the order of their times.
pub open spec fn by_time(files: Seq<(Seq<char>, int)>) -> Seq<(Seq<char>, int)> {
    order(times(files)).map_values(|i: int| files[i])
}

/// The greatest age, in seconds, that a policy allows.
pub open spec fn age_limit(keep: KeepPolicy) -> Option<int> {
    match keep {
        KeepPolicy::Days(n) => Some(n * 86400),
        KeepPolicy::Weeks(n) => Some(n * 7 * 86400),
        KeepPolicy::Months(n) => Some(n * 30 * 86400),
        _ => None,
    }
}

/// The age of a file, in seconds; one from before 1970 counts as new.
pub open spec fn age(modified: int, now: int) -> int {
    if modified < 0 || modified / 1_000_000_000 > now {
        0
    } else {
        now - modified / 1_000_000_000
    }
}

/// How many files, the oldest first, a policy of count gives up.
pub open spec fn surplus(keep: KeepPolicy, total: int) -> int {
    match keep {
        KeepPolicy::Nothing => total,
        KeepPolicy::Count(n) => if total > n {
            total - n
        } else {
            0
        },
        _ => 0,
    }
}

/// The files that a policy gives up, from the files in the order of their times.
pub open spec fn given_up(sorted: Seq<(Seq<char>, int)>, keep: KeepPolicy, now: int) -> Seq<Seq<char>> {
    match age_limit(keep) {
        Some(limit) => sorted.filter(|f: (Seq<char>, int)| age(f.1, now) > limit).map_values(
            |f: (Seq<char>, int)| f.0,
        ),
        None => sorted.take(surplus(keep, sorted.len() as int)).map_values(
            |f: (Seq<char>, int)| f.0,
        ),
    }
}

fn sorted_files(files: &Vec<RotatedFile>) -> (r: Vec<usize>)
    ensures
        r@.len() == files@.len(),
        forall|i: int| 0 <= i < r@.len() ==> r@[i] < files.len(),
        indices(r@) == order(times(files.deep_view())),
{
    let mut keys: Vec<i128> = Vec::new();
    let ghost ts = times(files.deep_view());
    let mut i: usize = 0;
    assert(key_values(keys@) =~= ts.take(0));
    while i < files.len()
        invariant
            i <= files.len(),
            ts == times(files.deep_view()),
            key_values(keys@) == ts.take(i as int),
            keys@.len() == i,
        decreases files.len() - i,
    {
        let ghost before = keys@;
        keys.push(files[i].modified);
        assert(key_values(keys@) =~= key_values(before).push(ts[i as int]));
        assert(ts.take(i + 1) =~= ts.take(i as int).push(ts[i as int]));
        i = i + 1;
    }
    assert(ts.take(ts.len() as int) =~= ts);
    order_of(&keys)
}

/// The paths of the rotated files that a policy gives up at the time `now_secs`.
pub fn expired_files(files: &Vec<RotatedFile>, keep: KeepPolicy, now_secs: u64) -> (r: Vec<String>)
    ensures
        r.deep_view() == given_up(by_time(files.deep_view()), keep, now_secs as int),
{
    let o = sorted_files(files);
    let n: usize = o.len();
    let ghost fs = files.deep_view();
    let ghost sorted = by_time(fs);
    let ghost now = now_secs as int;
    assert(indices(o@).len() == o@.len());
    assert(sorted.len() == n);
    assert forall|i: int| 0 <= i < n implies #[trigger] sorted[i] == files@[o@[i] as int].deep_view() by {
        assert(indices(o@)[i] == o@[i] as int);
    }
    let limit: Option<u64> = match keep {
        KeepPolicy::Days(k) => Some(k as u64 * 86400),
        KeepPolicy::Weeks(k) => Some(k as u64 * 7 * 86400),
        KeepPolicy::Months(k) => Some(k as u64 * 30 * 86400),
        _ => None,
    };
    let mut out: Vec<String> = Vec::new();
    let ghost name = |f: (Seq<char>, int)| f.0;
    match limit {
        Some(limit) => {
            let ghost lim = limit as int;
            assert(age_limit(keep) == Some(lim));
            let ghost old = |f: (Seq<char>, int)| age(f.1, now) > lim;
            let mut i: usize = 0;
            proof {
                assert(sorted.take(0) =~= Seq::<(Seq<char>, int)>::empty());
                reveal(Seq::filter);
                assert(out.deep_view() =~= sorted.take(0).filter(old).map_values(name));
            }
            while i < n
                invariant
                    i <= n,
                    n == o@.len(),
                    n == sorted.len(),
                    now == now_secs as int,
                    lim == limit,
                    old == (|f: (Seq<char>, int)| age(f.1, now) > lim),
                    name == (|f: (Seq<char>, int)| f.0),
                    forall|j: int| 0 <= j < o@.len() ==> o@[j] < files.len(),
                    forall|j: int|
                        0 <= j < n ==> #[trigger] sorted[j] == files@[o@[j] as int].deep_view(),
                    out.deep_view() == sorted.take(i as int).filter(old).map_values(name),
                decreases n - i,
            {
                let f = &files[o[i]];
                let ghost fv = sorted[i as int];
                let ghost kept = sorted.take(i as int).filter(old);
                proof {
                    assert(sorted.take(i + 1) =~= sorted.take(i as int).push(fv));
                    sorted.take(i as int).lemma_filter_push(fv, old);
                }
                let file_age: u64 = if f.modified < 0 {
                    0
                } else {
                    let secs: i128 = f.modified / 1_000_000_000;
                    if secs > now_secs as i128 {
                        0
                    } else {
                        (now_secs as i128 - secs) as u64
                    }
                };
                assert(file_age == age(fv.1, now));
                if file_age > limit {
                    let ghost before = out.deep_view();
                    out.push(f.path.clone());
                    assert(out.deep_view() =~= before.push(fv.0));
                    assert(kept.push(fv).map_values(name) =~= kept.map_values(name).push(fv.0));
                }
                i = i + 1;
            }
            assert(sorted.take(n as int) =~= sorted);
        },
        None => {
            assert(age_limit(keep) is None);
            let drop: usize = match keep {
                KeepPolicy::Nothing => n,
                KeepPolicy::Count(k) => {
                    if n as u64 > k as u64 {
                        n - k as usize
                    } else {
                        0
                    }
                },
                _ => 0,
            };
            assert(drop == surplus(keep, n as int));
            let mut i: usize = 0;
            assert(out.deep_view() =~= sorted.take(0).map_values(name));
            while i < drop
                invariant
                    i <= drop <= n,
                    n == o@.len(),
                    n == sorted.len(),
                    name == (|f: (Seq<char>, int)| f.0),
                    forall|j: int| 0 <= j < o@.len() ==> o@[j] < files.len(),
                    forall|j: int|
                        0 <= j < n ==> #[trigger] sorted[j] == files@[o@[j] as int].deep_view(),
                    out.deep_view() == sorted.take(i as int).map_values(name),
                decreases drop - i,
            {
                let ghost fv = sorted[i as int];
                let ghost before = out.deep_view();
                out.push(files[o[i]].path.clone());
                assert(out.deep_view() =~= before.push(fv.0));
                assert(sorted.take(i + 1) =~= sorted.take(i as int).push(fv));
                assert(sorted.take(i as int).push(fv).map_values(name) =~= before.push(fv.0));
                i = i + 1;
            }
        },
    }
    out
}

// ---------------------------------------------------------------------------
// Laws
// ---------------------------------------------------------------------------

/// Names of one day never meet: a later attempt has another name.
pub proof fn rotated_names_differ(active: Seq<char>, now: int, i: int, j: int)
    requires
        0 <= i,
        0 <= j,
        rotated(active, now, i) == rotated(active, now, j),
    ensures
        i == j,
{
    let d = date(now / 86400);
    let name = active + "-"@ + stamp(d.0, d.1, d.2);
    written_reads_back(i, 10);
    written_reads_back(j, 10);
    reveal_strlit(".");
    if i != j {
        if i == 0 {
            assert(rotated(active, now, j).len() == name.len() + 1 + decimal(j).len());
        } else if j == 0 {
            assert(rotated(active, now, i).len() == name.len() + 1 + decimal(i).len());
        } else {
            let x = rotated(active, now, i);
            let y = rotated(active, now, j);
            assert(x.skip(name.len() as int + 1) =~= decimal(i));
            assert(y.skip(name.len() as int + 1) =~= decimal(j));
        }
    }
}

/// Every name under which a file is put away is known as one of its rotated
/// files.
pub proof fn rotated_files_are_known(active: Seq<char>, now: int, n: int)
    ensures
        is_rotated(active, rotated(active, now, n)),
{
    let p = active + "-"@;
    let r = rotated(active, now, n);
    assert(r.subrange(0, p.len() as int) =~= p);
}

/// A new year begins a new month, and a new month a new day; and the date
/// changes exactly when the day does.
pub proof fn longer_periods_cross_less_often(start: int, now: int)
    requires
        0 <= start,
        0 <= now,
    ensures
        crossed(TimeUnit::Yearly, start, now) ==> crossed(TimeUnit::Monthly, start, now),
        crossed(TimeUnit::Monthly, start, now) ==> crossed(TimeUnit::Daily, start, now),
        crossed(TimeUnit::Weekly, start, now) ==> crossed(TimeUnit::Daily, start, now),
        crossed(TimeUnit::Daily, start, now) <==> start / 86400 != now / 86400,
{
    date_of_day(start / 86400);
    date_of_day(now / 86400);
}

/// A file that is due stays due while it grows.
pub proof fn due_files_stay_due(p: RotatePolicy, len: int, more: int, start: int, now: int)
    requires
        due(p, len, start, now),
        len <= more,
    ensures
        due(p, more, start, now),
{
}

/// A policy of count gives up the oldest files and keeps as many as it says: no
/// file that is given up is newer than one that is kept.
pub proof fn count_keeps_the_newest(files: Seq<(Seq<char>, int)>, n: u32, i: int, j: int)
    requires
        0 <= i < surplus(KeepPolicy::Count(n), files.len() as int) <= j < files.len(),
    ensures
        by_time(files)[i].1 <= by_time(files)[j].1,
        by_time(files).len() == files.len(),
        files.len() - surplus(KeepPolicy::Count(n), files.len() as int) == n,
{
    order_is_sorted(times(files));
    let o = order(times(files));
    assert(o.len() == files.len());
    assert(crate::sorting::may_precede(times(files), o[i], o[j]));
}

/// A policy of age gives up a file exactly when it is older than allowed.
pub proof fn age_decides(files: Seq<(Seq<char>, int)>, keep: KeepPolicy, now: int, i: int)
    requires
        age_limit(keep) is Some,
        0 <= i < files.len(),
        forall|a: int, b: int|
            0 <= a < files.len() && 0 <= b < files.len() && #[trigger] files[a].0
                == #[trigger] files[b].0 ==> a == b,
    ensures
        given_up(by_time(files), keep, now).contains(files[i].0) <==> age(files[i].1, now)
            > age_limit(keep)->0,
{
    let limit = age_limit(keep)->0;
    let pred = |f: (Seq<char>, int)| age(f.1, now) > limit;
    let name = |f: (Seq<char>, int)| f.0;
    let sorted = by_time(files);
    let o = order(times(files));
    order_is_sorted(times(files));
    let kept = sorted.filter(pred);
    let names = kept.map_values(name);
    // Each index stands somewhere in the order.
    let at = lemma_onto(o, files.len() as int, i);
    assert(sorted[at] == files[i]);
    if age(files[i].1, now) > limit {
        sorted.lemma_filter_contains(pred, at);
        let k = choose|k: int| 0 <= k < kept.len() && kept[k] == sorted[at];
        assert(names[k] == files[i].0);
    }
    if names.contains(files[i].0) {
        let k = choose|k: int| 0 <= k < names.len() && names[k] == files[i].0;
        sorted.lemma_filter_pred(pred, k);
        assert(kept.contains(kept[k]));
        sorted.lemma_filter_contains_rev(pred, kept[k]);
        assert(sorted.contains(kept[k]));
        let q = choose|q: int| 0 <= q < sorted.len() && sorted[q] == kept[k];
        assert(files[o[q]].0 == files[i].0);
    }
}

/// An order of `n` indices, each once, holds every index.
proof fn lemma_onto(o: Seq<int>, n: int, i: int) -> (at: int)
    requires
        o.len() == n,
        o.no_duplicates(),
        forall|k: int| 0 <= k < o.len() ==> 0 <= #[trigger] o[k] < n,
        0 <= i < n,
    ensures
        0 <= at < n,
        o[at] == i,
{
    let full = vstd::set_lib::set_int_range(0, n);
    vstd::set_lib::lemma_int_range(0, n);
    o.unique_seq_to_set();
    assert(o.to_set().subset_of(full)) by {
        assert forall|x: int| o.to_set().contains(x) implies full.contains(x) by {
            let k = choose|k: int| 0 <= k < o.len() && o[k] == x;
            assert(0 <= o[k] < n);
        }
    }
    vstd::set_lib::lemma_subset_equality(o.to_set(), full);
    assert(o.to_set().contains(i));
    choose|k: int| 0 <= k < o.len() && o[k] == i
}

} // verus!
