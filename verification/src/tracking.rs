//! Change tracking of compact files, per branch: which compact file each
//! packed XML file was written to, when, and the modification time it had
//! then; in two scopes, global and since the last deployment.
use vstd::prelude::*;
use crate::str_map::{StrMap, keyed_view, lookup, sorted_keys};
use crate::strings::{
    ends_with, ends_with_exec, find_first, occurs_at, push_str, replace_all, spec_replace_all, str_eq, to_owned_string,
};
use crate::instructions_laws::{lemma_first, lemma_first_at};

verus! {

/// What tracking knows of a packed file.
pub struct TrackedFile {
    pub compact_path: String,
    pub packed_at_epoch: u64,
    pub compact_mtime_epoch: u64,
}

/// The tracking state of a branch: tracked files by XML path, globally
/// and since the last deployment.
pub struct TrackingState {
    pub branch: String,
    pub global: StrMap<TrackedFile>,
    pub deployment: StrMap<TrackedFile>,
}

/// A compact file that changed, with the XML file it stands for.
pub struct ChangedFile {
    pub xml_relative_path: String,
    pub compact_path: String,
}

/// Which tracking to reset.
pub enum ResetScope {
    Global,
    SinceDeploy,
}

/// A file that was packed: its XML path relative to the source root and
/// its compact path relative to the compact directory.
pub struct PackedFileInfo {
    pub xml_relative_path: String,
    pub compact_path: String,
}

/// The model of a tracked file: compact path, packed-at time, modification time.
pub open spec fn tf_view(t: TrackedFile) -> (Seq<char>, u64, u64) {
    (t.compact_path@, t.packed_at_epoch, t.compact_mtime_epoch)
}

pub open spec fn opt_tf_view(o: Option<TrackedFile>) -> Option<(Seq<char>, u64, u64)> {
    match o {
        Some(t) => Some(tf_view(t)),
        None => None,
    }
}

/// A time read from the file system, or `now` when it could not be read.
pub open spec fn time_or(t: Option<u64>, now: u64) -> u64 {
    match t {
        Some(m) => m,
        None => now,
    }
}

/// The entry recorded for a packed file.
pub open spec fn recorded_entry(f: PackedFileInfo, mtime: Option<u64>, now: u64) -> (Seq<char>, u64, u64) {
    (f.compact_path@, now, time_or(mtime, now))
}

/// The position of the last packed file with XML path `k`.
pub open spec fn last_record(files: Seq<PackedFileInfo>, k: Seq<char>) -> Option<int>
    decreases files.len(),
{
    if files.len() == 0 {
        None
    } else if files.last().xml_relative_path@ == k {
        Some(files.len() - 1)
    } else {
        last_record(files.drop_last(), k)
    }
}

/// The tracked entry under `k` after recording `files` over `before`.
pub open spec fn after_record(
    before: Seq<(Seq<char>, TrackedFile)>,
    files: Seq<PackedFileInfo>,
    mtimes: Seq<Option<u64>>,
    now: u64,
    k: Seq<char>,
) -> Option<(Seq<char>, u64, u64)> {
    match last_record(files, k) {
        Some(i) => Some(recorded_entry(files[i], mtimes[i], now)),
        None => opt_tf_view(lookup(before, k)),
    }
}

fn record_one(m: &mut StrMap<TrackedFile>, f: &PackedFileInfo, mtime: Option<u64>, now: u64)
    ensures
        forall|k: Seq<char>| #[trigger] opt_tf_view(lookup(final(m)@, k)) == if k == f.xml_relative_path@ {
            Some(recorded_entry(*f, mtime, now))
        } else {
            opt_tf_view(lookup(old(m)@, k))
        },
{
    let entry = TrackedFile {
        compact_path: f.compact_path.clone(),
        packed_at_epoch: now,
        compact_mtime_epoch: match mtime {
            Some(t) => t,
            None => now,
        },
    };
    m.insert(f.xml_relative_path.clone(), entry);
}

/// Records packed files in both scopes: each file's XML path now maps to
/// its compact path, the time `now` and the compact file's modification
/// time (`now` where it could not be read); a later file with the same
/// XML path wins. `mtimes` holds the modification time of each file.
pub fn record_packed_files(state: &mut TrackingState, files: &[PackedFileInfo], mtimes: &[Option<u64>], now: u64)
    requires
        files@.len() == mtimes@.len(),
    ensures
        final(state).branch == old(state).branch,
        forall|k: Seq<char>| #[trigger] opt_tf_view(lookup(final(state).global@, k)) == after_record(
            old(state).global@,
            files@,
            mtimes@,
            now,
            k,
        ),
        forall|k: Seq<char>| #[trigger] opt_tf_view(lookup(final(state).deployment@, k)) == after_record(
            old(state).deployment@,
            files@,
            mtimes@,
            now,
            k,
        ),
{
    let ghost g0 = state.global@;
    let ghost d0 = state.deployment@;
    let n = files.len();
    let mut i: usize = 0;
    while i < n
        invariant
            n == files@.len(),
            n == mtimes@.len(),
            i <= n,
            state.branch == old(state).branch,
            g0 == old(state).global@,
            d0 == old(state).deployment@,
            forall|k: Seq<char>| #[trigger] opt_tf_view(lookup(state.global@, k)) == after_record(
                g0,
                files@.take(i as int),
                mtimes@,
                now,
                k,
            ),
            forall|k: Seq<char>| #[trigger] opt_tf_view(lookup(state.deployment@, k)) == after_record(
                d0,
                files@.take(i as int),
                mtimes@,
                now,
                k,
            ),
        decreases n - i,
    {
        let ghost pre = files@.take(i as int);
        let ghost cur = files@.take(i + 1);
        assert(cur.drop_last() =~= pre);
        assert(cur.last() == files@[i as int]);
        assert forall|k: Seq<char>| #[trigger] last_record(cur, k) == if k == files@[i as int].xml_relative_path@ {
            Some(i as int)
        } else {
            last_record(pre, k)
        } by {}
        record_one(&mut state.global, &files[i], mtimes[i], now);
        record_one(&mut state.deployment, &files[i], mtimes[i], now);
        assert forall|k: Seq<char>| #[trigger] opt_tf_view(lookup(state.global@, k)) == after_record(
            g0,
            cur,
            mtimes@,
            now,
            k,
        ) by {
            lemma_last_record_range(pre, k);
            lemma_last_record_range(cur, k);
        }
        assert forall|k: Seq<char>| #[trigger] opt_tf_view(lookup(state.deployment@, k)) == after_record(
            d0,
            cur,
            mtimes@,
            now,
            k,
        ) by {
            lemma_last_record_range(pre, k);
            lemma_last_record_range(cur, k);
        }
        i = i + 1;
    }
    assert(files@.take(n as int) =~= files@);
}

proof fn lemma_last_record_range(files: Seq<PackedFileInfo>, k: Seq<char>)
    ensures
        last_record(files, k) matches Some(j) ==> 0 <= j < files.len() && files[j].xml_relative_path@ == k,
    decreases files.len(),
{
    if files.len() > 0 && files.last().xml_relative_path@ != k {
        lemma_last_record_range(files.drop_last(), k);
    }
}

/// The deployment entries after a reset since the last deployment: the
/// global entries, each packed at `now` with the modification time its
/// compact file has now (`now` where it could not be read).
pub open spec fn rebased(global: Seq<(Seq<char>, TrackedFile)>, mtimes: Seq<Option<u64>>, now: u64) -> Seq<(Seq<char>, (Seq<char>, u64, u64))> {
    Seq::new(global.len(), |i: int| (global[i].0, (global[i].1.compact_path@, now, time_or(mtimes[i], now))))
}

/// The model of a map of tracked files.
pub open spec fn tracked_view(m: Seq<(Seq<char>, TrackedFile)>) -> Seq<(Seq<char>, (Seq<char>, u64, u64))> {
    Seq::new(m.len(), |i: int| (m[i].0, tf_view(m[i].1)))
}

/// Resets tracking. Globally: both scopes become empty. Since the last
/// deployment: the deployment scope becomes the global entries, rebased on
/// the current modification times (`mtimes`, one per global entry in key
/// order) and the time `now`; the global scope is kept.
pub fn reset_tracking(state: &mut TrackingState, scope: ResetScope, mtimes: &[Option<u64>], now: u64)
    requires
        scope is SinceDeploy ==> mtimes@.len() == old(state).global@.len(),
    ensures
        final(state).branch == old(state).branch,
        scope is Global ==> final(state).global@.len() == 0 && final(state).deployment@.len() == 0,
        scope is SinceDeploy ==> final(state).global@ == old(state).global@ && tracked_view(final(state).deployment@)
            == rebased(old(state).global@, mtimes@, now),
{
    match scope {
        ResetScope::Global => {
            state.global.clear();
            state.deployment.clear();
        },
        ResetScope::SinceDeploy => {
            let es = state.global.entries();
            let ghost gv = state.global@;
            let mut out: Vec<(String, TrackedFile)> = Vec::new();
            let n = es.len();
            let mut i: usize = 0;
            while i < n
                invariant
                    n == es@.len(),
                    n == mtimes@.len(),
                    keyed_view(es@) == gv,
                    sorted_keys(gv),
                    i <= n,
                    out@.len() == i,
                    forall|j: int| 0 <= j < i ==> (#[trigger] out@[j]).0@ == gv[j].0 && tf_view(out@[j].1) == (
                        gv[j].1.compact_path@,
                        now,
                        time_or(mtimes@[j], now),
                    ),
                decreases n - i,
            {
                let t = match mtimes[i] {
                    Some(m) => m,
                    None => now,
                };
                out.push(
                    (
                        es[i].0.clone(),
                        TrackedFile { compact_path: es[i].1.compact_path.clone(), packed_at_epoch: now, compact_mtime_epoch: t },
                    ),
                );
                i = i + 1;
            }
            assert(keyed_view(out@) =~= Seq::new(n as nat, |j: int| (gv[j].0, out@[j].1)));
            assert forall|a: int, b: int| 0 <= a < b < keyed_view(out@).len() implies crate::strings::seq_lt(
                #[trigger] keyed_view(out@)[a].0,
                #[trigger] keyed_view(out@)[b].0,
            ) by {
                assert(keyed_view(out@)[a].0 == gv[a].0);
                assert(keyed_view(out@)[b].0 == gv[b].0);
            }
            state.deployment = StrMap::from_sorted(out);
            assert(tracked_view(state.deployment@) =~= rebased(gv, mtimes@, now));
        },
    }
}

// ─── Detecting changes ─────────────────────────────────────────────

/// The tracked files whose compact file was modified after it was
/// tracked: `observed` holds, per entry, the compact file's current
/// modification time (`None` when the file is gone or the time could not
/// be read).
pub open spec fn modified_entries(m: Seq<(Seq<char>, TrackedFile)>, observed: Seq<Option<u64>>) -> Seq<(Seq<char>, Seq<char>)>
    decreases m.len(),
{
    if m.len() == 0 {
        Seq::empty()
    } else {
        let rest = modified_entries(m.drop_last(), observed);
        let i = m.len() - 1;
        match observed[i] {
            Some(t) => if t > m[i].1.compact_mtime_epoch {
                rest.push((m[i].0, m[i].1.compact_path@))
            } else {
                rest
            },
            None => rest,
        }
    }
}

/// A compact file name suffix.
pub open spec fn is_compact_name(p: Seq<char>) -> bool {
    ends_with(p, "-meta.yaml"@) || ends_with(p, "-meta.json"@)
}

/// The XML path that a compact path stands for.
pub open spec fn xml_path_of(p: Seq<char>) -> Seq<char> {
    spec_replace_all(spec_replace_all(p, "-meta.yaml"@, "-meta.xml"@), "-meta.json"@, "-meta.xml"@)
}

/// Some tracked file, in either scope, has compact path `p`.
pub open spec fn is_known(state: TrackingState, p: Seq<char>) -> bool {
    (exists|i: int| 0 <= i < state.global@.len() && (#[trigger] state.global@[i]).1.compact_path@ == p) || (exists|
        i: int,
    |
        0 <= i < state.deployment@.len() && (#[trigger] state.deployment@[i]).1.compact_path@ == p)
}

/// Nothing is tracked in either scope.
pub open spec fn nothing_known(state: TrackingState) -> bool {
    state.global@.len() == 0 && state.deployment@.len() == 0
}

/// The compact files found on disk that tracking does not know.
pub open spec fn new_files(state: TrackingState, scanned: Seq<String>) -> Seq<(Seq<char>, Seq<char>)>
    decreases scanned.len(),
{
    if scanned.len() == 0 {
        Seq::empty()
    } else {
        let rest = new_files(state, scanned.drop_last());
        let p = scanned.last()@;
        if is_compact_name(p) && !is_known(state, p) {
            rest.push((xml_path_of(p), p))
        } else {
            rest
        }
    }
}

/// The changes: modified tracked files of the chosen scope, then, when
/// anything is tracked, the compact files found that are not tracked.
pub open spec fn spec_changes(
    state: TrackingState,
    since_deploy: bool,
    observed: Seq<Option<u64>>,
    scanned: Seq<String>,
) -> Seq<(Seq<char>, Seq<char>)> {
    let m = if since_deploy {
        state.deployment@
    } else {
        state.global@
    };
    modified_entries(m, observed) + if nothing_known(state) {
        Seq::empty()
    } else {
        new_files(state, scanned)
    }
}

/// The model of a list of changed files: (XML path, compact path).
pub open spec fn changes_view(v: Seq<ChangedFile>) -> Seq<(Seq<char>, Seq<char>)> {
    Seq::new(v.len(), |i: int| (v[i].xml_relative_path@, v[i].compact_path@))
}

fn knows_compact_path(m: &StrMap<TrackedFile>, p: &str) -> (r: bool)
    ensures
        r == exists|i: int| 0 <= i < m@.len() && (#[trigger] m@[i]).1.compact_path@ == p@,
{
    let es = m.entries();
    let n = es.len();
    let mut i: usize = 0;
    while i < n
        invariant
            n == es@.len(),
            keyed_view(es@) == m@,
            i <= n,
            forall|j: int| 0 <= j < i ==> (#[trigger] m@[j]).1.compact_path@ != p@,
        decreases n - i,
    {
        assert(m@[i as int] == (es@[i as int].0@, es@[i as int].1));
        if str_eq(es[i].1.compact_path.as_str(), p) {
            return true;
        }
        i = i + 1;
    }
    false
}

/// The changed compact files (see `spec_changes`). `observed` holds the
/// current modification time of each tracked file of the chosen scope, in
/// key order; `scanned` the compact directory's files (outside the
/// tracking directory), relative to it, in the order they were found.
pub fn detect_changes(state: &TrackingState, since_deploy: bool, observed: &[Option<u64>], scanned: &[String]) -> (r:
    Vec<ChangedFile>)
    requires
        observed@.len() == if since_deploy {
            state.deployment@.len()
        } else {
            state.global@.len()
        },
    ensures
        changes_view(r@) == spec_changes(*state, since_deploy, observed@, scanned@),
{
    let m = if since_deploy {
        &state.deployment
    } else {
        &state.global
    };
    let es = m.entries();
    let ghost mv = m@;
    let mut changed: Vec<ChangedFile> = Vec::new();
    let n = es.len();
    let mut i: usize = 0;
    while i < n
        invariant
            n == es@.len(),
            n == observed@.len(),
            keyed_view(es@) == mv,
            i <= n,
            changes_view(changed@) == modified_entries(mv.take(i as int), observed@),
        decreases n - i,
    {
        let ghost pre = mv.take(i as int);
        let ghost cur = mv.take(i + 1);
        assert(cur.drop_last() =~= pre);
        assert(cur[i as int] == (es@[i as int].0@, es@[i as int].1));
        let ghost before = changes_view(changed@);
        match observed[i] {
            Some(t) => {
                if t > es[i].1.compact_mtime_epoch {
                    changed.push(
                        ChangedFile { xml_relative_path: es[i].0.clone(), compact_path: es[i].1.compact_path.clone() },
                    );
                    assert(changes_view(changed@) =~= before.push((es@[i as int].0@, es@[i as int].1.compact_path@)));
                }
            },
            None => {},
        }
        i = i + 1;
    }
    assert(mv.take(n as int) =~= mv);
    let ghost part1 = changes_view(changed@);
    if state.global.is_empty() && state.deployment.is_empty() {
        assert(part1 + Seq::<(Seq<char>, Seq<char>)>::empty() =~= part1);
        return changed;
    }
    let k = scanned.len();
    let mut j: usize = 0;
    while j < k
        invariant
            k == scanned@.len(),
            j <= k,
            !nothing_known(*state),
            changes_view(changed@) == part1 + new_files(*state, scanned@.take(j as int)),
        decreases k - j,
    {
        let ghost pre = scanned@.take(j as int);
        let ghost cur = scanned@.take(j + 1);
        assert(cur.drop_last() =~= pre);
        assert(cur.last() == scanned@[j as int]);
        let ghost before = changes_view(changed@);
        let p = scanned[j].as_str();
        let is_compact = ends_with_exec(p, "-meta.yaml") || ends_with_exec(p, "-meta.json");
        if is_compact && !knows_compact_path(&state.global, p) && !knows_compact_path(&state.deployment, p) {
            proof { reveal_strlit("-meta.yaml"); reveal_strlit("-meta.json"); }
            let x1 = replace_all(p, "-meta.yaml", "-meta.xml");
            let x2 = replace_all(x1.as_str(), "-meta.json", "-meta.xml");
            changed.push(ChangedFile { xml_relative_path: x2, compact_path: to_owned_string(p) });
            assert(changes_view(changed@) =~= before.push((xml_path_of(p@), p@)));
        }
        j = j + 1;
    }
    assert(scanned@.take(k as int) =~= scanned@);
    changed
}

/// The name of the tracking file of a branch: `/` becomes `--`, then `.json`.
pub open spec fn spec_branch_file(branch: Seq<char>) -> Seq<char> {
    spec_replace_all(branch, "/"@, "--"@) + ".json"@
}

/// The tracking file name for a branch (see `spec_branch_file`).
pub fn branch_to_filename(branch: &str) -> (r: String)
    ensures
        r@ == spec_branch_file(branch@),
{
    proof { reveal_strlit("/"); }
    let mut r = replace_all(branch, "/", "--");
    push_str(&mut r, ".json");
    r
}

// ─── Laws of change detection ───────────────────────────────────────

proof fn lemma_unmodified(m: Seq<(Seq<char>, TrackedFile)>, observed: Seq<Option<u64>>)
    requires
        observed.len() == m.len(),
        forall|i: int|
            0 <= i < m.len() ==> (#[trigger] observed[i]) is None || observed[i]->Some_0 <= m[i].1.compact_mtime_epoch,
    ensures
        modified_entries(m, observed) == Seq::<(Seq<char>, Seq<char>)>::empty(),
    decreases m.len(),
{
    if m.len() > 0 {
        let d = m.drop_last();
        assert forall|i: int| 0 <= i < d.len() implies (#[trigger] observed.take(d.len() as int)[i]) is None
            || observed.take(d.len() as int)[i]->Some_0 <= d[i].1.compact_mtime_epoch by {
            assert(observed.take(d.len() as int)[i] == observed[i]);
        }
        lemma_unmodified(d, observed.take(d.len() as int));
        lemma_modified_prefix(d, observed);
        assert(observed[m.len() - 1] is None || observed[m.len() - 1]->Some_0 <= m[m.len() - 1].1.compact_mtime_epoch);
    }
}

/// `modified_entries` reads `observed` only at the positions of `m`.
proof fn lemma_modified_prefix(m: Seq<(Seq<char>, TrackedFile)>, observed: Seq<Option<u64>>)
    requires
        m.len() <= observed.len(),
    ensures
        modified_entries(m, observed) == modified_entries(m, observed.take(m.len() as int)),
    decreases m.len(),
{
    if m.len() > 0 {
        let d = m.drop_last();
        lemma_modified_prefix(d, observed);
        lemma_modified_prefix(d, observed.take(m.len() as int));
        assert(observed.take(m.len() as int).take(d.len() as int) =~= observed.take(d.len() as int));
    }
}

proof fn lemma_no_new_files(state: TrackingState, scanned: Seq<String>)
    requires
        forall|j: int| 0 <= j < scanned.len() ==> is_known(state, (#[trigger] scanned[j])@),
    ensures
        new_files(state, scanned) == Seq::<(Seq<char>, Seq<char>)>::empty(),
    decreases scanned.len(),
{
    if scanned.len() > 0 {
        let d = scanned.drop_last();
        assert forall|j: int| 0 <= j < d.len() implies is_known(state, (#[trigger] d[j])@) by {
            assert(d[j] == scanned[j]);
        }
        lemma_no_new_files(state, d);
        assert(is_known(state, scanned[scanned.len() - 1]@));
    }
}

/// No change is reported when no tracked compact file of the scope has a
/// modification time later than the one tracked, and every compact file
/// found is tracked.
pub proof fn law_no_changes_when_unmodified(
    state: TrackingState,
    since_deploy: bool,
    observed: Seq<Option<u64>>,
    scanned: Seq<String>,
)
    requires
        observed.len() == (if since_deploy {
            state.deployment@.len()
        } else {
            state.global@.len()
        }),
        forall|i: int|
            0 <= i < observed.len() ==> (#[trigger] observed[i]) is None || observed[i]->Some_0 <= (if since_deploy {
                state.deployment@
            } else {
                state.global@
            })[i].1.compact_mtime_epoch,
        forall|j: int| 0 <= j < scanned.len() ==> is_known(state, (#[trigger] scanned[j])@),
    ensures
        spec_changes(state, since_deploy, observed, scanned) == Seq::<(Seq<char>, Seq<char>)>::empty(),
{
    let m = if since_deploy {
        state.deployment@
    } else {
        state.global@
    };
    lemma_unmodified(m, observed);
    lemma_no_new_files(state, scanned);
    assert(Seq::<(Seq<char>, Seq<char>)>::empty() + Seq::<(Seq<char>, Seq<char>)>::empty() =~= Seq::<
        (Seq<char>, Seq<char>),
    >::empty());
}

/// After a global reset nothing is reported, whatever is on disk.
pub proof fn law_no_changes_after_global_reset(
    state: TrackingState,
    since_deploy: bool,
    observed: Seq<Option<u64>>,
    scanned: Seq<String>,
)
    requires
        nothing_known(state),
    ensures
        spec_changes(state, since_deploy, observed, scanned) == Seq::<(Seq<char>, Seq<char>)>::empty(),
{
    let m = if since_deploy {
        state.deployment@
    } else {
        state.global@
    };
    assert(m.len() == 0);
    assert(Seq::<(Seq<char>, Seq<char>)>::empty() + Seq::<(Seq<char>, Seq<char>)>::empty() =~= Seq::<
        (Seq<char>, Seq<char>),
    >::empty());
}

/// After a reset since the last deployment (which rebases that scope on
/// the modification times then read), no deployment entry is reported as
/// modified while those times stay as they were read.
pub proof fn law_rebased_unmodified(
    global: Seq<(Seq<char>, TrackedFile)>,
    deployment: Seq<(Seq<char>, TrackedFile)>,
    mtimes: Seq<Option<u64>>,
    now: u64,
)
    requires
        mtimes.len() == global.len(),
        tracked_view(deployment) == rebased(global, mtimes, now),
    ensures
        modified_entries(deployment, mtimes) == Seq::<(Seq<char>, Seq<char>)>::empty(),
{
    assert(deployment.len() == tracked_view(deployment).len());
    assert forall|i: int| 0 <= i < deployment.len() implies (#[trigger] mtimes[i]) is None || mtimes[i]->Some_0
        <= deployment[i].1.compact_mtime_epoch by {
        assert(tracked_view(deployment)[i] == rebased(global, mtimes, now)[i]);
    }
    lemma_unmodified(deployment, mtimes);
}

// ─── Commands for the changed files ─────────────────────────────────

/// The XML paths of the changed files, separated by ` -d `.
pub open spec fn joined_paths(cs: Seq<ChangedFile>) -> Seq<char>
    decreases cs.len(),
{
    if cs.len() == 0 {
        Seq::empty()
    } else if cs.len() == 1 {
        cs[0].xml_relative_path@
    } else {
        joined_paths(cs.drop_last()) + " -d "@ + cs.last().xml_relative_path@
    }
}

/// The `sf` command that deploys (`verb` is `deploy`) or retrieves
/// (`retrieve`) the changed files.
pub open spec fn spec_sf_command(verb: Seq<char>, cs: Seq<ChangedFile>) -> Seq<char> {
    "sf project "@ + verb + " start -d "@ + joined_paths(cs)
}

/// The `sf` command for the changed files (see `spec_sf_command`).
pub fn sf_command(verb: &str, changes: &Vec<ChangedFile>) -> (r: String)
    ensures
        r@ == spec_sf_command(verb@, changes@),
{
    let mut r = to_owned_string("sf project ");
    push_str(&mut r, verb);
    push_str(&mut r, " start -d ");
    let ghost head = r@;
    let n = changes.len();
    let mut i: usize = 0;
    while i < n
        invariant
            n == changes@.len(),
            i <= n,
            r@ == head + joined_paths(changes@.take(i as int)),
        decreases n - i,
    {
        assert(changes@.take(i + 1).drop_last() =~= changes@.take(i as int));
        if i > 0 {
            push_str(&mut r, " -d ");
        }
        push_str(&mut r, changes[i].xml_relative_path.as_str());
        proof {
            if i == 0 {
                assert(joined_paths(changes@.take(0)) == Seq::<char>::empty());
                assert(r@ =~= head + joined_paths(changes@.take(1)));
            } else {
                assert(r@ =~= head + joined_paths(changes@.take(i + 1)));
            }
        }
        i = i + 1;
    }
    assert(changes@.take(n as int) =~= changes@);
    assert(r@ =~= "sf project "@ + verb@ + " start -d "@ + joined_paths(changes@));
    r
}

/// The tracking that a scope name selects: `global` or `since-deploy`.
pub fn parse_reset_scope(name: &str) -> (r: Option<ResetScope>)
    ensures
        name@ == "global"@ ==> r == Some(ResetScope::Global),
        name@ == "since-deploy"@ ==> r == Some(ResetScope::SinceDeploy),
        name@ != "global"@ && name@ != "since-deploy"@ ==> r is None,
{
    proof {
        reveal_strlit("global");
        reveal_strlit("since-deploy");
        assert("global"@.len() != "since-deploy"@.len());
    }
    if str_eq(name, "global") {
        Some(ResetScope::Global)
    } else if str_eq(name, "since-deploy") {
        Some(ResetScope::SinceDeploy)
    } else {
        None
    }
}

// ─── The XML path of a new compact file ────────────────────────────

/// `s` holds no `-meta.` anywhere.
pub open spec fn no_meta_mark(s: Seq<char>) -> bool {
    forall|i: int| !occurs_at(s, "-meta."@, i)
}

/// A needle that starts with `-meta.` does not start inside `q` in
/// `q + sfx`, when `q` holds no `-meta.` and `sfx` starts with its only `-`.
proof fn lemma_not_inside(q: Seq<char>, sfx: Seq<char>, needle: Seq<char>, i: int)
    requires
        no_meta_mark(q),
        needle.len() >= 6,
        needle.subrange(0, 6) == "-meta."@,
        sfx.len() >= 1,
        sfx[0] == '-',
        0 <= i < q.len(),
    ensures
        !occurs_at(q + sfx, needle, i),
{
    reveal_strlit("-meta.");
    let s = q + sfx;
    if occurs_at(s, needle, i) {
        if i + 6 <= q.len() {
            assert(q.subrange(i, i + 6) =~= s.subrange(i, i + needle.len()).subrange(0, 6));
            assert(occurs_at(q, "-meta."@, i));
        } else {
            let d = q.len() - i;
            assert(1 <= d < 6);
            assert(s[q.len() as int] == '-');
            assert(s.subrange(i, i + needle.len())[d] == s[q.len() as int]);
            assert(needle[d] == "-meta."@[d]);
        }
    }
}

/// Replacing every `from` in `q + from` by `to` gives `q + to`, when `q`
/// holds no `-meta.` and `from` starts with `-meta.`.
proof fn lemma_replace_suffix(q: Seq<char>, from: Seq<char>, to: Seq<char>)
    requires
        no_meta_mark(q),
        from.len() >= 6,
        from.subrange(0, 6) == "-meta."@,
    ensures
        spec_replace_all(q + from, from, to) == q + to,
{
    reveal_strlit("-meta.");
    let s = q + from;
    assert(from[0] == '-') by {
        assert(from[0] == from.subrange(0, 6)[0]);
    }
    assert(s.subrange(q.len() as int, (q.len() + from.len()) as int) =~= from);
    assert forall|i: int| 0 <= i < q.len() implies !occurs_at(s, from, i) by {
        lemma_not_inside(q, from, from, i);
    }
    lemma_first_at(s, from, q.len() as int);
    let rest = s.skip((q.len() + from.len()) as int);
    assert(rest.len() == 0);
    lemma_first(rest, from);
    assert(spec_replace_all(rest, from, to) == rest);
    assert(s.subrange(0, q.len() as int) =~= q);
    assert(q + to + rest =~= q + to);
}

/// Replacing `from` in `q + sfx`, where `sfx` is not `from` but as long or
/// shorter, changes nothing, when `q` holds no `-meta.`, `from` starts with
/// `-meta.` and `sfx` with `-`.
proof fn lemma_replace_none(q: Seq<char>, sfx: Seq<char>, from: Seq<char>, to: Seq<char>)
    requires
        no_meta_mark(q),
        from.len() >= 6,
        from.subrange(0, 6) == "-meta."@,
        sfx.len() >= 1,
        sfx[0] == '-',
        sfx.len() <= from.len(),
        sfx != from,
    ensures
        spec_replace_all(q + sfx, from, to) == q + sfx,
{
    let s = q + sfx;
    assert forall|i: int| 0 <= i implies !occurs_at(s, from, i) by {
        if i < q.len() {
            lemma_not_inside(q, sfx, from, i);
        } else if occurs_at(s, from, i) {
            assert(i == q.len());
            assert(s.subrange(i, i + from.len()) =~= sfx);
        }
    }
    lemma_first(s, from);
    if find_first(s, from) is Some {
        let j = find_first(s, from)->Some_0;
        assert(occurs_at(s, from, j));
    }
}

/// The XML path of a compact path `q-meta.yaml` or `q-meta.json` is
/// `q-meta.xml`, when `q` holds no `-meta.`.
pub proof fn law_xml_path_of_compact(q: Seq<char>)
    requires
        no_meta_mark(q),
    ensures
        xml_path_of(q + "-meta.yaml"@) == q + "-meta.xml"@,
        xml_path_of(q + "-meta.json"@) == q + "-meta.xml"@,
{
    reveal_strlit("-meta.yaml");
    reveal_strlit("-meta.json");
    reveal_strlit("-meta.xml");
    reveal_strlit("-meta.");
    let y = "-meta.yaml"@;
    let j = "-meta.json"@;
    let x = "-meta.xml"@;
    assert(y.subrange(0, 6) =~= "-meta."@);
    assert(j.subrange(0, 6) =~= "-meta."@);
    assert(y != j) by {
        assert(y[6] != j[6]);
    }
    assert(x != j) by {
        assert(x.len() != j.len());
    }
    assert(j != y) by {
        assert(y[6] != j[6]);
    }
    lemma_replace_suffix(q, y, x);
    lemma_replace_none(q, x, j, x);
    lemma_replace_none(q, j, y, x);
    lemma_replace_suffix(q, j, x);
}

proof fn lemma_new_files_entry(state: TrackingState, scanned: Seq<String>, i: int)
    requires
        0 <= i < new_files(state, scanned).len(),
    ensures
        new_files(state, scanned)[i].0 == xml_path_of(new_files(state, scanned)[i].1),
        is_compact_name(new_files(state, scanned)[i].1),
        !is_known(state, new_files(state, scanned)[i].1),
    decreases scanned.len(),
{
    let rest = new_files(state, scanned.drop_last());
    if i < rest.len() {
        lemma_new_files_entry(state, scanned.drop_last(), i);
    }
}

/// Every compact file that the changes report as new, `q-meta.yaml` or
/// `q-meta.json` with no `-meta.` in `q`, is reported with the XML path
/// `q-meta.xml`; and it is a compact file that tracking does not know.
pub proof fn law_new_file_xml_path(state: TrackingState, scanned: Seq<String>, i: int, q: Seq<char>)
    requires
        0 <= i < new_files(state, scanned).len(),
        no_meta_mark(q),
        new_files(state, scanned)[i].1 == q + "-meta.yaml"@ || new_files(state, scanned)[i].1 == q + "-meta.json"@,
    ensures
        new_files(state, scanned)[i].0 == q + "-meta.xml"@,
        !is_known(state, new_files(state, scanned)[i].1),
{
    lemma_new_files_entry(state, scanned, i);
    law_xml_path_of_compact(q);
}

proof fn lemma_modified_tracked(m: Seq<(Seq<char>, TrackedFile)>, observed: Seq<Option<u64>>, k: int)
    requires
        m.len() <= observed.len(),
        0 <= k < modified_entries(m, observed).len(),
    ensures
        exists|j: int| 0 <= j < m.len() && (#[trigger] m[j]).1.compact_path@ == modified_entries(m, observed)[k].1,
    decreases m.len(),
{
    let d = m.drop_last();
    let rest = modified_entries(d, observed);
    if k < rest.len() {
        lemma_modified_tracked(d, observed, k);
        let j = choose|j: int| 0 <= j < d.len() && (#[trigger] d[j]).1.compact_path@ == rest[k].1;
        assert(m[j] == d[j]);
    } else {
        assert(m[m.len() - 1].1.compact_path@ == modified_entries(m, observed)[k].1);
    }
}

/// Every change reported for a compact file that tracking does not know,
/// `q-meta.yaml` or `q-meta.json` with no `-meta.` in `q`, carries the XML
/// path `q-meta.xml`.
pub proof fn law_change_xml_path(
    state: TrackingState,
    since_deploy: bool,
    observed: Seq<Option<u64>>,
    scanned: Seq<String>,
    k: int,
    q: Seq<char>,
)
    requires
        observed.len() == if since_deploy {
            state.deployment@.len()
        } else {
            state.global@.len()
        },
        0 <= k < spec_changes(state, since_deploy, observed, scanned).len(),
        !is_known(state, spec_changes(state, since_deploy, observed, scanned)[k].1),
        no_meta_mark(q),
        spec_changes(state, since_deploy, observed, scanned)[k].1 == q + "-meta.yaml"@
            || spec_changes(state, since_deploy, observed, scanned)[k].1 == q + "-meta.json"@,
    ensures
        spec_changes(state, since_deploy, observed, scanned)[k].0 == q + "-meta.xml"@,
{
    let m = if since_deploy {
        state.deployment@
    } else {
        state.global@
    };
    let mods = modified_entries(m, observed);
    let c = spec_changes(state, since_deploy, observed, scanned);
    if k < mods.len() {
        lemma_modified_tracked(m, observed, k);
        let j = choose|j: int| 0 <= j < m.len() && (#[trigger] m[j]).1.compact_path@ == mods[k].1;
        assert(c[k] == mods[k]);
        if since_deploy {
            assert(state.deployment@[j].1.compact_path@ == c[k].1);
        } else {
            assert(state.global@[j].1.compact_path@ == c[k].1);
        }
        assert(false);
    } else {
        assert(!nothing_known(state));
        assert(c[k] == new_files(state, scanned)[k - mods.len()]);
        law_new_file_xml_path(state, scanned, k - mods.len(), q);
    }
}

} // verus!
