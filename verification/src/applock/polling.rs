use vstd::prelude::*;
use crate::applock::identifier::{AppIdentifier, IdentifierView};
use crate::applock::paths::{file_name_of, path_file_name};
use crate::model::text::{same_text, strings_view};

verus! {

/// Whether the blocked identifier `id` matches a process whose executable is at
/// `exe`: `id` is a path, and both it and `exe` end in the same file name. A bundle
/// identifier matches no process.
pub open spec fn matches_process(id: IdentifierView, exe: Seq<char>) -> bool {
    match id {
        IdentifierView::Path(p) => {
            &&& path_file_name(p) is Some
            &&& path_file_name(exe) is Some
            &&& path_file_name(p) == path_file_name(exe)
        },
        IdentifierView::BundleId(_) => false,
    }
}

/// Whether some blocked identifier matches the process whose executable is at `exe`.
pub open spec fn is_blocked(blocked: Seq<IdentifierView>, exe: Seq<char>) -> bool {
    exists|k: int| 0 <= k < blocked.len() && matches_process(#[trigger] blocked[k], exe)
}

/// The positions, in order, of the processes (by executable path) that a blocked
/// identifier matches.
pub open spec fn blocked_positions(blocked: Seq<IdentifierView>, exes: Seq<Seq<char>>) -> Seq<int>
    decreases exes.len(),
{
    if exes.len() == 0 {
        Seq::empty()
    } else {
        let rest = blocked_positions(blocked, exes.drop_last());
        if is_blocked(blocked, exes.last()) {
            rest.push(exes.len() - 1)
        } else {
            rest
        }
    }
}

/// The path that identifies a running process: its executable's path where it is
/// known, else its name.
pub fn process_path(exe: Option<String>, name: String) -> (r: String)
    ensures
        r@ == match exe {
            Some(p) => p@,
            None => name@,
        },
{
    match exe {
        Some(p) => p,
        None => name,
    }
}

/// The file name that a blocked identifier matches processes by: a path's file name; a
/// bundle identifier has none.
pub open spec fn blocked_file_name(id: IdentifierView) -> Option<Seq<char>> {
    match id {
        IdentifierView::Path(p) => path_file_name(p),
        IdentifierView::BundleId(_) => None,
    }
}

/// Whether a process whose executable has file name `process_name` (none where it has
/// none) is blocked by one of the identifiers whose file names are `blocked_names`.
pub open spec fn name_blocked(process_name: Option<Seq<char>>, blocked_names: Seq<Option<Seq<char>>>) -> bool {
    process_name is Some && exists|k: int| 0 <= k < blocked_names.len() && #[trigger] blocked_names[k] == process_name
}

/// Whether a process is blocked, from its executable's file name and the file names
/// of the blocked identifiers (see `name_blocked`).
pub fn blocked_by_names(process_name: &Option<String>, blocked_names: &Vec<Option<String>>) -> (r: bool)
    ensures
        r == name_blocked(process_name.deep_view(), blocked_names.deep_view()),
{
    let name = match process_name {
        Some(n) => n,
        None => return false,
    };
    let ghost names = blocked_names.deep_view();
    let mut k: usize = 0;
    while k < blocked_names.len()
        invariant
            k <= blocked_names.len(),
            names == blocked_names.deep_view(),
            process_name.deep_view() == Some(name@),
            forall|j: int| 0 <= j < k ==> names[j] != Some(name@),
        decreases blocked_names.len() - k,
    {
        assert(names[k as int] == blocked_names@[k as int].deep_view());
        match &blocked_names[k] {
            Some(b) => {
                if same_text(b.as_str(), name.as_str()) {
                    assert(names[k as int] == process_name.deep_view());
                    return true;
                }
            },
            None => {},
        }
        k = k + 1;
    }
    false
}

/// Whether a blocked identifier matches the process whose executable is at `exe`
/// (see `matches_process`).
pub fn should_kill(exe: &str, blocked: &Vec<AppIdentifier>) -> (r: bool)
    ensures
        r == is_blocked(blocked@.map_values(|a: AppIdentifier| a@), exe@),
{
    let ghost ids = blocked@.map_values(|a: AppIdentifier| a@);
    let process_name = file_name_of(exe);
    let mut names: Vec<Option<String>> = Vec::new();
    let mut k: usize = 0;
    while k < blocked.len()
        invariant
            k <= blocked.len(),
            ids == blocked@.map_values(|a: AppIdentifier| a@),
            names.deep_view() == ids.take(k as int).map_values(|id: IdentifierView| blocked_file_name(id)),
        decreases blocked.len() - k,
    {
        let n = match &blocked[k] {
            AppIdentifier::Path(p) => file_name_of(p.as_str()),
            AppIdentifier::BundleId(_) => None,
        };
        assert(ids[k as int] == blocked@[k as int]@);
        let ghost before = names.deep_view();
        names.push(n);
        assert(names.deep_view() =~= before.push(n.deep_view()));
        assert(ids.take(k + 1).map_values(|id: IdentifierView| blocked_file_name(id)) =~= ids.take(k as int).map_values(
            |id: IdentifierView| blocked_file_name(id),
        ).push(blocked_file_name(ids[k as int])));
        k = k + 1;
    }
    assert(ids.take(k as int) =~= ids);
    let r = blocked_by_names(&process_name, &names);
    proof {
        let nv = names.deep_view();
        if r {
            let j = choose|j: int| 0 <= j < nv.len() && #[trigger] nv[j] == process_name.deep_view();
            assert(matches_process(ids[j], exe@));
        }
        if is_blocked(ids, exe@) {
            let j = choose|j: int| 0 <= j < ids.len() && matches_process(#[trigger] ids[j], exe@);
            assert(nv[j] == process_name.deep_view());
        }
    }
    r
}

/// The positions, in order, of the running processes (given by executable path) that
/// are to be stopped because a blocked identifier matches them.
pub fn processes_to_kill(exes: &Vec<String>, blocked: &Vec<AppIdentifier>) -> (r: Vec<usize>)
    ensures
        r@.map_values(|i: usize| i as int) == blocked_positions(
            blocked@.map_values(|a: AppIdentifier| a@),
            strings_view(exes@),
        ),
{
    let ghost ids = blocked@.map_values(|a: AppIdentifier| a@);
    let ghost all = strings_view(exes@);
    let mut r: Vec<usize> = Vec::new();
    let mut i: usize = 0;
    assert(all.take(0) =~= Seq::<Seq<char>>::empty());
    assert(r@.map_values(|i: usize| i as int) =~= Seq::<int>::empty());
    while i < exes.len()
        invariant
            i <= exes.len(),
            ids == blocked@.map_values(|a: AppIdentifier| a@),
            all == strings_view(exes@),
            r@.map_values(|i: usize| i as int) == blocked_positions(ids, all.take(i as int)),
        decreases exes.len() - i,
    {
        assert(all.take(i + 1).drop_last() =~= all.take(i as int));
        assert(all.take(i + 1).last() == exes@[i as int]@);
        let ghost before = r@;
        if should_kill(exes[i].as_str(), blocked) {
            r.push(i);
            assert(r@.map_values(|i: usize| i as int) =~= before.map_values(|i: usize| i as int).push(i as int));
        }
        i = i + 1;
    }
    assert(all.take(i as int) =~= all);
    r
}

/// The number of `true` outcomes.
pub open spec fn count_true(outcomes: Seq<bool>) -> nat
    decreases outcomes.len(),
{
    if outcomes.len() == 0 {
        0
    } else {
        count_true(outcomes.drop_last()) + if outcomes.last() {
            1nat
        } else {
            0nat
        }
    }
}

/// How many processes a scan stopped: the number of stop attempts that succeeded
/// (`outcomes[k]` tells whether the `k`-th chosen process was stopped).
pub fn stopped_count(outcomes: &Vec<bool>) -> (n: usize)
    ensures
        n == count_true(outcomes@),
{
    let mut n: usize = 0;
    let mut i: usize = 0;
    while i < outcomes.len()
        invariant
            i <= outcomes.len(),
            n == count_true(outcomes@.take(i as int)),
            n <= i,
        decreases outcomes.len() - i,
    {
        assert(outcomes@.take(i + 1).drop_last() =~= outcomes@.take(i as int));
        if outcomes[i] {
            n = n + 1;
        }
        i = i + 1;
    }
    assert(outcomes@.take(i as int) =~= outcomes@);
    n
}

} // verus!
