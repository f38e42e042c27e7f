use vstd::prelude::*;
use crate::applock::app_info::{AppInfo, AppInfoRaw, AppInfoView, BlockedApp};
use crate::applock::identifier::{AppIdentifier, entered_identifier, stored_identifier};
use crate::applock::paths::main_separator;
use crate::model::time::{calendar_accepts, datetime_of, representable, spec_datetime_of};
use crate::model::text::concat;
use crate::queries::{decimal, decimal_text};

verus! {

/// The entries of the stored block list, on a platform whose path separator is
/// `separator`: each stored identifier read back (see `stored_identifier`), with its
/// name.
pub open spec fn stored_apps(blocked: Seq<BlockedApp>, separator: char) -> Seq<AppInfoView> {
    blocked.map_values(|b: BlockedApp| AppInfoView {
        identifier: stored_identifier(b.identifier@, separator),
        display_name: b.display_name@,
    })
}

/// The application entries of the stored block list, in order (see `stored_apps`; the
/// platform's separator is `/` or `\`).
pub fn blocked_apps_to_info(blocked: Vec<BlockedApp>) -> (apps: Vec<AppInfo>)
    ensures
        exists|sep: char|
            (sep == '/' || sep == '\\') && apps@.map_values(|a: AppInfo| a@) == stored_apps(blocked@, sep),
{
    read_blocked_apps(blocked, main_separator())
}

/// The application entries of the stored block list, in order, on a platform whose path
/// separator is `separator`: each entry's identifier is what `BlockedApp::identifier_on`
/// reads with that separator (see `stored_apps`).
pub fn read_blocked_apps(blocked: Vec<BlockedApp>, separator: char) -> (apps: Vec<AppInfo>)
    ensures
        apps@.map_values(|a: AppInfo| a@) == stored_apps(blocked@, separator),
{
    let sep = separator;
    let mut apps: Vec<AppInfo> = Vec::new();
    let mut i: usize = 0;
    while i < blocked.len()
        invariant
            i <= blocked.len(),
            apps@.map_values(|a: AppInfo| a@) == stored_apps(blocked@, sep).take(i as int),
        decreases blocked.len() - i,
    {
        let b = &blocked[i];
        let app = AppInfo::new(b.identifier_on(sep), b.display_name.clone());
        let ghost before = apps@;
        apps.push(app);
        assert(apps@.map_values(|a: AppInfo| a@) =~= before.map_values(|a: AppInfo| a@).push(app@));
        assert(stored_apps(blocked@, sep).take(i + 1) =~= stored_apps(blocked@, sep).take(i as int).push(app@));
        i = i + 1;
    }
    assert(stored_apps(blocked@, sep).take(i as int) =~= stored_apps(blocked@, sep));
    apps
}

/// With one separator, the entries of the stored block list keep their order and names,
/// and each identifier is the one its stored entry reads as on its own.
pub proof fn law_blocked_apps_read_alike(blocked: Seq<BlockedApp>, separator: char)
    ensures
        stored_apps(blocked, separator).len() == blocked.len(),
        forall|i: int|
            0 <= i < blocked.len() ==> (#[trigger] stored_apps(blocked, separator)[i]).identifier
                == stored_identifier(blocked[i].identifier@, separator) && stored_apps(blocked, separator)[i].display_name
                == blocked[i].display_name@,
{
}

/// How long to wait, in seconds, from `now` until `target` (both Unix timestamps):
/// nothing where `target` is not in the future.
pub open spec fn wait_secs(target: int, now: int) -> int {
    if target > now {
        target - now
    } else {
        0
    }
}

/// How long to wait, in seconds, from `now` until `target` (see `wait_secs`).
pub fn delay_until(target: i64, now: i64) -> (r: u64)
    ensures
        r == wait_secs(target as int, now as int),
{
    if target > now {
        let d: i128 = target as i128 - now as i128;
        d as u64
    } else {
        0
    }
}

/// The end of a focus session that the user asks for: the end time itself, where the
/// calendar can represent it; otherwise the error `Invalid end time`.
pub fn focus_end_time(end_time: i64) -> (r: Result<i64, String>)
    ensures
        representable(end_time as int) ==> r == Ok::<i64, String>(end_time),
        !representable(end_time as int) ==> r is Err && r->Err_0@ == "Invalid end time"@,
{
    if calendar_accepts(end_time) {
        Ok(end_time)
    } else {
        Err("Invalid end time".to_owned())
    }
}

/// What to do about the next scheduled task when the app restores blocking.
#[derive(Clone, Copy, Debug, PartialEq, Eq)]
pub enum RestoreAction {
    /// The task is under way: block now, until `end`.
    BlockNow { end: i64 },
    /// The task is ahead: block from `start` until `end`.
    BlockLater { start: i64, end: i64 },
    /// The task is over: block nothing.
    Nothing,
}

/// The action for a task scheduled at `scheduled_for` that lasts `duration` seconds,
/// at moment `now`: block now while the task is under way (its start and end
/// included), later while it is ahead, not at all once it is over. The times handed
/// on are read as calendar times (the Unix epoch where the calendar cannot).
pub open spec fn restore_action(scheduled_for: int, duration: int, now: int) -> RestoreAction {
    let end = scheduled_for + duration;
    if scheduled_for <= now && now <= end {
        RestoreAction::BlockNow { end: spec_datetime_of(end) as i64 }
    } else if scheduled_for > now {
        RestoreAction::BlockLater {
            start: spec_datetime_of(scheduled_for) as i64,
            end: spec_datetime_of(end) as i64,
        }
    } else {
        RestoreAction::Nothing
    }
}

/// Decides how to restore blocking for the next scheduled task (see `restore_action`).
pub fn plan_restore(scheduled_for: i64, duration: i64, now: i64) -> (r: RestoreAction)
    requires
        i64::MIN <= scheduled_for + duration <= i64::MAX,
    ensures
        r == restore_action(scheduled_for as int, duration as int, now as int),
{
    let end = scheduled_for + duration;
    if scheduled_for <= now && now <= end {
        RestoreAction::BlockNow { end: datetime_of(end) }
    } else if scheduled_for > now {
        RestoreAction::BlockLater { start: datetime_of(scheduled_for), end: datetime_of(end) }
    } else {
        RestoreAction::Nothing
    }
}


/// The answer to a request to change the block list while a focus session is on.
pub open spec fn locked_list_message() -> Seq<char> {
    "Невозможно изменить список приложений во время фокус сессии"@
}

/// The entries a submitted block list stands for, in order (see
/// `AppInfoRaw::to_app_info`).
pub open spec fn submitted_apps(apps: Seq<AppInfoRaw>) -> Seq<AppInfoView> {
    apps.map_values(|a: AppInfoRaw| AppInfoView {
        identifier: entered_identifier(a.identifier@),
        display_name: a.display_name@,
    })
}

/// Decides a change of the block list: refused while a focus session is on; otherwise
/// the entries to store in place of the old list.
pub fn blocked_apps_update(session_active: bool, apps: &Vec<AppInfoRaw>) -> (r: Result<Vec<AppInfo>, String>)
    ensures
        session_active ==> r is Err && r->Err_0@ == locked_list_message(),
        !session_active ==> (r matches Ok(v) && v@.map_values(|a: AppInfo| a@) == submitted_apps(apps@)),
{
    if session_active {
        return Err("Невозможно изменить список приложений во время фокус сессии".to_owned());
    }
    let mut out: Vec<AppInfo> = Vec::new();
    let mut i: usize = 0;
    while i < apps.len()
        invariant
            i <= apps.len(),
            out@.map_values(|a: AppInfo| a@) == submitted_apps(apps@).take(i as int),
        decreases apps.len() - i,
    {
        let a = apps[i].to_app_info();
        let ghost before = out@;
        out.push(a);
        assert(out@.map_values(|x: AppInfo| x@) =~= before.map_values(|x: AppInfo| x@).push(a@));
        assert(submitted_apps(apps@).take(i + 1) =~= submitted_apps(apps@).take(i as int).push(a@));
        i = i + 1;
    }
    assert(submitted_apps(apps@).take(i as int) =~= submitted_apps(apps@));
    Ok(out)
}

} // verus!

verus! {

/// Whole minutes in `secs` seconds, rounded toward zero (as integer division does).
pub open spec fn whole_minutes(secs: int) -> int {
    if secs >= 0 {
        secs / 60
    } else {
        -((-secs) / 60)
    }
}

/// The title of the notifications about focus sessions.
pub fn focus_notice_title() -> (r: String)
    ensures
        r@ == "Период концентрации"@,
{
    "Период концентрации".to_owned()
}

/// The notice that a focus session on the task named `task_name`, lasting
/// `duration_secs` seconds, has begun: the task's name in quotes and its length in
/// whole minutes.
pub fn focus_start_notice(task_name: &str, duration_secs: i64) -> (r: String)
    ensures
        r@ == "Начался период концентрации: \""@ + task_name@ + "\" ("@ + decimal_text(
            whole_minutes(duration_secs as int),
        ) + " мин.). Отвлекающие приложения заблокированы!"@,
{
    let minutes: i64 = if duration_secs >= 0 {
        duration_secs / 60
    } else {
        let m: i128 = (0i128 - duration_secs as i128) / 60;
        (0i128 - m) as i64
    };
    let a = concat("Начался период концентрации: \"", task_name);
    let b = concat(concat(a.as_str(), "\" (").as_str(), decimal(minutes).as_str());
    concat(b.as_str(), " мин.). Отвлекающие приложения заблокированы!")
}

/// The notice that a focus session has ended.
pub fn focus_end_notice() -> (r: String)
    ensures
        r@ == "Период концентрации окончен. Приложения разблокированы."@,
{
    "Период концентрации окончен. Приложения разблокированы.".to_owned()
}

} // verus!
