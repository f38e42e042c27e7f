use vstd::prelude::*;
use crate::applock::app_info::AppInfo;
use crate::applock::identifier::{AppIdentifier, IdentifierView, same_app};

verus! {

/// Whether some identifier of `ids` names the same application as `id` (checked in
/// that direction: the listed identifier first).
pub open spec fn lists(ids: Seq<IdentifierView>, id: IdentifierView) -> bool {
    exists|k: int| 0 <= k < ids.len() && same_app(#[trigger] ids[k], id)
}

/// The identifiers of `ids` not named by one kept before them: each application once,
/// at its first occurrence, as a set that ignores repeated insertions holds them.
pub open spec fn first_identifiers(ids: Seq<IdentifierView>) -> Seq<IdentifierView>
    decreases ids.len(),
{
    if ids.len() == 0 {
        Seq::empty()
    } else {
        let kept = first_identifiers(ids.drop_last());
        if lists(kept, ids.last()) {
            kept
        } else {
            kept.push(ids.last())
        }
    }
}

/// The identifiers of a list of application entries, in order.
pub open spec fn identifiers_of(apps: Seq<AppInfo>) -> Seq<IdentifierView> {
    apps.map_values(|a: AppInfo| a.identifier@)
}

/// The mathematical model of a blocking session.
pub struct SessionView {
    pub blocked: Seq<IdentifierView>,
    pub active: bool,
    pub end_time: Option<int>,
}

/// A session that blocks nothing, is off, and has no end time.
pub open spec fn stopped() -> SessionView {
    SessionView { blocked: Seq::empty(), active: false, end_time: None }
}

/// A session that blocks the applications of `apps` (each once) until `end`.
pub open spec fn started(apps: Seq<AppInfo>, end: int) -> SessionView {
    SessionView { blocked: first_identifiers(identifiers_of(apps)), active: true, end_time: Some(end) }
}

/// Session `s` after its block list is replaced by `apps`: only a session that is on
/// takes the new list; nothing else changes.
pub open spec fn updated(s: SessionView, apps: Seq<AppInfo>) -> SessionView {
    if s.active {
        SessionView { blocked: first_identifiers(identifiers_of(apps)), ..s }
    } else {
        s
    }
}

/// A blocking session: the applications to block, whether blocking is on, and when
/// the session ends (Unix timestamp, seconds).
pub struct BlockingSession {
    blocked_apps: Vec<AppIdentifier>,
    active: bool,
    end_time: Option<i64>,
}

impl View for BlockingSession {
    type V = SessionView;

    closed spec fn view(&self) -> SessionView {
        SessionView {
            blocked: self.blocked_apps@.map_values(|a: AppIdentifier| a@),
            active: self.active,
            end_time: match self.end_time {
                Some(t) => Some(t as int),
                None => None,
            },
        }
    }
}

fn distinct_identifiers(apps: &Vec<AppInfo>) -> (ids: Vec<AppIdentifier>)
    ensures
        ids@.map_values(|a: AppIdentifier| a@) == first_identifiers(identifiers_of(apps@)),
{
    let ghost all = identifiers_of(apps@);
    let mut ids: Vec<AppIdentifier> = Vec::new();
    let mut i: usize = 0;
    assert(all.take(0) =~= Seq::<IdentifierView>::empty());
    assert(ids@.map_values(|a: AppIdentifier| a@) =~= Seq::<IdentifierView>::empty());
    while i < apps.len()
        invariant
            i <= apps.len(),
            all == identifiers_of(apps@),
            ids@.map_values(|a: AppIdentifier| a@) == first_identifiers(all.take(i as int)),
        decreases apps.len() - i,
    {
        let ghost kept = ids@.map_values(|a: AppIdentifier| a@);
        let candidate = &apps[i].identifier;
        let mut seen = false;
        let mut k: usize = 0;
        while k < ids.len()
            invariant
                k <= ids.len(),
                kept == ids@.map_values(|a: AppIdentifier| a@),
                seen == exists|j: int| 0 <= j < k && same_app(#[trigger] kept[j], candidate@),
            decreases ids.len() - k,
        {
            let hit = ids[k].same_as(candidate);
            assert(kept[k as int] == ids@[k as int]@);
            if hit {
                seen = true;
            }
            k = k + 1;
        }
        assert(all.take(i + 1).drop_last() =~= all.take(i as int));
        assert(all.take(i + 1).last() == candidate@);
        if !seen {
            ids.push(candidate.duplicate());
            assert(ids@.map_values(|a: AppIdentifier| a@) =~= kept.push(candidate@));
        }
        i = i + 1;
    }
    assert(all.take(i as int) =~= all);
    ids
}

impl BlockingSession {
    /// A session that blocks nothing, is off, and has no end time.
    pub fn new() -> (s: BlockingSession)
        ensures
            s@ == stopped(),
    {
        let s = BlockingSession { blocked_apps: Vec::new(), active: false, end_time: None };
        assert(s@.blocked =~= Seq::<IdentifierView>::empty());
        s
    }

    /// Starts blocking the given applications (each once) until `end_time`.
    pub fn start(&mut self, apps: Vec<AppInfo>, end_time: i64)
        ensures
            final(self)@ == started(apps@, end_time as int),
    {
        self.blocked_apps = distinct_identifiers(&apps);
        self.end_time = Some(end_time);
        self.active = true;
    }

    /// Stops blocking: nothing is blocked, the session is off and has no end time.
    pub fn stop(&mut self)
        ensures
            final(self)@ == stopped(),
    {
        self.active = false;
        self.blocked_apps = Vec::new();
        self.end_time = None;
        assert(self@.blocked =~= Seq::<IdentifierView>::empty());
    }

    /// Replaces the applications to block, while the session is on; an inactive
    /// session is left as it is.
    pub fn update_apps(&mut self, apps: Vec<AppInfo>)
        ensures
            final(self)@ == updated(old(self)@, apps@),
    {
        if !self.active {
            return;
        }
        self.blocked_apps = distinct_identifiers(&apps);
    }

    /// Whether blocking is on.
    pub fn is_active(&self) -> (r: bool)
        ensures
            r == self@.active,
    {
        self.active
    }

    /// The applications to block.
    pub fn blocked_apps(&self) -> (r: Vec<AppIdentifier>)
        ensures
            r@.map_values(|a: AppIdentifier| a@) == self@.blocked,
    {
        let mut r: Vec<AppIdentifier> = Vec::new();
        let mut i: usize = 0;
        while i < self.blocked_apps.len()
            invariant
                i <= self.blocked_apps.len(),
                r@.map_values(|a: AppIdentifier| a@) == self@.blocked.take(i as int),
            decreases self.blocked_apps.len() - i,
        {
            let ghost before = r@;
            r.push(self.blocked_apps[i].duplicate());
            assert(r@.map_values(|a: AppIdentifier| a@) =~= before.map_values(|a: AppIdentifier| a@).push(self@.blocked[i as int]));
            assert(self@.blocked.take(i + 1) =~= self@.blocked.take(i as int).push(self@.blocked[i as int]));
            i = i + 1;
        }
        assert(self@.blocked.take(i as int) =~= self@.blocked);
        r
    }

    /// When the session ends (Unix timestamp, seconds), if it has an end.
    pub fn end_time(&self) -> (r: Option<i64>)
        ensures
            match r {
                Some(t) => self@.end_time == Some(t as int),
                None => self@.end_time is None,
            },
    {
        self.end_time
    }
}

impl Default for BlockingSession {
    fn default() -> (s: BlockingSession)
        ensures
            s@ == stopped(),
    {
        BlockingSession::new()
    }
}

} // verus!
