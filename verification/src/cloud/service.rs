//! The sessions that are running: at most one for each site, because a second one
//! would only push the first one's login out.

use vstd::prelude::*;
use vstd::string::*;

use crate::cloud::browser::{profile_name, profile_name_of};
use crate::error::{AppError, AppResult};
use crate::text::{all_text, same};

verus! {

/// How many debugging ports are used in turn.
pub const PORTS: u16 = 20;

/// The debugging port of the `n`-th start, counted from 0.
pub open spec fn port_of(base: u16, n: u16) -> int {
    base + n % PORTS
}

/// The first place of `name` among the entries; their number if it is not there.
pub open spec fn place_of<S>(entries: Seq<(String, S)>, name: Seq<char>) -> int
    decreases entries.len(),
{
    if entries.len() == 0 {
        0
    } else if entries[0].0@ == name {
        0
    } else {
        1 + place_of(entries.drop_first(), name)
    }
}

proof fn place_is_first<S>(entries: Seq<(String, S)>, name: Seq<char>)
    ensures
        0 <= place_of(entries, name) <= entries.len(),
        place_of(entries, name) < entries.len() ==> entries[place_of(entries, name)].0@ == name,
        forall|j: int| 0 <= j < place_of(entries, name) ==> (#[trigger] entries[j]).0@ != name,
    decreases entries.len(),
{
    if entries.len() > 0 && entries[0].0@ != name {
        let rest = entries.drop_first();
        place_is_first(rest, name);
        assert forall|j: int| 0 <= j < place_of(entries, name) implies (#[trigger] entries[j]).0@ != name by {
            if j > 0 {
                assert(rest[j - 1] == entries[j]);
            }
        }
    }
}

/// Whether no name occurs twice.
pub open spec fn names_differ<S>(entries: Seq<(String, S)>) -> bool {
    forall|i: int, j: int|
        0 <= i < j < entries.len() ==> (#[trigger] entries[i]).0@ != (#[trigger] entries[j]).0@
}

/// The sessions of a list, by name.
pub open spec fn sessions_in<S>(entries: Seq<(String, S)>) -> Map<Seq<char>, S> {
    Map::new(
        |name: Seq<char>| place_of(entries, name) < entries.len(),
        |name: Seq<char>| entries[place_of(entries, name)].1,
    )
}

/// What to do for someone who wants the session of a site.
#[derive(Debug)]
pub enum Admission {
    /// Take the session that is running.
    Reuse,
    /// Start a browser on this port.
    Launch { exe: String, port: u16 },
}

/// What is left to do to forget a login.
#[derive(Debug)]
pub enum Forgetting<S> {
    /// Stop this session, then remove its profile directory.
    Stop(S),
    /// Remove the directory of this name, if there is one.
    Remove(String),
}

/// How a session spends its time.
#[derive(Debug)]
pub struct Nap {
    pub name: String,
    pub dormant: bool,
    /// How long nobody has come back, in milliseconds.
    pub idle: u64,
}

/// Whether a session has slept for so long that it is to be closed. A limit of 0
/// means that none ever is.
pub open spec fn is_overdue(nap: Nap, limit_secs: u64) -> bool {
    limit_secs != 0 && nap.dormant && nap.idle >= limit_secs * 1000
}

/// The names of the sessions to close.
pub open spec fn overdue_names(naps: Seq<Nap>, limit_secs: u64) -> Seq<Seq<char>>
    decreases naps.len(),
{
    if naps.len() == 0 {
        Seq::empty()
    } else if is_overdue(naps.last(), limit_secs) {
        overdue_names(naps.drop_last(), limit_secs).push(naps.last().name@)
    } else {
        overdue_names(naps.drop_last(), limit_secs)
    }
}

/// How the service is set up.
#[derive(Debug)]
pub struct CloudSettings {
    /// The browser's executable, if there is one.
    pub browser_exe: Option<String>,
    pub profile_root: String,
    pub port_base: u16,
    pub default_quality: u8,
    pub default_max_width: u32,
    pub default_max_height: u32,
    /// How long a session may sleep before it is closed, in seconds; 0 for ever.
    pub dormant_timeout_secs: u64,
}

/// The streaming service. `S` is what stands for a running session.
#[verifier::reject_recursive_types(S)]
pub struct CloudService<S> {
    settings: CloudSettings,
    entries: Vec<(String, S)>,
    next_port: u16,
}

impl<S> CloudService<S> {
    /// No site has two sessions.
    pub closed spec fn is_orderly(self) -> bool {
        names_differ(self.entries@)
    }

    /// The running sessions, by the names of their sites.
    pub closed spec fn running(self) -> Map<Seq<char>, S> {
        sessions_in(self.entries@)
    }

    /// How many browsers have been started, up to wrapping.
    pub closed spec fn starts(self) -> u16 {
        self.next_port
    }

    /// How the service is set up.
    pub closed spec fn set_up(self) -> CloudSettings {
        self.settings
    }

    /// A service with no session.
    pub fn new(
        browser_exe: Option<String>,
        profile_root: String,
        port_base: u16,
        quality: u8,
        max_width: u32,
        max_height: u32,
        dormant_timeout_secs: u64,
    ) -> (r: Self)
        ensures
            r.is_orderly(),
            r.running() == Map::<Seq<char>, S>::empty(),
            r.starts() == 0,
            r.set_up() == (CloudSettings {
                browser_exe,
                profile_root,
                port_base,
                default_quality: quality,
                default_max_width: max_width,
                default_max_height: max_height,
                dormant_timeout_secs,
            }),
    {
        let settings = CloudSettings {
            browser_exe,
            profile_root,
            port_base,
            default_quality: quality,
            default_max_width: max_width,
            default_max_height: max_height,
            dormant_timeout_secs,
        };
        let entries: Vec<(String, S)> = Vec::new();
        let r = CloudService { settings, entries, next_port: 0 };
        assert(r.running() =~= Map::<Seq<char>, S>::empty());
        r
    }

    /// How the service is set up.
    pub fn settings(&self) -> (r: &CloudSettings)
        ensures
            *r == self.set_up(),
    {
        &self.settings
    }

    /// Whether there is a browser to stream with.
    pub fn available(&self) -> (r: bool)
        ensures
            r == (self.set_up().browser_exe is Some),
    {
        self.settings.browser_exe.is_some()
    }

    fn place(&self, name: &str) -> (r: usize)
        ensures
            r == place_of(self.entries@, name@),
            r <= self.entries@.len(),
    {
        proof {
            place_is_first(self.entries@, name@);
        }
        let mut i: usize = 0;
        while i < self.entries.len()
            invariant
                i <= place_of(self.entries@, name@),
                0 <= place_of(self.entries@, name@) <= self.entries@.len(),
                place_of(self.entries@, name@) < self.entries@.len() ==> self.entries@[place_of(
                    self.entries@,
                    name@,
                )].0@ == name@,
                forall|j: int| 0 <= j < place_of(self.entries@, name@) ==> (#[trigger] self.entries@[j]).0@ != name@,
            decreases self.entries@.len() - i,
        {
            if same(self.entries[i].0.as_str(), name) {
                return i;
            }
            i += 1;
        }
        i
    }

    /// Whether a session of this site is running.
    pub fn is_running(&self, name: &str) -> (r: bool)
        ensures
            r == self.running().dom().contains(name@),
    {
        self.place(name) < self.entries.len()
    }

    /// The session of this site, if one is running.
    pub fn get(&self, name: &str) -> (r: Option<&S>)
        ensures
            r is Some == self.running().dom().contains(name@),
            r matches Some(s) ==> *s == self.running()[name@],
    {
        let i = self.place(name);
        if i < self.entries.len() {
            Some(&self.entries[i].1)
        } else {
            None
        }
    }

    /// Whether the port of the next start is one that there is.
    pub open spec fn port_fits(self) -> bool {
        port_of(self.set_up().port_base, self.starts()) <= u16::MAX
    }

    /// Whether the port of the next start is one that there is.
    pub fn has_port(&self) -> (r: bool)
        ensures
            r == self.port_fits(),
    {
        self.settings.port_base <= u16::MAX - self.next_port % PORTS
    }

    /// Decides on a request for the session of a site. `alive` tells of the session
    /// that is running, if one is, whether it still answers: one that does not is
    /// dropped, and a new one is due.
    pub fn session(&mut self, name: &str, alive: bool) -> (r: AppResult<Admission>)
        requires
            old(self).is_orderly(),
            !(old(self).running().dom().contains(name@) && alive) && old(self).set_up().browser_exe is Some
                ==> old(self).port_fits(),
        ensures
            final(self).is_orderly(),
            final(self).set_up() == old(self).set_up(),
            ({
                let was = *old(self);
                let is = *final(self);
                if was.running().dom().contains(name@) && alive {
                    r matches Ok(Admission::Reuse) && is.running() == was.running() && is.starts() == was.starts()
                } else {
                    &&& is.running() == was.running().remove(name@)
                    &&& match was.set_up().browser_exe {
                        Some(path) => {
                            &&& r matches Ok(Admission::Launch { exe, port })
                            &&& exe@ == path@
                            &&& port == port_of(was.set_up().port_base, was.starts())
                            &&& is.starts() == (if was.starts() == u16::MAX {
                                0
                            } else {
                                was.starts() + 1
                            })
                        },
                        None => {
                            &&& r matches Err(AppError::NotImplemented(what))
                            &&& what@ == "云游戏串流（没找到 Edge 或 Chrome）"@
                            &&& is.starts() == was.starts()
                        },
                    }
                }
            }),
    {
        if self.is_running(name) {
            if alive {
                return Ok(Admission::Reuse);
            }
            self.take(name);
        } else {
            assert(self.running().remove(name@) =~= self.running());
        }
        match &self.settings.browser_exe {
            Some(path) => {
                let exe = path.clone();
                let port = self.alloc_port();
                Ok(Admission::Launch { exe, port })
            },
            None => Err(AppError::NotImplemented("云游戏串流（没找到 Edge 或 Chrome）".to_owned())),
        }
    }

    fn alloc_port(&mut self) -> (r: u16)
        requires
            port_of(old(self).settings.port_base, old(self).next_port) <= u16::MAX,
        ensures
            r == port_of(old(self).settings.port_base, old(self).next_port),
            final(self).settings == old(self).settings,
            final(self).entries == old(self).entries,
            final(self).next_port == (if old(self).next_port == u16::MAX {
                0
            } else {
                old(self).next_port + 1
            }),
    {
        let n = self.next_port;
        self.next_port = n.wrapping_add(1);
        self.settings.port_base + n % PORTS
    }

    fn take(&mut self, name: &str) -> (r: Option<S>)
        requires
            old(self).is_orderly(),
        ensures
            final(self).is_orderly(),
            final(self).settings == old(self).settings,
            final(self).next_port == old(self).next_port,
            final(self).running() == old(self).running().remove(name@),
            r is Some == old(self).running().dom().contains(name@),
            r matches Some(s) ==> s == old(self).running()[name@],
    {
        let i = self.place(name);
        if i < self.entries.len() {
            let ghost was = self.entries@;
            let (_, s) = self.entries.remove(i);
            proof {
                let is = self.entries@;
                place_is_first(was, name@);
                assert forall|n: Seq<char>| n != name@ implies {
                    &&& (place_of(is, n) < is.len()) == (place_of(was, n) < was.len())
                    &&& place_of(is, n) < is.len() ==> is[place_of(is, n)].1 == was[place_of(was, n)].1
                } by {
                    place_is_first(was, n);
                    place_is_first(is, n);
                    let p = place_of(was, n);
                    let q = place_of(is, n);
                    if p < was.len() {
                        let p2 = if p < i {
                            p
                        } else {
                            p - 1
                        };
                        assert(is[p2] == was[p]);
                        assert(q <= p2);
                        let q2 = if q < i {
                            q
                        } else {
                            q + 1
                        };
                        assert(is[q] == was[q2]);
                    }
                    if q < is.len() {
                        let q2 = if q < i {
                            q
                        } else {
                            q + 1
                        };
                        assert(is[q] == was[q2]);
                    }
                }
                place_is_first(is, name@);
                let q = place_of(is, name@);
                if q < is.len() {
                    let q2 = if q < i {
                        q
                    } else {
                        q + 1
                    };
                    assert(is[q] == was[q2]);
                }
                assert(self.running() =~= old(self).running().remove(name@));
            }
            Some(s)
        } else {
            assert(self.running() =~= old(self).running().remove(name@));
            None
        }
    }

    /// Enters a session that has been started. One that was there gives way to it.
    pub fn insert(&mut self, name: String, session: S)
        requires
            old(self).is_orderly(),
        ensures
            final(self).is_orderly(),
            final(self).set_up() == old(self).set_up(),
            final(self).starts() == old(self).starts(),
            final(self).running() == old(self).running().insert(name@, session),
    {
        self.take(name.as_str());
        let ghost was = self.entries@;
        let ghost key = name@;
        assert(!self.running().dom().contains(key));
        proof {
            place_is_first(was, key);
        }
        self.entries.push((name, session));
        proof {
            let is = self.entries@;
            assert forall|n: Seq<char>| n != key implies place_of(is, n) == (if place_of(was, n) < was.len() {
                place_of(was, n)
            } else {
                is.len() as int
            }) by {
                place_is_first(was, n);
                place_is_first(is, n);
                assert forall|j: int| 0 <= j < was.len() implies is[j] == was[j] by {}
                let q = place_of(is, n);
                if place_of(was, n) < was.len() {
                    assert(is[place_of(was, n)].0@ == n);
                    assert(is[q].0@ == n);
                    if q < place_of(was, n) {
                        assert(was[q].0@ == n);
                    }
                } else if q < is.len() {
                    assert(is[q].0@ == n);
                    if q < was.len() {
                        assert(was[q].0@ == n);
                    }
                }
            }
            place_is_first(is, key);
            assert(is[was.len() as int].0@ == key);
            if place_of(is, key) < was.len() {
                assert(was[place_of(is, key)].0@ == key);
            }
            assert forall|n: Seq<char>| n != key && place_of(was, n) < was.len() implies #[trigger] sessions_in(is)[n]
                == sessions_in(was)[n] by {
                place_is_first(was, n);
                assert(is[place_of(was, n)] == was[place_of(was, n)]);
            }
            assert(sessions_in(is) =~= sessions_in(was).insert(key, session));
            assert(self.running() =~= old(self).running().insert(key, session));
        }
    }

    /// Takes a session out, for the caller to stop; `None` if the site has none.
    pub fn close(&mut self, name: &str) -> (r: Option<S>)
        requires
            old(self).is_orderly(),
        ensures
            final(self).is_orderly(),
            final(self).set_up() == old(self).set_up(),
            final(self).starts() == old(self).starts(),
            final(self).running() == old(self).running().remove(name@),
            r is Some == old(self).running().dom().contains(name@),
            r matches Some(s) ==> s == old(self).running()[name@],
    {
        self.take(name)
    }

    /// Takes a session out and says what is left to do to forget its login.
    pub fn forget(&mut self, name: &str) -> (r: Forgetting<S>)
        requires
            old(self).is_orderly(),
        ensures
            final(self).is_orderly(),
            final(self).set_up() == old(self).set_up(),
            final(self).starts() == old(self).starts(),
            final(self).running() == old(self).running().remove(name@),
            match r {
                Forgetting::Stop(s) => old(self).running().dom().contains(name@) && s == old(self).running()[name@],
                Forgetting::Remove(d) => !old(self).running().dom().contains(name@) && d@ == profile_name_of(name@),
            },
    {
        match self.take(name) {
            Some(s) => Forgetting::Stop(s),
            None => Forgetting::Remove(profile_name(name)),
        }
    }

    /// Takes all sessions out, for the caller to stop.
    pub fn close_all(&mut self) -> (r: Vec<(String, S)>)
        requires
            old(self).is_orderly(),
        ensures
            final(self).is_orderly(),
            final(self).set_up() == old(self).set_up(),
            final(self).starts() == old(self).starts(),
            final(self).running() == Map::<Seq<char>, S>::empty(),
            names_differ(r@),
            sessions_in(r@) == old(self).running(),
    {
        let mut r: Vec<(String, S)> = Vec::new();
        core::mem::swap(&mut self.entries, &mut r);
        assert(self.running() =~= Map::<Seq<char>, S>::empty());
        r
    }

    /// The running sessions, each with the name of its site.
    pub fn sessions(&self) -> (r: &Vec<(String, S)>)
        requires
            self.is_orderly(),
        ensures
            names_differ(r@),
            sessions_in(r@) == self.running(),
    {
        &self.entries
    }
}

/// Whether a session has slept for so long that it is to be closed.
pub fn overdue(nap: &Nap, limit_secs: u64) -> (r: bool)
    ensures
        r == is_overdue(*nap, limit_secs),
{
    limit_secs != 0 && nap.dormant && nap.idle as u128 >= limit_secs as u128 * 1000
}

/// The names of the sessions that have slept for too long.
pub fn all_overdue(naps: &Vec<Nap>, limit_secs: u64) -> (r: Vec<String>)
    ensures
        all_text(r@) == overdue_names(naps@, limit_secs),
{
    let mut r: Vec<String> = Vec::new();
    let mut i: usize = 0;
    assert(all_text(r@) =~= overdue_names(naps@.take(0), limit_secs));
    while i < naps.len()
        invariant
            i <= naps@.len(),
            all_text(r@) == overdue_names(naps@.take(i as int), limit_secs),
        decreases naps@.len() - i,
    {
        assert(naps@.take(i + 1).drop_last() =~= naps@.take(i as int));
        if overdue(&naps[i], limit_secs) {
            let ghost before = r@;
            r.push(naps[i].name.clone());
            assert(all_text(r@) =~= all_text(before).push(naps@[i as int].name@));
        }
        i += 1;
    }
    assert(naps@.take(naps@.len() as int) =~= naps@);
    r
}

/// Within one round no two browsers get the same port, and none gets a port outside
/// the range.
pub proof fn ports_take_turns(base: u16, n: u16, later: int)
    requires
        n < later < n + PORTS,
        later <= u16::MAX,
    ensures
        port_of(base, n) != port_of(base, later as u16),
        base <= port_of(base, n) < base + PORTS,
{
}

/// Where the limit is 0 no session is ever closed for having slept.
pub proof fn no_limit_spares_all(naps: Seq<Nap>)
    ensures
        overdue_names(naps, 0) == Seq::<Seq<char>>::empty(),
    decreases naps.len(),
{
    if naps.len() > 0 {
        no_limit_spares_all(naps.drop_last());
    }
}

/// A session that is closed for having slept sleeps, and has done so for the limit.
pub proof fn only_sleepers_are_closed(naps: Seq<Nap>, limit_secs: u64, k: int)
    requires
        0 <= k < overdue_names(naps, limit_secs).len(),
    ensures
        exists|i: int|
            0 <= i < naps.len() && (#[trigger] naps[i]).name@ == overdue_names(naps, limit_secs)[k] && naps[i].dormant
                && naps[i].idle >= limit_secs * 1000,
    decreases naps.len(),
{
    if naps.len() > 0 {
        let rest = naps.drop_last();
        if k < overdue_names(rest, limit_secs).len() {
            only_sleepers_are_closed(rest, limit_secs, k);
            let i = choose|i: int|
                0 <= i < rest.len() && (#[trigger] rest[i]).name@ == overdue_names(rest, limit_secs)[k]
                    && rest[i].dormant && rest[i].idle >= limit_secs * 1000;
            assert(naps[i] == rest[i]);
        } else {
            assert(naps[naps.len() - 1] == naps.last());
        }
    }
}

/// Every session that has slept for the limit, where there is one, is closed.
pub proof fn every_long_sleeper_is_closed(naps: Seq<Nap>, limit_secs: u64, i: int)
    requires
        0 <= i < naps.len(),
        limit_secs > 0,
        naps[i].dormant,
        naps[i].idle >= limit_secs * 1000,
    ensures
        overdue_names(naps, limit_secs).contains(naps[i].name@),
    decreases naps.len(),
{
    let rest = naps.drop_last();
    let before = overdue_names(rest, limit_secs);
    if i < rest.len() {
        assert(rest[i] == naps[i]);
        every_long_sleeper_is_closed(rest, limit_secs, i);
        let k = choose|k: int| 0 <= k < before.len() && before[k] == naps[i].name@;
        assert(overdue_names(naps, limit_secs)[k] == naps[i].name@);
    } else {
        assert(overdue_names(naps, limit_secs)[before.len() as int] == naps[i].name@);
    }
}

/// The sessions by name are those that are entered, each under its own name.
pub proof fn sessions_go_by_their_names<S>(entries: Seq<(String, S)>, i: int)
    requires
        names_differ(entries),
        0 <= i < entries.len(),
    ensures
        sessions_in(entries).dom().contains(entries[i].0@),
        sessions_in(entries)[entries[i].0@] == entries[i].1,
{
    let name = entries[i].0@;
    place_is_first(entries, name);
    let k = place_of(entries, name);
    if k < i {
        assert(entries[k].0@ != entries[i].0@);
    }
}

/// A name under which nothing is entered has no session.
pub proof fn no_entry_no_session<S>(entries: Seq<(String, S)>, name: Seq<char>)
    requires
        forall|i: int| 0 <= i < entries.len() ==> (#[trigger] entries[i]).0@ != name,
    ensures
        !sessions_in(entries).dom().contains(name),
{
    place_is_first(entries, name);
}

} // verus!
