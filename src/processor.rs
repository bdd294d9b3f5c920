//! Decisions of the command processor: the single command slot, the
//! debounce window over detected changes, and the end of a staged install.
use vstd::prelude::*;
use crate::sync::{
    installed_state, remote_view, status_of, Cache, LocalState, LocalView, ModRecord, RecordView,
    RemoteState, RemoteView, SyncStatus,
};

verus! {

/// Failure of a command, as its caller sees it.
#[derive(Clone, Debug, PartialEq, Eq)]
pub enum CommandError {
    /// No record has the identifier.
    NotFound,
    /// Fetching or staging the new content failed; nothing was changed.
    Staging(String),
    /// The response slot was dropped before use.
    BrokenChannel(String),
}

/// The capacity-one command channel: a command is accepted only once the
/// previous one has been answered. Tickets number the accepted commands.
pub struct CommandSlot {
    pub busy: Option<u64>,
    pub next_ticket: u64,
    /// The tickets answered so far, in the order of their answers.
    pub answered: Ghost<Seq<u64>>,
}

impl CommandSlot {
    pub open spec fn wf(&self) -> bool {
        &&& self.answered@.len() + (if self.busy is Some { 1int } else { 0int }) == self.next_ticket
        &&& forall|i: int| 0 <= i < self.answered@.len() ==> #[trigger] self.answered@[i] == i
        &&& self.busy matches Some(t) ==> t + 1 == self.next_ticket
    }

    pub fn new() -> (r: Self)
        ensures
            r.wf(),
            r.busy is None,
            r.next_ticket == 0,
    {
        CommandSlot { busy: None, next_ticket: 0, answered: Ghost(Seq::empty()) }
    }

    /// Offers a command: it is accepted, under a fresh ticket, only when the
    /// slot is free.
    pub fn accept(&mut self) -> (r: Option<u64>)
        requires
            old(self).wf(),
        ensures
            final(self).wf(),
            r is Some <==> (old(self).busy is None && old(self).next_ticket < u64::MAX),
            r matches Some(t) ==> t == old(self).next_ticket && final(self).busy == Some(t)
                && final(self).next_ticket == t + 1 && final(self).answered@
                == old(self).answered@,
            r is None ==> *final(self) == *old(self),
    {
        if self.busy.is_some() || self.next_ticket == u64::MAX {
            return None;
        }
        let t = self.next_ticket;
        self.busy = Some(t);
        self.next_ticket = t + 1;
        Some(t)
    }

    /// Answers the command in the slot, which frees it.
    pub fn respond(&mut self) -> (t: u64)
        requires
            old(self).wf(),
            old(self).busy is Some,
        ensures
            final(self).wf(),
            old(self).busy == Some(t),
            final(self).busy is None,
            final(self).next_ticket == old(self).next_ticket,
            final(self).answered@ == old(self).answered@.push(t),
    {
        let t = match self.busy {
            Some(t) => t,
            None => 0,
        };
        self.busy = None;
        self.answered = Ghost(self.answered@.push(t));
        t
    }
}

/// Commands are answered in the order in which they were accepted.
/// Of three commands accepted one after the other, the first is answered
/// first and the last is answered last.
pub proof fn lemma_answers_in_acceptance_order(s: CommandSlot)
    requires
        s.wf(),
    ensures
        forall|i: int, j: int|
            0 <= i < j < s.answered@.len() ==> #[trigger] s.answered@[i] < #[trigger] s.answered@[j],
        forall|i: int| 0 <= i < s.answered@.len() ==> #[trigger] s.answered@[i] == i,
{
}

/// A pending identifier and the time at which its window closes.
pub type Pending = (Seq<char>, u64);

/// The end of a window opened at `now`.
pub open spec fn deadline(now: u64, window: u64) -> u64 {
    if now as int + window as int > u64::MAX {
        u64::MAX
    } else {
        (now + window) as u64
    }
}

pub open spec fn is_pending(s: Seq<Pending>, id: Seq<char>) -> bool {
    exists|k: int| 0 <= k < s.len() && s[k].0 == id
}

/// A detected change for `id` at `now`: it opens a window unless one is
/// already open for `id`, with which it coalesces.
pub open spec fn debounce_event(s: Seq<Pending>, id: Seq<char>, now: u64, window: u64) -> Seq<Pending> {
    if is_pending(s, id) {
        s
    } else {
        s.push((id, deadline(now, window)))
    }
}

/// The identifiers whose window has closed by `now`, in the order they arrived.
pub open spec fn due(s: Seq<Pending>, now: u64) -> Seq<Seq<char>>
    decreases s.len(),
{
    if s.len() == 0 {
        Seq::empty()
    } else if s.last().1 <= now {
        due(s.drop_last(), now).push(s.last().0)
    } else {
        due(s.drop_last(), now)
    }
}

/// The entries whose window is still open at `now`.
pub open spec fn not_due(s: Seq<Pending>, now: u64) -> Seq<Pending>
    decreases s.len(),
{
    if s.len() == 0 {
        Seq::empty()
    } else if s.last().1 <= now {
        not_due(s.drop_last(), now)
    } else {
        not_due(s.drop_last(), now).push(s.last())
    }
}

pub open spec fn pending_view(v: Seq<(String, u64)>) -> Seq<Pending> {
    v.map_values(|e: (String, u64)| (e.0@, e.1))
}

pub open spec fn strings_view(v: Seq<String>) -> Seq<Seq<char>> {
    v.map_values(|s: String| s@)
}

/// Coalesces detected changes per identifier over a window.
pub struct Debouncer {
    pub window: u64,
    pub pending: Vec<(String, u64)>,
}

impl View for Debouncer {
    type V = Seq<Pending>;

    open spec fn view(&self) -> Seq<Pending> {
        pending_view(self.pending@)
    }
}

impl Debouncer {
    pub fn new(window: u64) -> (r: Self)
        ensures
            r.window == window,
            r@ == Seq::<Pending>::empty(),
    {
        let r = Debouncer { window, pending: Vec::new() };
        assert(r@ =~= Seq::<Pending>::empty());
        r
    }

    /// A detected change for `id` arrived at `now`.
    pub fn on_event(&mut self, id: &String, now: u64)
        ensures
            final(self).window == old(self).window,
            final(self)@ == debounce_event(old(self)@, id@, now, old(self).window),
    {
        let ghost s = self@;
        let mut k: usize = 0;
        while k < self.pending.len()
            invariant
                0 <= k <= self.pending@.len(),
                s == pending_view(self.pending@),
                forall|m: int| 0 <= m < k ==> #[trigger] s[m].0 != id@,
            decreases self.pending@.len() - k,
        {
            if self.pending[k].0 == *id {
                assert(s[k as int].0 == id@);
                return;
            }
            k = k + 1;
        }
        let d = if now > u64::MAX - self.window {
            u64::MAX
        } else {
            now + self.window
        };
        self.pending.push((id.clone(), d));
        assert(self@ =~= s.push((id@, deadline(now, self.window))));
    }

    /// Closes the windows that end by `now`: returns their identifiers, in
    /// arrival order, and keeps the others pending.
    pub fn flush(&mut self, now: u64) -> (r: Vec<String>)
        ensures
            final(self).window == old(self).window,
            strings_view(r@) == due(old(self)@, now),
            final(self)@ == not_due(old(self)@, now),
    {
        let ghost s = self@;
        let mut out: Vec<String> = Vec::new();
        let mut keep: Vec<(String, u64)> = Vec::new();
        let mut i: usize = 0;
        while i < self.pending.len()
            invariant
                0 <= i <= self.pending@.len(),
                s == pending_view(self.pending@),
                strings_view(out@) == due(s.subrange(0, i as int), now),
                pending_view(keep@) == not_due(s.subrange(0, i as int), now),
            decreases self.pending@.len() - i,
        {
            let ghost sub = s.subrange(0, i + 1);
            assert(sub.drop_last() == s.subrange(0, i as int));
            assert(sub.last() == s[i as int]);
            let e = &self.pending[i];
            if e.1 <= now {
                out.push(e.0.clone());
                assert(strings_view(out@) =~= due(sub, now));
            } else {
                keep.push((e.0.clone(), e.1));
                assert(pending_view(keep@) =~= not_due(sub, now));
            }
            i = i + 1;
        }
        assert(s.subrange(0, s.len() as int) == s);
        self.pending = keep;
        out
    }
}

/// A burst of detected changes for one identifier, at the given times.
pub open spec fn burst(s: Seq<Pending>, id: Seq<char>, times: Seq<u64>, window: u64) -> Seq<Pending>
    decreases times.len(),
{
    if times.len() == 0 {
        s
    } else {
        debounce_event(burst(s, id, times.drop_last(), window), id, times.last(), window)
    }
}

/// How many times `id` occurs in `q`.
pub open spec fn occurrences(q: Seq<Seq<char>>, id: Seq<char>) -> nat
    decreases q.len(),
{
    if q.len() == 0 {
        0
    } else {
        occurrences(q.drop_last(), id) + if q.last() == id {
            1nat
        } else {
            0nat
        }
    }
}

proof fn lemma_burst_single_entry(s: Seq<Pending>, id: Seq<char>, times: Seq<u64>, window: u64)
    requires
        !is_pending(s, id),
        times.len() > 0,
    ensures
        burst(s, id, times, window) == s.push((id, deadline(times[0], window))),
    decreases times.len(),
{
    if times.len() == 1 {
        assert(times.drop_last() == Seq::<u64>::empty());
        assert(burst(s, id, times.drop_last(), window) == s);
        assert(times.last() == times[0]);
    } else {
        let t = times.drop_last();
        assert(t[0] == times[0]);
        lemma_burst_single_entry(s, id, t, window);
        let b = s.push((id, deadline(times[0], window)));
        assert(b[s.len() as int].0 == id);
        assert(is_pending(b, id));
    }
}

proof fn lemma_due_absent(s: Seq<Pending>, id: Seq<char>, now: u64)
    requires
        !is_pending(s, id),
    ensures
        occurrences(due(s, now), id) == 0,
    decreases s.len(),
{
    if s.len() > 0 {
        let t = s.drop_last();
        assert(!is_pending(t, id)) by {
            if is_pending(t, id) {
                let k = choose|k: int| 0 <= k < t.len() && t[k].0 == id;
                assert(s[k] == t[k]);
            }
        }
        lemma_due_absent(t, id, now);
        assert(s[s.len() - 1].0 != id);
        if s.last().1 <= now {
            assert(due(s, now).drop_last() == due(t, now));
        }
    }
}

/// A burst of detected changes for one identifier that is not
/// pending, however many and whenever they come, leaves one window open,
/// which closes a window after the first change. A flush once it has closed
/// yields the identifier exactly once; a flush before yields it not at all.
pub proof fn lemma_burst_resolves_once(
    s: Seq<Pending>,
    id: Seq<char>,
    times: Seq<u64>,
    window: u64,
    now: u64,
)
    requires
        !is_pending(s, id),
        times.len() > 0,
    ensures
        occurrences(due(burst(s, id, times, window), now), id) == if deadline(times[0], window)
            <= now {
            1nat
        } else {
            0nat
        },
{
    lemma_burst_single_entry(s, id, times, window);
    let b = s.push((id, deadline(times[0], window)));
    assert(b.drop_last() == s);
    lemma_due_absent(s, id, now);
    if deadline(times[0], window) <= now {
        assert(due(b, now).drop_last() == due(s, now));
    }
}

/// A resolved change, announced to subscribers.
#[derive(Clone, Debug, PartialEq, Eq)]
pub enum ChangeEvent {
    Added(String),
    Updated(String),
    Removed(String),
}

/// Resolves a detected change of `id` against the cache: whether the
/// subscribers hear of an added, updated or removed mod, or of nothing.
pub fn resolve_change(cache: &Cache, id: &String, known_before: bool) -> (r: Option<ChangeEvent>)
    requires
        cache.wf(),
    ensures
        cache@.contains_key(id@) && !known_before ==> (r matches Some(ChangeEvent::Added(x)) && x@
            == id@),
        cache@.contains_key(id@) && known_before ==> (r matches Some(ChangeEvent::Updated(x)) && x@
            == id@),
        !cache@.contains_key(id@) && known_before ==> (r matches Some(ChangeEvent::Removed(x)) && x@
            == id@),
        !cache@.contains_key(id@) && !known_before ==> r is None,
{
    let known_now = cache.get(id).is_some();
    if known_now && !known_before {
        Some(ChangeEvent::Added(id.clone()))
    } else if known_now {
        Some(ChangeEvent::Updated(id.clone()))
    } else if known_before {
        Some(ChangeEvent::Removed(id.clone()))
    } else {
        None
    }
}

/// The response to Get: the current record, or not-found.
pub fn get_command(cache: &Cache, id: &String) -> (r: Result<ModRecord, CommandError>)
    requires
        cache.wf(),
    ensures
        r is Ok <==> cache@.contains_key(id@),
        r matches Ok(rec) ==> rec.id@ == id@ && rec@ == cache@[id@],
        r matches Err(e) ==> e == CommandError::NotFound,
{
    match cache.get(id) {
        Some(rec) => Ok(rec),
        None => Err(CommandError::NotFound),
    }
}

/// The response to Remove: the local artifact to delete (none when the mod
/// is not on disk), or not-found.
pub fn remove_command(cache: &Cache, id: &String) -> (r: Result<Option<String>, CommandError>)
    requires
        cache.wf(),
    ensures
        r is Ok <==> cache@.contains_key(id@),
        r matches Ok(p) ==> match cache@[id@].local {
            Some(l) => p matches Some(x) && x@ == l.path,
            None => p is None,
        },
        r matches Err(e) ==> e == CommandError::NotFound,
{
    match cache.remove_target(id) {
        Some(p) => Ok(p),
        None => Err(CommandError::NotFound),
    }
}

/// Where a staged install goes next: its content replaces the destination, or
/// the staging area is discarded and the destination is left as it was.
#[derive(Clone, Copy, Debug, PartialEq, Eq)]
pub enum Promotion {
    Promote,
    Discard,
}

/// How staging new content for a mod ended.
pub enum StageOutcome {
    /// The content is fully staged and goes to `local`. For a catalog source,
    /// `remote` is the catalog state it was fetched from, whose file it is.
    Staged { local: LocalState, remote: Option<RemoteState> },
    /// Staging failed; the reason.
    Failed(String),
}

/// The install tree, as the content under each mod identifier, after a
/// promotion decision about staged content `staged` for `id`.
pub open spec fn promoted(tree: Map<Seq<char>, Seq<u8>>, id: Seq<char>, staged: Seq<u8>, p: Promotion) -> Map<
    Seq<char>,
    Seq<u8>,
> {
    match p {
        Promotion::Promote => tree.insert(id, staged),
        Promotion::Discard => tree,
    }
}

pub open spec fn promotion_of(o: StageOutcome) -> Promotion {
    match o {
        StageOutcome::Staged { .. } => Promotion::Promote,
        StageOutcome::Failed(_) => Promotion::Discard,
    }
}

/// Ends an install or update of `id`: on success the cache records the new
/// file and the staged content is promoted; on failure nothing changes and
/// the staging area is discarded.
pub fn conclude_install(cache: &mut Cache, id: &String, outcome: StageOutcome) -> (r: (
    Promotion,
    Result<ModRecord, CommandError>,
))
    requires
        old(cache).wf(),
    ensures
        final(cache).wf(),
        r.0 == promotion_of(outcome),
        final(cache).local_done == old(cache).local_done,
        final(cache).remote_done == old(cache).remote_done,
        outcome is Failed ==> final(cache)@ == old(cache)@,
        outcome is Failed ==> (r.1 matches Err(CommandError::Staging(_))),
        outcome matches StageOutcome::Staged { local, remote } ==> final(cache)@ == installed_state(
            old(cache)@,
            id@,
            local@,
            remote_view(remote),
        ),
        outcome is Staged ==> (r.1 matches Ok(rec) && rec.id@ == id@ && rec@ == final(cache)@[id@]),
        outcome is Staged ==> final(cache)@.contains_key(id@) && final(cache)@[id@].local is Some,
        outcome matches StageOutcome::Staged { remote: Some(_), .. } ==> status_of(
            final(cache)@[id@],
        ) == SyncStatus::InSync,
{
    match outcome {
        StageOutcome::Staged { local, remote } => {
            cache.record_install(id, &local, &remote);
            let rec = cache.get(id);
            match rec {
                Some(rec) => (Promotion::Promote, Ok(rec)),
                None => (Promotion::Promote, Err(CommandError::NotFound)),
            }
        },
        StageOutcome::Failed(reason) => (Promotion::Discard, Err(CommandError::Staging(reason))),
    }
}

/// When staging fails, the destination's content is what it was
/// before the command.
pub proof fn lemma_failed_stage_keeps_content(
    tree: Map<Seq<char>, Seq<u8>>,
    id: Seq<char>,
    staged: Seq<u8>,
    reason: String,
)
    ensures
        promoted(tree, id, staged, promotion_of(StageOutcome::Failed(reason))) == tree,
{
}

/// Updating twice to the same remote file leaves the same content and the
/// same record as updating once.
pub proof fn lemma_repeated_update_idempotent(
    tree: Map<Seq<char>, Seq<u8>>,
    m: Map<Seq<char>, RecordView>,
    id: Seq<char>,
    content: Seq<u8>,
    local: LocalView,
    remote: RemoteView,
)
    ensures
        promoted(promoted(tree, id, content, Promotion::Promote), id, content, Promotion::Promote)
            == promoted(tree, id, content, Promotion::Promote),
        installed_state(installed_state(m, id, local, Some(remote)), id, local, Some(remote))
            == installed_state(m, id, local, Some(remote)),
        installed_state(m, id, local, Some(remote))[id].installed == Some(remote.file_id),
        status_of(installed_state(m, id, local, Some(remote))[id]) == SyncStatus::InSync,
{
    assert(promoted(promoted(tree, id, content, Promotion::Promote), id, content, Promotion::Promote)
        =~= promoted(tree, id, content, Promotion::Promote));
    assert(installed_state(installed_state(m, id, local, Some(remote)), id, local, Some(remote))
        =~= installed_state(m, id, local, Some(remote)));
}

} // verus!
