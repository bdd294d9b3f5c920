//! The canonical mod cache: one record per mod identifier, merging what the
//! local scan and the remote poll observed, with the readiness gate.
use vstd::prelude::*;

verus! {

/// A mod as found on local disk.
#[derive(Clone, Debug, PartialEq, Eq)]
pub struct LocalState {
    pub path: String,
    pub fingerprint: u64,
}

/// A mod as the remote catalog publishes it.
#[derive(Clone, Debug, PartialEq, Eq)]
pub struct RemoteState {
    pub code: String,
    pub file_id: String,
    pub download_url: String,
    pub logo_url: Option<String>,
}

pub struct LocalView {
    pub path: Seq<char>,
    pub fingerprint: u64,
}

pub struct RemoteView {
    pub code: Seq<char>,
    pub file_id: Seq<char>,
    pub download_url: Seq<char>,
    pub logo_url: Option<Seq<char>>,
}

/// The merged state of one identifier.
pub struct RecordView {
    pub local: Option<LocalView>,
    pub remote: Option<RemoteView>,
    /// The file id of the last install this engine performed.
    pub installed: Option<Seq<char>>,
}

impl View for LocalState {
    type V = LocalView;

    open spec fn view(&self) -> LocalView {
        LocalView { path: self.path@, fingerprint: self.fingerprint }
    }
}

pub open spec fn opt_view(o: Option<String>) -> Option<Seq<char>> {
    match o {
        Some(s) => Some(s@),
        None => None,
    }
}

impl View for RemoteState {
    type V = RemoteView;

    open spec fn view(&self) -> RemoteView {
        RemoteView {
            code: self.code@,
            file_id: self.file_id@,
            download_url: self.download_url@,
            logo_url: opt_view(self.logo_url),
        }
    }
}

pub open spec fn local_view(o: Option<LocalState>) -> Option<LocalView> {
    match o {
        Some(s) => Some(s@),
        None => None,
    }
}

pub open spec fn remote_view(o: Option<RemoteState>) -> Option<RemoteView> {
    match o {
        Some(s) => Some(s@),
        None => None,
    }
}

fn copy_string_opt(o: &Option<String>) -> (r: Option<String>)
    ensures
        opt_view(r) == opt_view(*o),
{
    match o {
        Some(s) => Some(s.clone()),
        None => None,
    }
}

impl LocalState {
    pub fn duplicate(&self) -> (r: LocalState)
        ensures
            r@ == self@,
    {
        LocalState { path: self.path.clone(), fingerprint: self.fingerprint }
    }
}

impl RemoteState {
    pub fn duplicate(&self) -> (r: RemoteState)
        ensures
            r@ == self@,
    {
        RemoteState {
            code: self.code.clone(),
            file_id: self.file_id.clone(),
            download_url: self.download_url.clone(),
            logo_url: copy_string_opt(&self.logo_url),
        }
    }
}

/// Where a record stands between the two sides.
#[derive(Clone, Copy, Debug, PartialEq, Eq)]
pub enum SyncStatus {
    LocalOnly,
    RemoteOnly,
    InSync,
    UpdateAvailable,
    /// Installed by this engine, not yet seen by the local scan.
    Installing,
}

/// The status of a record: a function of its two sides and its last install.
pub open spec fn status_of(r: RecordView) -> SyncStatus {
    match (r.local, r.remote) {
        (None, _) => if r.installed is Some {
            SyncStatus::Installing
        } else {
            SyncStatus::RemoteOnly
        },
        (Some(_), None) => SyncStatus::LocalOnly,
        (Some(_), Some(rem)) => if r.installed == Some(rem.file_id) {
            SyncStatus::InSync
        } else {
            SyncStatus::UpdateAvailable
        },
    }
}

/// A record still has a reason to exist: the mod is on disk or in the catalog.
pub open spec fn is_present(r: RecordView) -> bool {
    r.local is Some || r.remote is Some
}

/// The cache's record of one mod.
pub struct ModRecord {
    pub id: String,
    pub local: Option<LocalState>,
    pub remote: Option<RemoteState>,
    pub installed_file_id: Option<String>,
}

impl View for ModRecord {
    type V = RecordView;

    open spec fn view(&self) -> RecordView {
        RecordView {
            local: local_view(self.local),
            remote: remote_view(self.remote),
            installed: opt_view(self.installed_file_id),
        }
    }
}

fn copy_local_opt(o: &Option<LocalState>) -> (r: Option<LocalState>)
    ensures
        local_view(r) == local_view(*o),
{
    match o {
        Some(s) => Some(s.duplicate()),
        None => None,
    }
}

fn copy_remote_opt(o: &Option<RemoteState>) -> (r: Option<RemoteState>)
    ensures
        remote_view(r) == remote_view(*o),
{
    match o {
        Some(s) => Some(s.duplicate()),
        None => None,
    }
}

impl ModRecord {
    pub fn duplicate(&self) -> (r: ModRecord)
        ensures
            r.id@ == self.id@,
            r@ == self@,
    {
        ModRecord {
            id: self.id.clone(),
            local: copy_local_opt(&self.local),
            remote: copy_remote_opt(&self.remote),
            installed_file_id: copy_string_opt(&self.installed_file_id),
        }
    }

    pub fn sync_status(&self) -> (s: SyncStatus)
        ensures
            s == status_of(self@),
    {
        match (&self.local, &self.remote) {
            (None, _) => if self.installed_file_id.is_some() {
                SyncStatus::Installing
            } else {
                SyncStatus::RemoteOnly
            },
            (Some(_), None) => SyncStatus::LocalOnly,
            (Some(_), Some(rem)) => match &self.installed_file_id {
                Some(f) => if *f == rem.file_id {
                    SyncStatus::InSync
                } else {
                    SyncStatus::UpdateAvailable
                },
                None => SyncStatus::UpdateAvailable,
            },
        }
    }
}

pub open spec fn ids_unique(s: Seq<ModRecord>) -> bool {
    forall|i: int, j: int| 0 <= i < j < s.len() ==> s[i].id@ != s[j].id@
}

/// The map from identifier to record state that a list of records stands for.
pub open spec fn records_map(s: Seq<ModRecord>) -> Map<Seq<char>, RecordView>
    decreases s.len(),
{
    if s.len() == 0 {
        Map::empty()
    } else {
        records_map(s.drop_last()).insert(s.last().id@, s.last()@)
    }
}

proof fn lemma_records_map(s: Seq<ModRecord>)
    requires
        ids_unique(s),
    ensures
        forall|i: int|
            0 <= i < s.len() ==> #[trigger] records_map(s).contains_key(s[i].id@) && records_map(
                s,
            )[s[i].id@] == s[i]@,
        forall|id: Seq<char>|
            #[trigger] records_map(s).contains_key(id) ==> exists|i: int|
                0 <= i < s.len() && s[i].id@ == id,
    decreases s.len(),
{
    if s.len() > 0 {
        let t = s.drop_last();
        lemma_records_map(t);
        assert forall|i: int| 0 <= i < s.len() implies #[trigger] records_map(s).contains_key(
            s[i].id@,
        ) && records_map(s)[s[i].id@] == s[i]@ by {
            if i < s.len() - 1 {
                assert(t[i] == s[i]);
                assert(s[i].id@ != s[s.len() - 1].id@);
                assert(records_map(t).contains_key(t[i].id@));
            }
        }
        assert forall|id: Seq<char>| #[trigger] records_map(s).contains_key(id) implies exists|
            i: int,
        | 0 <= i < s.len() && s[i].id@ == id by {
            if id != s.last().id@ {
                assert(records_map(t).contains_key(id));
                let i = choose|i: int| 0 <= i < t.len() && t[i].id@ == id;
                assert(s[i] == t[i]);
            } else {
                assert(s[s.len() - 1].id@ == id);
            }
        }
    }
}

/// One mod found by a local scan.
pub struct LocalEntry {
    pub id: String,
    pub state: LocalState,
}

/// What a local scan says of an identifier: the first entry that names it.
pub open spec fn first_local(scan: Seq<LocalEntry>, id: Seq<char>) -> Option<LocalView>
    decreases scan.len(),
{
    if scan.len() == 0 {
        None
    } else if scan[0].id@ == id {
        Some(scan[0].state@)
    } else {
        first_local(scan.drop_first(), id)
    }
}

proof fn lemma_first_local(scan: Seq<LocalEntry>, id: Seq<char>, j: int)
    requires
        0 <= j <= scan.len(),
        forall|k: int| 0 <= k < j ==> scan[k].id@ != id,
        j < scan.len() ==> scan[j].id@ == id,
    ensures
        first_local(scan, id) == if j < scan.len() {
            Some(scan[j].state@)
        } else {
            None::<LocalView>
        },
    decreases j,
{
    if j > 0 {
        let t = scan.drop_first();
        assert forall|k: int| 0 <= k < j - 1 implies t[k].id@ != id by {
            assert(t[k] == scan[k + 1]);
        }
        if j < scan.len() {
            assert(t[j - 1] == scan[j]);
        }
        lemma_first_local(t, id, j - 1);
    }
}

proof fn lemma_first_local_some(scan: Seq<LocalEntry>, id: Seq<char>)
    requires
        first_local(scan, id) is Some,
    ensures
        exists|j: int| 0 <= j < scan.len() && scan[j].id@ == id,
    decreases scan.len(),
{
    if scan[0].id@ != id {
        let t = scan.drop_first();
        lemma_first_local_some(t, id);
        let j = choose|j: int| 0 <= j < t.len() && t[j].id@ == id;
        assert(scan[j + 1] == t[j]);
    }
}

pub open spec fn with_local(r: RecordView, l: Option<LocalView>) -> RecordView {
    RecordView { local: l, remote: r.remote, installed: if l is Some { r.installed } else { None } }
}

/// The local side of an identifier in a cache state.
pub open spec fn local_at(m: Map<Seq<char>, RecordView>, id: Seq<char>) -> Option<LocalView> {
    if m.contains_key(id) {
        m[id].local
    } else {
        None
    }
}

/// The cache state after a local pass: every identifier's local side is what
/// the poll found; a record with nothing left on either side goes away.
pub open spec fn local_pass(m: Map<Seq<char>, RecordView>, scan: Seq<LocalEntry>) -> Map<
    Seq<char>,
    RecordView,
> {
    Map::new(
        |id: Seq<char>|
            (m.contains_key(id) && is_present(with_local(m[id], first_local(scan, id))))
                || first_local(scan, id) is Some,
        |id: Seq<char>|
            if m.contains_key(id) {
                with_local(m[id], first_local(scan, id))
            } else {
                RecordView { local: first_local(scan, id), remote: None, installed: None }
            },
    )
}

fn same_local(a: &Option<LocalState>, b: &Option<LocalState>) -> (r: bool)
    ensures
        r == (local_view(*a) == local_view(*b)),
{
    match (a, b) {
        (Some(x), Some(y)) => x.path == y.path && x.fingerprint == y.fingerprint,
        (None, None) => true,
        _ => false,
    }
}

fn find_local(scan: &Vec<LocalEntry>, id: &String) -> (r: Option<usize>)
    ensures
        first_local(scan@, id@) == match r {
            Some(j) => Some(scan@[j as int].state@),
            None => None::<LocalView>,
        },
        r matches Some(j) ==> j < scan@.len() && scan@[j as int].id@ == id@,
{
    let mut j: usize = 0;
    while j < scan.len()
        invariant
            0 <= j <= scan@.len(),
            forall|k: int| 0 <= k < j ==> scan@[k].id@ != id@,
        decreases scan@.len() - j,
    {
        if scan[j].id == *id {
            proof {
                lemma_first_local(scan@, id@, j as int);
            }
            return Some(j);
        }
        j = j + 1;
    }
    proof {
        lemma_first_local(scan@, id@, j as int);
    }
    None
}

/// One mod found by a remote poll.
pub struct RemoteEntry {
    pub id: String,
    pub state: RemoteState,
}

/// What a remote poll says of an identifier: the first entry that names it.
pub open spec fn first_remote(scan: Seq<RemoteEntry>, id: Seq<char>) -> Option<RemoteView>
    decreases scan.len(),
{
    if scan.len() == 0 {
        None
    } else if scan[0].id@ == id {
        Some(scan[0].state@)
    } else {
        first_remote(scan.drop_first(), id)
    }
}

proof fn lemma_first_remote(scan: Seq<RemoteEntry>, id: Seq<char>, j: int)
    requires
        0 <= j <= scan.len(),
        forall|k: int| 0 <= k < j ==> scan[k].id@ != id,
        j < scan.len() ==> scan[j].id@ == id,
    ensures
        first_remote(scan, id) == if j < scan.len() {
            Some(scan[j].state@)
        } else {
            None::<RemoteView>
        },
    decreases j,
{
    if j > 0 {
        let t = scan.drop_first();
        assert forall|k: int| 0 <= k < j - 1 implies t[k].id@ != id by {
            assert(t[k] == scan[k + 1]);
        }
        if j < scan.len() {
            assert(t[j - 1] == scan[j]);
        }
        lemma_first_remote(t, id, j - 1);
    }
}

proof fn lemma_first_remote_some(scan: Seq<RemoteEntry>, id: Seq<char>)
    requires
        first_remote(scan, id) is Some,
    ensures
        exists|j: int| 0 <= j < scan.len() && scan[j].id@ == id,
    decreases scan.len(),
{
    if scan[0].id@ != id {
        let t = scan.drop_first();
        lemma_first_remote_some(t, id);
        let j = choose|j: int| 0 <= j < t.len() && t[j].id@ == id;
        assert(scan[j + 1] == t[j]);
    }
}

pub open spec fn with_remote(r: RecordView, l: Option<RemoteView>) -> RecordView {
    RecordView { local: r.local, remote: l, installed: r.installed }
}

/// The remote side of an identifier in a cache state.
pub open spec fn remote_at(m: Map<Seq<char>, RecordView>, id: Seq<char>) -> Option<RemoteView> {
    if m.contains_key(id) {
        m[id].remote
    } else {
        None
    }
}

/// The cache state after a remote pass: every identifier's remote side is what
/// the poll found; a record with nothing left on either side goes away.
pub open spec fn remote_pass(m: Map<Seq<char>, RecordView>, scan: Seq<RemoteEntry>) -> Map<
    Seq<char>,
    RecordView,
> {
    Map::new(
        |id: Seq<char>|
            (m.contains_key(id) && is_present(with_remote(m[id], first_remote(scan, id))))
                || first_remote(scan, id) is Some,
        |id: Seq<char>|
            if m.contains_key(id) {
                with_remote(m[id], first_remote(scan, id))
            } else {
                RecordView { local: None, remote: first_remote(scan, id), installed: None }
            },
    )
}

fn same_string_opt(a: &Option<String>, b: &Option<String>) -> (r: bool)
    ensures
        r == (opt_view(*a) == opt_view(*b)),
{
    match (a, b) {
        (Some(x), Some(y)) => *x == *y,
        (None, None) => true,
        _ => false,
    }
}

fn same_remote(a: &Option<RemoteState>, b: &Option<RemoteState>) -> (r: bool)
    ensures
        r == (remote_view(*a) == remote_view(*b)),
{
    match (a, b) {
        (Some(x), Some(y)) => x.code == y.code && x.file_id == y.file_id && x.download_url
            == y.download_url && same_string_opt(&x.logo_url, &y.logo_url),
        (None, None) => true,
        _ => false,
    }
}

fn find_remote(scan: &Vec<RemoteEntry>, id: &String) -> (r: Option<usize>)
    ensures
        first_remote(scan@, id@) == match r {
            Some(j) => Some(scan@[j as int].state@),
            None => None::<RemoteView>,
        },
        r matches Some(j) ==> j < scan@.len() && scan@[j as int].id@ == id@,
{
    let mut j: usize = 0;
    while j < scan.len()
        invariant
            0 <= j <= scan@.len(),
            forall|k: int| 0 <= k < j ==> scan@[k].id@ != id@,
        decreases scan@.len() - j,
    {
        if scan[j].id == *id {
            proof {
                lemma_first_remote(scan@, id@, j as int);
            }
            return Some(j);
        }
        j = j + 1;
    }
    proof {
        lemma_first_remote(scan@, id@, j as int);
    }
    None
}

/// The position of the record for `id`, if there is one.
pub fn find_record(records: &Vec<ModRecord>, id: &String) -> (r: Option<usize>)
    ensures
        r matches Some(k) ==> k < records@.len() && records@[k as int].id@ == id@,
        r is None ==> forall|k: int| 0 <= k < records@.len() ==> records@[k].id@ != id@,
{
    let mut k: usize = 0;
    while k < records.len()
        invariant
            0 <= k <= records@.len(),
            forall|m: int| 0 <= m < k ==> records@[m].id@ != id@,
        decreases records@.len() - k,
    {
        if records[k].id == *id {
            return Some(k);
        }
        k = k + 1;
    }
    None
}

/// The canonical map, the only state that the scan loops and the commands share.
pub struct Cache {
    pub records: Vec<ModRecord>,
    /// A local pass has completed.
    pub local_done: bool,
    /// A remote pass has completed.
    pub remote_done: bool,
}

impl View for Cache {
    type V = Map<Seq<char>, RecordView>;

    open spec fn view(&self) -> Map<Seq<char>, RecordView> {
        records_map(self.records@)
    }
}

impl Cache {
    pub open spec fn wf(&self) -> bool {
        &&& ids_unique(self.records@)
        &&& forall|i: int| 0 <= i < self.records@.len() ==> is_present(#[trigger] self.records@[i]@)
    }

    /// An empty cache whose readiness gate is closed.
    pub fn new() -> (r: Cache)
        ensures
            r.wf(),
            r@ == Map::<Seq<char>, RecordView>::empty(),
            !r.is_ready(),
    {
        Cache { records: Vec::new(), local_done: false, remote_done: false }
    }

    /// The readiness gate: both loops have completed a pass.
    pub open spec fn is_ready(&self) -> bool {
        self.local_done && self.remote_done
    }

    pub fn ready(&self) -> (r: bool)
        ensures
            r == self.is_ready(),
    {
        self.local_done && self.remote_done
    }

    /// Applies a local scan. Returns each identifier whose local side changed,
    /// once.
    #[verifier::rlimit(100)]
    pub fn apply_local_scan(&mut self, scan: &Vec<LocalEntry>) -> (changed: Vec<String>)
        requires
            old(self).wf(),
        ensures
            final(self).wf(),
            final(self)@ == local_pass(old(self)@, scan@),
            final(self).local_done,
            final(self).remote_done == old(self).remote_done,
            forall|k: int|
                0 <= k < changed@.len() ==> local_at(old(self)@, #[trigger] changed@[k]@)
                    != first_local(scan@, changed@[k]@),
            forall|id: Seq<char>|
                local_at(old(self)@, id) != first_local(scan@, id) ==> has_str(changed@, id),
            strs_unique(changed@),
    {
        let ghost old_recs = self.records@;
        let ghost m = records_map(old_recs);
        let ghost lp = local_pass(m, scan@);
        proof {
            lemma_records_map(old_recs);
            assert forall|a: int| 0 <= a < old_recs.len() implies m.contains_key(
                #[trigger] old_recs[a].id@,
            ) && m[old_recs[a].id@] == old_recs[a]@ by {
                assert(records_map(old_recs).contains_key(old_recs[a].id@));
            }
        }
        let mut out: Vec<ModRecord> = Vec::new();
        let mut changed: Vec<String> = Vec::new();
        let mut i: usize = 0;
        while i < self.records.len()
            invariant
                self.records@ == old_recs,
                m == records_map(old_recs),
                lp == local_pass(m, scan@),
                ids_unique(old_recs),
                forall|a: int|
                    0 <= a < old_recs.len() ==> m.contains_key(#[trigger] old_recs[a].id@)
                        && m[old_recs[a].id@] == old_recs[a]@,
                0 <= i <= old_recs.len(),
                ids_unique(out@),
                strs_unique(changed@),
                forall|k: int|
                    0 <= k < changed@.len() ==> has_id(
                        old_recs.subrange(0, i as int),
                        #[trigger] changed@[k]@,
                    ),
                forall|k: int|
                    0 <= k < out@.len() ==> has_id(old_recs.subrange(0, i as int), #[trigger] out@[k].id@),
                forall|k: int|
                    0 <= k < out@.len() ==> lp.contains_key(#[trigger] out@[k].id@) && out@[k]@
                        == lp[out@[k].id@],
                forall|a: int|
                    0 <= a < i && lp.contains_key(#[trigger] old_recs[a].id@) ==> has_id(
                        out@,
                        old_recs[a].id@,
                    ),
                forall|k: int|
                    0 <= k < changed@.len() ==> local_at(m, #[trigger] changed@[k]@) != first_local(
                        scan@,
                        changed@[k]@,
                    ),
                forall|a: int|
                    0 <= a < i && local_at(m, #[trigger] old_recs[a].id@) != first_local(
                        scan@,
                        old_recs[a].id@,
                    ) ==> has_str(changed@, old_recs[a].id@),
            decreases old_recs.len() - i,
        {
            let rec = &self.records[i];
            let found = find_local(scan, &rec.id);
            let new_local = match found {
                Some(j) => Some(scan[j].state.duplicate()),
                None => None,
            };
            let ghost id = rec.id@;
            let ghost out0 = out@;
            let ghost changed0 = changed@;
            proof {
                lemma_has_id_extend(old_recs.subrange(0, i as int), old_recs.subrange(0, i + 1));
                assert(old_recs.subrange(0, i + 1)[i as int] == old_recs[i as int]);
            }
            if !same_local(&rec.local, &new_local) {
                proof {
                    assert forall|k: int| 0 <= k < changed@.len() implies changed@[k]@ != id by {
                        let sub = old_recs.subrange(0, i as int);
                        assert(has_id(sub, changed@[k]@));
                        let a = choose|a: int| 0 <= a < sub.len() && sub[a].id@ == changed@[k]@;
                        assert(sub[a] == old_recs[a]);
                    }
                }
                changed.push(rec.id.clone());
                proof {
                    lemma_has_str_push(changed0, changed@.last());
                    assert(old_recs.subrange(0, i + 1)[i as int].id@ == id);
                    assert forall|k: int| 0 <= k < changed@.len() implies has_id(
                        old_recs.subrange(0, i + 1),
                        #[trigger] changed@[k]@,
                    ) by {
                        if k < changed0.len() {
                            assert(changed@[k] == changed0[k]);
                        }
                    }
                }
            }
            if new_local.is_some() || rec.remote.is_some() {
                let installed = if new_local.is_some() {
                    copy_string_opt(&rec.installed_file_id)
                } else {
                    None
                };
                let nr = ModRecord {
                    id: rec.id.clone(),
                    local: new_local,
                    remote: copy_remote_opt(&rec.remote),
                    installed_file_id: installed,
                };
                proof {
                    assert forall|k: int| 0 <= k < out@.len() implies out@[k].id@ != id by {
                        let sub = old_recs.subrange(0, i as int);
                        assert(has_id(sub, out@[k].id@));
                        let a = choose|a: int| 0 <= a < sub.len() && sub[a].id@ == out@[k].id@;
                        assert(sub[a] == old_recs[a]);
                    }
                }
                out.push(nr);
                proof {
                    lemma_has_id_push(out0, nr);
                }
            }
            i = i + 1;
        }
        proof {
            assert(old_recs.subrange(0, old_recs.len() as int) == old_recs);
            assert forall|k: int| 0 <= k < changed@.len() implies #[trigger] m.contains_key(
                changed@[k]@,
            ) by {
                assert(has_id(old_recs, changed@[k]@));
                let a = choose|a: int| 0 <= a < old_recs.len() && old_recs[a].id@ == changed@[k]@;
                assert(m.contains_key(old_recs[a].id@));
            }
        }
        let mut j: usize = 0;
        while j < scan.len()
            invariant
                m == records_map(old_recs),
                lp == local_pass(m, scan@),
                forall|a: int|
                    0 <= a < old_recs.len() ==> m.contains_key(#[trigger] old_recs[a].id@)
                        && m[old_recs[a].id@] == old_recs[a]@,
                forall|id: Seq<char>| #[trigger] m.contains_key(id) ==> has_id(old_recs, id),
                0 <= j <= scan@.len(),
                ids_unique(out@),
                strs_unique(changed@),
                forall|k: int|
                    0 <= k < changed@.len() ==> #[trigger] m.contains_key(changed@[k]@) || has_id(
                        out@,
                        changed@[k]@,
                    ),
                forall|k: int|
                    0 <= k < out@.len() ==> lp.contains_key(#[trigger] out@[k].id@) && out@[k]@
                        == lp[out@[k].id@],
                forall|a: int|
                    0 <= a < old_recs.len() && lp.contains_key(#[trigger] old_recs[a].id@)
                        ==> has_id(out@, old_recs[a].id@),
                forall|b: int| 0 <= b < j ==> has_id(out@, #[trigger] scan@[b].id@),
                forall|k: int|
                    0 <= k < out@.len() && !m.contains_key(#[trigger] out@[k].id@) ==> has_str(
                        changed@,
                        out@[k].id@,
                    ),
                forall|k: int|
                    0 <= k < changed@.len() ==> local_at(m, #[trigger] changed@[k]@) != first_local(
                        scan@,
                        changed@[k]@,
                    ),
                forall|a: int|
                    0 <= a < old_recs.len() && local_at(m, #[trigger] old_recs[a].id@)
                        != first_local(scan@, old_recs[a].id@) ==> has_str(changed@, old_recs[a].id@),
            decreases scan@.len() - j,
        {
            let id = &scan[j].id;
            let ghost out0 = out@;
            let ghost changed0 = changed@;
            match find_record(&out, id) {
                Some(_) => {},
                None => {
                    proof {
                        assert forall|b: int| 0 <= b < j implies scan@[b].id@ != id@ by {
                            assert(has_id(out@, scan@[b].id@));
                        }
                        lemma_first_local(scan@, id@, j as int);
                        if m.contains_key(id@) {
                            assert(has_id(old_recs, id@));
                            let a = choose|a: int| 0 <= a < old_recs.len() && old_recs[a].id@ == id@;
                            assert(lp.contains_key(old_recs[a].id@));
                        }
                    }
                    let nr = ModRecord {
                        id: id.clone(),
                        local: Some(scan[j].state.duplicate()),
                        remote: None,
                        installed_file_id: None,
                    };
                    proof {
                        assert(!m.contains_key(id@));
                        assert forall|k: int| 0 <= k < changed@.len() implies changed@[k]@ != id@ by {
                            if has_id(out@, changed@[k]@) {
                                let c = choose|c: int| 0 <= c < out@.len() && out@[c].id@ == changed@[k]@;
                            }
                        }
                    }
                    out.push(nr);
                    changed.push(id.clone());
                    proof {
                        lemma_has_id_push(out0, nr);
                        lemma_has_str_push(changed0, changed@.last());
                        assert forall|k: int| 0 <= k < changed@.len() implies #[trigger] m.contains_key(
                            changed@[k]@,
                        ) || has_id(out@, changed@[k]@) by {
                            if k < changed0.len() {
                                assert(changed@[k] == changed0[k]);
                            }
                        }
                    }
                },
            }
            j = j + 1;
        }
        proof {
            lemma_records_map(out@);
            let nm = records_map(out@);
            assert forall|id: Seq<char>| #[trigger] nm.dom().contains(id) == lp.dom().contains(id)
                && (lp.contains_key(id) ==> nm[id] == lp[id]) by {
                if lp.contains_key(id) {
                    if m.contains_key(id) {
                        assert(has_id(old_recs, id));
                        let a = choose|a: int| 0 <= a < old_recs.len() && old_recs[a].id@ == id;
                        assert(lp.contains_key(old_recs[a].id@));
                    } else {
                        lemma_first_local_some(scan@, id);
                        let b = choose|b: int| 0 <= b < scan@.len() && scan@[b].id@ == id;
                        assert(has_id(out@, scan@[b].id@));
                    }
                    assert(has_id(out@, id));
                    let k = choose|k: int| 0 <= k < out@.len() && out@[k].id@ == id;
                    assert(nm.contains_key(out@[k].id@));
                }
                if nm.contains_key(id) {
                    let k = choose|k: int| 0 <= k < out@.len() && out@[k].id@ == id;
                    assert(lp.contains_key(out@[k].id@));
                }
            }
            assert(nm =~= lp);
            assert forall|id: Seq<char>| local_at(m, id) != first_local(scan@, id) implies has_str(
                changed@,
                id,
            ) by {
                if m.contains_key(id) {
                    assert(has_id(old_recs, id));
                    let a = choose|a: int| 0 <= a < old_recs.len() && old_recs[a].id@ == id;
                    assert(local_at(m, old_recs[a].id@) != first_local(scan@, old_recs[a].id@));
                } else {
                    lemma_first_local_some(scan@, id);
                    let b = choose|b: int| 0 <= b < scan@.len() && scan@[b].id@ == id;
                    assert(has_id(out@, scan@[b].id@));
                    let k = choose|k: int| 0 <= k < out@.len() && out@[k].id@ == id;
                    assert(!m.contains_key(out@[k].id@));
                }
            }
            assert forall|k: int| 0 <= k < out@.len() implies is_present(#[trigger] out@[k]@) by {
                assert(lp.contains_key(out@[k].id@));
            }
        }
        self.records = out;
        self.local_done = true;
        changed
    }

    /// Applies a remote poll. Returns each identifier whose remote side changed,
    /// once.
    #[verifier::rlimit(100)]
    pub fn apply_remote_scan(&mut self, scan: &Vec<RemoteEntry>) -> (changed: Vec<String>)
        requires
            old(self).wf(),
        ensures
            final(self).wf(),
            final(self)@ == remote_pass(old(self)@, scan@),
            final(self).remote_done,
            final(self).local_done == old(self).local_done,
            forall|k: int|
                0 <= k < changed@.len() ==> remote_at(old(self)@, #[trigger] changed@[k]@)
                    != first_remote(scan@, changed@[k]@),
            forall|id: Seq<char>|
                remote_at(old(self)@, id) != first_remote(scan@, id) ==> has_str(changed@, id),
            strs_unique(changed@),
    {
        let ghost old_recs = self.records@;
        let ghost m = records_map(old_recs);
        let ghost lp = remote_pass(m, scan@);
        proof {
            lemma_records_map(old_recs);
            assert forall|a: int| 0 <= a < old_recs.len() implies m.contains_key(
                #[trigger] old_recs[a].id@,
            ) && m[old_recs[a].id@] == old_recs[a]@ by {
                assert(records_map(old_recs).contains_key(old_recs[a].id@));
            }
        }
        let mut out: Vec<ModRecord> = Vec::new();
        let mut changed: Vec<String> = Vec::new();
        let mut i: usize = 0;
        while i < self.records.len()
            invariant
                self.records@ == old_recs,
                m == records_map(old_recs),
                lp == remote_pass(m, scan@),
                ids_unique(old_recs),
                forall|a: int|
                    0 <= a < old_recs.len() ==> m.contains_key(#[trigger] old_recs[a].id@)
                        && m[old_recs[a].id@] == old_recs[a]@,
                0 <= i <= old_recs.len(),
                ids_unique(out@),
                strs_unique(changed@),
                forall|k: int|
                    0 <= k < changed@.len() ==> has_id(
                        old_recs.subrange(0, i as int),
                        #[trigger] changed@[k]@,
                    ),
                forall|k: int|
                    0 <= k < out@.len() ==> has_id(old_recs.subrange(0, i as int), #[trigger] out@[k].id@),
                forall|k: int|
                    0 <= k < out@.len() ==> lp.contains_key(#[trigger] out@[k].id@) && out@[k]@
                        == lp[out@[k].id@],
                forall|a: int|
                    0 <= a < i && lp.contains_key(#[trigger] old_recs[a].id@) ==> has_id(
                        out@,
                        old_recs[a].id@,
                    ),
                forall|k: int|
                    0 <= k < changed@.len() ==> remote_at(m, #[trigger] changed@[k]@) != first_remote(
                        scan@,
                        changed@[k]@,
                    ),
                forall|a: int|
                    0 <= a < i && remote_at(m, #[trigger] old_recs[a].id@) != first_remote(
                        scan@,
                        old_recs[a].id@,
                    ) ==> has_str(changed@, old_recs[a].id@),
            decreases old_recs.len() - i,
        {
            let rec = &self.records[i];
            let found = find_remote(scan, &rec.id);
            let new_remote = match found {
                Some(j) => Some(scan[j].state.duplicate()),
                None => None,
            };
            let ghost id = rec.id@;
            let ghost out0 = out@;
            let ghost changed0 = changed@;
            proof {
                lemma_has_id_extend(old_recs.subrange(0, i as int), old_recs.subrange(0, i + 1));
                assert(old_recs.subrange(0, i + 1)[i as int] == old_recs[i as int]);
            }
            if !same_remote(&rec.remote, &new_remote) {
                proof {
                    assert forall|k: int| 0 <= k < changed@.len() implies changed@[k]@ != id by {
                        let sub = old_recs.subrange(0, i as int);
                        assert(has_id(sub, changed@[k]@));
                        let a = choose|a: int| 0 <= a < sub.len() && sub[a].id@ == changed@[k]@;
                        assert(sub[a] == old_recs[a]);
                    }
                }
                changed.push(rec.id.clone());
                proof {
                    lemma_has_str_push(changed0, changed@.last());
                    assert(old_recs.subrange(0, i + 1)[i as int].id@ == id);
                    assert forall|k: int| 0 <= k < changed@.len() implies has_id(
                        old_recs.subrange(0, i + 1),
                        #[trigger] changed@[k]@,
                    ) by {
                        if k < changed0.len() {
                            assert(changed@[k] == changed0[k]);
                        }
                    }
                }
            }
            if new_remote.is_some() || rec.local.is_some() {
                let nr = ModRecord {
                    id: rec.id.clone(),
                    local: copy_local_opt(&rec.local),
                    remote: new_remote,
                    installed_file_id: copy_string_opt(&rec.installed_file_id),
                };
                proof {
                    assert forall|k: int| 0 <= k < out@.len() implies out@[k].id@ != id by {
                        let sub = old_recs.subrange(0, i as int);
                        assert(has_id(sub, out@[k].id@));
                        let a = choose|a: int| 0 <= a < sub.len() && sub[a].id@ == out@[k].id@;
                        assert(sub[a] == old_recs[a]);
                    }
                }
                out.push(nr);
                proof {
                    lemma_has_id_push(out0, nr);
                }
            }
            i = i + 1;
        }
        proof {
            assert(old_recs.subrange(0, old_recs.len() as int) == old_recs);
            assert forall|k: int| 0 <= k < changed@.len() implies #[trigger] m.contains_key(
                changed@[k]@,
            ) by {
                assert(has_id(old_recs, changed@[k]@));
                let a = choose|a: int| 0 <= a < old_recs.len() && old_recs[a].id@ == changed@[k]@;
                assert(m.contains_key(old_recs[a].id@));
            }
        }
        let mut j: usize = 0;
        while j < scan.len()
            invariant
                m == records_map(old_recs),
                lp == remote_pass(m, scan@),
                forall|a: int|
                    0 <= a < old_recs.len() ==> m.contains_key(#[trigger] old_recs[a].id@)
                        && m[old_recs[a].id@] == old_recs[a]@,
                forall|id: Seq<char>| #[trigger] m.contains_key(id) ==> has_id(old_recs, id),
                0 <= j <= scan@.len(),
                ids_unique(out@),
                strs_unique(changed@),
                forall|k: int|
                    0 <= k < changed@.len() ==> #[trigger] m.contains_key(changed@[k]@) || has_id(
                        out@,
                        changed@[k]@,
                    ),
                forall|k: int|
                    0 <= k < out@.len() ==> lp.contains_key(#[trigger] out@[k].id@) && out@[k]@
                        == lp[out@[k].id@],
                forall|a: int|
                    0 <= a < old_recs.len() && lp.contains_key(#[trigger] old_recs[a].id@)
                        ==> has_id(out@, old_recs[a].id@),
                forall|b: int| 0 <= b < j ==> has_id(out@, #[trigger] scan@[b].id@),
                forall|k: int|
                    0 <= k < out@.len() && !m.contains_key(#[trigger] out@[k].id@) ==> has_str(
                        changed@,
                        out@[k].id@,
                    ),
                forall|k: int|
                    0 <= k < changed@.len() ==> remote_at(m, #[trigger] changed@[k]@) != first_remote(
                        scan@,
                        changed@[k]@,
                    ),
                forall|a: int|
                    0 <= a < old_recs.len() && remote_at(m, #[trigger] old_recs[a].id@)
                        != first_remote(scan@, old_recs[a].id@) ==> has_str(changed@, old_recs[a].id@),
            decreases scan@.len() - j,
        {
            let id = &scan[j].id;
            let ghost out0 = out@;
            let ghost changed0 = changed@;
            match find_record(&out, id) {
                Some(_) => {},
                None => {
                    proof {
                        assert forall|b: int| 0 <= b < j implies scan@[b].id@ != id@ by {
                            assert(has_id(out@, scan@[b].id@));
                        }
                        lemma_first_remote(scan@, id@, j as int);
                        if m.contains_key(id@) {
                            assert(has_id(old_recs, id@));
                            let a = choose|a: int| 0 <= a < old_recs.len() && old_recs[a].id@ == id@;
                            assert(lp.contains_key(old_recs[a].id@));
                        }
                    }
                    let nr = ModRecord {
                        id: id.clone(),
                        local: None,
                        remote: Some(scan[j].state.duplicate()),
                        installed_file_id: None,
                    };
                    proof {
                        assert(!m.contains_key(id@));
                        assert forall|k: int| 0 <= k < changed@.len() implies changed@[k]@ != id@ by {
                            if has_id(out@, changed@[k]@) {
                                let c = choose|c: int| 0 <= c < out@.len() && out@[c].id@ == changed@[k]@;
                            }
                        }
                    }
                    out.push(nr);
                    changed.push(id.clone());
                    proof {
                        lemma_has_id_push(out0, nr);
                        lemma_has_str_push(changed0, changed@.last());
                        assert forall|k: int| 0 <= k < changed@.len() implies #[trigger] m.contains_key(
                            changed@[k]@,
                        ) || has_id(out@, changed@[k]@) by {
                            if k < changed0.len() {
                                assert(changed@[k] == changed0[k]);
                            }
                        }
                    }
                },
            }
            j = j + 1;
        }
        proof {
            lemma_records_map(out@);
            let nm = records_map(out@);
            assert forall|id: Seq<char>| #[trigger] nm.dom().contains(id) == lp.dom().contains(id)
                && (lp.contains_key(id) ==> nm[id] == lp[id]) by {
                if lp.contains_key(id) {
                    if m.contains_key(id) {
                        assert(has_id(old_recs, id));
                        let a = choose|a: int| 0 <= a < old_recs.len() && old_recs[a].id@ == id;
                        assert(lp.contains_key(old_recs[a].id@));
                    } else {
                        lemma_first_remote_some(scan@, id);
                        let b = choose|b: int| 0 <= b < scan@.len() && scan@[b].id@ == id;
                        assert(has_id(out@, scan@[b].id@));
                    }
                    assert(has_id(out@, id));
                    let k = choose|k: int| 0 <= k < out@.len() && out@[k].id@ == id;
                    assert(nm.contains_key(out@[k].id@));
                }
                if nm.contains_key(id) {
                    let k = choose|k: int| 0 <= k < out@.len() && out@[k].id@ == id;
                    assert(lp.contains_key(out@[k].id@));
                }
            }
            assert(nm =~= lp);
            assert forall|id: Seq<char>| remote_at(m, id) != first_remote(scan@, id) implies has_str(
                changed@,
                id,
            ) by {
                if m.contains_key(id) {
                    assert(has_id(old_recs, id));
                    let a = choose|a: int| 0 <= a < old_recs.len() && old_recs[a].id@ == id;
                    assert(remote_at(m, old_recs[a].id@) != first_remote(scan@, old_recs[a].id@));
                } else {
                    lemma_first_remote_some(scan@, id);
                    let b = choose|b: int| 0 <= b < scan@.len() && scan@[b].id@ == id;
                    assert(has_id(out@, scan@[b].id@));
                    let k = choose|k: int| 0 <= k < out@.len() && out@[k].id@ == id;
                    assert(!m.contains_key(out@[k].id@));
                }
            }
            assert forall|k: int| 0 <= k < out@.len() implies is_present(#[trigger] out@[k]@) by {
                assert(lp.contains_key(out@[k].id@));
            }
        }
        self.records = out;
        self.remote_done = true;
        changed
    }
}

/// The record state after this engine installed content for `id`: it now
/// lies at `local`; when it came from the catalog, `remote` is what was
/// fetched and its file is the installed one.
pub open spec fn installed_state(
    m: Map<Seq<char>, RecordView>,
    id: Seq<char>,
    local: LocalView,
    remote: Option<RemoteView>,
) -> Map<Seq<char>, RecordView> {
    let prev = if m.contains_key(id) {
        m[id]
    } else {
        RecordView { local: None, remote: None, installed: None }
    };
    m.insert(
        id,
        RecordView {
            local: Some(local),
            remote: if remote is Some {
                remote
            } else {
                prev.remote
            },
            installed: match remote {
                Some(r) => Some(r.file_id),
                None => None,
            },
        },
    )
}

fn installed_file(remote: &Option<RemoteState>) -> (r: Option<String>)
    ensures
        opt_view(r) == match remote_view(*remote) {
            Some(rv) => Some(rv.file_id),
            None => None::<Seq<char>>,
        },
{
    match remote {
        Some(rs) => Some(rs.file_id.clone()),
        None => None,
    }
}

impl Cache {
    /// The current record for `id`.
    pub fn get(&self, id: &String) -> (r: Option<ModRecord>)
        requires
            self.wf(),
        ensures
            r is Some <==> self@.contains_key(id@),
            r matches Some(rec) ==> rec.id@ == id@ && rec@ == self@[id@],
    {
        proof {
            lemma_records_map(self.records@);
        }
        match find_record(&self.records, id) {
            Some(k) => {
                proof {
                    assert(records_map(self.records@).contains_key(self.records@[k as int].id@));
                }
                Some(self.records[k].duplicate())
            },
            None => {
                proof {
                    if self@.contains_key(id@) {
                        let k = choose|k: int| 0 <= k < self.records@.len() && self.records@[k].id@ == id@;
                    }
                }
                None
            },
        }
    }

    /// All current records.
    pub fn list(&self) -> (r: Vec<ModRecord>)
        requires
            self.wf(),
        ensures
            ids_unique(r@),
            records_map(r@) == self@,
    {
        let mut out: Vec<ModRecord> = Vec::new();
        let mut i: usize = 0;
        while i < self.records.len()
            invariant
                0 <= i <= self.records@.len(),
                out@.len() == i,
                forall|k: int|
                    0 <= k < i ==> #[trigger] out@[k].id@ == self.records@[k].id@ && out@[k]@
                        == self.records@[k]@,
            decreases self.records@.len() - i,
        {
            out.push(self.records[i].duplicate());
            i = i + 1;
        }
        proof {
            lemma_same_records_map(out@, self.records@);
        }
        out
    }

    /// What removing `id` deletes: the local artifact's path, if the mod is on
    /// disk. The record itself goes once a scan confirms the absence.
    pub fn remove_target(&self, id: &String) -> (r: Option<Option<String>>)
        requires
            self.wf(),
        ensures
            r is Some <==> self@.contains_key(id@),
            r matches Some(p) ==> match self@[id@].local {
                Some(l) => p matches Some(x) && x@ == l.path,
                None => p is None,
            },
    {
        proof {
            lemma_records_map(self.records@);
        }
        match find_record(&self.records, id) {
            Some(k) => {
                proof {
                    assert(records_map(self.records@).contains_key(self.records@[k as int].id@));
                }
                match &self.records[k].local {
                    Some(l) => Some(Some(l.path.clone())),
                    None => Some(None),
                }
            },
            None => {
                proof {
                    if self@.contains_key(id@) {
                        let k = choose|k: int| 0 <= k < self.records@.len() && self.records@[k].id@ == id@;
                    }
                }
                None
            },
        }
    }

    /// Records an install of `id` that left its content at `local`; `remote`
    /// is the catalog state it was fetched from, if it came from the catalog.
    pub fn record_install(&mut self, id: &String, local: &LocalState, remote: &Option<RemoteState>)
        requires
            old(self).wf(),
        ensures
            final(self).wf(),
            final(self)@ == installed_state(old(self)@, id@, local@, remote_view(*remote)),
            final(self).local_done == old(self).local_done,
            final(self).remote_done == old(self).remote_done,
    {
        proof {
            lemma_records_map(self.records@);
        }
        let ghost m = self@;
        match find_record(&self.records, id) {
            Some(k) => {
                let rec = &self.records[k];
                let new_remote = match remote {
                    Some(r) => Some(r.duplicate()),
                    None => copy_remote_opt(&rec.remote),
                };
                let nr = ModRecord {
                    id: rec.id.clone(),
                    local: Some(local.duplicate()),
                    remote: new_remote,
                    installed_file_id: installed_file(remote),
                };
                let ghost old_recs = self.records@;
                self.records.set(k, nr);
                proof {
                    assert forall|i: int, j: int|
                        0 <= i < j < self.records@.len() implies self.records@[i].id@
                        != self.records@[j].id@ by {
                        assert(old_recs[i].id@ != old_recs[j].id@);
                    }
                    lemma_records_map(self.records@);
                    lemma_map_after_set(old_recs, k as int, nr);
                }
            },
            None => {
                let nr = ModRecord {
                    id: id.clone(),
                    local: Some(local.duplicate()),
                    remote: copy_remote_opt(remote),
                    installed_file_id: installed_file(remote),
                };
                let ghost old_recs = self.records@;
                self.records.push(nr);
                proof {
                    assert(self.records@.drop_last() == old_recs);
                    if m.contains_key(id@) {
                        let k = choose|k: int| 0 <= k < old_recs.len() && old_recs[k].id@ == id@;
                    }
                    assert(self@ =~= installed_state(m, id@, local@, remote_view(*remote)));
                }
            },
        }
    }
}

proof fn lemma_same_records_map(s: Seq<ModRecord>, t: Seq<ModRecord>)
    requires
        s.len() == t.len(),
        forall|k: int| 0 <= k < s.len() ==> #[trigger] s[k].id@ == t[k].id@ && s[k]@ == t[k]@,
    ensures
        records_map(s) == records_map(t),
        ids_unique(t) ==> ids_unique(s),
    decreases s.len(),
{
    if s.len() > 0 {
        lemma_same_records_map(s.drop_last(), t.drop_last());
        assert(s.last().id@ == t.last().id@);
    }
    if ids_unique(t) {
        assert forall|i: int, j: int| 0 <= i < j < s.len() implies s[i].id@ != s[j].id@ by {
            assert(s[i].id@ == t[i].id@ && s[j].id@ == t[j].id@);
        }
    }
}

proof fn lemma_map_after_set(s: Seq<ModRecord>, k: int, x: ModRecord)
    requires
        0 <= k < s.len(),
        ids_unique(s),
        x.id@ == s[k].id@,
    ensures
        records_map(s.update(k, x)) == records_map(s).insert(x.id@, x@),
    decreases s.len(),
{
    let u = s.update(k, x);
    if k == s.len() - 1 {
        assert(u.drop_last() == s.drop_last());
        assert(records_map(s.drop_last()).insert(x.id@, x@) =~= records_map(s.drop_last()).insert(
            s.last().id@,
            s.last()@,
        ).insert(x.id@, x@));
    } else {
        assert(u.drop_last() == s.drop_last().update(k, x));
        lemma_map_after_set(s.drop_last(), k, x);
        assert(s.last().id@ != x.id@);
        assert(records_map(u) =~= records_map(s).insert(x.id@, x@));
    }
}

/// A first local pass, over a cache in which no record has a local side yet,
/// removes no record: a listing after it holds every record listed before.
pub proof fn lemma_first_local_pass_keeps_records(m: Map<Seq<char>, RecordView>, scan: Seq<LocalEntry>)
    requires
        forall|id: Seq<char>| #[trigger] m.contains_key(id) ==> is_present(m[id]) && m[id].local is None,
    ensures
        m.dom().subset_of(local_pass(m, scan).dom()),
{
    assert forall|id: Seq<char>| m.dom().contains(id) implies #[trigger] local_pass(
        m,
        scan,
    ).dom().contains(id) by {
        assert(m.contains_key(id));
    }
}

/// A first remote pass, over a cache in which no record has a remote side yet,
/// removes no record.
pub proof fn lemma_first_remote_pass_keeps_records(m: Map<Seq<char>, RecordView>, scan: Seq<RemoteEntry>)
    requires
        forall|id: Seq<char>| #[trigger] m.contains_key(id) ==> is_present(m[id]) && m[id].remote is None,
    ensures
        m.dom().subset_of(remote_pass(m, scan).dom()),
{
    assert forall|id: Seq<char>| m.dom().contains(id) implies #[trigger] remote_pass(
        m,
        scan,
    ).dom().contains(id) by {
        assert(m.contains_key(id));
    }
}

/// A local pass, at any point, keeps every record that the catalog still
/// lists or that the scan still finds: a listing shrinks only by mods gone
/// from both disk and catalog.
pub proof fn lemma_local_pass_keeps_listed(m: Map<Seq<char>, RecordView>, scan: Seq<LocalEntry>)
    ensures
        forall|id: Seq<char>|
            #[trigger] m.contains_key(id) && (m[id].remote is Some || first_local(scan, id) is Some)
                ==> local_pass(m, scan).contains_key(id),
        forall|id: Seq<char>| first_local(scan, id) is Some ==> #[trigger] local_pass(m, scan).contains_key(id),
{
}

/// A remote pass, at any point, keeps every record that is still on disk or
/// that the poll still finds.
pub proof fn lemma_remote_pass_keeps_listed(m: Map<Seq<char>, RecordView>, scan: Seq<RemoteEntry>)
    ensures
        forall|id: Seq<char>|
            #[trigger] m.contains_key(id) && (m[id].local is Some || first_remote(scan, id) is Some)
                ==> remote_pass(m, scan).contains_key(id),
        forall|id: Seq<char>| first_remote(scan, id) is Some ==> #[trigger] remote_pass(m, scan).contains_key(id),
{
}

/// From an empty cache, whichever of the two first passes runs first, every
/// record listed before the readiness gate opens is still listed after it.
pub proof fn lemma_listing_grows_until_ready(l: Seq<LocalEntry>, r: Seq<RemoteEntry>)
    ensures
        ({
            let a = local_pass(Map::empty(), l);
            a.dom().subset_of(remote_pass(a, r).dom())
        }),
        ({
            let b = remote_pass(Map::empty(), r);
            b.dom().subset_of(local_pass(b, l).dom())
        }),
{
    let a = local_pass(Map::empty(), l);
    assert forall|id: Seq<char>| #[trigger] a.contains_key(id) implies is_present(a[id])
        && a[id].remote is None by {}
    lemma_first_remote_pass_keeps_records(a, r);
    let b = remote_pass(Map::empty(), r);
    assert forall|id: Seq<char>| #[trigger] b.contains_key(id) implies is_present(b[id])
        && b[id].local is None by {}
    lemma_first_local_pass_keeps_records(b, l);
}

/// After a remove, a record that only had a local side is gone once a local
/// scan no longer finds the mod.
pub proof fn lemma_removed_local_only_record_leaves(
    m: Map<Seq<char>, RecordView>,
    id: Seq<char>,
    scan: Seq<LocalEntry>,
)
    requires
        m.contains_key(id),
        m[id].remote is None,
        first_local(scan, id) is None,
    ensures
        !local_pass(m, scan).contains_key(id),
{
}

/// No two strings of `s` read the same.
pub open spec fn strs_unique(s: Seq<String>) -> bool {
    forall|i: int, j: int| 0 <= i < j < s.len() ==> s[i]@ != s[j]@
}

/// Some record in `s` has identifier `id`.
pub open spec fn has_id(s: Seq<ModRecord>, id: Seq<char>) -> bool {
    exists|k: int| 0 <= k < s.len() && s[k].id@ == id
}

/// Some string in `s` reads `id`.
pub open spec fn has_str(s: Seq<String>, id: Seq<char>) -> bool {
    exists|k: int| 0 <= k < s.len() && s[k]@ == id
}

proof fn lemma_has_id_push(s: Seq<ModRecord>, x: ModRecord)
    ensures
        forall|id: Seq<char>| has_id(s, id) ==> #[trigger] has_id(s.push(x), id),
        has_id(s.push(x), x.id@),
{
    assert forall|id: Seq<char>| has_id(s, id) implies #[trigger] has_id(s.push(x), id) by {
        let k = choose|k: int| 0 <= k < s.len() && s[k].id@ == id;
        assert(s.push(x)[k] == s[k]);
    }
    assert(s.push(x)[s.len() as int] == x);
}

proof fn lemma_has_id_extend(s: Seq<ModRecord>, t: Seq<ModRecord>)
    requires
        s.len() <= t.len(),
        forall|k: int| 0 <= k < s.len() ==> s[k] == t[k],
    ensures
        forall|id: Seq<char>| has_id(s, id) ==> #[trigger] has_id(t, id),
{
    assert forall|id: Seq<char>| has_id(s, id) implies #[trigger] has_id(t, id) by {
        let k = choose|k: int| 0 <= k < s.len() && s[k].id@ == id;
        assert(t[k] == s[k]);
    }
}

proof fn lemma_has_str_push(s: Seq<String>, x: String)
    ensures
        forall|id: Seq<char>| has_str(s, id) ==> #[trigger] has_str(s.push(x), id),
        has_str(s.push(x), x@),
{
    assert forall|id: Seq<char>| has_str(s, id) implies #[trigger] has_str(s.push(x), id) by {
        let k = choose|k: int| 0 <= k < s.len() && s[k]@ == id;
        assert(s.push(x)[k] == s[k]);
    }
    assert(s.push(x)[s.len() as int] == x);
}

} // verus!
