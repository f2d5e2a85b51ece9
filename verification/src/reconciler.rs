//! The reconciler: the state machine that drives the index store to
//! convergence with the filesystem, through a full walk at startup and a
//! live canonical-change stream thereafter.
//!
//! The reconciler owns the store exclusively; every mutation passes
//! through it. Work that touches the filesystem — computing a change
//! token, extracting metadata — happens outside the library: the
//! reconciler hands out an [`ExtractRequest`] when extraction is due, and
//! the caller answers it through [`Reconciler::record_extraction`]. The
//! decision of *whether* to extract, and every store mutation, is made
//! here and verified against the specification functions below.

use vstd::prelude::*;
use crate::data::FrontMatterView;
use crate::events::{Change, ChangeView};
use crate::fingerprint::{ChangeToken, valid_root};
use crate::index::{IndexStore, Record, RecordView};

verus! {

/// The engine's lifecycle.
#[derive(Clone, Copy, PartialEq, Eq, Structural, Debug)]
pub enum EngineState {
    /// Created, not yet walking.
    Uninitialized,
    /// Performing the full startup traversal diff.
    Walking,
    /// Consuming live canonical changes.
    Ready,
    /// Terminal; no further mutations are accepted.
    Stopped,
}

/// Why the engine could not be brought up.
#[derive(Clone, Copy, PartialEq, Eq, Structural, Debug)]
pub enum EngineError {
    /// The configured vault root is not usable as a root path.
    InvalidRoot,
}

/// A request to extract metadata for `key`, whose content was observed
/// under `token`. Answered through [`Reconciler::record_extraction`].
#[derive(Clone, PartialEq, Debug)]
pub struct ExtractRequest {
    pub key: String,
    pub token: ChangeToken,
}

/// Mathematical image of an [`ExtractRequest`] value.
pub struct ExtractRequestView {
    pub key: Seq<char>,
    pub token: ChangeToken,
}

impl View for ExtractRequest {
    type V = ExtractRequestView;

    open spec fn view(&self) -> ExtractRequestView {
        ExtractRequestView { key: self.key@, token: self.token }
    }
}

impl DeepView for ExtractRequest {
    type V = ExtractRequestView;

    open spec fn deep_view(&self) -> ExtractRequestView {
        self.view()
    }
}

/// One file met by the startup walk: its identity key and the change
/// token computed for it.
#[derive(Clone, PartialEq, Debug)]
pub struct WalkEntry {
    pub key: String,
    pub token: ChangeToken,
}

/// Mathematical image of a [`WalkEntry`] value.
pub struct WalkEntryView {
    pub key: Seq<char>,
    pub token: ChangeToken,
}

impl View for WalkEntry {
    type V = WalkEntryView;

    open spec fn view(&self) -> WalkEntryView {
        WalkEntryView { key: self.key@, token: self.token }
    }
}

impl DeepView for WalkEntry {
    type V = WalkEntryView;

    open spec fn deep_view(&self) -> WalkEntryView {
        self.view()
    }
}

/// Extraction is due when the key is new to the index or its stored
/// token differs from the token just observed.
pub open spec fn needs_extract(
    s: Map<Seq<char>, RecordView>,
    k: Seq<char>,
    t: ChangeToken,
) -> bool {
    !s.contains_key(k) || s[k].token != t
}

/// The outcome of one decision step: the store contents after it, and
/// the extraction it asks for, if any.
pub struct StepView {
    pub contents: Map<Seq<char>, RecordView>,
    pub extract: Option<ExtractRequestView>,
}

/// The decision for a key freshly observed under token `t`: ask for
/// extraction when due, otherwise leave the store untouched.
pub open spec fn observe_step(s: Map<Seq<char>, RecordView>, k: Seq<char>, t: ChangeToken)
    -> StepView {
    if needs_extract(s, k, t) {
        StepView { contents: s, extract: Some(ExtractRequestView { key: k, token: t }) }
    } else {
        StepView { contents: s, extract: None }
    }
}

/// The store contents after a rename's relocation half: the record under
/// `from`, if any, moves under `to` with its token and metadata
/// untouched; an absent `from` relocates nothing.
pub open spec fn rename_step(s: Map<Seq<char>, RecordView>, from: Seq<char>, to: Seq<char>)
    -> Map<Seq<char>, RecordView> {
    if s.contains_key(from) {
        s.remove(from).insert(
            to,
            RecordView { identity: to, token: s[from].token, metadata: s[from].metadata },
        )
    } else {
        s
    }
}

/// What applying one canonical change does, given the token freshly
/// computed for the affected path (`None` when the path could not be
/// observed: treated as removed).
pub open spec fn step_change(
    s: Map<Seq<char>, RecordView>,
    c: ChangeView,
    t: Option<ChangeToken>,
) -> StepView {
    match c {
        ChangeView::Created(k) => match t {
            Some(tok) => observe_step(s, k, tok),
            None => StepView { contents: s.remove(k), extract: None },
        },
        ChangeView::Modified(k) => match t {
            Some(tok) => observe_step(s, k, tok),
            None => StepView { contents: s.remove(k), extract: None },
        },
        ChangeView::Removed(k) => StepView { contents: s.remove(k), extract: None },
        ChangeView::Renamed { from, to } => {
            let s1 = rename_step(s, from, to);
            match t {
                Some(tok) => observe_step(s1, to, tok),
                None => StepView { contents: s1.remove(to), extract: None },
            }
        },
    }
}

/// The store contents once a pending extraction request has been
/// answered with `m`.
pub open spec fn completed(
    s: Map<Seq<char>, RecordView>,
    e: Option<ExtractRequestView>,
    m: Option<FrontMatterView>,
) -> Map<Seq<char>, RecordView> {
    match e {
        Some(req) => s.insert(
            req.key,
            RecordView { identity: req.key, token: req.token, metadata: m },
        ),
        None => s,
    }
}

/// The store contents after one canonical change has been applied in
/// full: the decision step, and its extraction (if any) answered with `m`.
pub open spec fn apply_full(
    s: Map<Seq<char>, RecordView>,
    c: ChangeView,
    t: Option<ChangeToken>,
    m: Option<FrontMatterView>,
) -> Map<Seq<char>, RecordView> {
    completed(step_change(s, c, t).contents, step_change(s, c, t).extract, m)
}

/// Some walk entry carries the key `k`.
pub open spec fn obs_contains(obs: Seq<WalkEntryView>, k: Seq<char>) -> bool {
    exists|i: int| 0 <= i < obs.len() && (#[trigger] obs[i].key) == k
}

/// The set of identity keys the walk observed.
pub open spec fn observed_keys(obs: Seq<WalkEntryView>) -> Set<Seq<char>> {
    Set::new(|k: Seq<char>| obs_contains(obs, k))
}

/// The extraction requests the walk diff issues against store contents
/// `s`: one per observed entry that is new or stale, in walk order.
pub open spec fn walk_requests(s: Map<Seq<char>, RecordView>, obs: Seq<WalkEntryView>)
    -> Seq<ExtractRequestView>
    decreases obs.len(),
{
    if obs.len() == 0 {
        Seq::empty()
    } else {
        let rest = walk_requests(s, obs.drop_last());
        if needs_extract(s, obs.last().key, obs.last().token) {
            rest.push(ExtractRequestView { key: obs.last().key, token: obs.last().token })
        } else {
            rest
        }
    }
}

/// The store contents after the walk diff has pruned the first `j` of
/// the snapshot keys `ks`: a key survives when the walk observed it or
/// when it has not come up for pruning yet; values are untouched.
pub open spec fn pruned(
    s0: Map<Seq<char>, RecordView>,
    obs: Seq<WalkEntryView>,
    ks: Seq<Seq<char>>,
    j: int,
) -> Map<Seq<char>, RecordView> {
    Map::new(
        |k: Seq<char>|
            s0.contains_key(k) && (obs_contains(obs, k) || !ks.subrange(0, j).contains(k)),
        |k: Seq<char>| s0[k],
    )
}

/// Some extraction request carries the key `k`.
pub open spec fn req_contains(reqs: Seq<ExtractRequestView>, k: Seq<char>) -> bool {
    exists|i: int| 0 <= i < reqs.len() && (#[trigger] reqs[i].key) == k
}

/// The store contents once every extraction request in `reqs` has been
/// answered, request `i` with metadata `metas[i]`.
pub open spec fn complete_all(
    s: Map<Seq<char>, RecordView>,
    reqs: Seq<ExtractRequestView>,
    metas: Seq<Option<FrontMatterView>>,
) -> Map<Seq<char>, RecordView>
    decreases reqs.len(),
{
    if reqs.len() == 0 {
        s
    } else {
        complete_all(s, reqs.drop_last(), metas.drop_last()).insert(
            reqs.last().key,
            RecordView {
                identity: reqs.last().key,
                token: reqs.last().token,
                metadata: metas.last(),
            },
        )
    }
}

/// Answering every request adds exactly the requests' keys to the store.
pub proof fn lemma_complete_all_dom(
    s: Map<Seq<char>, RecordView>,
    reqs: Seq<ExtractRequestView>,
    metas: Seq<Option<FrontMatterView>>,
    k: Seq<char>,
)
    ensures
        complete_all(s, reqs, metas).contains_key(k) <==> (s.contains_key(k) || req_contains(
            reqs,
            k,
        )),
    decreases reqs.len(),
{
    if reqs.len() > 0 {
        lemma_complete_all_dom(s, reqs.drop_last(), metas.drop_last(), k);
        if reqs.last().key == k {
            assert(reqs[reqs.len() - 1].key == k);
        } else {
            if req_contains(reqs.drop_last(), k) {
                let i = choose|i: int|
                    0 <= i < reqs.drop_last().len() && (#[trigger] reqs.drop_last()[i].key) == k;
                assert(reqs[i].key == k);
            }
            if req_contains(reqs, k) {
                let i = choose|i: int| 0 <= i < reqs.len() && (#[trigger] reqs[i].key) == k;
                assert(reqs.drop_last()[i].key == k);
            }
        }
    }
}

/// The walk's requests ask only for observed keys, and ask for every
/// observed key that is new or stale.
pub proof fn lemma_walk_requests_cover(s: Map<Seq<char>, RecordView>, obs: Seq<WalkEntryView>)
    ensures
        forall|k: Seq<char>|
            #[trigger] req_contains(walk_requests(s, obs), k) ==> obs_contains(obs, k),
        forall|i: int|
            0 <= i < obs.len() && needs_extract(s, (#[trigger] obs[i]).key, obs[i].token)
                ==> req_contains(walk_requests(s, obs), obs[i].key),
    decreases obs.len(),
{
    if obs.len() > 0 {
        let rest = walk_requests(s, obs.drop_last());
        let full = walk_requests(s, obs);
        lemma_walk_requests_cover(s, obs.drop_last());
        assert forall|k: Seq<char>| #[trigger] req_contains(full, k) implies obs_contains(obs, k) by {
            let i = choose|i: int| 0 <= i < full.len() && (#[trigger] full[i].key) == k;
            if i < rest.len() {
                assert(rest[i].key == k);
                assert(req_contains(rest, k));
                let j = choose|j: int|
                    0 <= j < obs.drop_last().len() && (#[trigger] obs.drop_last()[j].key) == k;
                assert(obs[j].key == k);
            } else {
                assert(obs[obs.len() - 1].key == k);
            }
        }
        assert forall|i: int|
            0 <= i < obs.len() && needs_extract(s, (#[trigger] obs[i]).key, obs[i].token) implies
            req_contains(full, obs[i].key) by {
            if i < obs.len() - 1 {
                assert(obs.drop_last()[i] == obs[i]);
                assert(req_contains(rest, obs[i].key));
                let j = choose|j: int| 0 <= j < rest.len() && (#[trigger] rest[j].key) == obs[i].key;
                assert(full[j].key == obs[i].key);
            } else {
                assert(full[full.len() - 1].key == obs[i].key);
            }
        }
    }
}

/// Completeness: after the walk diff has pruned the unobserved keys and
/// every extraction request has been answered, the indexed keys are
/// exactly the keys the walk observed.
pub proof fn lemma_walk_completeness(
    s: Map<Seq<char>, RecordView>,
    obs: Seq<WalkEntryView>,
    metas: Seq<Option<FrontMatterView>>,
)
    requires
        metas.len() == walk_requests(s, obs).len(),
    ensures
        complete_all(s.restrict(observed_keys(obs)), walk_requests(s, obs), metas).dom()
            == observed_keys(obs),
{
    let base = s.restrict(observed_keys(obs));
    let reqs = walk_requests(s, obs);
    let result = complete_all(base, reqs, metas);
    lemma_walk_requests_cover(s, obs);
    assert forall|k: Seq<char>| #[trigger] result.dom().contains(k) implies observed_keys(
        obs,
    ).contains(k) by {
        lemma_complete_all_dom(base, reqs, metas, k);
        if base.contains_key(k) {
            assert(observed_keys(obs).contains(k));
        } else {
            assert(req_contains(reqs, k));
            assert(obs_contains(obs, k));
        }
    }
    assert forall|k: Seq<char>| #[trigger] observed_keys(obs).contains(k) implies result.dom()
        .contains(k) by {
        lemma_complete_all_dom(base, reqs, metas, k);
        let i = choose|i: int| 0 <= i < obs.len() && (#[trigger] obs[i].key) == k;
        if needs_extract(s, obs[i].key, obs[i].token) {
            assert(req_contains(reqs, k));
        } else {
            assert(s.contains_key(k));
            assert(base.contains_key(k));
        }
    }
    assert(result.dom() =~= observed_keys(obs));
}

/// Removal is unconditional: a `Removed` change leaves the key
/// unindexed whatever the prior contents were — including a key that was
/// never indexed — and asks for no extraction.
pub proof fn lemma_removal_unconditional(
    s: Map<Seq<char>, RecordView>,
    k: Seq<char>,
    t: Option<ChangeToken>,
)
    ensures
        !step_change(s, ChangeView::Removed(k), t).contents.contains_key(k),
        step_change(s, ChangeView::Removed(k), t).extract is None,
{
}

/// A rename with unchanged content relocates the record: the new key
/// holds the old key's metadata and token, the old key is no longer
/// indexed, and no extraction is asked for.
pub proof fn lemma_rename_preserves_extraction(
    s: Map<Seq<char>, RecordView>,
    from: Seq<char>,
    to: Seq<char>,
)
    requires
        s.contains_key(from),
        from != to,
    ensures
        ({
            let st = step_change(
                s,
                ChangeView::Renamed { from, to },
                Some(s[from].token),
            );
            &&& st.extract is None
            &&& st.contents.contains_key(to)
            &&& st.contents[to].metadata == s[from].metadata
            &&& st.contents[to].token == s[from].token
            &&& !st.contents.contains_key(from)
        }),
{
}

/// Token staleness drives re-extraction: once a `Modified` change for a
/// key has been applied in full under token `t1`, a second `Modified`
/// change asks for extraction exactly when its token `t2` differs — and
/// then exactly one, for that key under `t2`. Equal tokens ask for none
/// and leave the contents untouched.
pub proof fn lemma_token_staleness(
    s: Map<Seq<char>, RecordView>,
    k: Seq<char>,
    t1: ChangeToken,
    t2: ChangeToken,
    m1: Option<FrontMatterView>,
)
    ensures
        ({
            let s1 = apply_full(s, ChangeView::Modified(k), Some(t1), m1);
            let st2 = step_change(s1, ChangeView::Modified(k), Some(t2));
            &&& (st2.extract is Some) <==> (t1 != t2)
            &&& (t1 != t2) ==> st2.extract == Some(ExtractRequestView { key: k, token: t2 })
            &&& st2.contents == s1
        }),
{
}

/// Idempotence: applying the same canonical change twice in a row, with
/// the same token, leaves the contents exactly as after the first
/// application — whatever metadata the second (never-issued or
/// redundant) extraction would have produced.
pub proof fn lemma_change_idempotent(
    s: Map<Seq<char>, RecordView>,
    c: ChangeView,
    t: Option<ChangeToken>,
    m1: Option<FrontMatterView>,
    m2: Option<FrontMatterView>,
)
    ensures
        apply_full(apply_full(s, c, t, m1), c, t, m2) == apply_full(s, c, t, m1),
{
    let s1 = apply_full(s, c, t, m1);
    match c {
        ChangeView::Created(k) => {
            match t {
                Some(tok) => {
                    assert(s1.contains_key(k) && s1[k].token == tok);
                    assert(apply_full(s1, c, t, m2) == s1);
                },
                None => {
                    assert(apply_full(s1, c, t, m2) =~= s1);
                },
            }
        },
        ChangeView::Modified(k) => {
            match t {
                Some(tok) => {
                    assert(s1.contains_key(k) && s1[k].token == tok);
                    assert(apply_full(s1, c, t, m2) == s1);
                },
                None => {
                    assert(apply_full(s1, c, t, m2) =~= s1);
                },
            }
        },
        ChangeView::Removed(k) => {
            assert(apply_full(s1, c, t, m2) =~= s1);
        },
        ChangeView::Renamed { from, to } => {
            match t {
                Some(tok) => {
                    assert(s1.contains_key(to) && s1[to].token == tok);
                    if from == to {
                        assert(s1[to].identity == to);
                        let rs2 = rename_step(s1, from, to);
                        assert(rs2 =~= s1);
                        assert(apply_full(s1, c, t, m2) == rs2);
                    } else {
                        assert(!s1.contains_key(from));
                        assert(rename_step(s1, from, to) == s1);
                        assert(apply_full(s1, c, t, m2) == s1);
                    }
                },
                None => {
                    if from == to {
                        assert(!s1.contains_key(to));
                        assert(rename_step(s1, from, to) == s1);
                        assert(apply_full(s1, c, t, m2) =~= s1);
                    } else {
                        assert(!s1.contains_key(from));
                        assert(rename_step(s1, from, to) == s1);
                        assert(apply_full(s1, c, t, m2) =~= s1);
                    }
                },
            }
        },
    }
}

/// True exactly when some walk entry carries `key`.
fn walk_contains(observed: &Vec<WalkEntry>, key: &String) -> (r: bool)
    ensures
        r == obs_contains(observed.deep_view(), key@),
{
    let n = observed.len();
    let mut i: usize = 0;
    while i < n
        invariant
            0 <= i <= n,
            n == observed@.len(),
            forall|x: int| 0 <= x < i ==> (#[trigger] observed.deep_view()[x].key) != key@,
        decreases n - i,
    {
        if observed[i].key.eq(key) {
            proof {
                assert(observed.deep_view()[i as int].key == key@);
            }
            return true;
        }
        i = i + 1;
    }
    false
}

/// The vault indexing engine.
pub struct Reconciler {
    state: EngineState,
    root: String,
    store: IndexStore,
}

impl Reconciler {
    /// The engine's current lifecycle state.
    pub closed spec fn state(self) -> EngineState {
        self.state
    }

    /// The index contents, as a map from identity key to record.
    pub closed spec fn contents(self) -> Map<Seq<char>, RecordView> {
        self.store@
    }

    /// The vault root the engine was brought up with.
    pub closed spec fn root_view(self) -> Seq<char> {
        self.root@
    }

    /// The engine's internal well-formedness.
    pub closed spec fn wf(self) -> bool {
        self.store.wf() && valid_root(self.root@)
    }

    /// The engine's current lifecycle state, for callers that drive it.
    pub fn current_state(&self) -> (r: EngineState)
        ensures
            r == self.state(),
    {
        self.state
    }

    /// Brings up an engine for the vault at `root`, failing fast when the
    /// root is not usable as a root path. The caller is responsible for
    /// having checked that the root exists and is a directory.
    pub fn new(root: String) -> (r: Result<Reconciler, EngineError>)
        ensures
            match r {
                Ok(engine) => {
                    &&& valid_root(root@)
                    &&& engine.wf()
                    &&& engine.state() == EngineState::Uninitialized
                    &&& engine.root_view() == root@
                    &&& engine.contents() == Map::<Seq<char>, RecordView>::empty()
                },
                Err(EngineError::InvalidRoot) => !valid_root(root@),
            },
    {
        let n: usize = root.as_str().unicode_len();
        if n == 0 {
            return Err(EngineError::InvalidRoot);
        }
        if root.as_str().get_char(n - 1) == '/' {
            return Err(EngineError::InvalidRoot);
        }
        Ok(Reconciler { state: EngineState::Uninitialized, root, store: IndexStore::new() })
    }

    /// Enters the startup walk.
    pub fn begin_walk(&mut self)
        requires
            old(self).wf(),
            old(self).state() == EngineState::Uninitialized,
        ensures
            final(self).wf(),
            final(self).state() == EngineState::Walking,
            final(self).contents() == old(self).contents(),
            final(self).root_view() == old(self).root_view(),
    {
        self.state = EngineState::Walking;
    }

    /// Leaves the startup walk: the full diff is complete and live
    /// changes may now be consumed.
    pub fn finish_walk(&mut self)
        requires
            old(self).wf(),
            old(self).state() == EngineState::Walking,
        ensures
            final(self).wf(),
            final(self).state() == EngineState::Ready,
            final(self).contents() == old(self).contents(),
            final(self).root_view() == old(self).root_view(),
    {
        self.state = EngineState::Ready;
    }

    /// Shuts the engine down; the last committed store contents stay
    /// valid as of the last processed change.
    pub fn stop(&mut self)
        requires
            old(self).wf(),
        ensures
            final(self).wf(),
            final(self).state() == EngineState::Stopped,
            final(self).contents() == old(self).contents(),
            final(self).root_view() == old(self).root_view(),
    {
        self.state = EngineState::Stopped;
    }

    /// The record stored under `key`, if any.
    pub fn get(&self, key: &String) -> (r: Option<&Record>)
        requires
            self.wf(),
        ensures
            match r {
                Some(rec) => self.contents().contains_key(key@) && rec@ == self.contents()[key@],
                None => !self.contents().contains_key(key@),
            },
    {
        self.store.get(key)
    }

    /// The set of identity keys currently indexed, as a copied snapshot.
    pub fn snapshot_keys(&self) -> (r: Vec<String>)
        requires
            self.wf(),
        ensures
            r.deep_view().no_duplicates(),
            r.deep_view().to_set() == self.contents().dom(),
    {
        self.store.snapshot_keys()
    }

    /// Applies one canonical change, with the token freshly computed for
    /// the affected path (`None` when it could not be observed: the path
    /// is treated as removed). Returns the extraction the change calls
    /// for, if any; the store is not touched for that key until the
    /// caller answers through [`Reconciler::record_extraction`].
    pub fn apply_change(&mut self, change: &Change, token: Option<ChangeToken>) -> (r: Option<
        ExtractRequest,
    >)
        requires
            old(self).wf(),
            old(self).state() == EngineState::Ready,
        ensures
            final(self).wf(),
            final(self).state() == EngineState::Ready,
            final(self).root_view() == old(self).root_view(),
            final(self).contents() == step_change(old(self).contents(), change@, token).contents,
            r.deep_view() == step_change(old(self).contents(), change@, token).extract,
    {
        match change {
            Change::Created(k) => self.observe(k, token),
            Change::Modified(k) => self.observe(k, token),
            Change::Removed(k) => {
                self.store.remove(k);
                None
            },
            Change::Renamed { from, to } => {
                self.store.rename(from, to.clone());
                self.observe(to, token)
            },
        }
    }

    /// The shared decision for a key observed under a token: remove when
    /// unobservable, request extraction when due, no-op otherwise.
    fn observe(&mut self, key: &String, token: Option<ChangeToken>) -> (r: Option<ExtractRequest>)
        requires
            old(self).wf(),
        ensures
            final(self).wf(),
            final(self).state() == old(self).state(),
            final(self).root_view() == old(self).root_view(),
            match token {
                Some(tok) => {
                    &&& final(self).contents() == observe_step(
                        old(self).contents(),
                        key@,
                        tok,
                    ).contents
                    &&& r.deep_view() == observe_step(old(self).contents(), key@, tok).extract
                },
                None => {
                    &&& final(self).contents() == old(self).contents().remove(key@)
                    &&& r is None
                },
            },
    {
        match token {
            Some(tok) => {
                let stale = match self.store.get(key) {
                    Some(rec) => rec.token != tok,
                    None => true,
                };
                if stale {
                    Some(ExtractRequest { key: key.clone(), token: tok })
                } else {
                    None
                }
            },
            None => {
                self.store.remove(key);
                None
            },
        }
    }

    /// Reconciles the store against the files the startup walk observed:
    /// issues one extraction request per file that is new to the index or
    /// whose token changed while the engine was not running, and removes
    /// every indexed key the walk did not observe. The caller answers
    /// each request through [`Reconciler::record_extraction`].
    pub fn invalidate_cache(&mut self, observed: &Vec<WalkEntry>) -> (r: Vec<ExtractRequest>)
        requires
            old(self).wf(),
            old(self).state() == EngineState::Walking,
        ensures
            final(self).wf(),
            final(self).state() == EngineState::Walking,
            final(self).root_view() == old(self).root_view(),
            final(self).contents() == old(self).contents().restrict(
                observed_keys(observed.deep_view()),
            ),
            r.deep_view() == walk_requests(old(self).contents(), observed.deep_view()),
    {
        let ghost obs = observed.deep_view();
        let ghost s0 = self.contents();
        let mut requests: Vec<ExtractRequest> = Vec::new();
        let n = observed.len();
        let mut i: usize = 0;
        while i < n
            invariant
                0 <= i <= n,
                n == observed@.len(),
                obs == observed.deep_view(),
                self.wf(),
                self.state() == old(self).state(),
                self.root_view() == old(self).root_view(),
                requests.deep_view() == walk_requests(s0, obs.subrange(0, i as int)),
                s0 == self.contents(),
            decreases n - i,
        {
            proof {
                assert(obs.subrange(0, i + 1 as int).drop_last() =~= obs.subrange(0, i as int));
                assert(obs.subrange(0, i + 1 as int).last() == obs[i as int]);
                assert(observed@[i as int]@ == obs[i as int]);
            }
            let entry = &observed[i];
            let stale = match self.store.get(&entry.key) {
                Some(rec) => rec.token != entry.token,
                None => true,
            };
            if stale {
                let ghost prev = requests.deep_view();
                let req = ExtractRequest { key: entry.key.clone(), token: entry.token };
                let ghost rv = req@;
                requests.push(req);
                proof {
                    assert(requests.deep_view() =~= prev.push(rv));
                }
            }
            i = i + 1;
        }
        proof {
            assert(obs.subrange(0, n as int) =~= obs);
        }
        let keys = self.store.snapshot_keys();
        let ghost ks = keys.deep_view();
        let m = keys.len();
        let mut j: usize = 0;
        proof {
            assert(ks.subrange(0, 0) =~= Seq::<Seq<char>>::empty());
            assert(self.contents() =~= pruned(s0, obs, ks, 0));
        }
        while j < m
            invariant
                0 <= j <= m,
                m == keys@.len(),
                ks == keys.deep_view(),
                obs == observed.deep_view(),
                self.wf(),
                self.state() == old(self).state(),
                self.root_view() == old(self).root_view(),
                self.contents() == pruned(s0, obs, ks, j as int),
            decreases m - j,
        {
            proof {
                assert(keys@[j as int]@ == ks[j as int]);
            }
            let keep = walk_contains(observed, &keys[j]);
            let ghost pre = self.contents();
            if !keep {
                self.store.remove(&keys[j]);
            }
            proof {
                let kj = ks[j as int];
                let subj = ks.subrange(0, j as int);
                let subj1 = ks.subrange(0, j + 1 as int);
                assert(subj1.len() == j + 1);
                assert(subj.len() == j as int);
                assert forall|k: Seq<char>| #[trigger] subj1.contains(k) <==> (subj.contains(k)
                    || k == kj) by {
                    if subj1.contains(k) {
                        let x = choose|x: int| 0 <= x < subj1.len() && (#[trigger] subj1[x]) == k;
                        if x < j {
                            assert(subj[x] == k);
                        }
                    }
                    if subj.contains(k) {
                        let x = choose|x: int| 0 <= x < subj.len() && (#[trigger] subj[x]) == k;
                        assert(subj1[x] == k);
                    }
                    if k == kj {
                        assert(subj1[j as int] == k);
                    }
                }
                if !keep {
                    assert(self.contents() == pre.remove(kj));
                    assert(!obs_contains(obs, kj));
                    assert(self.contents() =~= pruned(s0, obs, ks, j + 1 as int));
                } else {
                    assert(self.contents() == pre);
                    assert(obs_contains(obs, kj));
                    assert(self.contents() =~= pruned(s0, obs, ks, j + 1 as int));
                }
            }
            j = j + 1;
        }
        proof {
            assert(ks.subrange(0, m as int) =~= ks);
            assert forall|k: Seq<char>| #[trigger] s0.contains_key(k) implies ks.contains(k) by {
                assert(ks.to_set().contains(k));
            }
            assert(self.contents() =~= s0.restrict(observed_keys(obs)));
        }
        requests
    }

    /// Answers an extraction: stores the record for `key` under `token`,
    /// with the metadata the extractor produced. An extraction failure is
    /// answered with `None`: the file stays indexed, with no metadata.
    pub fn record_extraction(
        &mut self,
        key: String,
        token: ChangeToken,
        metadata: Option<crate::data::FrontMatter>,
    )
        requires
            old(self).wf(),
            old(self).state() == EngineState::Walking || old(self).state() == EngineState::Ready,
        ensures
            final(self).wf(),
            final(self).state() == old(self).state(),
            final(self).root_view() == old(self).root_view(),
            final(self).contents() == completed(
                old(self).contents(),
                Some(ExtractRequestView { key: key@, token }),
                match metadata {
                    Some(ref fm) => Some(fm@),
                    None => None,
                },
            ),
    {
        let ghost kv = key@;
        let record = Record { identity: key, token, metadata };
        self.store.upsert(record);
    }
}

} // verus!
