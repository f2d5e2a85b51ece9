//! Event normalization: turning the raw, platform-specific stream of
//! filesystem notifications into canonical, deduplicated changes that are
//! safe to apply idempotently.
//!
//! A raw notification carries an event kind and one or two absolute paths.
//! Normalization resolves each path to an identity key, drops events whose
//! path falls outside the vault root or under a hidden name, merges paired
//! two-path rename notifications into one `Renamed` change, and coalesces
//! bursts of identical changes. A rename delivered as two single-path
//! halves is handed back unpaired: pairing those up is a platform-specific
//! decision this stage does not guess at.

use vstd::prelude::*;
use crate::fingerprint::{admissible, admissible_key, relative_key, valid_root};

verus! {

/// The kind of a raw watch notification.
#[derive(Clone, Copy, PartialEq, Eq, Structural, Debug)]
pub enum RawEventKind {
    Create,
    Modify,
    Remove,
    /// The source half of a rename delivered as two single-path events.
    RenameFrom,
    /// The destination half of a rename delivered as two single-path events.
    RenameTo,
    /// A rename delivered as one two-path event: source then destination.
    RenameBoth,
    Other,
}

/// A raw watch notification: a kind and one or two absolute paths.
#[derive(Clone, PartialEq, Debug)]
pub struct RawEvent {
    pub kind: RawEventKind,
    pub paths: Vec<String>,
}

/// Mathematical image of a [`RawEvent`] value.
pub struct RawEventView {
    pub kind: RawEventKind,
    pub paths: Seq<Seq<char>>,
}

impl View for RawEvent {
    type V = RawEventView;

    open spec fn view(&self) -> RawEventView {
        RawEventView { kind: self.kind, paths: self.paths.deep_view() }
    }
}

impl DeepView for RawEvent {
    type V = RawEventView;

    open spec fn deep_view(&self) -> RawEventView {
        self.view()
    }
}

/// A canonical change, addressed by identity key.
#[derive(Clone, PartialEq, Debug)]
pub enum Change {
    Created(String),
    Modified(String),
    Removed(String),
    Renamed { from: String, to: String },
}

/// Mathematical image of a [`Change`] value.
pub enum ChangeView {
    Created(Seq<char>),
    Modified(Seq<char>),
    Removed(Seq<char>),
    Renamed { from: Seq<char>, to: Seq<char> },
}

impl View for Change {
    type V = ChangeView;

    open spec fn view(&self) -> ChangeView {
        match self {
            Change::Created(p) => ChangeView::Created(p@),
            Change::Modified(p) => ChangeView::Modified(p@),
            Change::Removed(p) => ChangeView::Removed(p@),
            Change::Renamed { from, to } => ChangeView::Renamed { from: from@, to: to@ },
        }
    }
}

impl DeepView for Change {
    type V = ChangeView;

    open spec fn deep_view(&self) -> ChangeView {
        self.view()
    }
}

/// Which half of a split rename a single-path notification carried.
#[derive(Clone, Copy, PartialEq, Eq, Structural, Debug)]
pub enum RenameHalf {
    From,
    To,
}

/// One half of a rename delivered as two single-path events. The
/// normalizer exposes these instead of guessing at how to pair them.
#[derive(Clone, PartialEq, Debug)]
pub struct UnpairedRename {
    pub half: RenameHalf,
    pub key: String,
}

/// Mathematical image of an [`UnpairedRename`] value.
pub struct UnpairedRenameView {
    pub half: RenameHalf,
    pub key: Seq<char>,
}

impl View for UnpairedRename {
    type V = UnpairedRenameView;

    open spec fn view(&self) -> UnpairedRenameView {
        UnpairedRenameView { half: self.half, key: self.key@ }
    }
}

impl DeepView for UnpairedRename {
    type V = UnpairedRenameView;

    open spec fn deep_view(&self) -> UnpairedRenameView {
        self.view()
    }
}

/// What one raw notification normalizes to.
#[derive(Clone, PartialEq, Debug)]
pub enum Normalized {
    Canonical(Change),
    Unpaired(UnpairedRename),
    Dropped,
}

/// Mathematical image of a [`Normalized`] value.
pub enum NormalizedView {
    Canonical(ChangeView),
    Unpaired(UnpairedRenameView),
    Dropped,
}

impl View for Normalized {
    type V = NormalizedView;

    open spec fn view(&self) -> NormalizedView {
        match self {
            Normalized::Canonical(c) => NormalizedView::Canonical(c@),
            Normalized::Unpaired(u) => NormalizedView::Unpaired(u@),
            Normalized::Dropped => NormalizedView::Dropped,
        }
    }
}

/// What a single raw notification normalizes to: the classification the
/// normalizer is held to.
pub open spec fn normal_of(root: Seq<char>, ev: RawEventView) -> NormalizedView {
    match ev.kind {
        RawEventKind::Create => single_path_of(root, ev.paths, |k: Seq<char>|
            NormalizedView::Canonical(ChangeView::Created(k))),
        RawEventKind::Modify => single_path_of(root, ev.paths, |k: Seq<char>|
            NormalizedView::Canonical(ChangeView::Modified(k))),
        RawEventKind::Remove => single_path_of(root, ev.paths, |k: Seq<char>|
            NormalizedView::Canonical(ChangeView::Removed(k))),
        RawEventKind::RenameFrom => single_path_of(root, ev.paths, |k: Seq<char>|
            NormalizedView::Unpaired(UnpairedRenameView { half: RenameHalf::From, key: k })),
        RawEventKind::RenameTo => single_path_of(root, ev.paths, |k: Seq<char>|
            NormalizedView::Unpaired(UnpairedRenameView { half: RenameHalf::To, key: k })),
        RawEventKind::RenameBoth => rename_both_of(root, ev.paths),
        RawEventKind::Other => NormalizedView::Dropped,
    }
}

/// Classification of a single-path notification: admissible paths map to
/// their key's outcome, everything else is dropped.
pub open spec fn single_path_of(
    root: Seq<char>,
    paths: Seq<Seq<char>>,
    out: spec_fn(Seq<char>) -> NormalizedView,
) -> NormalizedView {
    if paths.len() >= 1 && admissible(root, paths[0]) {
        out(relative_key(paths[0], root))
    } else {
        NormalizedView::Dropped
    }
}

/// Classification of a paired two-path rename. When only one side stays
/// admissible, the rename degrades to what that side alone witnesses: a
/// move out of the vault is a removal, a move into it a creation.
pub open spec fn rename_both_of(root: Seq<char>, paths: Seq<Seq<char>>) -> NormalizedView {
    if paths.len() >= 2 {
        let f_ok = admissible(root, paths[0]);
        let t_ok = admissible(root, paths[1]);
        if f_ok && t_ok {
            NormalizedView::Canonical(
                ChangeView::Renamed {
                    from: relative_key(paths[0], root),
                    to: relative_key(paths[1], root),
                },
            )
        } else if t_ok {
            NormalizedView::Canonical(ChangeView::Created(relative_key(paths[1], root)))
        } else if f_ok {
            NormalizedView::Canonical(ChangeView::Removed(relative_key(paths[0], root)))
        } else {
            NormalizedView::Dropped
        }
    } else {
        NormalizedView::Dropped
    }
}

/// Normalizes one raw notification.
pub fn normalize_event(root: &str, ev: &RawEvent) -> (r: Normalized)
    requires
        valid_root(root@),
    ensures
        r@ == normal_of(root@, ev@),
{
    match ev.kind {
        RawEventKind::Create => {
            if ev.paths.len() >= 1 {
                match admissible_key(root, &ev.paths, 0) {
                    Some(k) => Normalized::Canonical(Change::Created(k)),
                    None => Normalized::Dropped,
                }
            } else {
                Normalized::Dropped
            }
        },
        RawEventKind::Modify => {
            if ev.paths.len() >= 1 {
                match admissible_key(root, &ev.paths, 0) {
                    Some(k) => Normalized::Canonical(Change::Modified(k)),
                    None => Normalized::Dropped,
                }
            } else {
                Normalized::Dropped
            }
        },
        RawEventKind::Remove => {
            if ev.paths.len() >= 1 {
                match admissible_key(root, &ev.paths, 0) {
                    Some(k) => Normalized::Canonical(Change::Removed(k)),
                    None => Normalized::Dropped,
                }
            } else {
                Normalized::Dropped
            }
        },
        RawEventKind::RenameFrom => {
            if ev.paths.len() >= 1 {
                match admissible_key(root, &ev.paths, 0) {
                    Some(k) => Normalized::Unpaired(
                        UnpairedRename { half: RenameHalf::From, key: k },
                    ),
                    None => Normalized::Dropped,
                }
            } else {
                Normalized::Dropped
            }
        },
        RawEventKind::RenameTo => {
            if ev.paths.len() >= 1 {
                match admissible_key(root, &ev.paths, 0) {
                    Some(k) => Normalized::Unpaired(UnpairedRename { half: RenameHalf::To, key: k }),
                    None => Normalized::Dropped,
                }
            } else {
                Normalized::Dropped
            }
        },
        RawEventKind::RenameBoth => {
            if ev.paths.len() >= 2 {
                let from_key = admissible_key(root, &ev.paths, 0);
                let to_key = admissible_key(root, &ev.paths, 1);
                match (from_key, to_key) {
                    (Some(f), Some(t)) => Normalized::Canonical(Change::Renamed { from: f, to: t }),
                    (None, Some(t)) => Normalized::Canonical(Change::Created(t)),
                    (Some(f), None) => Normalized::Canonical(Change::Removed(f)),
                    (None, None) => Normalized::Dropped,
                }
            } else {
                Normalized::Dropped
            }
        },
        RawEventKind::Other => Normalized::Dropped,
    }
}

/// True exactly when the two changes are the same change.
pub fn change_eq(a: &Change, b: &Change) -> (r: bool)
    ensures
        r == (a@ == b@),
{
    match (a, b) {
        (Change::Created(x), Change::Created(y)) => x.eq(y),
        (Change::Modified(x), Change::Modified(y)) => x.eq(y),
        (Change::Removed(x), Change::Removed(y)) => x.eq(y),
        (
            Change::Renamed { from: xf, to: xt },
            Change::Renamed { from: yf, to: yt },
        ) => xf.eq(yf) && xt.eq(yt),
        _ => false,
    }
}

/// The canonical change sequence of a raw event sequence: each event
/// classified, non-changes left out, and a change equal to the previous
/// surviving change coalesced away.
pub open spec fn changes_of(root: Seq<char>, evs: Seq<RawEventView>) -> Seq<ChangeView>
    decreases evs.len(),
{
    if evs.len() == 0 {
        Seq::empty()
    } else {
        let rest = changes_of(root, evs.drop_last());
        match normal_of(root, evs.last()) {
            NormalizedView::Canonical(c) => if rest.len() > 0 && rest.last() == c {
                rest
            } else {
                rest.push(c)
            },
            _ => rest,
        }
    }
}

/// The unpaired rename halves of a raw event sequence, in arrival order.
pub open spec fn unpaired_of(root: Seq<char>, evs: Seq<RawEventView>) -> Seq<UnpairedRenameView>
    decreases evs.len(),
{
    if evs.len() == 0 {
        Seq::empty()
    } else {
        let rest = unpaired_of(root, evs.drop_last());
        match normal_of(root, evs.last()) {
            NormalizedView::Unpaired(u) => rest.push(u),
            _ => rest,
        }
    }
}

/// Normalizes a burst of raw notifications into the canonical change
/// sequence and the unpaired rename halves, both in arrival order.
pub fn normalize_events(root: &str, events: &Vec<RawEvent>) -> (r: (Vec<Change>, Vec<
    UnpairedRename,
>))
    requires
        valid_root(root@),
    ensures
        r.0.deep_view() == changes_of(root@, events.deep_view()),
        r.1.deep_view() == unpaired_of(root@, events.deep_view()),
{
    let ghost evs = events.deep_view();
    let mut changes: Vec<Change> = Vec::new();
    let mut unpaired: Vec<UnpairedRename> = Vec::new();
    let n = events.len();
    let mut i: usize = 0;
    while i < n
        invariant
            valid_root(root@),
            0 <= i <= n,
            n == events@.len(),
            evs == events.deep_view(),
            changes.deep_view() == changes_of(root@, evs.subrange(0, i as int)),
            unpaired.deep_view() == unpaired_of(root@, evs.subrange(0, i as int)),
        decreases n - i,
    {
        proof {
            assert(evs.subrange(0, i + 1 as int).drop_last() =~= evs.subrange(0, i as int));
            assert(evs.subrange(0, i + 1 as int).last() == evs[i as int]);
            assert(events@[i as int]@ == evs[i as int]);
        }
        match normalize_event(root, &events[i]) {
            Normalized::Canonical(c) => {
                let dup = if changes.len() > 0 {
                    change_eq(&changes[changes.len() - 1], &c)
                } else {
                    false
                };
                proof {
                    if changes@.len() > 0 {
                        assert(changes.deep_view().last() == changes@[changes@.len() - 1]@);
                    }
                }
                if !dup {
                    let ghost prev = changes.deep_view();
                    let ghost cv = c@;
                    changes.push(c);
                    proof {
                        assert(changes.deep_view() =~= prev.push(cv));
                    }
                }
            },
            Normalized::Unpaired(u) => {
                let ghost prev = unpaired.deep_view();
                let ghost uv = u@;
                unpaired.push(u);
                proof {
                    assert(unpaired.deep_view() =~= prev.push(uv));
                }
            },
            Normalized::Dropped => {},
        }
        i = i + 1;
    }
    proof {
        assert(evs.subrange(0, n as int) =~= evs);
    }
    (changes, unpaired)
}

} // verus!
