//! Asset bundles and the manager that gates rendering behind them.
//!
//! An asset bundle is a polymorphic unit of "stuff to load": each variant
//! owns its construction and its loading trigger, and only reports whether
//! it is fully loaded.  The manager owns one bundle and a one-way readiness
//! latch: once the bundle has reported ready, the manager caches `true`
//! forever and never queries the bundle again.

use vstd::prelude::*;

verus! {

/// A unit of assets to load.  Implementations supply their own loading
/// mechanism; a bundle must never report ready and later report un-ready.
pub trait AssetBundle: Sized {
    /// What the bundle would currently report.  A bundle that does not
    /// say otherwise is modelled as always ready.
    open spec fn ready(&self) -> bool {
        true
    }

    /// Whether the bundle's loading trigger has fired.  A bundle that
    /// does not say otherwise is modelled as always started.
    open spec fn started(&self) -> bool {
        true
    }

    /// Constructs a fresh bundle that has not started loading.
    fn new() -> Self;

    /// Reports whether everything the bundle owns has finished loading.
    fn fully_loaded(&self) -> (r: bool)
        ensures
            r == self.ready(),
    ;

    /// Kicks off the bundle's loading mechanism (for instance by spawning
    /// fetches); completion is discovered only by polling `fully_loaded`.
    fn start_loading(&mut self)
        ensures
            final(self).started(),
    ;
}

/// The fixed draw that paints the loading placeholder: one full-screen
/// triangle, one instance.
#[derive(Clone, Copy, Debug, PartialEq, Eq, Structural)]
pub struct LoadingDraw {
    pub vertex_count: u32,
    pub instance_count: u32,
}

/// Owns one asset bundle and a sticky readiness flag.  The fallback
/// pipeline object that paints the placeholder lives with the embedding
/// program; this type decides when that pipeline must be used.
pub struct AssetManager<A: AssetBundle> {
    loaded_cache: bool,
    asset_bundle: A,
}

impl<A: AssetBundle> AssetManager<A> {
    /// The cached readiness latch.
    pub closed spec fn ready_cached(&self) -> bool {
        self.loaded_cache
    }

    /// The owned bundle.
    pub closed spec fn bundle(&self) -> A {
        self.asset_bundle
    }

    /// Constructs a fresh bundle and immediately triggers its loading; the
    /// latch starts unset and the owned bundle has had its loading
    /// trigger invoked before this returns.
    pub fn new() -> (r: AssetManager<A>)
        ensures
            !r.ready_cached(),
            r.bundle().started(),
    {
        let mut asset_bundle = A::new();
        asset_bundle.start_loading();
        AssetManager { loaded_cache: false, asset_bundle }
    }

    /// Returns the cached readiness, updating it from the bundle only while
    /// it is still unset.
    ///
    /// Law: the latch is monotone — once this returns `true` it returns
    /// `true` on every later call, whatever the bundle does, because the
    /// bundle is never queried again (see `lemma_latch_flips_at_most_once`).
    pub fn loaded(&mut self) -> (r: bool)
        ensures
            r == (old(self).ready_cached() || old(self).bundle().ready()),
            final(self).ready_cached() == r,
            final(self).bundle() == old(self).bundle(),
            old(self).ready_cached() ==> final(self).ready_cached(),
    {
        if !self.loaded_cache {
            self.loaded_cache = self.asset_bundle.fully_loaded();
        }
        self.loaded_cache
    }

    /// Decides the placeholder draw for this frame: `None` once the bundle
    /// is ready (rendering the placeholder becomes a no-op), otherwise the
    /// fixed 3-vertex, 1-instance full-screen pass.
    pub fn render_loading(&mut self) -> (d: Option<LoadingDraw>)
        ensures
            d == if old(self).ready_cached() || old(self).bundle().ready() {
                Option::<LoadingDraw>::None
            } else {
                Option::Some(LoadingDraw { vertex_count: 3, instance_count: 1 })
            },
            final(self).ready_cached() == (old(self).ready_cached()
                || old(self).bundle().ready()),
            final(self).bundle() == old(self).bundle(),
    {
        if self.loaded() {
            None
        } else {
            Some(LoadingDraw { vertex_count: 3, instance_count: 1 })
        }
    }
}

/// In a monotone chain of readiness observations, an earlier `true` forces
/// every later observation to `true`.
proof fn lemma_monotone_chain(states: Seq<bool>, i: int, j: int)
    requires
        forall|k: int| 0 <= k < states.len() - 1 ==> (#[trigger] states[k] ==> states[k + 1]),
        0 <= i <= j < states.len(),
        states[i],
    ensures
        states[j],
    decreases j - i,
{
    if i < j {
        assert(states[i + 1]);
        lemma_monotone_chain(states, i + 1, j);
    }
}

/// Law: over any sequence of readiness observations whose steps are
/// monotone — which `loaded` guarantees of consecutive calls — the latch
/// flips from `false` to `true` at most once.
pub proof fn lemma_latch_flips_at_most_once(states: Seq<bool>)
    requires
        forall|k: int| 0 <= k < states.len() - 1 ==> (#[trigger] states[k] ==> states[k + 1]),
    ensures
        forall|i: int, j: int|
            0 <= i < states.len() - 1 && 0 <= j < states.len() - 1
                && !states[i] && #[trigger] states[i + 1]
                && !states[j] && #[trigger] states[j + 1] ==> i == j,
{
    assert forall|i: int, j: int|
        0 <= i < states.len() - 1 && 0 <= j < states.len() - 1
            && !states[i] && #[trigger] states[i + 1]
            && !states[j] && #[trigger] states[j + 1] implies i == j by {
        if i < j {
            lemma_monotone_chain(states, i + 1, j);
        } else if j < i {
            lemma_monotone_chain(states, j + 1, i);
        }
    }
}

} // verus!
