//! The material manager: the orchestrator that drives the descriptor
//! and image stores through their state machines and assembles
//! runtime materials, caching one shared handle per path.
//!
//! `get` is pull-based and never blocks: it advances whatever can be
//! advanced for the requested path and returns `None` until the
//! material is ready; afterwards every call is a cache hit returning
//! the same shared handle. A failure is recorded per path and is
//! permanent until the caller forces a reload.

use std::sync::Arc;

use vstd::prelude::*;

use crate::descriptor::{parse_material_s, Color, MaterialRon, Scalar};
use crate::errors::{ImageFailure, LoadError};
use crate::image::Image;
use crate::path::{join_spec, AssetPath};
use crate::store::{entry_ready, status_rank, DescriptorStore, ImageStore, LoadStatus};
use crate::table::Table;

verus! {

/// The fully resolved, immutable runtime material: scalar parameters
/// plus the three decoded textures. Shared by all holders through a
/// reference-counted handle.
pub struct NewMaterial {
    pub main_texture: Image,
    pub roughness_texture: Image,
    pub normal_texture: Image,
    pub roughness: Scalar,
    pub metallic: Scalar,
    pub color: Color,
}

/// Per-path progress of the resolver; `Ready` and `Failed` are
/// terminal until an explicit forced reload.
pub enum ResolveState {
    DescriptorPending,
    ImagesPending,
    Ready(Arc<NewMaterial>),
    Failed(LoadError),
}

/// Forward rank of the resolver's state machine.
pub open spec fn resolve_rank(s: ResolveState) -> int {
    match s {
        ResolveState::DescriptorPending => 0,
        ResolveState::ImagesPending => 1,
        ResolveState::Ready(m) => 2,
        ResolveState::Failed(e) => 2,
    }
}

/// Rank of an optional resolver state.
pub open spec fn opt_resolve_rank(s: Option<ResolveState>) -> int {
    match s {
        None => -1,
        Some(x) => resolve_rank(x),
    }
}

/// A terminal resolver state.
pub open spec fn is_terminal(s: ResolveState) -> bool {
    s is Ready || s is Failed
}

/// The resolver state as reported to callers.
#[derive(Debug, Clone, Copy, PartialEq, Eq, Structural)]
pub enum MaterialStatus {
    DescriptorPending,
    ImagesPending,
    Ready,
    Failed(LoadError),
}

/// The texture is backed by a decoded entry of the image store under
/// the texture's own path, pixel for pixel.
pub open spec fn img_backed(st: ImageStore, img: Image) -> bool {
    &&& st.model().contains_key(img.path@)
    &&& st.model()[img.path@].decoded matches Some(i) && i.data@ == img.data@ && i.width
        == img.width && i.height == img.height && i.path@ == img.path@
}

/// The image store is certain to answer `get` for this path: the
/// payload arrived, no failure is recorded, and the bytes decode (or
/// already did).
pub open spec fn image_ready(st: ImageStore, k: Seq<u8>) -> bool {
    st.model().contains_key(k) && entry_ready(st.model()[k])
}

/// The image store records a fetch or decode failure for this path.
pub open spec fn image_failed(st: ImageStore, k: Seq<u8>) -> bool {
    st.model().contains_key(k) && st.model()[k].error is Some
}

/// The image store knows this path and its fetch is at least in
/// flight.
pub open spec fn registered(st: ImageStore, k: Seq<u8>) -> bool {
    st.model().contains_key(k) && status_rank(st.model()[k].status) >= 1
}

/// Every texture reference of this path's parsed descriptor is
/// registered with the image store.
pub open spec fn prefetched(m: MaterialManager, q: Seq<u8>) -> bool {
    m.descs().model().contains_key(q) ==> match m.descs().model()[q].parsed {
        Some(d) => {
            let dm = d.model();
            registered(m.imgs(), join_spec(m.base(), dm.0)) && registered(
                m.imgs(),
                join_spec(m.base(), dm.1),
            ) && registered(m.imgs(), join_spec(m.base(), dm.2))
        },
        None => true,
    }
}

/// The descriptor value the store yields for a path: present when
/// the payload arrived without failure and parses.
pub open spec fn desc_value(st: DescriptorStore, p: Seq<u8>) -> Option<
    (Seq<u8>, Seq<u8>, Seq<u8>, Scalar, Scalar, Color),
> {
    if st.model().contains_key(p) && st.model()[p].status == LoadStatus::Loaded
        && st.model()[p].error is None {
        match st.model()[p].parsed {
            Some(d) => Some(d.model()),
            None => match st.model()[p].bytes {
                Some(b) => parse_material_s(b@),
                None => None,
            },
        }
    } else {
        None
    }
}

/// Between two image-store states, every key outside the three named
/// ones is untouched.
pub open spec fn only3(
    pre: ImageStore,
    post: ImageStore,
    k1: Seq<u8>,
    k2: Seq<u8>,
    k3: Seq<u8>,
) -> bool {
    forall|q: Seq<u8>|
        q != k1 && q != k2 && q != k3 ==> (#[trigger] post.model().contains_key(q)
            == pre.model().contains_key(q)) && (pre.model().contains_key(q) ==> post.model()[q]
            == pre.model()[q])
}

/// Staying within the three keys composes.
proof fn lemma_only3_trans(
    a: ImageStore,
    b: ImageStore,
    c: ImageStore,
    k1: Seq<u8>,
    k2: Seq<u8>,
    k3: Seq<u8>,
)
    requires
        only3(a, b, k1, k2, k3),
        only3(b, c, k1, k2, k3),
    ensures
        only3(a, c, k1, k2, k3),
{
    assert forall|q: Seq<u8>|
        q != k1 && q != k2 && q != k3 implies (#[trigger] c.model().contains_key(q)
        == a.model().contains_key(q)) && (a.model().contains_key(q) ==> c.model()[q]
        == a.model()[q]) by {
        assert(b.model().contains_key(q) == a.model().contains_key(q));
        assert(c.model().contains_key(q) == b.model().contains_key(q));
        if a.model().contains_key(q) {
            assert(b.model()[q] == a.model()[q]);
            assert(c.model()[q] == b.model()[q]);
        }
    }
}

/// The manager owning both stores, the per-path resolver state (the
/// material cache lives in its `Ready` states), and the per-path
/// construction counter.
pub struct MaterialManager {
    base_path: AssetPath,
    ron_manager: DescriptorStore,
    image_manager: ImageStore,
    progress: Table<ResolveState>,
    built: Table<u32>,
}

impl MaterialManager {
    /// The base directory that texture references are resolved
    /// against.
    pub closed spec fn base(self) -> Seq<u8> {
        self.base_path@
    }

    /// The descriptor store.
    pub closed spec fn descs(self) -> DescriptorStore {
        self.ron_manager
    }

    /// The image store.
    pub closed spec fn imgs(self) -> ImageStore {
        self.image_manager
    }

    /// The per-path resolver states.
    pub closed spec fn states(self) -> Map<Seq<u8>, ResolveState> {
        self.progress@
    }

    /// The per-path construction counters.
    pub closed spec fn built_map(self) -> Map<Seq<u8>, u32> {
        self.built@
    }

    /// The resolver state of a path; `None` if never requested.
    pub open spec fn state_of(self, p: Seq<u8>) -> Option<ResolveState> {
        if self.states().contains_key(p) {
            Some(self.states()[p])
        } else {
            None
        }
    }

    /// How often construction ran for a path.
    pub open spec fn built_count(self, p: Seq<u8>) -> int {
        if self.built_map().contains_key(p) {
            self.built_map()[p] as int
        } else {
            0
        }
    }

    /// The status reported for a path; `None` if never requested.
    pub open spec fn status_spec(self, p: Seq<u8>) -> Option<MaterialStatus> {
        match self.state_of(p) {
            None => None,
            Some(ResolveState::DescriptorPending) => Some(MaterialStatus::DescriptorPending),
            Some(ResolveState::ImagesPending) => Some(MaterialStatus::ImagesPending),
            Some(ResolveState::Ready(m)) => Some(MaterialStatus::Ready),
            Some(ResolveState::Failed(e)) => Some(MaterialStatus::Failed(e)),
        }
    }

    /// Manager invariant.
    pub closed spec fn wf(self) -> bool {
        &&& self.ron_manager.wf()
        &&& self.image_manager.wf()
        &&& self.progress.wf()
        &&& self.built.wf()
        &&& forall|k: Seq<u8>| #[trigger] self.built@.contains_key(k) ==> self.built@[k] <= 1
        &&& forall|k: Seq<u8>| #[trigger]
            self.built@.contains_key(k) && self.built@[k] >= 1 ==> self.progress@.contains_key(k)
                && is_terminal(self.progress@[k])
    }

    /// A fresh manager over a base directory, owning two empty
    /// stores and an empty cache.
    pub fn new(base_path: AssetPath) -> (r: Self)
        ensures
            r.wf(),
            r.base() == base_path@,
            r.descs().model() == Map::<Seq<u8>, crate::store::DescEntry>::empty(),
            r.imgs().model() == Map::<Seq<u8>, crate::store::ImgEntry>::empty(),
            r.states() == Map::<Seq<u8>, ResolveState>::empty(),
            r.built_map() == Map::<Seq<u8>, u32>::empty(),
    {
        MaterialManager {
            base_path,
            ron_manager: DescriptorStore::new(),
            image_manager: ImageStore::new(),
            progress: Table::new(),
            built: Table::new(),
        }
    }

    /// Registers a descriptor path with the background loader.
    /// Idempotent: re-inserting a path already known — in particular
    /// one already `Loaded` — changes nothing at all.
    pub fn insert(&mut self, abs_path: &AssetPath)
        requires
            old(self).wf(),
        ensures
            final(self).wf(),
            old(self).descs().model().contains_key(abs_path@) ==> *final(self) == *old(self),
            !old(self).descs().model().contains_key(abs_path@) ==> final(self).descs().model()
                == old(self).descs().model().insert(abs_path@, crate::store::desc_entry_new())
                && final(self).imgs() == old(self).imgs() && final(self).states() == old(self).states() && final(self).built_map() == old(self).built_map() && final(self).base()
                == old(self).base() && final(self).descs().requests_q() == old(self).descs().requests_q() && final(self).descs().fresh_q() == old(self).descs().fresh_q(),
    {
        self.ron_manager.insert(abs_path);
    }

    /// Drops everything recorded for a descriptor path — its store
    /// entry, its resolver state, its cached material, its
    /// construction counter — and registers it anew. This is the
    /// explicit forced-reload operation, the one way to retry a
    /// failed path.
    pub fn force_reload(&mut self, abs_path: &AssetPath)
        requires
            old(self).wf(),
        ensures
            final(self).wf(),
            final(self).descs().model() == old(self).descs().model().insert(
                abs_path@,
                crate::store::desc_entry_new(),
            ),
            final(self).states() == old(self).states().insert(
                abs_path@,
                ResolveState::DescriptorPending,
            ),
            final(self).built_count(abs_path@) == 0,
            final(self).imgs() == old(self).imgs(),
            final(self).base() == old(self).base(),
            final(self).descs().requests_q() == old(self).descs().requests_q(),
            final(self).descs().fresh_q() == old(self).descs().fresh_q(),
            forall|q: Seq<u8>|
                q != abs_path@ ==> final(self).built_count(q) == old(self).built_count(q),
    {
        self.ron_manager.reinsert(abs_path);
        self.progress.set(abs_path, ResolveState::DescriptorPending);
        self.built.set(abs_path, 0);
        proof {
            assert forall|k: Seq<u8>| #[trigger]
                self.built@.contains_key(k) && self.built@[k] >= 1 implies self.progress@.contains_key(k) && is_terminal(self.progress@[k]) by {
                assert(k != abs_path@);
                assert(old(self).built@.contains_key(k) && old(self).built@[k] >= 1);
            }
        }
    }

    /// Triggers the fetch of a descriptor path. Fails exactly when
    /// the path already carries a recorded failure, returning it.
    pub fn load(&mut self, abs_path: &AssetPath) -> (r: Result<(), LoadError>)
        requires
            old(self).wf(),
        ensures
            final(self).wf(),
            final(self).states() == old(self).states(),
            final(self).built_map() == old(self).built_map(),
            final(self).imgs() == old(self).imgs(),
            final(self).base() == old(self).base(),
            final(self).descs().fresh_q() == old(self).descs().fresh_q(),
            ({
                let m = old(self).descs().model();
                if !m.contains_key(abs_path@) || (m[abs_path@].error is None
                    && m[abs_path@].status == LoadStatus::NotLoaded) {
                    r == Ok::<(), LoadError>(()) && final(self).descs().model() == m.insert(
                        abs_path@,
                        crate::store::DescEntry {
                            status: LoadStatus::Loading,
                            bytes: None,
                            parsed: None,
                            error: None,
                        },
                    ) && final(self).descs().requests_q() == old(self).descs().requests_q().push(abs_path@)
                } else {
                    match m[abs_path@].error {
                        Some(err) => r == Err::<(), LoadError>(err) && final(self).descs() == old(self).descs(),
                        None => r == Ok::<(), LoadError>(()) && final(self).descs() == old(self).descs(),
                    }
                }
            }),
    {
        self.ron_manager.load(abs_path)
    }

    /// Returns the shared material for a path, advancing whatever
    /// can be advanced, and `None` while anything is still pending
    /// or after a recorded failure.
    ///
    /// A cache hit returns the same shared handle every time. On the
    /// call that completes resolution, construction runs exactly
    /// once; on any failure — descriptor fetch, descriptor parse, or
    /// a referenced image — the path moves to `Failed` and stays
    /// there until a forced reload. No other path's state is
    /// touched.
    #[verifier::rlimit(80)]
    pub fn get(&mut self, abs_path: &AssetPath) -> (r: Option<Arc<NewMaterial>>)
        requires
            old(self).wf(),
        ensures
            final(self).wf(),
            final(self).base() == old(self).base(),
            forall|q: Seq<u8>|
                q != abs_path@ ==> #[trigger] final(self).state_of(q) == old(self).state_of(q),
            forall|q: Seq<u8>|
                q != abs_path@ ==> #[trigger] final(self).built_count(q) == old(self).built_count(q),
            forall|q: Seq<u8>| #[trigger]
                old(self).descs().model().contains_key(q) ==> final(self).descs().model().contains_key(q) && status_rank(
                    final(self).descs().model()[q].status,
                ) >= status_rank(old(self).descs().model()[q].status),
            forall|q: Seq<u8>| #[trigger]
                old(self).imgs().model().contains_key(q) ==> final(self).imgs().model().contains_key(q) && status_rank(
                    final(self).imgs().model()[q].status,
                ) >= status_rank(old(self).imgs().model()[q].status),
            opt_resolve_rank(final(self).state_of(abs_path@)) >= opt_resolve_rank(
                old(self).state_of(abs_path@),
            ),
            old(self).state_of(abs_path@) matches Some(ResolveState::Ready(m0)) ==> r == Some(m0)
                && *final(self) == *old(self),
            old(self).state_of(abs_path@) matches Some(ResolveState::Failed(e0)) ==> r is None
                && *final(self) == *old(self),
            final(self).state_of(abs_path@) matches Some(ResolveState::Ready(m2)) ==> (old(self).state_of(abs_path@) matches Some(ResolveState::Ready(m3)) || r == Some(m2)),
            old(self).state_of(abs_path@) is None && !old(self).descs().model().contains_key(
                abs_path@,
            ) ==> r is None,
            final(self).built_count(abs_path@) <= 1,
            old(self).state_of(abs_path@) matches Some(st) && is_terminal(st) ==> final(self).built_count(abs_path@) == old(self).built_count(abs_path@),
            r matches Some(mat) ==> final(self).state_of(abs_path@) == Some(
                ResolveState::Ready(mat),
            ),
            r matches Some(mat) ==> (old(self).state_of(abs_path@) matches Some(
                ResolveState::Ready(m1),
            ) || (final(self).built_count(abs_path@) == 1 && (final(self).descs().model()[abs_path@].parsed matches Some(d) && {
                let dm = d.model();
                &&& mat.roughness == dm.3
                &&& mat.metallic == dm.4
                &&& mat.color == dm.5
                &&& mat.main_texture.path@ == join_spec(old(self).base(), dm.0)
                &&& mat.roughness_texture.path@ == join_spec(old(self).base(), dm.1)
                &&& mat.normal_texture.path@ == join_spec(old(self).base(), dm.2)
            }))),
            final(self).state_of(abs_path@) matches Some(ResolveState::Failed(e)) ==> (old(self).state_of(abs_path@) matches Some(ResolveState::Failed(e2)) || (r is None && (((e
                == LoadError::IoError || e == LoadError::MalformedDescriptor) && final(self).descs().error_spec(abs_path@) == Some(e)) || (e matches LoadError::ConstructionError(
                f,
            ) && (exists|q: Seq<u8>| #[trigger]
                final(self).imgs().model().contains_key(q) && image_failure_of(
                    final(self).imgs().model()[q].error,
                ) == Some(f)))))),
            // owed progress: an absent or never-fetched descriptor is
            // moved to Loading and its fetch request queued
            !(old(self).state_of(abs_path@) matches Some(st4) && is_terminal(st4)) && (!old(self).descs().model().contains_key(abs_path@) || old(self).descs().model()[abs_path@].status == LoadStatus::NotLoaded) ==> r is None && final(self).descs().model().contains_key(abs_path@) && final(self).descs().model()[abs_path@].status == LoadStatus::Loading && final(self).descs().requests_q() == old(self).descs().requests_q().push(abs_path@) && final(self).imgs() == old(self).imgs(),
            // while the descriptor is in flight nothing else is
            // touched: in particular no image path is registered
            !(old(self).state_of(abs_path@) matches Some(st5) && is_terminal(st5)) && old(self).descs().status_spec(abs_path@) == Some(LoadStatus::Loading) ==> r is None && final(self).descs() == old(self).descs() && final(self).imgs() == old(self).imgs(),
            // owed failure: a recorded descriptor failure surfaces now
            old(self).descs().error_spec(abs_path@) matches Some(e3) ==> ((old(self).state_of(
                abs_path@,
            ) matches Some(st6) && is_terminal(st6)) || (r is None && final(self).state_of(
                abs_path@,
            ) == Some(ResolveState::Failed(e3)) && final(self).imgs() == old(self).imgs())),
            // owed failure: an unparseable payload surfaces now
            !(old(self).state_of(abs_path@) matches Some(st7) && is_terminal(st7)) && old(self).descs().model().contains_key(abs_path@) && old(self).descs().model()[abs_path@].status == LoadStatus::Loaded && old(self).descs().model()[abs_path@].error is None && old(self).descs().model()[abs_path@].parsed is None && (old(self).descs().model()[abs_path@].bytes matches Some(bb) && parse_material_s(bb@) is None)
                ==> r is None && final(self).state_of(abs_path@) == Some(
                ResolveState::Failed(LoadError::MalformedDescriptor),
            ) && final(self).descs().error_spec(abs_path@) == Some(LoadError::MalformedDescriptor)
                && final(self).imgs() == old(self).imgs(),
            // owed success: with the descriptor available and every
            // referenced image ready, the material is returned
            !(old(self).state_of(abs_path@) matches Some(st8) && is_terminal(st8)) && (desc_value(
                old(self).descs(),
                abs_path@,
            ) matches Some(dm) && image_ready(old(self).imgs(), join_spec(old(self).base(), dm.0))
                && image_ready(old(self).imgs(), join_spec(old(self).base(), dm.1)) && image_ready(
                old(self).imgs(),
                join_spec(old(self).base(), dm.2),
            )) ==> r is Some,
            // owed failure: with the descriptor available and a
            // referenced image carrying a recorded failure, the path
            // fails now with a construction error
            !(old(self).state_of(abs_path@) matches Some(st9) && is_terminal(st9)) && (desc_value(
                old(self).descs(),
                abs_path@,
            ) matches Some(dm) && (image_failed(
                old(self).imgs(),
                join_spec(old(self).base(), dm.0),
            ) || image_failed(old(self).imgs(), join_spec(old(self).base(), dm.1)) || image_failed(
                old(self).imgs(),
                join_spec(old(self).base(), dm.2),
            ))) ==> r is None && final(self).state_of(abs_path@) matches Some(
                ResolveState::Failed(LoadError::ConstructionError(f4)),
            ),
            // image-store footprint: at most the three references of
            // the available descriptor are touched
            desc_value(old(self).descs(), abs_path@) matches Some(dm) ==> (forall|q: Seq<u8>|
                q != join_spec(old(self).base(), dm.0) && q != join_spec(old(self).base(), dm.1)
                    && q != join_spec(old(self).base(), dm.2) ==> (#[trigger] final(self).imgs().model().contains_key(q) == old(self).imgs().model().contains_key(q)) && (
                old(self).imgs().model().contains_key(q) ==> final(self).imgs().model()[q] == old(self).imgs().model()[q])),
            desc_value(old(self).descs(), abs_path@) is None ==> final(self).imgs() == old(self).imgs(),
    {
        match self.progress.get(abs_path) {
            Some(ResolveState::Ready(m)) => {
                return Some(arc_clone(m));
            },
            Some(ResolveState::Failed(e)) => {
                return None;
            },
            _ => {},
        }
        proof {
            assert(old(self).built_count(abs_path@) == 0) by {
                if old(self).built@.contains_key(abs_path@) && old(self).built@[abs_path@] >= 1 {
                    assert(is_terminal(old(self).progress@[abs_path@]));
                }
            }
        }
        let d = match self.ron_manager.get(abs_path) {
            Some(d) => d,
            None => {
                let ghost mid = *self;
                match self.ron_manager.error(abs_path) {
                    Some(e) => {
                        proof {
                            self.ron_manager.lemma_entry_wf(abs_path@);
                        }
                        self.progress.set(abs_path, ResolveState::Failed(e));
                        proof {
                            self.lemma_after(*old(self), abs_path@, false);
                        }
                        return None;
                    },
                    None => {
                        proof {
                            assert(mid == *old(self));
                            if old(self).descs().model().contains_key(abs_path@) {
                                old(self).ron_manager.lemma_entry_wf(abs_path@);
                            }
                        }
                        let _ = self.ron_manager.load(abs_path);
                        let already = self.progress.get(abs_path).is_some();
                        if !already {
                            self.progress.set(abs_path, ResolveState::DescriptorPending);
                        }
                        proof {
                            assert forall|q: Seq<u8>| #[trigger]
                                old(self).descs().model().contains_key(q) implies self.descs(
                            ).model().contains_key(q) && (old(self).descs().model()[q].parsed
                                is Some ==> self.descs().model()[q].parsed == old(self).descs().model()[q].parsed) by {
                                if q == abs_path@ {
                                    old(self).ron_manager.lemma_entry_wf(q);
                                }
                            }
                            self.lemma_after(*old(self), abs_path@, false);
                        }
                        return None;
                    },
                }
            },
        };
        self.progress.set(abs_path, ResolveState::ImagesPending);
        proof {
            self.lemma_after(*old(self), abs_path@, false);
        }
        self.poll_images(abs_path, &d)
    }

    /// Ensures the three texture references of a parsed descriptor
    /// are registered and loading, decodes whatever has arrived, and
    /// constructs the material once all three are decoded. A fetch
    /// or decode failure already recorded for any referenced image
    /// moves the path to `Failed` with a construction error wrapping
    /// that image's failure; if every referenced image's payload is
    /// there and decodes, construction is owed and runs now.
    #[verifier::rlimit(80)]
    fn poll_images(&mut self, abs_path: &AssetPath, d: &MaterialRon) -> (r: Option<
        Arc<NewMaterial>,
    >)
        requires
            old(self).wf(),
            old(self).state_of(abs_path@) == Some(ResolveState::ImagesPending),
            old(self).built_count(abs_path@) == 0,
            old(self).descs().model().contains_key(abs_path@),
            old(self).descs().model()[abs_path@].parsed matches Some(d2) && d2.model()
                == d.model(),
        ensures
            final(self).wf(),
            final(self).base() == old(self).base(),
            final(self).descs() == old(self).descs(),
            forall|q: Seq<u8>|
                q != abs_path@ ==> #[trigger] final(self).state_of(q) == old(self).state_of(q),
            forall|q: Seq<u8>|
                q != abs_path@ ==> #[trigger] final(self).built_count(q) == old(self).built_count(
                    q,
                ),
            forall|q: Seq<u8>| #[trigger]
                old(self).imgs().model().contains_key(q) ==> final(self).imgs().model().contains_key(q) && status_rank(
                    final(self).imgs().model()[q].status,
                ) >= status_rank(old(self).imgs().model()[q].status),
            final(self).built_count(abs_path@) <= 1,
            image_ready(old(self).imgs(), join_spec(old(self).base(), d.model().0)) && image_ready(
                old(self).imgs(),
                join_spec(old(self).base(), d.model().1),
            ) && image_ready(old(self).imgs(), join_spec(old(self).base(), d.model().2)) ==> r
                is Some,
            (image_failed(old(self).imgs(), join_spec(old(self).base(), d.model().0))
                || image_failed(old(self).imgs(), join_spec(old(self).base(), d.model().1))
                || image_failed(old(self).imgs(), join_spec(old(self).base(), d.model().2))) ==> r
                is None && final(self).state_of(abs_path@) matches Some(
                ResolveState::Failed(LoadError::ConstructionError(f2)),
            ),
            forall|q: Seq<u8>|
                q != join_spec(old(self).base(), d.model().0) && q != join_spec(
                    old(self).base(),
                    d.model().1,
                ) && q != join_spec(old(self).base(), d.model().2) ==> (#[trigger] final(self).imgs().model().contains_key(q) == old(self).imgs().model().contains_key(q)) && (
                old(self).imgs().model().contains_key(q) ==> final(self).imgs().model()[q] == old(self).imgs().model()[q]),
            match r {
                Some(mat) => final(self).state_of(abs_path@) == Some(ResolveState::Ready(mat))
                    && final(self).built_count(abs_path@) == 1 && img_backed(
                    final(self).imgs(),
                    mat.main_texture,
                ) && img_backed(final(self).imgs(), mat.roughness_texture) && img_backed(
                    final(self).imgs(),
                    mat.normal_texture,
                ) && mat.main_texture.wf() && mat.roughness_texture.wf() && mat.normal_texture.wf()
                    && ({
                    let dm = d.model();
                    &&& mat.roughness == dm.3
                    &&& mat.metallic == dm.4
                    &&& mat.color == dm.5
                    &&& mat.main_texture.path@ == join_spec(old(self).base(), dm.0)
                    &&& mat.roughness_texture.path@ == join_spec(old(self).base(), dm.1)
                    &&& mat.normal_texture.path@ == join_spec(old(self).base(), dm.2)
                }),
                None => final(self).built_count(abs_path@) == 0 && (final(self).state_of(
                    abs_path@,
                ) == Some(ResolveState::ImagesPending) || (final(self).state_of(
                    abs_path@,
                ) matches Some(ResolveState::Failed(le)) && le matches LoadError::ConstructionError(
                    f,
                ) && (exists|q: Seq<u8>| #[trigger]
                    final(self).imgs().model().contains_key(q) && image_failure_of(
                        final(self).imgs().model()[q].error,
                    ) == Some(f)))),
            },
    {
        let (k1, k2, k3) = match &d {
            MaterialRon::PBRMaterial { main_texture, roughness_texture, normal_texture, .. } => (
                self.base_path.join(main_texture),
                self.base_path.join(roughness_texture),
                self.base_path.join(normal_texture),
            ),
        };
        let ghost im0 = self.image_manager;
        self.image_manager.insert(&k1);
        let ghost im1 = self.image_manager;
        let _ = self.image_manager.load(&k1);
        let ghost im2 = self.image_manager;
        self.image_manager.insert(&k2);
        let ghost im3 = self.image_manager;
        let _ = self.image_manager.load(&k2);
        let ghost im4 = self.image_manager;
        self.image_manager.insert(&k3);
        let ghost im5 = self.image_manager;
        let _ = self.image_manager.load(&k3);
        let ghost im6 = self.image_manager;
        proof {
            crate::store::lemma_img_evolves_trans(im0, im1, im2);
            crate::store::lemma_img_evolves_trans(im0, im2, im3);
            crate::store::lemma_img_evolves_trans(im0, im3, im4);
            crate::store::lemma_img_evolves_trans(im0, im4, im5);
            crate::store::lemma_img_evolves_trans(im0, im5, im6);
            assert(only3(im0, im1, k1@, k2@, k3@));
            assert(only3(im1, im2, k1@, k2@, k3@));
            assert(only3(im2, im3, k1@, k2@, k3@));
            assert(only3(im3, im4, k1@, k2@, k3@));
            assert(only3(im4, im5, k1@, k2@, k3@));
            assert(only3(im5, im6, k1@, k2@, k3@));
            lemma_only3_trans(im0, im1, im2, k1@, k2@, k3@);
            lemma_only3_trans(im0, im2, im3, k1@, k2@, k3@);
            lemma_only3_trans(im0, im3, im4, k1@, k2@, k3@);
            lemma_only3_trans(im0, im4, im5, k1@, k2@, k3@);
            lemma_only3_trans(im0, im5, im6, k1@, k2@, k3@);
        }
        // surface a failure already recorded for any referenced
        // image before polling payloads
        let e1 = self.image_manager.error(&k1);
        let e2 = self.image_manager.error(&k2);
        let e3 = self.image_manager.error(&k3);
        let first_err: Option<LoadError> = match e1 {
            Some(e) => Some(e),
            None => match e2 {
                Some(e) => Some(e),
                None => e3,
            },
        };
        match first_err {
            Some(e) => {
                proof {
                    if self.image_manager.error_spec(k1@) == Some(e) || e1 is Some {
                        self.image_manager.lemma_entry_wf(k1@);
                    }
                    if e2 is Some {
                        self.image_manager.lemma_entry_wf(k2@);
                    }
                    if e3 is Some {
                        self.image_manager.lemma_entry_wf(k3@);
                    }
                }
                let f = to_image_failure(e);
                self.progress.set(abs_path, ResolveState::Failed(LoadError::ConstructionError(f)));
                proof {
                    self.lemma_after(*old(self), abs_path@, false);
                    if e1 is Some {
                        assert(self.image_manager.model().contains_key(k1@) && image_failure_of(
                            self.image_manager.model()[k1@].error,
                        ) == Some(f));
                    } else if e2 is Some {
                        assert(self.image_manager.model().contains_key(k2@) && image_failure_of(
                            self.image_manager.model()[k2@].error,
                        ) == Some(f));
                    } else {
                        assert(self.image_manager.model().contains_key(k3@) && image_failure_of(
                            self.image_manager.model()[k3@].error,
                        ) == Some(f));
                    }
                    assert(self.image_manager == im6);
                    assert(only3(im0, self.image_manager, k1@, k2@, k3@));
                    if image_ready(im0, k1@) && image_ready(im0, k2@) && image_ready(im0, k3@) {
                        assert(false);
                    }
                }
                return None;
            },
            None => {},
        }
        proof {
            // a failure recorded before this call would have been
            // seen by the scan above
            if image_failed(im0, k1@) {
                assert(im6.model()[k1@].error == im0.model()[k1@].error);
                assert(false);
            }
            if image_failed(im0, k2@) {
                assert(false);
            }
            if image_failed(im0, k3@) {
                assert(false);
            }
        }
        let i1 = match self.image_manager.get(&k1) {
            Some(i) => i,
            None => {
                match self.image_manager.error(&k1) {
                    Some(e) => {
                        proof {
                            self.image_manager.lemma_entry_wf(k1@);
                        }
                        let f = to_image_failure(e);
                        self.progress.set(
                            abs_path,
                            ResolveState::Failed(LoadError::ConstructionError(f)),
                        );
                        proof {
                            self.lemma_after(*old(self), abs_path@, false);
                            assert(self.image_manager.model().contains_key(k1@)
                                && image_failure_of(self.image_manager.model()[k1@].error)
                                == Some(f));
                            assert(only3(im6, self.image_manager, k1@, k2@, k3@));
                            lemma_only3_trans(im0, im6, self.image_manager, k1@, k2@, k3@);
                            if image_ready(im0, k1@) {
                                assert(false);
                            }
                        }
                        return None;
                    },
                    None => {
                        proof {
                            self.lemma_after(*old(self), abs_path@, false);
                            assert(only3(im6, self.image_manager, k1@, k2@, k3@));
                            lemma_only3_trans(im0, im6, self.image_manager, k1@, k2@, k3@);
                            if image_ready(im0, k1@) {
                                assert(false);
                            }
                        }
                        return None;
                    },
                }
            },
        };
        let ghost im7 = self.image_manager;
        proof {
            crate::store::lemma_img_evolves_trans(im0, im6, im7);
            assert(only3(im6, im7, k1@, k2@, k3@));
            lemma_only3_trans(im0, im6, im7, k1@, k2@, k3@);
        }
        let i2 = match self.image_manager.get(&k2) {
            Some(i) => i,
            None => {
                match self.image_manager.error(&k2) {
                    Some(e) => {
                        proof {
                            self.image_manager.lemma_entry_wf(k2@);
                        }
                        let f = to_image_failure(e);
                        self.progress.set(
                            abs_path,
                            ResolveState::Failed(LoadError::ConstructionError(f)),
                        );
                        proof {
                            self.lemma_after(*old(self), abs_path@, false);
                            assert(self.image_manager.model().contains_key(k2@)
                                && image_failure_of(self.image_manager.model()[k2@].error)
                                == Some(f));
                            assert(only3(im7, self.image_manager, k1@, k2@, k3@));
                            lemma_only3_trans(im0, im7, self.image_manager, k1@, k2@, k3@);
                            if image_ready(im0, k2@) {
                                assert(false);
                            }
                        }
                        return None;
                    },
                    None => {
                        proof {
                            self.lemma_after(*old(self), abs_path@, false);
                            assert(only3(im7, self.image_manager, k1@, k2@, k3@));
                            lemma_only3_trans(im0, im7, self.image_manager, k1@, k2@, k3@);
                            if image_ready(im0, k2@) {
                                assert(false);
                            }
                        }
                        return None;
                    },
                }
            },
        };
        let ghost im8 = self.image_manager;
        proof {
            crate::store::lemma_img_evolves_trans(im0, im7, im8);
            assert(only3(im7, im8, k1@, k2@, k3@));
            lemma_only3_trans(im0, im7, im8, k1@, k2@, k3@);
        }
        let i3 = match self.image_manager.get(&k3) {
            Some(i) => i,
            None => {
                match self.image_manager.error(&k3) {
                    Some(e) => {
                        proof {
                            self.image_manager.lemma_entry_wf(k3@);
                        }
                        let f = to_image_failure(e);
                        self.progress.set(
                            abs_path,
                            ResolveState::Failed(LoadError::ConstructionError(f)),
                        );
                        proof {
                            self.lemma_after(*old(self), abs_path@, false);
                            assert(self.image_manager.model().contains_key(k3@)
                                && image_failure_of(self.image_manager.model()[k3@].error)
                                == Some(f));
                            assert(only3(im8, self.image_manager, k1@, k2@, k3@));
                            lemma_only3_trans(im0, im8, self.image_manager, k1@, k2@, k3@);
                            if image_ready(im0, k3@) {
                                assert(false);
                            }
                        }
                        return None;
                    },
                    None => {
                        proof {
                            self.lemma_after(*old(self), abs_path@, false);
                            assert(only3(im8, self.image_manager, k1@, k2@, k3@));
                            lemma_only3_trans(im0, im8, self.image_manager, k1@, k2@, k3@);
                            if image_ready(im0, k3@) {
                                assert(false);
                            }
                        }
                        return None;
                    },
                }
            },
        };
        let ghost im9 = self.image_manager;
        proof {
            crate::store::lemma_img_evolves_trans(im0, im8, im9);
            assert(only3(im8, im9, k1@, k2@, k3@));
            lemma_only3_trans(im0, im8, im9, k1@, k2@, k3@);
        }
        self.built.set(abs_path, 1);
        let mat = self.try_construct(&d, i1, i2, i3);
        let handle = Arc::new(mat);
        let out = arc_clone(&handle);
        self.progress.set(abs_path, ResolveState::Ready(handle));
        proof {
            self.lemma_after(*old(self), abs_path@, true);
            crate::store::lemma_img_evolves_trans(im6, im7, im8);
            crate::store::lemma_img_evolves_trans(im6, im8, im9);
            crate::store::lemma_img_evolves_trans(im7, im8, im9);
            assert(im7.model().contains_key(k1@));
            im7.lemma_entry_wf(k1@);
            assert(im8.model().contains_key(k2@));
            im8.lemma_entry_wf(k2@);
            assert(im9.model().contains_key(k3@));
            im9.lemma_entry_wf(k3@);
            assert(img_backed(self.image_manager, mat.main_texture));
            assert(img_backed(self.image_manager, mat.roughness_texture));
            assert(img_backed(self.image_manager, mat.normal_texture));
            assert(self.image_manager == im9);
            assert(only3(im0, self.image_manager, k1@, k2@, k3@));
        }
        Some(out)
    }


    /// Re-establishes the manager invariant for the path-local
    /// updates that `get` makes.
    #[verifier::spinoff_prover]
    #[verifier::rlimit(50)]
    proof fn lemma_after(self, pre: MaterialManager, p: Seq<u8>, built_set: bool)
        requires
            self.ron_manager.wf(),
            self.image_manager.wf(),
            self.progress.wf(),
            self.built.wf(),
            pre.wf(),
            // built: untouched, or set to 1 at p beside a terminal state
            built_set ==> self.built@ == pre.built@.insert(p, 1u32)
                && self.progress@.contains_key(p) && is_terminal(self.progress@[p]),
            !built_set ==> self.built@ == pre.built@,
            pre.built_count(p) == 0 || (self.progress@.contains_key(p) && is_terminal(
                self.progress@[p],
            )),
            // progress: untouched at all other keys
            forall|q: Seq<u8>|
                q != p ==> (#[trigger] self.progress@.contains_key(q) == pre.progress@.contains_key(
                    q,
                ) && (pre.progress@.contains_key(q) ==> self.progress@[q] == pre.progress@[q])),
        ensures
            self.wf(),
    {
        assert forall|k: Seq<u8>| #[trigger] self.built@.contains_key(k) implies self.built@[k]
            <= 1 by {
            if !built_set || k != p {
                assert(pre.built@.contains_key(k));
            }
        }
        assert forall|k: Seq<u8>| #[trigger]
            self.built@.contains_key(k) && self.built@[k] >= 1 implies self.progress@.contains_key(
            k,
        ) && is_terminal(self.progress@[k]) by {
            if !built_set && k == p {
                assert(pre.built@.contains_key(p) && pre.built@[p] >= 1);
                assert(pre.built_count(p) >= 1);
            } else if k != p {
                assert(pre.built@.contains_key(k) && pre.built@[k] >= 1);
                assert(pre.progress@.contains_key(k) && is_terminal(pre.progress@[k]));
            }
            assert(self.progress@.contains_key(k));
            assert(is_terminal(self.progress@[k]));
        }
    }


    /// Transfers the manager invariant when only the stores changed.
    proof fn lemma_wf_stores_only(self, pre: MaterialManager)
        requires
            self.ron_manager.wf(),
            self.image_manager.wf(),
            self.progress.wf(),
            self.built.wf(),
            pre.wf(),
            self.progress@ == pre.progress@,
            self.built@ == pre.built@,
        ensures
            self.wf(),
    {
        assert forall|k: Seq<u8>| #[trigger] self.built@.contains_key(k) implies self.built@[k]
            <= 1 by {
            assert(pre.built@.contains_key(k));
        }
        assert forall|k: Seq<u8>| #[trigger]
            self.built@.contains_key(k) && self.built@[k] >= 1 implies self.progress@.contains_key(
            k,
        ) && is_terminal(self.progress@[k]) by {
            assert(pre.built@.contains_key(k) && pre.built@[k] >= 1);
            assert(pre.progress@.contains_key(k) && is_terminal(pre.progress@[k]));
        }
    }

    /// The failure the descriptor store records for a path.
    pub fn descriptor_error(&self, p: &AssetPath) -> (r: Option<LoadError>)
        requires
            self.wf(),
        ensures
            r == self.descs().error_spec(p@),
    {
        self.ron_manager.error(p)
    }

    /// The failure the image store records for a path.
    pub fn image_error(&self, p: &AssetPath) -> (r: Option<LoadError>)
        requires
            self.wf(),
        ensures
            r == self.imgs().error_spec(p@),
    {
        self.image_manager.error(p)
    }

    /// Hands the loader the descriptor paths whose fetch is wanted.
    pub fn take_descriptor_requests(&mut self) -> (r: Vec<AssetPath>)
        requires
            old(self).wf(),
        ensures
            final(self).wf(),
            r@.map_values(|q: AssetPath| q@) == old(self).descs().requests_q(),
            final(self).descs().requests_q() == Seq::<Seq<u8>>::empty(),
            final(self).descs().model() == old(self).descs().model(),
            final(self).imgs() == old(self).imgs(),
            final(self).states() == old(self).states(),
            final(self).built_map() == old(self).built_map(),
            final(self).base() == old(self).base(),
    {
        let r = self.ron_manager.take_requests();
        proof {
            self.lemma_wf_stores_only(*old(self));
        }
        r
    }

    /// Hands the loader the image paths whose fetch is wanted.
    pub fn take_image_requests(&mut self) -> (r: Vec<AssetPath>)
        requires
            old(self).wf(),
        ensures
            final(self).wf(),
            r@.map_values(|q: AssetPath| q@) == old(self).imgs().requests_q(),
            final(self).imgs().requests_q() == Seq::<Seq<u8>>::empty(),
            final(self).imgs().model() == old(self).imgs().model(),
            final(self).descs() == old(self).descs(),
            final(self).states() == old(self).states(),
            final(self).built_map() == old(self).built_map(),
            final(self).base() == old(self).base(),
    {
        let r = self.image_manager.take_requests();
        proof {
            self.lemma_wf_stores_only(*old(self));
        }
        r
    }

    /// The loader reports the outcome of a descriptor fetch.
    pub fn deliver_descriptor(&mut self, p: &AssetPath, outcome: Result<Vec<u8>, ()>)
        requires
            old(self).wf(),
        ensures
            final(self).wf(),
            final(self).imgs() == old(self).imgs(),
            final(self).states() == old(self).states(),
            final(self).built_map() == old(self).built_map(),
            final(self).base() == old(self).base(),
            final(self).descs().requests_q() == old(self).descs().requests_q(),
            ({
                let m = old(self).descs().model();
                if m.contains_key(p@) && m[p@].status == LoadStatus::Loading {
                    match outcome {
                        Ok(b) => final(self).descs().model() == m.insert(
                            p@,
                            crate::store::DescEntry {
                                status: LoadStatus::Loaded,
                                bytes: Some(b),
                                parsed: None,
                                error: None,
                            },
                        ) && final(self).descs().fresh_q() == old(self).descs().fresh_q().push(p@),
                        Err(u) => final(self).descs().model() == m.insert(
                            p@,
                            crate::store::DescEntry {
                                status: LoadStatus::Loaded,
                                bytes: None,
                                parsed: None,
                                error: Some(LoadError::IoError),
                            },
                        ) && final(self).descs().fresh_q() == old(self).descs().fresh_q().push(p@),
                    }
                } else {
                    final(self).descs() == old(self).descs()
                }
            }),
    {
        self.ron_manager.complete_load(p, outcome);
        proof {
            self.lemma_wf_stores_only(*old(self));
        }
    }

    /// The loader reports the outcome of an image fetch.
    pub fn deliver_image(&mut self, p: &AssetPath, outcome: Result<Vec<u8>, ()>)
        requires
            old(self).wf(),
        ensures
            final(self).wf(),
            final(self).descs() == old(self).descs(),
            final(self).states() == old(self).states(),
            final(self).built_map() == old(self).built_map(),
            final(self).base() == old(self).base(),
            final(self).imgs().requests_q() == old(self).imgs().requests_q(),
            crate::store::img_evolves(old(self).imgs(), final(self).imgs()),
            ({
                let m = old(self).imgs().model();
                if m.contains_key(p@) && m[p@].status == LoadStatus::Loading {
                    match outcome {
                        Ok(b) => final(self).imgs().model() == m.insert(
                            p@,
                            crate::store::ImgEntry {
                                status: LoadStatus::Loaded,
                                bytes: Some(b),
                                decoded: None,
                                error: None,
                            },
                        ),
                        Err(u) => final(self).imgs().model() == m.insert(
                            p@,
                            crate::store::ImgEntry {
                                status: LoadStatus::Loaded,
                                bytes: None,
                                decoded: None,
                                error: Some(LoadError::IoError),
                            },
                        ),
                    }
                } else {
                    final(self).imgs() == old(self).imgs()
                }
            }),
    {
        self.image_manager.complete_load(p, outcome);
        proof {
            self.lemma_wf_stores_only(*old(self));
        }
    }

    /// Drives background bookkeeping once per frame: drains the
    /// descriptor paths newly loaded since the last call and
    /// registers and triggers the image references of each one that
    /// parses, so later `get` calls find them in flight. Resolver
    /// states, counters and cached materials are untouched.
    #[verifier::rlimit(80)]
    pub fn maintain(&mut self)
        requires
            old(self).wf(),
        ensures
            final(self).wf(),
            final(self).base() == old(self).base(),
            final(self).descs().fresh_q() == Seq::<Seq<u8>>::empty(),
            final(self).states() == old(self).states(),
            final(self).built_map() == old(self).built_map(),
            crate::store::img_evolves(old(self).imgs(), final(self).imgs()),
            forall|q: Seq<u8>| #[trigger]
                old(self).descs().model().contains_key(q) ==> final(self).descs().model().contains_key(q) && status_rank(
                    final(self).descs().model()[q].status,
                ) >= status_rank(old(self).descs().model()[q].status),
            // owed prefetch: every drained descriptor that parses has
            // its three texture references registered and in flight
            forall|i: int|
                0 <= i < old(self).descs().fresh_q().len() ==> prefetched(
                    *final(self),
                    #[trigger] old(self).descs().fresh_q()[i],
                ),
    {
        let ghost fresh0 = old(self).descs().fresh_q();
        let drained = self.ron_manager.drain_newly_loaded();
        let ghost snap = *self;
        proof {
            assert(crate::store::img_evolves(snap.image_manager, self.image_manager));
        }
        let mut idx: usize = 0;
        while idx < drained.len()
            invariant
                self.wf(),
                self.base() == snap.base(),
                self.states() == snap.states(),
                self.built_map() == snap.built_map(),
                self.descs().fresh_q() == Seq::<Seq<u8>>::empty(),
                drained@.map_values(|q: AssetPath| q@) == fresh0,
                idx <= drained@.len(),
                crate::store::img_evolves(snap.image_manager, self.image_manager),
                forall|q: Seq<u8>| #[trigger]
                    snap.descs().model().contains_key(q) ==> self.descs().model().contains_key(q)
                        && status_rank(self.descs().model()[q].status) >= status_rank(
                        snap.descs().model()[q].status,
                    ),
                forall|i: int| 0 <= i < idx ==> prefetched(*self, #[trigger] drained@[i]@),
            decreases drained.len() - idx,
        {
            let ghost it0 = *self;
            let p = &drained[idx];
            match self.ron_manager.get(p) {
                Some(d) => {
                    let (k1, k2, k3) = match &d {
                        MaterialRon::PBRMaterial {
                            main_texture,
                            roughness_texture,
                            normal_texture,
                            ..
                        } => (
                            self.base_path.join(main_texture),
                            self.base_path.join(roughness_texture),
                            self.base_path.join(normal_texture),
                        ),
                    };
                    let ghost jm0 = self.image_manager;
                    self.image_manager.insert(&k1);
                    let ghost jm1 = self.image_manager;
                    let _ = self.image_manager.load(&k1);
                    let ghost jm2 = self.image_manager;
                    self.image_manager.insert(&k2);
                    let ghost jm3 = self.image_manager;
                    let _ = self.image_manager.load(&k2);
                    let ghost jm4 = self.image_manager;
                    self.image_manager.insert(&k3);
                    let ghost jm5 = self.image_manager;
                    let _ = self.image_manager.load(&k3);
                    let ghost jm6 = self.image_manager;
                    proof {
                        crate::store::lemma_img_evolves_trans(jm0, jm1, jm2);
                        crate::store::lemma_img_evolves_trans(jm0, jm2, jm3);
                        crate::store::lemma_img_evolves_trans(jm0, jm3, jm4);
                        crate::store::lemma_img_evolves_trans(jm0, jm4, jm5);
                        crate::store::lemma_img_evolves_trans(jm0, jm5, jm6);
                        crate::store::lemma_img_evolves_trans(jm2, jm3, jm4);
                        crate::store::lemma_img_evolves_trans(jm2, jm4, jm5);
                        crate::store::lemma_img_evolves_trans(jm2, jm5, jm6);
                        crate::store::lemma_img_evolves_trans(jm4, jm5, jm6);
                        crate::store::lemma_img_evolves_trans(
                            snap.image_manager,
                            jm0,
                            self.image_manager,
                        );
                        self.lemma_wf_stores_only(it0);
                        assert forall|q: Seq<u8>| #[trigger]
                            snap.descs().model().contains_key(q) implies self.descs(
                        ).model().contains_key(q) && status_rank(self.descs().model()[q].status)
                            >= status_rank(snap.descs().model()[q].status) by {
                            assert(it0.descs().model().contains_key(q));
                        }
                        assert(registered(jm2, k1@)) by {
                            if jm0.model().contains_key(k1@) {
                                jm0.lemma_entry_wf(k1@);
                            }
                        }
                        assert(registered(jm4, k2@)) by {
                            if jm2.model().contains_key(k2@) {
                                jm2.lemma_entry_wf(k2@);
                            }
                        }
                        assert(registered(jm6, k3@)) by {
                            if jm4.model().contains_key(k3@) {
                                jm4.lemma_entry_wf(k3@);
                            }
                        }
                        assert(registered(jm6, k1@));
                        assert(registered(jm6, k2@));
                        assert(prefetched(*self, p@));
                        assert forall|i: int|
                            0 <= i < idx + 1 implies prefetched(
                            *self,
                            #[trigger] drained@[i]@,
                        ) by {
                            if i < idx && drained@[i]@ != p@ {
                                assert(prefetched(it0, drained@[i]@));
                            }
                        }
                    }
                },
                None => {
                    proof {
                        self.lemma_wf_stores_only(it0);
                        assert forall|q: Seq<u8>| #[trigger]
                            snap.descs().model().contains_key(q) implies self.descs(
                        ).model().contains_key(q) && status_rank(self.descs().model()[q].status)
                            >= status_rank(snap.descs().model()[q].status) by {
                            assert(it0.descs().model().contains_key(q));
                        }
                        if it0.descs().model().contains_key(p@) {
                            it0.ron_manager.lemma_entry_wf(p@);
                        }
                        assert(self.descs().model().contains_key(p@)
                            ==> self.descs().model()[p@].parsed is None);
                        assert forall|i: int|
                            0 <= i < idx + 1 implies prefetched(
                            *self,
                            #[trigger] drained@[i]@,
                        ) by {
                            if i < idx {
                                assert(prefetched(it0, drained@[i]@));
                            }
                        }
                    }
                },
            }
            idx = idx + 1;
        }
        proof {
            assert forall|i: int|
                0 <= i < old(self).descs().fresh_q().len() implies prefetched(
                *self,
                #[trigger] old(self).descs().fresh_q()[i],
            ) by {
                assert(old(self).descs().fresh_q()[i] == drained@[i]@);
            }
        }
    }

    /// The resolver status of a path; `None` if never requested
    /// through `get` or a forced reload.
    pub fn status(&self, p: &AssetPath) -> (r: Option<MaterialStatus>)
        requires
            self.wf(),
        ensures
            r == self.status_spec(p@),
    {
        match self.progress.get(p) {
            None => None,
            Some(ResolveState::DescriptorPending) => Some(MaterialStatus::DescriptorPending),
            Some(ResolveState::ImagesPending) => Some(MaterialStatus::ImagesPending),
            Some(ResolveState::Ready(m)) => Some(MaterialStatus::Ready),
            Some(ResolveState::Failed(e)) => Some(MaterialStatus::Failed(*e)),
        }
    }

    /// The load status the descriptor store records for a path.
    pub fn descriptor_status(&self, p: &AssetPath) -> (r: Option<LoadStatus>)
        requires
            self.wf(),
        ensures
            r == self.descs().status_spec(p@),
    {
        self.ron_manager.status(p)
    }

    /// The load status the image store records for a path.
    pub fn image_status(&self, p: &AssetPath) -> (r: Option<LoadStatus>)
        requires
            self.wf(),
        ensures
            r == self.imgs().status_spec(p@),
    {
        self.image_manager.status(p)
    }

    /// How often construction has run for a path: zero or one until
    /// a forced reload resets it.
    pub fn construction_count(&self, p: &AssetPath) -> (r: u32)
        requires
            self.wf(),
        ensures
            r == self.built_count(p@),
    {
        match self.built.get(p) {
            Some(c) => *c,
            None => 0,
        }
    }
}

/// The image failure a store error stands for, if it is one an image
/// can record.
pub open spec fn image_failure_of(e: Option<LoadError>) -> Option<ImageFailure> {
    match e {
        Some(LoadError::IoError) => Some(ImageFailure::IoError),
        Some(LoadError::DecodeFailed(d)) => Some(ImageFailure::DecodeFailed(d)),
        _ => None,
    }
}

/// Maps a recorded image-store failure to the failure a construction
/// error wraps.
fn to_image_failure(e: LoadError) -> (r: ImageFailure)
    requires
        e == LoadError::IoError || e matches LoadError::DecodeFailed(..),
    ensures
        image_failure_of(Some(e)) == Some(r),
{
    match e {
        LoadError::IoError => ImageFailure::IoError,
        LoadError::DecodeFailed(d) => ImageFailure::DecodeFailed(d),
        LoadError::MalformedDescriptor => {
            assert(false);
            ImageFailure::IoError
        },
        LoadError::ConstructionError(f) => {
            assert(false);
            ImageFailure::IoError
        },
    }
}

impl MaterialManager {
    /// Assembles a runtime material from a descriptor and its three
    /// decoded textures: the construction hook, run at most once per
    /// path. The textures are taken as they are; the scalar
    /// parameters are taken literally from the descriptor.
    pub fn try_construct(
        &self,
        mat_ron: &MaterialRon,
        main: Image,
        rough: Image,
        normal: Image,
    ) -> (r: NewMaterial)
        ensures
            r.main_texture == main,
            r.roughness_texture == rough,
            r.normal_texture == normal,
            r.roughness == mat_ron.model().3,
            r.metallic == mat_ron.model().4,
            r.color == mat_ron.model().5,
    {
        match mat_ron {
            MaterialRon::PBRMaterial { roughness, metallic, color, .. } => NewMaterial {
                main_texture: main,
                roughness_texture: rough,
                normal_texture: normal,
                roughness: *roughness,
                metallic: *metallic,
                color: *color,
            },
        }
    }
}

/// Law: a path never inserted is unobservable — no resolver status,
/// no store status, no recorded failure, and no construction has
/// ever run for it.
pub proof fn lemma_never_inserted(m: MaterialManager, p: Seq<u8>)
    requires
        m.wf(),
        !m.descs().model().contains_key(p),
        !m.states().contains_key(p),
    ensures
        m.status_spec(p) is None,
        m.descs().status_spec(p) is None,
        m.descs().error_spec(p) is None,
        m.built_count(p) == 0,
{
    if m.built_map().contains_key(p) && m.built_map()[p] >= 1 {
        assert(m.states().contains_key(p));
    }
}

/// Law: construction runs at most once per path; only an explicit
/// forced reload can arm it again.
pub proof fn lemma_at_most_once(m: MaterialManager, p: Seq<u8>)
    requires
        m.wf(),
    ensures
        m.built_count(p) <= 1,
{
}

/// Relies on `std::sync::Arc::clone`: the returned handle refers to
/// the same shared material as the argument.
#[verifier::external_body]
fn arc_clone(a: &Arc<NewMaterial>) -> (r: Arc<NewMaterial>)
    ensures
        r == *a,
{
    Arc::clone(a)
}

} // verus!
