//! Typed stores pairing an asynchronous byte loader with a per-path
//! status and a lazily-parsed cache.
//!
//! The background loader is an external service. A store never
//! blocks: `insert` registers a path, `load` marks it in flight and
//! records a fetch request, and the service later reports the fetched
//! bytes (or its failure) through `complete_load`. Parsing or
//! decoding happens at most once, lazily, on the first `get` after
//! the payload arrived; its failure is recorded and surfaced through
//! `error`, never panicking and never disturbing other paths.

use vstd::prelude::*;

use crate::descriptor::{parse_material, parse_material_s, MaterialRon};
use crate::errors::{DecodeError, LoadError};
use crate::image::{decode, decode_spec, Image};
use crate::path::AssetPath;
use crate::table::Table;

verus! {

/// Per-path load progress, monotonic for a given path save for an
/// explicit re-insertion.
#[derive(Debug, Clone, Copy, PartialEq, Eq, Structural)]
pub enum LoadStatus {
    NotLoaded,
    Loading,
    Loaded,
}

/// Forward order on statuses: a path only ever moves up this rank.
pub open spec fn status_rank(s: LoadStatus) -> int {
    match s {
        LoadStatus::NotLoaded => 0,
        LoadStatus::Loading => 1,
        LoadStatus::Loaded => 2,
    }
}


/// One descriptor-store entry.
pub struct DescEntry {
    pub status: LoadStatus,
    pub bytes: Option<Vec<u8>>,
    pub parsed: Option<MaterialRon>,
    pub error: Option<LoadError>,
}

/// Entry invariant: payload and caches exist only once loaded; a
/// cached parse really is the parse of the payload; a recorded
/// failure really has no parse.
pub open spec fn desc_entry_wf(e: DescEntry) -> bool {
    &&& e.status != LoadStatus::Loaded ==> e.bytes is None && e.parsed is None && e.error is None
    &&& e.status == LoadStatus::Loaded ==> (e.bytes is Some || e.error == Some(
        LoadError::IoError,
    ))
    &&& e.error == Some(LoadError::IoError) ==> e.bytes is None && e.parsed is None
    &&& (match e.parsed {
        Some(d) => e.bytes matches Some(b) && parse_material_s(b@) == Some(d.model())
            && e.error is None,
        None => true,
    })
    &&& (match e.error {
        Some(err) => err == LoadError::IoError || err == LoadError::MalformedDescriptor,
        None => true,
    })
    &&& e.error == Some(LoadError::MalformedDescriptor) ==> (e.bytes matches Some(b)
        && parse_material_s(b@) is None && e.parsed is None)
}

/// A fresh, just-registered entry.
pub open spec fn desc_entry_new() -> DescEntry {
    DescEntry { status: LoadStatus::NotLoaded, bytes: None, parsed: None, error: None }
}

/// Inserting a well-formed entry keeps every entry well-formed.
proof fn lemma_desc_map_wf_insert(m: Map<Seq<u8>, DescEntry>, p: Seq<u8>, e: DescEntry)
    requires
        forall|k: Seq<u8>| #[trigger] m.contains_key(k) ==> desc_entry_wf(m[k]),
        desc_entry_wf(e),
    ensures
        forall|k: Seq<u8>| #[trigger]
            m.insert(p, e).contains_key(k) ==> desc_entry_wf(m.insert(p, e)[k]),
{
    assert forall|k: Seq<u8>| #[trigger] m.insert(p, e).contains_key(k) implies desc_entry_wf(
        m.insert(p, e)[k],
    ) by {
        if k != p {
            assert(m.contains_key(k));
        }
    }
}

/// The store of material descriptors.
pub struct DescriptorStore {
    entries: Table<DescEntry>,
    requests: Vec<AssetPath>,
    fresh: Vec<AssetPath>,
}

impl DescriptorStore {
    /// The per-path entries.
    pub closed spec fn model(self) -> Map<Seq<u8>, DescEntry> {
        self.entries@
    }

    /// Paths whose fetch has been requested and not yet taken by the
    /// loader.
    pub closed spec fn requests_q(self) -> Seq<Seq<u8>> {
        self.requests@.map_values(|q: AssetPath| q@)
    }

    /// Paths that finished loading since the last drain.
    pub closed spec fn fresh_q(self) -> Seq<Seq<u8>> {
        self.fresh@.map_values(|q: AssetPath| q@)
    }

    /// Store invariant.
    pub closed spec fn wf(self) -> bool {
        &&& self.entries.wf()
        &&& forall|k: Seq<u8>| #[trigger]
            self.model().contains_key(k) ==> desc_entry_wf(self.model()[k])
    }

    /// The status recorded for a path; `None` if never inserted.
    pub open spec fn status_spec(self, p: Seq<u8>) -> Option<LoadStatus> {
        if self.model().contains_key(p) {
            Some(self.model()[p].status)
        } else {
            None
        }
    }

    /// The failure recorded for a path, if any.
    pub open spec fn error_spec(self, p: Seq<u8>) -> Option<LoadError> {
        if self.model().contains_key(p) {
            self.model()[p].error
        } else {
            None
        }
    }

    /// Every entry of a well-formed store satisfies the entry
    /// invariant.
    pub proof fn lemma_entry_wf(self, k: Seq<u8>)
        requires
            self.wf(),
            self.model().contains_key(k),
        ensures
            desc_entry_wf(self.model()[k]),
    {
    }

    /// An empty store.
    pub fn new() -> (r: Self)
        ensures
            r.wf(),
            r.model() == Map::<Seq<u8>, DescEntry>::empty(),
            r.requests_q() == Seq::<Seq<u8>>::empty(),
            r.fresh_q() == Seq::<Seq<u8>>::empty(),
    {
        let r = DescriptorStore { entries: Table::new(), requests: Vec::new(), fresh: Vec::new() };
        proof {
            assert(r.requests_q() =~= Seq::<Seq<u8>>::empty());
            assert(r.fresh_q() =~= Seq::<Seq<u8>>::empty());
        }
        r
    }

    /// Registers a path; re-inserting an already-known path is a
    /// no-op.
    pub fn insert(&mut self, p: &AssetPath)
        requires
            old(self).wf(),
        ensures
            final(self).wf(),
            old(self).model().contains_key(p@) ==> *final(self) == *old(self),
            !old(self).model().contains_key(p@) ==> final(self).model() == old(self).model().insert(p@, desc_entry_new()) && final(self).requests_q() == old(self).requests_q() && final(self).fresh_q() == old(self).fresh_q(),
    {
        let known = self.entries.get(p).is_some();
        if !known {
            self.entries.set(p, DescEntry {
                status: LoadStatus::NotLoaded,
                bytes: None,
                parsed: None,
                error: None,
            });
            proof {
                lemma_desc_map_wf_insert(old(self).model(), p@, desc_entry_new());
            }
        }
    }

    /// Drops any recorded state for the path and registers it anew:
    /// the explicit forced-reload operation.
    pub fn reinsert(&mut self, p: &AssetPath)
        requires
            old(self).wf(),
        ensures
            final(self).wf(),
            final(self).model() == old(self).model().insert(p@, desc_entry_new()),
            final(self).requests_q() == old(self).requests_q(),
            final(self).fresh_q() == old(self).fresh_q(),
    {
        self.entries.set(p, DescEntry {
            status: LoadStatus::NotLoaded,
            bytes: None,
            parsed: None,
            error: None,
        });
        proof {
            lemma_desc_map_wf_insert(old(self).model(), p@, desc_entry_new());
        }
    }

    /// Triggers the fetch of a path, registering it first if needed.
    /// Fails exactly when the path is already in a recorded failure
    /// state, returning that failure.
    pub fn load(&mut self, p: &AssetPath) -> (r: Result<(), LoadError>)
        requires
            old(self).wf(),
        ensures
            final(self).wf(),
            final(self).fresh_q() == old(self).fresh_q(),
            ({
                let m = old(self).model();
                if !m.contains_key(p@) {
                    &&& r == Ok::<(), LoadError>(())
                    &&& final(self).model() == m.insert(
                        p@,
                        DescEntry {
                            status: LoadStatus::Loading,
                            bytes: None,
                            parsed: None,
                            error: None,
                        },
                    )
                    &&& final(self).requests_q() == old(self).requests_q().push(p@)
                } else {
                    match m[p@].error {
                        Some(err) => r == Err::<(), LoadError>(err) && *final(self) == *old(self),
                        None => {
                            if m[p@].status == LoadStatus::NotLoaded {
                                &&& r == Ok::<(), LoadError>(())
                                &&& final(self).model() == m.insert(
                                    p@,
                                    DescEntry {
                                        status: LoadStatus::Loading,
                                        bytes: None,
                                        parsed: None,
                                        error: None,
                                    },
                                )
                                &&& final(self).requests_q() == old(self).requests_q().push(p@)
                            } else {
                                r == Ok::<(), LoadError>(()) && *final(self) == *old(self)
                            }
                        },
                    }
                }
            }),
    {
        let mut start = false;
        match self.entries.get(p) {
            None => {
                start = true;
            },
            Some(e) => {
                match &e.error {
                    Some(err) => {
                        return Err(*err);
                    },
                    None => {
                        if e.status == LoadStatus::NotLoaded {
                            start = true;
                        }
                    },
                }
            },
        }
        if start {
            self.entries.set(p, DescEntry {
                status: LoadStatus::Loading,
                bytes: None,
                parsed: None,
                error: None,
            });
            self.requests.push(p.clone());
            proof {
                lemma_desc_map_wf_insert(
                    old(self).model(),
                    p@,
                    DescEntry {
                        status: LoadStatus::Loading,
                        bytes: None,
                        parsed: None,
                        error: None,
                    },
                );
                assert(self.requests_q() =~= old(self).requests_q().push(p@));
            }
        }
        Ok(())
    }

    /// Hands the loader the paths whose fetch is wanted; each is
    /// reported once.
    pub fn take_requests(&mut self) -> (r: Vec<AssetPath>)
        requires
            old(self).wf(),
        ensures
            final(self).wf(),
            r@.map_values(|q: AssetPath| q@) == old(self).requests_q(),
            final(self).requests_q() == Seq::<Seq<u8>>::empty(),
            final(self).model() == old(self).model(),
            final(self).fresh_q() == old(self).fresh_q(),
    {
        let mut out: Vec<AssetPath> = Vec::new();
        core::mem::swap(&mut out, &mut self.requests);
        proof {
            assert(self.entries == old(self).entries);
            assert(self.requests@ =~= Seq::<AssetPath>::empty());
            assert(self.requests_q() =~= Seq::<Seq<u8>>::empty());
            assert(self.entries.wf());
            assert(self.model() == old(self).model());
            assert(forall|k: Seq<u8>| #[trigger]
                self.model().contains_key(k) ==> desc_entry_wf(self.model()[k]));
            assert(self.wf());
        }
        out
    }

    /// The loader reports the outcome of a fetch. Anything but an
    /// answer to a path in flight is ignored; otherwise the path
    /// becomes `Loaded`, holding the bytes or the fetch failure, and
    /// joins the newly-loaded queue.
    pub fn complete_load(&mut self, p: &AssetPath, outcome: Result<Vec<u8>, ()>)
        requires
            old(self).wf(),
        ensures
            final(self).wf(),
            final(self).requests_q() == old(self).requests_q(),
            ({
                let m = old(self).model();
                if m.contains_key(p@) && m[p@].status == LoadStatus::Loading {
                    match outcome {
                        Ok(b) => final(self).model() == m.insert(
                            p@,
                            DescEntry {
                                status: LoadStatus::Loaded,
                                bytes: Some(b),
                                parsed: None,
                                error: None,
                            },
                        ) && final(self).fresh_q() == old(self).fresh_q().push(p@),
                        Err(u) => final(self).model() == m.insert(
                            p@,
                            DescEntry {
                                status: LoadStatus::Loaded,
                                bytes: None,
                                parsed: None,
                                error: Some(LoadError::IoError),
                            },
                        ) && final(self).fresh_q() == old(self).fresh_q().push(p@),
                    }
                } else {
                    *final(self) == *old(self)
                }
            }),
    {
        let in_flight = match self.entries.get(p) {
            Some(e) => e.status == LoadStatus::Loading,
            None => false,
        };
        if in_flight {
            match outcome {
                Ok(b) => {
                    let ghost e = DescEntry {
                        status: LoadStatus::Loaded,
                        bytes: Some(b),
                        parsed: None,
                        error: None,
                    };
                    self.entries.set(p, DescEntry {
                        status: LoadStatus::Loaded,
                        bytes: Some(b),
                        parsed: None,
                        error: None,
                    });
                    proof {
                        lemma_desc_map_wf_insert(old(self).model(), p@, e);
                    }
                },
                Err(_) => {
                    self.entries.set(p, DescEntry {
                        status: LoadStatus::Loaded,
                        bytes: None,
                        parsed: None,
                        error: Some(LoadError::IoError),
                    });
                    proof {
                        lemma_desc_map_wf_insert(old(self).model(), p@, DescEntry {
                            status: LoadStatus::Loaded,
                            bytes: None,
                            parsed: None,
                            error: Some(LoadError::IoError),
                        });
                    }
                },
            }
            self.fresh.push(p.clone());
            proof {
                assert(self.fresh_q() =~= old(self).fresh_q().push(p@));
            }
        }
    }

    /// The paths that finished loading since the last drain; the
    /// queue is emptied.
    pub fn drain_newly_loaded(&mut self) -> (r: Vec<AssetPath>)
        requires
            old(self).wf(),
        ensures
            final(self).wf(),
            r@.map_values(|q: AssetPath| q@) == old(self).fresh_q(),
            final(self).fresh_q() == Seq::<Seq<u8>>::empty(),
            final(self).model() == old(self).model(),
            final(self).requests_q() == old(self).requests_q(),
    {
        let mut out: Vec<AssetPath> = Vec::new();
        core::mem::swap(&mut out, &mut self.fresh);
        proof {
            assert(self.fresh@ =~= Seq::<AssetPath>::empty());
            assert(self.fresh_q() =~= Seq::<Seq<u8>>::empty());
            assert(self.model() == old(self).model());
            assert(forall|k: Seq<u8>| #[trigger]
                self.model().contains_key(k) ==> desc_entry_wf(self.model()[k]));
            assert(self.wf());
        }
        out
    }

    /// The status recorded for a path.
    pub fn status(&self, p: &AssetPath) -> (r: Option<LoadStatus>)
        requires
            self.wf(),
        ensures
            r == self.status_spec(p@),
    {
        match self.entries.get(p) {
            Some(e) => Some(e.status),
            None => None,
        }
    }

    /// The failure recorded for a path, if any.
    pub fn error(&self, p: &AssetPath) -> (r: Option<LoadError>)
        requires
            self.wf(),
        ensures
            r == self.error_spec(p@),
    {
        match self.entries.get(p) {
            Some(e) => e.error,
            None => None,
        }
    }

    /// The parsed descriptor, if the payload arrived and parses.
    /// Parsing happens on the first such call and is cached; a parse
    /// failure is recorded once and surfaced through `error`.
    pub fn get(&mut self, p: &AssetPath) -> (r: Option<MaterialRon>)
        requires
            old(self).wf(),
        ensures
            final(self).wf(),
            final(self).requests_q() == old(self).requests_q(),
            final(self).fresh_q() == old(self).fresh_q(),
            final(self).model().dom() == old(self).model().dom(),
            forall|q: Seq<u8>|
                q != p@ && #[trigger] old(self).model().contains_key(q)
                    ==> final(self).model()[q] == old(self).model()[q],
            ({
                let m = old(self).model();
                if !m.contains_key(p@) || m[p@].status != LoadStatus::Loaded || m[p@].error
                    is Some {
                    r is None && *final(self) == *old(self)
                } else {
                    match m[p@].parsed {
                        Some(d) => (match r {
                            Some(out) => out.model() == d.model() && *final(self) == *old(self),
                            None => false,
                        }),
                        None => (match m[p@].bytes {
                            Some(b) => ({
                                let fe = final(self).model()[p@];
                                match parse_material_s(b@) {
                                    Some(dm) => (match r {
                                        Some(out) => {
                                            &&& out.model() == dm
                                            &&& fe.status == LoadStatus::Loaded
                                            &&& fe.error is None
                                            &&& fe.parsed matches Some(d2) && d2.model() == dm
                                            &&& fe.bytes matches Some(b2) && b2@ == b@
                                        },
                                        None => false,
                                    }),
                                    None => {
                                        &&& r is None
                                        &&& fe.status == LoadStatus::Loaded
                                        &&& fe.error == Some(LoadError::MalformedDescriptor)
                                        &&& fe.parsed is None
                                        &&& fe.bytes matches Some(b2) && b2@ == b@
                                    },
                                }
                            }),
                            None => false,
                        }),
                    }
                }
            }),
    {
        let mut to_parse: Option<Vec<u8>> = None;
        match self.entries.get(p) {
            None => {
                return None;
            },
            Some(e) => {
                if e.status != LoadStatus::Loaded {
                    return None;
                }
                if e.error.is_some() {
                    return None;
                }
                match &e.parsed {
                    Some(d) => {
                        return Some(d.clone());
                    },
                    None => {},
                }
                match &e.bytes {
                    Some(b) => {
                        to_parse = Some(b.clone());
                    },
                    None => {
                        assert(false);
                    },
                }
            },
        }
        let bytes = match to_parse {
            Some(b) => b,
            None => {
                assert(false);
                return None;
            },
        };
        match parse_material(&bytes) {
            Ok(d) => {
                let out = d.clone();
                let ghost gb = bytes@;
                self.entries.set(p, DescEntry {
                    status: LoadStatus::Loaded,
                    bytes: Some(bytes),
                    parsed: Some(d),
                    error: None,
                });
                proof {
                    let e = final(self).model()[p@];
                    assert(desc_entry_wf(e));
                    lemma_desc_map_wf_insert(old(self).model(), p@, e);
                    assert(final(self).model().dom() =~= old(self).model().dom());
                }
                Some(out)
            },
            Err(e) => {
                self.entries.set(p, DescEntry {
                    status: LoadStatus::Loaded,
                    bytes: Some(bytes),
                    parsed: None,
                    error: Some(e),
                });
                proof {
                    let en = final(self).model()[p@];
                    assert(desc_entry_wf(en));
                    lemma_desc_map_wf_insert(old(self).model(), p@, en);
                    assert(final(self).model().dom() =~= old(self).model().dom());
                }
                None
            },
        }
    }
}


/// One image-store entry.
pub struct ImgEntry {
    pub status: LoadStatus,
    pub bytes: Option<Vec<u8>>,
    pub decoded: Option<Image>,
    pub error: Option<LoadError>,
}

/// The decoded image holds exactly what the decoder yields for the
/// entry's payload, tagged with the entry's own path.
pub open spec fn image_matches(img: Image, t: (u32, u32, Seq<u8>), p: Seq<u8>) -> bool {
    img.width == t.0 && img.height == t.1 && img.data@ == t.2 && img.path@ == p
}

/// Entry invariant of the image store, keyed by the entry's path.
pub open spec fn img_entry_wf(k: Seq<u8>, e: ImgEntry) -> bool {
    &&& e.status != LoadStatus::Loaded ==> e.bytes is None && e.decoded is None && e.error is None
    &&& e.status == LoadStatus::Loaded ==> (e.bytes is Some || e.error == Some(
        LoadError::IoError,
    ))
    &&& e.error == Some(LoadError::IoError) ==> e.bytes is None && e.decoded is None
    &&& (match e.decoded {
        Some(img) => e.bytes matches Some(b) && (decode_spec(b@) matches Ok(t)
            && image_matches(img, t, k)) && e.error is None && img.wf(),
        None => true,
    })
    &&& (match e.error {
        Some(err) => err == LoadError::IoError || err matches LoadError::DecodeFailed(de),
        None => true,
    })
    &&& (match e.error {
        Some(LoadError::DecodeFailed(de)) => e.bytes matches Some(b) && decode_spec(b@) == Err::<
            (u32, u32, Seq<u8>),
            DecodeError,
        >(de) && e.decoded is None,
        _ => true,
    })
}

/// A fresh, just-registered image entry.
pub open spec fn img_entry_new() -> ImgEntry {
    ImgEntry { status: LoadStatus::NotLoaded, bytes: None, decoded: None, error: None }
}

/// The entry's payload arrived, no failure is recorded, and the
/// bytes decode (or already did): a `get` on this path must yield an
/// image.
pub open spec fn entry_ready(e: ImgEntry) -> bool {
    &&& e.status == LoadStatus::Loaded
    &&& e.error is None
    &&& (e.decoded is Some || (e.bytes matches Some(b) && decode_spec(b@) is Ok))
}

/// Between two image-store states: every known path stays known, no
/// status moves backward, a decoded image never changes, and a path
/// whose payload decodes stays that way.
pub open spec fn img_evolves(pre: ImageStore, post: ImageStore) -> bool {
    forall|q: Seq<u8>| #[trigger]
        pre.model().contains_key(q) ==> post.model().contains_key(q) && status_rank(
            post.model()[q].status,
        ) >= status_rank(pre.model()[q].status) && (pre.model()[q].decoded is Some
            ==> post.model()[q].decoded == pre.model()[q].decoded) && (entry_ready(
            pre.model()[q],
        ) ==> entry_ready(post.model()[q])) && (pre.model()[q].error is Some
            ==> post.model()[q].error == pre.model()[q].error)
}

/// Evolution composes.
pub proof fn lemma_img_evolves_trans(a: ImageStore, b: ImageStore, c: ImageStore)
    requires
        img_evolves(a, b),
        img_evolves(b, c),
    ensures
        img_evolves(a, c),
{
    assert forall|q: Seq<u8>| #[trigger]
        a.model().contains_key(q) implies c.model().contains_key(q) && status_rank(
        c.model()[q].status,
    ) >= status_rank(a.model()[q].status) && (a.model()[q].decoded is Some
        ==> c.model()[q].decoded == a.model()[q].decoded) && (entry_ready(a.model()[q])
        ==> entry_ready(c.model()[q])) && (a.model()[q].error is Some ==> c.model()[q].error
        == a.model()[q].error) by {
        assert(b.model().contains_key(q));
    }
}

/// Inserting a well-formed entry keeps every image entry well-formed.
proof fn lemma_img_map_wf_insert(m: Map<Seq<u8>, ImgEntry>, p: Seq<u8>, e: ImgEntry)
    requires
        forall|k: Seq<u8>| #[trigger] m.contains_key(k) ==> img_entry_wf(k, m[k]),
        img_entry_wf(p, e),
    ensures
        forall|k: Seq<u8>| #[trigger]
            m.insert(p, e).contains_key(k) ==> img_entry_wf(k, m.insert(p, e)[k]),
{
    assert forall|k: Seq<u8>| #[trigger] m.insert(p, e).contains_key(k) implies img_entry_wf(
        k,
        m.insert(p, e)[k],
    ) by {
        if k != p {
            assert(m.contains_key(k));
        }
    }
}

/// The store of decoded images.
pub struct ImageStore {
    entries: Table<ImgEntry>,
    requests: Vec<AssetPath>,
    fresh: Vec<AssetPath>,
}

impl ImageStore {
    /// The per-path entries.
    pub closed spec fn model(self) -> Map<Seq<u8>, ImgEntry> {
        self.entries@
    }

    /// Paths whose fetch has been requested and not yet taken by the
    /// loader.
    pub closed spec fn requests_q(self) -> Seq<Seq<u8>> {
        self.requests@.map_values(|q: AssetPath| q@)
    }

    /// Paths that finished loading since the last drain.
    pub closed spec fn fresh_q(self) -> Seq<Seq<u8>> {
        self.fresh@.map_values(|q: AssetPath| q@)
    }

    /// Store invariant.
    pub closed spec fn wf(self) -> bool {
        &&& self.entries.wf()
        &&& forall|k: Seq<u8>| #[trigger]
            self.model().contains_key(k) ==> img_entry_wf(k, self.model()[k])
    }

    /// The status recorded for a path; `None` if never inserted.
    pub open spec fn status_spec(self, p: Seq<u8>) -> Option<LoadStatus> {
        if self.model().contains_key(p) {
            Some(self.model()[p].status)
        } else {
            None
        }
    }

    /// The failure recorded for a path, if any.
    pub open spec fn error_spec(self, p: Seq<u8>) -> Option<LoadError> {
        if self.model().contains_key(p) {
            self.model()[p].error
        } else {
            None
        }
    }

    /// Every entry of a well-formed store satisfies the entry
    /// invariant.
    pub proof fn lemma_entry_wf(self, k: Seq<u8>)
        requires
            self.wf(),
            self.model().contains_key(k),
        ensures
            img_entry_wf(k, self.model()[k]),
    {
    }

    /// Law: a decoded image cached by the store is exactly the
    /// decoder's output for the byte payload the loader delivered
    /// for that path — the round trip through the store loses
    /// nothing.
    pub proof fn lemma_decoded_faithful(self, k: Seq<u8>)
        requires
            self.wf(),
            self.model().contains_key(k),
            self.model()[k].decoded is Some,
        ensures
            self.model()[k].bytes is Some,
            self.model()[k].decoded matches Some(img) ==> (self.model()[k].bytes matches Some(b)
                && decode_spec(b@) == Ok::<(u32, u32, Seq<u8>), DecodeError>(
                (img.width, img.height, img.data@),
            ) && img.path@ == k && img.wf()),
    {
    }

    /// An empty store.
    pub fn new() -> (r: Self)
        ensures
            r.wf(),
            r.model() == Map::<Seq<u8>, ImgEntry>::empty(),
            r.requests_q() == Seq::<Seq<u8>>::empty(),
            r.fresh_q() == Seq::<Seq<u8>>::empty(),
    {
        let r = ImageStore { entries: Table::new(), requests: Vec::new(), fresh: Vec::new() };
        proof {
            assert(r.requests_q() =~= Seq::<Seq<u8>>::empty());
            assert(r.fresh_q() =~= Seq::<Seq<u8>>::empty());
        }
        r
    }

    /// Registers a path; re-inserting an already-known path is a
    /// no-op.
    pub fn insert(&mut self, p: &AssetPath)
        requires
            old(self).wf(),
        ensures
            final(self).wf(),
            old(self).model().contains_key(p@) ==> *final(self) == *old(self),
            !old(self).model().contains_key(p@) ==> final(self).model() == old(self).model().insert(p@, img_entry_new()) && final(self).requests_q() == old(self).requests_q() && final(self).fresh_q() == old(self).fresh_q(),
            img_evolves(*old(self), *final(self)),
    {
        let known = self.entries.get(p).is_some();
        if !known {
            self.entries.set(p, ImgEntry {
                status: LoadStatus::NotLoaded,
                bytes: None,
                decoded: None,
                error: None,
            });
            proof {
                lemma_img_map_wf_insert(old(self).model(), p@, img_entry_new());
            }
        }
        proof {
            assert forall|q: Seq<u8>| #[trigger]
                old(self).model().contains_key(q) implies self.model().contains_key(q)
                && status_rank(self.model()[q].status) >= status_rank(old(self).model()[q].status)
                && (old(self).model()[q].decoded is Some ==> self.model()[q].decoded == old(self).model()[q].decoded) by {
                assert(q != p@ || old(self).model().contains_key(p@));
            }
        }
    }

    /// Drops any recorded state for the path and registers it anew:
    /// the explicit forced-reload operation.
    pub fn reinsert(&mut self, p: &AssetPath)
        requires
            old(self).wf(),
        ensures
            final(self).wf(),
            final(self).model() == old(self).model().insert(p@, img_entry_new()),
            final(self).requests_q() == old(self).requests_q(),
            final(self).fresh_q() == old(self).fresh_q(),
    {
        self.entries.set(p, ImgEntry {
            status: LoadStatus::NotLoaded,
            bytes: None,
            decoded: None,
            error: None,
        });
        proof {
            lemma_img_map_wf_insert(old(self).model(), p@, img_entry_new());
        }
    }

    /// Triggers the fetch of a path, registering it first if needed.
    /// Fails exactly when the path is already in a recorded failure
    /// state, returning that failure.
    pub fn load(&mut self, p: &AssetPath) -> (r: Result<(), LoadError>)
        requires
            old(self).wf(),
        ensures
            final(self).wf(),
            final(self).fresh_q() == old(self).fresh_q(),
            ({
                let m = old(self).model();
                if !m.contains_key(p@) {
                    &&& r == Ok::<(), LoadError>(())
                    &&& final(self).model() == m.insert(
                        p@,
                        ImgEntry {
                            status: LoadStatus::Loading,
                            bytes: None,
                            decoded: None,
                            error: None,
                        },
                    )
                    &&& final(self).requests_q() == old(self).requests_q().push(p@)
                } else {
                    match m[p@].error {
                        Some(err) => r == Err::<(), LoadError>(err) && *final(self) == *old(self),
                        None => {
                            if m[p@].status == LoadStatus::NotLoaded {
                                &&& r == Ok::<(), LoadError>(())
                                &&& final(self).model() == m.insert(
                                    p@,
                                    ImgEntry {
                                        status: LoadStatus::Loading,
                                        bytes: None,
                                        decoded: None,
                                        error: None,
                                    },
                                )
                                &&& final(self).requests_q() == old(self).requests_q().push(p@)
                            } else {
                                r == Ok::<(), LoadError>(()) && *final(self) == *old(self)
                            }
                        },
                    }
                }
            }),
            img_evolves(*old(self), *final(self)),
    {
        let mut start = false;
        match self.entries.get(p) {
            None => {
                start = true;
            },
            Some(e) => {
                match &e.error {
                    Some(err) => {
                        return Err(*err);
                    },
                    None => {
                        if e.status == LoadStatus::NotLoaded {
                            start = true;
                        }
                    },
                }
            },
        }
        if start {
            self.entries.set(p, ImgEntry {
                status: LoadStatus::Loading,
                bytes: None,
                decoded: None,
                error: None,
            });
            self.requests.push(p.clone());
            proof {
                lemma_img_map_wf_insert(
                    old(self).model(),
                    p@,
                    ImgEntry {
                        status: LoadStatus::Loading,
                        bytes: None,
                        decoded: None,
                        error: None,
                    },
                );
                assert(self.requests_q() =~= old(self).requests_q().push(p@));
            }
        }
        proof {
            assert forall|q: Seq<u8>| #[trigger]
                old(self).model().contains_key(q) implies self.model().contains_key(q)
                && status_rank(self.model()[q].status) >= status_rank(old(self).model()[q].status)
                && (old(self).model()[q].decoded is Some ==> self.model()[q].decoded == old(self).model()[q].decoded) by {
                if q == p@ {
                    assert(img_entry_wf(q, old(self).model()[q]));
                }
            }
        }
        Ok(())
    }

    /// Hands the loader the paths whose fetch is wanted; each is
    /// reported once.
    pub fn take_requests(&mut self) -> (r: Vec<AssetPath>)
        requires
            old(self).wf(),
        ensures
            final(self).wf(),
            r@.map_values(|q: AssetPath| q@) == old(self).requests_q(),
            final(self).requests_q() == Seq::<Seq<u8>>::empty(),
            final(self).model() == old(self).model(),
            final(self).fresh_q() == old(self).fresh_q(),
    {
        let mut out: Vec<AssetPath> = Vec::new();
        core::mem::swap(&mut out, &mut self.requests);
        proof {
            assert(self.requests@ =~= Seq::<AssetPath>::empty());
            assert(self.requests_q() =~= Seq::<Seq<u8>>::empty());
            assert(self.model() == old(self).model());
            assert(forall|k: Seq<u8>| #[trigger]
                self.model().contains_key(k) ==> img_entry_wf(k, self.model()[k]));
            assert(self.wf());
        }
        out
    }

    /// The loader reports the outcome of a fetch. Anything but an
    /// answer to a path in flight is ignored; otherwise the path
    /// becomes `Loaded`, holding the bytes or the fetch failure, and
    /// joins the newly-loaded queue.
    pub fn complete_load(&mut self, p: &AssetPath, outcome: Result<Vec<u8>, ()>)
        requires
            old(self).wf(),
        ensures
            final(self).wf(),
            final(self).requests_q() == old(self).requests_q(),
            ({
                let m = old(self).model();
                if m.contains_key(p@) && m[p@].status == LoadStatus::Loading {
                    match outcome {
                        Ok(b) => final(self).model() == m.insert(
                            p@,
                            ImgEntry {
                                status: LoadStatus::Loaded,
                                bytes: Some(b),
                                decoded: None,
                                error: None,
                            },
                        ) && final(self).fresh_q() == old(self).fresh_q().push(p@),
                        Err(u) => final(self).model() == m.insert(
                            p@,
                            ImgEntry {
                                status: LoadStatus::Loaded,
                                bytes: None,
                                decoded: None,
                                error: Some(LoadError::IoError),
                            },
                        ) && final(self).fresh_q() == old(self).fresh_q().push(p@),
                    }
                } else {
                    *final(self) == *old(self)
                }
            }),
            img_evolves(*old(self), *final(self)),
    {
        let in_flight = match self.entries.get(p) {
            Some(e) => e.status == LoadStatus::Loading,
            None => false,
        };
        if in_flight {
            match outcome {
                Ok(b) => {
                    let ghost e = ImgEntry {
                        status: LoadStatus::Loaded,
                        bytes: Some(b),
                        decoded: None,
                        error: None,
                    };
                    self.entries.set(p, ImgEntry {
                        status: LoadStatus::Loaded,
                        bytes: Some(b),
                        decoded: None,
                        error: None,
                    });
                    proof {
                        lemma_img_map_wf_insert(old(self).model(), p@, e);
                    }
                },
                Err(_) => {
                    self.entries.set(p, ImgEntry {
                        status: LoadStatus::Loaded,
                        bytes: None,
                        decoded: None,
                        error: Some(LoadError::IoError),
                    });
                    proof {
                        lemma_img_map_wf_insert(old(self).model(), p@, ImgEntry {
                            status: LoadStatus::Loaded,
                            bytes: None,
                            decoded: None,
                            error: Some(LoadError::IoError),
                        });
                    }
                },
            }
            self.fresh.push(p.clone());
            proof {
                assert(self.fresh_q() =~= old(self).fresh_q().push(p@));
            }
        }
        proof {
            assert forall|q: Seq<u8>| #[trigger]
                old(self).model().contains_key(q) implies self.model().contains_key(q)
                && status_rank(self.model()[q].status) >= status_rank(old(self).model()[q].status)
                && (old(self).model()[q].decoded is Some ==> self.model()[q].decoded == old(self).model()[q].decoded) by {
                if q == p@ {
                    assert(img_entry_wf(q, old(self).model()[q]));
                }
            }
        }
    }

    /// The paths that finished loading since the last drain; the
    /// queue is emptied.
    pub fn drain_newly_loaded(&mut self) -> (r: Vec<AssetPath>)
        requires
            old(self).wf(),
        ensures
            final(self).wf(),
            r@.map_values(|q: AssetPath| q@) == old(self).fresh_q(),
            final(self).fresh_q() == Seq::<Seq<u8>>::empty(),
            final(self).model() == old(self).model(),
            final(self).requests_q() == old(self).requests_q(),
    {
        let mut out: Vec<AssetPath> = Vec::new();
        core::mem::swap(&mut out, &mut self.fresh);
        proof {
            assert(self.fresh@ =~= Seq::<AssetPath>::empty());
            assert(self.fresh_q() =~= Seq::<Seq<u8>>::empty());
            assert(self.model() == old(self).model());
            assert(forall|k: Seq<u8>| #[trigger]
                self.model().contains_key(k) ==> img_entry_wf(k, self.model()[k]));
            assert(self.wf());
        }
        out
    }

    /// The status recorded for a path.
    pub fn status(&self, p: &AssetPath) -> (r: Option<LoadStatus>)
        requires
            self.wf(),
        ensures
            r == self.status_spec(p@),
    {
        match self.entries.get(p) {
            Some(e) => Some(e.status),
            None => None,
        }
    }

    /// The failure recorded for a path, if any.
    pub fn error(&self, p: &AssetPath) -> (r: Option<LoadError>)
        requires
            self.wf(),
        ensures
            r == self.error_spec(p@),
    {
        match self.entries.get(p) {
            Some(e) => e.error,
            None => None,
        }
    }

    /// The decoded image, if the payload arrived and decodes.
    /// Decoding happens on the first such call and is cached; a
    /// decode failure is recorded once and surfaced through `error`.
    pub fn get(&mut self, p: &AssetPath) -> (r: Option<Image>)
        requires
            old(self).wf(),
        ensures
            final(self).wf(),
            final(self).requests_q() == old(self).requests_q(),
            final(self).fresh_q() == old(self).fresh_q(),
            final(self).model().dom() == old(self).model().dom(),
            forall|q: Seq<u8>|
                q != p@ && #[trigger] old(self).model().contains_key(q)
                    ==> final(self).model()[q] == old(self).model()[q],
            ({
                let m = old(self).model();
                if !m.contains_key(p@) || m[p@].status != LoadStatus::Loaded || m[p@].error
                    is Some {
                    r is None && *final(self) == *old(self)
                } else {
                    match m[p@].decoded {
                        Some(img) => (match r {
                            Some(out) => out.data@ == img.data@ && out.width == img.width
                                && out.height == img.height && out.path@ == img.path@
                                && *final(self) == *old(self),
                            None => false,
                        }),
                        None => (match m[p@].bytes {
                            Some(b) => ({
                                let fe = final(self).model()[p@];
                                match decode_spec(b@) {
                                    Ok(t) => (match r {
                                        Some(out) => {
                                            &&& image_matches(out, t, p@)
                                            &&& fe.status == LoadStatus::Loaded
                                            &&& fe.error is None
                                            &&& fe.decoded matches Some(i2) && image_matches(
                                                i2,
                                                t,
                                                p@,
                                            )
                                            &&& fe.bytes matches Some(b2) && b2@ == b@
                                        },
                                        None => false,
                                    }),
                                    Err(de) => {
                                        &&& r is None
                                        &&& fe.status == LoadStatus::Loaded
                                        &&& fe.error == Some(LoadError::DecodeFailed(de))
                                        &&& fe.decoded is None
                                        &&& fe.bytes matches Some(b2) && b2@ == b@
                                    },
                                }
                            }),
                            None => false,
                        }),
                    }
                }
            }),
            img_evolves(*old(self), *final(self)),
    {
        let mut to_decode: Option<Vec<u8>> = None;
        match self.entries.get(p) {
            None => {
                return None;
            },
            Some(e) => {
                if e.status != LoadStatus::Loaded {
                    return None;
                }
                if e.error.is_some() {
                    return None;
                }
                match &e.decoded {
                    Some(img) => {
                        return Some(img.clone());
                    },
                    None => {},
                }
                match &e.bytes {
                    Some(b) => {
                        to_decode = Some(b.clone());
                    },
                    None => {
                        assert(false);
                    },
                }
            },
        }
        let bytes = match to_decode {
            Some(b) => b,
            None => {
                assert(false);
                return None;
            },
        };
        match decode(p, &bytes) {
            Ok(img) => {
                let out = img.clone();
                self.entries.set(p, ImgEntry {
                    status: LoadStatus::Loaded,
                    bytes: Some(bytes),
                    decoded: Some(img),
                    error: None,
                });
                proof {
                    let e = final(self).model()[p@];
                    assert(img_entry_wf(p@, e));
                    lemma_img_map_wf_insert(old(self).model(), p@, e);
                    assert(final(self).model().dom() =~= old(self).model().dom());
                    assert forall|q: Seq<u8>| #[trigger]
                        old(self).model().contains_key(q) implies self.model().contains_key(q)
                        && status_rank(self.model()[q].status) >= status_rank(
                        old(self).model()[q].status,
                    ) && (old(self).model()[q].decoded is Some ==> self.model()[q].decoded == old(self).model()[q].decoded) by {}
                }
                Some(out)
            },
            Err(de) => {
                self.entries.set(p, ImgEntry {
                    status: LoadStatus::Loaded,
                    bytes: Some(bytes),
                    decoded: None,
                    error: Some(LoadError::DecodeFailed(de)),
                });
                proof {
                    let en = final(self).model()[p@];
                    assert(img_entry_wf(p@, en));
                    lemma_img_map_wf_insert(old(self).model(), p@, en);
                    assert(final(self).model().dom() =~= old(self).model().dom());
                    assert forall|q: Seq<u8>| #[trigger]
                        old(self).model().contains_key(q) implies self.model().contains_key(q)
                        && status_rank(self.model()[q].status) >= status_rank(
                        old(self).model()[q].status,
                    ) && (old(self).model()[q].decoded is Some ==> self.model()[q].decoded == old(self).model()[q].decoded) by {}
                }
                None
            },
        }
    }
}

} // verus!
