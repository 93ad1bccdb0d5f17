//! Per-entity expiring tag set: add a tag with an optional time-to-live,
//! query presence with live expiry, and sweep out expired entries once per
//! update cycle to reclaim the slots.

use vstd::prelude::*;

verus! {

/// Identity of a marker: the closed set of expiring facts the game keeps
/// about an entity in place of one-shot events.
#[derive(Clone, Copy, Debug, PartialEq, Eq, Structural)]
pub enum Tag {
    /// The entity rests on solid ground; gates gravity and jump eligibility.
    OnGround,
    /// The spring has just fired and must not fire again for a moment.
    Sprung,
}

/// When a marker was set, and for how long it lives.
#[derive(Clone, Copy, Debug)]
pub struct Stamp {
    /// Time the marker was last added, in milliseconds.
    pub created_at: u64,
    /// Lifetime in milliseconds; `None` never expires.
    pub destroy_after: Option<u64>,
}

/// A stamp is live at `now` iff it has no lifetime or its lifetime has not
/// yet elapsed; presence is decided by this at query time, never by when the
/// last sweep happened to run.
pub open spec fn spec_live(stamp: Stamp, now: u64) -> bool {
    match stamp.destroy_after {
        None => true,
        Some(ttl) => (now as int) < stamp.created_at + ttl,
    }
}

/// A tag is present in the marker map and live at `now`.
pub open spec fn spec_active(m: Map<Tag, Stamp>, tag: Tag, now: u64) -> bool {
    m.dom().contains(tag) && spec_live(m[tag], now)
}

/// The marker map after a sweep at `now`: exactly the live entries survive,
/// unchanged.
pub open spec fn spec_sweep(m: Map<Tag, Stamp>, now: u64) -> Map<Tag, Stamp> {
    Map::new(|t: Tag| m.dom().contains(t) && spec_live(m[t], now), |t: Tag| m[t])
}

/// The expiring tag set of one entity, viewed as a map from tag to stamp.
/// One slot per tag of the closed set.
#[derive(Clone, Copy, Debug)]
pub struct Markers {
    on_ground: Option<Stamp>,
    sprung: Option<Stamp>,
}

impl View for Markers {
    type V = Map<Tag, Stamp>;

    closed spec fn view(&self) -> Map<Tag, Stamp> {
        let m = Map::empty();
        let m = match self.on_ground {
            Some(s) => m.insert(Tag::OnGround, s),
            None => m,
        };
        match self.sprung {
            Some(s) => m.insert(Tag::Sprung, s),
            None => m,
        }
    }
}

/// Live-expiry test of one stamp.
fn stamp_live(stamp: &Stamp, now: u64) -> (r: bool)
    ensures
        r == spec_live(*stamp, now),
{
    match stamp.destroy_after {
        None => true,
        Some(ttl) => now < stamp.created_at || now - stamp.created_at < ttl,
    }
}

impl Markers {
    /// An empty tag set.
    pub fn new() -> (m: Markers)
        ensures
            m@ == Map::<Tag, Stamp>::empty(),
    {
        let m = Markers { on_ground: None, sprung: None };
        proof {
            assert(m@ =~= Map::<Tag, Stamp>::empty());
        }
        m
    }

    /// Insert or overwrite `tag`: the stamp is replaced outright, so a
    /// re-added tag counts its lifetime from this call's `now`.
    pub fn add(&mut self, tag: Tag, destroy_after: Option<u64>, now: u64)
        ensures
            final(self)@ == old(self)@.insert(tag, Stamp { created_at: now, destroy_after }),
    {
        let stamp = Stamp { created_at: now, destroy_after };
        match tag {
            Tag::OnGround => {
                self.on_ground = Some(stamp);
            },
            Tag::Sprung => {
                self.sprung = Some(stamp);
            },
        }
        proof {
            assert(self@ =~= old(self)@.insert(tag, stamp));
        }
    }

    /// Add `tag` with a definite lifetime of `ttl_ms` milliseconds.
    pub fn add_marker_for(&mut self, tag: Tag, ttl_ms: u64, now: u64)
        ensures
            final(self)@ == old(self)@.insert(
                tag,
                Stamp { created_at: now, destroy_after: Some(ttl_ms) },
            ),
    {
        self.add(tag, Some(ttl_ms), now);
    }

    /// Presence with live expiry: a tag past its lifetime reads as absent
    /// even before the next sweep removes it.
    pub fn contains(&self, tag: Tag, now: u64) -> (r: bool)
        ensures
            r == spec_active(self@, tag, now),
    {
        let slot = match tag {
            Tag::OnGround => &self.on_ground,
            Tag::Sprung => &self.sprung,
        };
        match slot {
            None => false,
            Some(stamp) => stamp_live(stamp, now),
        }
    }

    /// The periodic sweep: drop every entry whose lifetime has elapsed. Pure
    /// memory reclamation — presence already ignores expired entries.
    pub fn update(&mut self, now: u64)
        ensures
            final(self)@ == spec_sweep(old(self)@, now),
    {
        let drop_on_ground = match &self.on_ground {
            Some(stamp) => !stamp_live(stamp, now),
            None => false,
        };
        if drop_on_ground {
            self.on_ground = None;
        }
        let drop_sprung = match &self.sprung {
            Some(stamp) => !stamp_live(stamp, now),
            None => false,
        };
        if drop_sprung {
            self.sprung = None;
        }
        proof {
            assert(self@ =~= spec_sweep(old(self)@, now));
        }
    }
}

impl Default for Markers {
    /// An empty tag set.
    fn default() -> (m: Markers)
        ensures
            m@ == Map::<Tag, Stamp>::empty(),
    {
        Markers::new()
    }
}

/// A tag added with lifetime `ttl` at time `now` is active at exactly the
/// instants before `now + ttl`: present for the whole lifetime, absent from
/// the first millisecond after it.
pub proof fn lemma_marker_lifetime(m: Map<Tag, Stamp>, tag: Tag, ttl: u64, now: u64, t: u64)
    ensures
        spec_active(
            m.insert(tag, Stamp { created_at: now, destroy_after: Some(ttl) }),
            tag,
            t,
        ) <==> (t as int) < now + ttl,
{
}

/// Overwrite semantics: after adding the same tag twice, presence is decided
/// by the second call's creation time and lifetime alone.
pub proof fn lemma_marker_overwrite(
    m: Map<Tag, Stamp>,
    tag: Tag,
    first: Stamp,
    now: u64,
    ttl: u64,
    t: u64,
)
    ensures
        spec_active(
            m.insert(tag, first).insert(tag, Stamp { created_at: now, destroy_after: Some(ttl) }),
            tag,
            t,
        ) <==> (t as int) < now + ttl,
{
}

} // verus!
