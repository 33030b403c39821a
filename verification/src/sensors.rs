//! Data model of the estimation engine: anchors, observation windows and
//! resolved fixes, together with the service that owns them.

use vstd::prelude::*;

use crate::coords::{spec_transform, transform_local_to_global};
use crate::environment::Environment;
use crate::rssi::{calculate_rssi_median, spec_median, spec_trilaterate, trilaterate};

verus! {

/// Largest magnitude accepted for a local planar coordinate or a distance,
/// in millimeters (100 km). Keeps every intermediate of the solver and the
/// transform inside 128-bit arithmetic.
pub const COORD_LIMIT_MM: i64 = 100_000_000;

/// Largest magnitude of a latitude, in nanodegrees.
pub const LAT_LIMIT_ND: i64 = 90_000_000_000;

/// Largest magnitude of a longitude, in nanodegrees.
pub const LON_LIMIT_ND: i64 = 180_000_000_000;

/// A fixed anchor sensor: its identity, surveyed local position
/// (millimeters), surveyed geographic position (nanodegrees) and radio
/// environment.
#[derive(Clone, Copy, Debug, PartialEq, Eq, Structural)]
pub struct Sensor {
    pub id: u8,
    pub x: i64,
    pub y: i64,
    pub lat: i64,
    pub lon: i64,
    pub environment: Environment,
}

impl Sensor {
    /// The surveyed coordinates lie inside the ranges the numeric pipeline
    /// is dimensioned for.
    pub open spec fn wf(self) -> bool {
        &&& -COORD_LIMIT_MM <= self.x <= COORD_LIMIT_MM
        &&& -COORD_LIMIT_MM <= self.y <= COORD_LIMIT_MM
        &&& -LAT_LIMIT_ND <= self.lat <= LAT_LIMIT_ND
        &&& -LON_LIMIT_ND <= self.lon <= LON_LIMIT_ND
    }
}

/// One anchor's contribution to a resolution attempt: its local position
/// (millimeters), its environment, and the filtered signal strength observed
/// for the device.
#[derive(Clone, Copy, Debug, PartialEq, Eq, Structural)]
pub struct SensorCandidate {
    pub y: i64,
    pub x: i64,
    pub environment: Environment,
    pub rssi: i8,
}

impl SensorCandidate {
    /// The local position lies inside the range the solver is dimensioned
    /// for.
    pub open spec fn wf(self) -> bool {
        &&& -COORD_LIMIT_MM <= self.x <= COORD_LIMIT_MM
        &&& -COORD_LIMIT_MM <= self.y <= COORD_LIMIT_MM
    }
}

/// A resolved location estimate for one device fingerprint: local position
/// in millimeters and geographic position in nanodegrees.
#[derive(Clone, Copy, Debug, PartialEq, Eq, Structural)]
pub struct Trilateration {
    pub fingerprint: u64,
    pub y: i64,
    pub x: i64,
    pub lat: i64,
    pub lon: i64,
}

/// One timestamped signal-strength observation.
#[derive(Clone, Copy, Debug, PartialEq, Eq, Structural)]
pub struct Sample {
    pub rssi: i8,
    pub at_ms: u64,
}

/// The observations one anchor has contributed to a fingerprint entry:
/// append-only, observation order preserved.
#[derive(Debug)]
pub struct AnchorWindow {
    pub anchor_id: u8,
    pub samples: Vec<Sample>,
}

/// All observations accumulated for one device fingerprint, grouped per
/// anchor in first-contact order.
#[derive(Debug)]
pub struct FingerprintEntry {
    pub fingerprint: u64,
    pub windows: Vec<AnchorWindow>,
}

/// Mathematical image of an anchor window.
#[verifier::ext_equal]
pub ghost struct WindowModel {
    pub anchor_id: u8,
    pub samples: Seq<Sample>,
}

/// Mathematical image of a fingerprint entry.
#[verifier::ext_equal]
pub ghost struct EntryModel {
    pub fingerprint: u64,
    pub windows: Seq<WindowModel>,
}

/// The mathematical image of an anchor window.
pub open spec fn window_view(w: AnchorWindow) -> WindowModel {
    WindowModel { anchor_id: w.anchor_id, samples: w.samples@ }
}

/// The mathematical image of a sequence of anchor windows.
pub open spec fn windows_view(ws: Seq<AnchorWindow>) -> Seq<WindowModel> {
    ws.map_values(|w: AnchorWindow| window_view(w))
}

/// The mathematical image of a fingerprint entry.
pub open spec fn entry_view(e: FingerprintEntry) -> EntryModel {
    EntryModel { fingerprint: e.fingerprint, windows: windows_view(e.windows@) }
}

/// The mathematical image of the whole observation store.
pub open spec fn store_view(ms: Seq<FingerprintEntry>) -> Seq<EntryModel> {
    ms.map_values(|en: FingerprintEntry| entry_view(en))
}

// ---------------------------------------------------------------------
// Anchor registry model
// ---------------------------------------------------------------------

/// At most one live anchor per id.
pub open spec fn registry_ids_unique(rs: Seq<Sensor>) -> bool {
    forall|i: int, j: int| 0 <= i < j < rs.len() ==> rs[i].id != rs[j].id
}

/// Every registered anchor satisfies the coordinate bounds.
pub open spec fn registry_wf(rs: Seq<Sensor>) -> bool {
    &&& registry_ids_unique(rs)
    &&& forall|i: int| 0 <= i < rs.len() ==> #[trigger] rs[i].wf()
}

/// Whether the registry holds an anchor with this id.
pub open spec fn has_sensor(rs: Seq<Sensor>, id: u8) -> bool {
    exists|i: int| 0 <= i < rs.len() && rs[i].id == id
}

/// Index of the anchor with this id (unique under `registry_ids_unique`).
pub open spec fn sensor_idx(rs: Seq<Sensor>, id: u8) -> int {
    choose|i: int| 0 <= i < rs.len() && rs[i].id == id
}

/// The anchor registered under this id.
pub open spec fn sensor_at(rs: Seq<Sensor>, id: u8) -> Sensor
    recommends
        has_sensor(rs, id),
{
    rs[sensor_idx(rs, id)]
}

/// Last-write-wins upsert: replaces the record holding the same id, or
/// appends a first record for it. No merge, no history.
pub open spec fn spec_upsert(rs: Seq<Sensor>, s: Sensor) -> Seq<Sensor> {
    if has_sensor(rs, s.id) {
        rs.update(sensor_idx(rs, s.id), s)
    } else {
        rs.push(s)
    }
}

// ---------------------------------------------------------------------
// Fix store model
// ---------------------------------------------------------------------

/// At most one fix per fingerprint.
pub open spec fn fixes_wf(ts: Seq<Trilateration>) -> bool {
    forall|i: int, j: int| 0 <= i < j < ts.len() ==> ts[i].fingerprint != ts[j].fingerprint
}

/// Whether a fix is held for this fingerprint.
pub open spec fn has_fix(ts: Seq<Trilateration>, fp: u64) -> bool {
    exists|i: int| 0 <= i < ts.len() && ts[i].fingerprint == fp
}

/// Index of the fix for this fingerprint (unique under `fixes_wf`).
pub open spec fn fix_idx(ts: Seq<Trilateration>, fp: u64) -> int {
    choose|i: int| 0 <= i < ts.len() && ts[i].fingerprint == fp
}

/// Overwrites the fix held for the fingerprint, or appends a first one.
pub open spec fn spec_fix_upsert(ts: Seq<Trilateration>, t: Trilateration) -> Seq<Trilateration> {
    if has_fix(ts, t.fingerprint) {
        ts.update(fix_idx(ts, t.fingerprint), t)
    } else {
        ts.push(t)
    }
}

// ---------------------------------------------------------------------
// The service
// ---------------------------------------------------------------------

/// The three shared stores of the estimation engine. Exclusive access per
/// call stands in for the per-store locks of a concurrent runtime: an
/// `&mut self` method is one atomic critical section, so at most one
/// resolution can happen per fingerprint entry.
pub struct SensorService {
    sensors: Vec<Sensor>,
    measurements: Vec<FingerprintEntry>,
    trilaterations: Vec<Trilateration>,
}

impl SensorService {
    /// The anchor registry: one record per anchor id.
    pub closed spec fn registry(self) -> Seq<Sensor> {
        self.sensors@
    }

    /// The observation store: one entry per accumulating fingerprint.
    pub closed spec fn store_model(self) -> Seq<EntryModel> {
        store_view(self.measurements@)
    }

    /// The fix store: the most recent resolved location per fingerprint.
    pub closed spec fn fixes(self) -> Seq<Trilateration> {
        self.trilaterations@
    }

    /// All three stores satisfy their invariants.
    pub open spec fn wf(self) -> bool {
        &&& registry_wf(self.registry())
        &&& store_wf(self.store_model())
        &&& fixes_wf(self.fixes())
    }

    /// Fresh service with empty registry, store and fix store.
    pub fn new() -> (s: Self)
        ensures
            s.wf(),
            s.registry() =~= Seq::<Sensor>::empty(),
            s.store_model() =~= Seq::<EntryModel>::empty(),
            s.fixes() =~= Seq::<Trilateration>::empty(),
    {
        let s = Self { sensors: Vec::new(), measurements: Vec::new(), trilaterations: Vec::new() };
        proof {
            assert(s.store_model() =~= Seq::<EntryModel>::empty());
        }
        s
    }

    /// Registry upsert: last-write-wins on the anchor id; the
    /// rest of the registry, the observation store and the fix store are
    /// untouched. Rejects (leaves everything unchanged and returns `false`)
    /// exactly when a surveyed coordinate lies outside the supported range.
    pub fn add_sensor(
        &mut self,
        id: u8,
        y: i64,
        x: i64,
        latitude: i64,
        longitude: i64,
        environment: Environment,
    ) -> (accepted: bool)
        requires
            old(self).wf(),
        ensures
            final(self).wf(),
            ({
                let s = Sensor { id, x, y, lat: latitude, lon: longitude, environment };
                &&& accepted == s.wf()
                &&& (accepted ==> final(self).registry() == spec_upsert(old(self).registry(), s))
                &&& (!accepted ==> final(self).registry() == old(self).registry())
            }),
            final(self).store_model() == old(self).store_model(),
            final(self).fixes() == old(self).fixes(),
    {
        let sensor = Sensor { id, x, y, lat: latitude, lon: longitude, environment };
        if !(-COORD_LIMIT_MM <= x && x <= COORD_LIMIT_MM && -COORD_LIMIT_MM <= y && y
            <= COORD_LIMIT_MM && -LAT_LIMIT_ND <= latitude && latitude <= LAT_LIMIT_ND
            && -LON_LIMIT_ND <= longitude && longitude <= LON_LIMIT_ND) {
            return false;
        }
        let n = self.sensors.len();
        let mut i: usize = 0;
        while i < n
            invariant
                i <= n,
                n == self.sensors@.len(),
                old(self).wf(),
                registry_wf(self.sensors@),
                forall|j: int| 0 <= j < i ==> self.sensors@[j].id != id,
                self.sensors@ == old(self).registry(),
                self.measurements@ == old(self).measurements@,
                self.trilaterations@ == old(self).trilaterations@,
                sensor.wf(),
                sensor == (Sensor { id, x, y, lat: latitude, lon: longitude, environment }),
            decreases n - i,
        {
            if self.sensors[i].id == id {
                self.sensors.set(i, sensor);
                proof {
                    let rs = old(self).registry();
                    assert(rs[i as int].id == id);
                    assert(has_sensor(rs, id));
                    let k = sensor_idx(rs, id);
                    assert(0 <= k < rs.len() && rs[k].id == id);
                    assert(k == i as int);
                    assert(self.sensors@ =~= spec_upsert(rs, sensor));
                    assert forall|p: int, q: int|
                        0 <= p < q < self.sensors@.len() implies self.sensors@[p].id
                        != self.sensors@[q].id by {
                        assert(rs[p].id != rs[q].id);
                    }
                    assert forall|p: int| 0 <= p < self.sensors@.len() implies #[trigger] self
                        .sensors@[p].wf() by {
                        assert(rs[p].wf());
                    }
                }
                return true;
            }
            i = i + 1;
        }
        self.sensors.push(sensor);
        proof {
            let rs = old(self).registry();
            assert(!has_sensor(rs, id));
            assert(self.sensors@ =~= spec_upsert(rs, sensor));
        }
        true
    }

    /// Snapshot of the registry, in registration order.
    pub fn get_sensors(&self) -> (r: Vec<Sensor>)
        ensures
            r@ == self.registry(),
    {
        let mut out: Vec<Sensor> = Vec::new();
        let mut i: usize = 0;
        while i < self.sensors.len()
            invariant
                i <= self.sensors@.len(),
                out@ == self.sensors@.subrange(0, i as int),
            decreases self.sensors@.len() - i,
        {
            out.push(self.sensors[i]);
            proof {
                assert(out@ =~= self.sensors@.subrange(0, i + 1));
            }
            i = i + 1;
        }
        proof {
            assert(out@ =~= self.sensors@);
        }
        out
    }

    /// Snapshot of the fix store.
    pub fn get_trilaterations(&self) -> (r: Vec<Trilateration>)
        ensures
            r@ == self.fixes(),
    {
        let mut out: Vec<Trilateration> = Vec::new();
        let mut i: usize = 0;
        while i < self.trilaterations.len()
            invariant
                i <= self.trilaterations@.len(),
                out@ == self.trilaterations@.subrange(0, i as int),
            decreases self.trilaterations@.len() - i,
        {
            out.push(self.trilaterations[i]);
            proof {
                assert(out@ =~= self.trilaterations@.subrange(0, i + 1));
            }
            i = i + 1;
        }
        proof {
            assert(out@ =~= self.trilaterations@);
        }
        out
    }
}

// ---------------------------------------------------------------------
// Observation store model
// ---------------------------------------------------------------------

/// A window holds at least one observation and windows of one entry belong
/// to pairwise distinct anchors.
pub open spec fn entry_wf(e: EntryModel) -> bool {
    &&& e.windows.len() >= 1
    &&& forall|i: int, j: int|
        0 <= i < j < e.windows.len() ==> e.windows[i].anchor_id != e.windows[j].anchor_id
    &&& forall|i: int| 0 <= i < e.windows.len() ==> #[trigger] e.windows[i].samples.len() >= 1
}

/// At most one entry per fingerprint, each well-formed.
pub open spec fn store_wf(m: Seq<EntryModel>) -> bool {
    &&& forall|i: int, j: int| 0 <= i < j < m.len() ==> m[i].fingerprint != m[j].fingerprint
    &&& forall|i: int| 0 <= i < m.len() ==> entry_wf(#[trigger] m[i])
}

/// Whether the store holds an entry for this fingerprint.
pub open spec fn store_has(m: Seq<EntryModel>, fp: u64) -> bool {
    exists|i: int| 0 <= i < m.len() && m[i].fingerprint == fp
}

/// Index of the entry for this fingerprint (unique under `store_wf`).
pub open spec fn store_idx(m: Seq<EntryModel>, fp: u64) -> int {
    choose|i: int| 0 <= i < m.len() && m[i].fingerprint == fp
}

/// Whether the entry holds a window for this anchor.
pub open spec fn entry_has_window(e: EntryModel, aid: u8) -> bool {
    exists|i: int| 0 <= i < e.windows.len() && e.windows[i].anchor_id == aid
}

/// Index of the anchor's window within the entry (unique under `entry_wf`).
pub open spec fn entry_window_idx(e: EntryModel, aid: u8) -> int {
    choose|i: int| 0 <= i < e.windows.len() && e.windows[i].anchor_id == aid
}

/// The entry after appending one observation to the tail of the anchor's
/// window, creating the window if the anchor is new to this entry.
pub open spec fn entry_append(e: EntryModel, aid: u8, s: Sample) -> EntryModel {
    if entry_has_window(e, aid) {
        let i = entry_window_idx(e, aid);
        EntryModel {
            fingerprint: e.fingerprint,
            windows: e.windows.update(
                i,
                WindowModel { anchor_id: aid, samples: e.windows[i].samples.push(s) },
            ),
        }
    } else {
        EntryModel {
            fingerprint: e.fingerprint,
            windows: e.windows.push(WindowModel { anchor_id: aid, samples: seq![s] }),
        }
    }
}

/// The store after appending one observation, creating the fingerprint
/// entry if absent.
pub open spec fn store_append(m: Seq<EntryModel>, fp: u64, aid: u8, s: Sample) -> Seq<EntryModel> {
    if store_has(m, fp) {
        m.update(store_idx(m, fp), entry_append(m[store_idx(m, fp)], aid, s))
    } else {
        m.push(
            EntryModel {
                fingerprint: fp,
                windows: seq![WindowModel { anchor_id: aid, samples: seq![s] }],
            },
        )
    }
}

/// The store after removing the fingerprint's entry.
pub open spec fn store_remove(m: Seq<EntryModel>, fp: u64) -> Seq<EntryModel>
    recommends
        store_has(m, fp),
{
    m.remove(store_idx(m, fp))
}

/// Samples required per window before an entry may resolve: the smoothing
/// versus latency tunable of the deployment.
pub const MIN_MEASUREMENT_ENTRIES: usize = 10;

/// Retention age: an entry whose newest observation is at least this much
/// older than the current append is dropped.
pub const MAX_MEASUREMENT_AGE_MS: u64 = 60_000;

/// Readiness: exactly three distinct anchors have contributed and
/// every one of their windows holds at least `MIN_MEASUREMENT_ENTRIES`
/// observations.
pub open spec fn entry_ready(e: EntryModel) -> bool {
    &&& e.windows.len() == 3
    &&& forall|i: int|
        0 <= i < e.windows.len() ==> #[trigger] e.windows[i].samples.len()
            >= MIN_MEASUREMENT_ENTRIES
}

/// An entry is live at `now` when some window's newest observation is
/// younger than the retention age.
pub open spec fn entry_live(e: EntryModel, now: u64) -> bool {
    exists|i: int|
        0 <= i < e.windows.len() && (#[trigger] e.windows[i].samples.last()).at_ms
            + MAX_MEASUREMENT_AGE_MS > now
}

/// Eviction sweep: only the entries whose newest observation is
/// younger than the retention age survive, in order.
pub open spec fn spec_evict(m: Seq<EntryModel>, now: u64) -> Seq<EntryModel>
    decreases m.len(),
{
    if m.len() == 0 {
        Seq::empty()
    } else {
        let rest = spec_evict(m.drop_last(), now);
        if entry_live(m.last(), now) {
            rest.push(m.last())
        } else {
            rest
        }
    }
}

/// Index of the anchor's window in the entry, scanning in first-contact
/// order.
fn find_window_idx(e: &FingerprintEntry, aid: u8) -> (r: Option<usize>)
    requires
        entry_wf(entry_view(*e)),
    ensures
        match r {
            Some(j) => j < e.windows@.len() && e.windows@[j as int].anchor_id == aid
                && entry_has_window(entry_view(*e), aid) && entry_window_idx(entry_view(*e), aid)
                == j as int,
            None => !entry_has_window(entry_view(*e), aid),
        },
{
    let ghost ev = entry_view(*e);
    let n = e.windows.len();
    let mut j: usize = 0;
    while j < n
        invariant
            j <= n,
            n == e.windows@.len(),
            ev == entry_view(*e),
            entry_wf(ev),
            forall|p: int| 0 <= p < j ==> e.windows@[p].anchor_id != aid,
        decreases n - j,
    {
        if e.windows[j].anchor_id == aid {
            proof {
                assert(ev.windows[j as int].anchor_id == aid);
                assert(entry_has_window(ev, aid));
                let k = entry_window_idx(ev, aid);
                assert(0 <= k < ev.windows.len() && ev.windows[k].anchor_id == aid);
                assert(k == j as int);
            }
            return Some(j);
        }
        j = j + 1;
    }
    proof {
        assert forall|p: int| 0 <= p < ev.windows.len() implies ev.windows[p].anchor_id != aid by {
            assert(e.windows@[p].anchor_id != aid);
        }
    }
    None
}

/// Appends one observation to the tail of the anchor's window within an
/// entry, creating the window if the anchor is new to the entry.
fn entry_append_exec(e: &mut FingerprintEntry, aid: u8, s: Sample)
    requires
        entry_wf(entry_view(*old(e))),
    ensures
        entry_view(*final(e)) == entry_append(entry_view(*old(e)), aid, s),
        entry_wf(entry_view(*final(e))),
        final(e).fingerprint == old(e).fingerprint,
{
    let ghost ev = entry_view(*old(e));
    match find_window_idx(e, aid) {
        Some(j) => {
            let mut w = e.windows.remove(j);
            w.samples.push(s);
            let ghost wv = window_view(w);
            e.windows.insert(j, w);
            proof {
                let target = entry_append(ev, aid, s);
                assert(wv == WindowModel {
                    anchor_id: aid,
                    samples: ev.windows[j as int].samples.push(s),
                });
                assert(e.windows@ =~= old(e).windows@.update(j as int, w));
                assert(entry_view(*e).windows =~= target.windows);
                assert(entry_view(*e) == target);
                assert forall|p: int, q: int|
                    0 <= p < q < target.windows.len() implies target.windows[p].anchor_id
                    != target.windows[q].anchor_id by {
                    assert(ev.windows[p].anchor_id != ev.windows[q].anchor_id);
                }
                assert forall|p: int|
                    0 <= p < target.windows.len() implies #[trigger] target.windows[p].samples.len()
                    >= 1 by {
                    assert(ev.windows[p].samples.len() >= 1);
                }
            }
        },
        None => {
            let w = AnchorWindow { anchor_id: aid, samples: vec![s] };
            let ghost wv = window_view(w);
            e.windows.push(w);
            proof {
                let target = entry_append(ev, aid, s);
                assert(wv.samples =~= seq![s]);
                assert(entry_view(*e).windows =~= target.windows);
                assert(entry_view(*e) == target);
                assert forall|p: int, q: int|
                    0 <= p < q < target.windows.len() implies target.windows[p].anchor_id
                    != target.windows[q].anchor_id by {
                    if q < ev.windows.len() as int {
                        assert(ev.windows[p].anchor_id != ev.windows[q].anchor_id);
                    } else {
                        assert(ev.windows[p].anchor_id != aid);
                    }
                }
            }
        },
    }
}

/// Index of the fingerprint's entry in the store.
fn find_entry_idx(ms: &Vec<FingerprintEntry>, fp: u64) -> (r: Option<usize>)
    requires
        store_wf(store_view(ms@)),
    ensures
        match r {
            Some(i) => i < ms@.len() && ms@[i as int].fingerprint == fp && store_has(
                store_view(ms@),
                fp,
            ) && store_idx(store_view(ms@), fp) == i as int,
            None => !store_has(store_view(ms@), fp),
        },
{
    let ghost mv = store_view(ms@);
    let n = ms.len();
    let mut i: usize = 0;
    while i < n
        invariant
            i <= n,
            n == ms@.len(),
            mv == store_view(ms@),
            store_wf(mv),
            forall|p: int| 0 <= p < i ==> ms@[p].fingerprint != fp,
        decreases n - i,
    {
        if ms[i].fingerprint == fp {
            proof {
                assert(mv[i as int].fingerprint == fp);
                assert(store_has(mv, fp));
                let k = store_idx(mv, fp);
                assert(0 <= k < mv.len() && mv[k].fingerprint == fp);
                assert(k == i as int);
            }
            return Some(i);
        }
        i = i + 1;
    }
    proof {
        assert forall|p: int| 0 <= p < mv.len() implies mv[p].fingerprint != fp by {
            assert(ms@[p].fingerprint != fp);
        }
    }
    None
}

/// Appends one observation to the store, creating the fingerprint entry if
/// absent, and returns the index of the touched entry.
fn store_append_exec(ms: &mut Vec<FingerprintEntry>, fp: u64, aid: u8, s: Sample) -> (i: usize)
    requires
        store_wf(store_view(old(ms)@)),
    ensures
        store_view(final(ms)@) == store_append(store_view(old(ms)@), fp, aid, s),
        store_wf(store_view(final(ms)@)),
        i < final(ms)@.len(),
        final(ms)@[i as int].fingerprint == fp,
        store_has(store_view(final(ms)@), fp),
        store_idx(store_view(final(ms)@), fp) == i as int,
{
    let ghost mv = store_view(old(ms)@);
    let found = find_entry_idx(ms, fp);
    match found {
        Some(i) => {
            let mut e = ms.remove(i);
            entry_append_exec(&mut e, aid, s);
            let ghost evnew = entry_view(e);
            ms.insert(i, e);
            proof {
                let target = store_append(mv, fp, aid, s);
                assert(ms@ =~= old(ms)@.update(i as int, e));
                assert(store_view(ms@) =~= mv.update(i as int, evnew));
                assert(target == mv.update(store_idx(mv, fp), entry_append(mv[store_idx(mv, fp)], aid, s)));
                assert(store_view(ms@) =~= target);
                let newv = store_view(ms@);
                assert forall|p: int, q: int|
                    0 <= p < q < newv.len() implies newv[p].fingerprint != newv[q].fingerprint by {
                    assert(mv[p].fingerprint != mv[q].fingerprint);
                }
                assert forall|p: int| 0 <= p < newv.len() implies entry_wf(#[trigger] newv[p]) by {
                    assert(entry_wf(mv[p]));
                    if p == i as int {
                        assert(newv[p] == evnew);
                    }
                }
                assert(newv[i as int].fingerprint == fp);
                let k = store_idx(newv, fp);
                assert(0 <= k < newv.len() && newv[k].fingerprint == fp);
                assert(k == i as int);
            }
            i
        },
        None => {
            let e = FingerprintEntry { fingerprint: fp, windows: vec![AnchorWindow { anchor_id: aid, samples: vec![s] }] };
            let ghost evnew = entry_view(e);
            let i = ms.len();
            ms.push(e);
            proof {
                let target = store_append(mv, fp, aid, s);
                assert(e.windows@[0].samples@ =~= seq![s]);
                assert(evnew.windows =~~= seq![WindowModel { anchor_id: aid, samples: seq![s] }]);
                assert(evnew =~~= EntryModel {
                    fingerprint: fp,
                    windows: seq![WindowModel { anchor_id: aid, samples: seq![s] }],
                });
                assert(store_view(ms@) =~= mv.push(evnew));
                assert(store_view(ms@) =~= target);
                let newv = store_view(ms@);
                assert forall|p: int, q: int|
                    0 <= p < q < newv.len() implies newv[p].fingerprint != newv[q].fingerprint by {
                    if q < mv.len() as int {
                        assert(mv[p].fingerprint != mv[q].fingerprint);
                    } else {
                        assert(mv[p].fingerprint != fp);
                    }
                }
                assert forall|p: int| 0 <= p < newv.len() implies entry_wf(#[trigger] newv[p]) by {
                    if p < mv.len() as int {
                        assert(entry_wf(mv[p]));
                    } else {
                        assert(newv[p] == evnew);
                    }
                }
                assert(newv[i as int].fingerprint == fp);
                let k = store_idx(newv, fp);
                assert(0 <= k < newv.len() && newv[k].fingerprint == fp);
                assert(k == i as int);
            }
            i
        },
    }
}

/// Whether the entry is ready to resolve.
fn entry_ready_exec(e: &FingerprintEntry) -> (r: bool)
    requires
        entry_wf(entry_view(*e)),
    ensures
        r == entry_ready(entry_view(*e)),
{
    let ghost ev = entry_view(*e);
    if e.windows.len() != 3 {
        return false;
    }
    let mut j: usize = 0;
    while j < 3
        invariant
            j <= 3,
            e.windows@.len() == 3,
            ev == entry_view(*e),
            forall|p: int| 0 <= p < j ==> ev.windows[p].samples.len() >= MIN_MEASUREMENT_ENTRIES,
        decreases 3 - j,
    {
        if e.windows[j].samples.len() < MIN_MEASUREMENT_ENTRIES {
            proof {
                assert(ev.windows[j as int].samples.len() < MIN_MEASUREMENT_ENTRIES);
            }
            return false;
        }
        j = j + 1;
    }
    true
}

/// Whether some window's newest observation is younger than the retention
/// age at `now`.
fn entry_live_exec(e: &FingerprintEntry, now: u64) -> (r: bool)
    requires
        entry_wf(entry_view(*e)),
    ensures
        r == entry_live(entry_view(*e), now),
{
    let ghost ev = entry_view(*e);
    let n = e.windows.len();
    let mut j: usize = 0;
    while j < n
        invariant
            j <= n,
            n == e.windows@.len(),
            ev == entry_view(*e),
            entry_wf(ev),
            forall|p: int|
                0 <= p < j ==> (#[trigger] ev.windows[p].samples.last()).at_ms
                    + MAX_MEASUREMENT_AGE_MS <= now,
        decreases n - j,
    {
        let w = &e.windows[j];
        proof {
            assert(ev.windows[j as int] == window_view(e.windows@[j as int]));
            assert(ev.windows[j as int].samples.len() >= 1);
        }
        let last = w.samples[w.samples.len() - 1];
        if (last.at_ms as u128) + (MAX_MEASUREMENT_AGE_MS as u128) > (now as u128) {
            proof {
                assert(ev.windows[j as int].samples.last() == last);
            }
            return true;
        }
        proof {
            assert(ev.windows[j as int].samples.last() == last);
        }
        j = j + 1;
    }
    false
}

/// Appending one entry to a store extends its eviction sweep by that entry
/// exactly when the entry is live.
proof fn lemma_evict_push(m: Seq<EntryModel>, x: EntryModel, now: u64)
    ensures
        spec_evict(m.push(x), now) == if entry_live(x, now) {
            spec_evict(m, now).push(x)
        } else {
            spec_evict(m, now)
        },
{
    assert(m.push(x).drop_last() =~= m);
    assert(m.push(x).last() == x);
    assert(m.push(x).len() == m.len() + 1);
}

/// Eviction sweep over the whole store: keeps exactly the live entries, in
/// order.
fn evict_stale(ms: &mut Vec<FingerprintEntry>, now: u64)
    requires
        store_wf(store_view(old(ms)@)),
    ensures
        store_view(final(ms)@) == spec_evict(store_view(old(ms)@), now),
        store_wf(store_view(final(ms)@)),
{
    let ghost orig = old(ms)@;
    let ghost mv = store_view(orig);
    let mut kept: Vec<FingerprintEntry> = Vec::new();
    proof {
        assert(store_view(kept@) =~= spec_evict(store_view(orig.subrange(0, 0)), now));
    }
    let mut i: usize = 0;
    let n = ms.len();
    while i < n
        invariant
            i <= n,
            n == ms@.len(),
            ms@ == orig,
            mv == store_view(orig),
            store_wf(mv),
            store_view(kept@) == spec_evict(store_view(orig.subrange(0, i as int)), now),
            store_wf(store_view(kept@)),
            forall|p: int|
                0 <= p < kept@.len() ==> exists|q: int|
                    0 <= q < i && #[trigger] store_view(kept@)[p] == mv[q],
        decreases n - i,
    {
        let e = &ms[i];
        proof {
            assert(entry_wf(mv[i as int]));
            assert(entry_view(*e) == mv[i as int]);
        }
        let live = entry_live_exec(e, now);
        let ghost prev = store_view(kept@);
        if live {
            let copy = copy_entry(e);
            kept.push(copy);
        }
        proof {
            let pre = store_view(orig.subrange(0, i as int));
            let post = store_view(orig.subrange(0, i + 1));
            assert(post =~= pre.push(mv[i as int]));
            lemma_evict_push(pre, mv[i as int], now);
            if live {
                assert(store_view(kept@) =~= prev.push(mv[i as int]));
                assert(store_view(kept@) == spec_evict(post, now));
                let newv = store_view(kept@);
                assert forall|p: int, q: int|
                    0 <= p < q < newv.len() implies newv[p].fingerprint != newv[q].fingerprint by {
                    let qp = choose|qq: int| 0 <= qq < i && prev[p] == mv[qq];
                    if q < prev.len() as int {
                        let qq = choose|qq: int| 0 <= qq < i && prev[q] == mv[qq];
                        assert(newv[p] == mv[qp] && newv[q] == mv[qq]);
                    } else {
                        assert(newv[p] == mv[qp] && newv[q] == mv[i as int]);
                    }
                }
                assert forall|p: int|
                    0 <= p < newv.len() implies entry_wf(#[trigger] newv[p]) by {
                    if p < prev.len() as int {
                        let qp = choose|qq: int| 0 <= qq < i && prev[p] == mv[qq];
                        assert(entry_wf(mv[qp]));
                    } else {
                        assert(newv[p] == mv[i as int]);
                    }
                }
                assert forall|p: int|
                    0 <= p < newv.len() implies exists|q: int|
                        0 <= q < i + 1 && #[trigger] newv[p] == mv[q] by {
                    if p < prev.len() as int {
                        let qp = choose|qq: int| 0 <= qq < i && prev[p] == mv[qq];
                        assert(newv[p] == mv[qp]);
                    } else {
                        assert(newv[p] == mv[i as int]);
                    }
                }
            } else {
                assert(store_view(kept@) == spec_evict(post, now));
            }
        }
        i = i + 1;
    }
    proof {
        assert(orig.subrange(0, n as int) =~= orig);
    }
    *ms = kept;
}

/// Copies one fingerprint entry observation by observation.
fn copy_entry(e: &FingerprintEntry) -> (c: FingerprintEntry)
    ensures
        entry_view(c) == entry_view(*e),
{
    let mut windows: Vec<AnchorWindow> = Vec::new();
    let mut j: usize = 0;
    while j < e.windows.len()
        invariant
            j <= e.windows@.len(),
            windows_view(windows@) == windows_view(e.windows@.subrange(0, j as int)),
        decreases e.windows@.len() - j,
    {
        let src = &e.windows[j];
        let mut samples: Vec<Sample> = Vec::new();
        let mut k: usize = 0;
        while k < src.samples.len()
            invariant
                k <= src.samples@.len(),
                samples@ == src.samples@.subrange(0, k as int),
            decreases src.samples@.len() - k,
        {
            samples.push(src.samples[k]);
            proof {
                assert(samples@ =~= src.samples@.subrange(0, k + 1));
            }
            k = k + 1;
        }
        proof {
            assert(samples@ =~= src.samples@);
        }
        let w = AnchorWindow { anchor_id: src.anchor_id, samples };
        proof {
            assert(window_view(w) =~~= window_view(e.windows@[j as int]));
        }
        let ghost before = windows@;
        let ghost wv = window_view(w);
        windows.push(w);
        proof {
            assert(windows_view(before).len() == before.len());
            assert(before.len() == j);
            assert(windows@ =~= before.push(w));
            assert(windows@.len() == j + 1);
            assert forall|p: int|
                0 <= p < windows@.len() implies windows_view(windows@)[p] == windows_view(
                e.windows@.subrange(0, j + 1),
            )[p] by {
                assert(e.windows@.subrange(0, j + 1)[p] == e.windows@[p]);
                if p < j as int {
                    assert(windows@[p] == before[p]);
                    assert(windows_view(windows@)[p] == windows_view(before)[p]);
                    assert(windows_view(before)[p] == windows_view(
                        e.windows@.subrange(0, j as int),
                    )[p]);
                    assert(windows_view(e.windows@.subrange(0, j as int))[p] == window_view(
                        e.windows@[p],
                    ));
                } else {
                    assert(windows@[p] == w);
                    assert(windows_view(windows@)[p] == wv);
                    assert(wv == window_view(e.windows@[p]));
                }
            }
            assert(windows_view(windows@) =~= windows_view(e.windows@.subrange(0, j + 1)));
        }
        j = j + 1;
    }
    proof {
        assert(e.windows@.subrange(0, e.windows@.len() as int) =~= e.windows@);
    }
    let c = FingerprintEntry { fingerprint: e.fingerprint, windows };
    proof {
        assert(entry_view(c) =~~= entry_view(*e));
    }
    c
}

/// Removes the fingerprint's entry from the store.
fn remove_entry_exec(ms: &mut Vec<FingerprintEntry>, fp: u64)
    requires
        store_wf(store_view(old(ms)@)),
        store_has(store_view(old(ms)@), fp),
    ensures
        store_view(final(ms)@) == store_remove(store_view(old(ms)@), fp),
        store_wf(store_view(final(ms)@)),
{
    let ghost mv = store_view(old(ms)@);
    match find_entry_idx(ms, fp) {
        Some(i) => {
            ms.remove(i);
            proof {
                assert(store_view(ms@) =~= mv.remove(i as int));
                let newv = store_view(ms@);
                assert forall|p: int, q: int|
                    0 <= p < q < newv.len() implies newv[p].fingerprint != newv[q].fingerprint by {
                    let p0 = if p < i as int { p } else { p + 1 };
                    let q0 = if q < i as int { q } else { q + 1 };
                    assert(mv[p0].fingerprint != mv[q0].fingerprint);
                }
                assert forall|p: int| 0 <= p < newv.len() implies entry_wf(#[trigger] newv[p]) by {
                    let p0 = if p < i as int { p } else { p + 1 };
                    assert(entry_wf(mv[p0]));
                }
            }
        },
        None => {
            proof {
                assert(false);
            }
        },
    }
}

/// Writes or overwrites the fix for a fingerprint.
fn upsert_fix(ts: &mut Vec<Trilateration>, t: Trilateration)
    requires
        fixes_wf(old(ts)@),
    ensures
        final(ts)@ == spec_fix_upsert(old(ts)@, t),
        fixes_wf(final(ts)@),
{
    let n = ts.len();
    let mut i: usize = 0;
    while i < n
        invariant
            i <= n,
            n == ts@.len(),
            ts@ == old(ts)@,
            fixes_wf(ts@),
            forall|p: int| 0 <= p < i ==> ts@[p].fingerprint != t.fingerprint,
        decreases n - i,
    {
        if ts[i].fingerprint == t.fingerprint {
            ts.set(i, t);
            proof {
                let tv = old(ts)@;
                assert(tv[i as int].fingerprint == t.fingerprint);
                assert(has_fix(tv, t.fingerprint));
                let k = fix_idx(tv, t.fingerprint);
                assert(0 <= k < tv.len() && tv[k].fingerprint == t.fingerprint);
                assert(k == i as int);
                assert(ts@ =~= spec_fix_upsert(tv, t));
                assert forall|p: int, q: int|
                    0 <= p < q < ts@.len() implies ts@[p].fingerprint != ts@[q].fingerprint by {
                    assert(tv[p].fingerprint != tv[q].fingerprint);
                }
            }
            return;
        }
        i = i + 1;
    }
    ts.push(t);
    proof {
        let tv = old(ts)@;
        assert(!has_fix(tv, t.fingerprint));
        assert(ts@ =~= spec_fix_upsert(tv, t));
        assert forall|p: int, q: int|
            0 <= p < q < ts@.len() implies ts@[p].fingerprint != ts@[q].fingerprint by {
            if q < tv.len() as int {
                assert(tv[p].fingerprint != tv[q].fingerprint);
            } else {
                assert(tv[p].fingerprint != t.fingerprint);
            }
        }
    }
}

/// Lookup of an anchor by id, as the resolution pipeline reads the
/// registry.
fn find_sensor(rs: &Vec<Sensor>, id: u8) -> (r: Option<Sensor>)
    requires
        registry_wf(rs@),
    ensures
        match r {
            Some(s) => has_sensor(rs@, id) && s == sensor_at(rs@, id) && s.id == id,
            None => !has_sensor(rs@, id),
        },
{
    let n = rs.len();
    let mut i: usize = 0;
    while i < n
        invariant
            i <= n,
            n == rs@.len(),
            registry_wf(rs@),
            forall|p: int| 0 <= p < i ==> rs@[p].id != id,
        decreases n - i,
    {
        if rs[i].id == id {
            proof {
                assert(has_sensor(rs@, id));
                let k = sensor_idx(rs@, id);
                assert(0 <= k < rs@.len() && rs@[k].id == id);
                assert(k == i as int);
            }
            return Some(rs[i]);
        }
        i = i + 1;
    }
    None
}

/// What one anchor contributes to the solver: its surveyed local position
/// and environment, and the median reading of its window.
pub open spec fn spec_candidate(w: WindowModel, s: Sensor) -> SensorCandidate {
    SensorCandidate { y: s.y, x: s.x, environment: s.environment, rssi: spec_median(w.samples) }
}

/// Every anchor that contributed to the entry is known to the registry.
pub open spec fn anchors_known(e: EntryModel, rs: Seq<Sensor>) -> bool {
    forall|i: int| 0 <= i < e.windows.len() ==> has_sensor(rs, (#[trigger] e.windows[i]).anchor_id)
}

/// What one append to the store led to.
#[derive(Clone, Copy, Debug, PartialEq, Eq, Structural)]
pub enum AppendOutcome {
    /// The fingerprint entry is still accumulating observations.
    Accumulating,
    /// The entry was ready but a contributing anchor is unknown to the
    /// registry; the entry is kept for a later attempt.
    UnknownAnchor,
    /// The entry was ready but the anchor geometry is degenerate (collinear
    /// or coinciding anchors, or a vanishing longitude scale); no fix is
    /// produced and the entry is kept.
    Degenerate,
    /// A fix was produced and written, and the entry was removed.
    Resolved(Trilateration),
}

/// Resolution attempt for a ready entry: the three windows, in
/// first-contact order, are filtered to their median readings, joined with
/// their anchors' registry records, ranged and trilaterated, and the solved
/// local position is carried to geographic coordinates.
pub open spec fn spec_resolve(e: EntryModel, rs: Seq<Sensor>) -> AppendOutcome
    recommends
        entry_ready(e),
{
    if !anchors_known(e, rs) {
        AppendOutcome::UnknownAnchor
    } else {
        let s1 = sensor_at(rs, e.windows[0].anchor_id);
        let s2 = sensor_at(rs, e.windows[1].anchor_id);
        let s3 = sensor_at(rs, e.windows[2].anchor_id);
        let c1 = spec_candidate(e.windows[0], s1);
        let c2 = spec_candidate(e.windows[1], s2);
        let c3 = spec_candidate(e.windows[2], s3);
        match spec_trilaterate(c1, c2, c3) {
            Option::None => AppendOutcome::Degenerate,
            Option::Some(yx) => match spec_transform(yx.1 as int, yx.0 as int, s1, s2, s3) {
                Option::None => AppendOutcome::Degenerate,
                Option::Some(ll) => AppendOutcome::Resolved(
                    Trilateration {
                        fingerprint: e.fingerprint,
                        y: yx.0,
                        x: yx.1,
                        lat: ll.0,
                        lon: ll.1,
                    },
                ),
            },
        }
    }
}

/// The exact effect of one observation append on the store and the fix
/// store, given the registry it resolves against: `m2` and `f2` are the
/// stores afterwards, `outcome` what the append reported.
pub open spec fn spec_measurement_step(
    reg: Seq<Sensor>,
    m0: Seq<EntryModel>,
    f0: Seq<Trilateration>,
    fp: u64,
    aid: u8,
    rssi: i8,
    now: u64,
    outcome: AppendOutcome,
    m2: Seq<EntryModel>,
    f2: Seq<Trilateration>,
) -> bool {
    let m1 = store_append(m0, fp, aid, Sample { rssi, at_ms: now });
    let e = m1[store_idx(m1, fp)];
    &&& (!entry_ready(e) ==> {
        &&& outcome == AppendOutcome::Accumulating
        &&& f2 == f0
        &&& m2 == spec_evict(m1, now)
    })
    &&& (entry_ready(e) ==> {
        let res = spec_resolve(e, reg);
        &&& outcome == res
        &&& match res {
            AppendOutcome::Resolved(t) => {
                &&& f2 == spec_fix_upsert(f0, t)
                &&& m2 == spec_evict(store_remove(m1, fp), now)
            },
            _ => {
                &&& f2 == f0
                &&& m2 == spec_evict(m1, now)
            },
        }
    })
}

impl SensorService {
    /// Observation ingestion: appends the reading to the
    /// fingerprint's window for this anchor, checks readiness, resolves a
    /// ready entry against the registry, and runs the eviction sweep — one
    /// atomic step under exclusive access.
    ///
    /// The outcome, the fix store and the observation store afterwards are
    /// pinned exactly: the entry resolves if and only if it is ready and
    /// `spec_resolve` yields a fix; only then is the fix written and the
    /// entry removed; entries whose newest observation is older than the
    /// retention age are dropped either way.
    pub fn add_measurement(
        &mut self,
        fingerprint: u64,
        sensor_id: u8,
        rssi: i8,
        now_ms: u64,
    ) -> (outcome: AppendOutcome)
        requires
            old(self).wf(),
        ensures
            final(self).wf(),
            final(self).registry() == old(self).registry(),
            spec_measurement_step(
                old(self).registry(),
                old(self).store_model(),
                old(self).fixes(),
                fingerprint,
                sensor_id,
                rssi,
                now_ms,
                outcome,
                final(self).store_model(),
                final(self).fixes(),
            ),
    {
        let ghost rs = old(self).registry();
        let sample = Sample { rssi, at_ms: now_ms };
        let i = store_append_exec(&mut self.measurements, fingerprint, sensor_id, sample);
        let ghost m1 = store_view(self.measurements@);
        let ghost eg = m1[i as int];
        proof {
            assert(eg == m1[store_idx(m1, fingerprint)]);
            assert(entry_wf(eg));
            assert(entry_view(self.measurements@[i as int]) == eg);
        }
        let ready = entry_ready_exec(&self.measurements[i]);
        let mut outcome = AppendOutcome::Accumulating;
        if ready {
            let e = &self.measurements[i];
            proof {
                assert(eg.windows.len() == 3);
                assert(e.windows@.len() == 3);
            }
            let a0 = find_sensor(&self.sensors, e.windows[0].anchor_id);
            let a1 = find_sensor(&self.sensors, e.windows[1].anchor_id);
            let a2 = find_sensor(&self.sensors, e.windows[2].anchor_id);
            proof {
                assert(eg.windows[0] == window_view(e.windows@[0]));
                assert(eg.windows[1] == window_view(e.windows@[1]));
                assert(eg.windows[2] == window_view(e.windows@[2]));
            }
            if a0.is_none() || a1.is_none() || a2.is_none() {
                outcome = AppendOutcome::UnknownAnchor;
                proof {
                    assert(!anchors_known(eg, rs));
                    assert(spec_resolve(eg, rs) == AppendOutcome::UnknownAnchor);
                }
            } else {
                let s0 = a0.unwrap();
                let s1 = a1.unwrap();
                let s2 = a2.unwrap();
                proof {
                    assert forall|p: int| 0 <= p < eg.windows.len() implies has_sensor(
                        rs,
                        (#[trigger] eg.windows[p]).anchor_id,
                    ) by {
                        if p == 0 {
                        } else if p == 1 {
                        } else {
                            assert(p == 2);
                        }
                    }
                    assert(anchors_known(eg, rs));
                    assert(eg.windows[0].samples.len() >= 1);
                    assert(eg.windows[1].samples.len() >= 1);
                    assert(eg.windows[2].samples.len() >= 1);
                }
                let r0 = calculate_rssi_median(&e.windows[0].samples);
                let r1 = calculate_rssi_median(&e.windows[1].samples);
                let r2 = calculate_rssi_median(&e.windows[2].samples);
                let c0 = SensorCandidate { y: s0.y, x: s0.x, environment: s0.environment, rssi: r0 };
                let c1 = SensorCandidate { y: s1.y, x: s1.x, environment: s1.environment, rssi: r1 };
                let c2 = SensorCandidate { y: s2.y, x: s2.x, environment: s2.environment, rssi: r2 };
                proof {
                    assert(c0 == spec_candidate(eg.windows[0], sensor_at(rs, eg.windows[0].anchor_id)));
                    assert(c1 == spec_candidate(eg.windows[1], sensor_at(rs, eg.windows[1].anchor_id)));
                    assert(c2 == spec_candidate(eg.windows[2], sensor_at(rs, eg.windows[2].anchor_id)));
                    assert(s0.wf() && s1.wf() && s2.wf());
                }
                match trilaterate(&c0, &c1, &c2) {
                    None => {
                        outcome = AppendOutcome::Degenerate;
                        proof {
                            assert(spec_resolve(eg, rs) == AppendOutcome::Degenerate);
                        }
                    },
                    Some(yx) => {
                        let y = yx.0;
                        let x = yx.1;
                        match transform_local_to_global(x, y, &s0, &s1, &s2) {
                            None => {
                                outcome = AppendOutcome::Degenerate;
                                proof {
                                    assert(spec_resolve(eg, rs) == AppendOutcome::Degenerate);
                                }
                            },
                            Some(ll) => {
                                let t = Trilateration {
                                    fingerprint,
                                    y,
                                    x,
                                    lat: ll.0,
                                    lon: ll.1,
                                };
                                proof {
                                    assert(eg.fingerprint == fingerprint);
                                    assert(spec_resolve(eg, rs) == AppendOutcome::Resolved(t));
                                }
                                upsert_fix(&mut self.trilaterations, t);
                                remove_entry_exec(&mut self.measurements, fingerprint);
                                outcome = AppendOutcome::Resolved(t);
                            },
                        }
                    },
                }
            }
        }
        evict_stale(&mut self.measurements, now_ms);
        outcome
    }
}

/// One decoded inbound wire record: the announcing anchor's survey data and
/// one observation of a device. Coordinates are scaled as everywhere in the
/// engine: millimeters for the local frame, nanodegrees for the geographic
/// one.
#[derive(Clone, Copy, Debug, PartialEq, Eq, Structural)]
pub struct SensorPacket {
    pub sensor_id: u8,
    pub y: i64,
    pub x: i64,
    pub latitude: i64,
    pub longitude: i64,
    pub environment: Environment,
    pub fingerprint: u64,
    pub rssi: i8,
}

impl SensorService {
    /// Driver of the ingestion call order: a decoded packet
    /// re-announces its anchor to the registry and feeds one observation to
    /// the store; an undecodable datagram (`None`) is dropped and leaves
    /// every store exactly as it was.
    pub fn ingest_packet(&mut self, packet: Option<SensorPacket>, now_ms: u64) -> (outcome:
        Option<AppendOutcome>)
        requires
            old(self).wf(),
        ensures
            final(self).wf(),
            packet.is_none() ==> {
                &&& outcome.is_none()
                &&& final(self).registry() == old(self).registry()
                &&& final(self).store_model() == old(self).store_model()
                &&& final(self).fixes() == old(self).fixes()
            },
            ({
                match packet {
                    Option::None => true,
                    Option::Some(p) => {
                        let s = Sensor {
                            id: p.sensor_id,
                            x: p.x,
                            y: p.y,
                            lat: p.latitude,
                            lon: p.longitude,
                            environment: p.environment,
                        };
                        let reg1 = if s.wf() {
                            spec_upsert(old(self).registry(), s)
                        } else {
                            old(self).registry()
                        };
                        &&& final(self).registry() == reg1
                        &&& outcome.is_some()
                        &&& spec_measurement_step(
                            reg1,
                            old(self).store_model(),
                            old(self).fixes(),
                            p.fingerprint,
                            p.sensor_id,
                            p.rssi,
                            now_ms,
                            outcome.unwrap(),
                            final(self).store_model(),
                            final(self).fixes(),
                        )
                    },
                }
            }),
    {
        match packet {
            None => None,
            Some(p) => {
                self.add_sensor(p.sensor_id, p.y, p.x, p.latitude, p.longitude, p.environment);
                let outcome = self.add_measurement(p.fingerprint, p.sensor_id, p.rssi, now_ms);
                Some(outcome)
            },
        }
    }
}

// ---------------------------------------------------------------------
// Laws
// ---------------------------------------------------------------------

/// Registry upsert is last-write-wins and idempotent under repetition:
/// upserting a record and then another with the same id leaves the
/// registry exactly as if only the second had been upserted; that id then
/// maps to the second record, and ids stay unique, so exactly one record
/// carries it.
pub proof fn lemma_upsert_last_write_wins(rs: Seq<Sensor>, a: Sensor, b: Sensor)
    requires
        registry_ids_unique(rs),
        a.id == b.id,
    ensures
        spec_upsert(spec_upsert(rs, a), b) == spec_upsert(rs, b),
        has_sensor(spec_upsert(rs, b), b.id),
        sensor_at(spec_upsert(rs, b), b.id) == b,
        registry_ids_unique(spec_upsert(rs, b)),
{
    let id = b.id;
    if has_sensor(rs, id) {
        let i = sensor_idx(rs, id);
        assert(0 <= i < rs.len() && rs[i].id == id);
        let r1 = rs.update(i, a);
        assert(r1[i].id == id);
        assert(has_sensor(r1, id));
        let j = sensor_idx(r1, id);
        assert(0 <= j < r1.len() && r1[j].id == id);
        assert(j == i);
        assert(spec_upsert(spec_upsert(rs, a), b) =~= rs.update(i, b));
        assert(spec_upsert(rs, b) =~= rs.update(i, b));
        assert(sensor_at(spec_upsert(rs, b), id) == b);
        assert forall|p: int, q: int|
            0 <= p < q < spec_upsert(rs, b).len() implies spec_upsert(rs, b)[p].id != spec_upsert(
            rs,
            b,
        )[q].id by {
            assert(rs[p].id != rs[q].id);
        }
    } else {
        let r1 = rs.push(a);
        assert(r1[rs.len() as int].id == id);
        assert(has_sensor(r1, id));
        let j = sensor_idx(r1, id);
        assert(0 <= j < r1.len() && r1[j].id == id);
        assert forall|p: int| 0 <= p < rs.len() implies rs[p].id != id by {
            assert(!(0 <= p < rs.len() && rs[p].id == id));
        }
        assert(j == rs.len() as int);
        assert(spec_upsert(spec_upsert(rs, a), b) =~= rs.push(b));
        assert(spec_upsert(rs, b) =~= rs.push(b));
        let k = sensor_idx(rs.push(b), id);
        assert(rs.push(b)[rs.len() as int].id == id);
        assert(has_sensor(rs.push(b), id));
        assert(0 <= k < rs.push(b).len() && rs.push(b)[k].id == id);
        assert(k == rs.len() as int);
        assert(sensor_at(spec_upsert(rs, b), id) == b);
        assert forall|p: int, q: int|
            0 <= p < q < spec_upsert(rs, b).len() implies spec_upsert(rs, b)[p].id != spec_upsert(
            rs,
            b,
        )[q].id by {
            if q < rs.len() as int {
                assert(rs[p].id != rs[q].id);
            } else {
                assert(rs[p].id != id);
            }
        }
    }
}

/// An entry observed by fewer (or more) than three distinct anchors is not
/// ready, so an append that leaves it so reports `Accumulating` and cannot
/// touch the fix store — regardless of how many samples each window holds.
pub proof fn lemma_no_fix_without_three_anchors(
    reg: Seq<Sensor>,
    m0: Seq<EntryModel>,
    f0: Seq<Trilateration>,
    fp: u64,
    aid: u8,
    rssi: i8,
    now: u64,
    outcome: AppendOutcome,
    m2: Seq<EntryModel>,
    f2: Seq<Trilateration>,
)
    requires
        spec_measurement_step(reg, m0, f0, fp, aid, rssi, now, outcome, m2, f2),
        ({
            let m1 = store_append(m0, fp, aid, Sample { rssi, at_ms: now });
            m1[store_idx(m1, fp)].windows.len() != 3
        }),
    ensures
        outcome == AppendOutcome::Accumulating,
        f2 == f0,
{
}

/// Every entry that survives an eviction sweep is one of the original
/// entries, and live.
proof fn lemma_evict_elements(m: Seq<EntryModel>, now: u64)
    ensures
        forall|x: EntryModel| #[trigger]
            spec_evict(m, now).contains(x) ==> m.contains(x) && entry_live(x, now),
    decreases m.len(),
{
    if m.len() == 0 {
    } else {
        lemma_evict_elements(m.drop_last(), now);
        let rest = spec_evict(m.drop_last(), now);
        assert forall|x: EntryModel| #[trigger]
            spec_evict(m, now).contains(x) implies m.contains(x) && entry_live(x, now) by {
            let ev = spec_evict(m, now);
            let p = choose|p: int| 0 <= p < ev.len() && ev[p] == x;
            if p < rest.len() {
                assert(rest[p] == x);
                assert(rest.contains(x));
                let q = choose|q: int| 0 <= q < m.drop_last().len() && m.drop_last()[q] == x;
                assert(m[q] == x);
                assert(m.contains(x));
            } else {
                assert(x == m[m.len() - 1]);
                assert(m.contains(x));
            }
        }
    }
}

/// An entry whose newest observation is at least the retention age old at
/// the time of an eviction sweep is removed: no entry for its fingerprint
/// survives the sweep.
pub proof fn lemma_stale_entry_evicted(m: Seq<EntryModel>, now: u64, i: int)
    requires
        forall|p: int, q: int| 0 <= p < q < m.len() ==> m[p].fingerprint != m[q].fingerprint,
        0 <= i < m.len(),
        !entry_live(m[i], now),
    ensures
        !store_has(spec_evict(m, now), m[i].fingerprint),
{
    lemma_evict_elements(m, now);
    let ev = spec_evict(m, now);
    if store_has(ev, m[i].fingerprint) {
        let p = choose|p: int| 0 <= p < ev.len() && ev[p].fingerprint == m[i].fingerprint;
        assert(ev.contains(ev[p]));
        assert(m.contains(ev[p]) && entry_live(ev[p], now));
        let q = choose|q: int| 0 <= q < m.len() && m[q] == ev[p];
        assert(m[q].fingerprint == m[i].fingerprint);
        assert(q == i);
        assert(false);
    }
}

/// Once its entry is gone, a fingerprint accumulates from zero: the next
/// append for it creates a fresh entry holding exactly one window with
/// exactly the one new observation.
pub proof fn lemma_fresh_entry_after_removal(m: Seq<EntryModel>, fp: u64, aid: u8, s: Sample)
    requires
        !store_has(m, fp),
    ensures
        ({
            let m2 = store_append(m, fp, aid, s);
            &&& store_has(m2, fp)
            &&& m2[store_idx(m2, fp)].windows =~~= seq![
                WindowModel { anchor_id: aid, samples: seq![s] },
            ]
        }),
{
    let fresh = EntryModel {
        fingerprint: fp,
        windows: seq![WindowModel { anchor_id: aid, samples: seq![s] }],
    };
    let m2 = m.push(fresh);
    assert(m2[m.len() as int].fingerprint == fp);
    assert(store_has(m2, fp));
    let k = store_idx(m2, fp);
    assert(0 <= k < m2.len() && m2[k].fingerprint == fp);
    assert forall|p: int| 0 <= p < m.len() implies m[p].fingerprint != fp by {
        assert(!(0 <= p < m.len() && m[p].fingerprint == fp));
    }
    assert(k == m.len() as int);
}

/// An append always leaves an entry for the appended fingerprint, at most
/// one entry per fingerprint staying at most one.
proof fn lemma_append_keeps_fingerprints_unique(m: Seq<EntryModel>, fp: u64, aid: u8, s: Sample)
    requires
        forall|p: int, q: int| 0 <= p < q < m.len() ==> m[p].fingerprint != m[q].fingerprint,
    ensures
        ({
            let m1 = store_append(m, fp, aid, s);
            &&& store_has(m1, fp)
            &&& m1[store_idx(m1, fp)].fingerprint == fp
            &&& forall|p: int, q: int|
                0 <= p < q < m1.len() ==> m1[p].fingerprint != m1[q].fingerprint
            &&& !store_has(store_remove(m1, fp), fp)
        }),
{
    let m1 = store_append(m, fp, aid, s);
    if store_has(m, fp) {
        let i = store_idx(m, fp);
        assert(0 <= i < m.len() && m[i].fingerprint == fp);
        assert(m1[i].fingerprint == fp);
        assert(store_has(m1, fp));
        assert forall|p: int, q: int|
            0 <= p < q < m1.len() implies m1[p].fingerprint != m1[q].fingerprint by {
            assert(m[p].fingerprint != m[q].fingerprint);
        }
    } else {
        assert(m1[m.len() as int].fingerprint == fp);
        assert(store_has(m1, fp));
        assert forall|p: int| 0 <= p < m.len() implies m[p].fingerprint != fp by {
            assert(!(0 <= p < m.len() && m[p].fingerprint == fp));
        }
        assert forall|p: int, q: int|
            0 <= p < q < m1.len() implies m1[p].fingerprint != m1[q].fingerprint by {
            if q < m.len() as int {
                assert(m[p].fingerprint != m[q].fingerprint);
            } else {
                assert(m1[p].fingerprint != fp);
            }
        }
    }
    let k = store_idx(m1, fp);
    assert(0 <= k < m1.len() && m1[k].fingerprint == fp);
    let rest = store_remove(m1, fp);
    if store_has(rest, fp) {
        let p = choose|p: int| 0 <= p < rest.len() && rest[p].fingerprint == fp;
        let p1 = if p < k {
            p
        } else {
            p + 1
        };
        assert(m1[p1].fingerprint == fp);
        assert(p1 != k);
        assert(false);
    }
}

/// Writing a fix into a store with unique fingerprints leaves it under its
/// fingerprint, fingerprints staying unique.
proof fn lemma_fix_upsert_found(f0: Seq<Trilateration>, t: Trilateration)
    requires
        fixes_wf(f0),
    ensures
        ({
            let f2 = spec_fix_upsert(f0, t);
            &&& fixes_wf(f2)
            &&& has_fix(f2, t.fingerprint)
            &&& f2[fix_idx(f2, t.fingerprint)] == t
        }),
{
    let fp = t.fingerprint;
    let f2 = spec_fix_upsert(f0, t);
    if has_fix(f0, fp) {
        let i = fix_idx(f0, fp);
        assert(0 <= i < f0.len() && f0[i].fingerprint == fp);
        assert(f2[i] == t);
        assert(has_fix(f2, fp));
        assert forall|p: int, q: int|
            0 <= p < q < f2.len() implies f2[p].fingerprint != f2[q].fingerprint by {
            assert(f0[p].fingerprint != f0[q].fingerprint);
        }
        let k = fix_idx(f2, fp);
        assert(0 <= k < f2.len() && f2[k].fingerprint == fp);
        assert(k == i);
    } else {
        assert(f2[f0.len() as int] == t);
        assert(has_fix(f2, fp));
        assert forall|p: int| 0 <= p < f0.len() implies f0[p].fingerprint != fp by {
            assert(!(0 <= p < f0.len() && f0[p].fingerprint == fp));
        }
        assert forall|p: int, q: int|
            0 <= p < q < f2.len() implies f2[p].fingerprint != f2[q].fingerprint by {
            if q < f0.len() as int {
                assert(f0[p].fingerprint != f0[q].fingerprint);
            } else {
                assert(f0[p].fingerprint != fp);
            }
        }
        let k = fix_idx(f2, fp);
        assert(0 <= k < f2.len() && f2[k].fingerprint == fp);
        assert(k == f0.len() as int);
    }
}

/// Accumulation and resolution are mutually exclusive states: the append
/// that reports `Resolved` carries the appended fingerprint in its fix,
/// leaves that fix in the fix store, and leaves no entry for the
/// fingerprint in the observation store — one atomic step.
pub proof fn lemma_resolution_removes_entry(
    reg: Seq<Sensor>,
    m0: Seq<EntryModel>,
    f0: Seq<Trilateration>,
    fp: u64,
    aid: u8,
    rssi: i8,
    now: u64,
    outcome: AppendOutcome,
    m2: Seq<EntryModel>,
    f2: Seq<Trilateration>,
    t: Trilateration,
)
    requires
        forall|p: int, q: int| 0 <= p < q < m0.len() ==> m0[p].fingerprint != m0[q].fingerprint,
        fixes_wf(f0),
        spec_measurement_step(reg, m0, f0, fp, aid, rssi, now, outcome, m2, f2),
        outcome == AppendOutcome::Resolved(t),
    ensures
        t.fingerprint == fp,
        has_fix(f2, fp),
        f2[fix_idx(f2, fp)] == t,
        !store_has(m2, fp),
{
    let s = Sample { rssi, at_ms: now };
    lemma_append_keeps_fingerprints_unique(m0, fp, aid, s);
    let m1 = store_append(m0, fp, aid, s);
    let e = m1[store_idx(m1, fp)];
    assert(entry_ready(e));
    assert(spec_resolve(e, reg) == AppendOutcome::Resolved(t));
    assert(t.fingerprint == e.fingerprint);
    lemma_fix_upsert_found(f0, t);
    let rest = store_remove(m1, fp);
    lemma_evict_elements(rest, now);
    if store_has(m2, fp) {
        let p = choose|p: int| 0 <= p < m2.len() && m2[p].fingerprint == fp;
        assert(m2.contains(m2[p]));
        assert(rest.contains(m2[p]));
        let q = choose|q: int| 0 <= q < rest.len() && rest[q] == m2[p];
        assert(rest[q].fingerprint == fp);
        assert(store_has(rest, fp));
        assert(false);
    }
}

} // verus!
