//! The material-resolution engine.
//!
//! Per-entity material references are resolved against a process-wide
//! cache in two phases.  The dispatch phase records a cached resource
//! for every reference already in the cache and requests an asset
//! load for the rest.  The reconcile phase folds polled asset files
//! into the cache, advances each pending reference whose file now
//! holds the named material, and — once the whole set is resolved —
//! injects the materials into the entity's children by positional
//! index and marks the entity processed.

use vstd::prelude::*;
use vstd::string::StringExecFns;
use crate::keystore::KeyStore;

verus! {

/// The name and source-file path of one material to apply.
#[derive(Debug, Default, Clone)]
pub struct MaterialInfo {
    pub name: String,
    pub path: String,
}

/// The full ordered list of material references for one entity; index
/// `i` corresponds positionally to the entity's `i`-th child.
#[derive(Debug, Default)]
pub struct MaterialInfos(pub Vec<MaterialInfo>);

/// The fully-qualified cache key of a reference: the path, `#`, then
/// the name.
pub open spec fn full_key(path: Seq<char>, name: Seq<char>) -> Seq<char> {
    path + seq!['#'] + name
}

/// The fully-qualified cache key of `info`.
pub open spec fn info_key(info: MaterialInfo) -> Seq<char> {
    full_key(info.path@, info.name@)
}

/// Builds the fully-qualified cache key of `info`.
pub fn material_full_key(info: &MaterialInfo) -> (k: String)
    ensures
        k@ == info_key(*info),
{
    let mut k: String = info.path.clone();
    k.append("#");
    k.append(info.name.as_str());
    proof {
        reveal_strlit("#");
        assert("#"@ =~= seq!['#']);
        assert(k@ =~= info_key(*info));
    }
    k
}

/// The process-wide material cache: fully-qualified key to resolved
/// material resource.  It grows for the life of the process; a bound
/// key is never removed, and re-inserting a key is a harmless
/// overwrite because the resource for a given key is deterministic.
#[derive(Debug, Clone)]
pub struct MaterialCache {
    store: KeyStore,
}

impl View for MaterialCache {
    type V = Map<Seq<char>, u64>;

    closed spec fn view(&self) -> Map<Seq<char>, u64> {
        self.store@
    }
}

impl MaterialCache {
    /// An empty cache, as created once at host-application startup.
    pub fn new() -> (r: MaterialCache)
        ensures
            r@ == Map::<Seq<char>, u64>::empty(),
    {
        MaterialCache { store: KeyStore::new() }
    }

    /// Whether `key` is already resolved in the cache.
    pub fn contains(&self, key: &String) -> (r: bool)
        ensures
            r == self@.contains_key(key@),
    {
        self.store.contains(key)
    }

    /// The resource cached under `key`; the key must be present.
    pub fn get(&self, key: &String) -> (r: u64)
        requires
            self@.contains_key(key@),
        ensures
            r == self@[key@],
    {
        self.store.get(key)
    }

    /// Cache `material` under `key` (idempotent overwrite).
    pub fn insert(&mut self, key: String, material: u64)
        ensures
            final(self)@ == old(self)@.insert(key@, material),
    {
        self.store.insert(key, material);
    }
}

/// Repeated lookups of a key are stable: immediately after caching
/// `r` under `k`, every lookup of `k` yields `r`, and later inserts
/// of other keys leave that binding untouched.
pub proof fn lemma_cache_lookup_idempotent(
    m: Map<Seq<char>, u64>,
    k: Seq<char>,
    r: u64,
    k2: Seq<char>,
    r2: u64,
)
    requires
        k2 != k,
    ensures
        m.insert(k, r).contains_key(k),
        m.insert(k, r)[k] == r,
        m.insert(k, r).insert(k2, r2).contains_key(k),
        m.insert(k, r).insert(k2, r2)[k] == r,
{
}

/// The per-index resolution state: either a resolved material
/// resource or a pending asset-file load, identified by its handle.
#[derive(Debug, Clone, Copy, PartialEq, Eq, Structural)]
pub enum MaterialSlot {
    Resolved(u64),
    Pending(u64),
}

/// The transient per-entity resolution state, one slot per reference
/// in the entity's [`MaterialInfos`]; it exists only while the entity
/// is being processed.
#[derive(Debug, Default)]
pub struct MaterialProcessing {
    pub materials: Vec<MaterialSlot>,
}

/// Whether every slot is resolved.
pub open spec fn all_resolved(slots: Seq<MaterialSlot>) -> bool {
    forall|i: int| 0 <= i < slots.len() ==> slots[i] is Resolved
}

impl MaterialProcessing {
    /// Whether every reference of this entity has been resolved.
    pub fn loaded(&self) -> (r: bool)
        ensures
            r == all_resolved(self.materials@),
    {
        let n: usize = self.materials.len();
        let mut i: usize = 0;
        while i < n
            invariant
                i <= n,
                n == self.materials.len(),
                forall|j: int| 0 <= j < i ==> self.materials@[j] is Resolved,
            decreases n - i,
        {
            match self.materials[i] {
                MaterialSlot::Resolved(_) => {}
                MaterialSlot::Pending(_) => {
                    return false;
                }
            }
            i = i + 1;
        }
        true
    }
}

/// Terminal per-entity tag: resolution finished and the materials
/// were injected; the entity is never processed again.
#[derive(Debug, Default, Clone, Copy, PartialEq, Eq, Structural)]
pub struct MaterialProcessed;

/// An asset load requested by the dispatch phase: load the file at
/// `path` under handle `handle`, for the reference at `index`.
#[derive(Debug, Clone)]
pub struct LoadRequest {
    pub index: usize,
    pub handle: u64,
    pub path: String,
}

/// The slot the dispatch phase records for one reference: the cached
/// resource on a cache hit, else a pending load under `handle`.
pub open spec fn phase1_slot(m: Map<Seq<char>, u64>, info: MaterialInfo, handle: u64) -> MaterialSlot {
    if m.contains_key(info_key(info)) {
        MaterialSlot::Resolved(m[info_key(info)])
    } else {
        MaterialSlot::Pending(handle)
    }
}

/// The whole resolution state the dispatch phase attaches.
pub open spec fn phase1_slots(
    m: Map<Seq<char>, u64>,
    infos: Seq<MaterialInfo>,
    handles: Seq<u64>,
) -> Seq<MaterialSlot> {
    Seq::new(infos.len(), |i: int| phase1_slot(m, infos[i], handles[i]))
}

/// The indices of the first `n` references whose key is not in the
/// cache — exactly the references the dispatch phase loads for.
pub open spec fn uncached_indices(m: Map<Seq<char>, u64>, infos: Seq<MaterialInfo>, n: int) -> Seq<int>
    decreases n,
{
    if n <= 0 {
        Seq::empty()
    } else {
        let rest = uncached_indices(m, infos, n - 1);
        if m.contains_key(info_key(infos[n - 1])) {
            rest
        } else {
            rest.push(n - 1)
        }
    }
}

/// Every entry of [`uncached_indices`] is an in-range index whose key
/// the cache does not hold.
pub proof fn lemma_uncached_indices_sound(m: Map<Seq<char>, u64>, infos: Seq<MaterialInfo>, n: int)
    requires
        n <= infos.len(),
    ensures
        forall|j: int|
            #![trigger uncached_indices(m, infos, n)[j]]
            0 <= j < uncached_indices(m, infos, n).len() ==> {
                let idx = uncached_indices(m, infos, n)[j];
                0 <= idx < n && !m.contains_key(info_key(infos[idx]))
            },
    decreases n,
{
    if n > 0 {
        lemma_uncached_indices_sound(m, infos, n - 1);
        let rest = uncached_indices(m, infos, n - 1);
        let cur = uncached_indices(m, infos, n);
        if m.contains_key(info_key(infos[n - 1])) {
            assert(cur == rest);
        } else {
            assert(cur == rest.push(n - 1));
            assert(forall|j: int| 0 <= j < rest.len() ==> cur[j] == #[trigger] rest[j]);
            assert(cur[rest.len() as int] == n - 1);
        }
    }
}

/// A reference whose key is already cached causes no asset load: its
/// index appears in no load request of the dispatch phase.
pub proof fn lemma_cache_hit_skips_load(m: Map<Seq<char>, u64>, infos: Seq<MaterialInfo>, i: int, n: int)
    requires
        n <= infos.len(),
        0 <= i < infos.len(),
        m.contains_key(info_key(infos[i])),
    ensures
        forall|j: int| 0 <= j < uncached_indices(m, infos, n).len()
            ==> uncached_indices(m, infos, n)[j] != i,
{
    lemma_uncached_indices_sound(m, infos, n);
}

/// The dispatch phase for one untouched entity bearing `infos`.
///
/// For each reference, a cache hit is recorded as resolved at once;
/// a miss becomes a pending slot under the caller-supplied fresh
/// handle `handles[i]`, and a load request for the reference's file
/// is emitted.  Nothing blocks: the requests are polled later.
pub fn load_material_gltfs(cache: &MaterialCache, infos: &MaterialInfos, handles: &Vec<u64>) -> (out: (
    MaterialProcessing,
    Vec<LoadRequest>,
))
    requires
        handles.len() == infos.0.len(),
    ensures
        out.0.materials@ == phase1_slots(cache@, infos.0@, handles@),
        out.1@.len() == uncached_indices(cache@, infos.0@, infos.0.len() as int).len(),
        forall|j: int|
            #![trigger out.1@[j]]
            0 <= j < out.1@.len() ==> {
                let idx = uncached_indices(cache@, infos.0@, infos.0.len() as int)[j];
                out.1@[j].index == idx && out.1@[j].handle == handles@[idx] && out.1@[j].path@
                    == infos.0@[idx].path@
            },
{
    let n: usize = infos.0.len();
    let mut slots: Vec<MaterialSlot> = Vec::new();
    let mut loads: Vec<LoadRequest> = Vec::new();
    let mut i: usize = 0;
    while i < n
        invariant
            i <= n,
            n == infos.0.len(),
            handles.len() == n,
            slots@.len() == i,
            forall|j: int| 0 <= j < i ==> slots@[j] == phase1_slot(cache@, infos.0@[j], handles@[j]),
            loads@.len() == uncached_indices(cache@, infos.0@, i as int).len(),
            forall|j: int|
                #![trigger loads@[j]]
                0 <= j < loads@.len() ==> {
                    let idx = uncached_indices(cache@, infos.0@, i as int)[j];
                    loads@[j].index == idx && loads@[j].handle == handles@[idx] && loads@[j].path@
                        == infos.0@[idx].path@
                },
        decreases n - i,
    {
        let info = &infos.0[i];
        let key = material_full_key(info);
        proof {
            lemma_uncached_indices_sound(cache@, infos.0@, i + 1);
        }
        if cache.contains(&key) {
            let material: u64 = cache.get(&key);
            slots.push(MaterialSlot::Resolved(material));
        } else {
            slots.push(MaterialSlot::Pending(handles[i]));
            loads.push(LoadRequest { index: i, handle: handles[i], path: info.path.clone() });
        }
        i = i + 1;
    }
    proof {
        assert(slots@ =~= phase1_slots(cache@, infos.0@, handles@));
    }
    (MaterialProcessing { materials: slots }, loads)
}

/// The contents of a loaded asset file, as far as resolution reads
/// them: its named materials, keyed by material name.
#[derive(Debug, Clone)]
pub struct GltfDocument {
    pub named_materials: KeyStore,
}

/// One structural child of an entity, as far as injection reads it:
/// its identifier and whether it carries a mesh and a placeholder
/// material slot.
#[derive(Debug, Clone, Copy, PartialEq, Eq, Structural)]
pub struct ChildSlot {
    pub id: u64,
    pub has_mesh: bool,
    pub has_material_slot: bool,
}

/// A child qualifies for injection when it carries both a mesh and a
/// placeholder material slot.
pub open spec fn child_qualifies(c: ChildSlot) -> bool {
    c.has_mesh && c.has_material_slot
}

/// One injection performed on completion: attach `material` to the
/// child with identifier `child`, sitting at position `child_index`.
#[derive(Debug, Clone, Copy, PartialEq, Eq, Structural)]
pub struct Injection {
    pub child_index: usize,
    pub child: u64,
    pub material: u64,
}

/// What one reconcile pass produced for an entity: whether the
/// entity finished (and is to be marked processed), and the
/// injections to perform on its children.
#[derive(Debug)]
pub struct InjectOutcome {
    pub processed: bool,
    pub injections: Vec<Injection>,
}

/// Whether a pending slot advances this tick: its file was polled as
/// available and holds a material of the referenced name.
pub open spec fn slot_resolves(slot: MaterialSlot, info: MaterialInfo, p: Option<GltfDocument>) -> bool {
    &&& slot is Pending
    &&& match p {
        Option::Some(doc) => doc.named_materials@.contains_key(info.name@),
        Option::None => false,
    }
}

/// The material the polled file holds under the referenced name.
pub open spec fn resolved_value(info: MaterialInfo, p: Option<GltfDocument>) -> u64 {
    match p {
        Option::Some(doc) => doc.named_materials@[info.name@],
        Option::None => arbitrary(),
    }
}

/// One slot after the advance step: a newly available material
/// resolves the slot; anything else leaves it unchanged.
pub open spec fn advance_slot(slot: MaterialSlot, info: MaterialInfo, p: Option<GltfDocument>) -> MaterialSlot {
    if slot_resolves(slot, info, p) {
        MaterialSlot::Resolved(resolved_value(info, p))
    } else {
        slot
    }
}

/// The whole resolution state after the advance step.
pub open spec fn advanced_slots(
    slots: Seq<MaterialSlot>,
    infos: Seq<MaterialInfo>,
    polled: Seq<Option<GltfDocument>>,
) -> Seq<MaterialSlot> {
    Seq::new(slots.len(), |i: int| advance_slot(slots[i], infos[i], polled[i]))
}

/// The cache after the advance step has folded in the first `n`
/// newly resolved references, in index order.
pub open spec fn cache_after_advance(
    m: Map<Seq<char>, u64>,
    slots: Seq<MaterialSlot>,
    infos: Seq<MaterialInfo>,
    polled: Seq<Option<GltfDocument>>,
    n: int,
) -> Map<Seq<char>, u64>
    decreases n,
{
    if n <= 0 {
        m
    } else {
        let prev = cache_after_advance(m, slots, infos, polled, n - 1);
        if slot_resolves(slots[n - 1], infos[n - 1], polled[n - 1]) {
            prev.insert(info_key(infos[n - 1]), resolved_value(infos[n - 1], polled[n - 1]))
        } else {
            prev
        }
    }
}

/// The advance step never inserts less: every key cached before is
/// cached after, with its value unchanged unless a newly resolved
/// reference re-derives that same key.
pub proof fn lemma_cache_grows_monotonically(
    m: Map<Seq<char>, u64>,
    slots: Seq<MaterialSlot>,
    infos: Seq<MaterialInfo>,
    polled: Seq<Option<GltfDocument>>,
    n: int,
)
    ensures
        forall|k: Seq<char>| m.contains_key(k)
            ==> #[trigger] cache_after_advance(m, slots, infos, polled, n).contains_key(k),
    decreases n,
{
    if n > 0 {
        lemma_cache_grows_monotonically(m, slots, infos, polled, n - 1);
        assert forall|k: Seq<char>| m.contains_key(k)
            implies #[trigger] cache_after_advance(m, slots, infos, polled, n).contains_key(k) by {
            assert(cache_after_advance(m, slots, infos, polled, n - 1).contains_key(k));
        }
    }
}

/// A reconcile step leaves unrelated cache entries untouched: a key
/// that no newly resolving reference re-derives keeps its binding, so
/// a cached lookup stays stable across any number of ticks.
pub proof fn lemma_cache_entry_stable(
    m: Map<Seq<char>, u64>,
    slots: Seq<MaterialSlot>,
    infos: Seq<MaterialInfo>,
    polled: Seq<Option<GltfDocument>>,
    n: int,
    k: Seq<char>,
)
    requires
        forall|i: int| 0 <= i < n && slot_resolves(#[trigger] slots[i], infos[i], polled[i])
            ==> info_key(infos[i]) != k,
    ensures
        cache_after_advance(m, slots, infos, polled, n).contains_key(k) == m.contains_key(k),
        m.contains_key(k) ==> cache_after_advance(m, slots, infos, polled, n)[k] == m[k],
    decreases n,
{
    if n > 0 {
        lemma_cache_entry_stable(m, slots, infos, polled, n - 1, k);
    }
}

/// The material held by a resolved slot.
pub open spec fn slot_material(slot: MaterialSlot) -> u64 {
    match slot {
        MaterialSlot::Resolved(material) => material,
        MaterialSlot::Pending(_) => arbitrary(),
    }
}

/// How many slots are resolved.
pub open spec fn resolved_count(slots: Seq<MaterialSlot>) -> nat
    decreases slots.len(),
{
    if slots.len() == 0 {
        0
    } else {
        resolved_count(slots.drop_last()) + if slots.last() is Resolved {
            1nat
        } else {
            0nat
        }
    }
}

/// A pointwise refinement never loses resolutions: if every resolved
/// slot of `s1` is kept unchanged in `s2`, the resolved count does
/// not decrease.
pub proof fn lemma_resolved_count_monotone(s1: Seq<MaterialSlot>, s2: Seq<MaterialSlot>)
    requires
        s1.len() == s2.len(),
        forall|i: int| 0 <= i < s1.len() && s1[i] is Resolved ==> s2[i] == s1[i],
    ensures
        resolved_count(s2) >= resolved_count(s1),
    decreases s1.len(),
{
    if s1.len() > 0 {
        lemma_resolved_count_monotone(s1.drop_last(), s2.drop_last());
    }
}

/// Monotonic progress: the advance step keeps every resolved slot as
/// it is, so the count of resolved references never decreases from
/// one tick to the next.
pub proof fn lemma_progress_monotone(
    slots: Seq<MaterialSlot>,
    infos: Seq<MaterialInfo>,
    polled: Seq<Option<GltfDocument>>,
)
    ensures
        forall|i: int| 0 <= i < slots.len() && slots[i] is Resolved
            ==> #[trigger] advanced_slots(slots, infos, polled)[i] == slots[i],
        resolved_count(advanced_slots(slots, infos, polled)) >= resolved_count(slots),
{
    lemma_resolved_count_monotone(slots, advanced_slots(slots, infos, polled));
}

/// The positions, among the first `n`, that receive an injection: an
/// existing child sits there and it qualifies structurally.
pub open spec fn eligible_indices(children: Seq<ChildSlot>, n: int) -> Seq<int>
    decreases n,
{
    if n <= 0 {
        Seq::empty()
    } else {
        let rest = eligible_indices(children, n - 1);
        if n - 1 < children.len() && child_qualifies(children[n - 1]) {
            rest.push(n - 1)
        } else {
            rest
        }
    }
}

/// Every eligible position is in range and qualifies.
pub proof fn lemma_eligible_indices_sound(children: Seq<ChildSlot>, n: int)
    ensures
        forall|j: int|
            #![trigger eligible_indices(children, n)[j]]
            0 <= j < eligible_indices(children, n).len() ==> {
                let idx = eligible_indices(children, n)[j];
                0 <= idx < n && idx < children.len() && child_qualifies(children[idx])
            },
    decreases n,
{
    if n > 0 {
        lemma_eligible_indices_sound(children, n - 1);
        let rest = eligible_indices(children, n - 1);
        let cur = eligible_indices(children, n);
        if n - 1 < children.len() && child_qualifies(children[n - 1]) {
            assert(cur == rest.push(n - 1));
            assert(forall|j: int| 0 <= j < rest.len() ==> cur[j] == #[trigger] rest[j]);
            assert(cur[rest.len() as int] == n - 1);
        } else {
            assert(cur == rest);
        }
    }
}

/// Positional injection correctness: when the first `n` children all
/// qualify, position `i` receives exactly the `i`-th reference's
/// material — the pairing is by position, never by name or identity.
pub proof fn lemma_positional_injection(children: Seq<ChildSlot>, n: int)
    requires
        0 <= n <= children.len(),
        forall|i: int| 0 <= i < n ==> child_qualifies(#[trigger] children[i]),
    ensures
        eligible_indices(children, n).len() == n,
        forall|j: int| 0 <= j < n ==> #[trigger] eligible_indices(children, n)[j] == j,
    decreases n,
{
    if n > 0 {
        lemma_positional_injection(children, n - 1);
    }
}

/// Whether `inj` is exactly the injection list for resolution state
/// `slots` over `children`: one injection per eligible position, in
/// position order, pairing each position's child with the material
/// resolved for the reference at that same position.
pub open spec fn injections_match(
    inj: Seq<Injection>,
    slots: Seq<MaterialSlot>,
    children: Seq<ChildSlot>,
) -> bool {
    let el = eligible_indices(children, slots.len() as int);
    &&& inj.len() == el.len()
    &&& forall|j: int|
        #![trigger inj[j]]
        0 <= j < el.len() ==> {
            let idx = el[j];
            inj[j].child_index == idx && inj[j].child == children[idx].id && inj[j].material
                == slot_material(slots[idx])
        }
}

/// The reconcile phase for one entity in processing state.
///
/// Step A polls: each pending reference whose file is available and
/// holds the named material is resolved, and its fully-qualified key
/// cached.  A file without the name leaves its slot pending, silently
/// and indefinitely.  Step B: if any slot is still pending the tick
/// ends, to be retried without bound.  Step C, once all slots are
/// resolved: each position with an existing, qualifying child yields
/// an injection of that position's material.  Step D is the caller's:
/// a `processed` outcome replaces the resolution state by the
/// terminal [`MaterialProcessed`] tag.
///
/// `polled[i]` is what polling the `i`-th reference's file handle
/// returned this tick: the file's contents if available, else none.
pub fn inject_materials(
    cache: &mut MaterialCache,
    infos: &MaterialInfos,
    processing: &mut MaterialProcessing,
    polled: &Vec<Option<GltfDocument>>,
    children: &Vec<ChildSlot>,
) -> (out: InjectOutcome)
    requires
        old(processing).materials.len() == infos.0.len(),
        polled.len() == infos.0.len(),
    ensures
        final(processing).materials@ == advanced_slots(
            old(processing).materials@,
            infos.0@,
            polled@,
        ),
        final(cache)@ == cache_after_advance(
            old(cache)@,
            old(processing).materials@,
            infos.0@,
            polled@,
            infos.0.len() as int,
        ),
        out.processed == all_resolved(final(processing).materials@),
        out.processed ==> injections_match(out.injections@, final(processing).materials@, children@),
        !out.processed ==> out.injections@.len() == 0,
{
    let n: usize = infos.0.len();
    let ghost slots0: Seq<MaterialSlot> = processing.materials@;
    let ghost cache0: Map<Seq<char>, u64> = cache@;
    let mut i: usize = 0;
    while i < n
        invariant
            i <= n,
            n == infos.0.len(),
            polled.len() == n,
            slots0.len() == n,
            processing.materials@.len() == n,
            forall|j: int| 0 <= j < i ==> processing.materials@[j] == advance_slot(
                slots0[j],
                infos.0@[j],
                polled@[j],
            ),
            forall|j: int| i <= j < n ==> processing.materials@[j] == slots0[j],
            cache@ == cache_after_advance(cache0, slots0, infos.0@, polled@, i as int),
        decreases n - i,
    {
        let pending: bool = match processing.materials[i] {
            MaterialSlot::Pending(_) => true,
            MaterialSlot::Resolved(_) => false,
        };
        if pending {
            match &polled[i] {
                Option::Some(doc) => {
                    let info = &infos.0[i];
                    if doc.named_materials.contains(&info.name) {
                        let material: u64 = doc.named_materials.get(&info.name);
                        let key = material_full_key(info);
                        cache.insert(key, material);
                        processing.materials[i] = MaterialSlot::Resolved(material);
                    }
                }
                Option::None => {}
            }
        }
        i = i + 1;
    }
    proof {
        assert(processing.materials@ =~= advanced_slots(slots0, infos.0@, polled@));
    }
    if !processing.loaded() {
        return InjectOutcome { processed: false, injections: Vec::new() };
    }
    let mut injections: Vec<Injection> = Vec::new();
    let ghost slots1: Seq<MaterialSlot> = processing.materials@;
    let mut i: usize = 0;
    while i < n
        invariant
            i <= n,
            n == infos.0.len(),
            processing.materials@ == slots1,
            slots1.len() == n,
            all_resolved(slots1),
            injections@.len() == eligible_indices(children@, i as int).len(),
            forall|j: int|
                #![trigger injections@[j]]
                0 <= j < injections@.len() ==> {
                    let idx = eligible_indices(children@, i as int)[j];
                    injections@[j].child_index == idx && injections@[j].child == children@[idx].id
                        && injections@[j].material == slot_material(slots1[idx])
                },
        decreases n - i,
    {
        proof {
            lemma_eligible_indices_sound(children@, i + 1);
        }
        if i < children.len() {
            let c: ChildSlot = children[i];
            if c.has_mesh && c.has_material_slot {
                let material: u64 = match processing.materials[i] {
                    MaterialSlot::Resolved(material) => material,
                    MaterialSlot::Pending(_) => {
                        proof {
                            assert(slots1[i as int] is Resolved);
                        }
                        unreached()
                    }
                };
                injections.push(Injection { child_index: i, child: c.id, material });
            }
        }
        i = i + 1;
    }
    InjectOutcome { processed: true, injections }
}

/// The three-state lifecycle of an entity bearing a reference set:
/// untouched, carrying transient resolution state, or terminally
/// processed.  An entity is in exactly one of the three at any time.
#[derive(Debug)]
pub enum ResolutionPhase {
    Untouched,
    Processing(MaterialProcessing),
    Processed,
}

/// The transitions the driver may take in one tick: an untouched
/// entity may be dispatched, a processing entity may finish, and a
/// processed entity never changes again.
pub open spec fn phase_step(pre: ResolutionPhase, post: ResolutionPhase) -> bool {
    match pre {
        ResolutionPhase::Untouched => !(post is Processed),
        ResolutionPhase::Processing(_) => !(post is Untouched),
        ResolutionPhase::Processed => post is Processed,
    }
}

/// Once an entity is processed it stays processed: along any trace
/// of driver steps, every state from the first processed one on is
/// processed — so resolution state never reappears.
pub proof fn lemma_processed_is_terminal(trace: Seq<ResolutionPhase>, i: int, j: int)
    requires
        forall|t: int| 0 <= t < trace.len() - 1 ==> phase_step(#[trigger] trace[t], trace[t + 1]),
        0 <= i <= j < trace.len(),
        trace[i] is Processed,
    ensures
        trace[j] is Processed,
    decreases j - i,
{
    if i < j {
        assert(phase_step(trace[i], trace[i + 1]));
        lemma_processed_is_terminal(trace, i + 1, j);
    }
}

/// The processed tag is attached at most once: along any trace of
/// driver steps, there is at most one step that enters the processed
/// state.
pub proof fn lemma_processed_attached_at_most_once(trace: Seq<ResolutionPhase>, t1: int, t2: int)
    requires
        forall|t: int| 0 <= t < trace.len() - 1 ==> phase_step(#[trigger] trace[t], trace[t + 1]),
        0 <= t1 < t2,
        t2 + 1 < trace.len(),
        !(trace[t1] is Processed),
        trace[t1 + 1] is Processed,
    ensures
        !(!(trace[t2] is Processed) && trace[t2 + 1] is Processed),
{
    lemma_processed_is_terminal(trace, t1 + 1, t2);
}

/// What one driver tick produced for an entity: the asset loads the
/// dispatch phase requested, and the injections the reconcile phase
/// performed.
#[derive(Debug)]
pub struct TickOutcome {
    pub loads: Vec<LoadRequest>,
    pub injections: Vec<Injection>,
}

/// One scheduling tick of the resolution driver for one entity.
///
/// An untouched entity is dispatched: its resolution state is built
/// from the cache and the misses are requested as loads, using the
/// caller-supplied fresh handles.  A processing entity is reconciled:
/// polled files advance its slots, and on completion the materials
/// are injected and the entity becomes processed.  A processed
/// entity is left alone.  The tick never blocks; an entity whose
/// references never all resolve simply stays in processing forever,
/// without affecting any other entity.
pub fn tick_entity(
    phase: ResolutionPhase,
    cache: &mut MaterialCache,
    infos: &MaterialInfos,
    handles: &Vec<u64>,
    polled: &Vec<Option<GltfDocument>>,
    children: &Vec<ChildSlot>,
) -> (res: (ResolutionPhase, TickOutcome))
    requires
        phase is Untouched ==> handles.len() == infos.0.len(),
        (phase matches ResolutionPhase::Processing(p) ==> p.materials.len() == infos.0.len()
            && polled.len() == infos.0.len()),
    ensures
        phase_step(phase, res.0),
        phase is Untouched ==> {
            &&& res.0 matches ResolutionPhase::Processing(p) && p.materials@ == phase1_slots(
                old(cache)@,
                infos.0@,
                handles@,
            )
            &&& final(cache)@ == old(cache)@
            &&& res.1.injections@.len() == 0
            &&& res.1.loads@.len() == uncached_indices(
                old(cache)@,
                infos.0@,
                infos.0.len() as int,
            ).len()
            &&& forall|j: int|
                #![trigger res.1.loads@[j]]
                0 <= j < res.1.loads@.len() ==> {
                    let idx = uncached_indices(old(cache)@, infos.0@, infos.0.len() as int)[j];
                    res.1.loads@[j].index == idx && res.1.loads@[j].handle == handles@[idx]
                        && res.1.loads@[j].path@ == infos.0@[idx].path@
                }
        },
        (phase matches ResolutionPhase::Processing(p) ==> {
            let adv = advanced_slots(p.materials@, infos.0@, polled@);
            &&& final(cache)@ == cache_after_advance(
                old(cache)@,
                p.materials@,
                infos.0@,
                polled@,
                infos.0.len() as int,
            )
            &&& res.1.loads@.len() == 0
            &&& (all_resolved(adv) ==> res.0 is Processed && injections_match(
                res.1.injections@,
                adv,
                children@,
            ))
            &&& (!all_resolved(adv) ==> (res.0 matches ResolutionPhase::Processing(q)
                && q.materials@ == adv) && res.1.injections@.len() == 0)
        }),
        phase is Processed ==> res.0 is Processed && final(cache)@ == old(cache)@
            && res.1.loads@.len() == 0 && res.1.injections@.len() == 0,
{
    match phase {
        ResolutionPhase::Untouched => {
            let (processing, loads) = load_material_gltfs(cache, infos, handles);
            (
                ResolutionPhase::Processing(processing),
                TickOutcome { loads, injections: Vec::new() },
            )
        }
        ResolutionPhase::Processing(mut processing) => {
            let out = inject_materials(cache, infos, &mut processing, polled, children);
            if out.processed {
                (
                    ResolutionPhase::Processed,
                    TickOutcome { loads: Vec::new(), injections: out.injections },
                )
            } else {
                (
                    ResolutionPhase::Processing(processing),
                    TickOutcome { loads: Vec::new(), injections: out.injections },
                )
            }
        }
        ResolutionPhase::Processed => {
            (ResolutionPhase::Processed, TickOutcome { loads: Vec::new(), injections: Vec::new() })
        }
    }
}

} // verus!
