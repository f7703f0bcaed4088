use blenvy::keystore::KeyStore;
use blenvy::materials::{
    inject_materials, load_material_gltfs, material_full_key, tick_entity, ChildSlot, GltfDocument,
    Injection, MaterialCache, MaterialInfo, MaterialInfos, MaterialSlot, ResolutionPhase,
};

fn info(name: &str, path: &str) -> MaterialInfo {
    MaterialInfo { name: String::from(name), path: String::from(path) }
}

fn doc(pairs: &[(&str, u64)]) -> GltfDocument {
    let mut named_materials = KeyStore::new();
    for (name, material) in pairs {
        named_materials.insert(String::from(*name), *material);
    }
    GltfDocument { named_materials }
}

fn child(id: u64) -> ChildSlot {
    ChildSlot { id, has_mesh: true, has_material_slot: true }
}

fn resolved_count(slots: &[MaterialSlot]) -> usize {
    slots.iter().filter(|s| matches!(s, MaterialSlot::Resolved(_))).count()
}

#[test]
fn full_key_concatenates_path_hash_name() {
    let k = material_full_key(&info("MatRed", "scene.glb"));
    assert_eq!(k, String::from("scene.glb#MatRed"));
}

#[test]
fn cache_lookup_is_idempotent() {
    let mut cache = MaterialCache::new();
    let key = String::from("scene.glb#MatRed");
    assert!(!cache.contains(&key));
    cache.insert(key.clone(), 11);
    assert!(cache.contains(&key));
    assert_eq!(cache.get(&key), 11);
    assert_eq!(cache.get(&key), 11);
    cache.insert(String::from("other.glb#MatBlue"), 22);
    assert_eq!(cache.get(&key), 11);
    // Re-inserting the same key is a harmless overwrite.
    cache.insert(key.clone(), 11);
    assert_eq!(cache.get(&key), 11);
}

#[test]
fn dispatch_issues_load_for_uncached_reference() {
    // Scenario: (MatRed, "scene.glb") not yet in cache.
    let cache = MaterialCache::new();
    let infos = MaterialInfos(vec![info("MatRed", "scene.glb")]);
    let handles = vec![7];
    let (processing, loads) = load_material_gltfs(&cache, &infos, &handles);
    assert_eq!(processing.materials, vec![MaterialSlot::Pending(7)]);
    assert!(!processing.loaded());
    assert_eq!(loads.len(), 1);
    assert_eq!(loads[0].index, 0);
    assert_eq!(loads[0].handle, 7);
    assert_eq!(loads[0].path, String::from("scene.glb"));
}

#[test]
fn cache_hit_skips_reload() {
    let mut cache = MaterialCache::new();
    cache.insert(String::from("scene.glb#MatRed"), 11);
    let infos = MaterialInfos(vec![info("MatRed", "scene.glb"), info("MatBlue", "scene.glb")]);
    let handles = vec![7, 8];
    let (processing, loads) = load_material_gltfs(&cache, &infos, &handles);
    // The cached reference is resolved at once; only the miss is loaded.
    assert_eq!(
        processing.materials,
        vec![MaterialSlot::Resolved(11), MaterialSlot::Pending(8)]
    );
    assert_eq!(loads.len(), 1);
    assert_eq!(loads[0].index, 1);
    assert_eq!(loads[0].handle, 8);
}

#[test]
fn reconcile_resolves_caches_and_injects() {
    // Scenario: the file becomes available next tick containing MatRed.
    let mut cache = MaterialCache::new();
    let infos = MaterialInfos(vec![info("MatRed", "scene.glb")]);
    let (mut processing, _loads) = load_material_gltfs(&cache, &infos, &vec![7]);

    // First tick: the file is not available yet; nothing changes.
    let out = inject_materials(
        &mut cache,
        &infos,
        &mut processing,
        &vec![None],
        &vec![child(100)],
    );
    assert!(!out.processed);
    assert!(out.injections.is_empty());
    assert_eq!(processing.materials, vec![MaterialSlot::Pending(7)]);
    assert!(!cache.contains(&String::from("scene.glb#MatRed")));

    // Next tick: the file is available and holds MatRed.
    let polled = vec![Some(doc(&[("MatRed", 42)]))];
    let out = inject_materials(&mut cache, &infos, &mut processing, &polled, &vec![child(100)]);
    assert!(out.processed);
    assert_eq!(processing.materials, vec![MaterialSlot::Resolved(42)]);
    assert!(cache.contains(&String::from("scene.glb#MatRed")));
    assert_eq!(cache.get(&String::from("scene.glb#MatRed")), 42);
    assert_eq!(
        out.injections,
        vec![Injection { child_index: 0, child: 100, material: 42 }]
    );
}

#[test]
fn second_entity_resolves_from_cache_without_load() {
    // Scenario: the same reference requested again after the first
    // entity completed and cached it.
    let mut cache = MaterialCache::new();
    let infos = MaterialInfos(vec![info("MatRed", "scene.glb")]);
    let (mut processing, _) = load_material_gltfs(&cache, &infos, &vec![7]);
    let polled = vec![Some(doc(&[("MatRed", 42)]))];
    let out = inject_materials(&mut cache, &infos, &mut processing, &polled, &vec![child(100)]);
    assert!(out.processed);

    // Second entity with the same reference: no load is issued, the
    // slot is resolved immediately from the cache.
    let (processing2, loads2) = load_material_gltfs(&cache, &infos, &vec![9]);
    assert!(loads2.is_empty());
    assert_eq!(processing2.materials, vec![MaterialSlot::Resolved(42)]);
    assert!(processing2.loaded());
}

#[test]
fn absent_name_stalls_silently_and_independently() {
    // Scenario: the loaded file does not hold the referenced name.
    let mut cache = MaterialCache::new();
    let infos = MaterialInfos(vec![info("MatMissing", "scene.glb")]);
    let (mut processing, _) = load_material_gltfs(&cache, &infos, &vec![7]);
    let polled = vec![Some(doc(&[("MatRed", 42)]))];
    for _ in 0..3 {
        let out =
            inject_materials(&mut cache, &infos, &mut processing, &polled, &vec![child(100)]);
        assert!(!out.processed);
        assert!(out.injections.is_empty());
        assert_eq!(processing.materials, vec![MaterialSlot::Pending(7)]);
    }
    // No entry was cached for the stalled reference.
    assert!(!cache.contains(&String::from("scene.glb#MatMissing")));

    // Another entity is not affected by the stuck one.
    let infos2 = MaterialInfos(vec![info("MatRed", "scene.glb")]);
    let (mut processing2, _) = load_material_gltfs(&cache, &infos2, &vec![8]);
    let out = inject_materials(&mut cache, &infos2, &mut processing2, &polled, &vec![child(200)]);
    assert!(out.processed);
}

#[test]
fn positional_injection_pairs_children_by_index() {
    // Two references, two qualifying children: position 0 receives
    // the material named by the first reference, position 1 the second.
    let mut cache = MaterialCache::new();
    let infos = MaterialInfos(vec![info("MatA", "a.glb"), info("MatB", "b.glb")]);
    let (mut processing, _) = load_material_gltfs(&cache, &infos, &vec![1, 2]);
    let polled = vec![Some(doc(&[("MatA", 10)])), Some(doc(&[("MatB", 20)]))];
    let children = vec![child(500), child(501)];
    let out = inject_materials(&mut cache, &infos, &mut processing, &polled, &children);
    assert!(out.processed);
    assert_eq!(
        out.injections,
        vec![
            Injection { child_index: 0, child: 500, material: 10 },
            Injection { child_index: 1, child: 501, material: 20 },
        ]
    );
}

#[test]
fn unqualified_or_missing_children_are_left_untouched() {
    let mut cache = MaterialCache::new();
    let infos = MaterialInfos(vec![
        info("MatA", "a.glb"),
        info("MatB", "b.glb"),
        info("MatC", "c.glb"),
    ]);
    let (mut processing, _) = load_material_gltfs(&cache, &infos, &vec![1, 2, 3]);
    let polled = vec![
        Some(doc(&[("MatA", 10)])),
        Some(doc(&[("MatB", 20)])),
        Some(doc(&[("MatC", 30)])),
    ];
    // The child at position 1 has no mesh; there is no child at position 2.
    let children = vec![
        child(500),
        ChildSlot { id: 501, has_mesh: false, has_material_slot: true },
    ];
    let out = inject_materials(&mut cache, &infos, &mut processing, &polled, &children);
    assert!(out.processed);
    assert_eq!(
        out.injections,
        vec![Injection { child_index: 0, child: 500, material: 10 }]
    );
}

#[test]
fn resolved_count_is_monotone_tick_over_tick() {
    let mut cache = MaterialCache::new();
    let infos = MaterialInfos(vec![info("MatA", "a.glb"), info("MatB", "b.glb")]);
    let (mut processing, _) = load_material_gltfs(&cache, &infos, &vec![1, 2]);
    let children = vec![child(500), child(501)];
    let mut last: usize = resolved_count(&processing.materials);
    // One file arrives, then none, then the other.
    let ticks = vec![
        vec![Some(doc(&[("MatA", 10)])), None],
        vec![None, None],
        vec![None, Some(doc(&[("MatB", 20)]))],
    ];
    for polled in &ticks {
        let _ = inject_materials(&mut cache, &infos, &mut processing, polled, &children);
        let now = resolved_count(&processing.materials);
        assert!(now >= last);
        last = now;
    }
    assert_eq!(last, 2);
}

#[test]
fn empty_reference_set_completes_immediately() {
    let mut cache = MaterialCache::new();
    let infos = MaterialInfos(vec![]);
    let (mut processing, loads) = load_material_gltfs(&cache, &infos, &vec![]);
    assert!(loads.is_empty());
    assert!(processing.loaded());
    let out = inject_materials(&mut cache, &infos, &mut processing, &vec![], &vec![child(1)]);
    assert!(out.processed);
    assert!(out.injections.is_empty());
}

#[test]
fn driver_walks_untouched_processing_processed() {
    let mut cache = MaterialCache::new();
    let infos = MaterialInfos(vec![info("MatRed", "scene.glb")]);
    let handles = vec![7];
    let children = vec![child(100)];

    let (phase, out) = tick_entity(
        ResolutionPhase::Untouched,
        &mut cache,
        &infos,
        &handles,
        &vec![None],
        &children,
    );
    assert!(matches!(phase, ResolutionPhase::Processing(_)));
    assert_eq!(out.loads.len(), 1);
    assert!(out.injections.is_empty());

    let polled = vec![Some(doc(&[("MatRed", 42)]))];
    let (phase, out) = tick_entity(phase, &mut cache, &infos, &handles, &polled, &children);
    assert!(matches!(phase, ResolutionPhase::Processed));
    assert!(out.loads.is_empty());
    assert_eq!(out.injections.len(), 1);

    // Once processed, further ticks change nothing.
    let (phase, out) = tick_entity(phase, &mut cache, &infos, &handles, &polled, &children);
    assert!(matches!(phase, ResolutionPhase::Processed));
    assert!(out.loads.is_empty());
    assert!(out.injections.is_empty());
}
