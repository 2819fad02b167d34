//! Accounting of the catalog.

use kronika_incident::active::active_catalog_ids;
use kronika_incident::catalog::{catalog_counts, inactive_catalog, registered_lens_ids};
use kronika_incident::events::{event_catalog_ids, event_catalog_metadata};
use kronika_incident::lenses::{catalog_is_valid, core_catalog, dormant_catalog};

#[test]
fn event_metadata_and_evaluator_catalog_stay_aligned() {
    assert_eq!(
        event_catalog_metadata()
            .iter()
            .map(|entry| entry.lens_id)
            .collect::<Vec<_>>(),
        event_catalog_ids()
    );
}

#[test]
fn counts_follow_the_catalogs() {
    let counts = catalog_counts();
    assert_eq!(counts.core_lenses, 28);
    assert_eq!(counts.event_branches, 8);
    assert_eq!(counts.evaluator_branches, 36);
    assert_eq!(counts.unique_lens_ids, 34);
    assert_eq!(counts.active_lens_ids, 34);
    assert_eq!(counts.inactive_lens_ids, 0);
    assert_eq!(counts.entity_join_requirements, 24);
}

#[test]
fn registered_ids_are_sorted_and_unique() {
    let ids = registered_lens_ids();
    assert_eq!(ids.len(), 34);
    assert!(ids.windows(2).all(|pair| pair[0] < pair[1]));
    for id in active_catalog_ids().iter().chain(event_catalog_ids().iter()) {
        assert!(ids.contains(id), "{id}");
    }
}

#[test]
fn every_entry_of_the_design_is_evaluated() {
    assert!(inactive_catalog().is_empty());
    let active = active_catalog_ids();
    for entry in core_catalog() {
        assert!(active.contains(&entry.lens_id()), "{}", entry.lens_id());
    }
    for (at, id) in active.iter().enumerate() {
        assert!(!active[..at].contains(id), "{id}");
    }
}

#[test]
fn the_design_is_a_valid_catalog() {
    assert!(catalog_is_valid(dormant_catalog()));
    assert!(catalog_is_valid(&dormant_catalog()[..1]));
    assert!(!catalog_is_valid(&[]));
}
