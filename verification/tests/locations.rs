use qlang::bridge::{Position, Range};
use qlang::locations::{
    implementation_response_from_locations, location_count_title, locations_from_goto_response,
    merge_unique_reference_locations, normalize_locations_in_source_order,
    normalize_reference_locations_with_definition, same_location_anchor, ImplementationResponse,
    Location, LocationLink,
};

fn loc(uri: &str, l1: u32, c1: u32, l2: u32, c2: u32) -> Location {
    Location::new(
        uri.to_string(),
        Range::new(Position::new(l1, c1), Position::new(l2, c2)),
    )
}

#[test]
fn source_order_location_normalization_sorts_and_deduplicates_overlaps() {
    let uri = String::from("file:///test.ql");
    let first = Location::new(
        uri.clone(),
        Range::new(Position::new(1, 10), Position::new(1, 15)),
    );
    let overlapping = Location::new(
        uri.clone(),
        Range::new(Position::new(1, 12), Position::new(1, 20)),
    );
    let later = Location::new(uri, Range::new(Position::new(2, 0), Position::new(2, 5)));
    let mut locations = vec![later.duplicate(), overlapping, first.duplicate()];

    normalize_locations_in_source_order(&mut locations);

    assert_eq!(locations, vec![first, later]);
}

#[test]
fn implementation_response_normalizes_locations_before_returning_array() {
    let first_uri = String::from("file:///a.ql");
    let second_uri = String::from("file:///b.ql");
    let first = Location::new(
        first_uri.clone(),
        Range::new(Position::new(4, 0), Position::new(4, 5)),
    );
    let overlapping_first = Location::new(
        first_uri,
        Range::new(Position::new(4, 2), Position::new(4, 6)),
    );
    let second = Location::new(
        second_uri,
        Range::new(Position::new(1, 0), Position::new(1, 5)),
    );

    let response = implementation_response_from_locations(vec![
        second.duplicate(),
        overlapping_first,
        first.duplicate(),
    ])
    .expect("implementation response should exist");
    let ImplementationResponse::Array(locations) = response else {
        panic!("deduplicated multi-location implementation should stay an array")
    };

    assert_eq!(locations, vec![first, second]);
}

#[test]
fn implementation_response_is_none_without_locations() {
    assert!(implementation_response_from_locations(Vec::new()).is_none());
}

#[test]
fn implementation_response_collapses_overlaps_to_a_scalar() {
    let response = implementation_response_from_locations(vec![
        loc("file:///a.ql", 3, 4, 3, 9),
        loc("file:///a.ql", 3, 1, 3, 5),
    ])
    .expect("implementation response should exist");
    assert_eq!(
        response,
        ImplementationResponse::Scalar(loc("file:///a.ql", 3, 1, 3, 5))
    );
}

#[test]
fn normalization_orders_by_uri_then_range() {
    let mut locations = vec![
        loc("file:///b.ql", 0, 0, 0, 1),
        loc("file:///a.ql", 5, 0, 5, 1),
        loc("file:///a.ql", 1, 0, 1, 1),
    ];
    normalize_locations_in_source_order(&mut locations);
    assert_eq!(
        locations,
        vec![
            loc("file:///a.ql", 1, 0, 1, 1),
            loc("file:///a.ql", 5, 0, 5, 1),
            loc("file:///b.ql", 0, 0, 0, 1),
        ]
    );
}

#[test]
fn normalization_is_idempotent_on_an_example() {
    let mut once = vec![
        loc("file:///a.ql", 2, 0, 2, 3),
        loc("file:///a.ql", 2, 1, 2, 2),
        loc("file:///a.ql", 0, 0, 0, 3),
    ];
    normalize_locations_in_source_order(&mut once);
    let mut twice: Vec<Location> = once.iter().map(|l| l.duplicate()).collect();
    normalize_locations_in_source_order(&mut twice);
    assert_eq!(once, twice);
}

#[test]
fn same_anchor_needs_same_uri_and_overlap() {
    let a = loc("file:///a.ql", 1, 0, 1, 4);
    assert!(same_location_anchor(&a, &loc("file:///a.ql", 1, 4, 1, 8)));
    assert!(!same_location_anchor(&a, &loc("file:///a.ql", 1, 5, 1, 8)));
    assert!(!same_location_anchor(&a, &loc("file:///b.ql", 1, 0, 1, 4)));
}

#[test]
fn merge_unique_skips_locations_sharing_an_anchor() {
    let mut locations = vec![loc("file:///a.ql", 1, 0, 1, 4)];
    merge_unique_reference_locations(
        &mut locations,
        vec![
            loc("file:///a.ql", 1, 2, 1, 3),
            loc("file:///a.ql", 2, 0, 2, 4),
            loc("file:///a.ql", 2, 1, 2, 2),
        ],
    );
    assert_eq!(
        locations,
        vec![loc("file:///a.ql", 1, 0, 1, 4), loc("file:///a.ql", 2, 0, 2, 4)]
    );
}

#[test]
fn reference_locations_without_the_definition_get_it_in_front() {
    let mut locations = vec![loc("file:///a.ql", 0, 0, 0, 1)];
    normalize_reference_locations_with_definition(&mut locations, &loc("file:///b.ql", 3, 0, 3, 2));
    assert_eq!(
        locations,
        vec![loc("file:///b.ql", 3, 0, 3, 2), loc("file:///a.ql", 0, 0, 0, 1)]
    );
    let mut empty: Vec<Location> = Vec::new();
    normalize_reference_locations_with_definition(&mut empty, &loc("file:///b.ql", 3, 0, 3, 2));
    assert_eq!(empty, vec![loc("file:///b.ql", 3, 0, 3, 2)]);
}

#[test]
fn reference_locations_keep_the_definition_first() {
    let mut locations = vec![
        loc("file:///a.ql", 0, 0, 0, 1),
        loc("file:///a.ql", 9, 0, 9, 1),
    ];
    let definition = loc("file:///a.ql", 9, 0, 9, 1);
    normalize_reference_locations_with_definition(&mut locations, &definition);
    assert_eq!(
        locations,
        vec![loc("file:///a.ql", 9, 0, 9, 1), loc("file:///a.ql", 0, 0, 0, 1)]
    );
}

#[test]
fn goto_response_locations_follow_links_to_their_targets() {
    let link = LocationLink {
        origin_selection_range: None,
        target_uri: "file:///t.ql".to_string(),
        target_range: Range::new(Position::new(7, 0), Position::new(8, 1)),
        target_selection_range: Range::new(Position::new(7, 4), Position::new(7, 8)),
    };
    assert_eq!(
        locations_from_goto_response(ImplementationResponse::Link(vec![link])),
        vec![loc("file:///t.ql", 7, 0, 8, 1)]
    );
    assert_eq!(
        locations_from_goto_response(ImplementationResponse::Scalar(loc("file:///s.ql", 1, 1, 1, 2))),
        vec![loc("file:///s.ql", 1, 1, 1, 2)]
    );
    assert_eq!(
        locations_from_goto_response(ImplementationResponse::Array(vec![
            loc("file:///s.ql", 2, 0, 2, 1),
            loc("file:///r.ql", 0, 0, 0, 1),
        ])),
        vec![loc("file:///s.ql", 2, 0, 2, 1), loc("file:///r.ql", 0, 0, 0, 1)]
    );
}

#[test]
fn location_count_titles_use_singular_only_for_one() {
    assert_eq!(location_count_title(1, "reference", "references"), "1 reference");
    assert_eq!(location_count_title(0, "reference", "references"), "0 references");
    assert_eq!(location_count_title(12, "implementation", "implementations"), "12 implementations");
}
