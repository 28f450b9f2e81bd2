use lumen::fixture_set::FixtureSet;
use lumen::query::{QueryBuilder, QueryResult};

const EXAMPLE_SIZE: usize = 10;

fn build_example_fixture_set(amount: usize) -> FixtureSet {
    let mut f = FixtureSet::new();
    for n in 1..=amount {
        f.create_with_id(n);
    }
    f
}

fn assert_query_has_ids(result: &QueryResult, ids: &[usize]) {
    for id in ids {
        assert!(result.contains(id));
    }
}

fn assert_exactly(result: &QueryResult, ids: &[usize]) {
    for id in 0..=20 {
        assert_eq!(result.contains(&id), ids.contains(&id), "id {}", id);
    }
}

#[test]
fn all() {
    let fixture_set = build_example_fixture_set(EXAMPLE_SIZE);
    let query = QueryBuilder::new().all().build();
    let result = query.evaluate(&fixture_set.ids());

    assert_query_has_ids(&result, &[1, 2, 3, 4, 5, 6, 7, 9, 10]);
}

#[test]
fn even() {
    let fixture_set = build_example_fixture_set(EXAMPLE_SIZE);
    let query = QueryBuilder::new().even().build();
    let result = query.evaluate(&fixture_set.ids());

    assert_query_has_ids(&result, &[2, 4, 6, 8, 10]);
}

#[test]
fn id() {
    let fixture_set = build_example_fixture_set(EXAMPLE_SIZE);
    let query = QueryBuilder::new().id(1).id(2).id(5).build();
    let result = query.evaluate(&fixture_set.ids());

    assert_query_has_ids(&result, &[1, 2, 5]);
}

#[test]
fn all_then_even_selects_exactly_the_even_ids() {
    let fixture_set = build_example_fixture_set(EXAMPLE_SIZE);
    let result = QueryBuilder::new().all().even().build().evaluate(&fixture_set.ids());

    assert_exactly(&result, &[2, 4, 6, 8, 10]);
}

#[test]
fn id_selects_only_present_ids() {
    let fixture_set = build_example_fixture_set(EXAMPLE_SIZE);
    let present = QueryBuilder::new().id(7).build().evaluate(&fixture_set.ids());
    let absent = QueryBuilder::new().id(11).build().evaluate(&fixture_set.ids());

    assert_exactly(&present, &[7]);
    assert_exactly(&absent, &[]);
}

#[test]
fn range_and_odd() {
    let fixture_set = build_example_fixture_set(EXAMPLE_SIZE);
    let range = QueryBuilder::new().range(3, 6).build().evaluate(&fixture_set.ids());
    let odd = QueryBuilder::new().range(3, 6).odd().build().evaluate(&fixture_set.ids());

    assert_exactly(&range, &[3, 4, 5, 6]);
    assert_exactly(&odd, &[3, 5]);
}

#[test]
fn sub_query_narrows_the_candidates() {
    let fixture_set = build_example_fixture_set(EXAMPLE_SIZE);
    let parent = QueryBuilder::new().range(1, 4).build();
    let result = QueryBuilder::new().sub_query(parent).all().build().evaluate(&fixture_set.ids());
    let evens = QueryBuilder::new()
        .sub_query(QueryBuilder::new().range(1, 4).build())
        .all()
        .even()
        .build()
        .evaluate(&fixture_set.ids());

    assert_exactly(&result, &[1, 2, 3, 4]);
    assert_exactly(&evens, &[2, 4]);
}

#[test]
fn empty_query_selects_nothing() {
    let fixture_set = build_example_fixture_set(EXAMPLE_SIZE);
    let result = QueryBuilder::new().build().evaluate(&fixture_set.ids());

    assert_exactly(&result, &[]);
}

#[test]
fn fixture_set_query_selects_ids() {
    let fixture_set = build_example_fixture_set(EXAMPLE_SIZE);
    let result = fixture_set.query(&QueryBuilder::new().range(2, 4).build());
    assert_exactly(&result, &[2, 3, 4]);
    assert!(fixture_set.fixture_exists(&10));
    assert!(!fixture_set.fixture_exists(&11));
}
