use phonehash::phonemes::{CanPhonehash, Phonehash};
use phonehash::search::{SearchableItem, SearchableList};

#[derive(Debug, Clone, PartialEq, Eq)]
struct TestObject {
    str: &'static str,
    phoneme: Phonehash<u64>,
}
impl TestObject {
    pub fn new(str: &'static str) -> Self {
        Self {
            str,
            phoneme: str.phonehash(),
        }
    }
}
impl SearchableItem for TestObject {
    type Repr = u64;
    fn as_phoneme(&self) -> Phonehash<Self::Repr> {
        self.phoneme
    }
    fn as_str(&self) -> &str {
        self.str
    }
}

#[test]
fn search_it_werks() {
    let mut stuff = vec![
        TestObject::new("aaaa"),
        TestObject::new("knight rider"),
        TestObject::new("nite writer"),
        TestObject::new("neight rheyeder"),
        TestObject::new("the amazing digital circus"),
    ];
    stuff.sort_by_key(|v| v.phoneme);

    // Only matching phonemes are returned, even if more are requested.
    // They should also be sorted by distance
    assert_eq!(
        stuff.phonehash_search(&TestObject::new("knight"), 5),
        vec![
            &TestObject::new("knight rider"),
            &TestObject::new("nite writer"),
            &TestObject::new("neight rheyeder"),
        ]
    );
    assert_eq!(
        stuff.phonehash_search(&TestObject::new("knight writer"), 5),
        vec![
            &TestObject::new("knight rider"),
            &TestObject::new("nite writer"),
            &TestObject::new("neight rheyeder"),
        ]
    );

    // If less than the ones available are requested, all matching phonemes are used but the result is still capped
    assert_eq!(
        stuff.phonehash_search(&TestObject::new("knight rider"), 2),
        vec![
            &TestObject::new("knight rider"),
            &TestObject::new("nite writer"),
        ]
    );
    assert_eq!(
        stuff.phonehash_search(&TestObject::new("nite writer"), 2),
        vec![
            &TestObject::new("nite writer"),
            &TestObject::new("knight rider"),
        ]
    );
    assert_eq!(
        stuff.phonehash_search(&TestObject::new("neight rheyeder"), 2),
        vec![
            &TestObject::new("neight rheyeder"),
            &TestObject::new("knight rider"),
        ]
    );

    // but partial matches are a different story
    assert_eq!(
        stuff.phonehash_search(&TestObject::new("knight"), 2),
        vec![
            &TestObject::new("knight rider"),
            &TestObject::new("nite writer"),
        ]
    );
    assert_eq!(
        stuff.phonehash_search(&TestObject::new("nite"), 2),
        vec![
            &TestObject::new("nite writer"),
            &TestObject::new("knight rider"),
        ]
    );
    assert_eq!(
        stuff.phonehash_search(&TestObject::new("neight"), 2),
        vec![
            &TestObject::new("knight rider"),
            &TestObject::new("nite writer"),
        ]
    );
}

fn sorted_stuff() -> Vec<TestObject> {
    let mut stuff = vec![
        TestObject::new("aaaa"),
        TestObject::new("knight rider"),
        TestObject::new("nite writer"),
        TestObject::new("neight rheyeder"),
        TestObject::new("the amazing digital circus"),
    ];
    stuff.sort_by_key(|v| v.phoneme);
    stuff
}

#[test]
fn search_on_empty_list_or_zero_items_is_empty() {
    let empty: Vec<TestObject> = Vec::new();
    assert!(empty.phonehash_search(&TestObject::new("knight"), 5).is_empty());
    assert!(empty.phonehash_search(&TestObject::new(""), 0).is_empty());
    let stuff = sorted_stuff();
    for q in ["knight", "aaaa", "", "the amazing digital circus"] {
        assert!(stuff.phonehash_search(&TestObject::new(q), 0).is_empty());
    }
}

#[test]
fn search_finds_sounds_alike_ranked_by_distance() {
    let stuff = sorted_stuff();
    let found: Vec<&str> = stuff
        .phonehash_search(&TestObject::new("knight"), 5)
        .into_iter()
        .map(|t| t.str)
        .collect();
    assert_eq!(found, vec!["knight rider", "nite writer", "neight rheyeder"]);
}

#[test]
fn search_blank_query_is_a_prefix_of_everything() {
    let stuff = sorted_stuff();
    let found = stuff.phonehash_search(&TestObject::new("eee"), 5);
    assert_eq!(found.len(), 5);
    assert_eq!(found[0], &TestObject::new("aaaa"));
    let found = stuff.phonehash_search(&TestObject::new("eee"), 1);
    assert_eq!(found, vec![&TestObject::new("aaaa")]);
}

#[test]
fn search_on_slice_gives_indices_in_rank_order() {
    let stuff = sorted_stuff();
    let slice: &[TestObject] = &stuff;
    let idx = slice.phonehash_search_indices(&TestObject::new("nite"), 2);
    assert_eq!(idx.len(), 2);
    assert_eq!(stuff[idx[0]].str, "nite writer");
    assert_eq!(stuff[idx[1]].str, "knight rider");
}

#[test]
fn search_fuzzy_run_stops_at_max_items_past_the_start() {
    let stuff = sorted_stuff();
    // only the first item past the lower bound is a candidate
    let found = stuff.phonehash_search(&TestObject::new("nite"), 1);
    assert_eq!(found, vec![&TestObject::new("knight rider")]);
}
