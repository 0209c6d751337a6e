use am4::aircraft::index::KeyIndex;
use am4::aircraft::search::SearchKey;
use am4::aircraft::{EnginePriority, Id, Name, ShortName};

fn code(s: &str) -> SearchKey {
    SearchKey::from_shortname(ShortName(s.to_string()))
}

fn name(s: &str) -> SearchKey {
    SearchKey::from_name(Name(s.to_string()))
}

#[test]
fn an_index_starts_without_keys() {
    let index = KeyIndex::new();
    assert_eq!(index.len(), 0);
    assert_eq!(index.find(&code("b744")), None);
    assert!(index.get(&SearchKey::Id(Id(1))).is_none());
}

#[test]
fn keys_stand_in_the_order_in_which_they_first_came() {
    let mut index = KeyIndex::new();
    index.insert(SearchKey::Id(Id(9)), 0, 0);
    index.insert(code("b744"), 0, 0);
    index.insert(name("Boeing"), 0, 0);
    index.insert(code("b744"), 1, 1);
    index.insert(SearchKey::Id(Id(3)), 0, 2);
    assert_eq!(index.len(), 4);
    assert_eq!(index.find(&SearchKey::Id(Id(9))), Some(0));
    assert_eq!(index.find(&code("B744")), Some(1));
    assert_eq!(index.find(&name("BOEING")), Some(2));
    assert_eq!(index.find(&SearchKey::Id(Id(3))), Some(3));
    assert!(index.entry(1).0.same(&code("b744")));
}

#[test]
fn variants_hold_a_position_for_each_engine() {
    let mut index = KeyIndex::new();
    index.insert(code("b744"), 2, 10);
    index.insert(code("b744"), 0, 11);
    index.insert(code("b744"), 7, 12);
    let variants = index.get(&code("b744")).unwrap();
    assert_eq!(variants.len(), 3);
    assert_eq!(variants.get(&EnginePriority(2)), Some(10));
    assert_eq!(variants.get(&EnginePriority(0)), Some(11));
    assert_eq!(variants.get(&EnginePriority(7)), Some(12));
    assert_eq!(variants.get(&EnginePriority(1)), None);
    assert_eq!(variants.first(), Some((EnginePriority(2), 10)));
    assert_eq!(
        variants.to_vec(),
        vec![(EnginePriority(2), 10), (EnginePriority(0), 11), (EnginePriority(7), 12)]
    );
}

#[test]
fn a_later_position_takes_the_place_of_an_earlier_one() {
    let mut index = KeyIndex::new();
    index.insert(code("b744"), 1, 4);
    index.insert(code("b744"), 2, 5);
    index.insert(code("b744"), 1, 6);
    let variants = index.get(&code("b744")).unwrap();
    assert_eq!(variants.len(), 2);
    assert_eq!(variants.get(&EnginePriority(1)), Some(6));
    assert_eq!(variants.to_vec(), vec![(EnginePriority(1), 6), (EnginePriority(2), 5)]);
}

#[test]
fn a_short_code_a_name_and_an_identifier_never_collide() {
    let mut index = KeyIndex::new();
    index.insert(code("123"), 0, 0);
    index.insert(name("123"), 0, 1);
    index.insert(SearchKey::Id(Id(123)), 0, 2);
    assert_eq!(index.len(), 3);
    assert_eq!(index.get(&code("123")).unwrap().get(&EnginePriority(0)), Some(0));
    assert_eq!(index.get(&name("123")).unwrap().get(&EnginePriority(0)), Some(1));
    assert_eq!(index.get(&SearchKey::Id(Id(123))).unwrap().get(&EnginePriority(0)), Some(2));
}

#[test]
fn keys_with_the_same_hash_code_are_told_apart() {
    // These two short codes share a hash code.
    let mut index = KeyIndex::new();
    index.insert(code("Y5C0T5"), 0, 0);
    assert_eq!(index.find(&code("XTC0T5")), None);
    index.insert(code("XTC0T5"), 0, 1);
    index.insert(code("Y5C0T5"), 1, 2);
    assert_eq!(index.len(), 2);
    assert_eq!(index.find(&code("Y5C0T5")), Some(0));
    assert_eq!(index.find(&code("XTC0T5")), Some(1));
    assert_eq!(
        index.get(&code("Y5C0T5")).unwrap().to_vec(),
        vec![(EnginePriority(0), 0), (EnginePriority(1), 2)]
    );
    assert_eq!(index.get(&code("XTC0T5")).unwrap().to_vec(), vec![(EnginePriority(0), 1)]);
}

#[test]
fn many_keys_are_all_found_again() {
    let mut index = KeyIndex::new();
    let mut i: u16 = 0;
    while i < 2000 {
        index.insert(SearchKey::Id(Id(i)), 0, i as usize);
        index.insert(code(&format!("c{}", i)), (i % 3) as u8, i as usize);
        index.insert(name(&format!("Model {}", i % 500)), (i / 500) as u8, i as usize);
        i += 1;
    }
    assert_eq!(index.len(), 2000 + 2000 + 500);
    let mut i: u16 = 0;
    while i < 2000 {
        let by_id = index.get(&SearchKey::Id(Id(i))).unwrap();
        assert_eq!(by_id.get(&EnginePriority(0)), Some(i as usize));
        let by_code = index.get(&code(&format!("C{}", i))).unwrap();
        assert_eq!(by_code.get(&EnginePriority((i % 3) as u8)), Some(i as usize));
        let by_name = index.get(&name(&format!("MODEL {}", i % 500))).unwrap();
        assert_eq!(by_name.get(&EnginePriority((i / 500) as u8)), Some(i as usize));
        assert_eq!(by_name.len(), 4);
        i += 1;
    }
    assert!(index.get(&SearchKey::Id(Id(2000))).is_none());
}
