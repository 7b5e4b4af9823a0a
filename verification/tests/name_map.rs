use routing::name_map::{rank, NameMap, Rank};
use routing::types::NameType;

fn name(bytes: &[u8]) -> NameType {
    NameType::new(bytes.to_vec())
}

#[test]
fn names_are_ranked_as_their_bytes() {
    assert_eq!(rank(&name(&[]), &name(&[])), Rank::Same);
    assert_eq!(rank(&name(&[1, 2]), &name(&[1, 2])), Rank::Same);
    assert_eq!(rank(&name(&[]), &name(&[0])), Rank::Before);
    assert_eq!(rank(&name(&[0]), &name(&[])), Rank::After);
    assert_eq!(rank(&name(&[1, 2]), &name(&[1, 3])), Rank::Before);
    assert_eq!(rank(&name(&[1, 3]), &name(&[1, 2])), Rank::After);
    assert_eq!(rank(&name(&[1]), &name(&[1, 0])), Rank::Before);
    assert_eq!(rank(&name(&[2]), &name(&[1, 9, 9])), Rank::After);
    assert_eq!(rank(&name(&[0, 255]), &name(&[1, 0])), Rank::Before);
}

#[test]
fn rank_agrees_with_the_order_of_the_type() {
    let names = [
        name(&[]),
        name(&[0]),
        name(&[0, 0]),
        name(&[0, 1]),
        name(&[1]),
        name(&[1, 0]),
        name(&[200]),
        name(&[200, 1]),
    ];
    for a in names.iter() {
        for b in names.iter() {
            let expected = match a.cmp(b) {
                std::cmp::Ordering::Less => Rank::Before,
                std::cmp::Ordering::Equal => Rank::Same,
                std::cmp::Ordering::Greater => Rank::After,
            };
            assert_eq!(rank(a, b), expected);
        }
    }
}

#[test]
fn entries_are_kept_in_the_order_of_their_names() {
    let mut map: NameMap<u32> = NameMap::new();
    assert_eq!(map.len(), 0);
    assert_eq!(map.insert(name(&[5]), 50), None);
    assert_eq!(map.insert(name(&[1]), 10), None);
    assert_eq!(map.insert(name(&[3]), 30), None);
    assert_eq!(map.insert(name(&[1, 0]), 11), None);
    assert_eq!(map.len(), 4);
    let listed: Vec<Vec<u8>> = (0..map.len()).map(|i| map.name_at(i).0.clone()).collect();
    assert_eq!(listed, vec![vec![1], vec![1, 0], vec![3], vec![5]]);
    let values: Vec<u32> = (0..map.len()).map(|i| *map.value_at(i)).collect();
    assert_eq!(values, vec![10, 11, 30, 50]);
}

#[test]
fn insert_replaces_and_hands_back_the_old_value() {
    let mut map: NameMap<u32> = NameMap::new();
    assert_eq!(map.insert(name(&[1]), 10), None);
    assert_eq!(map.insert(name(&[2]), 20), None);
    assert_eq!(map.insert(name(&[1]), 12), Some(10));
    assert_eq!(map.len(), 2);
    assert_eq!(map.get(&name(&[1])), Some(&12));
    assert_eq!(map.get(&name(&[2])), Some(&20));
    assert_eq!(map.get(&name(&[3])), None);
    assert!(map.contains_key(&name(&[2])));
    assert!(!map.contains_key(&name(&[])));
}

#[test]
fn remove_takes_one_entry_out() {
    let mut map: NameMap<u32> = NameMap::new();
    map.insert(name(&[1]), 10);
    map.insert(name(&[2]), 20);
    map.insert(name(&[3]), 30);
    assert_eq!(map.remove(&name(&[2])), Some(20));
    assert_eq!(map.remove(&name(&[2])), None);
    assert_eq!(map.len(), 2);
    assert_eq!(map.get(&name(&[1])), Some(&10));
    assert_eq!(map.get(&name(&[3])), Some(&30));
    assert_eq!(map.remove_at(0), 10);
    assert_eq!(map.len(), 1);
    assert_eq!(map.name_at(0).0, vec![3]);
}
