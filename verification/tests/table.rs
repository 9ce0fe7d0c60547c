use araponto::table::Table;

#[test]
fn table_follows_a_map() {
    let mut t: Table<u64, u128> = Table::new();
    let mut seed: u64 = 7;
    let mut model: Vec<Option<u128>> = vec![None; 50];
    for step in 0..5_000u128 {
        seed = seed.wrapping_mul(6364136223846793005).wrapping_add(1442695040888963407);
        let key = (seed >> 33) % 50;
        if (seed >> 60) % 3 == 0 {
            assert_eq!(t.remove(&key), model[key as usize].take());
        } else {
            t.insert(key, step);
            model[key as usize] = Some(step);
        }
        if step % 97 == 0 {
            t.sweep(step, 40);
            for v in model.iter_mut() {
                if v.map_or(false, |at| step - at >= 40) {
                    *v = None;
                }
            }
        }
        assert_eq!(t.get(&key).copied(), model[key as usize]);
    }
    for key in 0..50u64 {
        assert_eq!(t.get(&key).copied(), model[key as usize]);
        assert_eq!(t.contains_key(&key), model[key as usize].is_some());
    }
    assert_eq!(t.len(), model.iter().filter(|v| v.is_some()).count());
}
