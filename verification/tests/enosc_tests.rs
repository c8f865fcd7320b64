use modular::enosc::{triangle_tables_12ths, TRIANGLE_SIZE, TRIANGLE_TABLES_COUNT};

fn triangle_tables() -> Vec<Vec<f32>> {
    triangle_tables_12ths()
        .iter()
        .map(|row| row.iter().map(|&v| v as f32 / 12.0).collect())
        .collect()
}

#[test]
fn test_triangle_linear() {
    // First triangle table should be linear
    let tables = triangle_tables();
    let table = &tables[0];
    for i in 0..TRIANGLE_SIZE {
        let expected = (i as f32 * 2.0) / (TRIANGLE_SIZE - 1) as f32 - 1.0;
        assert!((table[i] - expected).abs() < 0.001);
    }
}

#[test]
fn triangle_tables_have_expected_shape() {
    let tables = triangle_tables_12ths();
    assert_eq!(tables.len(), TRIANGLE_TABLES_COUNT);
    for row in &tables {
        assert_eq!(row.len(), TRIANGLE_SIZE);
        assert_eq!(row[4], 0);
        assert!(row.iter().all(|&v| (-12..=12).contains(&v)));
    }
    assert_eq!(tables[3], vec![-12, -12, -12, -12, 0, 12, 12, 12, 12]);
    assert_eq!(tables[7], vec![12, -12, 12, -12, 0, 12, -12, 12, -12]);
}
