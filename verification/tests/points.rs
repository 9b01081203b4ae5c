use ppa::data::point::{PointCollection, Points};

#[test]
fn create_empty() {
    let points = Points::<f32>::empty(3);

    assert_eq!(points.len(), 0);
    assert_eq!(points.dim(), 3);
}

#[test]
fn create_from_raw() {
    let data = (0..12).map(|i| i as f32).collect();
    let points = Points::from_raw(data, 3).unwrap();

    assert_eq!(points.len(), 4);
    assert_eq!(points.dim(), 3);
    assert_eq!(points.get(0), vec![0.0, 1.0, 2.0]);
    assert_eq!(points.get(1), vec![3.0, 4.0, 5.0]);
}

#[test]
fn create_from_rows() {
    let rows = vec![
        vec![0.0, 1.0, 2.0],
        vec![3.0, 4.0, 5.0],
        vec![6.0, 7.0, 8.0],
        vec![9.0, 10.0, 11.0],
    ];
    let points = Points::from_rows(&rows).unwrap();

    assert_eq!(points.len(), 4);
    assert_eq!(points.dim(), 3);
    assert_eq!(points.get(0), vec![0.0, 1.0, 2.0]);
    assert_eq!(points.get(1), vec![3.0, 4.0, 5.0]);
}

#[test]
fn create_from_cols() {
    let cols = vec![
        vec![0.0, 3.0, 6.0, 9.0],
        vec![1.0, 4.0, 7.0, 10.0],
        vec![2.0, 5.0, 8.0, 11.0],
    ];
    let points = Points::from_cols(&cols).unwrap();

    assert_eq!(points.len(), 4);
    assert_eq!(points.dim(), 3);
    assert_eq!(points.get(0), vec![0.0, 1.0, 2.0]);
    assert_eq!(points.get(1), vec![3.0, 4.0, 5.0]);
}

#[test]
fn rows_and_cols_build_the_same_storage() {
    let rows = vec![
        vec![0.0, 1.0, 2.0],
        vec![3.0, 4.0, 5.0],
        vec![6.0, 7.0, 8.0],
        vec![9.0, 10.0, 11.0],
    ];
    let cols = vec![
        vec![0.0, 3.0, 6.0, 9.0],
        vec![1.0, 4.0, 7.0, 10.0],
        vec![2.0, 5.0, 8.0, 11.0],
    ];
    let by_rows = Points::from_rows(&rows).unwrap();
    let by_cols = Points::from_cols(&cols).unwrap();

    assert_eq!(by_rows.len(), by_cols.len());
    assert_eq!(by_rows.dim(), by_cols.dim());
    for i in 0..by_rows.len() {
        assert_eq!(by_rows.get(i), by_cols.get(i));
    }
}

#[test]
fn from_raw_rejects_length_not_multiple_of_dim() {
    let data: Vec<f64> = (0..13).map(|i| i as f64).collect();
    let err = Points::from_raw(data, 3).unwrap_err();
    assert_eq!(
        err.0,
        "Data length (13) does not match number of dimensions (3)"
    );
}

#[test]
fn from_rows_rejects_ragged_rows() {
    let rows = vec![vec![0.0, 1.0, 2.0], vec![3.0, 4.0]];
    let err = Points::from_rows(&rows).unwrap_err();
    assert_eq!(
        err.0,
        "Row length (2) does not match number of dimensions (3)"
    );
}

#[test]
fn from_cols_rejects_ragged_columns() {
    let cols = vec![vec![0.0, 3.0, 6.0, 9.0], vec![1.0, 4.0, 7.0]];
    let err = Points::from_cols(&cols).unwrap_err();
    assert_eq!(err.0, "Column length (3) does not match number of rows (4)");
}

#[test]
fn push_appends_full_rows() {
    let mut points = Points::<f64>::empty(2);
    points.push(&vec![1.5, 2.5]);
    points.push(&vec![3.5, 4.5]);

    assert_eq!(points.len(), 2);
    assert_eq!(points.get(0), vec![1.5, 2.5]);
    assert_eq!(points.get(1), vec![3.5, 4.5]);
}

#[test]
fn collection_rejects_id_count_mismatch() {
    let data: Vec<f64> = (0..12).map(|i| i as f64).collect();
    let points = Points::from_raw(data, 3).unwrap();
    let ids = vec!["a".to_string(), "b".to_string(), "c".to_string()];
    let err = PointCollection::new(points, Some(ids)).unwrap_err();
    assert_eq!(err.0, "Data length (4) does not match number of IDs (3)");
}

#[test]
fn collection_keeps_matching_ids() {
    let data: Vec<f64> = (0..6).map(|i| i as f64).collect();
    let points = Points::from_raw(data, 3).unwrap();
    let ids = vec!["a".to_string(), "b".to_string()];
    let collection = PointCollection::new(points, Some(ids.clone())).unwrap();
    assert_eq!(collection.points().len(), 2);
    assert_eq!(collection.ids(), &Some(ids));

    let data2: Vec<f64> = (0..6).map(|i| i as f64).collect();
    let points2 = Points::from_raw(data2, 3).unwrap();
    let collection2 = PointCollection::new(points2, None).unwrap();
    assert_eq!(collection2.ids(), &None);
}
