use cachelito_core::count_min_sketch::CountMinSketch;

#[test]
fn test_basic_increment_and_estimate() {
    let mut sketch = CountMinSketch::new(1024, 4);

    sketch.increment(&"key1");
    assert_eq!(sketch.estimate(&"key1"), 1);

    sketch.increment(&"key1");
    assert_eq!(sketch.estimate(&"key1"), 2);

    sketch.increment(&"key2");
    assert_eq!(sketch.estimate(&"key2"), 1);
    assert_eq!(sketch.estimate(&"key1"), 2);
}

#[test]
fn test_estimate_nonexistent_key() {
    let sketch = CountMinSketch::new(1024, 4);
    assert_eq!(sketch.estimate(&"nonexistent"), 0);
}

#[test]
fn test_decay() {
    let mut sketch = CountMinSketch::new(1024, 4);

    sketch.increment(&"key1");
    sketch.increment(&"key1");
    sketch.increment(&"key1");
    sketch.increment(&"key1");

    assert_eq!(sketch.estimate(&"key1"), 4);

    sketch.decay();
    assert_eq!(sketch.estimate(&"key1"), 2);

    sketch.decay();
    assert_eq!(sketch.estimate(&"key1"), 1);

    sketch.decay();
    assert_eq!(sketch.estimate(&"key1"), 0);
}

#[test]
fn count_min_sketch_test_reset() {
    let mut sketch = CountMinSketch::new(1024, 4);

    sketch.increment(&"key1");
    sketch.increment(&"key2");
    sketch.increment(&"key3");

    assert_eq!(sketch.total_count(), 3);
    assert!(sketch.estimate(&"key1") > 0);

    sketch.reset();

    assert_eq!(sketch.total_count(), 0);
    assert_eq!(sketch.estimate(&"key1"), 0);
    assert_eq!(sketch.estimate(&"key2"), 0);
    assert_eq!(sketch.estimate(&"key3"), 0);
}

#[test]
fn test_total_count() {
    let mut sketch = CountMinSketch::new(1024, 4);

    assert_eq!(sketch.total_count(), 0);

    sketch.increment(&"key1");
    assert_eq!(sketch.total_count(), 1);

    sketch.increment(&"key2");
    sketch.increment(&"key1");
    assert_eq!(sketch.total_count(), 3);

    sketch.decay();
    assert_eq!(sketch.total_count(), 1);
}

#[test]
fn test_multiple_keys() {
    let mut sketch = CountMinSketch::new(2048, 4);

    for i in 0..100 {
        sketch.increment(&format!("key{}", i));
    }

    for i in 0..100 {
        assert_eq!(sketch.estimate(&format!("key{}", i)), 1);
    }

    for _ in 0..10 {
        sketch.increment(&"key5");
    }

    assert_eq!(sketch.estimate(&"key5"), 11);
    assert_eq!(sketch.estimate(&"key10"), 1);
}

#[test]
fn test_saturation() {
    let mut sketch = CountMinSketch::new(1024, 4);

    let test_key = "key1";
    for i in 0..sketch.depth {
        let index = sketch.hash(&test_key, i);
        sketch.counters[i][index] = u32::MAX - 1;
    }

    sketch.increment(&test_key);
    sketch.increment(&test_key);
    sketch.increment(&test_key);

    let estimate = sketch.estimate(&test_key);
    assert_eq!(estimate, u32::MAX);
}

#[test]
fn test_different_types() {
    let mut sketch = CountMinSketch::new(1024, 4);

    sketch.increment(&42u32);
    sketch.increment(&"string_key");
    sketch.increment(&(1, 2, 3));

    assert_eq!(sketch.estimate(&42u32), 1);
    assert_eq!(sketch.estimate(&"string_key"), 1);
    assert_eq!(sketch.estimate(&(1, 2, 3)), 1);
}

#[test]
fn sketch_hash_stays_in_row_and_depends_on_row() {
    let sketch = CountMinSketch::new(64, 4);
    let mut differs = false;
    for i in 0..sketch.depth {
        let index = sketch.hash(&"some key", i);
        assert!(index < sketch.width);
        if index != sketch.hash(&"some key", 0) {
            differs = true;
        }
    }
    assert!(differs);
}

#[test]
fn sketch_increment_never_lowers_any_estimate() {
    let mut sketch = CountMinSketch::new(16, 2);
    for i in 0..50 {
        sketch.increment(&i);
    }
    let before: Vec<u32> = (0..50).map(|i| sketch.estimate(&i)).collect();
    sketch.increment(&7);
    for i in 0..50 {
        assert!(sketch.estimate(&i) >= before[i as usize]);
    }
    assert!(sketch.estimate(&7) > before[7]);
}

#[test]
fn sketch_decay_halves_estimate_rounding_down() {
    let mut sketch = CountMinSketch::new(1024, 4);
    for _ in 0..7 {
        sketch.increment(&"k");
    }
    assert_eq!(sketch.estimate(&"k"), 7);
    sketch.decay();
    assert_eq!(sketch.estimate(&"k"), 3);
    assert_eq!(sketch.total_count(), 3);
}

#[test]
fn sketch_new_has_requested_shape() {
    let sketch = CountMinSketch::new(10, 3);
    assert_eq!(sketch.depth, 3);
    assert_eq!(sketch.width, 10);
    assert_eq!(sketch.counters.len(), 3);
    for row in &sketch.counters {
        assert_eq!(row.len(), 10);
        assert!(row.iter().all(|c| *c == 0));
    }
    assert_eq!(sketch.total_count(), 0);
}
