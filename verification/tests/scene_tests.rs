use sim_core::scene::{AnimationMode, CanvasSimulation, ObjectType};
use sim_core::fixed::{cos_milli, sin_milli};

const FIELDS: usize = 11;

fn field(data: &[i64], obj: usize, k: usize) -> i64 {
    data[obj * FIELDS + k]
}

#[test]
fn create_100_rectangles_on_default_canvas() {
    let mut sim = CanvasSimulation::new();
    let ids = sim.create_objects(100, ObjectType::Rectangle);
    assert_eq!(sim.get_object_count(), 100);
    assert_eq!(sim.get_visible_count(), 100);
    assert_eq!(ids.len(), 100);
    for (k, id) in ids.iter().enumerate() {
        assert_eq!(*id, k as u32);
    }
    let data = sim.get_object_data();
    assert_eq!(data.len(), 100 * FIELDS);
    for o in 0..100 {
        assert_eq!(field(&data, o, 0), o as i64); // id
        assert_eq!(field(&data, o, 1), 0); // rectangle tag
        let x = field(&data, o, 2);
        let y = field(&data, o, 3);
        assert!((50000..1920000 - 100000).contains(&x));
        assert!((50000..1080000 - 100000).contains(&y));
        assert!((30000..80000).contains(&field(&data, o, 4)));
        assert!((30000..80000).contains(&field(&data, o, 5)));
        assert_eq!(field(&data, o, 6), 0); // rotation
        assert!((500..1500).contains(&field(&data, o, 7)));
        assert!((500..1500).contains(&field(&data, o, 8)));
        assert_eq!(field(&data, o, 10), 0); // not selected
    }
}

#[test]
fn select_corner_order_does_not_matter() {
    let mut sim = CanvasSimulation::new();
    sim.create_objects(50, ObjectType::Circle);
    let a = sim.select_objects_in_area(400000, 300000, 1200000, 900000);
    sim.clear_selections();
    let b = sim.select_objects_in_area(1200000, 900000, 400000, 300000);
    assert_eq!(a, b);
}

#[test]
fn degenerate_selection_rect_selects_nothing() {
    let mut sim = CanvasSimulation::new();
    sim.create_objects(30, ObjectType::Text);
    let picked = sim.select_objects_in_area(0, 0, 0, 0);
    assert!(picked.is_empty());
    let metrics = sim.get_performance_metrics();
    assert_eq!(metrics.selected_objects, 0);
}

#[test]
fn selection_is_additive_until_cleared() {
    let mut sim = CanvasSimulation::new();
    sim.create_objects(40, ObjectType::Rectangle);
    let left = sim.select_objects_in_area(0, 0, 960000, 1080000);
    let right = sim.select_objects_in_area(960000, 0, 1920000, 1080000);
    assert_eq!((left.len() + right.len()) as u32, 40);
    assert_eq!(sim.get_performance_metrics().selected_objects, 40);
    sim.clear_selections();
    assert_eq!(sim.get_performance_metrics().selected_objects, 0);
}

#[test]
fn move_selected_clamps_bounding_boxes_to_canvas() {
    let mut sim = CanvasSimulation::new();
    sim.create_objects(25, ObjectType::Rectangle);
    sim.select_objects_in_area(0, 0, 1920000, 1080000);
    sim.move_selected_objects(10_000_000, 10_000_000);
    let data = sim.get_object_data();
    for o in 0..25 {
        let x = field(&data, o, 2);
        let y = field(&data, o, 3);
        let w = field(&data, o, 4);
        let h = field(&data, o, 5);
        assert_eq!(x, 1920000 - w);
        assert_eq!(y, 1080000 - h);
        assert!(x >= 0 && x + w <= 1920000);
        assert!(y >= 0 && y + h <= 1080000);
    }
    sim.move_selected_objects(-10_000_000, -10_000_000);
    let data = sim.get_object_data();
    for o in 0..25 {
        assert_eq!(field(&data, o, 2), 0);
        assert_eq!(field(&data, o, 3), 0);
    }
}

#[test]
fn delete_after_selecting_everything_empties_store() {
    let mut sim = CanvasSimulation::new();
    sim.create_objects(50, ObjectType::ComplexPath);
    let picked = sim.select_objects_in_area(0, 0, 1920000, 1080000);
    assert_eq!(picked.len(), 50);
    let removed = sim.delete_selected_objects();
    assert_eq!(removed, 50);
    assert_eq!(sim.get_object_count(), 0);
    assert!(sim.get_object_data().is_empty());
}

#[test]
fn deleting_with_nothing_selected_removes_nothing() {
    let mut sim = CanvasSimulation::new();
    sim.create_objects(12, ObjectType::Circle);
    assert_eq!(sim.delete_selected_objects(), 0);
    assert_eq!(sim.get_object_count(), 12);
}

#[test]
fn ids_stay_fresh_after_deletion() {
    let mut sim = CanvasSimulation::new();
    let first = sim.create_objects(10, ObjectType::Rectangle);
    sim.select_objects_in_area(0, 0, 1920000, 1080000);
    sim.delete_selected_objects();
    let second = sim.create_objects(5, ObjectType::Rectangle);
    for id in &second {
        for old in &first {
            assert!(id > old);
        }
    }
    assert_eq!(second, vec![10, 11, 12, 13, 14]);
}

#[test]
fn clear_resets_id_counter() {
    let mut sim = CanvasSimulation::new();
    sim.create_objects(10, ObjectType::Rectangle);
    sim.clear_objects();
    assert_eq!(sim.get_object_count(), 0);
    let ids = sim.create_objects(3, ObjectType::Text);
    assert_eq!(ids, vec![0, 1, 2]);
}

#[test]
fn export_length_is_a_multiple_of_the_field_count() {
    let mut sim = CanvasSimulation::new();
    sim.batch_create_test_objects(7, 8, 9);
    let data = sim.get_object_data();
    assert_eq!(data.len() % FIELDS, 0);
    assert_eq!(data.len(), FIELDS * sim.get_visible_count() as usize);
}

#[test]
fn batch_create_reports_totals_and_tags() {
    let mut sim = CanvasSimulation::new();
    let total = sim.batch_create_test_objects(3, 4, 5);
    assert_eq!(total, 12);
    assert_eq!(sim.get_object_count(), 12);
    let data = sim.get_object_data();
    for o in 0..3 {
        assert_eq!(field(&data, o, 1), 0);
    }
    for o in 3..7 {
        assert_eq!(field(&data, o, 1), 1);
    }
    for o in 7..12 {
        assert_eq!(field(&data, o, 1), 2);
    }
}

#[test]
fn rotating_mode_advances_and_wraps_rotation() {
    let mut sim = CanvasSimulation::new();
    sim.create_objects(5, ObjectType::Circle);
    sim.update_transformations(1000, AnimationMode::Rotating, 0);
    let data = sim.get_object_data();
    for o in 0..5 {
        assert_eq!(field(&data, o, 6), 500);
    }
    sim.update_transformations(12000, AnimationMode::Rotating, 0);
    let data = sim.get_object_data();
    for o in 0..5 {
        assert_eq!(field(&data, o, 6), (500 + 6000) % 6283);
    }
}

#[test]
fn scaling_mode_tracks_the_sine_exactly() {
    let mut sim = CanvasSimulation::new();
    sim.create_objects(4, ObjectType::Rectangle);
    let now: u64 = 123456;
    sim.update_transformations(16, AnimationMode::Scaling, now);
    let data = sim.get_object_data();
    for o in 0..4u64 {
        let s = sin_milli(now + o * 100);
        let expected = 500 + 300 * s / 1000;
        assert_eq!(field(&data, o as usize, 7), expected);
        assert_eq!(field(&data, o as usize, 8), expected);
        assert!((200..=800).contains(&expected));
    }
}

#[test]
fn static_mode_changes_nothing() {
    let mut sim = CanvasSimulation::new();
    sim.create_objects(6, ObjectType::Text);
    let before = sim.get_object_data();
    sim.update_transformations(16, AnimationMode::Static, 999);
    assert_eq!(before, sim.get_object_data());
}

#[test]
fn stress_mode_drifts_positions_each_tick() {
    // The oscillation is centred on the current (already moved) position,
    // so repeated updates drift; this covers that literal behaviour.
    let mut sim = CanvasSimulation::new();
    sim.create_objects(1, ObjectType::Rectangle);
    let before = sim.get_object_data();
    let x0 = field(&before, 0, 2);
    let y0 = field(&before, 0, 3);
    sim.update_transformations(16, AnimationMode::Stress, 0);
    let data = sim.get_object_data();
    // phase for index 0 at wall-clock zero: cos ~ 1, sin ~ 0
    assert_eq!(field(&data, 0, 2), x0 + 20 * cos_milli(0));
    assert_eq!(field(&data, 0, 3), y0 + 20 * sin_milli(0));
    assert_eq!(field(&data, 0, 6), 4); // 3 * 16 / 10 milliradians
    assert_eq!(field(&data, 0, 7), 400); // 400 + 200 * sin(0) / 1000
    sim.update_transformations(16, AnimationMode::Stress, 0);
    let data2 = sim.get_object_data();
    assert_eq!(field(&data2, 0, 2), x0 + 40 * cos_milli(0));
}

#[test]
fn metrics_report_counts_time_and_footprint() {
    let mut sim = CanvasSimulation::new();
    sim.create_objects(20, ObjectType::Circle);
    sim.select_objects_in_area(0, 0, 1920000, 1080000);
    sim.record_update_time(7);
    let m = sim.get_performance_metrics();
    assert_eq!(m.object_count, 20);
    assert_eq!(m.visible_objects, 20);
    assert_eq!(m.selected_objects, 20);
    assert_eq!(m.update_time_ms, 7);
    assert_eq!(m.memory_usage_bytes, 20 * 80);
}

#[test]
fn memory_stress_creates_then_destroys_a_share() {
    let mut sim = CanvasSimulation::new();
    sim.memory_stress_test(100, 500);
    assert_eq!(sim.get_object_count(), 50);
    sim.memory_stress_test(0, 1000);
    assert_eq!(sim.get_object_count(), 0);
}

#[test]
fn canvas_resize_bounds_later_placement() {
    let mut sim = CanvasSimulation::new();
    sim.set_canvas_size(300000, 400000);
    sim.create_objects(30, ObjectType::Rectangle);
    let data = sim.get_object_data();
    for o in 0..30 {
        let x = field(&data, o, 2);
        let y = field(&data, o, 3);
        assert!((50000..200000).contains(&x));
        assert!((50000..300000).contains(&y));
    }
}

#[test]
fn memory_usage_probe_is_a_placeholder() {
    assert_eq!(sim_core::scene::get_memory_usage(), 0);
}
