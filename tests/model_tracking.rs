use slint_model::model::{Model, ModelEvent, ModelIterator, ModelNotify, VecModel};

#[test]
fn test_tracking_model_handle() {
    let mut model: VecModel<u8> = VecModel::from_vec(Vec::new());
    let tracker = model.model_tracker().new_tracker();
    model.model_tracker().begin_evaluation(tracker);
    model.model_tracker().track_row_count_changes(tracker);
    assert_eq!(model.row_count(), 0);
    assert!(!model.model_tracker().is_dirty(tracker));
    model.push(42);
    model.push(100);
    assert!(model.model_tracker().is_dirty(tracker));
    model.model_tracker().begin_evaluation(tracker);
    model.model_tracker().track_row_count_changes(tracker);
    assert_eq!(model.row_count(), 2);
    assert!(!model.model_tracker().is_dirty(tracker));
    model.set_row_data(0, 41);
    assert!(!model.model_tracker().is_dirty(tracker));
    model.remove(0);
    assert!(model.model_tracker().is_dirty(tracker));
    model.model_tracker().begin_evaluation(tracker);
    model.model_tracker().track_row_count_changes(tracker);
    assert_eq!(model.row_count(), 1);
    assert_eq!(model.row_data(0), Some(100));
}

#[test]
fn test_data_tracking() {
    let mut model: VecModel<u8> = VecModel::from_vec(vec![0, 1, 2, 3, 4]);
    let tracker = model.model_tracker().new_tracker();
    model.model_tracker().begin_evaluation(tracker);
    model.model_tracker().track_row_data_changes(tracker, 1);
    assert_eq!(model.row_data(1).unwrap(), 1);
    assert!(!model.model_tracker().is_dirty(tracker));

    model.set_row_data(2, 42);
    assert!(!model.model_tracker().is_dirty(tracker));
    model.set_row_data(1, 100);
    assert!(model.model_tracker().is_dirty(tracker));

    model.model_tracker().begin_evaluation(tracker);
    model.model_tracker().track_row_data_changes(tracker, 1);
    assert_eq!(model.row_data(1).unwrap(), 100);
    assert!(!model.model_tracker().is_dirty(tracker));

    // Any insertion, even after the tracked row, marks the reader dirty.
    model.push(200);
    assert!(model.model_tracker().is_dirty(tracker));

    model.model_tracker().begin_evaluation(tracker);
    model.model_tracker().track_row_data_changes(tracker, 1);
    assert_eq!(model.row_data(1).unwrap(), 100);
    assert!(!model.model_tracker().is_dirty(tracker));

    model.insert(0, 255);
    assert!(model.model_tracker().is_dirty(tracker));
}

#[test]
fn scenario_row_tracking_of_five_rows() {
    let mut model: VecModel<i32> = VecModel::from_vec(vec![1, 2, 3, 4, 5]);
    let tracker = model.model_tracker().new_tracker();
    model.model_tracker().begin_evaluation(tracker);
    model.model_tracker().track_row_data_changes(tracker, 1);
    assert_eq!(model.row_data(1), Some(2));
    model.set_row_data(2, 42);
    assert!(!model.model_tracker().is_dirty(tracker));
    model.set_row_data(1, 100);
    assert!(model.model_tracker().is_dirty(tracker));
    model.model_tracker().begin_evaluation(tracker);
    model.model_tracker().track_row_data_changes(tracker, 1);
    assert_eq!(model.row_data(1), Some(100));
    assert!(!model.model_tracker().is_dirty(tracker));
    model.push(200);
    assert!(model.model_tracker().is_dirty(tracker));
}

#[test]
fn count_tracker_ignores_row_data_changes() {
    let mut model: VecModel<i32> = VecModel::from_vec(vec![1, 2, 3]);
    let tracker = model.model_tracker().new_tracker();
    model.model_tracker().begin_evaluation(tracker);
    model.model_tracker().track_row_count_changes(tracker);
    model.set_row_data(0, 7);
    model.set_row_data(2, 9);
    assert!(!model.model_tracker().is_dirty(tracker));
    model.insert(1, 5);
    assert!(model.model_tracker().is_dirty(tracker));
    model.model_tracker().begin_evaluation(tracker);
    model.model_tracker().track_row_count_changes(tracker);
    assert!(!model.model_tracker().is_dirty(tracker));
    model.remove(3);
    assert!(model.model_tracker().is_dirty(tracker));
}

#[test]
fn row_change_dirties_every_data_reader() {
    let mut model: VecModel<i32> = VecModel::from_vec(vec![1, 2, 3]);
    let first = model.model_tracker().new_tracker();
    let second = model.model_tracker().new_tracker();
    model.model_tracker().begin_evaluation(first);
    model.model_tracker().track_row_data_changes(first, 0);
    model.model_tracker().begin_evaluation(second);
    model.model_tracker().track_row_data_changes(second, 2);
    // Row 2 is tracked by the second reader: both readers become dirty.
    model.set_row_data(2, 30);
    assert!(model.model_tracker().is_dirty(first));
    assert!(model.model_tracker().is_dirty(second));
}

#[test]
fn new_tracker_starts_dirty() {
    let mut model: VecModel<i32> = VecModel::from_vec(vec![1]);
    let tracker = model.model_tracker().new_tracker();
    assert!(model.model_tracker().is_dirty(tracker));
}

#[test]
fn peers_receive_events_in_order() {
    let mut model: VecModel<i32> = VecModel::from_vec(vec![1, 2, 3]);
    let peer = model.model_tracker().attach_peer();
    model.set_row_data(1, 20);
    model.push(4);
    model.remove(0);
    let events = model.model_tracker().take_events(peer);
    assert_eq!(
        events,
        vec![
            ModelEvent::RowChanged(1),
            ModelEvent::RowsAdded(3, 1),
            ModelEvent::RowsRemoved(0, 1)
        ]
    );
    assert!(model.model_tracker().take_events(peer).is_empty());
}

#[test]
fn detached_peer_receives_nothing() {
    let mut model: VecModel<i32> = VecModel::from_vec(vec![1, 2, 3]);
    let peer = model.model_tracker().attach_peer();
    let other = model.model_tracker().attach_peer();
    model.model_tracker().detach_peer(peer);
    model.push(4);
    model.set_row_data(0, 5);
    assert!(model.model_tracker().take_events(peer).is_empty());
    assert_eq!(model.model_tracker().take_events(other).len(), 2);
}

#[test]
fn from_slice_clones_rows() {
    let model = VecModel::from_slice(&[3, 4, 5]);
    assert_eq!(model.row_count(), 3);
    assert_eq!(model.row_data(2), Some(5));
    assert_eq!(model.row_data(3), None);
}

#[test]
fn out_of_range_write_is_ignored() {
    let mut model: VecModel<i32> = VecModel::from_vec(vec![1]);
    let peer = model.model_tracker().attach_peer();
    model.set_row_data(5, 9);
    assert_eq!(model.row_data(0), Some(1));
    assert!(model.model_tracker().take_events(peer).is_empty());
}

#[test]
fn model_iterator_visits_every_row() {
    let model: VecModel<i32> = VecModel::from_vec(vec![4, 5, 6]);
    let mut it = ModelIterator::new(&model);
    assert_eq!(it.size_hint(), 3);
    assert_eq!(it.next(), Some(4));
    assert_eq!(it.next(), Some(5));
    assert_eq!(it.next(), Some(6));
    assert_eq!(it.next(), None);
    assert_eq!(it.next(), None);
}

#[test]
fn hub_without_observers_allocates_nothing() {
    use_hub();
}

fn use_hub() {
    let mut hub = ModelNotify::new();
    hub.row_changed(3);
    hub.row_added(0, 2);
    hub.row_removed(1, 1);
    let t = hub.new_tracker();
    assert!(hub.is_dirty(t));
    hub.begin_evaluation(t);
    hub.track_row_data_changes(t, 4);
    hub.row_changed(3);
    assert!(!hub.is_dirty(t));
    hub.row_changed(4);
    assert!(hub.is_dirty(t));
}
