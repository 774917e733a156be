use std::cell::{Cell, RefCell};
use std::rc::Rc;

use slint_model::model::{Model, VecModel};
use slint_model::repeater::{
    RepeatedComponent, RepeatedComponentState, Repeater, TraversalOrder, VisitChildrenResult,
};

type Log = Rc<RefCell<Vec<(usize, usize, i32)>>>;

#[derive(Clone)]
struct Item {
    id: usize,
    height: u64,
    log: Log,
    placed_at: Rc<Cell<u64>>,
}

impl RepeatedComponent for Item {
    type Data = i32;

    fn update(&self, index: usize, data: i32) {
        self.log.borrow_mut().push((self.id, index, data));
    }

    fn height_of(&self) -> u64 {
        self.height
    }

    fn height(&self) -> u64 {
        self.height
    }

    fn listview_layout(&self, offset_y: u64, _viewport_width: u64) {
        self.placed_at.set(offset_y);
    }
}

struct Factory {
    next: Cell<usize>,
    height: u64,
    log: Log,
}

impl Factory {
    fn new(height: u64) -> Self {
        Factory { next: Cell::new(0), height, log: Rc::new(RefCell::new(Vec::new())) }
    }

    fn make(&self) -> Item {
        let id = self.next.get();
        self.next.set(id + 1);
        Item { id, height: self.height, log: self.log.clone(), placed_at: Rc::new(Cell::new(0)) }
    }
}

fn ids(r: &Repeater<Item>) -> Vec<usize> {
    r.components_vec().iter().map(|c| c.id).collect()
}

#[test]
fn scenario_remove_middle_row_of_three() {
    let factory = Factory::new(10);
    let init = || factory.make();
    let mut model: VecModel<i32> = VecModel::from_vec(vec![10, 20, 30]);
    let mut rep: Repeater<Item> = Repeater::new();
    rep.set_model_binding(&mut model);
    rep.ensure_updated(&mut model, &init);
    assert_eq!(rep.len(), 3);
    assert_eq!(ids(&rep), vec![0, 1, 2]);
    assert_eq!(*factory.log.borrow(), vec![(0, 0, 10), (1, 1, 20), (2, 2, 30)]);
    factory.log.borrow_mut().clear();

    model.remove(1);
    rep.sync(&mut model);
    assert_eq!(rep.len(), 2);
    assert_eq!(rep.slot_state(0), Some(RepeatedComponentState::Clean));
    assert_eq!(rep.slot_state(1), Some(RepeatedComponentState::Dirty));
    assert_eq!(ids(&rep), vec![0, 2]);

    rep.ensure_updated(&mut model, &init);
    assert_eq!(ids(&rep), vec![0, 2]);
    assert_eq!(rep.slot_state(1), Some(RepeatedComponentState::Clean));
    // Instance 0 untouched; the former third instance now shows row 1.
    assert_eq!(*factory.log.borrow(), vec![(2, 1, 30)]);
    assert_eq!(factory.next.get(), 3);
}

#[test]
fn rows_added_create_fresh_slots() {
    let factory = Factory::new(10);
    let init = || factory.make();
    let mut model: VecModel<i32> = VecModel::from_vec(vec![1, 2]);
    let mut rep: Repeater<Item> = Repeater::new();
    rep.set_model_binding(&mut model);
    rep.ensure_updated(&mut model, &init);
    factory.log.borrow_mut().clear();
    model.insert(1, 5);
    rep.ensure_updated(&mut model, &init);
    assert_eq!(ids(&rep), vec![0, 2, 1]);
    // The new row gets a new instance; the row after it moved and is refreshed.
    assert_eq!(*factory.log.borrow(), vec![(2, 1, 5), (1, 2, 2)]);
}

#[test]
fn row_change_refreshes_only_that_slot() {
    let factory = Factory::new(10);
    let init = || factory.make();
    let mut model: VecModel<i32> = VecModel::from_vec(vec![1, 2, 3]);
    let mut rep: Repeater<Item> = Repeater::new();
    rep.set_model_binding(&mut model);
    rep.ensure_updated(&mut model, &init);
    factory.log.borrow_mut().clear();
    model.set_row_data(2, 33);
    rep.ensure_updated(&mut model, &init);
    assert_eq!(*factory.log.borrow(), vec![(2, 2, 33)]);
}

#[test]
fn model_set_row_data_refreshes_eagerly() {
    let factory = Factory::new(10);
    let init = || factory.make();
    let mut model: VecModel<i32> = VecModel::from_vec(vec![1, 2, 3]);
    let mut rep: Repeater<Item> = Repeater::new();
    rep.set_model_binding(&mut model);
    rep.ensure_updated(&mut model, &init);
    factory.log.borrow_mut().clear();
    rep.model_set_row_data(&mut model, 0, 9);
    assert_eq!(model.row_data(0), Some(9));
    assert_eq!(rep.slot_state(0), Some(RepeatedComponentState::Clean));
    assert_eq!(*factory.log.borrow(), vec![(0, 0, 9)]);
}

#[test]
fn unbound_repeater_is_not_notified() {
    let factory = Factory::new(10);
    let init = || factory.make();
    let mut model: VecModel<i32> = VecModel::from_vec(vec![1, 2, 3]);
    let mut rep: Repeater<Item> = Repeater::new();
    rep.set_model_binding(&mut model);
    rep.ensure_updated(&mut model, &init);
    rep.unbind(&mut model);
    model.push(4);
    model.remove(0);
    model.set_row_data(0, 8);
    rep.sync(&mut model);
    assert_eq!(rep.len(), 3);
    assert_eq!(rep.slot_state(0), Some(RepeatedComponentState::Clean));
    assert_eq!(rep.slot_state(2), Some(RepeatedComponentState::Clean));
}

#[test]
fn sliding_window_by_one_keeps_instances() {
    let factory = Factory::new(10);
    let init = || factory.make();
    let mut model: VecModel<i32> = VecModel::from_vec((0..10).collect());
    let mut rep: Repeater<Item> = Repeater::new();
    rep.set_model_binding(&mut model);
    rep.set_offset(2, 3);
    let mut vh: u64 = 0;
    let mut vy: i64 = 0;
    rep.sync(&mut model);
    // Materialize rows 2..5 through a list view pull of a small viewport.
    rep.ensure_updated_listview(&mut model, &init, &mut vh, &mut vy, 100, 25);
    let before = ids(&rep);
    let first = rep.first_row();
    let n = rep.len();
    rep.set_offset(first + 1, n);
    assert_eq!(rep.len(), n);
    assert_eq!(rep.slot_state(n - 1), Some(RepeatedComponentState::Dirty));
    assert_eq!(ids(&rep), before[1..].to_vec());
}

#[test]
fn fixed_height_list_view_converges() {
    let factory = Factory::new(10);
    let init = || factory.make();
    let mut model: VecModel<i32> = VecModel::from_vec((0..100).collect());
    let mut rep: Repeater<Item> = Repeater::new();
    rep.set_model_binding(&mut model);
    let mut vh: u64 = 0;
    let mut vy: i64 = 0;
    rep.ensure_updated_listview(&mut model, &init, &mut vh, &mut vy, 200, 35);
    assert_eq!(rep.len(), 4);
    assert_eq!(rep.first_row(), 0);
    assert_eq!(vh, 1000);
    assert_eq!(vy, 0);
    let placed: Vec<u64> = rep.components_vec().iter().map(|c| c.placed_at.get()).collect();
    assert_eq!(placed, vec![0, 10, 20, 30]);
}

#[test]
fn list_view_of_few_rows_materializes_all() {
    let factory = Factory::new(10);
    let init = || factory.make();
    let mut model: VecModel<i32> = VecModel::from_vec(vec![1, 2, 3]);
    let mut rep: Repeater<Item> = Repeater::new();
    rep.set_model_binding(&mut model);
    let mut vh: u64 = 0;
    let mut vy: i64 = 0;
    rep.ensure_updated_listview(&mut model, &init, &mut vh, &mut vy, 200, 500);
    assert_eq!(rep.len(), 3);
    assert_eq!(vh, 30);
}

#[test]
fn list_view_of_empty_model_is_empty() {
    let factory = Factory::new(10);
    let init = || factory.make();
    let mut model: VecModel<i32> = VecModel::from_vec(Vec::new());
    let mut rep: Repeater<Item> = Repeater::new();
    rep.set_model_binding(&mut model);
    let mut vh: u64 = 7;
    let mut vy: i64 = -3;
    rep.ensure_updated_listview(&mut model, &init, &mut vh, &mut vy, 200, 500);
    assert!(rep.is_empty());
    assert_eq!(vh, 0);
    assert_eq!(vy, 0);
}

#[test]
fn scrolled_list_view_starts_at_scrolled_row() {
    let factory = Factory::new(10);
    let init = || factory.make();
    let mut model: VecModel<i32> = VecModel::from_vec((0..100).collect());
    let mut rep: Repeater<Item> = Repeater::new();
    rep.set_model_binding(&mut model);
    let mut vh: u64 = 0;
    let mut vy: i64 = 0;
    rep.ensure_updated_listview(&mut model, &init, &mut vh, &mut vy, 200, 40);
    vy = -200;
    rep.ensure_updated_listview(&mut model, &init, &mut vh, &mut vy, 200, 40);
    assert_eq!(rep.first_row(), 20);
    assert_eq!(rep.len(), 4);
    assert_eq!(vy, -200);
    assert_eq!(vh, 1000);
}

#[test]
fn visit_stops_where_visitor_asks() {
    let factory = Factory::new(10);
    let init = || factory.make();
    let mut model: VecModel<i32> = VecModel::from_vec(vec![1, 2, 3]);
    let mut rep: Repeater<Item> = Repeater::new();
    rep.set_model_binding(&mut model);
    rep.ensure_updated(&mut model, &init);
    let stop_at_one = |c: &Item| c.id == 1;
    assert_eq!(rep.visit(TraversalOrder::BackToFront, &stop_at_one), VisitChildrenResult::Aborted(1));
    let never = |_c: &Item| false;
    assert_eq!(rep.visit(TraversalOrder::FrontToBack, &never), VisitChildrenResult::Continue);
    let first_seen = |c: &Item| c.id == 2 || c.id == 0;
    assert_eq!(rep.visit(TraversalOrder::FrontToBack, &first_seen), VisitChildrenResult::Aborted(2));
}

#[test]
fn default_repeater_is_empty_and_unbound() {
    let factory = Factory::new(10);
    let init = || factory.make();
    let mut model: VecModel<i32> = VecModel::from_vec(vec![1, 2]);
    let mut rep: Repeater<Item> = Repeater::default();
    assert!(rep.is_empty());
    assert_eq!(rep.slot_state(0), None);
    // Not bound: the model's changes never reach it.
    model.push(3);
    rep.sync(&mut model);
    assert!(rep.is_empty());
    rep.set_model_binding(&mut model);
    rep.ensure_updated(&mut model, &init);
    assert_eq!(rep.len(), 3);
}
