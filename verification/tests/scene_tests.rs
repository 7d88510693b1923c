use ready_paint::scene::Scene;
use ready_paint::store::get_res;
use ready_paint::store::return_res;
use ready_paint::store::ResourceStore;

const WORLD: u64 = 1;
const SHADOW: u64 = 2;
const SEEN: u64 = 3;

#[test]
fn scene_name_is_kept() {
    let sc: Scene<u64> = Scene::new(String::from("update_scene"));
    assert_eq!(sc.get_name(), "update_scene");
}

#[test]
fn ready_runs_once() {
    let mut sc: Scene<u64> = Scene::new(String::from("page"));
    sc.add_ready(WORLD, 0);
    sc.add_ready(SHADOW, 0);
    assert!(!sc.ready_done());
    let sched = sc.ready().expect("first ready pass");
    assert_eq!(sched, vec![WORLD, SHADOW]);
    assert!(sc.ready_done());
    // however many frames follow, the ready pass is never handed out again
    for _ in 0..5 {
        let _ = sc.paint();
        assert!(sc.ready().is_none());
    }
}

#[test]
fn ready_order_feeds_later_initializers() {
    let mut sc: Scene<u64> = Scene::new(String::from("page"));
    sc.add_ready(WORLD, 0);
    sc.add_ready(SHADOW, 0);
    let sched = sc.ready().expect("first ready pass");
    for key in sched {
        if key == WORLD {
            return_res(&mut sc.res, WORLD, 7);
        } else if key == SHADOW {
            // a later initializer may read a resource registered earlier
            let world = *get_res(&sc.res, WORLD);
            return_res(&mut sc.res, SHADOW, world + 1);
        }
    }
    assert_eq!(*get_res(&sc.res, WORLD), 7);
    assert_eq!(*get_res(&sc.res, SHADOW), 8);
}

fn run_paint_entries(sc: &mut Scene<u64>) {
    for key in sc.paint() {
        if key == WORLD {
            return_res(&mut sc.res, WORLD, 5);
        } else if key == SHADOW {
            let world = *get_res(&sc.res, WORLD);
            return_res(&mut sc.res, SEEN, world);
        }
    }
}

#[test]
fn paint_order_is_registration_order() {
    let mut sc: Scene<u64> = Scene::new(String::from("page"));
    sc.add_paint(WORLD);
    sc.add_paint(SHADOW);
    assert_eq!(sc.paint(), vec![WORLD, SHADOW]);
    // every frame gets the same order
    assert_eq!(sc.paint(), vec![WORLD, SHADOW]);
}

#[test]
fn earlier_entry_writes_are_visible_to_later_ones() {
    let mut sc: Scene<u64> = Scene::new(String::from("page"));
    sc.add_ready(WORLD, 0);
    sc.add_ready(SEEN, 0);
    sc.add_paint(WORLD);
    sc.add_paint(SHADOW);
    let _ = sc.ready();
    run_paint_entries(&mut sc);
    // the first entry wrote 5, and the second one observed it
    assert_eq!(*get_res(&sc.res, SEEN), 5);
}

#[test]
fn reversed_registration_reverses_visibility() {
    let mut sc: Scene<u64> = Scene::new(String::from("page"));
    sc.add_ready(WORLD, 0);
    sc.add_ready(SEEN, 0);
    sc.add_paint(SHADOW);
    sc.add_paint(WORLD);
    let _ = sc.ready();
    run_paint_entries(&mut sc);
    // the observer ran first and saw only the seed value
    assert_eq!(*get_res(&sc.res, SEEN), 0);
    assert_eq!(*get_res(&sc.res, WORLD), 5);
}

#[test]
fn add_ready_files_the_placeholder() {
    let mut sc: Scene<u64> = Scene::new(String::from("page"));
    sc.add_ready(WORLD, 99);
    assert_eq!(*get_res(&sc.res, WORLD), 99);
}
