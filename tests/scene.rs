use beetle_wander::scene::{Scene, START};
use beetle_wander::target::{INSET, SCREEN_HEIGHT, SCREEN_WIDTH};
use wyrand::WyRand;

#[test]
fn frame_walks_then_respawns() {
    let mut rng = WyRand::new(7);
    let mut scene = Scene::new((16, 16), (19, 17));
    assert_eq!(scene.frame(&mut rng), Some((17, 16)));
    assert_eq!(scene.frame(&mut rng), Some((18, 16)));
    assert_eq!(scene.frame(&mut rng), Some((19, 17)));
    assert_eq!(scene.frame(&mut rng), None);
    assert_eq!(scene.position, (19, 17));
    let t = scene.target;
    assert!(t.0 >= INSET && t.0 < SCREEN_WIDTH - INSET);
    assert!(t.1 >= INSET && t.1 < SCREEN_HEIGHT - INSET);
}

#[test]
fn respawn_starts_from_old_target() {
    let mut scene = Scene::new((16, 16), (30, 20));
    scene.respawn((30, 22));
    assert_eq!(scene.position, (30, 20));
    assert_eq!(scene.target, (30, 22));
    assert_eq!(scene.wanderer.next(), Some((30, 21)));
    assert_eq!(scene.wanderer.next(), Some((30, 22)));
    assert_eq!(scene.wanderer.next(), None);
}

#[test]
fn start_stands_in_corner() {
    let mut rng = WyRand::new(3);
    let scene = Scene::start(&mut rng);
    assert_eq!(scene.position, START);
    assert_eq!(START, (16, 16));
}

#[test]
fn same_target_respawns_immediately() {
    let mut rng = WyRand::new(11);
    let mut scene = Scene::new((16, 16), (16, 16));
    assert_eq!(scene.frame(&mut rng), None);
    assert_eq!(scene.position, (16, 16));
}
