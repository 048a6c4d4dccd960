use evert::{
    geometry_open, grid_divisions, mesh_header_bytes, scheduled_operation, Config, EasyAtomic,
    Setting, STO,
};

#[test]
fn zero_span_still_has_one_interval() {
    assert_eq!(grid_divisions(0), 1);
    assert_eq!(grid_divisions(-5), 1);
    assert_eq!(grid_divisions(1), 1);
    assert_eq!(grid_divisions(12), 12);
}

#[test]
fn schedule_picks_latest_started_window() {
    assert_eq!(scheduled_operation(&[false; 5]), None);
    assert_eq!(scheduled_operation(&[true, false, false, false, false]), Some((0, STO::Corrugate)));
    assert_eq!(scheduled_operation(&[true, true, false, false, false]), Some((1, STO::PushThrough)));
    assert_eq!(scheduled_operation(&[true, true, true, false, false]), Some((2, STO::Twist)));
    assert_eq!(scheduled_operation(&[true, false, false, true, false]), Some((3, STO::UnPush)));
    assert_eq!(scheduled_operation(&[true; 5]), Some((4, STO::UnCorrugate)));
}

#[test]
fn geometry_headers() {
    assert_eq!(geometry_open(false, false), "{ NMESH");
    assert_eq!(geometry_open(false, true), "{ NMESH BINARY");
    assert_eq!(geometry_open(true, false), "{ STBBP");
    assert_eq!(geometry_open(true, true), "{ STBBP BINARY");
}

#[test]
fn binary_mesh_header_is_big_endian() {
    assert_eq!(mesh_header_bytes(3, 3), vec![0, 0, 0, 3, 0, 0, 0, 3]);
    assert_eq!(mesh_header_bytes(0x01020304, 258), vec![1, 2, 3, 4, 0, 0, 1, 2]);
    assert_eq!(mesh_header_bytes(-1, i32::MIN), vec![255, 255, 255, 255, 128, 0, 0, 0]);
}

#[test]
fn settings_hold_what_was_set() {
    let mut config = Config::new(8, false, false);
    assert_eq!(config.n_strips.get(), 8);
    config.n_strips.set(6);
    config.binary.set(true);
    assert_eq!(config.n_strips.get(), 6);
    assert!(config.binary.get());
    assert!(!config.bezier.get());
    let flag = Setting::new(true);
    assert!(flag.get());
}
