use micromouse_wasm::resources::{ResourceSet, Slot};

type Handles = ResourceSet<&'static str, &'static str, &'static str, &'static str, &'static str>;

fn full() -> Handles {
    ResourceSet::new()
        .left_encoder("le")
        .right_encoder("re")
        .imu("imu")
        .left_motor("lm")
        .right_motor("rm")
        .distance_sensors(vec!["front", "left", "right"])
        .wall_manager("walls")
}

#[test]
fn complete_set_builds() {
    let set = full().build().unwrap();
    assert_eq!(set.get_left_encoder(), Some(&"le"));
    assert_eq!(set.get_right_encoder(), Some(&"re"));
    assert_eq!(set.get_imu(), Some(&"imu"));
    assert_eq!(set.get_left_motor(), Some(&"lm"));
    assert_eq!(set.get_right_motor(), Some(&"rm"));
    assert_eq!(set.get_wall_manager(), Some(&"walls"));
    assert_eq!(set.get_distance_sensor(0), Some(&"front"));
    assert_eq!(set.get_distance_sensor(2), Some(&"right"));
    assert_eq!(set.get_distance_sensor(3), None);
}

#[test]
fn empty_set_misses_left_encoder_first() {
    assert_eq!(Handles::new().build().err(), Some(Slot::LeftEncoder));
}

#[test]
fn each_missing_slot_is_named() {
    let s = Handles::new().left_encoder("le");
    assert_eq!(s.build().err(), Some(Slot::RightEncoder));
    let s = Handles::new().left_encoder("le").right_encoder("re");
    assert_eq!(s.build().err(), Some(Slot::Imu));
    let s = Handles::new().left_encoder("le").right_encoder("re").imu("i");
    assert_eq!(s.build().err(), Some(Slot::LeftMotor));
    let s = Handles::new().left_encoder("le").right_encoder("re").imu("i").left_motor("lm");
    assert_eq!(s.build().err(), Some(Slot::RightMotor));
    let s = Handles::new()
        .left_encoder("le")
        .right_encoder("re")
        .imu("i")
        .left_motor("lm")
        .right_motor("rm");
    assert_eq!(s.build().err(), Some(Slot::DistanceSensors));
    let s = Handles::new()
        .left_encoder("le")
        .right_encoder("re")
        .imu("i")
        .left_motor("lm")
        .right_motor("rm")
        .distance_sensors(vec!["f"]);
    assert_eq!(s.build().err(), Some(Slot::WallManager));
}

#[test]
fn setter_overwrites() {
    let s = full().imu("second");
    assert_eq!(s.get_imu(), Some(&"second"));
}

#[test]
fn merge_of_disjoint_halves_is_complete() {
    let a = Handles::new().left_encoder("le").imu("imu").right_motor("rm");
    let b = Handles::new()
        .right_encoder("re")
        .left_motor("lm")
        .distance_sensors(vec!["front", "left", "right"])
        .wall_manager("walls");
    let m = a.merge(b).build().unwrap();
    assert_eq!(m.get_left_encoder(), Some(&"le"));
    assert_eq!(m.get_right_encoder(), Some(&"re"));
    assert_eq!(m.get_imu(), Some(&"imu"));
    assert_eq!(m.get_left_motor(), Some(&"lm"));
    assert_eq!(m.get_right_motor(), Some(&"rm"));
    assert_eq!(m.get_distance_sensor(1), Some(&"left"));
    assert_eq!(m.get_wall_manager(), Some(&"walls"));
}

fn halves() -> (Handles, Handles) {
    let a = Handles::new().left_encoder("le").distance_sensors(vec!["front"]);
    let b = Handles::new().right_encoder("re").wall_manager("walls");
    (a, b)
}

#[test]
fn merge_does_not_depend_on_operand_order() {
    let (a, b) = halves();
    let ab = a.merge(b);
    let (a, b) = halves();
    let ba = b.merge(a);
    assert_eq!(ab.get_left_encoder(), ba.get_left_encoder());
    assert_eq!(ab.get_right_encoder(), ba.get_right_encoder());
    assert_eq!(ab.get_imu(), ba.get_imu());
    assert_eq!(ab.get_wall_manager(), ba.get_wall_manager());
    assert_eq!(ab.get_distance_sensor(0), ba.get_distance_sensor(0));
    assert_eq!(ab.get_distance_sensor(0), Some(&"front"));
}

#[test]
fn merge_with_empty_keeps_everything() {
    let m = Handles::new().merge(full()).build().unwrap();
    assert_eq!(m.get_distance_sensor(2), Some(&"right"));
    assert_eq!(m.get_wall_manager(), Some(&"walls"));
}

#[test]
fn overlapping_sets_are_not_disjoint() {
    let (a, b) = halves();
    assert!(a.is_disjoint(&b));
    assert!(b.is_disjoint(&a));
    let c = Handles::new().left_encoder("other");
    assert!(!a.is_disjoint(&c));
    let d = Handles::new().distance_sensors(vec!["other"]);
    assert!(!a.is_disjoint(&d));
    let e = Handles::new().distance_sensors(vec![]);
    assert!(a.is_disjoint(&e));
    assert!(!full().is_disjoint(&full()));
    assert!(Handles::new().is_disjoint(&full()));
}
