use heroes::hero::{Hero, NewHero};
use heroes::store::HeroTable;

fn payload(name: &str, identity: &str, hometown: &str, age: i32) -> NewHero {
    NewHero {
        name: name.to_owned(),
        identity: identity.to_owned(),
        hometown: hometown.to_owned(),
        age,
    }
}

#[test]
fn create_then_fetch_returns_payload() {
    let mut t = HeroTable::new();
    let assigned = t.next_id();
    Hero::create(payload("Diana", "Wonder Woman", "Themyscira", 28), &mut t);
    let h = Hero::fetch(assigned, &t).expect("created row must be found");
    assert_eq!(h.id, assigned);
    assert_eq!(h.name, "Diana");
    assert_eq!(h.identity, "Wonder Woman");
    assert_eq!(h.hometown, "Themyscira");
    assert_eq!(h.age, 28);
}

#[test]
fn create_echoes_payload_without_id() {
    let mut t = HeroTable::new();
    let echo = Hero::create(payload("Bruce", "Batman", "Gotham", 40), &mut t);
    assert_eq!(echo.name, "Bruce");
    assert_eq!(echo.identity, "Batman");
    assert_eq!(echo.hometown, "Gotham");
    assert_eq!(echo.age, 40);
}

#[test]
fn delete_then_fetch_is_not_found() {
    let mut t = HeroTable::new();
    Hero::create(payload("Barry", "Flash", "Central City", 27), &mut t);
    assert!(Hero::fetch(1, &t).is_some());
    assert!(Hero::delete(1, &mut t));
    assert!(Hero::fetch(1, &t).is_none());
}

#[test]
fn update_then_fetch_is_a_full_overwrite() {
    let mut t = HeroTable::new();
    Hero::create(payload("Hal", "Green Lantern", "Coast City", 33), &mut t);
    assert!(Hero::update(1, payload("Arthur", "Aquaman", "Atlantis", 36), &mut t));
    let h = Hero::fetch(1, &t).expect("updated row must still be found");
    assert_eq!(h.id, 1);
    assert_eq!(h.name, "Arthur");
    assert_eq!(h.identity, "Aquaman");
    assert_eq!(h.hometown, "Atlantis");
    assert_eq!(h.age, 36);
}

#[test]
fn update_on_missing_id_reports_true() {
    let mut t = HeroTable::new();
    assert!(Hero::update(42, payload("Nobody", "No One", "Nowhere", 0), &mut t));
    assert!(Hero::fetch(42, &t).is_none());
    assert_eq!(Hero::read(&t).len(), 0);
}

#[test]
fn delete_on_missing_id_reports_true() {
    let mut t = HeroTable::new();
    Hero::create(payload("Oliver", "Green Arrow", "Star City", 31), &mut t);
    assert!(Hero::delete(42, &mut t));
    assert_eq!(Hero::read(&t).len(), 1);
}

#[test]
fn update_leaves_other_rows_unchanged() {
    let mut t = HeroTable::new();
    Hero::create(payload("Hal", "Green Lantern", "Coast City", 33), &mut t);
    Hero::create(payload("Barry", "Flash", "Central City", 27), &mut t);
    assert!(Hero::update(1, payload("John", "Green Lantern", "Detroit", 30), &mut t));
    let untouched = Hero::fetch(2, &t).expect("other row must remain");
    assert_eq!(untouched.name, "Barry");
    assert_eq!(untouched.identity, "Flash");
    assert_eq!(untouched.hometown, "Central City");
    assert_eq!(untouched.age, 27);
}

#[test]
fn delete_removes_only_the_matching_row() {
    let mut t = HeroTable::new();
    Hero::create(payload("Hal", "Green Lantern", "Coast City", 33), &mut t);
    Hero::create(payload("Barry", "Flash", "Central City", 27), &mut t);
    Hero::create(payload("Diana", "Wonder Woman", "Themyscira", 28), &mut t);
    assert!(Hero::delete(2, &mut t));
    let all = Hero::read(&t);
    assert_eq!(all.len(), 2);
    assert_eq!(all[0].id, 1);
    assert_eq!(all[0].name, "Hal");
    assert_eq!(all[1].id, 3);
    assert_eq!(all[1].name, "Diana");
}

#[test]
fn deleted_ids_are_never_reassigned() {
    let mut t = HeroTable::new();
    Hero::create(payload("Hal", "Green Lantern", "Coast City", 33), &mut t);
    assert!(Hero::delete(1, &mut t));
    Hero::create(payload("Barry", "Flash", "Central City", 27), &mut t);
    let all = Hero::read(&t);
    assert_eq!(all.len(), 1);
    assert_eq!(all[0].id, 2);
    assert!(Hero::fetch(1, &t).is_none());
}

#[test]
fn read_on_an_empty_table_is_empty() {
    let t = HeroTable::new();
    assert!(Hero::read(&t).is_empty());
}
