use heroes::hero::{Hero, NewHero};
use heroes::store::HeroTable;

#[test]
fn create_clark_kent_echoes_fields_and_lists_one_row() {
    let mut t = HeroTable::new();
    let echo = Hero::create(
        NewHero {
            name: "Clark Kent".to_owned(),
            identity: "Superman".to_owned(),
            hometown: "Smallville".to_owned(),
            age: 35,
        },
        &mut t,
    );
    assert_eq!(echo.name, "Clark Kent");
    assert_eq!(echo.identity, "Superman");
    assert_eq!(echo.hometown, "Smallville");
    assert_eq!(echo.age, 35);
    let all = Hero::read(&t);
    assert_eq!(all.len(), 1);
    assert_eq!(all[0].id, 1);
    assert_eq!(all[0].name, "Clark Kent");
    assert_eq!(all[0].identity, "Superman");
    assert_eq!(all[0].hometown, "Smallville");
    assert_eq!(all[0].age, 35);
}

#[test]
fn fetch_999_on_an_empty_table_fails() {
    let t = HeroTable::new();
    assert!(Hero::fetch(999, &t).is_none());
}

#[test]
fn two_creates_list_in_ascending_id_order() {
    let mut t = HeroTable::new();
    Hero::create(
        NewHero {
            name: "Zatanna".to_owned(),
            identity: "Zatanna".to_owned(),
            hometown: "San Francisco".to_owned(),
            age: 29,
        },
        &mut t,
    );
    Hero::create(
        NewHero {
            name: "Arthur".to_owned(),
            identity: "Aquaman".to_owned(),
            hometown: "Atlantis".to_owned(),
            age: 36,
        },
        &mut t,
    );
    let all = Hero::read(&t);
    assert_eq!(all.len(), 2);
    assert!(all[0].id < all[1].id);
    assert_eq!(all[0].id, 1);
    assert_eq!(all[0].name, "Zatanna");
    assert_eq!(all[1].id, 2);
    assert_eq!(all[1].name, "Arthur");
}
