use gym_membership::model::{Error, GymPayload, GymRegistrationPayload, GymServicePayload};
use gym_membership::model::Gym;
use gym_membership::service::Storage;
use gym_membership::store::record_fits;

fn gym_payload(name: &str, location: &str, banner: &str) -> GymPayload {
    GymPayload {
        gym_name: name.to_string(),
        gym_location: location.to_string(),
        gym_banner: banner.to_string(),
    }
}

fn registration(user: &str) -> GymRegistrationPayload {
    GymRegistrationPayload { user_name: user.to_string() }
}

fn service(name: &str, description: &str) -> GymServicePayload {
    GymServicePayload {
        service_name: name.to_string(),
        service_description: description.to_string(),
    }
}

fn storage() -> Storage {
    Storage::new().expect("a fresh memory holds no cell")
}

#[test]
fn membership_and_services_scenario() {
    let mut s = storage();
    let a = "A".to_string();
    let b = "B".to_string();
    let gym = s.create_gym(&a, 100, gym_payload("Iron Gym", "Lagos", "banner.png")).ok().unwrap();
    assert_eq!(gym.id, 1);
    assert_eq!(gym.owner, "A");

    let gym = s.register_for_a_gym(&b, 101, 1, registration("Bob")).ok().unwrap();
    assert_eq!(gym.members.len(), 1);
    assert_eq!(gym.members[0].owner, "B");
    assert_eq!(gym.members[0].user_name, "Bob");

    let again = s.register_for_a_gym(&b, 102, 1, registration("Bob"));
    assert!(matches!(again, Err(Error::AlreadyMember { .. })));
    assert_eq!(s.get_gym(1).ok().unwrap().members.len(), 1);

    let gym = s.add_gym_service(&a, 103, 1, service("Yoga", "Morning yoga class")).ok().unwrap();
    assert_eq!(gym.gym_services.len(), 1);
    assert_eq!(gym.gym_services[0].service_name, "Yoga");

    let refused = s.add_gym_service(&b, 104, 1, service("Yoga", "Morning yoga class"));
    assert!(matches!(refused, Err(Error::NotAuthorized { .. })));

    let removed = s.delete_gym(&a, 1).ok().unwrap();
    assert_eq!(removed.id, 1);
    assert!(matches!(s.get_gym(1), Err(Error::NotFound { .. })));
}

#[test]
fn created_ids_rise_strictly() {
    let mut s = storage();
    let a = "A".to_string();
    let mut last = 0u64;
    for n in 0..5 {
        let g = s.create_gym(&a, n, gym_payload("Gym", "Abuja", "b.png")).ok().unwrap();
        assert!(g.id > last);
        last = g.id;
    }
    assert_eq!(last, 5);
    assert_eq!(s.last_id(), 5);
}

#[test]
fn deleted_id_is_not_issued_again() {
    let mut s = storage();
    let a = "A".to_string();
    s.create_gym(&a, 1, gym_payload("One", "Kano", "b")).ok().unwrap();
    s.delete_gym(&a, 1).ok().unwrap();
    let g = s.create_gym(&a, 2, gym_payload("Two", "Kano", "b")).ok().unwrap();
    assert_eq!(g.id, 2);
}

#[test]
fn owner_survives_every_operation() {
    let mut s = storage();
    let a = "A".to_string();
    let b = "B".to_string();
    s.create_gym(&a, 1, gym_payload("Iron Gym", "Lagos", "banner.png")).ok().unwrap();
    s.register_for_a_gym(&b, 2, 1, registration("Bob")).ok().unwrap();
    s.add_gym_service(&a, 3, 1, service("Boxing", "Evening boxing class")).ok().unwrap();
    let g = s.update_gym(&a, 4, 1, gym_payload("Steel Gym", "Ikeja", "new.png")).ok().unwrap();
    assert_eq!(g.owner, "A");
    assert_eq!(s.get_gym(1).ok().unwrap().owner, "A");
}

#[test]
fn reading_twice_gives_the_same_gym() {
    let mut s = storage();
    let a = "A".to_string();
    s.create_gym(&a, 7, gym_payload("Iron Gym", "Lagos", "banner.png")).ok().unwrap();
    let g1 = s.get_gym(1).ok().unwrap();
    let g2 = s.get_gym(1).ok().unwrap();
    assert_eq!(g1.id, g2.id);
    assert_eq!(g1.gym_name, g2.gym_name);
    assert_eq!(g1.owner, g2.owner);
    assert_eq!(g1.created_at, g2.created_at);
    assert_eq!(g1.members.len(), g2.members.len());
    assert!(matches!(s.get_gym(9), Err(Error::NotFound { .. })));
    assert!(matches!(s.get_gym(9), Err(Error::NotFound { .. })));
}

#[test]
fn non_owner_is_refused_and_nothing_changes() {
    let mut s = storage();
    let a = "A".to_string();
    let b = "B".to_string();
    s.create_gym(&a, 1, gym_payload("Iron Gym", "Lagos", "banner.png")).ok().unwrap();
    let u = s.update_gym(&b, 2, 1, gym_payload("Stolen", "Accra", "x.png"));
    assert!(matches!(u, Err(Error::NotAuthorized { .. })));
    let d = s.delete_gym(&b, 1);
    assert!(matches!(d, Err(Error::NotAuthorized { .. })));
    let v = s.add_gym_service(&b, 3, 1, service("Spin", "Spinning for beginners"));
    assert!(matches!(v, Err(Error::NotAuthorized { .. })));
    let g = s.get_gym(1).ok().unwrap();
    assert_eq!(g.gym_name, "Iron Gym");
    assert_eq!(g.gym_location, "Lagos");
    assert_eq!(g.gym_services.len(), 0);
    assert_eq!(g.updated_at, None);
}

#[test]
fn empty_name_is_refused_and_counter_stays() {
    let mut s = storage();
    let a = "A".to_string();
    let r = s.create_gym(&a, 1, gym_payload("", "Lagos", "banner.png"));
    assert!(matches!(r, Err(Error::PayloadInvalid { .. })));
    assert_eq!(s.last_id(), 0);
    assert!(matches!(s.get_all_gyms(), Err(Error::NotFound { .. })));
    let g = s.create_gym(&a, 2, gym_payload("Iron Gym", "Lagos", "banner.png")).ok().unwrap();
    assert_eq!(g.id, 1);
}

#[test]
fn lengths_are_counted_in_characters() {
    let mut s = storage();
    let a = "A".to_string();
    // one character of two bytes is still too short for a location
    let r = s.create_gym(&a, 1, gym_payload("Gym", "é", "b"));
    assert!(matches!(r, Err(Error::PayloadInvalid { .. })));
    let r = s.create_gym(&a, 1, gym_payload("Gym", "L", "b"));
    assert!(matches!(r, Err(Error::PayloadInvalid { .. })));
    let g = s.create_gym(&a, 1, gym_payload("G", "Lé", "b")).ok().unwrap();
    assert_eq!(g.gym_location, "Lé");
    let r = s.create_gym(&a, 1, gym_payload("Gym", "Lagos", ""));
    assert!(matches!(r, Err(Error::PayloadInvalid { .. })));
}

#[test]
fn service_description_needs_ten_characters() {
    let mut s = storage();
    let a = "A".to_string();
    s.create_gym(&a, 1, gym_payload("Iron Gym", "Lagos", "banner.png")).ok().unwrap();
    let r = s.add_gym_service(&a, 2, 1, service("Yoga", "123456789"));
    assert!(matches!(r, Err(Error::PayloadInvalid { .. })));
    let r = s.add_gym_service(&a, 2, 1, service("", "1234567890"));
    assert!(matches!(r, Err(Error::PayloadInvalid { .. })));
    let g = s.add_gym_service(&a, 2, 1, service("Yoga", "1234567890")).ok().unwrap();
    assert_eq!(g.gym_services[0].service_description, "1234567890");
    assert_eq!(g.gym_services[0].created_at, 2);
    assert_eq!(g.gym_services[0].updated_at, None);
}

#[test]
fn empty_user_name_is_refused() {
    let mut s = storage();
    let a = "A".to_string();
    s.create_gym(&a, 1, gym_payload("Iron Gym", "Lagos", "banner.png")).ok().unwrap();
    let r = s.register_for_a_gym(&a, 2, 1, registration(""));
    assert!(matches!(r, Err(Error::PayloadInvalid { .. })));
    assert_eq!(s.get_gym(1).ok().unwrap().members.len(), 0);
}

#[test]
fn register_on_missing_gym_is_not_found() {
    let mut s = storage();
    let b = "B".to_string();
    let r = s.register_for_a_gym(&b, 2, 3, registration("Bob"));
    assert!(matches!(r, Err(Error::NotFound { .. })));
}

#[test]
fn validation_precedes_lookup_when_adding_a_service() {
    let mut s = storage();
    let a = "A".to_string();
    let r = s.add_gym_service(&a, 2, 4, service("Yoga", "short"));
    assert!(matches!(r, Err(Error::PayloadInvalid { .. })));
    let r = s.add_gym_service(&a, 2, 4, service("Yoga", "long enough text"));
    assert!(matches!(r, Err(Error::NotFound { .. })));
}

#[test]
fn lookup_precedes_validation_when_updating() {
    let mut s = storage();
    let a = "A".to_string();
    let b = "B".to_string();
    let r = s.update_gym(&a, 2, 4, gym_payload("", "", ""));
    assert!(matches!(r, Err(Error::NotFound { .. })));
    s.create_gym(&a, 1, gym_payload("Iron Gym", "Lagos", "banner.png")).ok().unwrap();
    let r = s.update_gym(&b, 2, 1, gym_payload("", "", ""));
    assert!(matches!(r, Err(Error::PayloadInvalid { .. })));
}

#[test]
fn update_replaces_details_and_stamps_time() {
    let mut s = storage();
    let a = "A".to_string();
    s.create_gym(&a, 10, gym_payload("Iron Gym", "Lagos", "banner.png")).ok().unwrap();
    let g = s.update_gym(&a, 20, 1, gym_payload("Steel Gym", "Ikeja", "new.png")).ok().unwrap();
    assert_eq!(g.gym_name, "Steel Gym");
    assert_eq!(g.gym_location, "Ikeja");
    assert_eq!(g.gym_banner, "new.png");
    assert_eq!(g.created_at, 10);
    assert_eq!(g.updated_at, Some(20));
    let stored = s.get_gym(1).ok().unwrap();
    assert_eq!(stored.gym_name, "Steel Gym");
    assert_eq!(stored.updated_at, Some(20));
}

#[test]
fn delete_of_missing_gym_is_not_found() {
    let mut s = storage();
    let a = "A".to_string();
    assert!(matches!(s.delete_gym(&a, 1), Err(Error::NotFound { .. })));
}

#[test]
fn all_gyms_come_in_id_order() {
    let mut s = storage();
    let a = "A".to_string();
    assert!(matches!(s.get_all_gyms(), Err(Error::NotFound { .. })));
    for name in ["First", "Second", "Third"] {
        s.create_gym(&a, 1, gym_payload(name, "Lagos", "b")).ok().unwrap();
    }
    s.delete_gym(&a, 2).ok().unwrap();
    let all = s.get_all_gyms().ok().unwrap();
    assert_eq!(all.len(), 2);
    assert_eq!(all[0].id, 1);
    assert_eq!(all[0].gym_name, "First");
    assert_eq!(all[1].id, 3);
    assert_eq!(all[1].gym_name, "Third");
}

#[test]
fn helpers_insert_and_read_back() {
    let mut s = storage();
    let a = "A".to_string();
    let mut g = s.create_gym(&a, 1, gym_payload("Iron Gym", "Lagos", "banner.png")).ok().unwrap();
    g.gym_banner = "other.png".to_string();
    s.do_insert(&g);
    assert_eq!(s._get_gym(&1).unwrap().gym_banner, "other.png");
    assert!(s._get_gym(&2).is_none());
}

#[test]
fn oversized_gym_is_refused_and_counter_stays() {
    let mut s = storage();
    let a = "A".to_string();
    let long = "x".repeat(1100);
    let r = s.create_gym(&a, 1, gym_payload(&long, "Lagos", "b"));
    assert!(matches!(r, Err(Error::RecordTooLarge { .. })));
    assert_eq!(s.last_id(), 0);
    let g = s.create_gym(&a, 1, gym_payload("Iron Gym", "Lagos", "b")).ok().unwrap();
    assert_eq!(g.id, 1);
}

#[test]
fn membership_stops_growing_at_the_entry_size() {
    let mut s = storage();
    let a = "A".to_string();
    s.create_gym(&a, 1, gym_payload("Iron Gym", "Lagos", "b")).ok().unwrap();
    let mut accepted = 0usize;
    let mut refused = false;
    for n in 0..100 {
        let who = format!("caller-{}", n);
        match s.register_for_a_gym(&who, 2, 1, registration("member")) {
            Ok(g) => {
                accepted += 1;
                assert_eq!(g.members.len(), accepted);
            }
            Err(Error::RecordTooLarge { .. }) => {
                refused = true;
                break;
            }
            Err(_) => panic!("unexpected error"),
        }
    }
    assert!(refused);
    assert!(accepted > 0);
    assert_eq!(s.get_gym(1).ok().unwrap().members.len(), accepted);
}

#[test]
fn unicode_text_survives_storage() {
    let mut s = storage();
    let a = "Ọ̀ṣun".to_string();
    s.create_gym(&a, 1, gym_payload("Gym Ọ̀yọ́ 💪", "Ìbàdàn", "ban.png")).ok().unwrap();
    s.add_gym_service(&a, 5, 1, service("Yoga ☀", "Morning yoga — outdoors")).ok().unwrap();
    let g = s.get_gym(1).ok().unwrap();
    assert_eq!(g.gym_name, "Gym Ọ̀yọ́ 💪");
    assert_eq!(g.gym_location, "Ìbàdàn");
    assert_eq!(g.owner, "Ọ̀ṣun");
    assert_eq!(g.gym_services[0].service_name, "Yoga ☀");
    assert_eq!(g.gym_services[0].service_description, "Morning yoga — outdoors");
    assert_eq!(g.gym_services[0].created_at, 5);
}

#[test]
fn large_numbers_survive_storage() {
    let mut s = storage();
    let a = "A".to_string();
    let now = u64::MAX - 3;
    s.create_gym(&a, now, gym_payload("Iron Gym", "Lagos", "b")).ok().unwrap();
    let g = s.update_gym(&a, 0x0102_0304_0506_0708, 1, gym_payload("Iron", "Lagos", "c")).ok().unwrap();
    assert_eq!(g.created_at, now);
    let stored = s.get_gym(1).ok().unwrap();
    assert_eq!(stored.created_at, now);
    assert_eq!(stored.updated_at, Some(0x0102_0304_0506_0708));
}

#[test]
fn record_size_check_counts_encoded_bytes() {
    let mut g = Gym {
        id: 1,
        gym_name: "n".to_string(),
        members: Vec::new(),
        owner: "o".to_string(),
        gym_location: "lo".to_string(),
        gym_services: Vec::new(),
        gym_banner: "b".to_string(),
        created_at: 0,
        updated_at: None,
    };
    assert!(record_fits(&g));
    // eight integers, counts and string lengths of eight bytes and one
    // option tag make 65 bytes; owner, location and banner add 4 more, which
    // leaves 955 bytes for the name
    g.gym_name = "n".repeat(955);
    assert!(record_fits(&g));
    g.gym_name = "n".repeat(956);
    assert!(!record_fits(&g));
    // a two-byte character counts twice
    g.gym_name = "é".repeat(477);
    assert!(record_fits(&g));
    g.gym_name = "é".repeat(478);
    assert!(!record_fits(&g));
}
