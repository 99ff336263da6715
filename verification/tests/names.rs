use poker::ai::name::Name;

#[test]
fn test_assign_skill() {
    let name = Name::John;
    assert_eq!(name.assign_skill(), 75);
}

#[test]
fn test_name_display() {
    let name = Name::John;
    assert_eq!(name.to_string(), "John");
}

#[test]
fn test_name_iter() {
    let mut names: Vec<Name> = Vec::new();
    for name in Name::iter() {
        names.push(name);
    }
    assert_eq!(names.len(), 4);
}

#[test]
fn test_name_iter_count() {
    assert_eq!(Name::iter().count(), 4);
}

#[test]
fn every_name_has_its_skill_and_text() {
    assert_eq!(Name::Charles.assign_skill(), 100);
    assert_eq!(Name::Ted.assign_skill(), 25);
    assert_eq!(Name::Jeffery.assign_skill(), 0);
    assert_eq!(Name::Charles.to_string(), "Charles");
    assert_eq!(Name::Ted.to_string(), "Ted");
    assert_eq!(Name::Jeffery.to_string(), "Jeffery");
}

#[test]
fn names_come_in_declaration_order() {
    assert_eq!(
        Name::all(),
        vec![Name::Charles, Name::John, Name::Ted, Name::Jeffery]
    );
    let walked: Vec<Name> = Name::iter().collect();
    assert_eq!(walked, Name::all());
}

#[test]
fn default_name_is_john() {
    assert_eq!(Name::default(), Name::John);
    assert!(Name::John == Name::John);
    assert!(Name::John != Name::Ted);
}

#[test]
fn random_names_are_as_many_as_asked_and_distinct() {
    for amount in 0u8..=4 {
        let names = Name::get_random(amount).unwrap();
        assert_eq!(names.len(), amount as usize);
        for i in 0..names.len() {
            for j in 0..i {
                assert_ne!(names[i], names[j]);
            }
        }
    }
}

#[test]
fn random_names_never_exceed_the_four() {
    let names = Name::get_random(9).unwrap();
    assert_eq!(names.len(), 4);
    for name in Name::all() {
        assert!(names.contains(&name));
    }
}
