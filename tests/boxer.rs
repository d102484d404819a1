use boxrec_tool::boxer::{split_name, Boxer};

#[test]
fn name_splits_at_first_space() {
    let (f, s) = split_name("Floyd Mayweather").unwrap();
    assert_eq!(f, "Floyd");
    assert_eq!(s, "Mayweather");
}

#[test]
fn name_without_space_is_malformed() {
    let e = split_name("Prince").unwrap_err();
    assert_eq!(e.name, "Prince");
}

#[test]
fn surname_keeps_later_words_and_loses_white_space() {
    let (f, s) = split_name("Oscar  De La Hoya \t").unwrap();
    assert_eq!(f, "Oscar");
    assert_eq!(s, "De La Hoya");
    let (f, s) = split_name(" Prince").unwrap();
    assert_eq!(f, "");
    assert_eq!(s, "Prince");
}

#[test]
fn full_name_joins_with_a_space() {
    let b = Boxer { id: 352, forename: String::from("Floyd"), surname: String::from("Mayweather") };
    assert_eq!(b.get_name(), "Floyd Mayweather");
}

#[test]
fn fighters_equal_by_id() {
    let a = Boxer { id: 7, forename: String::from("A"), surname: String::from("B") };
    let b = Boxer { id: 7, forename: String::from("C"), surname: String::from("D") };
    let c = Boxer { id: 8, forename: String::from("A"), surname: String::from("B") };
    assert!(a == b);
    assert!(a != c);
}

#[test]
fn fighter_from_page_title() {
    let page = "<html><head><title>BoxRec: Floyd Mayweather</title></head><body></body></html>";
    let b = Boxer::new_by_id(page, 352).unwrap();
    assert_eq!(b.id, 352);
    assert_eq!(b.forename, "Floyd");
    assert_eq!(b.surname, "Mayweather");
    let other = "<html><head><title>Login</title></head><body></body></html>";
    assert!(Boxer::new_by_id(other, 352).is_none());
    let single = "<html><head><title>BoxRec: Prince</title></head><body></body></html>";
    assert!(Boxer::new_by_id(single, 1).is_none());
}

#[test]
fn fighter_from_titles() {
    let titles = vec![String::from("Other"), String::from("BoxRec: Manny Pacquiao"), String::from("BoxRec: X Y")];
    let b = Boxer::from_titles(&titles, 6129).unwrap();
    assert_eq!(b.id, 6129);
    assert_eq!(b.forename, "Manny");
    assert_eq!(b.surname, "Pacquiao");
    assert!(Boxer::from_titles(&vec![String::from("BoxRec:Manny")], 1).is_none());
}

#[test]
fn name_splits_at_any_white_space() {
    let (f, s) = split_name("Floyd\tMayweather").unwrap();
    assert_eq!(f, "Floyd");
    assert_eq!(s, "Mayweather");
    let (f, s) = split_name("Manny\u{a0}Pacquiao").unwrap();
    assert_eq!(f, "Manny");
    assert_eq!(s, "Pacquiao");
}
