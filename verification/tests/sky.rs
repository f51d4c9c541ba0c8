use stellar_guesser::sky::{category_active, first_colour, group_colour};

#[test]
fn new_categories_are_shown_and_remembered() {
    let mut active = vec![("faint stars".to_string(), false)];
    assert!(!category_active(&mut active, "faint stars"));
    assert_eq!(active.len(), 1);
    assert!(category_active(&mut active, "bright stars"));
    assert_eq!(active, vec![("faint stars".to_string(), false), ("bright stars".to_string(), true)]);
    assert!(category_active(&mut active, "bright stars"));
    assert_eq!(active.len(), 2);
}

#[test]
fn colours_come_from_theme_then_file_then_default() {
    let mut theme: Vec<(String, [u8; 4])> = vec![("constellations".to_string(), [1, 2, 3, 255])];
    assert_eq!(group_colour(&mut theme, "constellations", Some([9, 9, 9, 9]), [0, 0, 0, 255]), [1, 2, 3, 255]);
    assert_eq!(group_colour(&mut theme, "messier", Some([9, 9, 9, 9]), [0, 0, 0, 255]), [9, 9, 9, 9]);
    assert_eq!(group_colour(&mut theme, "ngc", None, [0, 0, 0, 255]), [0, 0, 0, 255]);
    assert_eq!(theme.len(), 3);
    // once chosen, the colour stays
    assert_eq!(group_colour(&mut theme, "messier", None, [5, 5, 5, 5]), [9, 9, 9, 9]);
    assert_eq!(theme.len(), 3);
}

#[test]
fn first_colour_of_a_file() {
    assert_eq!(first_colour::<u32>(&[]), None);
    assert_eq!(first_colour(&[None, Some(7u32), Some(8)]), Some(7));
    assert_eq!(first_colour::<u32>(&[None, None]), None);
}
