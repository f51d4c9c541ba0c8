use stellar_guesser::names::{generate_name_combinations, SpecificName};

#[test]
fn name_combinations() {
    let input = "1{ 2}{ 3}";
    let combinations = generate_name_combinations(input, SpecificName::AllCombinations).unwrap();
    assert_eq!(combinations, vec![String::from("1"), String::from("1 2"), String::from("1 3"), String::from("1 2 3")]);

    let input = "1{ 2}{ 3}";
    let combinations = generate_name_combinations(input, SpecificName::NoOptional).unwrap();
    assert_eq!(combinations, vec![String::from("1")]);

    let input = "1{ 2}{ 3}";
    let combinations = generate_name_combinations(input, SpecificName::AllOptional).unwrap();
    assert_eq!(combinations, vec![String::from("1 2 3")]);

    let input = "{Optional starting text }Some text{ inner text}{ more} ending text";
    let combinations = generate_name_combinations(input, SpecificName::AllCombinations).unwrap();
    assert_eq!(
        combinations,
        vec![
            String::from("Some text ending text"),
            String::from("Optional starting text Some text ending text"),
            String::from("Some text inner text ending text"),
            String::from("Optional starting text Some text inner text ending text"),
            String::from("Some text more ending text"),
            String::from("Optional starting text Some text more ending text"),
            String::from("Some text inner text more ending text"),
            String::from("Optional starting text Some text inner text more ending text"),
        ]
    );

    let input = "{Optional starting text }Some text{ inner text}{ more} ending text";
    let combinations = generate_name_combinations(input, SpecificName::NoOptional).unwrap();
    assert_eq!(combinations, vec![String::from("Some text ending text"),]);

    let input = "{Optional starting text }Some text{ inner text}{ more} ending text";
    let combinations = generate_name_combinations(input, SpecificName::AllOptional).unwrap();
    assert_eq!(combinations, vec![String::from("Optional starting text Some text inner text more ending text"),]);
}

#[test]
fn name_without_optional_parts_is_itself_trimmed() {
    assert_eq!(generate_name_combinations("  Vega ", SpecificName::AllCombinations).unwrap(), vec![String::from("Vega")]);
    assert_eq!(generate_name_combinations("", SpecificName::AllCombinations).unwrap(), vec![String::new()]);
}

#[test]
fn empty_braces_are_not_optional_parts() {
    // the pattern needs at least one character inside the braces
    assert_eq!(generate_name_combinations("a{}b", SpecificName::AllCombinations).unwrap(), vec![String::from("a{}b")]);
}

#[test]
fn first_and_last_variants_are_the_extremes() {
    let all = generate_name_combinations("α{ 1} Cen{ A}", SpecificName::AllCombinations).unwrap();
    let none = generate_name_combinations("α{ 1} Cen{ A}", SpecificName::NoOptional).unwrap();
    let full = generate_name_combinations("α{ 1} Cen{ A}", SpecificName::AllOptional).unwrap();
    assert_eq!(all, vec!["α Cen".to_string(), "α 1 Cen".to_string(), "α Cen A".to_string(), "α 1 Cen A".to_string()]);
    assert_eq!(none, vec![all[0].clone()]);
    assert_eq!(full, vec![all[3].clone()]);
}

#[test]
fn limits_on_the_number_of_optional_parts() {
    let thirty: String = "a{x}".repeat(30);
    assert_eq!(generate_name_combinations(&thirty, SpecificName::NoOptional).unwrap(), vec!["a".repeat(30)]);
    assert_eq!(generate_name_combinations(&thirty, SpecificName::AllOptional).unwrap(), vec!["ax".repeat(30)]);
    let thirty_one: String = "a{x}".repeat(31);
    // the count of masks, 2^31, overflows to a negative number: no variant
    assert_eq!(generate_name_combinations(&thirty_one, SpecificName::AllCombinations).unwrap(), Vec::<String>::new());
    assert_eq!(generate_name_combinations(&thirty_one, SpecificName::NoOptional).unwrap(), vec!["a".repeat(31)]);
    assert!(generate_name_combinations(&thirty_one, SpecificName::AllOptional).is_none());
    let thirty_two: String = "a{x}".repeat(32);
    assert!(generate_name_combinations(&thirty_two, SpecificName::AllCombinations).is_none());
    assert_eq!(generate_name_combinations(&thirty_two, SpecificName::NoOptional).unwrap(), vec!["a".repeat(32)]);
    let thirty_three: String = "{x}".repeat(33);
    assert!(generate_name_combinations(&thirty_three, SpecificName::NoOptional).is_none());
}
