use employee_directory::basics::{calculate_length, change, five, no_dangle, plus_one};
use employee_directory::carol::{ordinal, present, the_twelve_days_of_christmas};
use employee_directory::config::Config;
use employee_directory::fib::{checked_fib, fib};
use employee_directory::order::{sort_strings, str_eq, str_leq};
use employee_directory::piglatin::{is_consonant, is_vowel, to_pig_latin};
use employee_directory::restaurant::Breakfast;
use employee_directory::restaurant_use::{eat_at_restaurant, eat_at_restaurant_3};
use employee_directory::tokenizer::tokenize;
use employee_directory::workout::{generate_workout, WorkoutPlan};

#[test]
fn length_and_change_and_hello() {
    let s = String::from("hello");
    assert_eq!(calculate_length(&s), 5);
    let mut s = String::from("hello");
    change(&mut s);
    assert_eq!(s, "hello, world");
    assert_eq!(no_dangle(), "hello");
    assert_eq!(five(), 5);
    assert_eq!(plus_one(5), 6);
}

#[test]
fn fib_small_values() {
    assert_eq!(fib(0), 0);
    assert_eq!(fib(1), 1);
    assert_eq!(fib(2), 1);
    assert_eq!(fib(3), 2);
    assert_eq!(fib(10), 55);
    assert_eq!(fib(50), 12586269025);
}

#[test]
fn fib_overflow_is_refused() {
    assert_eq!(
        checked_fib(186),
        Some(332825110087067562321196029789634457848)
    );
    assert_eq!(checked_fib(187), None);
    assert_eq!(checked_fib(1000), None);
}

#[test]
fn carol_names_days_and_gifts() {
    assert_eq!(ordinal(1), "first");
    assert_eq!(ordinal(12), "twelfth");
    assert_eq!(ordinal(13), "???");
    assert_eq!(present(1), "a partridge in a pear tree");
    assert_eq!(present(5), "five golf rings");
    assert_eq!(present(0), "???");
    let poem = the_twelve_days_of_christmas();
    assert!(poem.starts_with(
        "On the first day of Christmas my true love sent to me\na partridge in a pear tree.\n\n\
         On the second day of Christmas my true love sent to me\ntwo turtle doves,\nand \
         a partridge in a pear tree.\n\n"
    ));
    assert!(poem.ends_with(
        "twelve drummers drumming,\neleven pipers piping,\nten lords a-leaping,\n\
         nine ladies dancing,\neight maids a-milking,\nseven swans a-swimming,\n\
         six geese a-laying,\nfive golf rings,\nfour calling birds,\nthree french hens,\n\
         two turtle doves,\nand a partridge in a pear tree.\n\n"
    ));
    assert_eq!(poem.matches("On the").count(), 12);
}

#[test]
fn pig_latin_rewrites_words() {
    assert!(is_consonant(&'h'));
    assert!(!is_consonant(&'a'));
    assert!(is_vowel(&'a'));
    assert!(is_vowel(&'\u{c1}'));
    assert!(!is_vowel(&'9'));
    assert_eq!(to_pig_latin("hello"), "ello-hay");
    assert_eq!(to_pig_latin("apple"), "apple-hay");
    assert_eq!(to_pig_latin("Zebra"), "ebra-Zay");
    assert_eq!(to_pig_latin("123"), "123");
    assert_eq!(to_pig_latin(""), "");
    assert_eq!(to_pig_latin("\u{e1}rbol"), "\u{e1}rbol-hay");
    assert_eq!(to_pig_latin("\u{f1}u"), "u-\u{f1}ay");
}

#[test]
fn tokenizer_splits_on_whitespace_runs() {
    assert_eq!(tokenize("a b"), vec!["a", "b"]);
    assert_eq!(tokenize("  add   Alice  to Eng "), vec!["add", "Alice", "to", "Eng"]);
    assert_eq!(tokenize(""), Vec::<String>::new());
    assert_eq!(tokenize(" \t \n "), Vec::<String>::new());
    assert_eq!(tokenize("one"), vec!["one"]);
}

#[test]
fn string_order_is_lexicographic() {
    assert!(str_leq("abc", "abd"));
    assert!(!str_leq("abd", "abc"));
    assert!(str_leq("ab", "abc"));
    assert!(str_leq("", "a"));
    assert!(str_leq("abc", "abc"));
    assert!(str_eq("abc", "abc"));
    assert!(!str_eq("abc", "abd"));
    assert!(!str_eq("ab", "abc"));
    let v = vec![
        "pear".to_string(),
        "apple".to_string(),
        "pear".to_string(),
        "fig".to_string(),
    ];
    assert_eq!(sort_strings(&v), vec!["apple", "fig", "pear", "pear"]);
}

#[test]
fn config_needs_three_arguments() {
    let args = vec![
        "minigrep".to_string(),
        "needle".to_string(),
        "hay.txt".to_string(),
    ];
    let config = Config::new(&args).unwrap();
    assert_eq!(config.query, "needle");
    assert_eq!(config.filename, "hay.txt");

    let too_few = vec!["minigrep".to_string(), "needle".to_string()];
    match Config::new(&too_few) {
        Err(e) => assert_eq!(e, "not enought arguments"),
        Ok(_) => panic!("two arguments must be refused"),
    }
}

#[test]
fn workout_branches() {
    assert!(matches!(generate_workout(10, 7), WorkoutPlan::Pushups));
    assert!(matches!(generate_workout(30, 3), WorkoutPlan::Rest));
    assert!(matches!(generate_workout(30, 7), WorkoutPlan::Run));
}

#[test]
fn summer_breakfast_has_peaches() {
    let mut meal = Breakfast::summer("Rye");
    assert_eq!(meal.toast, "Rye");
    meal.toast = String::from("Wheat");
    assert_eq!(meal.toast, "Wheat");
    eat_at_restaurant();
    eat_at_restaurant_3();
}
