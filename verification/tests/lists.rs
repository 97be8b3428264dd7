use labkit::digits::count_digit;
use labkit::digits::count_digit_r;
use labkit::digits::count_digit_v2;
use labkit::doubling::count_negative;
use labkit::doubling::doubles;
use labkit::doubling::doubles_recursion_start;
use labkit::joining::join_numbers;
use labkit::joining::join_strings;
use labkit::negatives::extract_non_negatives;
use labkit::negatives::extract_non_negatives_r;
use labkit::negatives::split_non_negatives;
use labkit::quoting::quote;
use labkit::quoting::quote_list;
use labkit::quoting::quote_list_recursion_start;
use labkit::tuples::pack_number_tuples;
use labkit::tuples::pack_number_tuples_s;

#[test]
fn test_counting() {
    assert_eq!(count_negative(&[]), 0);
    assert_eq!(count_negative(&[1, 2, -3, 4, -6, 7]), 2);
}

#[test]
fn test_doubles() {
    assert_eq!(doubles(&[]), vec![]);
    assert_eq!(doubles(&[1, 2, 3]), vec![2, 4, 6]);
    assert_eq!(doubles_recursion_start(&[]), vec![]);
    assert_eq!(doubles_recursion_start(&[1, 2, 3]), vec![2, 4, 6]);
}

#[test]
fn test_quotes() {
    assert_eq!(quote("abcd", '*'), "*abcd*");
    assert_eq!(quote_list(&[""; 0], '*'), &[""; 0]);
    assert_eq!(quote_list(&["abcd", "xyz"], '*'), ["*abcd*", "*xyz*"]);
    assert_eq!(quote_list_recursion_start(&[""; 0], '*'), &[""; 0]);
    assert_eq!(quote_list_recursion_start(&["abcd", "xyz"], '*'), ["*abcd*", "*xyz*"]);
}

fn validate_digits(f: impl Fn(&str) -> usize) {
    // empty string case
    assert_eq!(f(""), 0);

    // only alphabets
    assert_eq!(f("abcd"), 0);

    // alphabets with digits and spaces
    assert_eq!(f("ab12xy5   7x83y5z"), 7);

    // only digits
    assert_eq!(f("55093"), 5);

    // digits with whitespaces
    assert_eq!(f("55 0 9  3"), 5);
}

#[test]
fn test_digits_count() {
    validate_digits(count_digit);
    validate_digits(count_digit_r);
}

#[test]
fn test_digits_count2() {
    // empty string case
    assert_eq!(count_digit_v2(""), []);

    // two words case
    assert_eq!(count_digit_v2("ab12xy5   7x83y5z"), [("ab12xy5", 3), ("7x83y5z", 4)]);

    // one words case
    assert_eq!(count_digit_v2("ab12xy5 "), [("ab12xy5", 3)]);

    // only digits one word case
    assert_eq!(count_digit_v2("68420"), [("68420", 5)]);

    // only digits multiple words case
    assert_eq!(count_digit_v2("68420 555"), [("68420", 5), ("555", 3)]);
}

fn validate_non_negatives(f: impl Fn(&[isize]) -> Vec<usize>) {
    // empty array case
    assert_eq!(f(&[]), []);

    // only positives case
    assert_eq!(f(&[1, 68, 420, 0]), [1, 68, 420, 0]);

    // only negatives case
    assert_eq!(f(&[-1, -68, -420]), []);

    // mixed case
    assert_eq!(f(&[-0, 32, -64, 68, -420]), [0, 32, 68]);
}

#[test]
fn test_extract_non_negatives() {
    validate_non_negatives(extract_non_negatives);
    validate_non_negatives(extract_non_negatives_r);
}

#[test]
fn test_split_non_negatives() {
    // empty array case
    assert_eq!(split_non_negatives(&[]), (vec![], vec![]));

    // only positives case
    assert_eq!(split_non_negatives(&[1, 68, 420, 0]), (vec![1, 68, 420, 0], vec![]));

    // only negatives case
    assert_eq!(split_non_negatives(&[-1, -68, -420]), (vec![], vec![-1, -68, -420]));

    // mixed case
    assert_eq!(split_non_negatives(&[-0, 32, -64, 68, -420]), (vec![0, 32, 68], vec![-64, -420]));
}

#[test]
fn join_strings_test() {
    // empty string array case
    assert_eq!(join_strings(&[], ""), "");

    // empty pattern join
    assert_eq!(join_strings(&["yo hello", "what", "brah"], ""), "yo hellowhatbrah");

    // one string join
    assert_eq!(join_strings(&["yo hello"], " "), "yo hello");

    // normal case
    assert_eq!(join_strings(&["yo hello", "what", "brah"], "-:"), "yo hello-:what-:brah");

    assert_eq!(join_strings(&[], ","), "");
    assert_eq!(join_strings(&["C"], ","), "C");
    let patterns = ["C", "Rust", "C++", "Python"];
    assert_eq!(join_strings(&patterns, ", "), "C, Rust, C++, Python");
    assert_eq!(join_strings(&patterns, ";;"), "C;;Rust;;C++;;Python");
}

#[test]
fn join_numbers_test() {
    // empty string array case
    assert_eq!(join_numbers(&[], ""), "");

    // empty pattern join
    assert_eq!(join_numbers(&[3, 2, -1], ""), "32-1");

    // one string join
    assert_eq!(join_numbers(&[3], " "), "3");

    // normal case
    assert_eq!(join_numbers(&[32, 2, -60], "-:"), "32-:2-:-60");

    assert_eq!(join_numbers(&[], ","), "");
    assert_eq!(join_numbers(&[25], ","), "25");
    let patterns = [5, 10, -1, 2];
    assert_eq!(join_numbers(&patterns, ", "), "5, 10, -1, 2");
    assert_eq!(join_numbers(&patterns, ";;"), "5;;10;;-1;;2");
}

#[test]
fn pack_number_tuples_test() {
    // equal length case
    assert_eq!(pack_number_tuples(&[1, 2, 5], &[6, 4, 2]), vec![(1, 6), (2, 4), (5, 2)]);

    // first array is longer
    assert_eq!(
        pack_number_tuples(&[1, 2, 5, 6], &[6, 4, 2]),
        vec![(1, 6), (2, 4), (5, 2), (6, 0)]
    );

    // second array is longer
    assert_eq!(
        pack_number_tuples(&[1, 2, 5], &[6, 4, 2, 1, 2]),
        vec![(1, 6), (2, 4), (5, 2), (0, 1), (0, 2)]
    );

    // empty arrays
    assert_eq!(pack_number_tuples(&[], &[]), vec![]);

    assert_eq!(pack_number_tuples(&[], &[]), []);
    assert_eq!(pack_number_tuples(&[1], &[]), [(1, 0)]);
    assert_eq!(pack_number_tuples(&[], &[2, 3]), [(0, 2), (0, 3)]);
    assert_eq!(pack_number_tuples(&[5, 1, 4], &[2, 3]), [(5, 2), (1, 3), (4, 0)]);
}

#[test]
fn pack_number_tuples_s_tests() {
    // equal length case
    assert_eq!(pack_number_tuples_s(&[1, 2, 5], &[6, 4, 2]), vec![(1, 6), (2, 4), (5, 2)]);

    // first array is longer
    assert_eq!(pack_number_tuples_s(&[1, 2, 5, 6], &[6, 4, 2]), vec![(1, 6), (2, 4), (5, 2)]);

    // second array is longer
    assert_eq!(pack_number_tuples_s(&[1, 2, 5], &[6, 4, 2, 1, 2]), vec![(1, 6), (2, 4), (5, 2)]);

    // empty arrays
    assert_eq!(pack_number_tuples_s(&[], &[]), vec![]);

    assert_eq!(pack_number_tuples_s(&[], &[]), []);
    assert_eq!(pack_number_tuples_s(&[1], &[]), []);
    assert_eq!(pack_number_tuples_s(&[], &[2, 3]), []);
    assert_eq!(pack_number_tuples_s(&[5, 1, 4], &[2, 3]), [(5, 2), (1, 3)]);
}
