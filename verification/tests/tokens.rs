use pargs::text::{find_char, split_assignment, SEPARATOR};
use pargs::token::{classify_token, is_member, Classified};

fn strings(items: &[&str]) -> Vec<String> {
    items.iter().map(|s| String::from(*s)).collect()
}

#[test]
fn separator_is_the_equals_sign() {
    assert_eq!(SEPARATOR, '=');
}

#[test]
fn find_char_gives_the_first_index() {
    assert_eq!(find_char("a=b=c", '='), Some(1));
    assert_eq!(find_char("=", '='), Some(0));
    assert_eq!(find_char("abc=", '='), Some(3));
    assert_eq!(find_char("abc", '='), None);
    assert_eq!(find_char("", '='), None);
}

#[test]
fn find_char_counts_characters_not_bytes() {
    assert_eq!(find_char("größe=3", '='), Some(5));
    assert_eq!(find_char("三二一=", '='), Some(3));
    assert_eq!(find_char("aéa", 'a'), Some(0));
    assert_eq!(find_char("éa", 'a'), Some(1));
}

#[test]
fn split_assignment_parts_at_the_first_separator() {
    assert_eq!(
        split_assignment("-i=peppers"),
        Some((String::from("-i"), String::from("peppers")))
    );
    assert_eq!(
        split_assignment("k=a=b"),
        Some((String::from("k"), String::from("a=b")))
    );
    assert_eq!(
        split_assignment("k="),
        Some((String::from("k"), String::from("")))
    );
    assert_eq!(
        split_assignment("=v"),
        Some((String::from(""), String::from("v")))
    );
    assert_eq!(
        split_assignment("="),
        Some((String::from(""), String::from("")))
    );
    assert_eq!(
        split_assignment("–nom=Zoë"),
        Some((String::from("–nom"), String::from("Zoë")))
    );
}

#[test]
fn split_assignment_without_separator() {
    assert_eq!(split_assignment("peppers"), None);
    assert_eq!(split_assignment(""), None);
}

#[test]
fn is_member_compares_whole_strings() {
    let vocabulary = strings(&["-i", "-j", ""]);
    assert!(is_member(&vocabulary, &String::from("-i")));
    assert!(is_member(&vocabulary, &String::from("-j")));
    assert!(is_member(&vocabulary, &String::from("")));
    assert!(!is_member(&vocabulary, &String::from("-")));
    assert!(!is_member(&vocabulary, &String::from("-i=")));
    assert!(!is_member(&vocabulary, &String::from("-I")));
    assert!(!is_member(&Vec::new(), &String::from("-i")));
}

#[test]
fn classify_token_follows_the_precedence() {
    let commands = strings(&["go", "both"]);
    let flags = strings(&["-q", "both", "-f=1"]);
    let options = strings(&["-n", "both", "-q", "-f"]);
    let kind = |t: &str| classify_token(&String::from(t), &commands, &flags, &options);
    assert_eq!(kind("go"), Classified::Command);
    assert_eq!(kind("both"), Classified::Command);
    assert_eq!(kind("-q"), Classified::Flag);
    assert_eq!(kind("-f=1"), Classified::Flag);
    assert_eq!(
        kind("-n=5"),
        Classified::AssignedOption {
            key: String::from("-n"),
            value: String::from("5"),
        }
    );
    assert_eq!(
        kind("-f=2=3"),
        Classified::AssignedOption {
            key: String::from("-f"),
            value: String::from("2=3"),
        }
    );
    assert_eq!(kind("-n"), Classified::SpacedOption);
    assert_eq!(kind("-x"), Classified::Unrecognized);
    assert_eq!(kind("-x=1"), Classified::Unrecognized);
    assert_eq!(kind("=1"), Classified::Unrecognized);
    assert_eq!(kind(""), Classified::Unrecognized);
}
