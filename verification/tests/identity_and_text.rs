use asset_registry::listing::mentioned_in;
use asset_registry::principal::{Principal, MAX_PRINCIPAL_LEN};
use asset_registry::text::{contains, contains_any, same_text};

#[test]
fn anonymous_identity_is_the_single_byte_four() {
    let anonymous = Principal::anonymous();
    assert_eq!(anonymous.as_slice(), &[4u8]);
    assert!(anonymous.is_anonymous());
    assert!(Principal::from_slice(&[4]).unwrap().is_anonymous());
    assert!(!Principal::from_slice(&[4, 0]).unwrap().is_anonymous());
    assert!(!Principal::from_slice(&[]).unwrap().is_anonymous());
    assert!(!Principal::from_slice(&[5]).unwrap().is_anonymous());
}

#[test]
fn identity_holds_at_most_twenty_nine_bytes() {
    assert_eq!(MAX_PRINCIPAL_LEN, 29);
    assert!(Principal::from_slice(&[1; 29]).is_some());
    assert!(Principal::from_slice(&[1; 30]).is_none());
    assert!(Principal::from_slice(&[1; 100]).is_none());
    assert_eq!(Principal::from_slice(&[1, 2, 3]).unwrap().as_slice(), &[1u8, 2, 3]);
    assert_eq!(Principal::from_slice(&[]).unwrap().as_slice(), &[] as &[u8]);
}

#[test]
fn identities_are_compared_by_their_bytes() {
    let one = Principal::from_slice(&[1, 2, 3]).unwrap();
    let same = Principal::from_slice(&[1, 2, 3]).unwrap();
    let longer = Principal::from_slice(&[1, 2, 3, 0]).unwrap();
    let other = Principal::from_slice(&[1, 2, 4]).unwrap();
    assert!(one.same(&same));
    assert!(!one.same(&longer));
    assert!(!longer.same(&one));
    assert!(!one.same(&other));
    assert!(one.clone().same(&one));
    assert_eq!(one.clone(), one);
}

#[test]
fn occurrence_is_of_adjacent_characters() {
    let text = "hello world".to_string();
    assert!(contains(&text, &"lo wo".to_string()));
    assert!(contains(&text, &"".to_string()));
    assert!(contains(&text, &"hello world".to_string()));
    assert!(!contains(&text, &"hello world!".to_string()));
    assert!(!contains(&text, &"low".to_string()));
    assert!(!contains(&text, &"World".to_string()));
    assert!(contains(&"".to_string(), &"".to_string()));
    assert!(!contains(&"".to_string(), &"a".to_string()));
}

#[test]
fn occurrence_in_any_of_several_texts() {
    let texts = vec!["red".to_string(), "green".to_string()];
    assert!(contains_any(&texts, &"ree".to_string()));
    assert!(contains_any(&texts, &"".to_string()));
    assert!(!contains_any(&texts, &"blue".to_string()));
    assert!(!contains_any(&vec![], &"".to_string()));
}

#[test]
fn texts_are_the_same_when_their_characters_are() {
    assert!(same_text(&"sci-fi".to_string(), &"sci-fi".to_string()));
    assert!(!same_text(&"sci-fi".to_string(), &"Sci-Fi".to_string()));
    assert!(!same_text(&"sci-fi".to_string(), &"sci-f".to_string()));
}

#[test]
fn query_is_looked_for_in_name_description_category_and_tags() {
    let name = "robot".to_string();
    let description = "walks".to_string();
    let category = "sci-fi".to_string();
    let tags = vec!["metal".to_string(), "toy".to_string()];
    assert!(mentioned_in(&name, &description, &category, &tags, &"obo".to_string()));
    assert!(mentioned_in(&name, &description, &category, &tags, &"alk".to_string()));
    assert!(mentioned_in(&name, &description, &category, &tags, &"sci-fi".to_string()));
    assert!(mentioned_in(&name, &description, &category, &tags, &"toy".to_string()));
    assert!(!mentioned_in(&name, &description, &category, &tags, &"SCI-FI".to_string()));
    assert!(!mentioned_in(&name, &description, &category, &tags, &"robotwalks".to_string()));
    assert!(!mentioned_in(&name, &description, &category, &vec![], &"toy".to_string()));
}
