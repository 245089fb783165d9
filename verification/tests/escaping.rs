use projekttagebuch::ldap::escape_ldap_search_filter_parameter;
use projekttagebuch::ldap::build_user_search_filter;
use projekttagebuch::ldap::interpret_user_search;
use projekttagebuch::ldap::DirectoryEntry;
use projekttagebuch::ldap::LDAPError;
use projekttagebuch::strutil::u32_to_decimal;

#[test]
fn escapes_the_rfc2254_mandated_characters() {
    assert_eq!(escape_ldap_search_filter_parameter("(a)*\\"), "\\28a\\29\\2a\\5c");
    assert_eq!(escape_ldap_search_filter_parameter("\0"), "\\00");
}

#[test]
fn escapes_the_rfc4514_characters_against_injection() {
    assert_eq!(
        escape_ldap_search_filter_parameter("\"#+,;<=>| "),
        "\\22\\23\\2b\\2c\\3b\\3c\\3d\\3e\\7c\\20"
    );
}

#[test]
fn leaves_harmless_text_alone() {
    assert_eq!(escape_ldap_search_filter_parameter(""), "");
    assert_eq!(escape_ldap_search_filter_parameter("alice.b-c_1"), "alice.b-c_1");
    assert_eq!(escape_ldap_search_filter_parameter("uid0"), "uid0");
}

#[test]
fn escapes_a_mixed_injection_attempt() {
    assert_eq!(
        escape_ldap_search_filter_parameter("admin)(uid=*"),
        "admin\\29\\28uid\\3d\\2a"
    );
}

#[test]
fn decimal_rendering_is_exact() {
    assert_eq!(u32_to_decimal(0), "0");
    assert_eq!(u32_to_decimal(7), "7");
    assert_eq!(u32_to_decimal(10), "10");
    assert_eq!(u32_to_decimal(1234567890), "1234567890");
    assert_eq!(u32_to_decimal(u32::MAX), "4294967295");
}

#[test]
fn builds_the_user_search_filter_with_escaping() {
    assert_eq!(
        build_user_search_filter("objectClass=person", "alice"),
        "(&(objectClass=person)(uid=alice))"
    );
    assert_eq!(
        build_user_search_filter("objectClass=person", "ali)(ce=*"),
        "(&(objectClass=person)(uid=ali\\29\\28ce\\3d\\2a))"
    );
}

#[test]
fn search_for_a_missing_user_answers_none() {
    let r = interpret_user_search("DOES NOT EXIST EVEN REMOTELY", vec![]);
    assert!(r.unwrap().is_none());
}

#[test]
fn search_for_one_user_answers_the_user() {
    let entries = vec![DirectoryEntry {
        dn: "uid=testuser,ou=people,dc=example".to_string(),
        uid_values: Some(vec!["testuser".to_string()]),
    }];
    let user = interpret_user_search("testuser", entries).unwrap().unwrap();
    assert_eq!(user.username, "testuser");
    assert_eq!(user.ldap_dn, "uid=testuser,ou=people,dc=example");
}

#[test]
fn ambiguous_or_malformed_search_results_are_errors() {
    let entry = |uids: Option<Vec<String>>| DirectoryEntry {
        dn: "uid=x,dc=example".to_string(),
        uid_values: uids,
    };
    let two = vec![
        entry(Some(vec!["x".to_string()])),
        entry(Some(vec!["x".to_string()])),
    ];
    assert!(matches!(
        interpret_user_search("x", two),
        Err(LDAPError::MultipleUsersWithSameUid(_))
    ));
    assert!(matches!(
        interpret_user_search("x", vec![entry(None)]),
        Err(LDAPError::AttributeMissing(_))
    ));
    assert!(matches!(
        interpret_user_search("x", vec![entry(Some(vec!["a".to_string(), "b".to_string()]))]),
        Err(LDAPError::NotExactlyOneOfAttribute(_))
    ));
}
