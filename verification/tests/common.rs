use pihole_api::dns::common::{is_valid_domain, is_valid_regex, MAX_LABEL_LEN, MAX_NAME_LEN};

#[test]
fn domains_that_are_valid() {
    assert!(is_valid_domain("example.com"));
    assert!(is_valid_domain("ads.example.com"));
    assert!(is_valid_domain("a"));
    assert!(is_valid_domain("localhost"));
    assert!(is_valid_domain("1.2.3.4"));
    assert!(is_valid_domain("a-b.c_d"));
    assert!(is_valid_domain("_dmarc.example.com"));
    assert!(is_valid_domain("-a.b-"));
    assert!(is_valid_domain("xn--nxasmq6b.example"));
}

#[test]
fn domains_with_a_wrong_byte() {
    assert!(!is_valid_domain("not a domain!!"));
    assert!(!is_valid_domain("example.com/path"));
    assert!(!is_valid_domain("exa mple.com"));
    assert!(!is_valid_domain("example.com\n"));
    assert!(!is_valid_domain("example.com\r"));
    assert!(!is_valid_domain("ex\u{e4}mple.com"));
    assert!(!is_valid_domain("*.example.com"));
    assert!(!is_valid_domain("^.*example.com$"));
}

#[test]
fn domains_are_not_folded_to_lower_case() {
    assert!(!is_valid_domain("Example.com"));
    assert!(!is_valid_domain("EXAMPLE.COM"));
    assert!(is_valid_domain("example.com"));
}

#[test]
fn domains_with_an_empty_label() {
    assert!(!is_valid_domain(""));
    assert!(!is_valid_domain("."));
    assert!(!is_valid_domain("example.com."));
    assert!(!is_valid_domain(".example.com"));
    assert!(!is_valid_domain("example..com"));
}

#[test]
fn labels_need_a_letter_or_a_digit() {
    assert!(!is_valid_domain("-"));
    assert!(!is_valid_domain("_"));
    assert!(!is_valid_domain("-_-"));
    assert!(!is_valid_domain("example.-"));
    assert!(!is_valid_domain("_.example.com"));
    assert!(is_valid_domain("-0"));
    assert!(is_valid_domain("example.-a-"));
}

#[test]
fn label_length_limit() {
    assert_eq!(MAX_LABEL_LEN, 63);
    let longest = "a".repeat(63);
    let too_long = "a".repeat(64);
    assert!(is_valid_domain(&longest));
    assert!(!is_valid_domain(&too_long));
    assert!(is_valid_domain(&format!("{}.com", longest)));
    assert!(!is_valid_domain(&format!("{}.com", too_long)));
    assert!(is_valid_domain(&format!("www.{}", longest)));
    assert!(!is_valid_domain(&format!("www.{}", too_long)));
}

#[test]
fn name_length_limit() {
    assert_eq!(MAX_NAME_LEN, 253);
    let label = "a".repeat(63);
    let longest = format!("{}.{}.{}.{}", label, label, label, "a".repeat(61));
    assert_eq!(longest.len(), 253);
    assert!(is_valid_domain(&longest));
    let too_long = format!("{}.{}.{}.{}", label, label, label, "a".repeat(62));
    assert_eq!(too_long.len(), 254);
    assert!(!is_valid_domain(&too_long));
}

#[test]
fn patterns_that_compile() {
    assert!(is_valid_regex("^.*example.com$"));
    assert!(is_valid_regex("(^|\\.)ads\\d+\\.example\\.com$"));
    assert!(is_valid_regex("not a domain!!"));
    assert!(is_valid_regex(""));
}

#[test]
fn patterns_that_do_not_compile() {
    assert!(!is_valid_regex("("));
    assert!(!is_valid_regex("foo(bar"));
    assert!(!is_valid_regex("[a-"));
    assert!(!is_valid_regex("a{2,1}"));
    assert!(!is_valid_regex("*"));
    assert!(!is_valid_regex("\\"));
}
