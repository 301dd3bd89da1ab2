use turbo_ncu::registry::{backoff_delay_ms, next_retry_delay, package_url, registry_base};

#[test]
fn urls_of_plain_and_scoped_packages() {
    let base = registry_base("https://registry.npmjs.org//");
    assert_eq!(base, "https://registry.npmjs.org");
    assert_eq!(package_url(base, "lodash"), "https://registry.npmjs.org/lodash");
    assert_eq!(package_url(base, "@types/node"), "https://registry.npmjs.org/@types%2fnode");
    assert_eq!(package_url(base, "@a/b/c"), "https://registry.npmjs.org/@a%2fb/c");
    assert_eq!(package_url(base, "a/b"), "https://registry.npmjs.org/a/b");
}

#[test]
fn backoff_doubles() {
    assert_eq!(backoff_delay_ms(1), 100);
    assert_eq!(backoff_delay_ms(2), 200);
    assert_eq!(backoff_delay_ms(4), 800);
    assert_eq!(backoff_delay_ms(200), u64::MAX);
    assert_eq!(next_retry_delay(0, 3), Some(100));
    assert_eq!(next_retry_delay(2, 3), Some(400));
    assert_eq!(next_retry_delay(3, 3), None);
    assert_eq!(next_retry_delay(0, 0), None);
}
