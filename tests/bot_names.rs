use cowcat::bot::{normalize_ptr, ptr_allowed, ua_matches_bot};

#[test]
fn bot_user_agents() {
    assert!(ua_matches_bot("Mozilla/5.0 (compatible; GoogleBot/2.1)"));
    assert!(!ua_matches_bot("   "));
    assert!(!ua_matches_bot("Mozilla/5.0 Firefox"));
}

#[test]
fn ptr_names() {
    assert_eq!(normalize_ptr("Crawl-66-249-66-1.GoogleBot.com."), "crawl-66-249-66-1.googlebot.com");
    assert!(ptr_allowed("crawl-66-249-66-1.googlebot.com"));
    assert!(ptr_allowed("rate-limited-proxy.google.com"));
    assert!(!ptr_allowed("evil-google.com"));
}
