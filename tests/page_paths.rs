use cowcat::proxy::{build_target_uri, rewrite_headers, ProxyTarget};
use cowcat::page::{build_template, has_script_reference, minify_template_lines, validate_custom_template, TemplateError};
use cowcat::text::sanitize_path;

#[test]
fn sanitize_path_cleans_and_refuses() {
    assert_eq!(sanitize_path("/assets//catpaw.js"), Some("assets/catpaw.js".to_string()));
    assert_eq!(sanitize_path("a/./b/"), Some("a/b".to_string()));
    assert_eq!(sanitize_path("a/../b"), None);
    assert_eq!(sanitize_path("./a"), None);
    assert_eq!(sanitize_path("///"), None);
    assert_eq!(sanitize_path(""), None);
    assert_eq!(sanitize_path(".hidden/x"), Some(".hidden/x".to_string()));
}

#[test]
fn minify_joins_trimmed_lines() {
    assert_eq!(minify_template_lines("  <a>\r\n\n   <b> x </b>\n"), "<a><b> x </b>");
    assert_eq!(minify_template_lines(""), "");
}

#[test]
fn template_checks() {
    let ok = "{{ TaskData }} {{ RedirectURL }} {{ CoreJS }}";
    assert_eq!(validate_custom_template(ok, false, false), Ok(()));
    assert_eq!(validate_custom_template("{{ RedirectURL }}", false, false), Err(TemplateError::MissingTaskData));
    assert_eq!(validate_custom_template("{{ TaskData }}", false, false), Err(TemplateError::MissingRedirectUrl));
    assert_eq!(
        validate_custom_template("{{ TaskData }}{{ RedirectURL }}", false, false),
        Err(TemplateError::MissingCoreScript)
    );
    assert_eq!(validate_custom_template(ok, true, false), Err(TemplateError::MissingStyleScript));
    assert_eq!(validate_custom_template(ok, false, true), Err(TemplateError::MissingCss));
    let with_tag = "{{ TaskData }}{{ RedirectURL }}<script src=\"catpaw.core.js\"></script>";
    assert_eq!(validate_custom_template(with_tag, false, false), Ok(()));
    assert!(has_script_reference(with_tag, "catpaw.core.js"));
}

#[test]
fn template_assembly() {
    let raw = "<head>{{ MetaJS }}\n  {{ CoreJS }}{{ StyleJS }}\n<style>{{ CatpawCSS }}</style></head>";
    let t = build_template(raw, false, "b{}", "m()", true, true);
    assert_eq!(
        t,
        "<head><script data-cfasync=\"false\">m()</script><script data-cfasync=\"false\" src=\"/__cowcatwaf/assets/catpaw.core.js\"></script><style>b{}</style></head>"
    );
    let t = build_template(raw, true, "", "m()", false, false);
    assert!(t.contains("catpaw.style.js"));
    assert!(!t.contains("m()"));
    assert!(t.contains('\n'));
}

#[test]
fn proxy_rewrites() {
    let t = ProxyTarget { scheme: "http".to_string(), authority: "127.0.0.1:1234".to_string() };
    assert_eq!(build_target_uri(&t, "/page?x=1"), "http://127.0.0.1:1234/page?x=1");
    let r = rewrite_headers(&t, false, true);
    assert_eq!(r.host, "127.0.0.1:1234");
    assert_eq!(r.x_forwarded_host.as_deref(), Some("127.0.0.1:1234"));
    assert_eq!(r.x_forwarded_proto, None);
}
