//! Assembling the challenge page template: the placeholders for the
//! solver's scripts and styles, a check of custom templates, and
//! line-wise minification.
use vstd::prelude::*;
use vstd::utf8::*;
use crate::challenge::{replace_all, replaced};
use crate::encoding::{b64_padded, b64_standard};
use crate::text::{contains, has_infix, lemma_index_of, lemma_index_of_absent, split_on, trim, trimmed};

verus! {

/// The script tag that loads the solver's core.
pub const CORE_JS_TAG: &'static str = "<script data-cfasync=\"false\" src=\"/__cowcatwaf/assets/catpaw.core.js\"></script>";

/// The script tag that loads the page's style script.
pub const STYLE_JS_TAG: &'static str = "<script data-cfasync=\"false\" src=\"/__cowcatwaf/assets/catpaw.style.js\"></script>";

/// The inline form of an image for the page: standard base64 with padding.
pub fn image_data(bytes: &[u8]) -> (r: String)
    ensures
        r@ == b64_padded(bytes@, false),
{
    b64_standard(bytes)
}

/// Why a custom template was refused.
#[derive(Debug, Clone, Copy, PartialEq, Eq, Structural)]
pub enum TemplateError {
    MissingTaskData,
    MissingRedirectUrl,
    MissingCoreScript,
    MissingStyleScript,
    MissingCss,
}

/// The trimmed lines, concatenated; blank lines vanish.
pub open spec fn minified(lines: Seq<Seq<char>>) -> Seq<char>
    decreases lines.len(),
{
    if lines.len() == 0 {
        Seq::empty()
    } else {
        trimmed(lines[0]) + minified(lines.subrange(1, lines.len() as int))
    }
}

/// Joins the trimmed, non-blank lines of `raw` without separators.
pub fn minify_template_lines(raw: &str) -> (r: String)
    ensures
        r@ == minified(split_on(raw@, '\n')),
{
    let n = raw.unicode_len();
    let mut out = String::new();
    let mut start: usize = 0;
    assert(raw@.subrange(0, n as int) == raw@);
    loop
        invariant
            n == raw@.len(),
            0 <= start <= n,
            minified(split_on(raw@, '\n')) == out@ + minified(split_on(raw@.subrange(start as int, n as int), '\n')),
        decreases n - start,
    {
        let ghost rest = raw@.subrange(start as int, n as int);
        let mut j: usize = start;
        while j < n && raw.get_char(j) != '\n'
            invariant
                n == raw@.len(),
                start <= j <= n,
                forall|q: int| start <= q < j ==> raw@[q] != '\n',
            decreases n - j,
        {
            j = j + 1;
        }
        proof {
            if j < n {
                assert forall|q: int| 0 <= q < j - start implies rest[q] != '\n' by {
                    assert(rest[q] == raw@[start + q]);
                }
                lemma_index_of(rest, '\n', j - start);
                assert(rest.subrange(0, j - start) == raw@.subrange(start as int, j as int));
                assert(rest.subrange(j - start + 1, rest.len() as int) == raw@.subrange(j + 1, n as int));
            } else {
                assert forall|q: int| 0 <= q < rest.len() implies rest[q] != '\n' by {
                    assert(rest[q] == raw@[start + q]);
                }
                lemma_index_of_absent(rest, '\n');
            }
        }
        let line = trim(raw.substring_char(start, j));
        let ghost before = out@;
        out.append(line);
        if j == n {
            proof {
                let segs = split_on(rest, '\n');
                assert(segs == seq![rest]);
                assert(segs.len() == 1);
                assert(minified(Seq::<Seq<char>>::empty()) == Seq::<char>::empty());
                assert(segs.subrange(1, 1) == Seq::<Seq<char>>::empty());
                assert(minified(segs) == trimmed(rest) + Seq::<char>::empty());
                assert(before + (trimmed(rest) + Seq::<char>::empty()) == out@);
            }
            return out;
        }
        proof {
            let segs = split_on(rest, '\n');
            assert(segs.subrange(1, segs.len() as int) == split_on(raw@.subrange(j + 1, n as int), '\n'));
            assert(before + (line@ + minified(split_on(raw@.subrange(j + 1, n as int), '\n')))
                == out@ + minified(split_on(raw@.subrange(j + 1, n as int), '\n')));
        }
        start = j + 1;
    }
}

/// Whether the template refers to a script file by name.
pub fn has_script_reference(raw: &str, filename: &str) -> (r: bool)
    ensures
        r == has_infix(encode_utf8(raw@), encode_utf8(filename@)),
{
    contains(raw.as_bytes(), filename.as_bytes())
}

/// Whether `raw` holds `part`.
pub open spec fn holds(raw: Seq<char>, part: Seq<char>) -> bool {
    has_infix(encode_utf8(raw), encode_utf8(part))
}

/// What the check of a custom template decides: the task data and
/// redirect placeholders are required; so is the core script, as a
/// placeholder or a script tag; the style script likewise when the page
/// has one, and the CSS placeholder when it brings its own CSS.
pub open spec fn template_check(raw: Seq<char>, needs_style_js: bool, needs_style_css: bool) -> Result<(), TemplateError> {
    if !holds(raw, "{{ TaskData }}"@) {
        Err(TemplateError::MissingTaskData)
    } else if !holds(raw, "{{ RedirectURL }}"@) {
        Err(TemplateError::MissingRedirectUrl)
    } else if !(holds(raw, "{{ CoreJS }}"@) || holds(raw, "catpaw.core.js"@)) {
        Err(TemplateError::MissingCoreScript)
    } else if needs_style_js && !(holds(raw, "{{ StyleJS }}"@) || holds(raw, "catpaw.style.js"@)) {
        Err(TemplateError::MissingStyleScript)
    } else if needs_style_css && !holds(raw, "{{ CatpawCSS }}"@) {
        Err(TemplateError::MissingCss)
    } else {
        Ok(())
    }
}

/// Checks a custom template.
pub fn validate_custom_template(raw: &str, needs_style_js: bool, needs_style_css: bool) -> (r: Result<(), TemplateError>)
    ensures
        r == template_check(raw@, needs_style_js, needs_style_css),
{
    if !has_script_reference(raw, "{{ TaskData }}") {
        return Err(TemplateError::MissingTaskData);
    }
    if !has_script_reference(raw, "{{ RedirectURL }}") {
        return Err(TemplateError::MissingRedirectUrl);
    }
    if !(has_script_reference(raw, "{{ CoreJS }}") || has_script_reference(raw, "catpaw.core.js")) {
        return Err(TemplateError::MissingCoreScript);
    }
    if needs_style_js && !(has_script_reference(raw, "{{ StyleJS }}") || has_script_reference(raw, "catpaw.style.js")) {
        return Err(TemplateError::MissingStyleScript);
    }
    if needs_style_css && !has_script_reference(raw, "{{ CatpawCSS }}") {
        return Err(TemplateError::MissingCss);
    }
    Ok(())
}

/// The page template: minified when asked, the meta script inlined or
/// dropped, the core script tag in place, the style script tag in place or
/// dropped, and the CSS inlined.
pub open spec fn built_template(
    raw: Seq<char>,
    style_js_enabled: bool,
    css: Seq<char>,
    meta_js: Seq<char>,
    enable_meta: bool,
    minify: bool,
) -> Seq<char> {
    let base = if minify { minified(split_on(raw, '\n')) } else { raw };
    let meta = if enable_meta {
        "<script data-cfasync=\"false\">"@ + meta_js + "</script>"@
    } else {
        Seq::empty()
    };
    let with_meta = replaced(base, "{{ MetaJS }}"@, meta);
    let with_core = replaced(with_meta, "{{ CoreJS }}"@, CORE_JS_TAG@);
    let with_style = replaced(with_core, "{{ StyleJS }}"@, if style_js_enabled { STYLE_JS_TAG@ } else { Seq::empty() });
    replaced(with_style, "{{ CatpawCSS }}"@, css)
}

/// Assembles the page template.
pub fn build_template(
    normalized: &str,
    style_js_enabled: bool,
    css: &str,
    meta_js: &str,
    enable_meta: bool,
    minify: bool,
) -> (r: String)
    ensures
        r@ == built_template(normalized@, style_js_enabled, css@, meta_js@, enable_meta, minify),
{
    let template = if minify { minify_template_lines(normalized) } else { normalized.to_owned() };
    let meta = if enable_meta {
        let mut m = String::from_str("<script data-cfasync=\"false\">");
        m.append(meta_js);
        m.append("</script>");
        m
    } else {
        String::new()
    };
    let with_meta = replace_all(template.as_str(), "{{ MetaJS }}", meta.as_str());
    let with_core = replace_all(with_meta.as_str(), "{{ CoreJS }}", CORE_JS_TAG);
    let style = if style_js_enabled { STYLE_JS_TAG } else { "" };
    proof {
        reveal_strlit("");
        assert(""@ =~= Seq::<char>::empty());
    }
    let with_style = replace_all(with_core.as_str(), "{{ StyleJS }}", style);
    replace_all(with_style.as_str(), "{{ CatpawCSS }}", css)
}

} // verus!
