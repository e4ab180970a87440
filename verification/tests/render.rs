use sitegen::keyed::KeyedMap;
use sitegen::page::Page;
use sitegen::page::PageFrontMatter;
use sitegen::page::PartialPage;
use sitegen::page_bundle::PageBundle;
use sitegen::render::render_outcome;
use sitegen::render::value_optional_text;
use sitegen::render::RenderError;
use sitegen::shortcode::has_shortcode;
use sitegen::shortcode::ShortcodeManager;
use std::collections::HashMap;

fn page_with(title: Option<&str>, extra: &[(&str, &str)]) -> Page {
    let mut rest = KeyedMap::new();
    for (k, v) in extra {
        rest.insert(k.to_string(), v.to_string());
    }
    let fm = PageFrontMatter::new(
        title.map(str::to_string),
        "2024-01-02".to_string(),
        Some("hello".to_string()),
        false,
        rest,
    );
    Page::try_from_front_matter(fm, "x.md").unwrap()
}

fn engine(templates: &[(&str, &str)]) -> tera::Tera {
    let mut t = tera::Tera::default();
    for (name, body) in templates {
        t.add_raw_template(name, body).unwrap();
    }
    t.autoescape_on(vec![]);
    t
}

#[test]
fn values_hold_what_they_are_made_of() {
    assert_eq!(value_optional_text(Some("a")), tera::Value::String("a".to_string()));
    assert_eq!(value_optional_text(None), tera::Value::Null);
}

#[test]
fn partial_page_value_has_four_fields() {
    let v = PartialPage::from(page_with(Some("A & B"), &[])).to_value();
    let o = v.as_object().unwrap();
    assert_eq!(o.len(), 4);
    assert_eq!(o["slug"], tera::Value::String("hello".to_string()));
    assert_eq!(o["title"], tera::Value::String("A &amp; B".to_string()));
    assert_eq!(o["date"], tera::Value::String("2024-01-02".to_string()));
    assert_eq!(o["draft"], tera::Value::Bool(false));
    let v = PartialPage::from(page_with(None, &[])).to_value();
    assert_eq!(v.as_object().unwrap()["title"], tera::Value::Null);
}

#[test]
fn page_context_holds_fields_and_declared_names() {
    let mut p = page_with(Some("A < B"), &[("author", "me & you"), ("date", "declared")]);
    p.set_content("<p>x</p>".to_string()).set_has_code_block(true);
    let c = p.context();
    assert_eq!(c.get("content"), Some(&tera::Value::String("<p>x</p>".to_string())));
    assert_eq!(c.get("slug"), Some(&tera::Value::String("hello".to_string())));
    assert_eq!(c.get("title"), Some(&tera::Value::String("A &lt; B".to_string())));
    assert_eq!(c.get("has_code_block"), Some(&tera::Value::Bool(true)));
    assert_eq!(c.get("draft"), Some(&tera::Value::Bool(false)));
    assert_eq!(c.get("author"), Some(&tera::Value::String("me &amp; you".to_string())));
    // a declared name takes the place of a field
    assert_eq!(c.get("date"), Some(&tera::Value::String("declared".to_string())));
    let c = page_with(None, &[]).context();
    assert_eq!(c.get("title"), Some(&tera::Value::Null));
    assert_eq!(c.get("content"), Some(&tera::Value::Null));
    assert_eq!(c.get("author"), None);
}

#[test]
fn page_is_rendered_with_the_page_template() {
    let t = engine(&[("page.html", "<h1>{{ title }}</h1>{{ content }}|{{ slug }}|{{ date }}")]);
    let mut p = page_with(Some("A & B"), &[]);
    p.set_content("<p>body</p>".to_string());
    assert_eq!(
        p.parbake(&t),
        Ok("<h1>A &amp; B</h1><p>body</p>|hello|2024-01-02".to_string())
    );
}

#[test]
fn missing_page_template_is_reported() {
    let t = engine(&[]);
    let p = page_with(None, &[]);
    assert_eq!(p.parbake(&t), Err(RenderError::TemplateNotFound("page.html".to_string())));
}

#[test]
fn missing_index_template_is_reported() {
    let t = engine(&[("page.html", "{{ slug }}")]);
    let mut bundle = PageBundle::default();
    bundle.add_page(page_with(None, &[]));
    assert_eq!(bundle.parbake(&t), Err(RenderError::TemplateNotFound("index.html".to_string())));
    let missing: Result<String, tera::Error> = Err(tera::Error::template_not_found("x.html"));
    assert_eq!(render_outcome(missing), Err(RenderError::TemplateNotFound("x.html".to_string())));
}

#[test]
fn other_engine_failures_come_in_words() {
    let t = engine(&[("page.html", "{{ nothing_of_that_name }}")]);
    match page_with(None, &[]).parbake(&t) {
        Err(RenderError::Other(words)) => assert!(!words.is_empty()),
        other => panic!("a failure in words was expected, not {other:?}"),
    }
    let e: Result<String, tera::Error> = Err(tera::Error::msg("boom"));
    assert_eq!(render_outcome(e), Err(RenderError::Other("boom".to_string())));
    assert_eq!(render_outcome(Ok("text".to_string())), Ok("text".to_string()));
}

#[test]
fn index_lists_the_pages_in_the_order_of_the_bundle() {
    let t = engine(&[(
        "index.html",
        "{% for p in pages %}[{{ p.slug }}:{{ p.date }}:{{ p.title }}]{% endfor %}",
    )]);
    let mut bundle = PageBundle::default();
    for (slug, date) in [("a", "2024-01-01"), ("b", "2024-03-01")] {
        let fm = PageFrontMatter::new(
            Some(format!("<{slug}>")),
            date.to_string(),
            Some(slug.to_string()),
            false,
            KeyedMap::new(),
        );
        bundle.add_page(Page::try_from_front_matter(fm, "x.md").unwrap());
    }
    assert_eq!(
        bundle.parbake(&t),
        Ok("[a:2024-01-01:&lt;a&gt;][b:2024-03-01:&lt;b&gt;]".to_string())
    );
    bundle.sort_pages();
    assert_eq!(
        bundle.parbake(&t),
        Ok("[b:2024-03-01:&lt;b&gt;][a:2024-01-01:&lt;a&gt;]".to_string())
    );
    assert_eq!(PageBundle::default().parbake(&t), Ok(String::new()));
}

#[test]
fn shortcodes_are_found_by_their_start() {
    assert!(has_shortcode("before {{ youtube(id=\"x\") }} after"));
    assert!(has_shortcode("{{-note()}}"));
    assert!(has_shortcode("{{  _a1  (x=1) }}"));
    assert!(!has_shortcode("{{ name }}"));
    assert!(!has_shortcode("{ name() }"));
    assert!(!has_shortcode("{{ 1abc() }}"));
    assert!(!has_shortcode(""));
    assert!(!has_shortcode("plain text with (parentheses)"));
}

fn shout(args: &HashMap<String, tera::Value>) -> tera::Result<tera::Value> {
    let text = args.get("text").and_then(|v| v.as_str()).unwrap_or("");
    Ok(tera::Value::String(text.to_uppercase()))
}

#[test]
fn shortcodes_are_rendered_by_the_engine() {
    let mut t = tera::Tera::default();
    t.register_function("shout", shout);
    let mut m = ShortcodeManager::new(Some(t));
    assert_eq!(
        m.render_shortcodes("say {{ shout(text=\"hi\") }}!".to_string()),
        Ok("say HI!".to_string())
    );
    // no shortcode: the engine is not asked, the text comes back as it is
    assert_eq!(
        m.render_shortcodes("{{ not_rendered }} {% broken".to_string()),
        Ok("{{ not_rendered }} {% broken".to_string())
    );
    assert!(m.render_shortcodes("{{ unknown() }}".to_string()).is_err());
}

#[test]
fn site_without_shortcode_templates_keeps_the_content() {
    let mut m = ShortcodeManager::new(None);
    assert_eq!(
        m.render_shortcodes("say {{ shout(text=\"hi\") }}!".to_string()),
        Ok("say {{ shout(text=\"hi\") }}!".to_string())
    );
}
